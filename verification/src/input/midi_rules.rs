//! Rules for assigning a MIDI binding: a trigger may drive one action only.
//! Assigning it either reports the first action that already holds it, or,
//! when the caller asks to replace, takes it away from every other holder.
use crate::input::midi_binding::{conflict, conflict_text, same, same_trigger, shown_name};
use crate::model::{
    active_index, active_paleta_index, no_active_profile, profile_has_id, profile_scope,
    AppConfig, AudioSettings, ButtonData, MidiBinding, Paleta, ProfileData,
};
use crate::seqs::{
    any, first_index, is_first, lemma_any_first, lemma_first_is, lemma_first_none, lemma_no_first,
};
use crate::text::{dec, dec_chars, push_chars, push_str, str_eq, string_of};
use vstd::prelude::*;

verus! {

/// A binding reset to the unassigned state.
pub open spec fn cleared(m: MidiBinding) -> bool {
    &&& m.device_id@.len() == 0
    &&& m.device_name@.len() == 0
    &&& m.message@.len() == 0
    &&& m.channel == 0
    &&& m.number == 0
}

/// Button `bt` holds `b` and is not the one being assigned (`skip`).
pub open spec fn button_hit(bt: ButtonData, b: MidiBinding, skip: Option<u32>) -> bool {
    same_trigger(bt.midi, b) && skip != Some(bt.index)
}

pub open spec fn button_hit_pred(b: MidiBinding, skip: Option<u32>) -> spec_fn(ButtonData) -> bool {
    |bt: ButtonData| button_hit(bt, b, skip)
}

/// Tab `t` holds `b` and is not the one being assigned (`skip`).
pub open spec fn tab_hit(t: Paleta, b: MidiBinding, skip: Option<Seq<char>>) -> bool {
    same_trigger(t.midi, b) && skip != Some(t.id@)
}

pub open spec fn tab_hit_pred(b: MidiBinding, skip: Option<Seq<char>>) -> spec_fn(Paleta) -> bool {
    |t: Paleta| tab_hit(t, b, skip)
}

/// Some button of tab `t` holds `b`.
pub open spec fn tab_has_button_hit(b: MidiBinding) -> spec_fn(Paleta) -> bool {
    |t: Paleta| any(t.botones@, button_hit_pred(b, None))
}

/// `n` is `o`, with its binding cleared when `hit`.
pub open spec fn button_rel(o: ButtonData, n: ButtonData, hit: bool) -> bool {
    if hit {
        cleared(n.midi) && n == ButtonData { midi: n.midi, ..o }
    } else {
        n == o
    }
}

/// `n` is `o` with the binding of every button that holds `b` (but `skip`) cleared.
pub open spec fn buttons_rel(
    o: Seq<ButtonData>,
    n: Seq<ButtonData>,
    b: MidiBinding,
    skip: Option<u32>,
) -> bool {
    &&& n.len() == o.len()
    &&& forall|i: int| 0 <= i < o.len() ==> button_rel(o[i], #[trigger] n[i], button_hit(o[i], b, skip))
}

/// How the buttons of a tab are treated.
pub enum ButtonsMode {
    Keep,
    Clear(Option<u32>),
}

/// `n` is `o` with its own binding cleared when `hit`, and its buttons kept or
/// cleared as `mode` says.
pub open spec fn tab_rel(o: Paleta, n: Paleta, hit: bool, b: MidiBinding, mode: ButtonsMode) -> bool {
    &&& n == Paleta { midi: n.midi, botones: n.botones, ..o }
    &&& if hit {
        cleared(n.midi)
    } else {
        n.midi == o.midi
    }
    &&& match mode {
        ButtonsMode::Keep => n.botones == o.botones,
        ButtonsMode::Clear(skip) => buttons_rel(o.botones@, n.botones@, b, skip),
    }
}

/// Every tab of `o` that holds `b` (but `skip`) has its binding cleared; the
/// buttons of tab `j` are treated as `mode(j)` says.
pub open spec fn tabs_rel(
    o: Seq<Paleta>,
    n: Seq<Paleta>,
    b: MidiBinding,
    skip: Option<Seq<char>>,
    clear_tabs: bool,
    mode: spec_fn(int) -> ButtonsMode,
) -> bool {
    &&& n.len() == o.len()
    &&& forall|j: int|
        0 <= j < o.len() ==> tab_rel(o[j], #[trigger] n[j], clear_tabs && tab_hit(o[j], b, skip), b, mode(j))
}

/// The style of the target named in a button conflict.
pub enum TargetStyle {
    /// A fixed-panel button: its shown name.
    Fixed,
    /// A button of the active tab: its index and shown name.
    InTab,
    /// A button of any tab: the tab name, `" - "` and the shown name.
    Anywhere,
}

pub open spec fn style_code(style: TargetStyle) -> Seq<char> {
    match style {
        TargetStyle::Fixed => "midi_conflict_fixed"@,
        TargetStyle::InTab => "midi_conflict_button"@,
        TargetStyle::Anywhere => "midi_conflict_button_any"@,
    }
}

pub open spec fn button_target(style: TargetStyle, tab_name: Seq<char>, bt: ButtonData) -> Seq<char> {
    match style {
        TargetStyle::Fixed => shown_name(bt.name@, bt.label@),
        TargetStyle::InTab => dec(bt.index as nat) + " "@ + shown_name(bt.name@, bt.label@),
        TargetStyle::Anywhere => tab_name + " - "@ + shown_name(bt.name@, bt.label@),
    }
}

/// The error for the first button of `s` that holds `b` (but `skip`), if any.
pub open spec fn first_button_conflict(
    s: Seq<ButtonData>,
    b: MidiBinding,
    skip: Option<u32>,
    style: TargetStyle,
    tab_name: Seq<char>,
) -> Option<Seq<char>> {
    match first_index(s, button_hit_pred(b, skip)) {
        Some(i) => Some(conflict_text(style_code(style), b, button_target(style, tab_name, s[i]))),
        None => None,
    }
}

/// The error for the first tab of `s` that holds `b` (but `skip`), if any.
pub open spec fn first_tab_conflict(s: Seq<Paleta>, b: MidiBinding, skip: Option<Seq<char>>) -> Option<
    Seq<char>,
> {
    match first_index(s, tab_hit_pred(b, skip)) {
        Some(i) => Some(conflict_text("midi_conflict_tab"@, b, s[i].nombre@)),
        None => None,
    }
}

/// The error for the first button, tab by tab, that holds `b`, if any.
pub open spec fn first_nested_conflict(s: Seq<Paleta>, b: MidiBinding) -> Option<Seq<char>> {
    match first_index(s, tab_has_button_hit(b)) {
        Some(i) => first_button_conflict(
            s[i].botones@,
            b,
            None,
            TargetStyle::Anywhere,
            s[i].nombre@,
        ),
        None => None,
    }
}

pub open spec fn unit_view(r: Result<(), String>) -> Result<(), Seq<char>> {
    match r {
        Ok(()) => Ok(()),
        Err(e) => Err(e@),
    }
}

pub open spec fn check_of(c: Option<Seq<char>>) -> Result<(), Seq<char>> {
    match c {
        Some(e) => Err(e),
        None => Ok(()),
    }
}

/// One of the profile's global controls (stop, next, previous) holds `b`.
pub open spec fn global_blocked(a: AudioSettings, b: MidiBinding) -> bool {
    same_trigger(a.midi_stop, b) || same_trigger(a.midi_next, b) || same_trigger(a.midi_prev, b)
}

pub open spec fn blocked_text(b: MidiBinding) -> Seq<char> {
    conflict_text("midi_blocked_global"@, b, ""@)
}

fn unassigned_binding(m: &mut MidiBinding)
    ensures
        cleared(*final(m)),
{
    *m = MidiBinding::unassigned();
}

fn button_conflict(
    bt: &ButtonData,
    b: &MidiBinding,
    style: &TargetStyle,
    tab_name: &str,
) -> (r: String)
    ensures
        r@ == conflict_text(style_code(*style), *b, button_target(*style, tab_name@, *bt)),
{
    let shown = crate::input::midi_binding::name(bt.name.as_str(), bt.label.as_str());
    match style {
        TargetStyle::Fixed => conflict("midi_conflict_fixed", b, shown.as_str()),
        TargetStyle::InTab => {
            let mut v = dec_chars(bt.index as u64);
            push_str(&mut v, " ");
            push_str(&mut v, shown.as_str());
            let target = string_of(v.as_slice());
            conflict("midi_conflict_button", b, target.as_str())
        },
        TargetStyle::Anywhere => {
            let mut v: Vec<char> = Vec::new();
            push_str(&mut v, tab_name);
            push_str(&mut v, " - ");
            push_str(&mut v, shown.as_str());
            let target = string_of(v.as_slice());
            conflict("midi_conflict_button_any", b, target.as_str())
        },
    }
}

pub open spec fn opt_view(r: Option<String>) -> Option<Seq<char>> {
    match r {
        Some(s) => Some(s@),
        None => None,
    }
}

pub open spec fn skip_view(skip: Option<&str>) -> Option<Seq<char>> {
    match skip {
        Some(s) => Some(s@),
        None => None,
    }
}

/// The error for the first button of `buttons` but `skip` that holds `b`.
fn find_button_conflict(
    buttons: &Vec<ButtonData>,
    b: &MidiBinding,
    skip: Option<u32>,
    style: &TargetStyle,
    tab_name: &str,
) -> (r: Option<String>)
    ensures
        opt_view(r) == first_button_conflict(buttons@, *b, skip, *style, tab_name@),
{
    let ghost p = button_hit_pred(*b, skip);
    let mut i: usize = 0;
    while i < buttons.len()
        invariant
            i <= buttons.len(),
            p == button_hit_pred(*b, skip),
            forall|j: int| 0 <= j < i ==> !p(#[trigger] buttons@[j]),
        decreases buttons.len() - i,
    {
        if same(&buttons[i].midi, b) && skip != Some(buttons[i].index) {
            proof {
                assert(p(buttons@[i as int]));
                lemma_first_is(buttons@, p, i as int);
            }
            return Some(button_conflict(&buttons[i], b, style, tab_name));
        }
        i += 1;
    }
    proof {
        lemma_first_none(buttons@, p);
    }
    None
}

/// Takes `b` away from every button of `buttons` but `skip`.
fn clear_button_bindings(buttons: &mut Vec<ButtonData>, b: &MidiBinding, skip: Option<u32>)
    ensures
        buttons_rel(old(buttons)@, final(buttons)@, *b, skip),
{
    let mut i: usize = 0;
    while i < buttons.len()
        invariant
            i <= buttons.len(),
            buttons.len() == old(buttons).len(),
            forall|j: int|
                0 <= j < i ==> button_rel(old(buttons)@[j], #[trigger] buttons@[j], button_hit(old(buttons)@[j], *b, skip)),
            forall|j: int| i <= j < buttons.len() ==> #[trigger] buttons@[j] == old(buttons)@[j],
        decreases buttons.len() - i,
    {
        if same(&buttons[i].midi, b) && skip != Some(buttons[i].index) {
            unassigned_binding(&mut buttons[i].midi);
        }
        i += 1;
    }
}

/// The error for the first tab of `tabs` but `skip` that holds `b`.
fn find_tab_conflict(tabs: &Vec<Paleta>, b: &MidiBinding, skip: Option<&str>) -> (r: Option<String>)
    ensures
        opt_view(r) == first_tab_conflict(tabs@, *b, skip_view(skip)),
{
    let ghost p = tab_hit_pred(*b, skip_view(skip));
    let mut i: usize = 0;
    while i < tabs.len()
        invariant
            i <= tabs.len(),
            p == tab_hit_pred(*b, skip_view(skip)),
            forall|j: int| 0 <= j < i ==> !p(#[trigger] tabs@[j]),
        decreases tabs.len() - i,
    {
        let skipped = match skip {
            Some(s) => str_eq(tabs[i].id.as_str(), s),
            None => false,
        };
        if same(&tabs[i].midi, b) && !skipped {
            proof {
                assert(p(tabs@[i as int]));
                lemma_first_is(tabs@, p, i as int);
            }
            return Some(conflict("midi_conflict_tab", b, tabs[i].nombre.as_str()));
        }
        i += 1;
    }
    proof {
        lemma_first_none(tabs@, p);
    }
    None
}

/// Takes `b` away from every tab of `tabs` but `skip`.
fn clear_tab_bindings(tabs: &mut Vec<Paleta>, b: &MidiBinding, skip: Option<&str>)
    ensures
        tabs_rel(old(tabs)@, final(tabs)@, *b, skip_view(skip), true, |j: int| ButtonsMode::Keep),
{
    let mut i: usize = 0;
    while i < tabs.len()
        invariant
            i <= tabs.len(),
            tabs.len() == old(tabs).len(),
            forall|j: int|
                0 <= j < i ==> tab_rel(
                    old(tabs)@[j],
                    #[trigger] tabs@[j],
                    tab_hit(old(tabs)@[j], *b, skip_view(skip)),
                    *b,
                    ButtonsMode::Keep,
                ),
            forall|j: int| i <= j < tabs.len() ==> #[trigger] tabs@[j] == old(tabs)@[j],
        decreases tabs.len() - i,
    {
        let skipped = match skip {
            Some(s) => str_eq(tabs[i].id.as_str(), s),
            None => false,
        };
        if same(&tabs[i].midi, b) && !skipped {
            unassigned_binding(&mut tabs[i].midi);
        }
        i += 1;
    }
}

/// The error for the first button, tab by tab, that holds `b`.
fn find_nested_conflict(tabs: &Vec<Paleta>, b: &MidiBinding) -> (r: Option<String>)
    ensures
        opt_view(r) == first_nested_conflict(tabs@, *b),
{
    let ghost p = tab_has_button_hit(*b);
    let mut i: usize = 0;
    while i < tabs.len()
        invariant
            i <= tabs.len(),
            p == tab_has_button_hit(*b),
            forall|j: int| 0 <= j < i ==> !p(#[trigger] tabs@[j]),
        decreases tabs.len() - i,
    {
        let found = find_button_conflict(
            &tabs[i].botones,
            b,
            None,
            &TargetStyle::Anywhere,
            tabs[i].nombre.as_str(),
        );
        proof {
            let t = tabs@[i as int];
            let q = button_hit_pred(*b, None);
            match first_index(t.botones@, q) {
                Some(k) => {
                    assert(is_first(t.botones@, q, k));
                    assert(p(t));
                    lemma_first_is(tabs@, p, i as int);
                },
                None => {
                    if p(t) {
                        let k = choose|k: int| 0 <= k < t.botones@.len() && q(#[trigger] t.botones@[k]);
                        lemma_any_first(t.botones@, q, k);
                    }
                },
            }
        }
        if found.is_some() {
            return found;
        }
        i += 1;
    }
    proof {
        lemma_first_none(tabs@, p);
    }
    None
}

/// Takes `b` away from every button of every tab.
fn clear_nested_bindings(tabs: &mut Vec<Paleta>, b: &MidiBinding)
    ensures
        tabs_rel(old(tabs)@, final(tabs)@, *b, None, false, |j: int| ButtonsMode::Clear(None)),
{
    let mut i: usize = 0;
    while i < tabs.len()
        invariant
            i <= tabs.len(),
            tabs.len() == old(tabs).len(),
            forall|j: int|
                0 <= j < i ==> tab_rel(old(tabs)@[j], #[trigger] tabs@[j], false, *b, ButtonsMode::Clear(None)),
            forall|j: int| i <= j < tabs.len() ==> #[trigger] tabs@[j] == old(tabs)@[j],
        decreases tabs.len() - i,
    {
        clear_button_bindings(&mut tabs[i].botones, b, None);
        i += 1;
    }
}

fn is_blocked(a: &AudioSettings, b: &MidiBinding) -> (r: bool)
    ensures
        r == global_blocked(*a, *b),
{
    same(&a.midi_stop, b) || same(&a.midi_next, b) || same(&a.midi_prev, b)
}

pub open spec fn missing_tab() -> Seq<char> {
    "Pestana activa no encontrada"@
}

pub open spec fn missing_profile() -> Seq<char> {
    "Perfil no encontrado"@
}

/// `n` is `o` after `b` was taken away from the holders an assignment
/// affects: tabs (but `tab_skip`) of profile `pt` when `clear_tab_midi`, the
/// buttons of its tab `j` as `mode(j)` says, and the fixed buttons (but
/// `fixed_skip`) in force for profile `pf`. Nothing else changes.
pub open spec fn assigned_rel(
    o: AppConfig,
    n: AppConfig,
    b: MidiBinding,
    pt: int,
    tab_skip: Option<Seq<char>>,
    clear_tab_midi: bool,
    mode: spec_fn(int) -> ButtonsMode,
    pf: int,
    fixed_skip: Option<u32>,
) -> bool {
    &&& n.active_profile_id == o.active_profile_id
    &&& n.midi == o.midi
    &&& n.fixed_panel.scope == o.fixed_panel.scope
    &&& n.profiles@.len() == o.profiles@.len()
    &&& forall|q: int|
        0 <= q < o.profiles@.len() && q != pt && q != pf ==> #[trigger] n.profiles@[q] == o.profiles@[q]
    &&& n.profiles@[pt] == ProfileData {
        paletas: n.profiles@[pt].paletas,
        fixed_buttons: n.profiles@[pt].fixed_buttons,
        ..o.profiles@[pt]
    }
    &&& n.profiles@[pf] == ProfileData {
        paletas: n.profiles@[pf].paletas,
        fixed_buttons: n.profiles@[pf].fixed_buttons,
        ..o.profiles@[pf]
    }
    &&& tabs_rel(o.profiles@[pt].paletas@, n.profiles@[pt].paletas@, b, tab_skip, clear_tab_midi, mode)
    &&& pt != pf ==> n.profiles@[pf].paletas == o.profiles@[pf].paletas
    &&& if profile_scope(o) {
        &&& buttons_rel(o.profiles@[pf].fixed_buttons@, n.profiles@[pf].fixed_buttons@, b, fixed_skip)
        &&& n.fixed_panel.global_buttons == o.fixed_panel.global_buttons
        &&& pt != pf ==> n.profiles@[pt].fixed_buttons == o.profiles@[pt].fixed_buttons
    } else {
        &&& buttons_rel(o.fixed_panel.global_buttons@, n.fixed_panel.global_buttons@, b, fixed_skip)
        &&& n.profiles@[pf].fixed_buttons == o.profiles@[pf].fixed_buttons
        &&& n.profiles@[pt].fixed_buttons == o.profiles@[pt].fixed_buttons
    }
}

/// Modes of `apply_button`: the active tab's buttons but `index` are cleared.
pub open spec fn active_tab_mode(ti: Option<int>, index: u32) -> spec_fn(int) -> ButtonsMode {
    |j: int|
        if ti == Some(j) {
            ButtonsMode::Clear(Some(index))
        } else {
            ButtonsMode::Keep
        }
}

/// Result of assigning `b` to button `index` of the active tab without
/// replacing: the first holder found, in the order global controls, tabs,
/// fixed buttons, buttons of the active tab.
pub open spec fn button_check(cfg: AppConfig, index: u32, b: MidiBinding) -> Result<(), Seq<char>> {
    match active_index(cfg) {
        None => Err(no_active_profile()),
        Some(pi) => {
            let p = cfg.profiles@[pi];
            if global_blocked(p.audio, b) {
                Err(blocked_text(b))
            } else {
                match first_tab_conflict(p.paletas@, b, None) {
                    Some(e) => Err(e),
                    None => match first_button_conflict(
                        crate::model::fixed_of(cfg, p),
                        b,
                        None,
                        TargetStyle::Fixed,
                        ""@,
                    ) {
                        Some(e) => Err(e),
                        None => match active_paleta_index(p) {
                            None => Err(missing_tab()),
                            Some(ti) => check_of(
                                first_button_conflict(
                                    p.paletas@[ti].botones@,
                                    b,
                                    Some(index),
                                    TargetStyle::InTab,
                                    ""@,
                                ),
                            ),
                        },
                    },
                }
            }
        },
    }
}

proof fn lemma_tabs_keep_then(
    o: Seq<Paleta>,
    m: Seq<Paleta>,
    n: Seq<Paleta>,
    b: MidiBinding,
    skip: Option<Seq<char>>,
    mode: spec_fn(int) -> ButtonsMode,
)
    requires
        tabs_rel(o, m, b, skip, true, |j: int| ButtonsMode::Keep),
        tabs_rel(m, n, b, None, false, mode),
    ensures
        tabs_rel(o, n, b, skip, true, mode),
{
    assert forall|j: int| 0 <= j < o.len() implies tab_rel(
        o[j],
        #[trigger] n[j],
        true && tab_hit(o[j], b, skip),
        b,
        mode(j),
    ) by {
        assert(tab_rel(o[j], m[j], true && tab_hit(o[j], b, skip), b, (|j: int| ButtonsMode::Keep)(j)));
        assert(tab_rel(m[j], n[j], false && tab_hit(m[j], b, None), b, mode(j)));
    }
}

/// No tab of `tabs` but `skip` holds `b`.
pub open spec fn none_in_tabs(tabs: Seq<Paleta>, b: MidiBinding, skip: Option<Seq<char>>) -> bool {
    forall|j: int| 0 <= j < tabs.len() ==> !tab_hit(#[trigger] tabs[j], b, skip)
}

/// No button of `bs` but `skip` holds `b`.
pub open spec fn none_in_buttons(bs: Seq<ButtonData>, b: MidiBinding, skip: Option<u32>) -> bool {
    forall|j: int| 0 <= j < bs.len() ==> !button_hit(#[trigger] bs[j], b, skip)
}

/// No button of any tab of `tabs` holds `b`.
pub open spec fn none_in_tab_buttons(tabs: Seq<Paleta>, b: MidiBinding) -> bool {
    forall|j: int| 0 <= j < tabs.len() ==> none_in_buttons(#[trigger] tabs[j].botones@, b, None)
}

/// The fixed buttons in force in `n` for profile `pi` (the scope is that of `o`).
pub open spec fn fixed_after(o: AppConfig, n: AppConfig, pi: int) -> Seq<ButtonData> {
    if profile_scope(o) {
        n.profiles@[pi].fixed_buttons@
    } else {
        n.fixed_panel.global_buttons@
    }
}

/// After assigning `b` to button `index` of the active tab, nothing else in
/// reach of that button holds `b`: no tab of the active profile, no fixed
/// button, no other button of the active tab.
pub open spec fn button_exclusive(o: AppConfig, n: AppConfig, index: u32, b: MidiBinding) -> bool {
    match active_index(o) {
        None => true,
        Some(pi) => {
            &&& none_in_tabs(n.profiles@[pi].paletas@, b, None)
            &&& none_in_buttons(fixed_after(o, n, pi), b, None)
            &&& match active_paleta_index(o.profiles@[pi]) {
                Some(ti) => none_in_buttons(n.profiles@[pi].paletas@[ti].botones@, b, Some(index)),
                None => true,
            }
        },
    }
}

/// After assigning `b` to fixed button `index`, nothing else in the active
/// profile holds `b`: no tab, no tab button, no other fixed button.
pub open spec fn fixed_exclusive(o: AppConfig, n: AppConfig, index: u32, b: MidiBinding) -> bool {
    match active_index(o) {
        None => true,
        Some(pi) => {
            &&& none_in_tabs(n.profiles@[pi].paletas@, b, None)
            &&& none_in_tab_buttons(n.profiles@[pi].paletas@, b)
            &&& none_in_buttons(fixed_after(o, n, pi), b, Some(index))
        },
    }
}

/// After assigning `b` to tab `paleta_id` of profile `profile_id`, no other
/// tab of that profile, none of its buttons, and no fixed button holds `b`.
pub open spec fn tab_exclusive(
    o: AppConfig,
    n: AppConfig,
    profile_id: Seq<char>,
    paleta_id: Seq<char>,
    b: MidiBinding,
) -> bool {
    match (active_index(o), first_index(o.profiles@, profile_has_id(profile_id))) {
        (Some(pi), Some(tp)) => {
            &&& none_in_tabs(n.profiles@[tp].paletas@, b, Some(paleta_id))
            &&& none_in_tab_buttons(n.profiles@[tp].paletas@, b)
            &&& none_in_buttons(fixed_after(o, n, pi), b, None)
        },
        _ => true,
    }
}

proof fn lemma_buttons_rel_none(o: Seq<ButtonData>, n: Seq<ButtonData>, b: MidiBinding, skip: Option<u32>)
    requires
        buttons_rel(o, n, b, skip),
    ensures
        none_in_buttons(n, b, skip),
{
    assert forall|j: int| 0 <= j < n.len() implies !button_hit(#[trigger] n[j], b, skip) by {
        assert(button_rel(o[j], n[j], button_hit(o[j], b, skip)));
    }
}

proof fn lemma_no_button_conflict(
    s: Seq<ButtonData>,
    b: MidiBinding,
    skip: Option<u32>,
    style: TargetStyle,
    tab_name: Seq<char>,
)
    requires
        first_button_conflict(s, b, skip, style, tab_name) is None,
    ensures
        none_in_buttons(s, b, skip),
{
    lemma_no_first(s, button_hit_pred(b, skip));
    assert forall|j: int| 0 <= j < s.len() implies !button_hit(#[trigger] s[j], b, skip) by {
        assert(!button_hit_pred(b, skip)(s[j]));
    }
}

proof fn lemma_no_tab_conflict(s: Seq<Paleta>, b: MidiBinding, skip: Option<Seq<char>>)
    requires
        first_tab_conflict(s, b, skip) is None,
    ensures
        none_in_tabs(s, b, skip),
{
    lemma_no_first(s, tab_hit_pred(b, skip));
    assert forall|j: int| 0 <= j < s.len() implies !tab_hit(#[trigger] s[j], b, skip) by {
        assert(!tab_hit_pred(b, skip)(s[j]));
    }
}

proof fn lemma_no_nested_conflict(s: Seq<Paleta>, b: MidiBinding)
    requires
        first_nested_conflict(s, b) is None,
    ensures
        none_in_tab_buttons(s, b),
{
    let p = tab_has_button_hit(b);
    let q = button_hit_pred(b, None);
    match first_index(s, p) {
        Some(i) => {
            assert(is_first(s, p, i));
            let k = choose|k: int| 0 <= k < s[i].botones@.len() && q(#[trigger] s[i].botones@[k]);
            lemma_any_first(s[i].botones@, q, k);
        },
        None => {
            lemma_no_first(s, p);
            assert forall|j: int| 0 <= j < s.len() implies none_in_buttons(#[trigger] s[j].botones@, b, None) by {
                assert(!p(s[j]));
                assert forall|k: int| 0 <= k < s[j].botones@.len() implies !button_hit(#[trigger] s[j].botones@[k], b, None) by {
                    assert(!q(s[j].botones@[k]));
                }
            }
        },
    }
}

proof fn lemma_tabs_rel_none(
    o: Seq<Paleta>,
    n: Seq<Paleta>,
    b: MidiBinding,
    skip: Option<Seq<char>>,
    mode: spec_fn(int) -> ButtonsMode,
)
    requires
        tabs_rel(o, n, b, skip, true, mode),
    ensures
        none_in_tabs(n, b, skip),
{
    assert forall|j: int| 0 <= j < n.len() implies !tab_hit(#[trigger] n[j], b, skip) by {
        assert(tab_rel(o[j], n[j], true && tab_hit(o[j], b, skip), b, mode(j)));
    }
}

proof fn lemma_tabs_rel_buttons_none(
    o: Seq<Paleta>,
    n: Seq<Paleta>,
    b: MidiBinding,
    skip: Option<Seq<char>>,
)
    requires
        tabs_rel(o, n, b, skip, true, |j: int| ButtonsMode::Clear(None)),
    ensures
        none_in_tab_buttons(n, b),
{
    assert forall|j: int| 0 <= j < n.len() implies none_in_buttons(#[trigger] n[j].botones@, b, None) by {
        assert(tab_rel(o[j], n[j], true && tab_hit(o[j], b, skip), b, (|j: int| ButtonsMode::Clear(None))(j)));
        lemma_buttons_rel_none(o[j].botones@, n[j].botones@, b, None);
    }
}

/// Assigns `b` to button `index` of the active tab. Without `replace`,
/// reports the first other holder and changes nothing; with it, takes `b`
/// away from every other holder.
pub fn apply_button(cfg: &mut AppConfig, index: u32, binding: &MidiBinding, replace: bool) -> (r:
    Result<(), String>)
    ensures
        binding.blank() ==> r is Ok && *final(cfg) == *old(cfg),
        !binding.blank() && !replace ==> *final(cfg) == *old(cfg) && unit_view(r) == button_check(
            *old(cfg),
            index,
            *binding,
        ),
        !binding.blank() && r is Ok ==> button_exclusive(*old(cfg), *final(cfg), index, *binding),
        !binding.blank() && replace ==> match active_index(*old(cfg)) {
            None => unit_view(r) == Err::<(), Seq<char>>(no_active_profile()) && *final(cfg) == *old(cfg),
            Some(pi) => {
                let p = old(cfg).profiles@[pi];
                if global_blocked(p.audio, *binding) {
                    unit_view(r) == Err::<(), Seq<char>>(blocked_text(*binding)) && *final(cfg) == *old(cfg)
                } else {
                    &&& unit_view(r) == (if active_paleta_index(p) is None {
                        Err::<(), Seq<char>>(missing_tab())
                    } else {
                        Ok::<(), Seq<char>>(())
                    })
                    &&& assigned_rel(
                        *old(cfg),
                        *final(cfg),
                        *binding,
                        pi,
                        None,
                        true,
                        active_tab_mode(active_paleta_index(p), index),
                        pi,
                        None,
                    )
                }
            },
        },
{
    if binding.is_empty() {
        return Ok(());
    }
    let pi = match cfg.active_profile_position() {
        Some(pi) => pi,
        None => return Err("Perfil activo no encontrado".to_owned()),
    };
    if is_blocked(&cfg.profiles[pi].audio, binding) {
        return Err(conflict("midi_blocked_global", binding, ""));
    }
    let ti = cfg.profiles[pi].active_paleta_position();
    let fixed_scope = cfg.is_profile_scope();
    proof {
        reveal_strlit("");
    }
    if !replace {
        if let Some(e) = find_tab_conflict(&cfg.profiles[pi].paletas, binding, None) {
            return Err(e);
        }
        let fixed = if fixed_scope {
            &cfg.profiles[pi].fixed_buttons
        } else {
            &cfg.fixed_panel.global_buttons
        };
        if let Some(e) = find_button_conflict(fixed, binding, None, &TargetStyle::Fixed, "") {
            return Err(e);
        }
        let ti = match ti {
            Some(ti) => ti,
            None => return Err("Pestana activa no encontrada".to_owned()),
        };
        let found = find_button_conflict(
            &cfg.profiles[pi].paletas[ti].botones,
            binding,
            Some(index),
            &TargetStyle::InTab,
            "",
        );
        if let Some(e) = found {
            return Err(e);
        }
        proof {
            let p = cfg.profiles@[pi as int];
            lemma_no_tab_conflict(p.paletas@, *binding, None);
            lemma_no_button_conflict(crate::model::fixed_of(*cfg, p), *binding, None, TargetStyle::Fixed, ""@);
            lemma_no_button_conflict(p.paletas@[ti as int].botones@, *binding, Some(index), TargetStyle::InTab, ""@);
        }
        return Ok(());
    }
    let ghost o = *old(cfg);
    clear_tab_bindings(&mut cfg.profiles[pi].paletas, binding, None);
    if fixed_scope {
        clear_button_bindings(&mut cfg.profiles[pi].fixed_buttons, binding, None);
    } else {
        clear_button_bindings(&mut cfg.fixed_panel.global_buttons, binding, None);
    }
    let ghost c2 = *cfg;
    let ti = match ti {
        Some(ti) => ti,
        None => {
            return Err("Pestana activa no encontrada".to_owned());
        },
    };
    clear_button_bindings(&mut cfg.profiles[pi].paletas[ti].botones, binding, Some(index));
    proof {
        let mode = active_tab_mode(Some(ti as int), index);
        let m = c2.profiles@[pi as int].paletas@;
        let n = cfg.profiles@[pi as int].paletas@;
        assert forall|j: int| 0 <= j < m.len() implies tab_rel(
            m[j],
            #[trigger] n[j],
            false && tab_hit(m[j], *binding, None),
            *binding,
            mode(j),
        ) by {
            if j != ti {
                assert(n[j] == m[j]);
            }
        }
        lemma_tabs_keep_then(o.profiles@[pi as int].paletas@, m, n, *binding, None, mode);
        lemma_tabs_rel_none(o.profiles@[pi as int].paletas@, n, *binding, None, mode);
        assert(tab_rel(o.profiles@[pi as int].paletas@[ti as int], n[ti as int], true && tab_hit(o.profiles@[pi as int].paletas@[ti as int], *binding, None), *binding, mode(ti as int)));
        lemma_buttons_rel_none(
            o.profiles@[pi as int].paletas@[ti as int].botones@,
            n[ti as int].botones@,
            *binding,
            Some(index),
        );
        if fixed_scope {
            lemma_buttons_rel_none(o.profiles@[pi as int].fixed_buttons@, cfg.profiles@[pi as int].fixed_buttons@, *binding, None);
        } else {
            lemma_buttons_rel_none(o.fixed_panel.global_buttons@, cfg.fixed_panel.global_buttons@, *binding, None);
        }
    }
    Ok(())
}

/// Result of assigning `b` to fixed button `index` without replacing: the
/// first holder found, in the order global controls, tabs, tab buttons,
/// other fixed buttons.
pub open spec fn fixed_check(cfg: AppConfig, index: u32, b: MidiBinding) -> Result<(), Seq<char>> {
    match active_index(cfg) {
        None => Err(no_active_profile()),
        Some(pi) => {
            let p = cfg.profiles@[pi];
            if global_blocked(p.audio, b) {
                Err(blocked_text(b))
            } else {
                match first_tab_conflict(p.paletas@, b, None) {
                    Some(e) => Err(e),
                    None => match first_nested_conflict(p.paletas@, b) {
                        Some(e) => Err(e),
                        None => check_of(
                            first_button_conflict(
                                crate::model::fixed_of(cfg, p),
                                b,
                                Some(index),
                                TargetStyle::Fixed,
                                ""@,
                            ),
                        ),
                    },
                }
            }
        },
    }
}

/// Assigns `b` to fixed button `index`. Without `replace`, reports the first
/// other holder and changes nothing; with it, takes `b` away from every
/// other holder.
pub fn apply_fixed(cfg: &mut AppConfig, index: u32, binding: &MidiBinding, replace: bool) -> (r:
    Result<(), String>)
    ensures
        binding.blank() ==> r is Ok && *final(cfg) == *old(cfg),
        !binding.blank() && !replace ==> *final(cfg) == *old(cfg) && unit_view(r) == fixed_check(
            *old(cfg),
            index,
            *binding,
        ),
        !binding.blank() && r is Ok ==> fixed_exclusive(*old(cfg), *final(cfg), index, *binding),
        !binding.blank() && replace ==> match active_index(*old(cfg)) {
            None => unit_view(r) == Err::<(), Seq<char>>(no_active_profile()) && *final(cfg) == *old(cfg),
            Some(pi) => {
                let p = old(cfg).profiles@[pi];
                if global_blocked(p.audio, *binding) {
                    unit_view(r) == Err::<(), Seq<char>>(blocked_text(*binding)) && *final(cfg) == *old(cfg)
                } else {
                    &&& r is Ok
                    &&& assigned_rel(
                        *old(cfg),
                        *final(cfg),
                        *binding,
                        pi,
                        None,
                        true,
                        |j: int| ButtonsMode::Clear(None),
                        pi,
                        Some(index),
                    )
                }
            },
        },
{
    if binding.is_empty() {
        return Ok(());
    }
    let pi = match cfg.active_profile_position() {
        Some(pi) => pi,
        None => return Err("Perfil activo no encontrado".to_owned()),
    };
    if is_blocked(&cfg.profiles[pi].audio, binding) {
        return Err(conflict("midi_blocked_global", binding, ""));
    }
    let fixed_scope = cfg.is_profile_scope();
    proof {
        reveal_strlit("");
    }
    if !replace {
        if let Some(e) = find_tab_conflict(&cfg.profiles[pi].paletas, binding, None) {
            return Err(e);
        }
        if let Some(e) = find_nested_conflict(&cfg.profiles[pi].paletas, binding) {
            return Err(e);
        }
        let fixed = if fixed_scope {
            &cfg.profiles[pi].fixed_buttons
        } else {
            &cfg.fixed_panel.global_buttons
        };
        if let Some(e) = find_button_conflict(fixed, binding, Some(index), &TargetStyle::Fixed, "") {
            return Err(e);
        }
        proof {
            let p = cfg.profiles@[pi as int];
            lemma_no_tab_conflict(p.paletas@, *binding, None);
            lemma_no_nested_conflict(p.paletas@, *binding);
            lemma_no_button_conflict(crate::model::fixed_of(*cfg, p), *binding, Some(index), TargetStyle::Fixed, ""@);
        }
        return Ok(());
    }
    let ghost o = *old(cfg);
    clear_tab_bindings(&mut cfg.profiles[pi].paletas, binding, None);
    let ghost c1 = *cfg;
    clear_nested_bindings(&mut cfg.profiles[pi].paletas, binding);
    proof {
        lemma_tabs_keep_then(
            o.profiles@[pi as int].paletas@,
            c1.profiles@[pi as int].paletas@,
            cfg.profiles@[pi as int].paletas@,
            *binding,
            None,
            |j: int| ButtonsMode::Clear(None),
        );
    }
    if fixed_scope {
        clear_button_bindings(&mut cfg.profiles[pi].fixed_buttons, binding, Some(index));
    } else {
        clear_button_bindings(&mut cfg.fixed_panel.global_buttons, binding, Some(index));
    }
    proof {
        let on = o.profiles@[pi as int].paletas@;
        let nn = cfg.profiles@[pi as int].paletas@;
        lemma_tabs_rel_none(on, nn, *binding, None, |j: int| ButtonsMode::Clear(None));
        lemma_tabs_rel_buttons_none(on, nn, *binding, None);
        if fixed_scope {
            lemma_buttons_rel_none(o.profiles@[pi as int].fixed_buttons@, cfg.profiles@[pi as int].fixed_buttons@, *binding, Some(index));
        } else {
            lemma_buttons_rel_none(o.fixed_panel.global_buttons@, cfg.fixed_panel.global_buttons@, *binding, Some(index));
        }
    }
    Ok(())
}

/// Index of the first profile whose id is `id`.
fn profile_position(cfg: &AppConfig, id: &str) -> (r: Option<usize>)
    ensures
        match r {
            Some(i) => first_index(cfg.profiles@, profile_has_id(id@)) == Some(i as int),
            None => first_index(cfg.profiles@, profile_has_id(id@)) is None,
        },
{
    let ghost p = profile_has_id(id@);
    let mut i: usize = 0;
    while i < cfg.profiles.len()
        invariant
            i <= cfg.profiles.len(),
            p == profile_has_id(id@),
            forall|j: int| 0 <= j < i ==> !p(#[trigger] cfg.profiles@[j]),
        decreases cfg.profiles.len() - i,
    {
        if str_eq(cfg.profiles[i].id.as_str(), id) {
            proof {
                lemma_first_is(cfg.profiles@, p, i as int);
            }
            return Some(i);
        }
        i += 1;
    }
    proof {
        lemma_first_none(cfg.profiles@, p);
    }
    None
}

/// Result of assigning `b` to tab `paleta_id` of profile `profile_id`
/// without replacing: the first holder found, in the order global controls,
/// other tabs of that profile, its buttons, fixed buttons.
pub open spec fn tab_check(
    cfg: AppConfig,
    profile_id: Seq<char>,
    paleta_id: Seq<char>,
    b: MidiBinding,
) -> Result<(), Seq<char>> {
    match active_index(cfg) {
        None => Err(no_active_profile()),
        Some(pi) => {
            if global_blocked(cfg.profiles@[pi].audio, b) {
                Err(blocked_text(b))
            } else {
                match first_index(cfg.profiles@, profile_has_id(profile_id)) {
                    None => Err(missing_profile()),
                    Some(tp) => {
                        let t = cfg.profiles@[tp];
                        match first_tab_conflict(t.paletas@, b, Some(paleta_id)) {
                            Some(e) => Err(e),
                            None => match first_nested_conflict(t.paletas@, b) {
                                Some(e) => Err(e),
                                None => check_of(
                                    first_button_conflict(
                                        crate::model::fixed_of(cfg, cfg.profiles@[pi]),
                                        b,
                                        None,
                                        TargetStyle::Fixed,
                                        ""@,
                                    ),
                                ),
                            },
                        }
                    },
                }
            }
        },
    }
}

/// Assigns `b` to tab `paleta_id` of profile `profile_id`. Without
/// `replace`, reports the first other holder and changes nothing; with it,
/// takes `b` away from every other holder.
pub fn apply_tab(
    cfg: &mut AppConfig,
    profile_id: &str,
    paleta_id: &str,
    binding: &MidiBinding,
    replace: bool,
) -> (r: Result<(), String>)
    ensures
        binding.blank() ==> r is Ok && *final(cfg) == *old(cfg),
        !binding.blank() && !replace ==> *final(cfg) == *old(cfg) && unit_view(r) == tab_check(
            *old(cfg),
            profile_id@,
            paleta_id@,
            *binding,
        ),
        !binding.blank() && r is Ok ==> tab_exclusive(*old(cfg), *final(cfg), profile_id@, paleta_id@, *binding),
        !binding.blank() && replace ==> match active_index(*old(cfg)) {
            None => unit_view(r) == Err::<(), Seq<char>>(no_active_profile()) && *final(cfg) == *old(cfg),
            Some(pi) => {
                if global_blocked(old(cfg).profiles@[pi].audio, *binding) {
                    unit_view(r) == Err::<(), Seq<char>>(blocked_text(*binding)) && *final(cfg) == *old(cfg)
                } else {
                    match first_index(old(cfg).profiles@, profile_has_id(profile_id@)) {
                        None => unit_view(r) == Err::<(), Seq<char>>(missing_profile()) && *final(cfg)
                            == *old(cfg),
                        Some(tp) => {
                            &&& r is Ok
                            &&& assigned_rel(
                                *old(cfg),
                                *final(cfg),
                                *binding,
                                tp,
                                Some(paleta_id@),
                                true,
                                |j: int| ButtonsMode::Clear(None),
                                pi,
                                None,
                            )
                        },
                    }
                }
            },
        },
{
    if binding.is_empty() {
        return Ok(());
    }
    let pi = match cfg.active_profile_position() {
        Some(pi) => pi,
        None => return Err("Perfil activo no encontrado".to_owned()),
    };
    if is_blocked(&cfg.profiles[pi].audio, binding) {
        return Err(conflict("midi_blocked_global", binding, ""));
    }
    let tp = match profile_position(cfg, profile_id) {
        Some(tp) => tp,
        None => return Err("Perfil no encontrado".to_owned()),
    };
    let fixed_scope = cfg.is_profile_scope();
    proof {
        reveal_strlit("");
    }
    if !replace {
        if let Some(e) = find_tab_conflict(&cfg.profiles[tp].paletas, binding, Some(paleta_id)) {
            return Err(e);
        }
        if let Some(e) = find_nested_conflict(&cfg.profiles[tp].paletas, binding) {
            return Err(e);
        }
        let fixed = if fixed_scope {
            &cfg.profiles[pi].fixed_buttons
        } else {
            &cfg.fixed_panel.global_buttons
        };
        if let Some(e) = find_button_conflict(fixed, binding, None, &TargetStyle::Fixed, "") {
            return Err(e);
        }
        proof {
            let t = cfg.profiles@[tp as int];
            lemma_no_tab_conflict(t.paletas@, *binding, Some(paleta_id@));
            lemma_no_nested_conflict(t.paletas@, *binding);
            lemma_no_button_conflict(crate::model::fixed_of(*cfg, cfg.profiles@[pi as int]), *binding, None, TargetStyle::Fixed, ""@);
        }
        return Ok(());
    }
    let ghost o = *old(cfg);
    clear_tab_bindings(&mut cfg.profiles[tp].paletas, binding, Some(paleta_id));
    let ghost c1 = *cfg;
    clear_nested_bindings(&mut cfg.profiles[tp].paletas, binding);
    proof {
        lemma_tabs_keep_then(
            o.profiles@[tp as int].paletas@,
            c1.profiles@[tp as int].paletas@,
            cfg.profiles@[tp as int].paletas@,
            *binding,
            Some(paleta_id@),
            |j: int| ButtonsMode::Clear(None),
        );
    }
    let ghost c2 = *cfg;
    if fixed_scope {
        clear_button_bindings(&mut cfg.profiles[pi].fixed_buttons, binding, None);
    } else {
        clear_button_bindings(&mut cfg.fixed_panel.global_buttons, binding, None);
    }
    proof {
        let on = o.profiles@[tp as int].paletas@;
        let nn = c2.profiles@[tp as int].paletas@;
        lemma_tabs_rel_none(on, nn, *binding, Some(paleta_id@), |j: int| ButtonsMode::Clear(None));
        lemma_tabs_rel_buttons_none(on, nn, *binding, Some(paleta_id@));
        assert(cfg.profiles@[tp as int].paletas@ == nn);
        if fixed_scope {
            lemma_buttons_rel_none(c2.profiles@[pi as int].fixed_buttons@, cfg.profiles@[pi as int].fixed_buttons@, *binding, None);
        } else {
            lemma_buttons_rel_none(o.fixed_panel.global_buttons@, cfg.fixed_panel.global_buttons@, *binding, None);
        }
    }
    Ok(())
}

/// One of the other global controls than `key` (`"stop"`, `"next"` or
/// `"prev"`) holds `b`.
pub open spec fn key_blocked(key: Seq<char>, a: AudioSettings, b: MidiBinding) -> bool {
    if key == "stop"@ {
        same_trigger(a.midi_next, b) || same_trigger(a.midi_prev, b)
    } else if key == "next"@ {
        same_trigger(a.midi_stop, b) || same_trigger(a.midi_prev, b)
    } else if key == "prev"@ {
        same_trigger(a.midi_stop, b) || same_trigger(a.midi_next, b)
    } else {
        false
    }
}

/// One trigger drives one global control: for each of `"stop"`, `"next"` and
/// `"prev"`, a binding is refused exactly when it is the trigger of one of the
/// two other controls.
pub proof fn lemma_global_trigger_is_exclusive(key: Seq<char>, a: AudioSettings, b: MidiBinding)
    requires
        key == "stop"@ || key == "next"@ || key == "prev"@,
    ensures
        key != "stop"@ && same_trigger(a.midi_stop, b) ==> key_blocked(key, a, b),
        key != "next"@ && same_trigger(a.midi_next, b) ==> key_blocked(key, a, b),
        key != "prev"@ && same_trigger(a.midi_prev, b) ==> key_blocked(key, a, b),
        key_blocked(key, a, b) ==> (key != "stop"@ && same_trigger(a.midi_stop, b)) || (key
            != "next"@ && same_trigger(a.midi_next, b)) || (key != "prev"@ && same_trigger(
            a.midi_prev,
            b,
        )),
{
    reveal_strlit("stop");
    reveal_strlit("next");
    reveal_strlit("prev");
    assert("stop"@[0] != "next"@[0] && "stop"@[0] != "prev"@[0] && "next"@[0] != "prev"@[0]);
}

/// Checks that `b` may drive the global control `key` of the active profile.
pub fn validate_global(cfg: &AppConfig, key: &str, binding: &MidiBinding) -> (r: Result<(), String>)
    ensures
        binding.blank() ==> r is Ok,
        !binding.blank() ==> unit_view(r) == match active_index(*cfg) {
            None => Err(no_active_profile()),
            Some(pi) => if key_blocked(key@, cfg.profiles@[pi].audio, *binding) {
                Err(blocked_text(*binding))
            } else {
                Ok(())
            },
        },
{
    if binding.is_empty() {
        return Ok(());
    }
    let pi = match cfg.active_profile_position() {
        Some(pi) => pi,
        None => return Err("Perfil activo no encontrado".to_owned()),
    };
    let audio = &cfg.profiles[pi].audio;
    let blocked = if str_eq(key, "stop") {
        same(&audio.midi_next, binding) || same(&audio.midi_prev, binding)
    } else if str_eq(key, "next") {
        same(&audio.midi_stop, binding) || same(&audio.midi_prev, binding)
    } else if str_eq(key, "prev") {
        same(&audio.midi_stop, binding) || same(&audio.midi_next, binding)
    } else {
        false
    };
    if blocked {
        proof {
            reveal_strlit("");
        }
        return Err(conflict("midi_blocked_global", binding, ""));
    }
    Ok(())
}

} // verus!
