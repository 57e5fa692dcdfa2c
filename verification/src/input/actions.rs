//! Actions shared by global shortcuts and MIDI: switching tabs and finding
//! the button a shortcut plays.
use crate::model::{
    active_index, active_paleta_index, fixed_of, no_active_profile, paleta_has_id, AppConfig,
    ButtonData, ProfileData,
};
use crate::seqs::{any, first_index, lemma_first_is, lemma_first_none};
use crate::text::{chars_of, eq_ignore_ascii_case, eq_ignore_case, trim, trim_chars};
use vstd::prelude::*;

verus! {

/// A saved shortcut matches a key: both trimmed, the saved one not blank,
/// equal ignoring ASCII case.
pub open spec fn key_matches(saved: Seq<char>, key: Seq<char>) -> bool {
    trim(saved).len() > 0 && eq_ignore_case(trim(saved), trim(key))
}

pub open spec fn button_key(key: Seq<char>) -> spec_fn(ButtonData) -> bool {
    |b: ButtonData| key_matches(b.shortcut@, key)
}

/// The id of the first button of `buttons` whose shortcut matches `key`.
pub open spec fn first_button_for_key(buttons: Seq<ButtonData>, key: Seq<char>) -> Option<
    Seq<char>,
> {
    match first_index(buttons, button_key(key)) {
        Some(i) => Some(buttons[i].id@),
        None => None,
    }
}

/// The button a key plays: the first fixed button with that shortcut, else
/// the first button of the active tab with it.
pub open spec fn shortcut_target(cfg: AppConfig, key: Seq<char>) -> Result<
    Option<Seq<char>>,
    Seq<char>,
> {
    match active_index(cfg) {
        None => Err(no_active_profile()),
        Some(pi) => {
            let p = cfg.profiles@[pi];
            match first_button_for_key(fixed_of(cfg, p), key) {
                Some(id) => Ok(Some(id)),
                None => match active_paleta_index(p) {
                    None => Ok(None),
                    Some(ti) => Ok(first_button_for_key(p.paletas@[ti].botones@, key)),
                },
            }
        },
    }
}

pub open spec fn found_view(r: Result<Option<String>, String>) -> Result<Option<Seq<char>>, Seq<char>> {
    match r {
        Ok(Some(s)) => Ok(Some(s@)),
        Ok(None) => Ok(None),
        Err(e) => Err(e@),
    }
}

/// Position of the active tab that cycling starts from (the first tab when
/// the active id names none).
pub open spec fn cycle_start(p: ProfileData) -> int {
    match active_paleta_index(p) {
        Some(i) => i,
        None => 0,
    }
}

/// The profile after moving its active tab `offset` places, wrapping around.
pub open spec fn cycled(p: ProfileData, offset: i32) -> ProfileData {
    let next = (cycle_start(p) + offset) % (p.paletas@.len() as int);
    ProfileData { active_paleta_id: p.paletas@[next].id, ..p }
}

pub open spec fn no_tabs() -> Seq<char> {
    "El perfil no tiene pestanas"@
}

/// `after` is `before` with profile `i` replaced by `p`.
pub open spec fn profile_replaced(before: AppConfig, after: AppConfig, i: int, p: ProfileData) -> bool {
    &&& after.profiles@ == before.profiles@.update(i, p)
    &&& after.active_profile_id == before.active_profile_id
    &&& after.fixed_panel == before.fixed_panel
    &&& after.midi == before.midi
}

pub fn same_key(saved: &str, key: &str) -> (r: bool)
    ensures
        r == key_matches(saved@, key@),
{
    let s = chars_of(saved);
    let s = trim_chars(s.as_slice());
    if s.len() == 0 {
        return false;
    }
    let k = chars_of(key);
    let k = trim_chars(k.as_slice());
    eq_ignore_ascii_case(s.as_slice(), k.as_slice())
}

fn find_by_key(buttons: &Vec<ButtonData>, key: &str) -> (r: Option<usize>)
    ensures
        match r {
            Some(i) => first_index(buttons@, button_key(key@)) == Some(i as int),
            None => first_index(buttons@, button_key(key@)) is None,
        },
{
    let ghost p = button_key(key@);
    let mut i: usize = 0;
    while i < buttons.len()
        invariant
            i <= buttons.len(),
            p == button_key(key@),
            forall|j: int| 0 <= j < i ==> !p(#[trigger] buttons@[j]),
        decreases buttons.len() - i,
    {
        if same_key(buttons[i].shortcut.as_str(), key) {
            proof {
                lemma_first_is(buttons@, p, i as int);
            }
            return Some(i);
        }
        i += 1;
    }
    proof {
        lemma_first_none(buttons@, p);
    }
    None
}

/// The id of the button that `key` plays.
pub fn play_by_shortcut(cfg: &AppConfig, key: &str) -> (r: Result<Option<String>, String>)
    ensures
        found_view(r) == shortcut_target(*cfg, key@),
{
    let pi = match cfg.active_profile_position() {
        Some(pi) => pi,
        None => return Err("Perfil activo no encontrado".to_owned()),
    };
    let profile = &cfg.profiles[pi];
    let fixed = if cfg.is_profile_scope() {
        &profile.fixed_buttons
    } else {
        &cfg.fixed_panel.global_buttons
    };
    if let Some(i) = find_by_key(fixed, key) {
        return Ok(Some(fixed[i].id.clone()));
    }
    let ti = match profile.active_paleta_position() {
        Some(ti) => ti,
        None => return Ok(None),
    };
    let botones = &profile.paletas[ti].botones;
    match find_by_key(botones, key) {
        Some(i) => Ok(Some(botones[i].id.clone())),
        None => Ok(None),
    }
}

/// `x.rem_euclid(len)` for `len > 0`, without overflow for any `i64` value.
fn wrap_index(x: i64, len: usize) -> (r: usize)
    requires
        len > 0,
        len <= i32::MAX,
        i32::MIN <= x <= i32::MAX,
    ensures
        r < len,
        r as int == x as int % len as int,
{
    let n = len as u64;
    if x >= 0 {
        let r = (x as u64) % n;
        r as usize
    } else {
        let m = (-x) as u64;
        let q = m % n;
        proof {
            let mi = m as int;
            let ni = n as int;
            vstd::arithmetic::div_mod::lemma_fundamental_div_mod(mi, ni);
            let d = mi / ni;
            if q == 0 {
                assert(-mi == (-d) * ni + 0) by (nonlinear_arith)
                    requires
                        mi == ni * d + 0,
                ;
                vstd::arithmetic::div_mod::lemma_fundamental_div_mod_converse(-mi, ni, -d, 0);
            } else {
                let qi = q as int;
                assert(-mi == (-d - 1) * ni + (ni - qi)) by (nonlinear_arith)
                    requires
                        mi == ni * d + qi,
                ;
                vstd::arithmetic::div_mod::lemma_fundamental_div_mod_converse(
                    -mi,
                    ni,
                    -d - 1,
                    ni - qi,
                );
            }
        }
        if q == 0 {
            0
        } else {
            (n - q) as usize
        }
    }
}

/// No two tabs of `p` share an id.
pub open spec fn distinct_tab_ids(p: ProfileData) -> bool {
    forall|i: int, j: int|
        0 <= i < j < p.paletas@.len() ==> (#[trigger] p.paletas@[i]).id@ != (#[trigger] p.paletas@[j]).id@
}

proof fn lemma_mod_back(a: int, k: int, n: int)
    requires
        0 <= a < n,
    ensures
        ((a + k) % n - k) % n == a,
        (a + n) % n == a,
{
    vstd::arithmetic::div_mod::lemma_fundamental_div_mod(a + k, n);
    let q = (a + k) / n;
    assert((a + k) % n - k == n * (-q) + a) by (nonlinear_arith)
        requires
            a + k == n * q + (a + k) % n,
    ;
    vstd::arithmetic::div_mod::lemma_mod_multiples_vanish(-q, a, n);
    vstd::arithmetic::div_mod::lemma_mod_multiples_vanish(1, a, n);
    vstd::arithmetic::div_mod::lemma_small_mod(a as nat, n as nat);
}

proof fn lemma_active_after_cycle(p: ProfileData, k: i32)
    requires
        p.paletas@.len() > 0,
        distinct_tab_ids(p),
    ensures
        active_paleta_index(cycled(p, k)) == Some((cycle_start(p) + k) % (p.paletas@.len() as int)),
{
    let n = p.paletas@.len() as int;
    let next = (cycle_start(p) + k) % n;
    let q = cycled(p, k);
    assert(0 <= next < n);
    assert forall|j: int| 0 <= j < next implies !paleta_has_id(q.active_paleta_id@)(
        #[trigger] q.paletas@[j],
    ) by {
        assert(p.paletas@[j].id@ != p.paletas@[next].id@);
    }
    lemma_first_is(q.paletas@, paleta_has_id(q.active_paleta_id@), next);
}

/// Cycling the tabs by `k` and then by `-k` brings back the tab that was
/// active, when the tab ids are distinct; cycling by the number of tabs
/// changes nothing. (`cycle_paleta` replaces the active profile `p` by
/// `cycled(p, offset)`.)
pub proof fn lemma_cycle_round_trip(p: ProfileData, k: i32)
    requires
        p.paletas@.len() > 0,
        distinct_tab_ids(p),
        active_paleta_index(p) is Some,
        k > i32::MIN,
    ensures
        cycled(cycled(p, k), (-k) as i32).active_paleta_id@ == p.active_paleta_id@,
        cycled(cycled(p, k), (-k) as i32).paletas == p.paletas,
        p.paletas@.len() <= i32::MAX ==> cycled(p, p.paletas@.len() as i32).active_paleta_id@
            == p.active_paleta_id@,
{
    let n = p.paletas@.len() as int;
    let a = active_paleta_index(p)->0;
    let pa = paleta_has_id(p.active_paleta_id@);
    assert(crate::seqs::is_first(p.paletas@, pa, a)) by {
        let w = choose|i: int| crate::seqs::is_first(p.paletas@, pa, i);
        assert(crate::seqs::is_first(p.paletas@, pa, w));
    }
    lemma_active_after_cycle(p, k);
    lemma_mod_back(a, k as int, n);
    let q = cycled(p, k);
    assert(distinct_tab_ids(q));
    assert(cycle_start(q) == (a + k) % n);
    assert(((a + k) % n + ((-k) as i32)) % n == a);
    assert(pa(p.paletas@[a]));
}

/// Moves the active tab of the active profile `offset` places, wrapping around.
pub fn cycle_paleta(cfg: &mut AppConfig, offset: i32) -> (r: Result<(), String>)
    requires
        match active_index(*old(cfg)) {
            Some(pi) => {
                let p = old(cfg).profiles@[pi];
                &&& p.paletas@.len() <= i32::MAX
                &&& i32::MIN <= cycle_start(p) + offset <= i32::MAX
            },
            None => true,
        },
    ensures
        match active_index(*old(cfg)) {
            None => {
                &&& r is Err
                &&& r->Err_0@ == no_active_profile()
                &&& *final(cfg) == *old(cfg)
            },
            Some(pi) => {
                let p = old(cfg).profiles@[pi];
                if p.paletas@.len() == 0 {
                    &&& r is Err
                    &&& r->Err_0@ == no_tabs()
                    &&& *final(cfg) == *old(cfg)
                } else {
                    &&& r is Ok
                    &&& profile_replaced(*old(cfg), *final(cfg), pi, cycled(p, offset))
                }
            },
        },
{
    let pi = match cfg.active_profile_position() {
        Some(pi) => pi,
        None => return Err("Perfil activo no encontrado".to_owned()),
    };
    let len = cfg.profiles[pi].paletas.len();
    if len == 0 {
        return Err("El perfil no tiene pestanas".to_owned());
    }
    let current = match cfg.profiles[pi].active_paleta_position() {
        Some(i) => i,
        None => 0,
    };
    let next = wrap_index(current as i64 + offset as i64, len);
    let id = cfg.profiles[pi].paletas[next].id.clone();
    cfg.profiles[pi].active_paleta_id = id;
    Ok(())
}

/// `after` is `before` with the active tab of profile `i` set to an id equal to `id`.
pub open spec fn tab_activated(before: AppConfig, after: AppConfig, i: int, id: Seq<char>) -> bool {
    let p = after.profiles@[i];
    &&& p.active_paleta_id@ == id
    &&& profile_replaced(before, after, i, ProfileData { active_paleta_id: p.active_paleta_id, ..before.profiles@[i] })
}

/// Makes `paleta_id` the active tab of the active profile when such a tab
/// exists; says whether it did.
pub fn activate_paleta(cfg: &mut AppConfig, paleta_id: &str) -> (r: Result<bool, String>)
    ensures
        match active_index(*old(cfg)) {
            None => {
                &&& r is Err
                &&& r->Err_0@ == no_active_profile()
                &&& *final(cfg) == *old(cfg)
            },
            Some(pi) => {
                if any(old(cfg).profiles@[pi].paletas@, paleta_has_id(paleta_id@)) {
                    &&& r == Ok::<bool, String>(true)
                    &&& tab_activated(*old(cfg), *final(cfg), pi, paleta_id@)
                } else {
                    &&& r == Ok::<bool, String>(false)
                    &&& *final(cfg) == *old(cfg)
                }
            },
        },
{
    let pi = match cfg.active_profile_position() {
        Some(pi) => pi,
        None => return Err("Perfil activo no encontrado".to_owned()),
    };
    let ghost p = paleta_has_id(paleta_id@);
    let mut i: usize = 0;
    let n = cfg.profiles[pi].paletas.len();
    while i < n
        invariant
            i <= n,
            *cfg == *old(cfg),
            active_index(*old(cfg)) == Some(pi as int),
            pi < cfg.profiles.len(),
            n == cfg.profiles@[pi as int].paletas.len(),
            p == paleta_has_id(paleta_id@),
            forall|j: int| 0 <= j < i ==> !p(#[trigger] cfg.profiles@[pi as int].paletas@[j]),
        decreases n - i,
    {
        if crate::text::str_eq(cfg.profiles[pi].paletas[i].id.as_str(), paleta_id) {
            proof {
                assert(p(cfg.profiles@[pi as int].paletas@[i as int]));
            }
            cfg.profiles[pi].active_paleta_id = paleta_id.to_owned();
            return Ok(true);
        }
        i += 1;
    }
    Ok(false)
}

} // verus!
