//! Global keyboard shortcuts: which keys the active profile registers, and
//! how a saved key is spelled for the shortcut parser.
use crate::library::catalog_tree::{has_prefix, starts_with_chars};
use crate::model::{active_index, active_paleta_index, no_active_profile, AppConfig, ButtonData, Paleta, ProfileData};
use crate::text::{chars_of, push_chars, string_of, trim, trim_chars};
use vstd::prelude::*;

verus! {

/// `s` with every occurrence of `pat` replaced by `rep`, scanning from the
/// left and never overlapping (what `str::replace` does).
pub open spec fn replaced(s: Seq<char>, pat: Seq<char>, rep: Seq<char>) -> Seq<char>
    decreases s.len(),
{
    if s.len() == 0 {
        Seq::empty()
    } else if pat.len() > 0 && has_prefix(s, pat) {
        rep + replaced(s.skip(pat.len() as int), pat, rep)
    } else {
        seq![s[0]] + replaced(s.drop_first(), pat, rep)
    }
}

/// A saved key as the shortcut parser reads it: trimmed, with `Ctrl+`
/// spelled `Control+` and `Espacio` spelled `Space`.
pub open spec fn normalized_shortcut(key: Seq<char>) -> Seq<char> {
    replaced(replaced(trim(key), "Ctrl+"@, "Control+"@), "Espacio"@, "Space"@)
}

pub open spec fn text_views(v: Seq<String>) -> Seq<Seq<char>> {
    v.map_values(|s: String| s@)
}

/// No text occurs twice.
pub open spec fn distinct(s: Seq<Seq<char>>) -> bool {
    forall|i: int, j: int| 0 <= i < j < s.len() ==> #[trigger] s[i] != #[trigger] s[j]
}

/// The trimmed, non-blank keys among `keys`.
pub open spec fn key_set(keys: Seq<Seq<char>>) -> Set<Seq<char>> {
    Set::new(
        |k: Seq<char>| k.len() > 0 && exists|i: int| 0 <= i < keys.len() && trim(#[trigger] keys[i]) == k,
    )
}

pub open spec fn button_keys(bs: Seq<ButtonData>) -> Seq<Seq<char>> {
    bs.map_values(|b: ButtonData| b.shortcut@)
}

/// Each tab's key followed by the keys of its buttons, tab after tab.
pub open spec fn paleta_keys(ps: Seq<Paleta>) -> Seq<Seq<char>>
    decreases ps.len(),
{
    if ps.len() == 0 {
        Seq::empty()
    } else {
        paleta_keys(ps.drop_last()).push(ps.last().shortcut@) + button_keys(ps.last().botones@)
    }
}

/// Every key a profile saves: stop, next, previous, then the tabs'.
pub open spec fn profile_keys(p: ProfileData) -> Seq<Seq<char>> {
    seq![p.audio.key_stop@, p.audio.key_next@, p.audio.key_prev@] + paleta_keys(p.paletas@)
}

/// The keys to register: those of the active profile when it enables
/// global keys, else none.
pub open spec fn registered_keys(cfg: AppConfig) -> Set<Seq<char>> {
    match active_index(cfg) {
        Some(i) => if cfg.profiles@[i].audio.global_keys {
            key_set(profile_keys(cfg.profiles@[i]))
        } else {
            Set::empty()
        },
        None => Set::empty(),
    }
}

proof fn lemma_key_set_push(keys: Seq<Seq<char>>, k: Seq<char>)
    ensures
        key_set(keys.push(k)) == if trim(k).len() > 0 {
            key_set(keys).insert(trim(k))
        } else {
            key_set(keys)
        },
{
    let t = keys.push(k);
    let rhs = if trim(k).len() > 0 {
        key_set(keys).insert(trim(k))
    } else {
        key_set(keys)
    };
    assert forall|x: Seq<char>| key_set(t).contains(x) implies rhs.contains(x) by {
        let i = choose|i: int| 0 <= i < t.len() && trim(#[trigger] t[i]) == x;
        if i < keys.len() {
            assert(t[i] == keys[i]);
        }
    }
    assert forall|x: Seq<char>| rhs.contains(x) implies key_set(t).contains(x) by {
        if trim(k).len() > 0 && x == trim(k) {
            assert(trim(t[keys.len() as int]) == x);
        } else {
            let i = choose|i: int| 0 <= i < keys.len() && trim(#[trigger] keys[i]) == x;
            assert(t[i] == keys[i]);
        }
    }
    assert(key_set(t) =~= rhs);
}

fn replace_text(s: &[char], pat: &[char], rep: &[char]) -> (r: Vec<char>)
    requires
        pat.len() > 0,
    ensures
        r@ == replaced(s@, pat@, rep@),
{
    let mut out: Vec<char> = Vec::new();
    let mut i: usize = 0;
    assert(s@.skip(0) =~= s@);
    while i < s.len()
        invariant
            i <= s.len(),
            pat.len() > 0,
            out@ + replaced(s@.skip(i as int), pat@, rep@) == replaced(s@, pat@, rep@),
        decreases s.len() - i,
    {
        let rest = crate::text::slice_range(s, i, s.len());
        assert(rest@ =~= s@.skip(i as int));
        if starts_with_chars(rest.as_slice(), pat) {
            let ghost before = out@;
            push_chars(&mut out, rep);
            proof {
                assert(s@.skip(i as int).skip(pat.len() as int) =~= s@.skip(i + pat.len()));
                assert(before + replaced(s@.skip(i as int), pat@, rep@) == before + (rep@
                    + replaced(s@.skip(i + pat.len()), pat@, rep@)));
                assert(out@ + replaced(s@.skip(i + pat.len()), pat@, rep@) =~= before + (rep@
                    + replaced(s@.skip(i + pat.len()), pat@, rep@)));
            }
            i = i + pat.len();
        } else {
            let ghost before = out@;
            out.push(s[i]);
            proof {
                assert(s@.skip(i as int).drop_first() =~= s@.skip(i + 1));
                assert(s@.skip(i as int)[0] == s@[i as int]);
                assert(out@ + replaced(s@.skip(i + 1), pat@, rep@) =~= before + (seq![s@[i as int]]
                    + replaced(s@.skip(i + 1), pat@, rep@)));
            }
            i = i + 1;
        }
    }
    assert(s@.skip(s.len() as int) =~= Seq::<char>::empty());
    assert(out@ + Seq::<char>::empty() =~= out@);
    out
}

/// What a pressed global shortcut does.
#[derive(Debug, PartialEq, Eq)]
pub enum ShortcutAction {
    StopAll,
    Cycle(i32),
    SetPaleta(String),
    PlayButton(String),
}

/// The keys a pressed shortcut is compared with, in the order they are
/// tried: stop, next, previous, each tab's, then the active tab's buttons'.
pub open spec fn action_keys(p: ProfileData) -> Seq<Seq<char>> {
    let tabs = p.paletas@.map_values(|t: Paleta| t.shortcut@);
    let buttons = match active_paleta_index(p) {
        Some(k) => button_keys(p.paletas@[k].botones@),
        None => Seq::empty(),
    };
    seq![p.audio.key_stop@, p.audio.key_next@, p.audio.key_prev@] + tabs + buttons
}

/// The action of the `i`-th key of `action_keys(p)`.
pub open spec fn action_at(p: ProfileData, i: int) -> ShortcutAction {
    let n = p.paletas@.len();
    if i == 0 {
        ShortcutAction::StopAll
    } else if i == 1 {
        ShortcutAction::Cycle(1i32)
    } else if i == 2 {
        ShortcutAction::Cycle(-1i32)
    } else if i < 3 + n {
        ShortcutAction::SetPaleta(p.paletas@[i - 3].id)
    } else {
        ShortcutAction::PlayButton(p.paletas@[active_paleta_index(p)->0].botones@[i - 3 - n].id)
    }
}

/// The `i`-th key is saved (not blank) and the pressed shortcut matched it.
pub open spec fn key_hit(keys: Seq<Seq<char>>, hits: Seq<bool>, i: int) -> bool {
    hits[i] && trim(keys[i]).len() > 0
}

pub open spec fn no_globals() -> Seq<char> {
    "Atajos globales desactivados"@
}

pub open spec fn shortcut_unknown() -> Seq<char> {
    "Atajo no encontrado"@
}

/// The keys that a pressed shortcut is compared with, in order; refused
/// when there is no active profile or it disables global keys.
pub fn shortcut_keys(cfg: &AppConfig) -> (r: Result<Vec<String>, String>)
    ensures
        active_index(*cfg) is None ==> r is Err && r->Err_0@ == no_active_profile(),
        active_index(*cfg) is Some && !cfg.profiles@[active_index(*cfg)->0].audio.global_keys
            ==> r is Err && r->Err_0@ == no_globals(),
        active_index(*cfg) is Some && cfg.profiles@[active_index(*cfg)->0].audio.global_keys
            ==> r is Ok && text_views(r->Ok_0@) == action_keys(
            cfg.profiles@[active_index(*cfg)->0],
        ),
{
    let pi = match cfg.active_profile_position() {
        Some(i) => i,
        None => {
            return Err("Perfil activo no encontrado".to_owned());
        },
    };
    let p = &cfg.profiles[pi];
    if !p.audio.global_keys {
        return Err("Atajos globales desactivados".to_owned());
    }
    let mut keys: Vec<String> = Vec::new();
    keys.push(p.audio.key_stop.clone());
    keys.push(p.audio.key_next.clone());
    keys.push(p.audio.key_prev.clone());
    let ghost head = seq![p.audio.key_stop@, p.audio.key_next@, p.audio.key_prev@];
    assert(text_views(keys@) =~= head);
    let mut i: usize = 0;
    while i < p.paletas.len()
        invariant
            i <= p.paletas.len(),
            text_views(keys@) == head + p.paletas@.take(i as int).map_values(|t: Paleta| t.shortcut@),
        decreases p.paletas.len() - i,
    {
        let ghost before = text_views(keys@);
        keys.push(p.paletas[i].shortcut.clone());
        assert(text_views(keys@) =~= before.push(p.paletas@[i as int].shortcut@));
        assert(p.paletas@.take(i + 1).map_values(|t: Paleta| t.shortcut@) =~= p.paletas@.take(
            i as int,
        ).map_values(|t: Paleta| t.shortcut@).push(p.paletas@[i as int].shortcut@));
        i += 1;
    }
    assert(p.paletas@.take(p.paletas.len() as int) =~= p.paletas@);
    let ghost with_tabs = text_views(keys@);
    match p.active_paleta_position() {
        None => {
            assert(with_tabs + Seq::<Seq<char>>::empty() =~= with_tabs);
        },
        Some(k) => {
            let tab = &p.paletas[k];
            let mut j: usize = 0;
            assert(with_tabs + button_keys(tab.botones@.take(0)) =~= with_tabs);
            while j < tab.botones.len()
                invariant
                    j <= tab.botones.len(),
                    text_views(keys@) == with_tabs + button_keys(tab.botones@.take(j as int)),
                decreases tab.botones.len() - j,
            {
                let ghost before = text_views(keys@);
                keys.push(tab.botones[j].shortcut.clone());
                assert(text_views(keys@) =~= before.push(tab.botones@[j as int].shortcut@));
                assert(button_keys(tab.botones@.take(j + 1)) =~= button_keys(
                    tab.botones@.take(j as int),
                ).push(tab.botones@[j as int].shortcut@));
                assert(text_views(keys@) =~= with_tabs + button_keys(tab.botones@.take(j + 1)));
                j += 1;
            }
            assert(tab.botones@.take(tab.botones.len() as int) =~= tab.botones@);
        },
    }
    Ok(keys)
}

/// What a pressed shortcut does, given for each key of `shortcut_keys`
/// whether the shortcut parser reads it as the pressed shortcut: the action
/// of the first saved key that matched, or `Atajo no encontrado`.
pub fn find_action(cfg: &AppConfig, hits: &Vec<bool>) -> (r: Result<ShortcutAction, String>)
    requires
        active_index(*cfg) is Some && cfg.profiles@[active_index(*cfg)->0].audio.global_keys
            ==> hits.len() == action_keys(cfg.profiles@[active_index(*cfg)->0]).len(),
    ensures
        active_index(*cfg) is None ==> r is Err && r->Err_0@ == no_active_profile(),
        active_index(*cfg) is Some && !cfg.profiles@[active_index(*cfg)->0].audio.global_keys
            ==> r is Err && r->Err_0@ == no_globals(),
        active_index(*cfg) is Some && cfg.profiles@[active_index(*cfg)->0].audio.global_keys
            ==> ({
            let p = cfg.profiles@[active_index(*cfg)->0];
            let keys = action_keys(p);
            &&& (forall|i: int| 0 <= i < keys.len() ==> !key_hit(keys, hits@, i)) ==> r is Err
                && r->Err_0@ == shortcut_unknown()
            &&& forall|i: int|
                0 <= i < keys.len() && key_hit(keys, hits@, i) && (forall|j: int|
                    0 <= j < i ==> !key_hit(keys, hits@, j)) ==> r == Ok::<ShortcutAction, String>(
                    action_at(p, i),
                )
        }),
{
    let pi = match cfg.active_profile_position() {
        Some(i) => i,
        None => {
            return Err("Perfil activo no encontrado".to_owned());
        },
    };
    let keys = match shortcut_keys(cfg) {
        Ok(k) => k,
        Err(e) => {
            return Err(e);
        },
    };
    let p = &cfg.profiles[pi];
    let ghost kv = action_keys(*p);
    let n = p.paletas.len();
    let mut i: usize = 0;
    while i < keys.len()
        invariant
            i <= keys.len(),
            keys.len() == hits.len(),
            text_views(keys@) == kv,
            kv == action_keys(*p),
            n == p.paletas.len(),
            active_index(*cfg) == Some(pi as int),
            *p == cfg.profiles@[pi as int],
            p.audio.global_keys,
            forall|j: int| 0 <= j < i ==> !key_hit(kv, hits@, j),
        decreases keys.len() - i,
    {
        let saved = chars_of(keys[i].as_str());
        let t = trim_chars(saved.as_slice());
        assert(kv[i as int] == keys@[i as int]@);
        if hits[i] && t.len() > 0 {
            let action = if i == 0 {
                ShortcutAction::StopAll
            } else if i == 1 {
                ShortcutAction::Cycle(1)
            } else if i == 2 {
                ShortcutAction::Cycle(-1)
            } else if i < 3 + n {
                ShortcutAction::SetPaleta(p.paletas[i - 3].id.clone())
            } else {
                let k = match p.active_paleta_position() {
                    Some(k) => k,
                    None => {
                        proof {
                            assert(kv.len() == 3 + n);
                            assert(false);
                        }
                        return Err("Atajo no encontrado".to_owned());
                    },
                };
                assert(kv.len() == 3 + n + p.paletas@[k as int].botones@.len());
                ShortcutAction::PlayButton(p.paletas[k].botones[i - 3 - n].id.clone())
            };
            proof {
                assert(key_hit(kv, hits@, i as int));
                assert(action == action_at(*p, i as int));
                assert forall|m: int|
                    0 <= m < kv.len() && key_hit(kv, hits@, m) && (forall|j: int|
                        0 <= j < m ==> !key_hit(kv, hits@, j)) implies m == i by {
                    if m < i {
                        assert(!key_hit(kv, hits@, m));
                    }
                    if m > i {
                        assert(!key_hit(kv, hits@, i as int));
                    }
                }
            }
            return Ok(action);
        }
        i += 1;
    }
    Err("Atajo no encontrado".to_owned())
}


/// A saved key spelled for the shortcut parser.
pub fn normalize_shortcut(key: &str) -> (r: String)
    ensures
        r@ == normalized_shortcut(key@),
{
    proof {
        reveal_strlit("Ctrl+");
        reveal_strlit("Espacio");
    }
    let k = chars_of(key);
    let t = trim_chars(k.as_slice());
    let ctrl = chars_of("Ctrl+");
    let control = chars_of("Control+");
    let a = replace_text(t.as_slice(), ctrl.as_slice(), control.as_slice());
    let espacio = chars_of("Espacio");
    let space = chars_of("Space");
    let b = replace_text(a.as_slice(), espacio.as_slice(), space.as_slice());
    string_of(b.as_slice())
}

fn holds(keys: &Vec<String>, k: &[char]) -> (r: bool)
    ensures
        r == text_views(keys@).contains(k@),
{
    let mut i: usize = 0;
    while i < keys.len()
        invariant
            i <= keys.len(),
            forall|j: int| 0 <= j < i ==> (#[trigger] keys@[j])@ != k@,
        decreases keys.len() - i,
    {
        let v = chars_of(keys[i].as_str());
        if crate::text::seq_eq(v.as_slice(), k) {
            assert(text_views(keys@)[i as int] == k@);
            return true;
        }
        i += 1;
    }
    proof {
        if text_views(keys@).contains(k@) {
            let j = choose|j: int| 0 <= j < text_views(keys@).len() && text_views(keys@)[j] == k@;
            assert(keys@[j]@ == k@);
        }
    }
    false
}

/// Adds `key`, trimmed, unless it is blank or already there.
pub fn add_key(keys: &mut Vec<String>, key: &str)
    requires
        distinct(text_views(old(keys)@)),
    ensures
        distinct(text_views(final(keys)@)),
        trim(key@).len() == 0 || text_views(old(keys)@).contains(trim(key@)) ==> final(keys)@
            == old(keys)@,
        trim(key@).len() > 0 && !text_views(old(keys)@).contains(trim(key@)) ==> text_views(
            final(keys)@,
        ) == text_views(old(keys)@).push(trim(key@)),
{
    let k = chars_of(key);
    let t = trim_chars(k.as_slice());
    if t.len() == 0 || holds(keys, t.as_slice()) {
        return;
    }
    let ghost before = text_views(keys@);
    keys.push(string_of(t.as_slice()));
    proof {
        assert(text_views(keys@) =~= before.push(t@));
        assert forall|i: int, j: int| 0 <= i < j < text_views(keys@).len() implies #[trigger] text_views(
            keys@,
        )[i] != #[trigger] text_views(keys@)[j] by {
            if j == before.len() {
                assert(before[i] != t@);
            }
        }
    }
}

proof fn lemma_add_key_set(before: Seq<String>, after: Seq<String>, key: Seq<char>)
    requires
        trim(key).len() == 0 || text_views(before).contains(trim(key)) ==> after == before,
        trim(key).len() > 0 && !text_views(before).contains(trim(key)) ==> text_views(after)
            == text_views(before).push(trim(key)),
    ensures
        text_views(after).to_set() == if trim(key).len() > 0 {
            text_views(before).to_set().insert(trim(key))
        } else {
            text_views(before).to_set()
        },
{
    if trim(key).len() > 0 {
        if text_views(before).contains(trim(key)) {
            assert(text_views(before).to_set().insert(trim(key)) =~= text_views(before).to_set());
        } else {
            let a = text_views(after);
            let b = text_views(before);
            assert forall|e: Seq<char>| a.to_set().contains(e) implies b.to_set().insert(
                trim(key),
            ).contains(e) by {
                let k = choose|k: int| 0 <= k < a.len() && a[k] == e;
                if k < b.len() {
                    assert(a[k] == b[k]);
                }
            }
            assert forall|e: Seq<char>| b.to_set().insert(trim(key)).contains(e) implies a.to_set().contains(
                e,
            ) by {
                if e == trim(key) {
                    assert(a[b.len() as int] == e);
                } else {
                    let k = choose|k: int| 0 <= k < b.len() && b[k] == e;
                    assert(a[k] == e);
                }
            }
            assert(a.to_set() =~= b.to_set().insert(trim(key)));
        }
    }
}

fn add_tracked(keys: &mut Vec<String>, key: &String, Ghost(done): Ghost<Seq<Seq<char>>>)
    requires
        distinct(text_views(old(keys)@)),
        text_views(old(keys)@).to_set() == key_set(done),
    ensures
        distinct(text_views(final(keys)@)),
        text_views(final(keys)@).to_set() == key_set(done.push(key@)),
{
    let ghost before = keys@;
    add_key(keys, key.as_str());
    proof {
        lemma_add_key_set(before, keys@, key@);
        lemma_key_set_push(done, key@);
    }
}

/// The keys that global shortcuts register: each trimmed, non-blank key of
/// the active profile once (none when there is no active profile or it
/// disables global keys).
pub fn collect_keys(cfg: &AppConfig) -> (r: Vec<String>)
    ensures
        distinct(text_views(r@)),
        text_views(r@).to_set() == registered_keys(*cfg),
{
    let pi = match cfg.active_profile_position() {
        Some(i) => i,
        None => {
            assert(text_views(Seq::<String>::empty()).to_set() =~= Set::<Seq<char>>::empty());
            return Vec::new();
        },
    };
    let profile = &cfg.profiles[pi];
    if !profile.audio.global_keys {
        assert(text_views(Seq::<String>::empty()).to_set() =~= Set::<Seq<char>>::empty());
        return Vec::new();
    }
    let mut keys: Vec<String> = Vec::new();
    proof {
        assert(text_views(keys@).to_set() =~= key_set(Seq::<Seq<char>>::empty()));
    }
    let ghost none: Seq<Seq<char>> = Seq::empty();
    let ghost one: Seq<Seq<char>> = none.push(profile.audio.key_stop@);
    let ghost two: Seq<Seq<char>> = one.push(profile.audio.key_next@);
    let ghost head: Seq<Seq<char>> = two.push(profile.audio.key_prev@);
    add_tracked(&mut keys, &profile.audio.key_stop, Ghost(none));
    add_tracked(&mut keys, &profile.audio.key_next, Ghost(one));
    add_tracked(&mut keys, &profile.audio.key_prev, Ghost(two));
    assert(head =~= seq![profile.audio.key_stop@, profile.audio.key_next@, profile.audio.key_prev@]);
    assert(head + paleta_keys(profile.paletas@.take(0)) =~= head);
    let mut i: usize = 0;
    while i < profile.paletas.len()
        invariant
            i <= profile.paletas.len(),
            distinct(text_views(keys@)),
            text_views(keys@).to_set() == key_set(head + paleta_keys(profile.paletas@.take(i as int))),
        decreases profile.paletas.len() - i,
    {
        let paleta = &profile.paletas[i];
        let ghost done = head + paleta_keys(profile.paletas@.take(i as int));
        add_tracked(&mut keys, &paleta.shortcut, Ghost(done));
        let ghost with_tab = done.push(paleta.shortcut@);
        assert(with_tab + button_keys(paleta.botones@.take(0)) =~= with_tab);
        let mut j: usize = 0;
        while j < paleta.botones.len()
            invariant
                j <= paleta.botones.len(),
                distinct(text_views(keys@)),
                text_views(keys@).to_set() == key_set(
                    with_tab + button_keys(paleta.botones@.take(j as int)),
                ),
            decreases paleta.botones.len() - j,
        {
            add_tracked(
                &mut keys,
                &paleta.botones[j].shortcut,
                Ghost(with_tab + button_keys(paleta.botones@.take(j as int))),
            );
            assert((with_tab + button_keys(paleta.botones@.take(j as int))).push(
                paleta.botones@[j as int].shortcut@,
            ) =~= with_tab + button_keys(paleta.botones@.take(j + 1)));
            j += 1;
        }
        proof {
            let t = profile.paletas@.take(i + 1);
            assert(t.drop_last() =~= profile.paletas@.take(i as int));
            assert(paleta.botones@.take(paleta.botones.len() as int) =~= paleta.botones@);
            assert(with_tab + button_keys(paleta.botones@) =~= head + paleta_keys(t));
        }
        i += 1;
    }
    assert(profile.paletas@.take(profile.paletas.len() as int) =~= profile.paletas@);
    keys
}

} // verus!
