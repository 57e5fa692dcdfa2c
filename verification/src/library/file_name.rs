//! Portable validation of the file name that the user picks for a track.
use crate::library::path::{
    extension_chars, extension_of, file_name_chars, file_name_of, join, join_chars,
    lemma_join_name, lemma_parent_shape, parent_chars, parent_of,
};
use crate::seqs::{first_index, lemma_first_is, lemma_first_none};
use crate::text::{
    ascii_upper, char_pred, chars_of, dec, dec_chars, is_ws, lead_count, push_chars, push_str,
    seq_eq, string_of, trail_count, trim, trim_chars, ws_pred,
};
use vstd::prelude::*;

verus! {

/// How many bytes UTF-8 spends on `c`.
pub open spec fn char_width(c: char) -> nat {
    if (c as int) < 0x80 {
        1
    } else if (c as int) < 0x800 {
        2
    } else if (c as int) < 0x10000 {
        3
    } else {
        4
    }
}

/// The UTF-8 length of `s`, in bytes.
pub open spec fn utf8_len(s: Seq<char>) -> nat
    decreases s.len(),
{
    if s.len() == 0 {
        0
    } else {
        utf8_len(s.drop_last()) + char_width(s.last())
    }
}

/// The control characters (general category `Cc`), as `char::is_control` has them.
pub open spec fn is_control(c: char) -> bool {
    (c as int) <= 0x1F || (0x7F <= (c as int) && (c as int) <= 0x9F)
}

/// A character that no portable file name may hold.
pub open spec fn bad_char(c: char) -> bool {
    is_control(c) || c == '<' || c == '>' || c == ':' || c == '"' || c == '/' || c == '\\' || c
        == '|' || c == '?' || c == '*'
}

/// The part of `name` before its first `'.'`.
pub open spec fn stem_before_dot(name: Seq<char>) -> Seq<char> {
    match first_index(name, char_pred('.')) {
        Some(k) => name.take(k),
        None => name,
    }
}

pub open spec fn upper_all(s: Seq<char>) -> Seq<char> {
    Seq::new(s.len(), |i: int| ascii_upper(s[i]))
}

/// A name that Windows reserves for a device: `CON`, `PRN`, `AUX`, `NUL`,
/// `COM1`..`COM9` or `LPT1`..`LPT9`, in any case, before the first `'.'`.
pub open spec fn reserved_name(name: Seq<char>) -> bool {
    let s = upper_all(stem_before_dot(name));
    ||| s == "CON"@
    ||| s == "PRN"@
    ||| s == "AUX"@
    ||| s == "NUL"@
    ||| (s.len() == 4 && (s.take(3) == "COM"@ || s.take(3) == "LPT"@) && '1' <= s[3] && s[3]
        <= '9')
}

/// The device-name check cuts a four-byte stem after its third byte; that is
/// no character boundary (and the check panics) exactly when the stem's last
/// character is wider than one byte.
pub open spec fn stem_cut_panics(name: Seq<char>) -> bool {
    let s = stem_before_dot(name);
    utf8_len(s) == 4 && char_width(s.last()) != 1
}

/// The trimmed name passes every check that runs before the device-name check.
pub open spec fn passes_early_checks(name: Seq<char>) -> bool {
    &&& name.len() > 0
    &&& name != "."@
    &&& name != ".."@
    &&& utf8_len(name) <= 255
    &&& forall|i: int| 0 <= i < name.len() ==> !bad_char(#[trigger] name[i])
    &&& name.last() != '.'
    &&& name.last() != ' '
}

/// The requested name is acceptable on every platform.
pub open spec fn valid_name(name: Seq<char>) -> bool {
    passes_early_checks(name) && !reserved_name(name)
}

/// Where renaming `source` to `requested` leads, or which error refuses it
/// (before the file system is asked whether the target is taken).
pub open spec fn destination_of(source: Seq<char>, requested: Seq<char>) -> Result<
    Seq<char>,
    Seq<char>,
> {
    let name = trim(requested);
    if !valid_name(name) {
        Err("library_rename_invalid_name"@)
    } else {
        match file_name_of(source) {
            None => Err("library_rename_invalid_source"@),
            Some(current) => if current == name {
                Err("library_rename_unchanged"@)
            } else if extension_of(current) != extension_of(name) {
                Err("library_rename_extension_changed"@)
            } else {
                Ok(join(parent_of(source), name))
            },
        }
    }
}

/// A character that a portable file name may not hold, written out: a
/// control character or one of `< > : " / \ | ? *`.
pub open spec fn forbidden_in_name(c: char) -> bool {
    ||| (c as int) <= 0x1F
    ||| 0x7F <= (c as int) <= 0x9F
    ||| c == '<'
    ||| c == '>'
    ||| c == ':'
    ||| c == '"'
    ||| c == '/'
    ||| c == '\\'
    ||| c == '|'
    ||| c == '?'
    ||| c == '*'
}

proof fn lemma_lead_stops(s: Seq<char>, p: spec_fn(char) -> bool, i: int)
    requires
        0 <= i < s.len(),
        !p(s[i]),
    ensures
        lead_count(s, p) <= i,
    decreases i,
{
    if i > 0 && p(s[0]) {
        assert(s.drop_first()[i - 1] == s[i]);
        lemma_lead_stops(s.drop_first(), p, i - 1);
    }
}

proof fn lemma_trail_stops(s: Seq<char>, p: spec_fn(char) -> bool, i: int)
    requires
        0 <= i < s.len(),
        !p(s[i]),
    ensures
        trail_count(s, p) + i < s.len(),
    decreases s.len(),
{
    if p(s.last()) {
        assert(s.drop_last()[i] == s[i]);
        lemma_trail_stops(s.drop_last(), p, i);
    }
}

/// A character that is no white space stays in the trimmed name.
proof fn lemma_trim_keeps(s: Seq<char>, i: int)
    requires
        0 <= i < s.len(),
        !is_ws(s[i]),
    ensures
        exists|k: int| 0 <= k < trim(s).len() && trim(s)[k] == s[i],
{
    let p = ws_pred();
    lemma_lead_stops(s, p, i);
    let lc = lead_count(s, p) as int;
    let t = s.subrange(lc, s.len() as int);
    assert(t[i - lc] == s[i]);
    lemma_trail_stops(t, p, i - lc);
    assert(trim(s)[i - lc] == s[i]);
}

/// A name (once trimmed) that holds a control character or one of
/// `< > : " / \ | ? *` is refused with `library_rename_invalid_name`.
pub proof fn lemma_forbidden_character_refused(source: Seq<char>, requested: Seq<char>, i: int)
    requires
        0 <= i < trim(requested).len(),
        forbidden_in_name(trim(requested)[i]),
    ensures
        destination_of(source, requested) == Err::<Seq<char>, Seq<char>>(
            "library_rename_invalid_name"@,
        ),
{
    assert(!passes_early_checks(trim(requested)));
}

/// A name (once trimmed) that is empty, `.` or `..`, longer than 255 bytes,
/// or that ends in a dot or a space is refused with
/// `library_rename_invalid_name`.
pub proof fn lemma_malformed_name_refused(source: Seq<char>, requested: Seq<char>)
    requires
        ({
            let name = trim(requested);
            ||| name.len() == 0
            ||| name == "."@
            ||| name == ".."@
            ||| utf8_len(name) > 255
            ||| name.last() == '.'
            ||| name.last() == ' '
        }),
    ensures
        destination_of(source, requested) == Err::<Seq<char>, Seq<char>>(
            "library_rename_invalid_name"@,
        ),
{
}

/// No accepted rename target comes from a request that holds `< > : " / \
/// | ? *` or a control character that is no white space, anywhere in it.
pub proof fn lemma_accepted_request_is_portable(source: Seq<char>, requested: Seq<char>)
    requires
        destination_of(source, requested) is Ok,
    ensures
        forall|i: int|
            0 <= i < requested.len() && !is_ws(requested[i]) ==> !forbidden_in_name(
                #[trigger] requested[i],
            ),
{
    assert forall|i: int|
        0 <= i < requested.len() && !is_ws(requested[i]) implies !forbidden_in_name(
            #[trigger] requested[i],
        ) by {
        lemma_trim_keeps(requested, i);
        let k = choose|k: int| 0 <= k < trim(requested).len() && trim(requested)[k] == requested[i];
        if forbidden_in_name(requested[i]) {
            lemma_forbidden_character_refused(source, requested, k);
        }
    }
}

/// Renaming keeps the file in its folder and its extension: the target's
/// file name is the requested name (trimmed), its parent is the source's
/// parent, and that name has the source file's extension.
pub proof fn lemma_destination_keeps_folder_and_extension(source: Seq<char>, requested: Seq<char>)
    requires
        destination_of(source, requested) is Ok,
    ensures
        ({
            let t = destination_of(source, requested)->Ok_0;
            &&& file_name_of(t) == Some(trim(requested))
            &&& parent_of(t) == parent_of(source)
            &&& file_name_of(source) is Some
            &&& extension_of(trim(requested)) == extension_of(file_name_of(source)->0)
        }),
{
    let name = trim(requested);
    assert forall|i: int| 0 <= i < name.len() implies name[i] != '/' by {
        assert(!bad_char(name[i]));
    }
    lemma_parent_shape(source);
    lemma_join_name(parent_of(source), name);
}

proof fn lemma_utf8_len_take(s: Seq<char>, i: int)
    requires
        0 <= i <= s.len(),
    ensures
        utf8_len(s.take(i)) <= utf8_len(s),
    decreases s.len(),
{
    if i == s.len() {
        assert(s.take(i) =~= s);
    } else {
        assert(s.drop_last().take(i) =~= s.take(i));
        lemma_utf8_len_take(s.drop_last(), i);
    }
}

fn char_width_of(c: char) -> (w: usize)
    ensures
        w == char_width(c),
{
    let u = c as u32;
    if u < 0x80 {
        1
    } else if u < 0x800 {
        2
    } else if u < 0x10000 {
        3
    } else {
        4
    }
}

/// Whether `s` takes more than `limit` bytes in UTF-8.
fn utf8_len_exceeds(s: &[char], limit: usize) -> (r: bool)
    requires
        limit < usize::MAX - 4,
    ensures
        r == (utf8_len(s@) > limit),
{
    let mut total: usize = 0;
    let mut i: usize = 0;
    while i < s.len()
        invariant
            i <= s.len(),
            limit < usize::MAX - 4,
            total == utf8_len(s@.take(i as int)),
            total <= limit,
        decreases s.len() - i,
    {
        let w = char_width_of(s[i]);
        proof {
            let t = s@.take(i as int + 1);
            assert(t.drop_last() =~= s@.take(i as int));
        }
        total = total + w;
        i += 1;
        if total > limit {
            proof {
                lemma_utf8_len_take(s@, i as int);
            }
            return true;
        }
    }
    assert(s@.take(s.len() as int) =~= s@);
    false
}

fn is_bad_char(c: char) -> (r: bool)
    ensures
        r == bad_char(c),
{
    let u = c as u32;
    u <= 0x1F || (0x7F <= u && u <= 0x9F) || c == '<' || c == '>' || c == ':' || c == '"' || c
        == '/' || c == '\\' || c == '|' || c == '?' || c == '*'
}

fn has_bad_char(s: &[char]) -> (r: bool)
    ensures
        r == exists|i: int| 0 <= i < s.len() && bad_char(#[trigger] s@[i]),
{
    let mut i: usize = 0;
    while i < s.len()
        invariant
            i <= s.len(),
            forall|j: int| 0 <= j < i ==> !bad_char(#[trigger] s@[j]),
        decreases s.len() - i,
    {
        if is_bad_char(s[i]) {
            return true;
        }
        i += 1;
    }
    false
}

fn stem_chars(name: &[char]) -> (r: Vec<char>)
    ensures
        r@ == stem_before_dot(name@),
{
    let mut k: usize = 0;
    while k < name.len()
        invariant
            k <= name.len(),
            forall|j: int| 0 <= j < k ==> !char_pred('.')(#[trigger] name@[j]),
        decreases name.len() - k,
    {
        if name[k] == '.' {
            proof {
                lemma_first_is(name@, char_pred('.'), k as int);
            }
            let r = crate::text::slice_range(name, 0, k);
            assert(r@ =~= name@.take(k as int));
            return r;
        }
        k += 1;
    }
    proof {
        lemma_first_none(name@, char_pred('.'));
    }
    crate::text::slice_range(name, 0, name.len())
}

fn upper_char(c: char) -> (r: char)
    ensures
        r == ascii_upper(c),
{
    match c {
        'a' => 'A',
        'b' => 'B',
        'c' => 'C',
        'd' => 'D',
        'e' => 'E',
        'f' => 'F',
        'g' => 'G',
        'h' => 'H',
        'i' => 'I',
        'j' => 'J',
        'k' => 'K',
        'l' => 'L',
        'm' => 'M',
        'n' => 'N',
        'o' => 'O',
        'p' => 'P',
        'q' => 'Q',
        'r' => 'R',
        's' => 'S',
        't' => 'T',
        'u' => 'U',
        'v' => 'V',
        'w' => 'W',
        'x' => 'X',
        'y' => 'Y',
        'z' => 'Z',
        _ => c,
    }
}

fn upper_chars(s: &[char]) -> (r: Vec<char>)
    ensures
        r@ == upper_all(s@),
{
    let mut r: Vec<char> = Vec::new();
    let mut i: usize = 0;
    while i < s.len()
        invariant
            i <= s.len(),
            r@ =~= upper_all(s@).take(i as int),
        decreases s.len() - i,
    {
        r.push(upper_char(s[i]));
        i += 1;
    }
    r
}

fn is_literal(s: &[char], lit: &str) -> (r: bool)
    ensures
        r == (s@ == lit@),
{
    let l = chars_of(lit);
    seq_eq(s, l.as_slice())
}

/// Whether `name` is reserved for a device on Windows, and whether checking
/// it panics.
fn reserved_check(name: &[char]) -> (r: (bool, bool))
    ensures
        r.1 == stem_cut_panics(name@),
        !r.1 ==> r.0 == reserved_name(name@),
{
    let stem = stem_chars(name);
    let s = upper_chars(stem.as_slice());
    assert(s@.len() == stem@.len());
    let panics = stem.len() > 0 && !utf8_len_exceeds(stem.as_slice(), 4) && utf8_len_exceeds(
        stem.as_slice(),
        3,
    ) && char_width_of(stem[stem.len() - 1]) != 1;
    proof {
        if stem@.len() == 0 {
            assert(utf8_len(stem@) == 0);
        }
    }
    let named = is_literal(s.as_slice(), "CON") || is_literal(s.as_slice(), "PRN") || is_literal(
        s.as_slice(),
        "AUX",
    ) || is_literal(s.as_slice(), "NUL");
    let numbered = if s.len() == 4 {
        let head = crate::text::slice_range(s.as_slice(), 0, 3);
        assert(head@ =~= s@.take(3));
        (is_literal(head.as_slice(), "COM") || is_literal(head.as_slice(), "LPT")) && '1' <= s[3]
            && s[3] <= '9'
    } else {
        false
    };
    (named || numbered, panics)
}

/// Whether `destination` would panic on `requested` (the device-name check
/// cuts a stem inside a character).
pub fn destination_panics(requested: &str) -> (r: bool)
    ensures
        r == (passes_early_checks(trim(requested@)) && stem_cut_panics(trim(requested@))),
{
    let v = chars_of(requested);
    let name = trim_chars(v.as_slice());
    early_checks(name.as_slice()) && reserved_check(name.as_slice()).1
}

fn early_checks(name: &[char]) -> (r: bool)
    ensures
        r == passes_early_checks(name@),
{
    if name.len() == 0 {
        return false;
    }
    let (one, two) = crate::library::path::dot_names(name);
    if one || two || utf8_len_exceeds(name, 255) {
        return false;
    }
    let bad = has_bad_char(name);
    let last = name[name.len() - 1];
    !bad && last != '.' && last != ' '
}

fn same_extension(a: &Option<Vec<char>>, b: &Option<Vec<char>>) -> (r: bool)
    ensures
        r == (match (a, b) {
            (Some(x), Some(y)) => x@ == y@,
            (None, None) => true,
            _ => false,
        }),
{
    match (a, b) {
        (Some(x), Some(y)) => seq_eq(x.as_slice(), y.as_slice()),
        (None, None) => true,
        _ => false,
    }
}

/// Where renaming the file at `source` to `requested` (trimmed) leads: in
/// the same folder, with a portable name that keeps the extension. The error
/// names the first check that fails.
pub fn destination(source: &str, requested: &str) -> (r: Result<String, String>)
    requires
        passes_early_checks(trim(requested@)) ==> !stem_cut_panics(trim(requested@)),
    ensures
        match destination_of(source@, requested@) {
            Ok(t) => r is Ok && r->Ok_0@ == t,
            Err(e) => r is Err && r->Err_0@ == e,
        },
{
    let v = chars_of(requested);
    let name = trim_chars(v.as_slice());
    if !early_checks(name.as_slice()) {
        return Err("library_rename_invalid_name".to_owned());
    }
    let (reserved, _) = reserved_check(name.as_slice());
    if reserved {
        return Err("library_rename_invalid_name".to_owned());
    }
    let src = chars_of(source);
    let current = match file_name_chars(src.as_slice()) {
        Some(c) => c,
        None => {
            return Err("library_rename_invalid_source".to_owned());
        },
    };
    if seq_eq(current.as_slice(), name.as_slice()) {
        return Err("library_rename_unchanged".to_owned());
    }
    let old_ext = extension_chars(current.as_slice());
    let new_ext = extension_chars(name.as_slice());
    if !same_extension(&old_ext, &new_ext) {
        proof {
            if extension_of(current@) == extension_of(name@) {
                assert(false);
            }
        }
        return Err("library_rename_extension_changed".to_owned());
    }
    proof {
        if extension_of(current@) != extension_of(name@) {
            match (extension_of(current@), extension_of(name@)) {
                (Some(x), Some(y)) => {
                    assert(x == y);
                },
                _ => {},
            }
        }
    }
    let parent = parent_chars(src.as_slice());
    let target = join_chars(parent.as_slice(), name.as_slice());
    Ok(string_of(target.as_slice()))
}

/// A planned target that already exists refuses the rename
/// (`library_rename_destination_exists`), unless it is the source's own
/// catalog entry (`same_key`, as when only the case of the name changes).
pub fn check_free(target: String, target_exists: bool, same_key: bool) -> (r: Result<String, String>)
    ensures
        !target_exists || same_key ==> r == Ok::<String, String>(target),
        target_exists && !same_key ==> r is Err && r->Err_0@ == "library_rename_destination_exists"@,
{
    if target_exists && !same_key {
        return Err("library_rename_destination_exists".to_owned());
    }
    Ok(target)
}

/// The name of the `attempt`-th temporary file that process `pid` tries
/// beside a file it renames: `.lf-rename-{pid}-{attempt}.tmp`.
pub fn temporary_name(pid: u32, attempt: u32) -> (r: String)
    ensures
        r@ == ".lf-rename-"@ + dec(pid as nat) + "-"@ + dec(attempt as nat) + ".tmp"@,
{
    let mut v: Vec<char> = Vec::new();
    push_str(&mut v, ".lf-rename-");
    let p = dec_chars(pid as u64);
    push_chars(&mut v, p.as_slice());
    push_str(&mut v, "-");
    let a = dec_chars(attempt as u64);
    push_chars(&mut v, a.as_slice());
    push_str(&mut v, ".tmp");
    string_of(v.as_slice())
}

} // verus!
