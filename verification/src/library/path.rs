//! Unix paths as text, read the way `std::path::Path` reads them: a root or
//! a leading `.`, then components separated by `/`, where empty pieces
//! (repeated or trailing separators) and `.` name no component. File name,
//! extension, parent, joining, `starts_with` and `strip_prefix` follow
//! `Path` on every path, `.` components and repeated separators included.
use crate::text::{ascii_lower, chars_of, push_chars, slice_range, string_of};
use vstd::prelude::*;

verus! {

/// Index of the last `c` in `s`, or -1.
pub open spec fn last_index(s: Seq<char>, c: char) -> int
    decreases s.len(),
{
    if s.len() == 0 {
        -1
    } else if s.last() == c {
        s.len() - 1
    } else {
        last_index(s.drop_last(), c)
    }
}

/// What `Path::join` gives for a relative `name`.
pub open spec fn join(p: Seq<char>, name: Seq<char>) -> Seq<char> {
    if p.len() == 0 {
        name
    } else if p.last() == '/' {
        p + name
    } else {
        p + seq!['/'] + name
    }
}

/// What `Path::extension` gives for a file name: the text after its last
/// `'.'`, unless that dot is the first character.
pub open spec fn extension_of(name: Seq<char>) -> Option<Seq<char>> {
    let k = last_index(name, '.');
    if k <= 0 {
        None
    } else {
        Some(name.subrange(k + 1, name.len() as int))
    }
}

pub open spec fn lower_all(s: Seq<char>) -> Seq<char> {
    Seq::new(s.len(), |i: int| ascii_lower(s[i]))
}

/// Appends the segment being read, unless it is empty or `.`.
pub open spec fn flush(done: Seq<Seq<char>>, cur: Seq<char>) -> Seq<Seq<char>> {
    if cur.len() > 0 && cur != "."@ {
        done.push(cur)
    } else {
        done
    }
}

/// Segments read so far, and the segment being read.
pub open spec fn seg_state(s: Seq<char>) -> (Seq<Seq<char>>, Seq<char>)
    decreases s.len(),
{
    if s.len() == 0 {
        (Seq::empty(), Seq::empty())
    } else {
        let prev = seg_state(s.drop_last());
        if s.last() == '/' {
            (flush(prev.0, prev.1), Seq::empty())
        } else {
            (prev.0, prev.1.push(s.last()))
        }
    }
}

/// The normal components of `s`: its `'/'`-separated segments that are
/// neither empty nor `.`.
pub open spec fn segs(s: Seq<char>) -> Seq<Seq<char>> {
    flush(seg_state(s).0, seg_state(s).1)
}

pub open spec fn rooted(s: Seq<char>) -> bool {
    s.len() > 0 && s[0] == '/'
}


/// A relative path whose first component is `.` (the path is `.` or starts with `./`).
pub open spec fn cur_dir_lead(s: Seq<char>) -> bool {
    !rooted(s) && s.len() > 0 && s[0] == '.' && (s.len() == 1 || s[1] == '/')
}

/// Where the components after the root or the leading `.` begin.
pub open spec fn body_start(s: Seq<char>) -> int {
    if rooted(s) || cur_dir_lead(s) {
        1
    } else {
        0
    }
}

/// Where the last piece of `s` begins: after its last separator at or after
/// `b`, else at `b`.
pub open spec fn piece_start(s: Seq<char>, b: int) -> int {
    if last_index(s, '/') >= b {
        last_index(s, '/') + 1
    } else {
        b
    }
}

/// Where `s` ends once its last piece, and the separator before it, are cut off.
pub open spec fn piece_cut(s: Seq<char>, b: int) -> int {
    if last_index(s, '/') >= b {
        last_index(s, '/')
    } else {
        b
    }
}

pub open spec fn last_piece(s: Seq<char>, b: int) -> Seq<char> {
    s.skip(piece_start(s, b))
}

/// A piece that names no component: empty (a repeated or trailing
/// separator) or `.`.
pub open spec fn junk(p: Seq<char>) -> bool {
    p.len() == 0 || p == seq!['.']
}

/// `s` without the trailing pieces that name no component, never cutting
/// into its first `b` characters (the root or the leading `.`).
pub open spec fn trim_tail(s: Seq<char>, b: int) -> Seq<char>
    decreases s.len(),
{
    if 0 <= b < s.len() && junk(last_piece(s, b)) {
        proof {
            lemma_last_index_bounds(s, '/');
        }
        trim_tail(s.take(piece_cut(s, b)), b)
    } else {
        s
    }
}

/// What `Path::file_name` gives: the last component, when it is a name
/// (not the root, a leading `.`, or `..`).
pub open spec fn file_name_of(s: Seq<char>) -> Option<Seq<char>> {
    let b = body_start(s);
    let t = trim_tail(s, b);
    if t.len() > b && last_piece(t, b) != ".."@ {
        Some(last_piece(t, b))
    } else {
        None
    }
}

/// What `Path::parent` gives for a path whose last component follows the
/// root or the leading `.`: the text before that component, without the
/// trailing pieces that name no component (empty for any other path).
pub open spec fn parent_of(s: Seq<char>) -> Seq<char> {
    let b = body_start(s);
    let t = trim_tail(s, b);
    if t.len() > b {
        trim_tail(t.take(piece_cut(t, b)), b)
    } else {
        Seq::empty()
    }
}

/// What comes before the named components: a root (1), a leading `.` (2),
/// or nothing (0).
pub open spec fn lead(s: Seq<char>) -> int {
    if rooted(s) {
        1
    } else if cur_dir_lead(s) {
        2
    } else {
        0
    }
}

/// What `Path::starts_with` decides: the components of `base` (its root or
/// leading `.`, then its named components) begin those of `s`.
pub open spec fn starts_with(s: Seq<char>, base: Seq<char>) -> bool {
    ||| (lead(base) == 0 && segs(base).len() == 0)
    ||| {
        &&& lead(s) == lead(base)
        &&& segs(base).len() <= segs(s).len()
        &&& segs(s).take(segs(base).len() as int) == segs(base)
    }
}

/// Where the piece that starts at `i` ends: at the next separator, or at the end.
pub open spec fn piece_end(s: Seq<char>, i: int) -> int {
    match crate::seqs::first_index(s.skip(i), crate::text::char_pred('/')) {
        Some(k) => i + k,
        None => s.len() as int,
    }
}

/// Where the piece after the one at `i` starts.
pub open spec fn after_piece(s: Seq<char>, i: int) -> int {
    if piece_end(s, i) < s.len() {
        piece_end(s, i) + 1
    } else {
        s.len() as int
    }
}

/// Where reading starts after `m` components are read from position `i`:
/// pieces that name no component are passed over.
pub open spec fn skip_components(s: Seq<char>, i: int, m: nat) -> int
    decreases s.len() - i, m,
{
    if m == 0 || i < 0 || i >= s.len() {
        i
    } else if after_piece(s, i) <= i {
        i
    } else if junk(s.subrange(i, piece_end(s, i))) {
        skip_components(s, after_piece(s, i), m)
    } else {
        skip_components(s, after_piece(s, i), (m - 1) as nat)
    }
}

/// Position `i` moved past the pieces that name no component.
pub open spec fn skip_junk(s: Seq<char>, i: int) -> int
    decreases s.len() - i,
{
    if 0 <= i < s.len() && after_piece(s, i) > i && junk(s.subrange(i, piece_end(s, i))) {
        skip_junk(s, after_piece(s, i))
    } else {
        i
    }
}

/// What `Path::strip_prefix` gives: when `s` starts with `base`, the text of
/// `s` after `base`'s components, without leading and trailing pieces that
/// name no component (repeated separators inside are kept as written).
pub open spec fn strip_prefix(s: Seq<char>, base: Seq<char>) -> Option<Seq<char>> {
    if !starts_with(s, base) {
        None
    } else if lead(base) == 0 && segs(base).len() == 0 {
        Some(trim_tail(s, body_start(s)))
    } else {
        let i = skip_junk(s, skip_components(s, body_start(s), segs(base).len()));
        Some(trim_tail(s.skip(i), 0))
    }
}

/// Characters other than `c` appended to `a` leave its last `c` where it was.
pub proof fn lemma_last_index_append(a: Seq<char>, b: Seq<char>, c: char)
    requires
        forall|i: int| 0 <= i < b.len() ==> b[i] != c,
    ensures
        last_index(a + b, c) == last_index(a, c),
    decreases b.len(),
{
    if b.len() == 0 {
        assert(a + b =~= a);
    } else {
        assert((a + b).drop_last() =~= a + b.drop_last());
        assert((a + b).last() == b.last());
        lemma_last_index_append(a, b.drop_last(), c);
    }
}


pub proof fn lemma_last_index_bounds(s: Seq<char>, c: char)
    ensures
        -1 <= last_index(s, c) < s.len(),
        last_index(s, c) >= 0 ==> s[last_index(s, c)] == c,
        forall|j: int| last_index(s, c) < j < s.len() ==> s[j] != c,
    decreases s.len(),
{
    if s.len() > 0 && s.last() != c {
        lemma_last_index_bounds(s.drop_last(), c);
        assert forall|j: int| last_index(s, c) < j < s.len() implies s[j] != c by {
            if j < s.len() - 1 {
                assert(s.drop_last()[j] == s[j]);
            }
        }
    }
}

/// Trimming keeps a prefix at least `b` long whose last piece names a component.
pub proof fn lemma_trim_tail(s: Seq<char>, b: int)
    requires
        0 <= b <= s.len(),
    ensures
        b <= trim_tail(s, b).len() <= s.len(),
        trim_tail(s, b) == s.take(trim_tail(s, b).len() as int),
        trim_tail(s, b).len() > b ==> !junk(last_piece(trim_tail(s, b), b)),
    decreases s.len(),
{
    lemma_last_index_bounds(s, '/');
    if 0 <= b < s.len() && junk(last_piece(s, b)) {
        let x = s.take(piece_cut(s, b));
        lemma_trim_tail(x, b);
        let r = trim_tail(x, b);
        assert(r == s.take(r.len() as int)) by {
            assert(x.take(r.len() as int) =~= s.take(r.len() as int));
        }
    } else {
        assert(s.take(s.len() as int) =~= s);
    }
}

/// A path whose last piece names a component does not end in a separator.
proof fn lemma_named_end(r: Seq<char>, b: int)
    requires
        0 <= b < r.len(),
        !junk(last_piece(r, b)),
    ensures
        r.last() != '/',
        trim_tail(r, b) == r,
{
    if r.last() == '/' {
        assert(last_index(r, '/') == r.len() - 1);
        assert(last_piece(r, b).len() == 0);
    }
}

/// The shapes a parent takes: empty, the root, `.`, or a path whose last
/// piece names a component.
pub open spec fn parent_shape(p: Seq<char>) -> bool {
    ||| p.len() == 0
    ||| p == seq!['/']
    ||| p == seq!['.']
    ||| (p.len() > body_start(p) && p.last() != '/' && trim_tail(p, body_start(p)) == p)
}

/// The parent of a path that has a file name has one of the parent shapes.
pub proof fn lemma_parent_shape(s: Seq<char>)
    requires
        file_name_of(s) is Some,
    ensures
        parent_shape(parent_of(s)),
{
    let b = body_start(s);
    lemma_trim_tail(s, b);
    let t = trim_tail(s, b);
    lemma_last_index_bounds(t, '/');
    let cut = piece_cut(t, b);
    let x = t.take(cut);
    lemma_trim_tail(x, b);
    let y = trim_tail(x, b);
    assert(y == s.take(y.len() as int)) by {
        assert(x.take(y.len() as int) =~= s.take(y.len() as int));
    }
    if y.len() == b {
        if b == 1 {
            assert(y =~= seq![s[0]]);
        } else {
            assert(y =~= Seq::<char>::empty());
        }
    } else {
        lemma_named_end(y, b);
        assert(y[0] == s[0]);
        if y.len() >= 2 {
            assert(y[1] == s[1]);
        } else {
            if cur_dir_lead(y) {
                assert(y.last() == '.');
                assert(last_index(y.drop_last(), '/') == -1);
                assert(last_index(y, '/') == -1);
                assert(last_piece(y, b) =~= y);
                assert(y =~= seq!['.']);
            }
        }
        assert(body_start(y) == b);
    }
}

/// Joining a parent of one of the parent shapes with a file name (no
/// separator, not `.` or `..`) gives a path whose file name is that name and
/// whose parent is that parent.
pub proof fn lemma_join_name(p: Seq<char>, name: Seq<char>)
    requires
        parent_shape(p),
        name.len() > 0,
        name != seq!['.'],
        name != ".."@,
        forall|i: int| 0 <= i < name.len() ==> name[i] != '/',
    ensures
        file_name_of(join(p, name)) == Some(name),
        parent_of(join(p, name)) == p,
{
    let t = join(p, name);
    if p.len() == 0 {
        assert(t == name);
        lemma_last_index_append(Seq::<char>::empty(), name, '/');
        assert(Seq::<char>::empty() + name =~= name);
        if cur_dir_lead(name) {
            if name.len() == 1 {
                assert(name =~= seq!['.']);
            }
        }
        assert(body_start(t) == 0);
        assert(last_piece(t, 0) =~= name);
        assert(t.take(0) =~= Seq::<char>::empty());
    } else if p == seq!['/'] {
        assert(t =~= seq!['/'] + name);
        lemma_last_index_append(seq!['/'], name, '/');
        assert(last_index(seq!['/'], '/') == 0) by {
            assert(seq!['/'].last() == '/');
        }
        assert(body_start(t) == 1);
        assert(last_piece(t, 1) =~= name);
        assert(t.take(1) =~= seq!['/']);
    } else {
        let a = p.push('/');
        assert(t =~= a + name);
        lemma_last_index_append(a, name, '/');
        assert(last_index(a, '/') == p.len()) by {
            assert(a.last() == '/');
        }
        assert(t[0] == p[0]);
        assert(t[p.len() as int] == '/');
        if p.len() >= 2 {
            assert(t[1] == p[1]);
        }
        assert(body_start(t) == body_start(p)) by {
            if p == seq!['.'] {
                assert(t[1] == '/');
            }
        }
        assert(last_piece(t, body_start(t)) =~= name);
        assert(t.take(p.len() as int) =~= p);
        if p == seq!['.'] {
            assert(body_start(p) == 1);
        }
    }
}

fn prefix(s: &[char], n: usize) -> (r: Vec<char>)
    requires
        n <= s.len(),
    ensures
        r@ == s@.subrange(0, n as int),
{
    let mut r: Vec<char> = Vec::new();
    let mut i: usize = 0;
    while i < n
        invariant
            i <= n,
            n <= s.len(),
            r@ =~= s@.subrange(0, i as int),
        decreases n - i,
    {
        r.push(s[i]);
        i += 1;
    }
    r
}

fn suffix_from(s: &[char], n: usize) -> (r: Vec<char>)
    requires
        n <= s.len(),
    ensures
        r@ == s@.subrange(n as int, s.len() as int),
{
    let mut r: Vec<char> = Vec::new();
    let mut i: usize = n;
    while i < s.len()
        invariant
            n <= i <= s.len(),
            r@ =~= s@.subrange(n as int, i as int),
        decreases s.len() - i,
    {
        r.push(s[i]);
        i += 1;
    }
    r
}

/// Index of the last `c` in `s`, or `None`.
pub fn last_index_of(s: &[char], c: char) -> (r: Option<usize>)
    ensures
        match r {
            Some(k) => k < s.len() && k == last_index(s@, c),
            None => last_index(s@, c) == -1,
        },
{
    let mut i: usize = s.len();
    assert(s@.subrange(0, s.len() as int) =~= s@);
    while i > 0
        invariant
            i <= s.len(),
            last_index(s@, c) == last_index(s@.subrange(0, i as int), c),
        decreases i,
    {
        assert(s@.subrange(0, i as int).drop_last() =~= s@.subrange(0, i as int - 1));
        if s[i - 1] == c {
            return Some(i - 1);
        }
        i -= 1;
    }
    None
}

pub fn dot_names(n: &[char]) -> (r: (bool, bool))
    ensures
        r.0 == (n@ == "."@),
        r.1 == (n@ == ".."@),
{
    proof {
        reveal_strlit(".");
        reveal_strlit("..");
    }
    let one = n.len() == 1 && n[0] == '.';
    let two = n.len() == 2 && n[0] == '.' && n[1] == '.';
    proof {
        if n@ == "."@ {
            assert(n@[0] == '.');
        }
        if one {
            assert(n@ =~= "."@);
        }
        if n@ == ".."@ {
            assert(n@[0] == '.' && n@[1] == '.');
        }
        if two {
            assert(n@ =~= ".."@);
        }
    }
    (one, two)
}


fn body_start_of(s: &[char]) -> (b: usize)
    ensures
        b == body_start(s@),
{
    if s.len() > 0 && (s[0] == '/' || (s[0] == '.' && (s.len() == 1 || s[1] == '/'))) {
        1
    } else {
        0
    }
}

/// Where the last piece of the first `e` characters of `s` begins, and
/// where they end once it is cut off.
fn piece_bounds(s: &[char], e: usize, b: usize) -> (r: (usize, usize))
    requires
        b <= e <= s.len(),
    ensures
        r.0 == piece_start(s@.take(e as int), b as int),
        r.1 == piece_cut(s@.take(e as int), b as int),
        b <= r.1 <= r.0 <= e,
        r.1 < r.0 || r.1 == b,
{
    let pre = prefix(s, e);
    proof {
        lemma_last_index_bounds(pre@, '/');
    }
    match last_index_of(pre.as_slice(), '/') {
        Some(k) => if k >= b {
            (k + 1, k)
        } else {
            (b, b)
        },
        None => (b, b),
    }
}

/// The length of `trim_tail(s, b)`.
fn trim_tail_end(s: &[char], b: usize) -> (e: usize)
    requires
        b <= s.len(),
    ensures
        b <= e <= s.len(),
        trim_tail(s@, b as int) == s@.take(e as int),
{
    let mut e: usize = s.len();
    assert(s@.take(e as int) =~= s@);
    loop
        invariant
            b <= e <= s.len(),
            trim_tail(s@, b as int) == trim_tail(s@.take(e as int), b as int),
        ensures
            b <= e <= s.len(),
            trim_tail(s@, b as int) == s@.take(e as int),
        decreases e,
    {
        if e == b {
            break;
        }
        let (ps, cut) = piece_bounds(s, e, b);
        let ghost t = s@.take(e as int);
        assert(last_piece(t, b as int) =~= s@.subrange(ps as int, e as int));
        let junk_piece = ps == e || (ps + 1 == e && s[ps] == '.');
        proof {
            if ps + 1 == e && s[ps as int] == '.' {
                assert(last_piece(t, b as int) =~= seq!['.']);
            }
            if junk(last_piece(t, b as int)) && ps < e {
                assert(last_piece(t, b as int)[0] == s@[ps as int]);
            }
        }
        if !junk_piece {
            break;
        }
        assert(t.take(cut as int) =~= s@.take(cut as int));
        e = cut;
    }
    e
}

/// The file name of `s`, as `Path::file_name` gives it.
pub fn file_name_chars(s: &[char]) -> (r: Option<Vec<char>>)
    ensures
        match file_name_of(s@) {
            Some(n) => r is Some && r->0@ == n,
            None => r is None,
        },
{
    let b = body_start_of(s);
    let e = trim_tail_end(s, b);
    if e <= b {
        return None;
    }
    let (ps, _) = piece_bounds(s, e, b);
    let piece = slice_range(s, ps, e);
    assert(piece@ =~= last_piece(s@.take(e as int), b as int));
    let (_, two) = dot_names(piece.as_slice());
    if two {
        None
    } else {
        Some(piece)
    }
}

/// The parent of `s`, as `Path::parent` gives it for a path whose last
/// component follows the root or the leading `.` (empty otherwise).
pub fn parent_chars(s: &[char]) -> (r: Vec<char>)
    ensures
        r@ == parent_of(s@),
{
    let b = body_start_of(s);
    let e = trim_tail_end(s, b);
    if e <= b {
        return Vec::new();
    }
    let (_, cut) = piece_bounds(s, e, b);
    let v = prefix(s, cut);
    assert(s@.take(e as int).take(cut as int) =~= v@);
    let e2 = trim_tail_end(v.as_slice(), b);
    prefix(v.as_slice(), e2)
}

/// `p` joined with the relative `name`.
pub fn join_chars(p: &[char], name: &[char]) -> (r: Vec<char>)
    ensures
        r@ == join(p@, name@),
{
    let mut r: Vec<char> = Vec::new();
    push_chars(&mut r, p);
    if p.len() > 0 && p[p.len() - 1] != '/' {
        r.push('/');
    }
    push_chars(&mut r, name);
    proof {
        if p.len() > 0 && p@.last() != '/' {
            assert(r@ =~= p@ + seq!['/'] + name@);
        }
    }
    r
}

/// The extension of a file name, as `Path::extension` gives it.
pub fn extension_chars(name: &[char]) -> (r: Option<Vec<char>>)
    ensures
        match extension_of(name@) {
            Some(e) => r is Some && r->0@ == e,
            None => r is None,
        },
{
    match last_index_of(name, '.') {
        Some(k) => {
            if k == 0 {
                None
            } else {
                Some(suffix_from(name, k + 1))
            }
        },
        None => None,
    }
}

/// `s` with ASCII letters lowercased.
pub fn lower_chars(s: &[char]) -> (r: Vec<char>)
    ensures
        r@ == lower_all(s@),
{
    let mut r: Vec<char> = Vec::new();
    let mut i: usize = 0;
    while i < s.len()
        invariant
            i <= s.len(),
            r@ =~= lower_all(s@).take(i as int),
        decreases s.len() - i,
    {
        let c = s[i];
        let l = if 'A' <= c && c <= 'Z' {
            lower_letter(c)
        } else {
            c
        };
        r.push(l);
        i += 1;
    }
    r
}

fn lower_letter(c: char) -> (r: char)
    requires
        'A' <= c <= 'Z',
    ensures
        r == ascii_lower(c),
{
    match c {
        'A' => 'a',
        'B' => 'b',
        'C' => 'c',
        'D' => 'd',
        'E' => 'e',
        'F' => 'f',
        'G' => 'g',
        'H' => 'h',
        'I' => 'i',
        'J' => 'j',
        'K' => 'k',
        'L' => 'l',
        'M' => 'm',
        'N' => 'n',
        'O' => 'o',
        'P' => 'p',
        'Q' => 'q',
        'R' => 'r',
        'S' => 's',
        'T' => 't',
        'U' => 'u',
        'V' => 'v',
        'W' => 'w',
        'X' => 'x',
        'Y' => 'y',
        _ => 'z',
    }
}

fn flush_into(done: &mut Vec<Vec<char>>, cur: Vec<char>)
    ensures
        final(done)@.map_values(|v: Vec<char>| v@) == flush(
            old(done)@.map_values(|v: Vec<char>| v@),
            cur@,
        ),
{
    let (one, _) = dot_names(cur.as_slice());
    let ghost before = done@;
    if cur.len() > 0 && !one {
        let ghost c = cur@;
        done.push(cur);
        assert(done@.map_values(|v: Vec<char>| v@) =~= before.map_values(|v: Vec<char>| v@).push(
            c,
        ));
    }
}

/// The normal components of `s`.
pub fn segments(s: &[char]) -> (r: Vec<Vec<char>>)
    ensures
        r@.map_values(|v: Vec<char>| v@) == segs(s@),
{
    let mut done: Vec<Vec<char>> = Vec::new();
    let mut cur: Vec<char> = Vec::new();
    let mut i: usize = 0;
    while i < s.len()
        invariant
            i <= s.len(),
            (done@.map_values(|v: Vec<char>| v@), cur@) == seg_state(s@.take(i as int)),
        decreases s.len() - i,
    {
        proof {
            let t = s@.take(i as int + 1);
            assert(t.drop_last() =~= s@.take(i as int));
            assert(t.last() == s@[i as int]);
        }
        if s[i] == '/' {
            let piece = cur;
            cur = Vec::new();
            flush_into(&mut done, piece);
        } else {
            cur.push(s[i]);
        }
        i += 1;
    }
    flush_into(&mut done, cur);
    assert(s@.take(s.len() as int) =~= s@);
    done
}

pub fn lead_of(s: &[char]) -> (r: u8)
    ensures
        r as int == lead(s@),
{
    if s.len() > 0 && s[0] == '/' {
        1
    } else if s.len() > 0 && s[0] == '.' && (s.len() == 1 || s[1] == '/') {
        2
    } else {
        0
    }
}

/// Whether `s` starts with `base`, component-wise.
pub fn path_starts_with(s: &[char], base: &[char]) -> (r: bool)
    ensures
        r == starts_with(s@, base@),
{
    let a = segments(s);
    let b = segments(base);
    let ghost av = a@.map_values(|v: Vec<char>| v@);
    let ghost bv = b@.map_values(|v: Vec<char>| v@);
    assert(av.len() == a.len() && bv.len() == b.len());
    let lb = lead_of(base);
    if lb == 0 && b.len() == 0 {
        return true;
    }
    if lead_of(s) != lb {
        return false;
    }
    if b.len() > a.len() {
        return false;
    }
    let mut k: usize = 0;
    while k < b.len()
        invariant
            k <= b.len(),
            b.len() <= a.len(),
            av == a@.map_values(|v: Vec<char>| v@),
            bv == b@.map_values(|v: Vec<char>| v@),
            av == segs(s@),
            bv == segs(base@),
            av.len() == a.len(),
            bv.len() == b.len(),
            !(lead(base@) == 0 && segs(base@).len() == 0),
            lead(s@) == lead(base@),
            forall|m: int| 0 <= m < k ==> av[m] == bv[m],
        decreases b.len() - k,
    {
        if !crate::text::seq_eq(a[k].as_slice(), b[k].as_slice()) {
            proof {
                assert(av[k as int] == a@[k as int]@);
                assert(bv[k as int] == b@[k as int]@);
                assert(av.take(bv.len() as int)[k as int] != bv[k as int]);
            }
            return false;
        }
        k += 1;
    }
    assert(av.take(bv.len() as int) =~= bv);
    true
}

/// Where the piece of `s` that starts at `i` ends, and where the next begins.
fn piece_bounds_at(s: &[char], i: usize) -> (r: (usize, usize))
    requires
        i < s.len(),
    ensures
        r.0 == piece_end(s@, i as int),
        r.1 == after_piece(s@, i as int),
        i <= r.0 <= s.len(),
        i < r.1 <= s.len(),
{
    let ghost rest = s@.skip(i as int);
    let mut k: usize = i;
    while k < s.len()
        invariant
            i <= k <= s.len(),
            rest == s@.skip(i as int),
            forall|j: int| 0 <= j < k - i ==> !crate::text::char_pred('/')(#[trigger] rest[j]),
        decreases s.len() - k,
    {
        if s[k] == '/' {
            proof {
                assert(rest[k - i] == s@[k as int]);
                crate::seqs::lemma_first_is(rest, crate::text::char_pred('/'), k - i);
            }
            return (k, k + 1);
        }
        assert(rest[k - i] == s@[k as int]);
        k += 1;
    }
    proof {
        crate::seqs::lemma_first_none(rest, crate::text::char_pred('/'));
    }
    (s.len(), s.len())
}

fn junk_at(s: &[char], i: usize, end: usize) -> (r: bool)
    requires
        i <= end <= s.len(),
    ensures
        r == junk(s@.subrange(i as int, end as int)),
{
    let r = end == i || (end == i + 1 && s[i] == '.');
    proof {
        if end == i + 1 && s[i as int] == '.' {
            assert(s@.subrange(i as int, end as int) =~= seq!['.']);
        }
        if junk(s@.subrange(i as int, end as int)) && end > i {
            assert(s@.subrange(i as int, end as int)[0] == s@[i as int]);
        }
    }
    r
}

fn skip_components_at(s: &[char], i: usize, m: usize) -> (r: usize)
    requires
        i <= s.len(),
    ensures
        r as int == skip_components(s@, i as int, m as nat),
        i <= r <= s.len(),
{
    let mut i = i;
    let mut m = m;
    let ghost i0 = i;
    let ghost m0 = m;
    while m > 0 && i < s.len()
        invariant
            i0 <= i <= s.len(),
            skip_components(s@, i0 as int, m0 as nat) == skip_components(s@, i as int, m as nat),
        decreases s.len() - i,
    {
        let (end, next) = piece_bounds_at(s, i);
        let j = junk_at(s, i, end);
        i = next;
        if !j {
            m = m - 1;
        }
    }
    i
}

fn skip_junk_at(s: &[char], i: usize) -> (r: usize)
    requires
        i <= s.len(),
    ensures
        r as int == skip_junk(s@, i as int),
        i <= r <= s.len(),
{
    let mut i = i;
    let ghost i0 = i;
    loop
        invariant
            i0 <= i <= s.len(),
            skip_junk(s@, i0 as int) == skip_junk(s@, i as int),
        ensures
            i0 <= i <= s.len(),
            skip_junk(s@, i0 as int) == i,
        decreases s.len() - i,
    {
        if i >= s.len() {
            break;
        }
        let (end, next) = piece_bounds_at(s, i);
        if !junk_at(s, i, end) {
            break;
        }
        i = next;
    }
    i
}

/// `s` without the components of `base`, if it starts with them, as
/// `Path::strip_prefix` gives it.
pub fn strip_prefix_chars(s: &[char], base: &[char]) -> (r: Option<Vec<char>>)
    ensures
        match strip_prefix(s@, base@) {
            Some(t) => r is Some && r->0@ == t,
            None => r is None,
        },
{
    if !path_starts_with(s, base) {
        return None;
    }
    let b = segments(base);
    assert(b@.map_values(|v: Vec<char>| v@).len() == b.len());
    let bs = body_start_of(s);
    if lead_of(base) == 0 && b.len() == 0 {
        let e = trim_tail_end(s, bs);
        return Some(prefix(s, e));
    }
    let i1 = skip_components_at(s, bs, b.len());
    let i2 = skip_junk_at(s, i1);
    let rest = suffix_from(s, i2);
    assert(rest@ =~= s@.skip(i2 as int));
    let e = trim_tail_end(rest.as_slice(), 0);
    Some(prefix(rest.as_slice(), e))
}

} // verus!
