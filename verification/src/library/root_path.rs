//! The display form of a canonical root path.
use crate::library::catalog_tree::{has_prefix, starts_with_chars};
use crate::text::{chars_of, push_chars, slice_range, string_of};
use vstd::prelude::*;

verus! {

/// `path` without the extended-length prefix that Windows canonical paths
/// carry: `\\?\UNC\server\share` becomes `\\server\share`, `\\?\C:\x`
/// becomes `C:\x`; other paths are kept.
pub open spec fn without_verbatim(path: Seq<char>) -> Seq<char> {
    let unc = seq!['\\', '\\', '?', '\\', 'U', 'N', 'C', '\\'];
    let plain = seq!['\\', '\\', '?', '\\'];
    if has_prefix(path, unc) {
        seq!['\\', '\\'] + path.skip(8)
    } else if has_prefix(path, plain) {
        path.skip(4)
    } else {
        path
    }
}

/// The display form of a canonical path: without the `\\?\` prefix.
pub fn clean_windows_prefix(path: &str) -> (r: String)
    ensures
        r@ == without_verbatim(path@),
{
    let s = chars_of(path);
    let mut unc: Vec<char> = Vec::new();
    unc.push('\\');
    unc.push('\\');
    unc.push('?');
    unc.push('\\');
    let plain_len = unc.len();
    let plain = slice_range(unc.as_slice(), 0, plain_len);
    unc.push('U');
    unc.push('N');
    unc.push('C');
    unc.push('\\');
    assert(unc@ =~= seq!['\\', '\\', '?', '\\', 'U', 'N', 'C', '\\']);
    assert(plain@ =~= seq!['\\', '\\', '?', '\\']);
    if starts_with_chars(s.as_slice(), unc.as_slice()) {
        let mut r: Vec<char> = Vec::new();
        r.push('\\');
        r.push('\\');
        let rest = slice_range(s.as_slice(), 8, s.len());
        push_chars(&mut r, rest.as_slice());
        assert(r@ =~= seq!['\\', '\\'] + s@.skip(8));
        return string_of(r.as_slice());
    }
    if starts_with_chars(s.as_slice(), plain.as_slice()) {
        let rest = slice_range(s.as_slice(), 4, s.len());
        assert(rest@ =~= s@.skip(4));
        return string_of(rest.as_slice());
    }
    string_of(s.as_slice())
}

} // verus!
