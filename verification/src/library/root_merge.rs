//! Moving the catalog of merged child roots under their new parent root.
use crate::library::path::{strip_prefix, strip_prefix_chars};
use crate::text::{chars_of, string_of};
use vstd::prelude::*;

verus! {

/// The prefix that a merged child's relative paths take: its path relative
/// to the new root, then a separator; `library_root_merge_path` when the
/// child does not lie inside the root.
pub fn merge_prefix(child_path: &str, display_path: &str) -> (r: Result<String, String>)
    ensures
        match strip_prefix(child_path@, display_path@) {
            Some(rel) => r is Ok && r->Ok_0@ == rel.push('/'),
            None => r is Err && r->Err_0@ == "library_root_merge_path"@,
        },
{
    let c = chars_of(child_path);
    let d = chars_of(display_path);
    match strip_prefix_chars(c.as_slice(), d.as_slice()) {
        Some(mut rel) => {
            rel.push('/');
            Ok(string_of(rel.as_slice()))
        },
        None => Err("library_root_merge_path".to_owned()),
    }
}

} // verus!
