//! What the catalog keeps of a file's tag texts.
use crate::text::{is_blank, trim, trim_str};
use vstd::prelude::*;

verus! {

/// A tag text as the catalog keeps it: trimmed, and absent when nothing is
/// left, so that blank tags never reach the search index.
pub fn clean_text(value: Option<&str>) -> (r: Option<String>)
    ensures
        match value {
            None => r is None,
            Some(t) => if trim(t@).len() == 0 {
                r is None
            } else {
                r is Some && r->0@ == trim(t@)
            },
        },
{
    match value {
        None => None,
        Some(t) => if is_blank(t) {
            None
        } else {
            Some(trim_str(t))
        },
    }
}

} // verus!
