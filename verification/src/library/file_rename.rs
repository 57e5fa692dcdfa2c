//! The decisions of a physical rename that is coordinated with the catalog
//! and the configuration, and of its recovery after an interruption.
use crate::library::catalog_tree::{has_prefix, starts_with_chars};
use crate::text::{chars_of, string_of};
use vstd::prelude::*;

verus! {

/// What completing an interrupted rename does.
#[derive(Clone, Copy, PartialEq, Eq, Structural, Debug)]
pub enum Recovery {
    /// No rename was in flight.
    Nothing,
    /// The file carries its new name: point the catalog and the
    /// configuration at it.
    Complete,
    /// The file kept its old name: point them back at it.
    Revert,
}

/// The error shown to the user: the library's own codes pass, anything else
/// becomes `library_rename_failed`.
pub open spec fn public_error_of(error: Seq<char>) -> Seq<char> {
    if has_prefix(error, "library_"@) {
        error
    } else {
        "library_rename_failed"@
    }
}

/// The error shown to the user for a failed rename.
pub fn public_error(error: &str) -> (r: String)
    ensures
        r@ == public_error_of(error@),
{
    let e = chars_of(error);
    let p = chars_of("library_");
    if starts_with_chars(e.as_slice(), p.as_slice()) {
        string_of(e.as_slice())
    } else {
        "library_rename_failed".to_owned()
    }
}

/// What to do with a journal found at start-up, given whether the new and the
/// old file exist and whether both paths name the same catalog key: complete
/// when the new file exists and the old one is gone (or is the same file),
/// revert when only the old one exists, and refuse otherwise.
pub fn recover_pending_at(
    journal_found: bool,
    target_exists: bool,
    source_exists: bool,
    same_key: bool,
) -> (r: Result<Recovery, String>)
    ensures
        !journal_found ==> r == Ok::<Recovery, String>(Recovery::Nothing),
        journal_found && target_exists && (same_key || !source_exists) ==> r == Ok::<
            Recovery,
            String,
        >(Recovery::Complete),
        journal_found && !(target_exists && (same_key || !source_exists)) && source_exists
            && !target_exists ==> r == Ok::<Recovery, String>(Recovery::Revert),
        journal_found && !(target_exists && (same_key || !source_exists)) && !(source_exists
            && !target_exists) ==> r is Err && r->Err_0@ == "library_rename_recovery_failed"@,
{
    if !journal_found {
        return Ok(Recovery::Nothing);
    }
    if target_exists && (same_key || !source_exists) {
        Ok(Recovery::Complete)
    } else if source_exists && !target_exists {
        Ok(Recovery::Revert)
    } else {
        Err("library_rename_recovery_failed".to_owned())
    }
}

} // verus!
