//! Moving a track's catalog key and name after it was renamed.
use crate::library::path::{file_name_chars, file_name_of, join, join_chars, parent_chars, parent_of};
use crate::text::{chars_of, string_of};
use vstd::prelude::*;

verus! {

/// What `PathBuf::with_file_name` gives: the last component replaced by
/// `name`, or `name` added when there is none.
pub open spec fn with_file_name(path: Seq<char>, name: Seq<char>) -> Seq<char> {
    match file_name_of(path) {
        Some(_) => join(parent_of(path), name),
        None => join(path, name),
    }
}

/// The file name that the renamed track shows: that of its new path, or
/// `library_rename_invalid_name` when that path has none.
pub fn catalog_name(new_path: &str) -> (r: Result<String, String>)
    ensures
        match file_name_of(new_path@) {
            Some(n) => r is Ok && r->Ok_0@ == n,
            None => r is Err && r->Err_0@ == "library_rename_invalid_name"@,
        },
{
    let p = chars_of(new_path);
    match file_name_chars(p.as_slice()) {
        Some(n) => Ok(string_of(n.as_slice())),
        None => Err("library_rename_invalid_name".to_owned()),
    }
}

/// Whether the track rows must move from the old key to the new one: only
/// when the old key exists and the new one does not; nothing to move when
/// only the new one exists; `library_track_not_found` when neither does,
/// `library_rename_destination_exists` when both do.
pub fn key_move(old_exists: bool, new_exists: bool) -> (r: Result<bool, String>)
    ensures
        old_exists && !new_exists ==> r == Ok::<bool, String>(true),
        !old_exists && new_exists ==> r == Ok::<bool, String>(false),
        !old_exists && !new_exists ==> r is Err && r->Err_0@ == "library_track_not_found"@,
        old_exists && new_exists ==> r is Err && r->Err_0@ == "library_rename_destination_exists"@,
{
    match (old_exists, new_exists) {
        (false, true) => Ok(false),
        (false, false) => Err("library_track_not_found".to_owned()),
        (true, true) => Err("library_rename_destination_exists".to_owned()),
        (true, false) => Ok(true),
    }
}

/// The relative path of the renamed track: its old relative path with the
/// new file name.
pub fn renamed_relative(relative: &str, new_name: &str) -> (r: String)
    ensures
        r@ == with_file_name(relative@, new_name@),
{
    let p = chars_of(relative);
    let n = chars_of(new_name);
    let base = match file_name_chars(p.as_slice()) {
        Some(_) => parent_chars(p.as_slice()),
        None => p.clone(),
    };
    let full = join_chars(base.as_slice(), n.as_slice());
    string_of(full.as_slice())
}

} // verus!
