//! The checks that a metadata edit passes before it touches the catalog.
use vstd::prelude::*;

verus! {

/// An edit selects between 1 and 500 tracks.
pub fn validate_paths(paths: &Vec<String>) -> (r: Result<(), String>)
    ensures
        (1 <= paths.len() <= 500) ==> r is Ok,
        !(1 <= paths.len() <= 500) ==> r is Err && r->Err_0@ == "invalid_library_metadata_selection"@,
{
    if paths.len() == 0 || paths.len() > 500 {
        return Err("invalid_library_metadata_selection".to_owned());
    }
    Ok(())
}

} // verus!
