//! The library roots: folders that the catalog indexes, each in a collection.
use crate::library::root_retention::RetiredRoot;
use crate::text::str_eq;
use vstd::prelude::*;

verus! {

/// A folder that the catalog indexes.
pub struct LibraryRoot {
    pub id: i64,
    pub path: String,
    pub path_key: String,
    pub collection: String,
    pub enabled: bool,
    pub state: String,
    pub scan_generation: i64,
    pub last_scan_at: Option<i64>,
}

/// What adding a root did.
#[derive(PartialEq, Eq, Debug)]
pub enum AddOutcome {
    Added { root_id: i64, merged: Vec<i64> },
    AlreadyCovered { root_id: i64 },
    Reclassified { root_id: i64 },
    Restored { root_id: i64 },
}

impl LibraryRoot {
    /// A copy of this record.
    pub fn duplicate(&self) -> (r: LibraryRoot)
        ensures
            r == *self,
    {
        LibraryRoot {
            id: self.id,
            path: self.path.clone(),
            path_key: self.path_key.clone(),
            collection: self.collection.clone(),
            enabled: self.enabled,
            state: self.state.clone(),
            scan_generation: self.scan_generation,
            last_scan_at: self.last_scan_at,
        }
    }
}

/// The root with id `id` among `roots`: the first one, if any.
pub fn get(roots: &Vec<LibraryRoot>, id: i64) -> (r: Option<LibraryRoot>)
    ensures
        match r {
            Some(root) => exists|i: int|
                0 <= i < roots.len() && roots@[i] == root && root.id == id && forall|j: int|
                    0 <= j < i ==> (#[trigger] roots@[j]).id != id,
            None => forall|j: int| 0 <= j < roots.len() ==> (#[trigger] roots@[j]).id != id,
        },
{
    let mut i: usize = 0;
    while i < roots.len()
        invariant
            i <= roots.len(),
            forall|j: int| 0 <= j < i ==> (#[trigger] roots@[j]).id != id,
        decreases roots.len() - i,
    {
        if roots[i].id == id {
            return Some(roots[i].duplicate());
        }
        i += 1;
    }
    None
}

/// What a retired root that overlaps the requested key means for adding it:
/// none, nothing to say (`None`); the same key, that root comes back
/// (`Some(id)`); another key, `library_root_overlaps_retired`.
pub fn retired_conflict(retired: Option<&RetiredRoot>, path_key: &str) -> (r: Result<
    Option<i64>,
    String,
>)
    ensures
        match retired {
            None => r == Ok::<Option<i64>, String>(None),
            Some(root) => if root.path_key@ == path_key@ {
                r == Ok::<Option<i64>, String>(Some(root.id))
            } else {
                r is Err && r->Err_0@ == "library_root_overlaps_retired"@
            },
        },
{
    match retired {
        None => Ok(None),
        Some(root) => if str_eq(root.path_key.as_str(), path_key) {
            Ok(Some(root.id))
        } else {
            Err("library_root_overlaps_retired".to_owned())
        },
    }
}

} // verus!
