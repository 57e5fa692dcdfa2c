//! The rows that discovery hands to the catalog.
use vstd::prelude::*;

verus! {

/// What the catalog already knows of a file: its stamp and metadata state.
pub struct KnownFile {
    pub mtime: i64,
    pub size: i64,
    pub metadata_state: Option<String>,
}

/// A discovered file, ready to be written to the catalog.
pub struct CatalogInput {
    pub path_key: String,
    pub relative_path: String,
    pub file_name: String,
    pub extension: String,
    pub mtime: i64,
    pub size: i64,
    pub content_changed: bool,
    pub needs_metadata: bool,
}

impl CatalogInput {
    /// The file is unchanged but its metadata must be read again.
    pub fn metadata_state_is_new(&self) -> (r: bool)
        ensures
            r == (self.needs_metadata && !self.content_changed),
    {
        self.needs_metadata && !self.content_changed
    }

    /// Saving this row rewrites its search text: the content changed, or
    /// the metadata state is new.
    pub fn refreshes_search(&self) -> (r: bool)
        ensures
            r == (self.content_changed || (self.needs_metadata && !self.content_changed)),
    {
        self.content_changed || self.metadata_state_is_new()
    }
}

/// The metadata state a track takes after its metadata was read (`None`
/// when reading failed): `failed`, else `complete` when its tags were
/// readable and `partial` when only its properties were.
pub fn metadata_state_after(tags_readable: Option<bool>) -> (r: String)
    ensures
        tags_readable is None ==> r@ == "failed"@,
        tags_readable == Some(true) ==> r@ == "complete"@,
        tags_readable == Some(false) ==> r@ == "partial"@,
{
    match tags_readable {
        None => "failed".to_owned(),
        Some(true) => "complete".to_owned(),
        Some(false) => "partial".to_owned(),
    }
}

} // verus!
