//! The first indexing phase: discovering and cataloging a root's files by
//! name and stamp, without opening the audio.
use crate::library::catalog_store::{CatalogInput, KnownFile};
use crate::library::path::{
    extension_chars, extension_of, file_name_chars, file_name_of, lower_all, lower_chars,
    path_starts_with, starts_with, strip_prefix, strip_prefix_chars,
};
use crate::library::root_store::LibraryRoot;
use crate::text::{chars_of, str_eq, string_of};
use vstd::prelude::*;

verus! {

/// The catalog's fields of a file below a root: its path relative to the
/// root (the whole path when it is not below it), its file name (the
/// relative path when it has none), and its extension in ASCII lower case
/// (empty when it has none).
pub open spec fn path_fields_of(root: Seq<char>, full: Seq<char>) -> (
    Seq<char>,
    Seq<char>,
    Seq<char>,
) {
    let rel = match strip_prefix(full, root) {
        Some(r) => r,
        None => full,
    };
    let name = match file_name_of(full) {
        Some(n) => n,
        None => rel,
    };
    let ext = match file_name_of(full) {
        Some(n) => match extension_of(n) {
            Some(e) => lower_all(e),
            None => Seq::empty(),
        },
        None => Seq::empty(),
    };
    (rel, name, ext)
}

/// Metadata must be read when the content changed, when the file is new to
/// the catalog or has no metadata state, or when that state is `pending`.
pub open spec fn metadata_needed(changed: bool, previous: Option<KnownFile>) -> bool {
    changed || match previous {
        None => true,
        Some(p) => match p.metadata_state {
            None => true,
            Some(s) => s@ == "pending"@,
        },
    }
}

/// A file's metadata is read again unless it is known, unchanged, and has a
/// recorded state other than `"pending"`; in particular a known file with no
/// recorded state is always read, changed or not.
pub proof fn lemma_metadata_skipped_only_when_settled(changed: bool, previous: Option<KnownFile>)
    ensures
        !metadata_needed(changed, previous) <==> (!changed && previous is Some
            && previous->0.metadata_state is Some && previous->0.metadata_state->0@
            != "pending"@),
        previous is Some && previous->0.metadata_state is None ==> metadata_needed(
            changed,
            previous,
        ),
        changed ==> metadata_needed(changed, previous),
        previous is None ==> metadata_needed(changed, previous),
{
}

/// The relative path, file name and lower-case extension of `full_path`
/// below `root`.
pub fn path_fields(root: &str, full_path: &str) -> (r: (String, String, String))
    ensures
        r.0@ == path_fields_of(root@, full_path@).0,
        r.1@ == path_fields_of(root@, full_path@).1,
        r.2@ == path_fields_of(root@, full_path@).2,
{
    let base = chars_of(root);
    let full = chars_of(full_path);
    let rel = match strip_prefix_chars(full.as_slice(), base.as_slice()) {
        Some(r) => r,
        None => full.clone(),
    };
    let rel_text = string_of(rel.as_slice());
    match file_name_chars(full.as_slice()) {
        Some(n) => {
            let ext = match extension_chars(n.as_slice()) {
                Some(e) => lower_chars(e.as_slice()),
                None => Vec::new(),
            };
            (rel_text, string_of(n.as_slice()), string_of(ext.as_slice()))
        },
        None => (rel_text, string_of(rel.as_slice()), String::new()),
    }
}

/// Whether the file's metadata must be read (see `metadata_needed`).
pub fn needs_metadata(changed: bool, previous: Option<&KnownFile>) -> (r: bool)
    ensures
        r == metadata_needed(
            changed,
            match previous {
                Some(p) => Some(*p),
                None => None,
            },
        ),
{
    if changed {
        return true;
    }
    match previous {
        None => true,
        Some(p) => match &p.metadata_state {
            None => true,
            Some(s) => str_eq(s.as_str(), "pending"),
        },
    }
}

/// The stamp to catalog for a discovered file, whether its content changed,
/// and whether reading its stamp failed. A file new to the catalog is
/// changed and is not stamped (`current` is not consulted); a known file
/// takes its current stamp, or keeps the old one (unchanged) when it could
/// not be read.
pub fn existing_stamp(previous: Option<&KnownFile>, current: Option<(i64, i64)>) -> (r: (
    i64,
    i64,
    bool,
    bool,
))
    ensures
        previous is None ==> r == (0i64, 0i64, true, false),
        previous is Some && current is Some ==> ({
            let (m, s) = current->0;
            let p = previous->0;
            r == (m, s, p.mtime != m || p.size != s, false)
        }),
        previous is Some && current is None ==> r == (
            previous->0.mtime,
            previous->0.size,
            false,
            true,
        ),
{
    match previous {
        None => (0, 0, true, false),
        Some(p) => match current {
            Some((m, s)) => (m, s, p.mtime != m || p.size != s, false),
            None => (p.mtime, p.size, false, true),
        },
    }
}

/// How many discovered files are written to the catalog at once.
pub const DISCOVERY_BATCH: usize = 500;

/// What the discovery of a root has gathered: the rows not yet written, the
/// files that need metadata as `(path_key, path)`, how many rows were
/// written, and how many stamps could not be read.
pub struct DiscoveryState {
    pub batch: Vec<CatalogInput>,
    pub pending: Vec<(String, String)>,
    pub discovered: usize,
    pub metadata_errors: usize,
}

impl DiscoveryState {
    /// Nothing gathered yet.
    pub fn new() -> (r: DiscoveryState)
        ensures
            r.batch@.len() == 0,
            r.pending@.len() == 0,
            r.discovered == 0,
            r.metadata_errors == 0,
    {
        DiscoveryState { batch: Vec::new(), pending: Vec::new(), discovered: 0, metadata_errors: 0 }
    }

    /// Records a discovered file below `root`, given what the catalog knew of
    /// it and its current stamp (`None` when it could not be read); says
    /// whether the batch is full and must be written.
    pub fn record(
        &mut self,
        root: &str,
        path_key: String,
        path: String,
        previous: Option<&KnownFile>,
        stamp: Option<(i64, i64)>,
    ) -> (full: bool)
        requires
            old(self).metadata_errors < usize::MAX,
        ensures
            ({
                let prev = match previous {
                    Some(p) => Some(*p),
                    None => None,
                };
                let (mtime, size, changed, failed) = match (previous, stamp) {
                    (None, _) => (0i64, 0i64, true, false),
                    (Some(p), Some((m, z))) => (m, z, p.mtime != m || p.size != z, false),
                    (Some(p), None) => (p.mtime, p.size, false, true),
                };
                let needs = metadata_needed(changed, prev);
                let fields = path_fields_of(root@, path@);
                let row = final(self).batch@.last();
                &&& final(self).batch@.len() == old(self).batch@.len() + 1
                &&& final(self).batch@.drop_last() == old(self).batch@
                &&& row.path_key == path_key
                &&& row.relative_path@ == fields.0
                &&& row.file_name@ == fields.1
                &&& row.extension@ == fields.2
                &&& row.mtime == mtime
                &&& row.size == size
                &&& row.content_changed == changed
                &&& row.needs_metadata == needs
                &&& needs ==> final(self).pending@ == old(self).pending@.push((path_key, path))
                &&& !needs ==> final(self).pending@ == old(self).pending@
                &&& final(self).metadata_errors == old(self).metadata_errors + (if failed {
                    1int
                } else {
                    0int
                })
                &&& final(self).discovered == old(self).discovered
                &&& full == (final(self).batch@.len() >= DISCOVERY_BATCH)
            }),
    {
        let (mtime, size, changed, failed) = existing_stamp(previous, stamp);
        if failed {
            self.metadata_errors = self.metadata_errors + 1;
        }
        let needs = needs_metadata(changed, previous);
        let (relative_path, file_name, extension) = path_fields(root, path.as_str());
        if needs {
            self.pending.push((path_key.clone(), path));
        }
        self.batch.push(
            CatalogInput {
                path_key,
                relative_path,
                file_name,
                extension,
                mtime,
                size,
                content_changed: changed,
                needs_metadata: needs,
            },
        );
        assert(self.batch@.drop_last() =~= old(self).batch@);
        self.batch.len() >= DISCOVERY_BATCH
    }

    /// The batch was written: it counts as discovered and starts anew.
    /// Returns how many rows are written so far.
    pub fn written(&mut self) -> (total: usize)
        requires
            old(self).discovered + old(self).batch@.len() <= usize::MAX,
        ensures
            total == old(self).discovered + old(self).batch@.len(),
            final(self).discovered == total,
            final(self).batch@.len() == 0,
            final(self).pending == old(self).pending,
            final(self).metadata_errors == old(self).metadata_errors,
    {
        self.discovered = self.discovered + self.batch.len();
        self.batch = Vec::new();
        self.discovered
    }
}

/// A root can be indexed when it is enabled and its folder is there.
pub fn validate(root: &LibraryRoot, is_dir: bool) -> (r: Result<(), String>)
    ensures
        !root.enabled ==> r is Err && r->Err_0@ == "library_root_not_enabled"@,
        root.enabled && !is_dir ==> r is Err && r->Err_0@ == "library_root_unavailable"@,
        root.enabled && is_dir ==> r is Ok,
{
    if !root.enabled {
        return Err("library_root_not_enabled".to_owned());
    }
    if !is_dir {
        return Err("library_root_unavailable".to_owned());
    }
    Ok(())
}

/// A root that the walk of `current` must not enter: another enabled root
/// inside it.
pub open spec fn excluded_by(root: LibraryRoot, current: LibraryRoot) -> bool {
    root.enabled && root.id != current.id && starts_with(root.path_key@, current.path_key@)
}

/// The paths of the roots of `roots` that `excluded_by` keeps, in order.
pub open spec fn exclusions(roots: Seq<LibraryRoot>, current: LibraryRoot) -> Seq<Seq<char>>
    decreases roots.len(),
{
    if roots.len() == 0 {
        Seq::empty()
    } else {
        let rest = exclusions(roots.drop_last(), current);
        if excluded_by(roots.last(), current) {
            rest.push(roots.last().path@)
        } else {
            rest
        }
    }
}

/// The folders that indexing `current` skips: the enabled roots nested in
/// it, which index their own files.
pub fn exclusion_paths(roots: &Vec<LibraryRoot>, current: &LibraryRoot) -> (r: Vec<String>)
    ensures
        r@.map_values(|s: String| s@) == exclusions(roots@, *current),
{
    let mut r: Vec<String> = Vec::new();
    let cur = chars_of(current.path_key.as_str());
    let mut i: usize = 0;
    while i < roots.len()
        invariant
            i <= roots.len(),
            cur@ == current.path_key@,
            r@.map_values(|s: String| s@) == exclusions(roots@.take(i as int), *current),
        decreases roots.len() - i,
    {
        proof {
            assert(roots@.take(i as int + 1).drop_last() =~= roots@.take(i as int));
        }
        let root = &roots[i];
        let key = chars_of(root.path_key.as_str());
        if root.enabled && root.id != current.id && path_starts_with(
            key.as_slice(),
            cur.as_slice(),
        ) {
            let ghost before = r@.map_values(|s: String| s@);
            r.push(root.path.clone());
            assert(r@.map_values(|s: String| s@) =~= before.push(root.path@));
        }
        i += 1;
    }
    assert(roots@.take(roots.len() as int) =~= roots@);
    r
}

} // verus!
