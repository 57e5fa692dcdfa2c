//! Optional tag writing on a verified copy of the audio: which edits reach
//! the file, and where the staged copy and the backup go.
use crate::library::path::{
    extension_chars, extension_of, file_name_chars, file_name_of, join, join_chars, last_index,
    last_index_of, parent_chars, parent_of,
};
use crate::text::{chars_of, dec, dec_chars, eq_ignore_ascii_case, eq_ignore_case, push_chars, push_str, str_eq, string_of};
use vstd::prelude::*;

verus! {

/// The journal of a tag write in flight: the file, its staged copy and its
/// backup, and whether the write was committed.
pub struct TagWriteJournal {
    pub source: String,
    pub staged: String,
    pub backup: String,
    pub committed: bool,
}

/// A staged tag write that waits to be installed, committed or rolled back.
pub struct PendingTagWrite {
    pub journal: TagWriteJournal,
    pub data_dir: String,
}

/// Where a tag write stages its edited copy and keeps the file as it was.
pub struct TagWritePlan {
    pub staged: String,
    pub backup: String,
}

/// The fields that are written into the audio file itself.
pub open spec fn embeddable_field(f: Seq<char>) -> bool {
    ||| f == "title"@
    ||| f == "artist"@
    ||| f == "album"@
    ||| f == "album_artist"@
    ||| f == "genre"@
    ||| f == "year"@
    ||| f == "track_number"@
    ||| f == "composer"@
    ||| f == "comment"@
}

/// What `Path::extension` gives for a whole path.
pub open spec fn path_extension(p: Seq<char>) -> Option<Seq<char>> {
    match file_name_of(p) {
        Some(n) => extension_of(n),
        None => None,
    }
}

/// What `Path::file_stem` gives for a file name.
pub open spec fn file_stem_of(name: Seq<char>) -> Seq<char> {
    let k = last_index(name, '.');
    if k <= 0 {
        name
    } else {
        name.take(k)
    }
}

/// Tags can be written into a file with an extension other than `wma`.
pub open spec fn write_supported(path: Seq<char>) -> bool {
    match path_extension(path) {
        Some(e) => !eq_ignore_case(e, "wma"@),
        None => false,
    }
}

/// The hidden sibling `.{stem}.{marker}-{pid}.{extension}` of `path`.
pub open spec fn sibling_of(path: Seq<char>, marker: Seq<char>, pid: u32) -> Seq<char> {
    let name = match file_name_of(path) {
        Some(n) => n,
        None => Seq::empty(),
    };
    let ext = match extension_of(name) {
        Some(e) => e,
        None => Seq::empty(),
    };
    join(
        parent_of(path),
        "."@ + file_stem_of(name) + "."@ + marker + "-"@ + dec(pid as nat) + "."@ + ext,
    )
}

/// Whether `field` is written into the audio file.
pub fn embeddable(field: &str) -> (r: bool)
    ensures
        r == embeddable_field(field@),
{
    str_eq(field, "title") || str_eq(field, "artist") || str_eq(field, "album") || str_eq(
        field,
        "album_artist",
    ) || str_eq(field, "genre") || str_eq(field, "year") || str_eq(field, "track_number")
        || str_eq(field, "composer") || str_eq(field, "comment")
}

fn any_embeddable(fields: &Vec<String>) -> (r: bool)
    ensures
        r == exists|i: int| 0 <= i < fields.len() && embeddable_field((#[trigger] fields@[i])@),
{
    let mut i: usize = 0;
    while i < fields.len()
        invariant
            i <= fields.len(),
            forall|j: int| 0 <= j < i ==> !embeddable_field((#[trigger] fields@[j])@),
        decreases fields.len() - i,
    {
        if embeddable(fields[i].as_str()) {
            return true;
        }
        i += 1;
    }
    false
}

fn sibling(path: &[char], name: &[char], ext: &[char], marker: &str, pid: u32) -> (r: String)
    requires
        file_name_of(path@) == Some(name@),
        extension_of(name@) == Some(ext@),
    ensures
        r@ == sibling_of(path@, marker@, pid),
{
    let stem: Vec<char> = match last_index_of(name, '.') {
        Some(k) => if k == 0 {
            crate::text::slice_range(name, 0, name.len())
        } else {
            crate::text::slice_range(name, 0, k)
        },
        None => crate::text::slice_range(name, 0, name.len()),
    };
    assert(stem@ =~= file_stem_of(name@));
    let mut n: Vec<char> = Vec::new();
    n.push('.');
    push_chars(&mut n, stem.as_slice());
    n.push('.');
    push_str(&mut n, marker);
    n.push('-');
    let digits = dec_chars(pid as u64);
    push_chars(&mut n, digits.as_slice());
    n.push('.');
    push_chars(&mut n, ext);
    proof {
        reveal_strlit(".");
        reveal_strlit("-");
        assert(n@ =~= "."@ + file_stem_of(name@) + "."@ + marker@ + "-"@ + dec(pid as nat) + "."@
            + ext@);
    }
    let parent = parent_chars(path);
    let full = join_chars(parent.as_slice(), n.as_slice());
    string_of(full.as_slice())
}

/// What writing `fields` into the file at `path` needs (`pid` names this
/// process in the sibling files): nothing when no field is embedded in the
/// file; `library_metadata_write_unsupported` when the file has no
/// extension or is `wma`; else the staged copy and the backup beside it.
pub fn prepare(path: &str, fields: &Vec<String>, pid: u32) -> (r: Result<
    Option<TagWritePlan>,
    String,
>)
    ensures
        !(exists|i: int| 0 <= i < fields.len() && embeddable_field((#[trigger] fields@[i])@))
            ==> r is Ok && r->Ok_0 is None,
        (exists|i: int| 0 <= i < fields.len() && embeddable_field((#[trigger] fields@[i])@))
            && !write_supported(path@) ==> r is Err && r->Err_0@
            == "library_metadata_write_unsupported"@,
        (exists|i: int| 0 <= i < fields.len() && embeddable_field((#[trigger] fields@[i])@))
            && write_supported(path@) ==> r is Ok && r->Ok_0 is Some && r->Ok_0->0.staged@
            == sibling_of(path@, "lf-tags-staged"@, pid) && r->Ok_0->0.backup@ == sibling_of(
            path@,
            "lf-tags-backup"@,
            pid,
        ),
{
    if !any_embeddable(fields) {
        return Ok(None);
    }
    let p = chars_of(path);
    let name = match file_name_chars(p.as_slice()) {
        Some(n) => n,
        None => {
            return Err("library_metadata_write_unsupported".to_owned());
        },
    };
    let ext = match extension_chars(name.as_slice()) {
        Some(e) => e,
        None => {
            return Err("library_metadata_write_unsupported".to_owned());
        },
    };
    let wma = chars_of("wma");
    if eq_ignore_ascii_case(ext.as_slice(), wma.as_slice()) {
        return Err("library_metadata_write_unsupported".to_owned());
    }
    let staged = sibling(p.as_slice(), name.as_slice(), ext.as_slice(), "lf-tags-staged", pid);
    let backup = sibling(p.as_slice(), name.as_slice(), ext.as_slice(), "lf-tags-backup", pid);
    Ok(Some(TagWritePlan { staged, backup }))
}

impl PendingTagWrite {
    /// The journal that records this write as committed.
    pub fn mark_committed(&self) -> (r: TagWriteJournal)
        ensures
            r.committed,
            r.source == self.journal.source,
            r.staged == self.journal.staged,
            r.backup == self.journal.backup,
    {
        TagWriteJournal {
            committed: true,
            source: self.journal.source.clone(),
            staged: self.journal.staged.clone(),
            backup: self.journal.backup.clone(),
        }
    }
}

} // verus!
