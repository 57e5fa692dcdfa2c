//! The durable journal that lets an interrupted rename be completed.
use crate::library::path::{join, join_chars};
use crate::model::AppConfig;
use crate::text::{chars_of, string_of};
use vstd::prelude::*;

verus! {

/// A rename in flight: both paths and the configuration before and after.
pub struct RenameJournal {
    pub old_path: String,
    pub new_path: String,
    pub old_config: AppConfig,
    pub new_config: AppConfig,
}

/// The journal's file name inside the data directory.
pub open spec fn journal_file_name() -> Seq<char> {
    ".rename-transaction.json"@
}

/// Where the journal lives in `data_dir`.
pub fn path_at(data_dir: &str) -> (r: String)
    ensures
        r@ == join(data_dir@, journal_file_name()),
{
    let d = chars_of(data_dir);
    let n = chars_of(".rename-transaction.json");
    let p = join_chars(d.as_slice(), n.as_slice());
    string_of(p.as_slice())
}

} // verus!
