//! The database root: the directory under which every series has its
//! subdirectory.

use crate::fs::{joined, template};
use crate::series_store::{fmt_key, series_dir_name};
use vstd::prelude::*;
use vstd::string::*;

verus! {

/// The name of the default mount directory inside the home directory.
pub const DEFAULT_MOUNT: &'static str = "tdb";

/// A database: the path of its mount directory.
#[derive(Debug)]
pub struct Tdb {
    pub mount_dir: String,
}

/// A database mounted at `path`.
pub fn custom(path: &String) -> (db: Tdb)
    ensures
        db.mount_dir@ == path@,
{
    Tdb { mount_dir: path.clone() }
}

/// A database at the default mount, `tdb` inside the home directory `home`.
pub fn new(home: &str) -> (db: Tdb)
    ensures
        db.mount_dir@ == joined(home@, "tdb"@),
{
    Tdb { mount_dir: template(home, DEFAULT_MOUNT) }
}

impl Tdb {
    /// The path of the directory of the series called `series_name`: inside
    /// the mount directory, under the digest of the name.
    pub fn series_dir(&self, series_name: String) -> (path: String)
        ensures
            path@ == joined(self.mount_dir@, series_dir_name(series_name@)),
    {
        template(self.mount_dir.as_str(), fmt_key(series_name).as_str())
    }
}

} // verus!
