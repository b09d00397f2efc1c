//! Core data structures for representing file system entries.

use vstd::prelude::*;

verus! {

/// Kind of a filesystem object that a scan reports.
#[derive(Debug, Clone, Copy, PartialEq, Eq, Structural)]
pub enum EntryType {
    File,
    Dir,
}

impl EntryType {
    /// Tag used in rendered output.
    pub fn as_str(&self) -> (r: &'static str)
        ensures
            *self == EntryType::File ==> r@ == "FILE"@,
            *self == EntryType::Dir ==> r@ == "DIR"@,
    {
        match self {
            EntryType::File => "FILE",
            EntryType::Dir => "DIR",
        }
    }
}

/// One record of scan output: a file or directory that survived filtering.
///
/// `size` is the allocated size in bytes; for directories it is the
/// recursive allocated sum over the subtree. `inodes` is the number of
/// immediate children, present only for directories when child counting
/// is enabled.
#[derive(Debug)]
pub struct FileEntry {
    pub path: String,
    pub size: u64,
    pub owner: Option<String>,
    pub inodes: Option<u64>,
    pub entry_type: EntryType,
}

impl Clone for FileEntry {
    fn clone(&self) -> (r: Self)
        ensures
            r == *self,
    {
        FileEntry {
            path: self.path.clone(),
            size: self.size,
            owner: match &self.owner {
                Some(o) => Some(o.clone()),
                None => None,
            },
            inodes: self.inodes,
            entry_type: self.entry_type,
        }
    }
}

} // verus!
