//! A snapshot of filesystem entries, as plain values.
//!
//! The caller performs the blocking filesystem calls (directory listing,
//! metadata, symlink reads, ignore-file reads) and hands the library one
//! [`FsNode`] per surviving entry; entries that could not be read are
//! simply left out of the snapshot.

use vstd::prelude::*;

verus! {

/// What one filesystem entry is, beyond its name.
pub enum FsEntry {
    /// A directory: its immediate children, and the lines of its ignore
    /// file (`None` when that file is absent or unreadable).
    Dir { children: Vec<FsNode>, ignore: Option<Vec<String>> },
    /// A symbolic link whose target is a directory: the raw (unresolved)
    /// target text, whether the canonicalized target stays within the
    /// link's own subtree, and — in case the link is followed — the
    /// directory contents seen through it.
    DirLink { target: String, stays_on_fs: bool, children: Vec<FsNode>, ignore: Option<Vec<String>> },
    /// Anything else: a regular file, with its execute-permission bit
    /// (`false` on platforms without a permission-bit model).
    File { executable: bool },
}

/// One filesystem entry: its final path component (for the scan root,
/// the root path as given), a snapshot of its write permission, and what
/// it is.
pub struct FsNode {
    pub name: String,
    pub read_only: bool,
    pub entry: FsEntry,
}

/// Whether a child entry's name is a plausible final path component:
/// nonempty and without a separator.
pub open spec fn name_ok(n: Seq<char>) -> bool {
    n.len() > 0 && !n.contains('/')
}

/// Whether a snapshot is well formed: every child entry, at every
/// level, carries a plausible name. (The root's name is the scan root's
/// path and may hold separators.)
pub open spec fn fs_wf(fs: FsNode) -> bool
    decreases fs,
{
    match fs.entry {
        FsEntry::File { .. } => true,
        FsEntry::Dir { children, .. } => kids_wf(children@),
        FsEntry::DirLink { children, .. } => kids_wf(children@),
    }
}

/// Well-formedness of a child list.
pub open spec fn kids_wf(s: Seq<FsNode>) -> bool
    decreases s,
{
    forall|k: int|
        0 <= k < s.len() ==> name_ok((#[trigger] s[k]).name@) && fs_wf(s[k])
}

impl FsNode {
    /// Whether the entry would satisfy a directories-only filter: true
    /// for directories and for links whose target is a directory.
    pub open spec fn is_dirlike(self) -> bool {
        !(self.entry is File)
    }

    /// Executable form of [`FsNode::is_dirlike`].
    pub fn dirlike(&self) -> (r: bool)
        ensures
            r == self.is_dirlike(),
    {
        match &self.entry {
            FsEntry::File { .. } => false,
            FsEntry::Dir { .. } => true,
            FsEntry::DirLink { .. } => true,
        }
    }
}

} // verus!
