//! What a caller reports about the file system: one [`Entry`] per path met
//! while walking a tree, and the [`Policy`] that governs the removal.

use vstd::prelude::*;

verus! {

/// What was found at a path.
#[derive(Clone, Copy, Debug, PartialEq, Eq, Structural)]
pub enum EntryKind {
    /// A regular file. Only files carry bytes and only files are deleted
    /// one by one.
    File,
    /// A directory. It weighs nothing and is removed once the walk is over.
    Directory,
    /// Anything else (a dangling link, a socket, a device): left alone.
    Other,
    /// The path was listed but its metadata could not be read.
    Unreadable,
}

/// One path of a listing, with what the engine needs to know about it.
#[derive(Clone, Debug, PartialEq, Eq)]
pub struct Entry {
    /// The path, as the caller wants it reported back.
    pub path: String,
    pub kind: EntryKind,
    /// Length in bytes; meaningful for files only.
    pub size: u64,
    /// Whether the permission bits mark the path read-only.
    pub read_only: bool,
}

/// The removal policy.
#[derive(Clone, Copy, Debug, PartialEq, Eq, Structural)]
pub struct Policy {
    /// Delete read-only files instead of stopping at the first one.
    pub force: bool,
}

impl Entry {
    /// The bytes this entry adds to the size of a tree.
    pub open spec fn weight(self) -> nat {
        if self.kind == EntryKind::File {
            self.size as nat
        } else {
            0
        }
    }

    /// A file the policy forbids to delete.
    pub open spec fn protected(self, force: bool) -> bool {
        self.kind == EntryKind::File && self.read_only && !force
    }
}

/// The size of a listing: the bytes of its files, whatever their permission
/// bits. Directories and everything else weigh nothing.
pub open spec fn total_size(entries: Seq<Entry>) -> nat
    decreases entries.len(),
{
    if entries.len() == 0 {
        0
    } else {
        total_size(entries.drop_last()) + entries.last().weight()
    }
}

/// The size of the first `n + 1` entries is the size of the first `n` plus
/// the weight of entry `n`.
pub proof fn lemma_total_size_step(entries: Seq<Entry>, n: int)
    requires
        0 <= n < entries.len(),
    ensures
        total_size(entries.take(n + 1)) == total_size(entries.take(n)) + entries[n].weight(),
{
    assert(entries.take(n + 1).drop_last() =~= entries.take(n));
}

/// Sizes grow along a listing.
pub proof fn lemma_total_size_grows(entries: Seq<Entry>, m: int, n: int)
    requires
        0 <= m <= n <= entries.len(),
    ensures
        total_size(entries.take(m)) <= total_size(entries.take(n)),
    decreases n - m,
{
    if m < n {
        lemma_total_size_grows(entries, m, n - 1);
        lemma_total_size_step(entries, n - 1);
    }
}

} // verus!
