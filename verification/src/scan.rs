//! Sizing a tree before anything is deleted.

use vstd::prelude::*;
use crate::entry::{lemma_total_size_step, total_size, Entry, EntryKind};
use crate::outcome::{Cause, ScanError};

verus! {

/// The scan cannot get past entry `i`: its metadata is missing, or with it
/// the running total leaves the range of `u64`.
pub open spec fn scan_fails_at(entries: Seq<Entry>, i: int) -> bool {
    entries[i].kind == EntryKind::Unreadable || total_size(entries.take(i + 1)) > u64::MAX
}

/// The error a scan reports when it fails at entry `i`.
pub open spec fn scan_error_at(entries: Seq<Entry>, i: int) -> ScanError {
    ScanError {
        path: entries[i].path,
        cause: if entries[i].kind == EntryKind::Unreadable {
            Cause::Unreadable
        } else {
            Cause::TooLarge
        },
    }
}

/// `r` is the result of scanning `entries`: the total size when no entry
/// fails, and otherwise the error of the first entry that does.
pub open spec fn is_scan_of(r: Result<u64, ScanError>, entries: Seq<Entry>) -> bool {
    match r {
        Ok(total) => {
            &&& total == total_size(entries)
            &&& forall|i: int| 0 <= i < entries.len() ==> !scan_fails_at(entries, i)
        },
        Err(e) => exists|i: int|
            {
                &&& 0 <= i < entries.len()
                &&& #[trigger] scan_fails_at(entries, i)
                &&& forall|j: int| 0 <= j < i ==> !scan_fails_at(entries, j)
                &&& e == scan_error_at(entries, i)
            },
    }
}

/// Adds up the sizes of the files of a listing.
///
/// The scan fails fast: the first entry whose metadata could not be read, or
/// at which the total would exceed `u64::MAX`, ends it with an error that
/// names the entry's path. No partial total is returned.
pub fn scan(entries: &Vec<Entry>) -> (r: Result<u64, ScanError>)
    ensures
        is_scan_of(r, entries@),
{
    let mut total: u64 = 0;
    let mut i: usize = 0;
    while i < entries.len()
        invariant
            0 <= i <= entries.len(),
            total == total_size(entries@.take(i as int)),
            forall|j: int| 0 <= j < i ==> !scan_fails_at(entries@, j),
        decreases entries.len() - i,
    {
        let entry = &entries[i];
        proof {
            lemma_total_size_step(entries@, i as int);
        }
        if entry.kind == EntryKind::Unreadable {
            assert(scan_fails_at(entries@, i as int));
            return Err(ScanError { path: entry.path.clone(), cause: Cause::Unreadable });
        }
        if entry.kind == EntryKind::File {
            match total.checked_add(entry.size) {
                Some(sum) => {
                    total = sum;
                },
                None => {
                    assert(scan_fails_at(entries@, i as int));
                    return Err(ScanError { path: entry.path.clone(), cause: Cause::TooLarge });
                },
            }
        }
        i += 1;
    }
    assert(entries@.take(i as int) =~= entries@);
    Ok(total)
}

/// Scanning is repeatable: a listing has one result, so two scans of an
/// unchanged tree agree.
pub proof fn law_scan_is_repeatable(
    entries: Seq<Entry>,
    first: Result<u64, ScanError>,
    second: Result<u64, ScanError>,
)
    requires
        is_scan_of(first, entries),
        is_scan_of(second, entries),
    ensures
        first == second,
{
    if first is Err && second is Err {
        let i = choose|i: int|
            {
                &&& 0 <= i < entries.len()
                &&& #[trigger] scan_fails_at(entries, i)
                &&& forall|j: int| 0 <= j < i ==> !scan_fails_at(entries, j)
                &&& first->Err_0 == scan_error_at(entries, i)
            };
        let k = choose|k: int|
            {
                &&& 0 <= k < entries.len()
                &&& #[trigger] scan_fails_at(entries, k)
                &&& forall|j: int| 0 <= j < k ==> !scan_fails_at(entries, j)
                &&& second->Err_0 == scan_error_at(entries, k)
            };
        assert(i == k);
    }
}

/// A tree without files, be it an empty directory or nested empty
/// directories, has size zero.
pub proof fn law_tree_without_files_is_empty(entries: Seq<Entry>, measured: Result<u64, ScanError>)
    requires
        forall|i: int| 0 <= i < entries.len() ==> entries[i].kind == EntryKind::Directory,
        is_scan_of(measured, entries),
    ensures
        measured == Ok::<u64, ScanError>(0),
{
    lemma_size_without_files(entries, entries.len() as int);
    assert(entries.take(entries.len() as int) =~= entries);
    assert forall|i: int| 0 <= i < entries.len() implies !scan_fails_at(entries, i) by {
        lemma_size_without_files(entries, i + 1);
    }
}

/// Entries that are not files add nothing to a size.
pub proof fn lemma_size_without_files(entries: Seq<Entry>, n: int)
    requires
        0 <= n <= entries.len(),
        forall|i: int| 0 <= i < n ==> entries[i].kind != EntryKind::File,
    ensures
        total_size(entries.take(n)) == 0,
    decreases n,
{
    if n > 0 {
        lemma_size_without_files(entries, n - 1);
        lemma_total_size_step(entries, n - 1);
    }
}

} // verus!
