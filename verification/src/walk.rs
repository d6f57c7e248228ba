//! The removal itself: which files go, in what order, what is reported on
//! the way, and where the walk stops.
//!
//! A listing names a directory before what it contains. The walk deletes the
//! files in listing order and stops for good at the first entry it cannot get
//! past. Only a walk that reached the end removes directories, last listed
//! first, so that each is empty when its turn comes and the root goes last.

use vstd::prelude::*;
use crate::entry::{
    lemma_total_size_grows, lemma_total_size_step, total_size, Entry, EntryKind, Policy,
};
use crate::outcome::{
    AbortReason, Cause, DeletionError, Outcome, ProgressEvent, ScanError, TargetKind,
};
use crate::scan::{is_scan_of, scan_fails_at};

verus! {

/// What to do about one entry of a walk.
#[derive(Debug, PartialEq, Eq)]
pub enum Step {
    /// Leave the entry alone and go on.
    Pass,
    /// Delete the file, report the event, and go on.
    Delete(ProgressEvent),
    /// Touch nothing more; the walk ends with this result.
    Halt(Result<Outcome, DeletionError>),
}

/// The step owed to `entry` when `deleted` bytes are gone already.
pub open spec fn step_for(entry: Entry, deleted: u64, total: u64, force: bool) -> Step {
    if entry.kind == EntryKind::Unreadable {
        Step::Halt(Err(DeletionError { path: entry.path, cause: Cause::Unreadable }))
    } else if entry.kind != EntryKind::File {
        Step::Pass
    } else if entry.read_only && !force {
        Step::Halt(Ok(Outcome::Aborted { path: entry.path, reason: AbortReason::ReadOnly }))
    } else if deleted + entry.size > u64::MAX {
        Step::Halt(Err(DeletionError { path: entry.path, cause: Cause::TooLarge }))
    } else {
        Step::Delete(
            ProgressEvent { deleted: (deleted + entry.size) as u64, total, path: entry.path },
        )
    }
}

/// Decides one entry of a walk over a directory tree.
///
/// Directories and other non-files pass. A read-only file halts the walk
/// with `Aborted` unless the policy forces deletion. Any other file is to be
/// deleted, and the event carries the byte count that includes it. An entry
/// without metadata, or a file that would take the count past `u64::MAX`,
/// halts the walk with an error.
pub fn visit(entry: &Entry, deleted: u64, total: u64, policy: Policy) -> (step: Step)
    ensures
        step == step_for(*entry, deleted, total, policy.force),
{
    if entry.kind == EntryKind::Unreadable {
        return Step::Halt(
            Err(DeletionError { path: entry.path.clone(), cause: Cause::Unreadable }),
        );
    }
    if entry.kind != EntryKind::File {
        return Step::Pass;
    }
    if entry.read_only && !policy.force {
        return Step::Halt(
            Ok(Outcome::Aborted { path: entry.path.clone(), reason: AbortReason::ReadOnly }),
        );
    }
    match deleted.checked_add(entry.size) {
        Some(sum) => Step::Delete(
            ProgressEvent { deleted: sum, total, path: entry.path.clone() },
        ),
        None => Step::Halt(
            Err(DeletionError { path: entry.path.clone(), cause: Cause::TooLarge }),
        ),
    }
}

/// Removes a single file, or declines to.
///
/// A read-only file is kept, and the outcome is `Aborted`, unless the policy
/// forces deletion. In every other case the caller is to delete the file and
/// the outcome is `Deleted` with the file's size.
pub fn delete_file(entry: &Entry, policy: Policy) -> (outcome: Outcome)
    requires
        entry.kind == EntryKind::File,
    ensures
        entry.protected(policy.force) ==> outcome == (Outcome::Aborted {
            path: entry.path,
            reason: AbortReason::ReadOnly,
        }),
        !entry.protected(policy.force) ==> outcome == (Outcome::Deleted {
            kind: TargetKind::File,
            bytes: entry.size,
        }),
{
    if entry.read_only && !policy.force {
        Outcome::Aborted { path: entry.path.clone(), reason: AbortReason::ReadOnly }
    } else {
        Outcome::Deleted { kind: TargetKind::File, bytes: entry.size }
    }
}

/// The walk cannot get past entry `i`.
pub open spec fn halts_at(entries: Seq<Entry>, force: bool, i: int) -> bool {
    ||| entries[i].kind == EntryKind::Unreadable
    ||| entries[i].protected(force)
    ||| total_size(entries.take(i + 1)) > u64::MAX
}

/// How a walk ends that halts at entry `i`.
pub open spec fn halt_result(entries: Seq<Entry>, force: bool, i: int) -> Result<
    Outcome,
    DeletionError,
> {
    if entries[i].kind == EntryKind::Unreadable {
        Err(DeletionError { path: entries[i].path, cause: Cause::Unreadable })
    } else if entries[i].protected(force) {
        Ok(Outcome::Aborted { path: entries[i].path, reason: AbortReason::ReadOnly })
    } else {
        Err(DeletionError { path: entries[i].path, cause: Cause::TooLarge })
    }
}

/// The events of deleting every file of `entries`, in listing order: one per
/// file, each with the size of the listing up to and including that file.
pub open spec fn events_of(entries: Seq<Entry>, total: u64) -> Seq<ProgressEvent>
    decreases entries.len(),
{
    if entries.len() == 0 {
        Seq::empty()
    } else {
        let before = events_of(entries.drop_last(), total);
        if entries.last().kind == EntryKind::File {
            before.push(
                ProgressEvent {
                    deleted: total_size(entries) as u64,
                    total,
                    path: entries.last().path,
                },
            )
        } else {
            before
        }
    }
}

/// The directories of `entries`, last listed first.
pub open spec fn directories_bottom_up(entries: Seq<Entry>) -> Seq<String>
    decreases entries.len(),
{
    if entries.len() == 0 {
        Seq::empty()
    } else {
        let rest = directories_bottom_up(entries.drop_last());
        if entries.last().kind == EntryKind::Directory {
            seq![entries.last().path] + rest
        } else {
            rest
        }
    }
}

/// A removal of a directory tree, from the first entry to its end.
#[derive(Debug, PartialEq, Eq)]
pub struct Walk {
    /// How many entries the walk got past.
    pub visited: usize,
    /// One event per file to delete, in the order of deletion.
    pub events: Vec<ProgressEvent>,
    /// The directories to remove once the files are gone, in the order of
    /// removal. Empty when the walk halted.
    pub removed: Vec<String>,
    /// How the walk ended.
    pub outcome: Result<Outcome, DeletionError>,
}

/// `walk` is the removal of `entries` under the given policy.
///
/// The walk gets past every entry before the first one it halts at, and past
/// all of them when it halts at none. It deletes exactly the files it got
/// past. If it reached the end, it removes every directory and reports the
/// bytes deleted; if not, it removes no directory and reports why it halted.
pub open spec fn is_walk_of(walk: Walk, entries: Seq<Entry>, total: u64, force: bool) -> bool {
    let n = walk.visited as int;
    &&& 0 <= n <= entries.len()
    &&& forall|j: int| 0 <= j < n ==> !halts_at(entries, force, j)
    &&& walk.events@ == events_of(entries.take(n), total)
    &&& if n == entries.len() {
        &&& walk.removed@ == directories_bottom_up(entries)
        &&& walk.outcome == Ok::<Outcome, DeletionError>(
            Outcome::Deleted { kind: TargetKind::Directory, bytes: total_size(entries) as u64 },
        )
    } else {
        &&& halts_at(entries, force, n)
        &&& walk.removed@ == Seq::<String>::empty()
        &&& walk.outcome == halt_result(entries, force, n)
    }
}

/// Removes a directory tree.
///
/// `entries` lists the tree, each directory before its contents and the root
/// first. `total` is the size measured beforehand; it is passed on in the
/// events and checked against nothing. The caller deletes the file of each
/// event as it reports it, then removes the directories in the order given.
pub fn delete_tree(entries: &Vec<Entry>, total: u64, policy: Policy) -> (walk: Walk)
    ensures
        is_walk_of(walk, entries@, total, policy.force),
{
    let mut events: Vec<ProgressEvent> = Vec::new();
    let mut deleted: u64 = 0;
    let mut i: usize = 0;
    while i < entries.len()
        invariant
            0 <= i <= entries.len(),
            deleted == total_size(entries@.take(i as int)),
            events@ == events_of(entries@.take(i as int), total),
            forall|j: int| 0 <= j < i ==> !halts_at(entries@, policy.force, j),
        decreases entries.len() - i,
    {
        proof {
            lemma_total_size_step(entries@, i as int);
            assert(entries@.take(i + 1).drop_last() =~= entries@.take(i as int));
        }
        match visit(&entries[i], deleted, total, policy) {
            Step::Pass => {},
            Step::Delete(event) => {
                deleted = event.deleted;
                events.push(event);
            },
            Step::Halt(outcome) => {
                return Walk { visited: i, events, removed: Vec::new(), outcome };
            },
        }
        i += 1;
    }
    assert(entries@.take(i as int) =~= entries@);
    let mut removed: Vec<String> = Vec::new();
    let mut k: usize = entries.len();
    while k > 0
        invariant
            0 <= k <= entries.len(),
            removed@ + directories_bottom_up(entries@.take(k as int)) == directories_bottom_up(
                entries@,
            ),
        decreases k,
    {
        proof {
            assert(entries@.take(k as int).drop_last() =~= entries@.take(k - 1));
        }
        k -= 1;
        if entries[k].kind == EntryKind::Directory {
            removed.push(entries[k].path.clone());
        }
    }
    Walk {
        visited: entries.len(),
        events,
        removed,
        outcome: Ok(Outcome::Deleted { kind: TargetKind::Directory, bytes: deleted }),
    }
}

/// A listing has one walk under a policy: the contract of [`delete_tree`]
/// leaves nothing open.
pub proof fn law_walk_is_determined(
    entries: Seq<Entry>,
    total: u64,
    force: bool,
    first: Walk,
    second: Walk,
)
    requires
        is_walk_of(first, entries, total, force),
        is_walk_of(second, entries, total, force),
    ensures
        first.visited == second.visited,
        first.events@ == second.events@,
        first.removed@ == second.removed@,
        first.outcome == second.outcome,
{
    if first.visited < second.visited {
        assert(halts_at(entries, force, first.visited as int));
    }
    if second.visited < first.visited {
        assert(halts_at(entries, force, second.visited as int));
    }
}

/// How many of `entries` are files.
pub open spec fn files_in(entries: Seq<Entry>) -> nat
    decreases entries.len(),
{
    if entries.len() == 0 {
        0
    } else if entries.last().kind == EntryKind::File {
        files_in(entries.drop_last()) + 1
    } else {
        files_in(entries.drop_last())
    }
}

/// How many of `entries` are directories.
pub open spec fn directories_in(entries: Seq<Entry>) -> nat
    decreases entries.len(),
{
    if entries.len() == 0 {
        0
    } else if entries.last().kind == EntryKind::Directory {
        directories_in(entries.drop_last()) + 1
    } else {
        directories_in(entries.drop_last())
    }
}

/// The event of deleting the file at entry `i`.
pub open spec fn event_of(entries: Seq<Entry>, total: u64, i: int) -> ProgressEvent {
    ProgressEvent {
        deleted: total_size(entries.take(i + 1)) as u64,
        total,
        path: entries[i].path,
    }
}

/// There is one event per file.
pub proof fn lemma_events_count(entries: Seq<Entry>, total: u64)
    ensures
        events_of(entries, total).len() == files_in(entries),
    decreases entries.len(),
{
    if entries.len() > 0 {
        lemma_events_count(entries.drop_last(), total);
    }
}

/// The file at entry `i` is deleted after the files listed before it, and
/// its event is the one that `event_of` describes.
pub proof fn lemma_event_of_file(entries: Seq<Entry>, total: u64, i: int)
    requires
        0 <= i < entries.len(),
        entries[i].kind == EntryKind::File,
    ensures
        files_in(entries.take(i)) < events_of(entries, total).len(),
        events_of(entries, total)[files_in(entries.take(i)) as int] == event_of(entries, total, i),
    decreases entries.len(),
{
    let n = entries.len() - 1;
    let front = entries.drop_last();
    lemma_events_count(front, total);
    if i == n {
        assert(entries.take(n) =~= front);
        assert(entries.take(n + 1) =~= entries);
    } else {
        lemma_event_of_file(front, total, i);
        assert(front.take(i) =~= entries.take(i));
        assert(front.take(i + 1) =~= entries.take(i + 1));
    }
}

/// Every event belongs to a file: the result is the entry whose deletion
/// event number `m` reports.
pub proof fn lemma_file_of_event(entries: Seq<Entry>, total: u64, m: int) -> (i: int)
    requires
        0 <= m < events_of(entries, total).len(),
    ensures
        0 <= i < entries.len(),
        entries[i].kind == EntryKind::File,
        files_in(entries.take(i)) == m,
        events_of(entries, total)[m] == event_of(entries, total, i),
    decreases entries.len(),
{
    let n = entries.len() - 1;
    let front = entries.drop_last();
    lemma_events_count(front, total);
    if entries.last().kind == EntryKind::File && m == events_of(front, total).len() {
        assert(entries.take(n) =~= front);
        assert(entries.take(n + 1) =~= entries);
        n
    } else {
        let i = lemma_file_of_event(front, total, m);
        assert(front.take(i) =~= entries.take(i));
        assert(front.take(i + 1) =~= entries.take(i + 1));
        i
    }
}

/// Every directory is removed, each one once.
pub proof fn lemma_directories_count(entries: Seq<Entry>)
    ensures
        directories_bottom_up(entries).len() == directories_in(entries),
    decreases entries.len(),
{
    if entries.len() > 0 {
        lemma_directories_count(entries.drop_last());
    }
}

/// Directories are removed in the reverse of listing order: the directory at
/// entry `i` goes after all directories listed after it and before all
/// directories listed before it.
pub proof fn lemma_directory_position(entries: Seq<Entry>, i: int)
    requires
        0 <= i < entries.len(),
        entries[i].kind == EntryKind::Directory,
    ensures
        0 <= directories_in(entries) - 1 - directories_in(entries.take(i))
            < directories_bottom_up(entries).len(),
        directories_bottom_up(entries)[directories_in(entries) - 1 - directories_in(
            entries.take(i),
        )] == entries[i].path,
    decreases entries.len(),
{
    let n = entries.len() - 1;
    let front = entries.drop_last();
    lemma_directories_count(entries);
    lemma_directories_count(front);
    if i == n {
        assert(entries.take(n) =~= front);
    } else {
        lemma_directory_position(front, i);
        assert(front.take(i) =~= entries.take(i));
    }
}

/// Directories are counted along a listing: a directory at entry `i` is one
/// more than were listed before it.
pub proof fn lemma_directories_grow(entries: Seq<Entry>, m: int, n: int)
    requires
        0 <= m <= n <= entries.len(),
    ensures
        directories_in(entries.take(m)) <= directories_in(entries.take(n)),
        m < n && entries[m].kind == EntryKind::Directory ==> directories_in(entries.take(m))
            < directories_in(entries.take(n)),
    decreases n - m,
{
    if m < n {
        assert(entries.take(n).drop_last() =~= entries.take(n - 1));
        lemma_directories_grow(entries, m, n - 1);
    }
}

/// Removal is bottom-up: of two directories, the one listed later is removed
/// earlier. A listing names a directory before what it contains, so each
/// directory is removed after every directory inside it.
pub proof fn law_directories_go_bottom_up(entries: Seq<Entry>, outer: int, inner: int)
    requires
        0 <= outer < inner < entries.len(),
        entries[outer].kind == EntryKind::Directory,
        entries[inner].kind == EntryKind::Directory,
    ensures
        0 <= directories_in(entries) - 1 - directories_in(entries.take(inner)) < directories_in(
            entries,
        ) - 1 - directories_in(entries.take(outer)) < directories_bottom_up(entries).len(),
        directories_bottom_up(entries)[directories_in(entries) - 1 - directories_in(
            entries.take(inner),
        )] == entries[inner].path,
        directories_bottom_up(entries)[directories_in(entries) - 1 - directories_in(
            entries.take(outer),
        )] == entries[outer].path,
{
    lemma_directory_position(entries, outer);
    lemma_directory_position(entries, inner);
    lemma_directories_grow(entries, outer, inner);
}

/// What a walk deleted: one event per file it got past, in listing order.
pub proof fn lemma_walk_events(walk: Walk, entries: Seq<Entry>, total: u64, force: bool, i: int)
    requires
        is_walk_of(walk, entries, total, force),
        0 <= i < walk.visited,
        entries[i].kind == EntryKind::File,
    ensures
        walk.events@.len() == files_in(entries.take(walk.visited as int)),
        files_in(entries.take(i)) < walk.events@.len(),
        walk.events@[files_in(entries.take(i)) as int] == event_of(entries, total, i),
{
    let seen = entries.take(walk.visited as int);
    lemma_events_count(seen, total);
    lemma_event_of_file(seen, total, i);
    assert(seen.take(i) =~= entries.take(i));
    assert(seen.take(i + 1) =~= entries.take(i + 1));
}

/// Files are counted along a listing.
pub proof fn lemma_files_grow(entries: Seq<Entry>, m: int, n: int)
    requires
        0 <= m <= n <= entries.len(),
    ensures
        files_in(entries.take(m)) <= files_in(entries.take(n)),
    decreases n - m,
{
    if m < n {
        assert(entries.take(n).drop_last() =~= entries.take(n - 1));
        lemma_files_grow(entries, m, n - 1);
    }
}

/// Progress neither runs backwards nor overshoots: in a walk of a tree that
/// is as large as it was measured, each event reports at least as many bytes
/// as the one before it and never more than the total.
pub proof fn law_progress_stays_within_total(
    entries: Seq<Entry>,
    force: bool,
    walk: Walk,
    m: int,
)
    requires
        total_size(entries) <= u64::MAX,
        is_walk_of(walk, entries, total_size(entries) as u64, force),
        0 <= m < walk.events@.len(),
    ensures
        walk.events@[m].total == total_size(entries),
        walk.events@[m].deleted <= walk.events@[m].total,
        m > 0 ==> walk.events@[m - 1].deleted <= walk.events@[m].deleted,
{
    let total = total_size(entries) as u64;
    let n = walk.visited as int;
    let seen = entries.take(n);
    assert(entries.take(entries.len() as int) =~= entries);
    let i = lemma_file_of_event(seen, total, m);
    assert(seen.take(i + 1) =~= entries.take(i + 1));
    lemma_total_size_grows(entries, i + 1, entries.len() as int);
    if m > 0 {
        let j = lemma_file_of_event(seen, total, m - 1);
        assert(seen.take(j + 1) =~= entries.take(j + 1));
        if j >= i {
            lemma_files_grow(seen, i, j);
        }
        lemma_total_size_grows(entries, j + 1, i + 1);
    }
}

/// A walk that halts nowhere deletes every file, removes every directory,
/// the first listed last, and reports the size of the tree.
pub proof fn lemma_unhindered_walk(walk: Walk, entries: Seq<Entry>, total: u64, force: bool)
    requires
        is_walk_of(walk, entries, total, force),
        forall|i: int| 0 <= i < entries.len() ==> !halts_at(entries, force, i),
    ensures
        walk.visited == entries.len(),
        walk.outcome == Ok::<Outcome, DeletionError>(
            Outcome::Deleted { kind: TargetKind::Directory, bytes: total_size(entries) as u64 },
        ),
        total_size(entries) <= u64::MAX,
        walk.events@.len() == files_in(entries),
        forall|i: int|
            0 <= i < entries.len() && entries[i].kind == EntryKind::File ==> walk.events@[files_in(
                #[trigger] entries.take(i),
            ) as int] == event_of(entries, total, i),
        walk.removed@.len() == directories_in(entries),
        forall|i: int|
            0 <= i < entries.len() && entries[i].kind == EntryKind::Directory
                ==> walk.removed@[directories_in(entries) - 1 - directories_in(
                #[trigger] entries.take(i),
            )] == entries[i].path,
{
    let n = entries.len() as int;
    assert(entries.take(n) =~= entries);
    if n > 0 {
        assert(!halts_at(entries, force, n - 1));
    }
    lemma_events_count(entries, total);
    lemma_directories_count(entries);
    assert forall|i: int|
        0 <= i < entries.len() && entries[i].kind == EntryKind::File implies walk.events@[files_in(
        #[trigger] entries.take(i),
    ) as int] == event_of(entries, total, i) by {
        lemma_walk_events(walk, entries, total, force, i);
    }
    assert forall|i: int|
        0 <= i < entries.len() && entries[i].kind == EntryKind::Directory
            implies walk.removed@[directories_in(entries) - 1 - directories_in(
        #[trigger] entries.take(i),
    )] == entries[i].path by {
        lemma_directory_position(entries, i);
    }
}

/// A tree without read-only files is measured at the sum of its file sizes
/// and then removed whole without force: the walk deletes every file, removes
/// every directory with the root last, and reports the measured size.
///
/// The tree must be readable throughout and its size must fit in `u64`.
pub proof fn law_writable_tree_is_removed(
    entries: Seq<Entry>,
    measured: Result<u64, ScanError>,
    walk: Walk,
)
    requires
        forall|i: int|
            0 <= i < entries.len() && entries[i].kind == EntryKind::File ==> !entries[i].read_only,
        forall|i: int| 0 <= i < entries.len() ==> entries[i].kind != EntryKind::Unreadable,
        total_size(entries) <= u64::MAX,
        is_scan_of(measured, entries),
        is_walk_of(walk, entries, total_size(entries) as u64, false),
    ensures
        measured == Ok::<u64, ScanError>(total_size(entries) as u64),
        walk.outcome == Ok::<Outcome, DeletionError>(
            Outcome::Deleted { kind: TargetKind::Directory, bytes: total_size(entries) as u64 },
        ),
        walk.events@.len() == files_in(entries),
        forall|i: int|
            0 <= i < entries.len() && entries[i].kind == EntryKind::File ==> walk.events@[files_in(
                #[trigger] entries.take(i),
            ) as int] == event_of(entries, total_size(entries) as u64, i),
        walk.removed@.len() == directories_in(entries),
        entries.len() > 0 && entries[0].kind == EntryKind::Directory ==> walk.removed@.last()
            == entries[0].path,
{
    let total = total_size(entries) as u64;
    assert(entries.take(entries.len() as int) =~= entries);
    assert forall|i: int| 0 <= i < entries.len() implies !halts_at(entries, false, i) by {
        lemma_total_size_grows(entries, i + 1, entries.len() as int);
    }
    assert forall|i: int| 0 <= i < entries.len() implies !scan_fails_at(entries, i) by {
        lemma_total_size_grows(entries, i + 1, entries.len() as int);
    }
    lemma_unhindered_walk(walk, entries, total, false);
    if entries.len() > 0 && entries[0].kind == EntryKind::Directory {
        lemma_directory_position(entries, 0);
        assert(directories_in(entries.take(0)) == 0);
    }
}

/// Without force, the first read-only file ends the walk: the outcome names
/// that file, the files listed before it are deleted and no others, and no
/// directory is removed, so the root and the file itself stay.
///
/// The walk must be able to reach the file: the entries before it are
/// readable and their size fits in `u64`.
pub proof fn law_read_only_file_aborts(entries: Seq<Entry>, total: u64, walk: Walk, k: int)
    requires
        0 <= k < entries.len(),
        entries[k].kind == EntryKind::File && entries[k].read_only,
        forall|j: int|
            0 <= j < k ==> !(entries[j].kind == EntryKind::File && entries[j].read_only),
        forall|j: int| 0 <= j < k ==> entries[j].kind != EntryKind::Unreadable,
        total_size(entries.take(k)) <= u64::MAX,
        is_walk_of(walk, entries, total, false),
    ensures
        walk.outcome == Ok::<Outcome, DeletionError>(
            Outcome::Aborted { path: entries[k].path, reason: AbortReason::ReadOnly },
        ),
        walk.visited == k,
        walk.removed@.len() == 0,
        walk.events@.len() == files_in(entries.take(k)),
        forall|i: int|
            0 <= i < k && entries[i].kind == EntryKind::File ==> walk.events@[files_in(
                #[trigger] entries.take(i),
            ) as int] == event_of(entries, total, i),
{
    assert(halts_at(entries, false, k));
    assert forall|j: int| 0 <= j < k implies !halts_at(entries, false, j) by {
        lemma_total_size_grows(entries, j + 1, k);
    }
    let n = walk.visited as int;
    if n < k {
        assert(!halts_at(entries, false, n));
    }
    if n > k {
        assert(halts_at(entries, false, k));
    }
    lemma_events_count(entries.take(k), total);
    assert forall|i: int|
        0 <= i < k && entries[i].kind == EntryKind::File implies walk.events@[files_in(
        #[trigger] entries.take(i),
    ) as int] == event_of(entries, total, i) by {
        lemma_walk_events(walk, entries, total, false, i);
    }
}

/// With force, permission bits do not matter: the walk deletes every file,
/// removes every directory with the root last, and reports the size of the
/// tree.
///
/// The tree must be readable throughout and its size must fit in `u64`.
pub proof fn law_force_removes_everything(entries: Seq<Entry>, total: u64, walk: Walk)
    requires
        forall|i: int| 0 <= i < entries.len() ==> entries[i].kind != EntryKind::Unreadable,
        total_size(entries) <= u64::MAX,
        is_walk_of(walk, entries, total, true),
    ensures
        walk.outcome == Ok::<Outcome, DeletionError>(
            Outcome::Deleted { kind: TargetKind::Directory, bytes: total_size(entries) as u64 },
        ),
        walk.events@.len() == files_in(entries),
        forall|i: int|
            0 <= i < entries.len() && entries[i].kind == EntryKind::File ==> walk.events@[files_in(
                #[trigger] entries.take(i),
            ) as int] == event_of(entries, total, i),
        walk.removed@.len() == directories_in(entries),
        entries.len() > 0 && entries[0].kind == EntryKind::Directory ==> walk.removed@.last()
            == entries[0].path,
{
    assert forall|i: int| 0 <= i < entries.len() implies !halts_at(entries, true, i) by {
        lemma_total_size_grows(entries, i + 1, entries.len() as int);
        assert(entries.take(entries.len() as int) =~= entries);
    }
    lemma_unhindered_walk(walk, entries, total, true);
    if entries.len() > 0 && entries[0].kind == EntryKind::Directory {
        lemma_directory_position(entries, 0);
        assert(directories_in(entries.take(0)) == 0);
    }
}

} // verus!
