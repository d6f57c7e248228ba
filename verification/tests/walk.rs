use irm::entry::{Entry, EntryKind, Policy};
use irm::outcome::{
    AbortReason, Cause, DeletionError, Outcome, ProgressEvent, TargetKind, EXIT_FAILURE,
};
use irm::scan::scan;
use irm::walk::{delete_file, delete_tree, visit, Step};

const KEEP: Policy = Policy { force: false };
const FORCE: Policy = Policy { force: true };

fn listed(path: &str, kind: EntryKind, size: u64, read_only: bool) -> Entry {
    Entry { path: path.to_string(), kind, size, read_only }
}

fn dir(path: &str) -> Entry {
    listed(path, EntryKind::Directory, 0, false)
}

fn file(path: &str, size: u64) -> Entry {
    listed(path, EntryKind::File, size, false)
}

fn locked(path: &str, size: u64) -> Entry {
    listed(path, EntryKind::File, size, true)
}

fn event(deleted: u64, total: u64, path: &str) -> ProgressEvent {
    ProgressEvent { deleted, total, path: path.to_string() }
}

fn deleted_directory(bytes: u64) -> Result<Outcome, DeletionError> {
    Ok(Outcome::Deleted { kind: TargetKind::Directory, bytes })
}

fn aborted(path: &str) -> Outcome {
    Outcome::Aborted { path: path.to_string(), reason: AbortReason::ReadOnly }
}

fn example_tree() -> Vec<Entry> {
    vec![dir("D"), file("D/a.txt", 13), dir("D/s"), locked("D/s/b.txt", 0)]
}

#[test]
fn example_tree_scans_to_13() {
    assert_eq!(scan(&example_tree()), Ok(13));
}

#[test]
fn example_tree_without_force_aborts_at_read_only_file() {
    let walk = delete_tree(&example_tree(), 13, KEEP);
    assert_eq!(walk.events, vec![event(13, 13, "D/a.txt")]);
    assert_eq!(walk.outcome, Ok(aborted("D/s/b.txt")));
    assert!(walk.removed.is_empty());
    assert_eq!(walk.visited, 3);
}

#[test]
fn example_tree_with_force_is_removed() {
    let walk = delete_tree(&example_tree(), 13, FORCE);
    assert_eq!(walk.events, vec![event(13, 13, "D/a.txt"), event(13, 13, "D/s/b.txt")]);
    assert_eq!(walk.removed, vec!["D/s".to_string(), "D".to_string()]);
    assert_eq!(walk.outcome, deleted_directory(13));
    assert_eq!(walk.visited, 4);
}

#[test]
fn writable_tree_is_removed_without_force() {
    let tree = vec![
        dir("t"),
        file("t/a", 10),
        dir("t/x"),
        file("t/x/b", 20),
        dir("t/x/y"),
        file("t/x/y/c", 30),
        file("t/z", 40),
    ];
    let total = scan(&tree).unwrap();
    assert_eq!(total, 100);
    let walk = delete_tree(&tree, total, KEEP);
    assert_eq!(
        walk.events,
        vec![
            event(10, 100, "t/a"),
            event(30, 100, "t/x/b"),
            event(60, 100, "t/x/y/c"),
            event(100, 100, "t/z"),
        ]
    );
    assert_eq!(walk.removed, vec!["t/x/y".to_string(), "t/x".to_string(), "t".to_string()]);
    assert_eq!(walk.outcome, deleted_directory(100));
}

#[test]
fn empty_directory_is_removed() {
    let walk = delete_tree(&vec![dir("e")], 0, KEEP);
    assert!(walk.events.is_empty());
    assert_eq!(walk.removed, vec!["e".to_string()]);
    assert_eq!(walk.outcome, deleted_directory(0));
}

#[test]
fn first_read_only_file_ends_the_walk() {
    let tree = vec![
        dir("t"),
        file("t/a", 5),
        file("t/b", 6),
        locked("t/c", 7),
        file("t/d", 8),
        locked("t/e", 9),
    ];
    let walk = delete_tree(&tree, 35, KEEP);
    assert_eq!(walk.outcome, Ok(aborted("t/c")));
    assert_eq!(walk.events, vec![event(5, 35, "t/a"), event(11, 35, "t/b")]);
    assert!(walk.removed.is_empty());
    assert_eq!(walk.visited, 3);
}

#[test]
fn read_only_file_listed_first_keeps_everything() {
    let tree = vec![dir("t"), locked("t/a", 5), file("t/b", 6)];
    let walk = delete_tree(&tree, 11, KEEP);
    assert_eq!(walk.outcome, Ok(aborted("t/a")));
    assert!(walk.events.is_empty());
    assert!(walk.removed.is_empty());
}

#[test]
fn force_deletes_read_only_files() {
    let tree = vec![dir("t"), locked("t/a", 5), dir("t/s"), locked("t/s/b", 6), file("t/c", 7)];
    let walk = delete_tree(&tree, 18, FORCE);
    assert_eq!(
        walk.events,
        vec![event(5, 18, "t/a"), event(11, 18, "t/s/b"), event(18, 18, "t/c")]
    );
    assert_eq!(walk.removed, vec!["t/s".to_string(), "t".to_string()]);
    assert_eq!(walk.outcome, deleted_directory(18));
}

#[test]
fn total_is_passed_on_unchecked() {
    let tree = vec![dir("t"), file("t/a", 5), file("t/late", 100)];
    let walk = delete_tree(&tree, 5, KEEP);
    assert_eq!(walk.events, vec![event(5, 5, "t/a"), event(105, 5, "t/late")]);
    assert_eq!(walk.outcome, deleted_directory(105));
}

#[test]
fn walk_leaves_other_entries_alone() {
    let tree = vec![dir("t"), listed("t/fifo", EntryKind::Other, 50, true), file("t/a", 1)];
    let walk = delete_tree(&tree, 1, KEEP);
    assert_eq!(walk.events, vec![event(1, 1, "t/a")]);
    assert_eq!(walk.removed, vec!["t".to_string()]);
    assert_eq!(walk.outcome, deleted_directory(1));
}

#[test]
fn walk_fails_at_unreadable_entry() {
    let tree = vec![
        dir("t"),
        file("t/a", 1),
        listed("t/gone", EntryKind::Unreadable, 0, false),
        file("t/b", 2),
    ];
    let walk = delete_tree(&tree, 3, FORCE);
    assert_eq!(
        walk.outcome,
        Err(DeletionError { path: "t/gone".to_string(), cause: Cause::Unreadable })
    );
    assert_eq!(walk.events, vec![event(1, 3, "t/a")]);
    assert!(walk.removed.is_empty());
    assert_eq!(walk.visited, 2);
}

#[test]
fn walk_fails_when_count_leaves_u64() {
    let tree = vec![dir("t"), file("t/huge", u64::MAX), file("t/one", 1)];
    let walk = delete_tree(&tree, 0, KEEP);
    assert_eq!(
        walk.outcome,
        Err(DeletionError { path: "t/one".to_string(), cause: Cause::TooLarge })
    );
    assert_eq!(walk.events, vec![event(u64::MAX, 0, "t/huge")]);
    assert!(walk.removed.is_empty());
}

#[test]
fn read_only_file_aborts_before_it_is_counted() {
    let tree = vec![dir("t"), file("t/huge", u64::MAX), locked("t/one", 1)];
    let walk = delete_tree(&tree, 0, KEEP);
    assert_eq!(walk.outcome, Ok(aborted("t/one")));
}

#[test]
fn delete_file_writable() {
    let outcome = delete_file(&file("f", 42), KEEP);
    assert_eq!(outcome, Outcome::Deleted { kind: TargetKind::File, bytes: 42 });
}

#[test]
fn delete_file_read_only_with_force() {
    let outcome = delete_file(&locked("f", 42), FORCE);
    assert_eq!(outcome, Outcome::Deleted { kind: TargetKind::File, bytes: 42 });
}

#[test]
fn delete_file_read_only_without_force() {
    let outcome = delete_file(&locked("f", 42), KEEP);
    assert_eq!(outcome, aborted("f"));
}

#[test]
fn visit_decides_each_kind() {
    assert_eq!(visit(&dir("d"), 7, 9, KEEP), Step::Pass);
    assert_eq!(visit(&listed("x", EntryKind::Other, 1, true), 7, 9, KEEP), Step::Pass);
    assert_eq!(visit(&file("f", 2), 7, 9, KEEP), Step::Delete(event(9, 9, "f")));
    assert_eq!(visit(&locked("f", 2), 7, 9, FORCE), Step::Delete(event(9, 9, "f")));
    assert_eq!(visit(&locked("f", 2), 7, 9, KEEP), Step::Halt(Ok(aborted("f"))));
    assert_eq!(
        visit(&listed("g", EntryKind::Unreadable, 0, false), 7, 9, FORCE),
        Step::Halt(Err(DeletionError { path: "g".to_string(), cause: Cause::Unreadable }))
    );
    assert_eq!(
        visit(&file("f", u64::MAX), 1, 9, KEEP),
        Step::Halt(Err(DeletionError { path: "f".to_string(), cause: Cause::TooLarge }))
    );
    assert_eq!(
        visit(&file("f", u64::MAX - 1), 1, 9, KEEP),
        Step::Delete(event(u64::MAX, 9, "f"))
    );
}

#[test]
fn exit_codes_tell_outcomes_apart() {
    let deleted = Outcome::Deleted { kind: TargetKind::File, bytes: 1 };
    let missing = Outcome::NotFound { path: "nowhere".to_string() };
    let stopped = aborted("f");
    assert_eq!(deleted.exit_code(), 0);
    assert_eq!(missing.exit_code(), 2);
    assert_eq!(stopped.exit_code(), 3);
    assert_ne!(missing.exit_code(), EXIT_FAILURE);
    assert_ne!(stopped.exit_code(), EXIT_FAILURE);
    assert_ne!(EXIT_FAILURE, 0);
}
