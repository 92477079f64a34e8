use std::collections::BTreeMap;

use dozer::index_run::{IndexAction, IndexEvent, IndexPhase, IndexRun, Operation};

#[derive(Debug, PartialEq, Eq, Clone, Copy)]
enum Change {
    Build(&'static str, u64),
    Delete(&'static str, u64),
}

/// A log, of which part can be read, and an index.
struct World {
    log: BTreeMap<u64, Entry>,
    end: u64,
    next_operation_id: u64,
    changes: Vec<Change>,
}

#[derive(Clone, Copy)]
enum Entry {
    Insert(&'static str),
    Delete(u64),
}

fn world(entries: &[Entry]) -> World {
    World {
        log: entries.iter().enumerate().map(|(id, entry)| (id as u64, *entry)).collect(),
        end: entries.len() as u64,
        next_operation_id: 0,
        changes: vec![],
    }
}

/// Runs to the end and says whether the index is up to date.
fn index(world: &mut World) -> bool {
    index_at_most(world, usize::MAX).0.unwrap()
}

/// Runs for so many actions at most. Says whether the index is up to date, if the run came to its
/// end, and else where it broke off.
fn index_at_most(world: &mut World, actions: usize) -> (Option<bool>, IndexPhase) {
    let mut run = IndexRun::new(world.end);
    let mut action = IndexAction::LoadNextOperationId;
    for _ in 0..actions {
        let event = match action {
            IndexAction::LoadNextOperationId => {
                IndexEvent::NextOperationIdLoaded { operation_id: world.next_operation_id }
            }
            IndexAction::GetOperation { operation_id } => IndexEvent::OperationRead {
                operation: world.log.get(&operation_id).map(|entry| match entry {
                    Entry::Insert(record) => Operation::Insert { record: *record },
                    Entry::Delete(operation_id) => {
                        Operation::Delete { operation_id: *operation_id }
                    }
                }),
            },
            IndexAction::BuildIndex { record, operation_id } => {
                world.changes.push(Change::Build(record, operation_id));
                IndexEvent::IndexChanged
            }
            IndexAction::DeleteIndex { record, operation_id } => {
                world.changes.push(Change::Delete(record, operation_id));
                IndexEvent::IndexChanged
            }
            IndexAction::StoreNextOperationId { next_operation_id } => {
                world.next_operation_id = next_operation_id;
                IndexEvent::NextOperationIdStored
            }
            IndexAction::Finish { up_to_date } => {
                assert_eq!(run.phase(), IndexPhase::Finished);
                return (Some(up_to_date), run.phase());
            }
        };
        action = run.step(event);
    }
    (None, run.phase())
}

#[test]
fn run_indexes_the_whole_log() {
    let mut world = world(&[Entry::Insert("a"), Entry::Insert("b"), Entry::Delete(0)]);
    assert!(index(&mut world));
    assert_eq!(world.next_operation_id, 3);
    assert_eq!(
        world.changes,
        vec![Change::Build("a", 0), Change::Build("b", 1), Change::Delete("a", 0)]
    );
}

#[test]
fn index_holds_the_records_that_were_not_deleted() {
    let mut world = world(&[
        Entry::Insert("a"),
        Entry::Insert("b"),
        Entry::Delete(0),
        Entry::Insert("c"),
        Entry::Delete(3),
        Entry::Insert("a"),
    ]);
    assert!(index(&mut world));
    let mut records = BTreeMap::new();
    for change in &world.changes {
        match *change {
            Change::Build(record, operation_id) => {
                records.insert(operation_id, record);
            }
            Change::Delete(record, operation_id) => {
                assert_eq!(records.remove(&operation_id), Some(record));
            }
        }
    }
    let records: Vec<(u64, &str)> = records.into_iter().collect();
    assert_eq!(records, vec![(1, "b"), (5, "a")]);
}

#[test]
fn up_to_date_index_is_left_alone() {
    let mut world = world(&[Entry::Insert("a")]);
    assert!(index(&mut world));
    let changes = world.changes.clone();
    assert!(index(&mut world));
    assert_eq!(world.changes, changes);
    assert_eq!(world.next_operation_id, 1);
}

#[test]
fn index_ahead_of_the_log_is_up_to_date() {
    let mut world = world(&[Entry::Insert("a")]);
    world.next_operation_id = 5;
    assert!(index(&mut world));
    assert_eq!(world.next_operation_id, 5);
    assert!(world.changes.is_empty());
}

#[test]
fn empty_log_is_up_to_date() {
    let mut world = world(&[]);
    assert!(index(&mut world));
    assert_eq!(world.next_operation_id, 0);
}

#[test]
fn run_stops_at_an_operation_that_cannot_be_read() {
    let mut world = world(&[Entry::Insert("a"), Entry::Insert("b"), Entry::Insert("c")]);
    let unread = world.log.remove(&1).unwrap();
    assert!(!index(&mut world));
    assert_eq!(world.next_operation_id, 1);
    assert_eq!(world.changes, vec![Change::Build("a", 0)]);

    // What is left is indexed once it can be read.
    world.log.insert(1, unread);
    assert!(index(&mut world));
    assert_eq!(world.next_operation_id, 3);
    assert_eq!(
        world.changes,
        vec![Change::Build("a", 0), Change::Build("b", 1), Change::Build("c", 2)]
    );
}

#[test]
fn run_stops_at_a_delete_whose_insert_cannot_be_read() {
    let mut world = world(&[Entry::Insert("a"), Entry::Delete(0)]);
    assert!({
        world.end = 1;
        index(&mut world)
    });
    world.end = 2;
    let unread = world.log.remove(&0).unwrap();
    assert!(!index(&mut world));
    assert_eq!(world.next_operation_id, 1);
    assert_eq!(world.changes, vec![Change::Build("a", 0)]);

    world.log.insert(0, unread);
    assert!(index(&mut world));
    assert_eq!(world.next_operation_id, 2);
    assert_eq!(world.changes, vec![Change::Build("a", 0), Change::Delete("a", 0)]);
}

#[test]
fn run_waits_for_what_it_asked_for() {
    let mut run = IndexRun::new(8);
    assert_eq!(run.phase(), IndexPhase::LoadingNextOperationId);
    let action = run.step(IndexEvent::<u8>::NextOperationIdLoaded { operation_id: 7 });
    assert_eq!(action, IndexAction::GetOperation { operation_id: 7 });
    assert_eq!(run.phase(), IndexPhase::ReadingOperation { operation_id: 7 });
    let delete = Operation::<u8>::Delete { operation_id: 2 };
    let action = run.step(IndexEvent::OperationRead { operation: Some(delete) });
    assert_eq!(action, IndexAction::GetOperation { operation_id: 2 });
    assert_eq!(
        run.phase(),
        IndexPhase::ReadingDeleted { operation_id: 7, deleted_operation_id: 2 }
    );
    let insert = Operation::Insert { record: 9u8 };
    let action = run.step(IndexEvent::OperationRead { operation: Some(insert) });
    assert_eq!(action, IndexAction::DeleteIndex { record: 9, operation_id: 2 });
    assert_eq!(run.phase(), IndexPhase::ChangingIndex { operation_id: 7 });
    let action = run.step(IndexEvent::<u8>::IndexChanged);
    assert_eq!(action, IndexAction::StoreNextOperationId { next_operation_id: 8 });
    assert_eq!(run.phase(), IndexPhase::StoringNextOperationId);
    let action = run.step(IndexEvent::<u8>::NextOperationIdStored);
    assert_eq!(action, IndexAction::LoadNextOperationId);
    let action = run.step(IndexEvent::<u8>::NextOperationIdLoaded { operation_id: 8 });
    assert_eq!(action, IndexAction::Finish { up_to_date: true });
}

#[test]
fn last_operation_id_does_not_overflow() {
    let mut run = IndexRun::new(u64::MAX);
    run.step(IndexEvent::<u8>::NextOperationIdLoaded { operation_id: u64::MAX - 1 });
    run.step(IndexEvent::OperationRead { operation: Some(Operation::Insert { record: 1u8 }) });
    assert_eq!(
        run.step(IndexEvent::<u8>::IndexChanged),
        IndexAction::StoreNextOperationId { next_operation_id: u64::MAX }
    );
}

#[test]
fn run_that_breaks_off_is_taken_up_at_the_same_operation() {
    let entries = [Entry::Insert("a"), Entry::Delete(0), Entry::Insert("b")];
    let expected = vec![Change::Build("a", 0), Change::Delete("a", 0), Change::Build("b", 2)];
    let mut broken_off = 0;
    for actions in 0.. {
        let mut world = world(&entries);
        let (finished, phase) = index_at_most(&mut world, actions);
        if finished.is_some() {
            break;
        }
        match phase {
            IndexPhase::ReadingOperation { operation_id }
            | IndexPhase::ReadingDeleted { operation_id, .. }
            | IndexPhase::ChangingIndex { operation_id } => {
                assert_eq!(world.next_operation_id, operation_id);
            }
            IndexPhase::StoringNextOperationId => {
                assert_eq!(world.changes.len() as u64, world.next_operation_id + 1);
                continue;
            }
            _ => {}
        }
        assert_eq!(world.changes[..], expected[..world.next_operation_id as usize]);
        assert!(index(&mut world));
        assert_eq!(world.next_operation_id, 3);
        assert_eq!(world.changes, expected);
        broken_off += 1;
    }
    assert_eq!(broken_off, 12);
}

#[test]
fn run_does_not_meet_what_comes_after_an_unreadable_operation() {
    // The last entry deletes a delete, but the run stops before it.
    let mut world = world(&[
        Entry::Insert("a"),
        Entry::Delete(0),
        Entry::Insert("b"),
        Entry::Delete(1),
    ]);
    world.log.remove(&2);
    assert!(!index(&mut world));
    assert_eq!(world.next_operation_id, 2);
}
