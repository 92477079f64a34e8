//! Bringing a secondary index up to date with the operation log of the cache.

use vstd::prelude::*;

verus! {

/// An entry of the operation log.
#[derive(Debug, PartialEq, Eq)]
pub enum Operation<R> {
    /// A record was inserted.
    Insert { record: R },
    /// The record that another operation had inserted was deleted.
    Delete { operation_id: u64 },
}

/// What a run waits for.
#[derive(Clone, Copy, Debug, PartialEq, Eq, Structural)]
pub enum IndexPhase {
    /// The id of the next operation that the index has not seen.
    LoadingNextOperationId,
    /// The operation of that id.
    ReadingOperation { operation_id: u64 },
    /// The operation that a `Delete` refers to.
    ReadingDeleted { operation_id: u64, deleted_operation_id: u64 },
    /// The change to the index.
    ChangingIndex { operation_id: u64 },
    /// The note that the operation has been seen.
    StoringNextOperationId,
    /// Nothing.
    Finished,
}

/// What a run asks for.
#[derive(Debug, PartialEq, Eq)]
pub enum IndexAction<R> {
    /// Load the id of the next operation that the index has not seen.
    LoadNextOperationId,
    /// Read an operation from the log.
    GetOperation { operation_id: u64 },
    /// Add a record to the index.
    BuildIndex { record: R, operation_id: u64 },
    /// Remove a record from the index.
    DeleteIndex { record: R, operation_id: u64 },
    /// Store the id of the next operation that the index has not seen.
    StoreNextOperationId { next_operation_id: u64 },
    /// The run is over. The index is up to date, or else an operation could not be read yet.
    Finish { up_to_date: bool },
}

/// What came of an action.
#[derive(Debug, PartialEq, Eq)]
pub enum IndexEvent<R> {
    /// The id of the next operation that the index has not seen.
    NextOperationIdLoaded { operation_id: u64 },
    /// The operation, if it can be read yet.
    OperationRead { operation: Option<Operation<R>> },
    /// The index has been changed.
    IndexChanged,
    /// The id has been stored.
    NextOperationIdStored,
}

/// A run that brings a secondary index up to date with an operation log.
#[derive(Clone, Copy, Debug, PartialEq, Eq, Structural)]
pub struct IndexRun {
    main_env_next_operation_id: u64,
    phase: IndexPhase,
}

impl IndexRun {
    /// The id that the next operation of the log will get.
    pub closed spec fn end(&self) -> u64 {
        self.main_env_next_operation_id
    }

    /// What the run waits for.
    pub closed spec fn spec_phase(&self) -> IndexPhase {
        self.phase
    }

    /// The run is at an operation of the log, if it is at one.
    pub open spec fn wf(&self) -> bool {
        match self.spec_phase() {
            IndexPhase::ReadingOperation { operation_id } => operation_id < self.end(),
            IndexPhase::ReadingDeleted { operation_id, .. } => operation_id < self.end(),
            IndexPhase::ChangingIndex { operation_id } => operation_id < self.end(),
            _ => true,
        }
    }

    /// The event is one that the run waits for. A `Delete` refers to an `Insert`.
    pub open spec fn accepts<R>(&self, event: IndexEvent<R>) -> bool {
        match self.spec_phase() {
            IndexPhase::LoadingNextOperationId => event is NextOperationIdLoaded,
            IndexPhase::ReadingOperation { .. } => event is OperationRead,
            IndexPhase::ReadingDeleted { .. } => event is OperationRead && !(
            event->OperationRead_operation matches Some(Operation::Delete { .. })),
            IndexPhase::ChangingIndex { .. } => event is IndexChanged,
            IndexPhase::StoringNextOperationId => event is NextOperationIdStored,
            IndexPhase::Finished => false,
        }
    }

    /// What the run asks for, and what it waits for then, when an event that it waits for comes.
    pub open spec fn response<R>(&self, event: IndexEvent<R>) -> (IndexAction<R>, IndexPhase) {
        match (self.spec_phase(), event) {
            (_, IndexEvent::NextOperationIdLoaded { operation_id }) => if operation_id
                >= self.end() {
                (IndexAction::Finish { up_to_date: true }, IndexPhase::Finished)
            } else {
                (
                    IndexAction::GetOperation { operation_id },
                    IndexPhase::ReadingOperation { operation_id },
                )
            },
            (_, IndexEvent::OperationRead { operation: None }) => (
                IndexAction::Finish { up_to_date: false },
                IndexPhase::Finished,
            ),
            (
                IndexPhase::ReadingOperation { operation_id },
                IndexEvent::OperationRead { operation: Some(Operation::Insert { record }) },
            ) => (
                IndexAction::BuildIndex { record, operation_id },
                IndexPhase::ChangingIndex { operation_id },
            ),
            (
                IndexPhase::ReadingOperation { operation_id },
                IndexEvent::OperationRead {
                    operation: Some(Operation::Delete { operation_id: deleted_operation_id }),
                },
            ) => (
                IndexAction::GetOperation { operation_id: deleted_operation_id },
                IndexPhase::ReadingDeleted { operation_id, deleted_operation_id },
            ),
            (
                IndexPhase::ReadingDeleted { operation_id, deleted_operation_id },
                IndexEvent::OperationRead { operation: Some(Operation::Insert { record }) },
            ) => (
                IndexAction::DeleteIndex { record, operation_id: deleted_operation_id },
                IndexPhase::ChangingIndex { operation_id },
            ),
            (IndexPhase::ChangingIndex { operation_id }, _) => (
                IndexAction::StoreNextOperationId { next_operation_id: (operation_id + 1) as u64 },
                IndexPhase::StoringNextOperationId,
            ),
            _ => (IndexAction::LoadNextOperationId, IndexPhase::LoadingNextOperationId),
        }
    }

    /// A run over the operations of a log whose next operation will get the given id. It starts
    /// by asking for `LoadNextOperationId`.
    pub fn new(main_env_next_operation_id: u64) -> (run: Self)
        ensures
            run.wf(),
            run.end() == main_env_next_operation_id,
            run.spec_phase() == IndexPhase::LoadingNextOperationId,
    {
        IndexRun {
            main_env_next_operation_id,
            phase: IndexPhase::LoadingNextOperationId,
        }
    }

    /// What the run waits for.
    pub fn phase(&self) -> (phase: IndexPhase)
        ensures
            phase == self.spec_phase(),
    {
        self.phase
    }

    /// Takes the outcome of the last action and says what to do next.
    pub fn step<R>(&mut self, event: IndexEvent<R>) -> (action: IndexAction<R>)
        requires
            old(self).wf(),
            old(self).accepts(event),
        ensures
            final(self).wf(),
            final(self).end() == old(self).end(),
            (action, final(self).spec_phase()) == old(self).response(event),
    {
        let (action, phase) = match (self.phase, event) {
            (_, IndexEvent::NextOperationIdLoaded { operation_id }) => {
                if operation_id >= self.main_env_next_operation_id {
                    (IndexAction::Finish { up_to_date: true }, IndexPhase::Finished)
                } else {
                    (
                        IndexAction::GetOperation { operation_id },
                        IndexPhase::ReadingOperation { operation_id },
                    )
                }
            },
            // The operation cannot be read yet; the next run tries again.
            (_, IndexEvent::OperationRead { operation: None }) => (
                IndexAction::Finish { up_to_date: false },
                IndexPhase::Finished,
            ),
            (
                IndexPhase::ReadingOperation { operation_id },
                IndexEvent::OperationRead { operation: Some(operation) },
            ) => match operation {
                Operation::Insert { record } => (
                    IndexAction::BuildIndex { record, operation_id },
                    IndexPhase::ChangingIndex { operation_id },
                ),
                Operation::Delete { operation_id: deleted_operation_id } => (
                    IndexAction::GetOperation { operation_id: deleted_operation_id },
                    IndexPhase::ReadingDeleted { operation_id, deleted_operation_id },
                ),
            },
            (
                IndexPhase::ReadingDeleted { operation_id, deleted_operation_id },
                IndexEvent::OperationRead { operation: Some(Operation::Insert { record }) },
            ) => (
                IndexAction::DeleteIndex { record, operation_id: deleted_operation_id },
                IndexPhase::ChangingIndex { operation_id },
            ),
            (IndexPhase::ChangingIndex { operation_id }, _) => (
                IndexAction::StoreNextOperationId { next_operation_id: operation_id + 1 },
                IndexPhase::StoringNextOperationId,
            ),
            _ => (IndexAction::LoadNextOperationId, IndexPhase::LoadingNextOperationId),
        };
        self.phase = phase;
        action
    }
}

/// A change that a run makes to the index.
pub enum IndexChange<R> {
    Build { record: R, operation_id: u64 },
    Delete { record: R, operation_id: u64 },
}

/// What a run works on: the operations of the log that can be read, the id of the next operation
/// that the index has not seen, and the changes made to the index so far.
#[verifier::ext_equal]
pub struct IndexWorld<R> {
    pub log: Map<u64, Operation<R>>,
    pub next_operation_id: u64,
    pub changes: Seq<IndexChange<R>>,
}

impl<R> IndexWorld<R> {
    /// The world after an action, and what came of the action.
    pub open spec fn perform(self, action: IndexAction<R>) -> (IndexWorld<R>, IndexEvent<R>) {
        match action {
            IndexAction::LoadNextOperationId => (
                self,
                IndexEvent::NextOperationIdLoaded { operation_id: self.next_operation_id },
            ),
            IndexAction::GetOperation { operation_id } => (
                self,
                IndexEvent::OperationRead {
                    operation: if self.log.contains_key(operation_id) {
                        Some(self.log[operation_id])
                    } else {
                        None
                    },
                },
            ),
            IndexAction::BuildIndex { record, operation_id } => (
                IndexWorld {
                    changes: self.changes.push(IndexChange::Build { record, operation_id }),
                    ..self
                },
                IndexEvent::IndexChanged,
            ),
            IndexAction::DeleteIndex { record, operation_id } => (
                IndexWorld {
                    changes: self.changes.push(IndexChange::Delete { record, operation_id }),
                    ..self
                },
                IndexEvent::IndexChanged,
            ),
            IndexAction::StoreNextOperationId { next_operation_id } => (
                IndexWorld { next_operation_id, ..self },
                IndexEvent::NextOperationIdStored,
            ),
            IndexAction::Finish { .. } => (self, IndexEvent::NextOperationIdStored),
        }
    }

    /// Every `Delete` from `from` on and before `to` that can be read refers to an `Insert`, if what
    /// it refers to can be read.
    pub open spec fn is_intact_between(self, from: int, to: int) -> bool {
        forall|id: u64|
            from <= id < to && #[trigger] self.log.contains_key(id) && self.log[id] is Delete
                && self.log.contains_key(self.log[id]->operation_id)
                ==> self.log[self.log[id]->operation_id] is Insert
    }

    /// The operation can be read, and what it deletes too, if it is a `Delete`.
    pub open spec fn is_readable(self, id: u64) -> bool {
        &&& self.log.contains_key(id)
        &&& self.log[id] matches Operation::Delete { operation_id } ==> self.log.contains_key(
            operation_id,
        )
    }

    /// The first operation, from `from` on and before `to`, that is not readable; where all are,
    /// the one that comes after them.
    pub open spec fn first_unreadable(self, from: int, to: int) -> int
        decreases to - from,
    {
        if from < to && self.is_readable(from as u64) {
            self.first_unreadable(from + 1, to)
        } else {
            from
        }
    }

    /// What an operation changes in the index: an `Insert` adds its record under its own id, a
    /// `Delete` removes the record of the `Insert` that it refers to, under the id of that one.
    pub open spec fn change_of(self, id: u64) -> IndexChange<R> {
        match self.log[id] {
            Operation::Insert { record } => IndexChange::Build { record, operation_id: id },
            Operation::Delete { operation_id } => IndexChange::Delete {
                record: self.log[operation_id]->record,
                operation_id,
            },
        }
    }

    /// Every `Delete` before `end` that can be read refers to an operation before it.
    pub open spec fn deletes_look_back(self, end: int) -> bool {
        forall|id: u64|
            id < end && #[trigger] self.log.contains_key(id) && self.log[id] is Delete
                ==> self.log[id]->operation_id < id
    }

    /// The operation is an `Insert`, and among the operations before `end` is no `Delete` of it.
    pub open spec fn is_live(self, id: u64, end: int) -> bool {
        &&& id < end
        &&& self.log.contains_key(id)
        &&& self.log[id] is Insert
        &&& forall|d: u64| #[trigger]
            self.log.contains_key(d) && d < end ==> self.log[d] != (Operation::Delete::<R> {
                operation_id: id,
            })
    }

    /// The records that the operations before `end` have inserted and not deleted, by the ids of
    /// the operations that inserted them.
    pub open spec fn live_records(self, end: int) -> Map<u64, R> {
        Map::new(|id: u64| self.is_live(id, end), |id: u64| self.log[id]->record)
    }

    /// What the operations from `from` on and before `to` change in the index, in their order.
    pub open spec fn changes_between(self, from: int, to: int) -> Seq<IndexChange<R>> {
        Seq::new((to - from) as nat, |i: int| self.change_of((from + i) as u64))
    }
}

/// The records of an index, by operation id, after some changes to it.
pub open spec fn after_changes<R>(
    index: Map<u64, R>,
    changes: Seq<IndexChange<R>>,
) -> Map<u64, R>
    decreases changes.len(),
{
    if changes.len() == 0 {
        index
    } else {
        let before = after_changes(index, changes.drop_last());
        match changes.last() {
            IndexChange::Build { record, operation_id } => before.insert(operation_id, record),
            IndexChange::Delete { operation_id, .. } => before.remove(operation_id),
        }
    }
}

/// A run, what it has asked for last, and the world that it works on.
pub struct IndexConfig<R> {
    pub run: IndexRun,
    pub action: IndexAction<R>,
    pub world: IndexWorld<R>,
}

/// The action of `before` is performed, and its outcome, which the run waits for, is handed to
/// the run: that leads to `after`.
pub open spec fn advances<R>(before: IndexConfig<R>, after: IndexConfig<R>) -> bool {
    let (world, event) = before.world.perform(before.action);
    &&& !(before.action is Finish)
    &&& before.run.wf()
    &&& before.run.accepts(event)
    &&& after.run.end() == before.run.end()
    &&& (after.action, after.run.spec_phase()) == before.run.response(event)
    &&& after.world == world
}

/// The run has just started, or starts on the next operation.
pub open spec fn is_starting<R>(config: IndexConfig<R>) -> bool {
    &&& config.run.spec_phase() == IndexPhase::LoadingNextOperationId
    &&& config.action == IndexAction::LoadNextOperationId::<R>
}

/// A history: each entry leads to the next one.
pub open spec fn is_history<R>(history: Seq<IndexConfig<R>>) -> bool {
    &&& history.len() > 0
    &&& forall|i: int, j: int|
        #![trigger history[i], history[j]]
        0 <= i && j == i + 1 && j < history.len() ==> advances(history[i], history[j])
}

/// Where a run that starts at `config` stops: at the first operation that is not readable, or at
/// the end of the log.
pub open spec fn stops_at<R>(config: IndexConfig<R>) -> int {
    config.world.first_unreadable(
        config.world.next_operation_id as int,
        config.run.end() as int,
    )
}

/// The deletes that a run that starts at `config` meets before it stops refer to inserts.
pub open spec fn meets_intact_log<R>(config: IndexConfig<R>) -> bool {
    config.world.is_intact_between(config.world.next_operation_id as int, stops_at(config))
}

/// `last` is where a run that starts at `config` should end: the operations up to where it stops
/// have changed the index and count as seen, and the index is reported as up to date exactly if
/// none before the end of the log is left.
pub open spec fn is_outcome<R>(config: IndexConfig<R>, last: IndexConfig<R>) -> bool {
    let from = config.world.next_operation_id as int;
    let stop = stops_at(config);
    &&& last.action == IndexAction::Finish::<R> { up_to_date: stop >= config.run.end() }
    &&& last.world.log == config.world.log
    &&& last.world.next_operation_id == stop
    &&& last.world.changes == config.world.changes + config.world.changes_between(from, stop)
}

/// What comes of one operation that is readable: the change to the index is made and the
/// operation counts as seen.
spec fn after_one<R>(world: IndexWorld<R>) -> IndexWorld<R> {
    IndexWorld {
        next_operation_id: (world.next_operation_id + 1) as u64,
        changes: world.changes.push(world.change_of(world.next_operation_id)),
        ..world
    }
}

/// The outcome of a run, from the outcome of the rest of it.
proof fn lemma_outcome_from_rest<R>(
    config: IndexConfig<R>,
    rest: IndexConfig<R>,
    last: IndexConfig<R>,
)
    requires
        config.world.next_operation_id < config.run.end(),
        config.world.is_readable(config.world.next_operation_id),
        rest.run.end() == config.run.end(),
        rest.world == after_one(config.world),
        is_outcome(rest, last),
    ensures
        is_outcome(config, last),
{
    let world = config.world;
    let from = world.next_operation_id as int;
    let end = config.run.end() as int;
    lemma_same_log_same_stop(world, rest.world, from + 1, end);
    let stop = world.first_unreadable(from + 1, end);
    assert(stops_at(config) == stop);
    assert(stops_at(rest) == stop);
    lemma_stop_is_not_before(world, from + 1, end);
    assert(last.world.changes =~= world.changes + world.changes_between(from, stop)) by {
        assert(rest.world.changes_between(from + 1, stop) =~= world.changes_between(
            from + 1,
            stop,
        ));
        assert(world.changes_between(from, stop) =~= seq![world.change_of(from as u64)]
            + world.changes_between(from + 1, stop));
    }
}

/// Where a run stops depends on the log alone.
proof fn lemma_same_log_same_stop<R>(a: IndexWorld<R>, b: IndexWorld<R>, from: int, to: int)
    requires
        a.log == b.log,
    ensures
        a.first_unreadable(from, to) == b.first_unreadable(from, to),
    decreases to - from,
{
    if from < to && a.is_readable(from as u64) {
        lemma_same_log_same_stop(a, b, from + 1, to);
    }
}

/// A run does not go back, nor beyond the end of the log.
pub proof fn lemma_stop_is_not_before<R>(world: IndexWorld<R>, from: int, to: int)
    ensures
        from <= world.first_unreadable(from, to),
        from <= to ==> world.first_unreadable(from, to) <= to,
    decreases to - from,
{
    if from < to && world.is_readable(from as u64) {
        lemma_stop_is_not_before(world, from + 1, to);
    }
}

/// A history that does not end at a finished run goes on.
proof fn lemma_history_goes_on<R>(history: Seq<IndexConfig<R>>, i: int)
    requires
        is_history(history),
        history.last().action is Finish,
        0 <= i < history.len(),
        !(history[i].action is Finish),
    ensures
        i + 1 < history.len(),
        advances(history[i], history[i + 1]),
{
}

/// A finished run ends its history.
proof fn lemma_history_ends<R>(history: Seq<IndexConfig<R>>, i: int)
    requires
        is_history(history),
        0 <= i < history.len(),
        history[i].action is Finish,
    ensures
        i == history.len() - 1,
{
    if i + 1 < history.len() {
        assert(advances(history[i], history[i + 1]));
    }
}

/// The rest of a history is a history.
proof fn lemma_rest_of_history<R>(history: Seq<IndexConfig<R>>, i: int)
    requires
        is_history(history),
        0 <= i < history.len(),
    ensures
        is_history(history.skip(i)),
        history.skip(i).first() == history[i],
        history.skip(i).last() == history.last(),
{
    let rest = history.skip(i);
    assert forall|a: int, b: int|
        #![trigger rest[a], rest[b]]
        0 <= a && b == a + 1 && b < rest.len() implies advances(rest[a], rest[b]) by {
        assert(rest[a] == history[a + i] && rest[b] == history[b + i]);
    }
}

/// Every run that finishes has changed the index by the readable operations that it had not seen,
/// in their order, up to the first one that could not be read or the end of the log. Those count
/// as seen, and the run reports the index as up to date exactly if it got to the end. All deletes
/// that it met refer to inserts.
pub proof fn law_finished_run<R>(history: Seq<IndexConfig<R>>)
    requires
        is_history(history),
        is_starting(history.first()),
        history.last().action is Finish,
    ensures
        is_outcome(history.first(), history.last()),
        meets_intact_log(history.first()),
    decreases history.len(),
{
    let config = history[0];
    let world = config.world;
    let id = world.next_operation_id;
    lemma_history_goes_on(history, 0);
    let c1 = history[1];
    if id >= config.run.end() {
        lemma_history_ends(history, 1);
        assert(c1.world.changes =~= world.changes + world.changes_between(id as int, id as int));
    } else {
        lemma_history_goes_on(history, 1);
        let c2 = history[2];
        if !world.log.contains_key(id) {
            lemma_history_ends(history, 2);
            assert(c2.world.changes =~= world.changes + world.changes_between(
                id as int,
                id as int,
            ));
        } else {
            match world.log[id] {
                Operation::Insert { record } => {
                    lemma_history_goes_on(history, 2);
                    lemma_history_goes_on(history, 3);
                    lemma_rest_of_history(history, 4);
                    law_finished_run(history.skip(4));
                    assert(history[4].world =~= after_one(world));
                    lemma_outcome_from_rest(config, history[4], history.last());
                },
                Operation::Delete { operation_id } => {
                    lemma_history_goes_on(history, 2);
                    let c3 = history[3];
                    if !world.log.contains_key(operation_id) {
                        lemma_history_ends(history, 3);
                        assert(c3.world.changes =~= world.changes + world.changes_between(
                            id as int,
                            id as int,
                        ));
                    } else {
                        lemma_history_goes_on(history, 3);
                        lemma_history_goes_on(history, 4);
                        lemma_rest_of_history(history, 5);
                        law_finished_run(history.skip(5));
                        assert(history[5].world =~= after_one(world));
                        lemma_outcome_from_rest(config, history[5], history.last());
                    }
                },
            }
        }
    }
}

/// A run of a given end and phase.
closed spec fn run_at(end: u64, phase: IndexPhase) -> IndexRun {
    IndexRun { main_env_next_operation_id: end, phase }
}

/// A finished history from `config` on.
pub open spec fn is_finished_history<R>(
    config: IndexConfig<R>,
    history: Seq<IndexConfig<R>>,
) -> bool {
    is_history(history) && history.first() == config && history.last().action is Finish
}

/// A history can be preceded by what leads to it.
proof fn lemma_precede_history<R>(
    config: IndexConfig<R>,
    next: IndexConfig<R>,
    history: Seq<IndexConfig<R>>,
)
    requires
        advances(config, next),
        is_finished_history(next, history),
    ensures
        is_finished_history(config, seq![config] + history),
{
    let longer = seq![config] + history;
    assert forall|i: int, j: int|
        #![trigger longer[i], longer[j]]
        0 <= i && j == i + 1 && j < longer.len() implies advances(longer[i], longer[j]) by {
        if i > 0 {
            assert(longer[i] == history[i - 1] && longer[j] == history[j - 1]);
        }
    }
    assert(longer.last() == history.last());
}

/// A run comes to its end if the deletes that it meets before it stops refer to inserts.
pub proof fn law_run_finishes<R>(config: IndexConfig<R>)
    requires
        is_starting(config),
        meets_intact_log(config),
    ensures
        exists|history: Seq<IndexConfig<R>>| #[trigger] is_finished_history(config, history),
    decreases config.run.end() - config.world.next_operation_id,
{
    let end = config.run.end();
    let world = config.world;
    let id = world.next_operation_id;
    if id >= end {
        let c1 = IndexConfig {
            run: run_at(end, IndexPhase::Finished),
            action: IndexAction::Finish { up_to_date: true },
            world,
        };
        assert(is_finished_history(c1, seq![c1]));
        lemma_precede_history(config, c1, seq![c1]);
    } else {
        let c1 = IndexConfig {
            run: run_at(end, IndexPhase::ReadingOperation { operation_id: id }),
            action: IndexAction::GetOperation { operation_id: id },
            world,
        };
        let stuck = IndexConfig {
            run: run_at(end, IndexPhase::Finished),
            action: IndexAction::Finish { up_to_date: false },
            world,
        };
        assert(is_finished_history(stuck, seq![stuck]));
        if !world.log.contains_key(id) {
            lemma_precede_history(c1, stuck, seq![stuck]);
            lemma_precede_history(config, c1, seq![c1] + seq![stuck]);
        } else {
            let changed = IndexWorld {
                changes: world.changes.push(world.change_of(id)),
                ..world
            };
            let changing = run_at(end, IndexPhase::ChangingIndex { operation_id: id });
            let c3 = IndexConfig {
                run: run_at(end, IndexPhase::StoringNextOperationId),
                action: IndexAction::StoreNextOperationId { next_operation_id: (id + 1) as u64 },
                world: changed,
            };
            let c4 = IndexConfig {
                run: run_at(end, IndexPhase::LoadingNextOperationId),
                action: IndexAction::LoadNextOperationId,
                world: IndexWorld { next_operation_id: (id + 1) as u64, ..changed },
            };
            if world.is_readable(id) {
                lemma_same_log_same_stop(world, c4.world, id + 1, end as int);
                lemma_stop_is_not_before(world, id + 1, end as int);
                assert(stops_at(c4) == stops_at(config));
            }
            match world.log[id] {
                Operation::Insert { record } => {
                    law_run_finishes(c4);
                    let h4 = choose|h4: Seq<IndexConfig<R>>| #[trigger]
                        is_finished_history(c4, h4);
                    lemma_precede_history(c3, c4, h4);
                    let h3 = seq![c3] + h4;
                    let c2 = IndexConfig {
                        run: changing,
                        action: IndexAction::BuildIndex { record, operation_id: id },
                        world,
                    };
                    lemma_precede_history(c2, c3, h3);
                    lemma_precede_history(c1, c2, seq![c2] + h3);
                    lemma_precede_history(config, c1, seq![c1] + (seq![c2] + h3));
                },
                Operation::Delete { operation_id } => {
                    let deleting = IndexConfig {
                        run: run_at(
                            end,
                            IndexPhase::ReadingDeleted {
                                operation_id: id,
                                deleted_operation_id: operation_id,
                            },
                        ),
                        action: IndexAction::GetOperation { operation_id },
                        world,
                    };
                    if !world.log.contains_key(operation_id) {
                        lemma_precede_history(deleting, stuck, seq![stuck]);
                        let h = seq![deleting] + seq![stuck];
                        lemma_precede_history(c1, deleting, h);
                        lemma_precede_history(config, c1, seq![c1] + h);
                    } else {
                        assert(world.log[operation_id] is Insert);
                        law_run_finishes(c4);
                        let h4 = choose|h4: Seq<IndexConfig<R>>| #[trigger]
                            is_finished_history(c4, h4);
                        lemma_precede_history(c3, c4, h4);
                        let h3 = seq![c3] + h4;
                        let c2 = IndexConfig {
                            run: changing,
                            action: IndexAction::DeleteIndex {
                                record: world.log[operation_id]->record,
                                operation_id,
                            },
                            world,
                        };
                        lemma_precede_history(c2, c3, h3);
                        let h2 = seq![c2] + h3;
                        lemma_precede_history(deleting, c2, h2);
                        let h = seq![deleting] + h2;
                        lemma_precede_history(c1, deleting, h);
                        lemma_precede_history(config, c1, seq![c1] + h);
                    }
                },
            }
        }
    }
}

/// Before where a run stops, everything is readable.
proof fn lemma_readable_before_stop<R>(world: IndexWorld<R>, from: int, to: int, id: int)
    requires
        from <= id < world.first_unreadable(from, to),
    ensures
        world.is_readable(id as u64),
    decreases to - from,
{
    if from < to && world.is_readable(from as u64) && from < id {
        lemma_readable_before_stop(world, from + 1, to, id);
    }
}

/// What is readable can be passed over.
proof fn lemma_pass_over_readable<R>(world: IndexWorld<R>, from: int, mid: int, to: int)
    requires
        from <= mid,
        from == mid || mid <= to,
        forall|id: int| from <= id < mid ==> world.is_readable(#[trigger] (id as u64)),
    ensures
        world.first_unreadable(from, to) == world.first_unreadable(mid, to),
    decreases mid - from,
{
    if from < mid {
        assert(world.is_readable(from as u64));
        lemma_pass_over_readable(world, from + 1, mid, to);
    }
}

/// A world like `second`, but at which the operations that `first` had not seen are not seen yet.
pub open spec fn at_once<R>(first: IndexConfig<R>, second: IndexConfig<R>) -> IndexConfig<R> {
    IndexConfig {
        world: IndexWorld {
            next_operation_id: first.world.next_operation_id,
            changes: first.world.changes,
            ..second.world
        },
        ..second
    }
}

/// A run that goes on after the operations before `mid` have been dealt with does what one run does
/// over all.
proof fn lemma_resume<R>(
    first: IndexConfig<R>,
    mid: int,
    second: IndexConfig<R>,
    second_last: IndexConfig<R>,
)
    requires
        first.world.next_operation_id <= mid,
        first.world.next_operation_id == mid || mid <= second.run.end(),
        forall|id: int|
            first.world.next_operation_id <= id < mid ==> first.world.is_readable(
                #[trigger] (id as u64),
            ),
        first.world.log.submap_of(second.world.log),
        second.world.next_operation_id == mid,
        second.world.changes == first.world.changes + first.world.changes_between(
            first.world.next_operation_id as int,
            mid,
        ),
        is_outcome(second, second_last),
    ensures
        is_outcome(at_once(first, second), second_last),
{
    let from = first.world.next_operation_id as int;
    let end = second.run.end() as int;
    let whole_run = at_once(first, second);
    lemma_stop_is_not_before(second.world, mid, end);
    assert forall|id: int| from <= id < mid implies whole_run.world.is_readable(
        #[trigger] (id as u64),
    ) && whole_run.world.change_of(id as u64) == first.world.change_of(id as u64) by {
        assert(first.world.is_readable(id as u64));
        let operation = first.world.log[id as u64];
        assert(whole_run.world.log.contains_key(id as u64));
        assert(whole_run.world.log[id as u64] == operation);
        if let Operation::Delete { operation_id } = operation {
            assert(first.world.log.contains_key(operation_id));
            assert(whole_run.world.log.contains_key(operation_id));
            assert(whole_run.world.log[operation_id] == first.world.log[operation_id]);
        }
    }
    lemma_pass_over_readable(whole_run.world, from, mid, end);
    lemma_same_log_same_stop(whole_run.world, second.world, mid, end);
    let stop = stops_at(second);
    assert(whole_run.world.changes_between(from, stop) =~= first.world.changes_between(from, mid)
        + second.world.changes_between(mid, stop)) by {
        let whole = whole_run.world.changes_between(from, stop);
        let parts = first.world.changes_between(from, mid) + second.world.changes_between(
            mid,
            stop,
        );
        assert forall|i: int| 0 <= i < whole.len() implies whole[i] == parts[i] by {
            if i < mid - from {
                let id = from + i;
                assert(whole_run.world.change_of(id as u64) == first.world.change_of(id as u64));
            }
        }
    }
    assert(second_last.world.changes =~= whole_run.world.changes
        + whole_run.world.changes_between(from, stop));
}

/// It makes no difference whether a run stops early and a later one goes on from there, when more
/// of the log can be read: together they do what one run over that log does.
pub proof fn law_runs_resume<R>(
    first: IndexConfig<R>,
    first_last: IndexConfig<R>,
    second: IndexConfig<R>,
    second_last: IndexConfig<R>,
)
    requires
        is_outcome(first, first_last),
        is_outcome(second, second_last),
        first.world.log.submap_of(second.world.log),
        first.run.end() <= second.run.end(),
        second.world.next_operation_id == first_last.world.next_operation_id,
        second.world.changes == first_last.world.changes,
    ensures
        is_outcome(at_once(first, second), second_last),
{
    let from = first.world.next_operation_id as int;
    let mid = stops_at(first);
    lemma_stop_is_not_before(first.world, from, first.run.end() as int);
    assert forall|id: int| from <= id < mid implies first.world.is_readable(
        #[trigger] (id as u64),
    ) by {
        lemma_readable_before_stop(first.world, from, first.run.end() as int, id);
    }
    lemma_resume(first, mid, second, second_last);
}

/// The operation that a run is at: it reads it or changes the index by it.
pub open spec fn operation_at(phase: IndexPhase) -> Option<u64> {
    match phase {
        IndexPhase::ReadingOperation { operation_id } => Some(operation_id),
        IndexPhase::ReadingDeleted { operation_id, .. } => Some(operation_id),
        IndexPhase::ChangingIndex { operation_id } => Some(operation_id),
        _ => None,
    }
}

/// How far a run that started at `first` has come at `config`. The operations before the next one
/// that the index has not seen are readable and have changed the index, in their order. The
/// operation that the run is at is the next one that the index has not seen, and has not changed
/// the index yet; where only the note is missing that it has been seen, it has.
pub open spec fn is_progress<R>(first: IndexConfig<R>, config: IndexConfig<R>) -> bool {
    let from = first.world.next_operation_id as int;
    let next = config.world.next_operation_id as int;
    let changed = if config.run.spec_phase() is StoringNextOperationId {
        next + 1
    } else {
        next
    };
    &&& config.run.end() == first.run.end()
    &&& config.world.log == first.world.log
    &&& from <= next
    &&& from == changed || changed <= first.run.end()
    &&& forall|id: int|
        from <= id < changed ==> first.world.is_readable(#[trigger] (id as u64))
    &&& operation_at(config.run.spec_phase()) matches Some(n) ==> n == next && n
        < first.run.end()
    &&& config.world.changes == first.world.changes + first.world.changes_between(from, changed)
}

/// The action of a run is the one that its phase waits for.
spec fn action_fits_phase<R>(config: IndexConfig<R>) -> bool {
    let world = config.world;
    let action = config.action;
    match config.run.spec_phase() {
        IndexPhase::LoadingNextOperationId => action is LoadNextOperationId,
        IndexPhase::ReadingOperation { operation_id } => action == IndexAction::GetOperation::<
            R,
        > { operation_id },
        IndexPhase::ReadingDeleted { operation_id, deleted_operation_id } => {
            &&& action == IndexAction::GetOperation::<R> { operation_id: deleted_operation_id }
            &&& world.log.contains_key(operation_id)
            &&& world.log[operation_id] == Operation::Delete::<R> {
                operation_id: deleted_operation_id,
            }
        },
        IndexPhase::ChangingIndex { operation_id: n } => {
            &&& world.is_readable(n)
            &&& match action {
                IndexAction::BuildIndex { record, operation_id } => world.change_of(n)
                    == IndexChange::Build { record, operation_id },
                IndexAction::DeleteIndex { record, operation_id } => world.change_of(n)
                    == IndexChange::Delete { record, operation_id },
                _ => false,
            }
        },
        IndexPhase::StoringNextOperationId => action == IndexAction::StoreNextOperationId::<R> {
            next_operation_id: (world.next_operation_id + 1) as u64,
        },
        IndexPhase::Finished => action is Finish,
    }
}

/// One step keeps track of how far a run has come.
proof fn lemma_step_progresses<R>(
    first: IndexConfig<R>,
    before: IndexConfig<R>,
    after: IndexConfig<R>,
)
    requires
        is_progress(first, before),
        action_fits_phase(before),
        advances(before, after),
    ensures
        is_progress(first, after),
        action_fits_phase(after),
{
    let from = first.world.next_operation_id as int;
    let next = before.world.next_operation_id as int;
    if let IndexPhase::ChangingIndex { operation_id } = before.run.spec_phase() {
        assert(after.world.changes =~= first.world.changes + first.world.changes_between(
            from,
            next + 1,
        )) by {
            assert(first.world.changes_between(from, next + 1) =~= first.world.changes_between(
                from,
                next,
            ).push(first.world.change_of(operation_id)));
        }
    }
}

/// At every moment of a run, finished or not, the operations that count as seen are those that
/// have changed the index, and the operation that the run is at is the next one. So a run that
/// breaks off leaves the index where the next run can go on.
pub proof fn law_run_progresses<R>(history: Seq<IndexConfig<R>>, i: int)
    requires
        is_history(history),
        is_starting(history.first()),
        0 <= i < history.len(),
    ensures
        is_progress(history.first(), history[i]),
{
    lemma_run_progresses(history, i);
}

proof fn lemma_run_progresses<R>(history: Seq<IndexConfig<R>>, i: int)
    requires
        is_history(history),
        is_starting(history.first()),
        0 <= i < history.len(),
    ensures
        is_progress(history.first(), history[i]),
        action_fits_phase(history[i]),
    decreases i,
{
    let first = history.first();
    if i == 0 {
        let from = first.world.next_operation_id as int;
        assert(first.world.changes =~= first.world.changes + first.world.changes_between(
            from,
            from,
        ));
    } else {
        lemma_run_progresses(history, i - 1);
        assert(advances(history[i - 1], history[i]));
        lemma_step_progresses(first, history[i - 1], history[i]);
    }
}

/// It makes no difference whether a run breaks off, with an error, at an operation or between two,
/// and a later one goes on from there: together they do what one run over the log does.
pub proof fn law_broken_off_run_resumes<R>(
    history: Seq<IndexConfig<R>>,
    second: IndexConfig<R>,
    second_last: IndexConfig<R>,
)
    requires
        is_history(history),
        is_starting(history.first()),
        !(history.last().run.spec_phase() is StoringNextOperationId),
        history.first().world.log.submap_of(second.world.log),
        history.first().run.end() <= second.run.end(),
        second.world.next_operation_id == history.last().world.next_operation_id,
        second.world.changes == history.last().world.changes,
        is_outcome(second, second_last),
    ensures
        is_outcome(at_once(history.first(), second), second_last),
{
    law_run_progresses(history, history.len() - 1);
    lemma_resume(
        history.first(),
        history.last().world.next_operation_id as int,
        second,
        second_last,
    );
}

/// A run over a log that the index is up to date with changes nothing.
pub proof fn law_up_to_date_run_changes_nothing<R>(config: IndexConfig<R>, last: IndexConfig<R>)
    requires
        is_outcome(config, last),
        config.world.next_operation_id >= config.run.end(),
    ensures
        last.action == (IndexAction::Finish::<R> { up_to_date: true }),
        last.world == config.world,
{
    assert(last.world.changes =~= config.world.changes);
    assert(last.world =~= config.world);
}

/// What a `Delete` removes from the index is what the `Insert` that it refers to added: the same
/// record, under the same id.
pub proof fn law_delete_takes_back_insert<R>(world: IndexWorld<R>, id: u64, inserted: u64)
    requires
        world.is_readable(id),
        world.is_intact_between(id as int, id + 1),
        world.log[id] == (Operation::Delete::<R> { operation_id: inserted }),
    ensures
        exists|record: R|
            world.change_of(inserted) == (IndexChange::Build { record, operation_id: inserted })
                && #[trigger] world.change_of(id) == (IndexChange::Delete {
                record,
                operation_id: inserted,
            }),
{
    assert(world.log[inserted] is Insert);
    let record = world.log[inserted]->record;
    assert(world.change_of(inserted) == (IndexChange::Build { record, operation_id: inserted }));
    assert(world.change_of(id) == (IndexChange::Delete { record, operation_id: inserted }));
}

/// The changes of readable operations lead from the live records before them to those after them.
proof fn lemma_changes_keep_live_records<R>(world: IndexWorld<R>, from: int, to: int)
    requires
        world.deletes_look_back(to),
        0 <= from <= to <= u64::MAX,
        forall|id: int| from <= id < to ==> world.is_readable(#[trigger] (id as u64)),
    ensures
        after_changes(world.live_records(from), world.changes_between(from, to))
            == world.live_records(to),
    decreases to - from,
{
    let changes = world.changes_between(from, to);
    if from < to {
        let id = (to - 1) as u64;
        assert(world.is_readable((to - 1) as u64));
        lemma_changes_keep_live_records(world, from, to - 1);
        assert(changes.drop_last() =~= world.changes_between(from, to - 1));
        assert(changes.last() == world.change_of(id));
        let before = world.live_records(to - 1);
        let after = world.live_records(to);
        match world.log[id] {
            Operation::Insert { record } => {
                assert forall|i: u64| after.contains_key(i) <==> i == id || before.contains_key(
                    i,
                ) by {
                    if i == id {
                        assert forall|d: u64| #[trigger]
                            world.log.contains_key(d) && d < to implies world.log[d] != (
                        Operation::Delete::<R> { operation_id: id }) by {}
                    }
                    if before.contains_key(i) {
                        assert(world.is_live(i, to));
                    }
                }
                assert(after =~= before.insert(id, record));
            },
            Operation::Delete { operation_id } => {
                assert forall|i: u64| after.contains_key(i) <==> i != operation_id
                    && before.contains_key(i) by {
                    if i != operation_id && before.contains_key(i) {
                        assert forall|d: u64| #[trigger]
                            world.log.contains_key(d) && d < to implies world.log[d] != (
                        Operation::Delete::<R> { operation_id: i }) by {}
                        assert(world.is_live(i, to));
                    }
                }
                assert(after =~= before.remove(operation_id));
            },
        }
    }
}

/// A run that starts on an index of the live records, those that the operations seen so far have
/// inserted and not deleted, ends with one, if the deletes up to where it stops look back.
pub proof fn law_index_holds_live_records<R>(config: IndexConfig<R>, last: IndexConfig<R>)
    requires
        is_outcome(config, last),
        config.world.deletes_look_back(last.world.next_operation_id as int),
    ensures
        after_changes(
            config.world.live_records(config.world.next_operation_id as int),
            last.world.changes.skip(config.world.changes.len() as int),
        ) == last.world.live_records(last.world.next_operation_id as int),
{
    let world = config.world;
    let from = world.next_operation_id as int;
    let end = config.run.end() as int;
    let stop = stops_at(config);
    lemma_stop_is_not_before(world, from, end);
    assert(last.world.changes.skip(world.changes.len() as int) =~= world.changes_between(
        from,
        stop,
    ));
    assert forall|id: int| from <= id < stop implies world.is_readable(#[trigger] (id as u64)) by {
        lemma_readable_before_stop(world, from, end, id);
    }
    lemma_changes_keep_live_records(world, from, stop);
    assert(last.world.live_records(stop) =~= world.live_records(stop)) by {
        assert(forall|id: u64| last.world.is_live(id, stop) == world.is_live(id, stop));
    }
}

/// What is at the place where a run stops, if that is before the end of the log, is not readable.
proof fn lemma_stop_is_not_readable<R>(world: IndexWorld<R>, from: int, to: int)
    requires
        world.first_unreadable(from, to) < to,
    ensures
        !world.is_readable(world.first_unreadable(from, to) as u64),
    decreases to - from,
{
    if from < to && world.is_readable(from as u64) {
        lemma_stop_is_not_readable(world, from + 1, to);
    }
}

/// What a finished run has done, operation by operation. Each operation from the first one that the
/// index had not seen up to the one that is next now could be read, and has made one change to the
/// index, in its turn: an insert has added its record under its own id; a delete has removed the
/// record of the insert that it names, under the id of that insert. The changes from before are
/// still there, and the log is as it was. The run says that the index is up to date exactly if it
/// got to the end of the log; else the next operation, or the one that it deletes, cannot be read.
pub proof fn law_what_a_finished_run_has_done<R>(history: Seq<IndexConfig<R>>)
    requires
        is_history(history),
        is_starting(history.first()),
        history.last().action is Finish,
    ensures
        ({
            let before = history.first().world;
            let after = history.last().world;
            let end = history.first().run.end();
            let from = before.next_operation_id;
            let next = after.next_operation_id;
            &&& after.log == before.log
            &&& from <= next
            &&& from <= end ==> next <= end
            &&& from > end ==> next == from
            &&& history.last().action == (IndexAction::Finish::<R> { up_to_date: next >= end })
            &&& next < end && before.log.contains_key(next) ==> before.log[next] is Delete
                && !before.log.contains_key(before.log[next]->operation_id)
            &&& after.changes.len() == before.changes.len() + next - from
            &&& forall|k: int|
                0 <= k < before.changes.len() ==> #[trigger] after.changes[k] == before.changes[k]
            &&& forall|k: int|
                0 <= k < next - from ==> {
                    let id = (from + k) as u64;
                    let change = #[trigger] after.changes[before.changes.len() + k];
                    &&& before.log.contains_key(id)
                    &&& before.log[id] matches Operation::Insert { record } ==> change == (
                    IndexChange::Build { record, operation_id: id })
                    &&& before.log[id] matches Operation::Delete { operation_id } ==> {
                        &&& before.log.contains_key(operation_id)
                        &&& before.log[operation_id] matches Operation::Insert { record }
                            && change == (IndexChange::Delete { record, operation_id })
                    }
                }
        }),
{
    law_finished_run(history);
    let config = history.first();
    let before = config.world;
    let after = history.last().world;
    let from = before.next_operation_id as int;
    let end = config.run.end() as int;
    let stop = stops_at(config);
    lemma_stop_is_not_before(before, from, end);
    if stop < end {
        lemma_stop_is_not_readable(before, from, end);
    }
    let added = before.changes_between(from, stop);
    assert(after.changes == before.changes + added);
    assert forall|k: int| 0 <= k < stop - from implies {
        let id = (from + k) as u64;
        let change = #[trigger] after.changes[before.changes.len() + k];
        &&& before.log.contains_key(id)
        &&& before.log[id] matches Operation::Insert { record } ==> change == (IndexChange::Build {
            record,
            operation_id: id,
        })
        &&& before.log[id] matches Operation::Delete { operation_id } ==> {
            &&& before.log.contains_key(operation_id)
            &&& before.log[operation_id] matches Operation::Insert { record } && change == (
            IndexChange::Delete { record, operation_id })
        }
    } by {
        let id = (from + k) as u64;
        lemma_readable_before_stop(before, from, end, from + k);
        assert(before.log.contains_key(id));
        assert(after.changes[before.changes.len() + k] == added[k]);
        assert(added[k] == before.change_of(id));
    }
}

/// A run comes to its end, if every delete that it could come to and whose target can be read
/// refers to an insert.
pub proof fn law_a_run_over_a_sound_log_finishes<R>(config: IndexConfig<R>)
    requires
        is_starting(config),
        forall|id: u64|
            config.world.next_operation_id <= id < config.run.end()
                && #[trigger] config.world.log.contains_key(id) && config.world.log[id] is Delete
                && config.world.log.contains_key(config.world.log[id]->operation_id)
                ==> config.world.log[config.world.log[id]->operation_id] is Insert,
    ensures
        exists|history: Seq<IndexConfig<R>>|
            #![trigger history.first()]
            is_history(history) && history.first() == config && history.last().action is Finish,
{
    let from = config.world.next_operation_id as int;
    lemma_stop_is_not_before(config.world, from, config.run.end() as int);
    law_run_finishes(config);
    let history = choose|history: Seq<IndexConfig<R>>| #[trigger]
        is_finished_history(config, history);
    assert(history.first() == config);
}

/// A run waits for the outcome of what it has asked for. The one outcome that it does not take is
/// that the operation that a delete names is itself a delete.
pub proof fn law_a_run_takes_what_it_asked_for<R>(history: Seq<IndexConfig<R>>, i: int)
    requires
        is_history(history),
        is_starting(history.first()),
        0 <= i < history.len(),
        history[i].action !is Finish,
    ensures
        ({
            let config = history[i];
            let event = config.world.perform(config.action).1;
            config.run.wf() && (config.run.accepts(event) <==> !(config.run.spec_phase()
                is ReadingDeleted && event is OperationRead && event->OperationRead_operation is Some
                && event->OperationRead_operation->Some_0 is Delete))
        }),
{
    lemma_run_progresses(history, i);
}

/// What the actions of a run do: they read what is there, append to the changes of the index what
/// they say, and store the id that they say.
pub proof fn law_what_actions_do<R>(world: IndexWorld<R>, record: R, id: u64)
    ensures
        world.perform(IndexAction::LoadNextOperationId) == (
            world,
            IndexEvent::NextOperationIdLoaded::<R> { operation_id: world.next_operation_id },
        ),
        world.perform(IndexAction::GetOperation { operation_id: id }).0 == world,
        match world.perform(IndexAction::GetOperation { operation_id: id }).1 {
            IndexEvent::OperationRead { operation: Some(operation) } => world.log.contains_key(id)
                && world.log[id] == operation,
            IndexEvent::OperationRead { operation: None } => !world.log.contains_key(id),
            _ => false,
        },
        ({
            let (after, event) = world.perform(IndexAction::BuildIndex { record, operation_id: id });
            &&& event is IndexChanged
            &&& after.log == world.log
            &&& after.next_operation_id == world.next_operation_id
            &&& after.changes.len() == world.changes.len() + 1
            &&& after.changes.drop_last() == world.changes
            &&& after.changes.last() == (IndexChange::Build { record, operation_id: id })
        }),
        ({
            let (after, event) = world.perform(
                IndexAction::DeleteIndex { record, operation_id: id },
            );
            &&& event is IndexChanged
            &&& after.log == world.log
            &&& after.next_operation_id == world.next_operation_id
            &&& after.changes.len() == world.changes.len() + 1
            &&& after.changes.drop_last() == world.changes
            &&& after.changes.last() == (IndexChange::Delete { record, operation_id: id })
        }),
        ({
            let (after, event) = world.perform(
                IndexAction::StoreNextOperationId { next_operation_id: id },
            );
            &&& event is NextOperationIdStored
            &&& after.log == world.log
            &&& after.next_operation_id == id
            &&& after.changes == world.changes
        }),
{
    let (built, _) = world.perform(IndexAction::BuildIndex { record, operation_id: id });
    assert(built.changes.drop_last() =~= world.changes);
    let (deleted, _) = world.perform(IndexAction::DeleteIndex { record, operation_id: id });
    assert(deleted.changes.drop_last() =~= world.changes);
}

} // verus!
