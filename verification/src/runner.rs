//! The decisions of a batched run.
//!
//! A run reads batches, scores them on worker threads and collects what
//! the workers send back. Reading, scoring and the threads themselves are
//! the caller's; what is decided here is what follows each event of a run:
//! the next phase and the action to take.
//!
//! A run goes `Init`, `Streaming` (batches in flight), `Draining` (the
//! input is exhausted and one sentinel per worker is sent), `Joined` (all
//! workers have exited and every result is collected) and `Done`. A
//! failure to decode or to read ends it in `Failed`.

use crate::join::{JoinError, MatchStatus};
use vstd::prelude::*;

verus! {

/// The phase of a run.
#[derive(Debug, Clone, Copy, PartialEq, Eq, Structural)]
pub enum Phase {
    Init,
    Streaming,
    Draining,
    Joined,
    Done,
    Failed,
}

/// What happens in a run that is batched by marker.
#[derive(Debug, Clone, Copy, PartialEq, Eq)]
pub enum SnpEvent {
    /// The run begins.
    Started,
    /// The weight table gave another batch of rows.
    BatchRead,
    /// The weight table is exhausted.
    InputExhausted,
    /// A batch was matched and scored; these are the counts of its match.
    BatchScored(MatchStatus),
    /// No marker of a batch matched.
    BatchUnmatched,
    /// A batch could not be decoded or read.
    BatchFailed,
    /// Every worker has exited.
    WorkersJoined,
    /// The output table is made.
    OutputMade,
}

/// What to do after an event of a run that is batched by marker.
#[derive(Debug, Clone, Copy, PartialEq, Eq)]
pub enum SnpAction {
    /// Start `workers` workers, with room for `queue` batches on the way
    /// to them.
    SpawnWorkers { workers: usize, queue: usize },
    /// Hand the batch to a worker.
    Dispatch,
    /// Send this many sentinels, one to end each worker.
    SendSentinels(usize),
    /// Add the scores of the batch to the sum; with `first` they are the
    /// sum.
    Accumulate { first: bool },
    /// Leave the batch out of the totals.
    Skip,
    /// Make the output table from the sum; these are the counts of the run.
    Finish(MatchStatus),
    /// Stop with this error and without a table: no marker of any batch
    /// matched.
    Fail(JoinError),
    /// Stop without a result.
    Abort,
    /// Nothing: the run is done.
    Rest,
    /// The event does not belong to the phase; the run stays as it is.
    Reject,
}

/// The state of a run that is batched by marker.
#[derive(Debug, Clone, Copy, PartialEq, Eq)]
pub struct SnpBatchRun {
    /// The phase.
    pub phase: Phase,
    /// The number of workers.
    pub thread_num: usize,
    /// The batches that were handed to workers.
    pub dispatched: usize,
    /// The batches that came back, scored or unmatched.
    pub settled: usize,
    /// The batches that were scored.
    pub scored: usize,
    /// The counts of the scored batches together.
    pub match_status: MatchStatus,
}

/// The room on the way to the workers: two batches for each worker.
pub open spec fn spec_queue_len(thread_num: usize) -> usize {
    if thread_num <= usize::MAX / 2 {
        (thread_num * 2) as usize
    } else {
        usize::MAX
    }
}

impl SnpBatchRun {
    /// The counts of the state are consistent: no more batches came back
    /// than were handed out, and no more were scored than came back.
    pub open spec fn wf(self) -> bool {
        &&& self.scored <= self.settled <= self.dispatched
        &&& (self.phase == Phase::Init ==> self.dispatched == 0)
        &&& (self.phase == Phase::Joined || self.phase == Phase::Done ==> self.settled
            == self.dispatched && self.scored > 0)
    }

    /// The state and the action that follow an event.
    pub open spec fn spec_step(self, event: SnpEvent) -> (SnpBatchRun, SnpAction) {
        let streaming = self.phase == Phase::Streaming;
        let collecting = self.phase == Phase::Streaming || self.phase == Phase::Draining;
        let open = self.settled < self.dispatched;
        match event {
            SnpEvent::Started => if self.phase == Phase::Init {
                (
                    SnpBatchRun { phase: Phase::Streaming, ..self },
                    SnpAction::SpawnWorkers {
                        workers: self.thread_num,
                        queue: spec_queue_len(self.thread_num),
                    },
                )
            } else {
                (self, SnpAction::Reject)
            },
            SnpEvent::BatchRead => if streaming && self.dispatched < usize::MAX {
                (
                    SnpBatchRun { dispatched: (self.dispatched + 1) as usize, ..self },
                    SnpAction::Dispatch,
                )
            } else if streaming {
                (SnpBatchRun { phase: Phase::Failed, ..self }, SnpAction::Abort)
            } else {
                (self, SnpAction::Reject)
            },
            SnpEvent::InputExhausted => if streaming {
                (
                    SnpBatchRun { phase: Phase::Draining, ..self },
                    SnpAction::SendSentinels(self.thread_num),
                )
            } else {
                (self, SnpAction::Reject)
            },
            SnpEvent::BatchScored(status) => if collecting && open && self.match_status.can_add(
                status,
            ) {
                (
                    SnpBatchRun {
                        settled: (self.settled + 1) as usize,
                        scored: (self.scored + 1) as usize,
                        match_status: self.match_status.spec_add(status),
                        ..self
                    },
                    SnpAction::Accumulate { first: self.scored == 0 },
                )
            } else if collecting && open {
                (SnpBatchRun { phase: Phase::Failed, ..self }, SnpAction::Abort)
            } else {
                (self, SnpAction::Reject)
            },
            SnpEvent::BatchUnmatched => if collecting && open {
                (SnpBatchRun { settled: (self.settled + 1) as usize, ..self }, SnpAction::Skip)
            } else {
                (self, SnpAction::Reject)
            },
            SnpEvent::BatchFailed => if collecting {
                (SnpBatchRun { phase: Phase::Failed, ..self }, SnpAction::Abort)
            } else {
                (self, SnpAction::Reject)
            },
            SnpEvent::WorkersJoined => if self.phase == Phase::Draining && !open && self.scored
                > 0 {
                (
                    SnpBatchRun { phase: Phase::Joined, ..self },
                    SnpAction::Finish(self.match_status),
                )
            } else if self.phase == Phase::Draining && !open {
                (
                    SnpBatchRun { phase: Phase::Failed, ..self },
                    SnpAction::Fail(JoinError::NoSnpMatched),
                )
            } else {
                (self, SnpAction::Reject)
            },
            SnpEvent::OutputMade => if self.phase == Phase::Joined {
                (SnpBatchRun { phase: Phase::Done, ..self }, SnpAction::Rest)
            } else {
                (self, SnpAction::Reject)
            },
        }
    }

    /// A run of `thread_num` workers before its first event.
    pub fn new(thread_num: usize) -> (r: SnpBatchRun)
        ensures
            r.wf(),
            r.phase == Phase::Init,
            r.thread_num == thread_num,
            r.dispatched == 0,
            r.settled == 0,
            r.scored == 0,
            r.match_status == (MatchStatus { bfile_snp: 0, model_snp: 0, match_snp: 0 }),
    {
        SnpBatchRun {
            phase: Phase::Init,
            thread_num,
            dispatched: 0,
            settled: 0,
            scored: 0,
            match_status: MatchStatus::new_empty(),
        }
    }

    /// Takes an event: moves the run on and says what to do.
    ///
    /// A batch that did not match is skipped and the run goes on; a batch
    /// that could not be decoded or read ends the run. The counts of the
    /// scored batches are added up as they arrive. When the workers have
    /// exited and no batch was scored, no marker has matched: the run fails
    /// with that error and gives no table.
    pub fn step(&mut self, event: SnpEvent) -> (action: SnpAction)
        requires
            old(self).wf(),
        ensures
            final(self).wf(),
            (*final(self), action) == old(self).spec_step(event),
    {
        let streaming: bool = matches!(self.phase, Phase::Streaming);
        let collecting: bool = matches!(self.phase, Phase::Streaming | Phase::Draining);
        let open: bool = self.settled < self.dispatched;
        match event {
            SnpEvent::Started => {
                if matches!(self.phase, Phase::Init) {
                    self.phase = Phase::Streaming;
                    let queue: usize = if self.thread_num <= usize::MAX / 2 {
                        self.thread_num * 2
                    } else {
                        usize::MAX
                    };
                    SnpAction::SpawnWorkers { workers: self.thread_num, queue }
                } else {
                    SnpAction::Reject
                }
            },
            SnpEvent::BatchRead => {
                if streaming && self.dispatched < usize::MAX {
                    self.dispatched = self.dispatched + 1;
                    SnpAction::Dispatch
                } else if streaming {
                    self.phase = Phase::Failed;
                    SnpAction::Abort
                } else {
                    SnpAction::Reject
                }
            },
            SnpEvent::InputExhausted => {
                if streaming {
                    self.phase = Phase::Draining;
                    SnpAction::SendSentinels(self.thread_num)
                } else {
                    SnpAction::Reject
                }
            },
            SnpEvent::BatchScored(status) => {
                if collecting && open {
                    let fits: bool = status.model_snp <= usize::MAX - self.match_status.model_snp
                        && status.match_snp <= usize::MAX - self.match_status.match_snp;
                    if fits {
                        let first: bool = self.scored == 0;
                        self.match_status = self.match_status.add(status);
                        self.settled = self.settled + 1;
                        self.scored = self.scored + 1;
                        SnpAction::Accumulate { first }
                    } else {
                        self.phase = Phase::Failed;
                        SnpAction::Abort
                    }
                } else {
                    SnpAction::Reject
                }
            },
            SnpEvent::BatchUnmatched => {
                if collecting && open {
                    self.settled = self.settled + 1;
                    SnpAction::Skip
                } else {
                    SnpAction::Reject
                }
            },
            SnpEvent::BatchFailed => {
                if collecting {
                    self.phase = Phase::Failed;
                    SnpAction::Abort
                } else {
                    SnpAction::Reject
                }
            },
            SnpEvent::WorkersJoined => {
                if matches!(self.phase, Phase::Draining) && !open {
                    if self.scored > 0 {
                        self.phase = Phase::Joined;
                        SnpAction::Finish(self.match_status)
                    } else {
                        self.phase = Phase::Failed;
                        SnpAction::Fail(JoinError::NoSnpMatched)
                    }
                } else {
                    SnpAction::Reject
                }
            },
            SnpEvent::OutputMade => {
                if matches!(self.phase, Phase::Joined) {
                    self.phase = Phase::Done;
                    SnpAction::Rest
                } else {
                    SnpAction::Reject
                }
            },
        }
    }
}

/// The place of a phase in the order of a run.
pub open spec fn phase_rank(p: Phase) -> int {
    match p {
        Phase::Init => 0,
        Phase::Streaming => 1,
        Phase::Draining => 2,
        Phase::Joined => 3,
        Phase::Done => 4,
        Phase::Failed => 5,
    }
}

/// A run never goes back: an event leaves the phase as it is, moves it to
/// the next phase, or fails the run; and a run that is done or has failed
/// stays so. The counts of a run only grow.
pub proof fn lemma_run_moves_forward(run: SnpBatchRun, event: SnpEvent)
    requires
        run.wf(),
    ensures
        run.spec_step(event).0.wf(),
        run.spec_step(event).0.thread_num == run.thread_num,
        run.spec_step(event).0.phase == run.phase || run.spec_step(event).0.phase == Phase::Failed
            || phase_rank(run.spec_step(event).0.phase) == phase_rank(run.phase) + 1,
        run.phase == Phase::Done || run.phase == Phase::Failed ==> run.spec_step(event).0 == run,
        run.spec_step(event).0.dispatched >= run.dispatched,
        run.spec_step(event).0.settled >= run.settled,
        run.spec_step(event).0.scored >= run.scored,
{
}

/// Adding the counts of batches gives the same sums of weight rows and of
/// matched markers in whatever order the batches arrive, and grouping the
/// additions differently changes nothing at all.
pub proof fn lemma_add_order(a: MatchStatus, b: MatchStatus, c: MatchStatus)
    requires
        a.model_snp + b.model_snp + c.model_snp <= usize::MAX,
        a.match_snp + b.match_snp + c.match_snp <= usize::MAX,
    ensures
        a.spec_add(b).model_snp == b.spec_add(a).model_snp,
        a.spec_add(b).match_snp == b.spec_add(a).match_snp,
        a.spec_add(b).bfile_snp == b.bfile_snp,
        a.spec_add(b).spec_add(c) == a.spec_add(b.spec_add(c)),
        a.spec_add(b).spec_add(c).model_snp == a.spec_add(c).spec_add(b).model_snp,
        a.spec_add(b).spec_add(c).match_snp == a.spec_add(c).spec_add(b).match_snp,
{
}

/// The rows of weight tables of a list of batches, added up.
pub open spec fn total_model(batches: Seq<MatchStatus>) -> int
    decreases batches.len(),
{
    if batches.len() == 0 {
        0
    } else {
        total_model(batches.drop_last()) + batches.last().model_snp
    }
}

/// The matched markers of a list of batches, added up.
pub open spec fn total_match(batches: Seq<MatchStatus>) -> int
    decreases batches.len(),
{
    if batches.len() == 0 {
        0
    } else {
        total_match(batches.drop_last()) + batches.last().match_snp
    }
}

/// The counts of a list of batches, added one after the other to the
/// counts before any batch.
pub open spec fn spec_sum(batches: Seq<MatchStatus>) -> MatchStatus
    decreases batches.len(),
{
    if batches.len() == 0 {
        MatchStatus { bfile_snp: 0, model_snp: 0, match_snp: 0 }
    } else {
        spec_sum(batches.drop_last()).spec_add(batches.last())
    }
}

/// Adding the counts of batches one after the other gives their totals,
/// as long as the totals fit; the markers of the genotype file are those
/// of the batch that was added last.
pub proof fn lemma_sum_is_total(batches: Seq<MatchStatus>)
    requires
        total_model(batches) <= usize::MAX,
        total_match(batches) <= usize::MAX,
    ensures
        spec_sum(batches).model_snp == total_model(batches),
        spec_sum(batches).match_snp == total_match(batches),
        batches.len() > 0 ==> spec_sum(batches).bfile_snp == batches.last().bfile_snp,
    decreases batches.len(),
{
    if batches.len() > 0 {
        lemma_totals_grow(batches.drop_last());
        lemma_sum_is_total(batches.drop_last());
    }
}

/// A total is not negative.
pub proof fn lemma_totals_grow(batches: Seq<MatchStatus>)
    ensures
        total_model(batches) >= 0,
        total_match(batches) >= 0,
    decreases batches.len(),
{
    if batches.len() > 0 {
        lemma_totals_grow(batches.drop_last());
    }
}

/// Taking a batch out of a list takes its counts out of the totals.
pub proof fn lemma_totals_remove(batches: Seq<MatchStatus>, i: int)
    requires
        0 <= i < batches.len(),
    ensures
        total_model(batches) == total_model(batches.remove(i)) + batches[i].model_snp,
        total_match(batches) == total_match(batches.remove(i)) + batches[i].match_snp,
    decreases batches.len(),
{
    if i == batches.len() - 1 {
        assert(batches.remove(i) =~= batches.drop_last());
    } else {
        lemma_totals_remove(batches.drop_last(), i);
        assert(batches.remove(i).drop_last() =~= batches.drop_last().remove(i));
        assert(batches.remove(i).last() == batches.last());
    }
}

/// The totals of the batches of a run do not depend on the order in which
/// the batches arrive: two lists of the same batches, in whatever order,
/// have the same totals.
pub proof fn lemma_totals_of_any_order(a: Seq<MatchStatus>, b: Seq<MatchStatus>)
    requires
        a.to_multiset() == b.to_multiset(),
    ensures
        total_model(a) == total_model(b),
        total_match(a) == total_match(b),
    decreases a.len(),
{
    vstd::seq_lib::to_multiset_len(a);
    vstd::seq_lib::to_multiset_len(b);
    if a.len() > 0 {
        let x = a.last();
        let i = a.len() - 1;
        vstd::seq_lib::to_multiset_contains(a, x);
        vstd::seq_lib::to_multiset_contains(b, x);
        assert(a[i] == x);
        assert(a.contains(x));
        assert(b.contains(x));
        let j = choose|j: int| 0 <= j < b.len() && b[j] == x;
        vstd::seq_lib::to_multiset_remove(a, i);
        vstd::seq_lib::to_multiset_remove(b, j);
        lemma_totals_of_any_order(a.remove(i), b.remove(j));
        lemma_totals_remove(a, i);
        lemma_totals_remove(b, j);
    }
}

/// The state of a run of `thread_num` workers after the first `n` of a
/// list of events.
pub open spec fn spec_run(thread_num: usize, events: Seq<SnpEvent>, n: int) -> SnpBatchRun
    decreases n,
{
    if n <= 0 {
        SnpBatchRun {
            phase: Phase::Init,
            thread_num,
            dispatched: 0,
            settled: 0,
            scored: 0,
            match_status: MatchStatus { bfile_snp: 0, model_snp: 0, match_snp: 0 },
        }
    } else {
        spec_run(thread_num, events, n - 1).spec_step(events[n - 1]).0
    }
}

/// The counts of the batches whose scores a run has added to the sum in
/// the first `n` of a list of events, in the order in which they arrived.
pub open spec fn spec_scored(thread_num: usize, events: Seq<SnpEvent>, n: int) -> Seq<MatchStatus>
    decreases n,
{
    if n <= 0 {
        Seq::empty()
    } else {
        let prev = spec_scored(thread_num, events, n - 1);
        match (spec_run(thread_num, events, n - 1).spec_step(events[n - 1]).1, events[n - 1]) {
            (SnpAction::Accumulate { first }, SnpEvent::BatchScored(status)) => prev.push(status),
            _ => prev,
        }
    }
}

/// Whatever the events of a run, its state is consistent, it has counted
/// the batches that it has scored, and its counts are the counts of those
/// batches added one after the other.
pub proof fn lemma_run_adds_up(thread_num: usize, events: Seq<SnpEvent>, n: int)
    requires
        0 <= n <= events.len(),
    ensures
        spec_run(thread_num, events, n).wf(),
        spec_run(thread_num, events, n).thread_num == thread_num,
        spec_run(thread_num, events, n).scored == spec_scored(thread_num, events, n).len(),
        spec_run(thread_num, events, n).match_status == spec_sum(
            spec_scored(thread_num, events, n),
        ),
    decreases n,
{
    if n > 0 {
        lemma_run_adds_up(thread_num, events, n - 1);
        let before = spec_run(thread_num, events, n - 1);
        let prev = spec_scored(thread_num, events, n - 1);
        lemma_run_moves_forward(before, events[n - 1]);
        match (before.spec_step(events[n - 1]).1, events[n - 1]) {
            (SnpAction::Accumulate { first }, SnpEvent::BatchScored(status)) => {
                assert(prev.push(status).drop_last() =~= prev);
                assert(prev.push(status).last() == status);
            },
            _ => {},
        }
    }
}

/// A run in which no batch was scored never gives a table: whatever its
/// events, none of them is answered by the action that makes the output
/// table, and the event that would end the run is answered by the error
/// that no marker matched. A run gives a table only after a batch was
/// scored.
pub proof fn lemma_no_match_no_table(thread_num: usize, events: Seq<SnpEvent>, n: int)
    requires
        0 <= n < events.len(),
    ensures
        spec_scored(thread_num, events, n).len() == 0 ==> !(spec_run(
            thread_num,
            events,
            n,
        ).spec_step(events[n]).1 is Finish),
        spec_run(thread_num, events, n).spec_step(events[n]).1 is Fail ==> spec_scored(
            thread_num,
            events,
            n,
        ).len() == 0 && spec_run(thread_num, events, n).spec_step(events[n]).1 == SnpAction::Fail(
            JoinError::NoSnpMatched,
        ),
        spec_run(thread_num, events, n).phase == Phase::Joined || spec_run(
            thread_num,
            events,
            n,
        ).phase == Phase::Done ==> spec_scored(thread_num, events, n).len() > 0,
{
    lemma_run_adds_up(thread_num, events, n);
}

/// Two runs that score the same batches end with the same numbers of
/// weight rows and of matched markers, whatever their numbers of workers
/// and whatever the order in which their batches arrive.
pub proof fn lemma_runs_agree(
    threads_a: usize,
    events_a: Seq<SnpEvent>,
    threads_b: usize,
    events_b: Seq<SnpEvent>,
)
    requires
        spec_scored(threads_a, events_a, events_a.len() as int).to_multiset() == spec_scored(
            threads_b,
            events_b,
            events_b.len() as int,
        ).to_multiset(),
        total_model(spec_scored(threads_a, events_a, events_a.len() as int)) <= usize::MAX,
        total_match(spec_scored(threads_a, events_a, events_a.len() as int)) <= usize::MAX,
    ensures
        spec_run(threads_a, events_a, events_a.len() as int).match_status.model_snp == spec_run(
            threads_b,
            events_b,
            events_b.len() as int,
        ).match_status.model_snp,
        spec_run(threads_a, events_a, events_a.len() as int).match_status.match_snp == spec_run(
            threads_b,
            events_b,
            events_b.len() as int,
        ).match_status.match_snp,
{
    let a = spec_scored(threads_a, events_a, events_a.len() as int);
    let b = spec_scored(threads_b, events_b, events_b.len() as int);
    lemma_totals_of_any_order(a, b);
    lemma_sum_is_total(a);
    lemma_sum_is_total(b);
    lemma_run_adds_up(threads_a, events_a, events_a.len() as int);
    lemma_run_adds_up(threads_b, events_b, events_b.len() as int);
}

/// What happens in a run that is batched by individual.
#[derive(Debug, Clone, Copy, PartialEq, Eq)]
pub enum IndEvent {
    /// The run begins.
    Started,
    /// Every chunk has been put on the way to the workers.
    ChunksSent,
    /// The rows of this chunk came back.
    ChunkDone(usize),
    /// A chunk could not be decoded or read.
    ChunkFailed,
    /// Every worker has exited.
    WorkersJoined,
    /// The output table is made.
    OutputMade,
}

/// What to do after an event of a run that is batched by individual.
#[derive(Debug, Clone, Copy, PartialEq, Eq)]
pub enum IndAction {
    /// Start `workers` workers and put the chunks `0` to `chunks - 1` on
    /// the way to them, in order.
    SpawnWorkers { workers: usize, chunks: usize },
    /// Send this many sentinels, one to end each worker.
    SendSentinels(usize),
    /// Keep the rows as those of this chunk.
    Place(usize),
    /// Put the rows of the chunks together, from the first chunk to the
    /// last.
    Finish,
    /// Stop without a result.
    Abort,
    /// Nothing: the run is done.
    Rest,
    /// The event does not belong to the phase; the run stays as it is.
    Reject,
}

/// The number of flags that are set among the first `n`.
pub open spec fn count_set(flags: Seq<bool>, n: int) -> nat
    decreases n,
{
    if n <= 0 {
        0
    } else {
        count_set(flags, n - 1) + if flags[n - 1] {
            1nat
        } else {
            0nat
        }
    }
}

/// The state of a run that is batched by individual, as contracts see it.
pub struct IndRunView {
    pub phase: Phase,
    pub thread_num: usize,
    /// For each chunk, whether its rows have come back.
    pub received: Seq<bool>,
}

impl IndRunView {
    /// The state and the action that follow an event.
    pub open spec fn spec_step(self, event: IndEvent) -> (IndRunView, IndAction) {
        let collecting = self.phase == Phase::Streaming || self.phase == Phase::Draining;
        match event {
            IndEvent::Started => if self.phase == Phase::Init {
                (
                    IndRunView { phase: Phase::Streaming, ..self },
                    IndAction::SpawnWorkers {
                        workers: self.thread_num,
                        chunks: self.received.len() as usize,
                    },
                )
            } else {
                (self, IndAction::Reject)
            },
            IndEvent::ChunksSent => if self.phase == Phase::Streaming {
                (
                    IndRunView { phase: Phase::Draining, ..self },
                    IndAction::SendSentinels(self.thread_num),
                )
            } else {
                (self, IndAction::Reject)
            },
            IndEvent::ChunkDone(chunk) => if collecting && chunk < self.received.len()
                && !self.received[chunk as int] {
                (
                    IndRunView { received: self.received.update(chunk as int, true), ..self },
                    IndAction::Place(chunk),
                )
            } else if collecting {
                (IndRunView { phase: Phase::Failed, ..self }, IndAction::Abort)
            } else {
                (self, IndAction::Reject)
            },
            IndEvent::ChunkFailed => if collecting {
                (IndRunView { phase: Phase::Failed, ..self }, IndAction::Abort)
            } else {
                (self, IndAction::Reject)
            },
            IndEvent::WorkersJoined => if self.phase == Phase::Draining && count_set(
                self.received,
                self.received.len() as int,
            ) == self.received.len() {
                (IndRunView { phase: Phase::Joined, ..self }, IndAction::Finish)
            } else if self.phase == Phase::Draining {
                (IndRunView { phase: Phase::Failed, ..self }, IndAction::Abort)
            } else {
                (self, IndAction::Reject)
            },
            IndEvent::OutputMade => if self.phase == Phase::Joined {
                (IndRunView { phase: Phase::Done, ..self }, IndAction::Rest)
            } else {
                (self, IndAction::Reject)
            },
        }
    }
}

/// The state of a run that is batched by individual.
///
/// The rows of a chunk may come back in any order. They are kept by the
/// chunk's number, so that the output follows the order of the
/// individuals whatever the order of arrival.
#[derive(Debug)]
pub struct IndBatchRun {
    phase: Phase,
    thread_num: usize,
    received: Vec<bool>,
    n_received: usize,
}

impl View for IndBatchRun {
    type V = IndRunView;

    closed spec fn view(&self) -> IndRunView {
        IndRunView { phase: self.phase, thread_num: self.thread_num, received: self.received@ }
    }
}

/// Setting a flag that was clear adds one to the count of set flags, once
/// the count reaches past the flag.
pub proof fn lemma_count_set_update(flags: Seq<bool>, k: int, n: int)
    requires
        0 <= k < flags.len(),
        0 <= n <= flags.len(),
        !flags[k],
    ensures
        count_set(flags.update(k, true), n) == count_set(flags, n) + if k < n {
            1nat
        } else {
            0nat
        },
    decreases n,
{
    if n > 0 {
        lemma_count_set_update(flags, k, n - 1);
    }
}

/// There are no more set flags than flags, and where there are as many,
/// every flag is set.
pub proof fn lemma_count_set_full(flags: Seq<bool>, n: int)
    requires
        0 <= n <= flags.len(),
    ensures
        count_set(flags, n) <= n,
        count_set(flags, n) == n ==> forall|k: int| 0 <= k < n ==> #[trigger] flags[k],
    decreases n,
{
    if n > 0 {
        lemma_count_set_full(flags, n - 1);
    }
}

impl IndBatchRun {
    /// The count of the chunks that came back is the number of set flags.
    pub closed spec fn wf(&self) -> bool {
        self.n_received == count_set(self.received@, self.received@.len() as int)
    }

    /// A run of `thread_num` workers over `num_batches` chunks before its
    /// first event.
    pub fn new(thread_num: usize, num_batches: usize) -> (r: IndBatchRun)
        ensures
            r.wf(),
            r@.phase == Phase::Init,
            r@.thread_num == thread_num,
            r@.received == Seq::new(num_batches as nat, |k: int| false),
    {
        let mut received: Vec<bool> = Vec::new();
        let mut k: usize = 0;
        while k < num_batches
            invariant
                k <= num_batches,
                received@.len() == k,
                forall|h: int| 0 <= h < k ==> !#[trigger] received@[h],
                count_set(received@, k as int) == 0,
            decreases num_batches - k,
        {
            let ghost before = received@;
            received.push(false);
            proof {
                lemma_count_set_prefix(before, received@, k as int);
            }
            k += 1;
        }
        assert(received@ =~= Seq::new(num_batches as nat, |k: int| false));
        IndBatchRun { phase: Phase::Init, thread_num, received, n_received: 0 }
    }

    /// The phase of the run.
    pub fn phase(&self) -> (p: Phase)
        ensures
            p == self@.phase,
    {
        self.phase
    }

    /// Takes an event: moves the run on and says what to do.
    ///
    /// The rows of a chunk are placed by the chunk's number. A chunk that
    /// comes back twice, or a number that is no chunk's, ends the run, and
    /// so does a chunk that could not be decoded or read. The rows are put
    /// together only when every chunk has come back.
    pub fn step(&mut self, event: IndEvent) -> (action: IndAction)
        requires
            old(self).wf(),
        ensures
            final(self).wf(),
            (final(self)@, action) == old(self)@.spec_step(event),
    {
        let collecting: bool = matches!(self.phase, Phase::Streaming | Phase::Draining);
        match event {
            IndEvent::Started => {
                if matches!(self.phase, Phase::Init) {
                    self.phase = Phase::Streaming;
                    IndAction::SpawnWorkers {
                        workers: self.thread_num,
                        chunks: self.received.len(),
                    }
                } else {
                    IndAction::Reject
                }
            },
            IndEvent::ChunksSent => {
                if matches!(self.phase, Phase::Streaming) {
                    self.phase = Phase::Draining;
                    IndAction::SendSentinels(self.thread_num)
                } else {
                    IndAction::Reject
                }
            },
            IndEvent::ChunkDone(chunk) => {
                if collecting && chunk < self.received.len() && !self.received[chunk] {
                    proof {
                        lemma_count_set_update(
                            self.received@,
                            chunk as int,
                            self.received@.len() as int,
                        );
                        lemma_count_set_full(
                            self.received@.update(chunk as int, true),
                            self.received@.len() as int,
                        );
                    }
                    self.received.set(chunk, true);
                    self.n_received = self.n_received + 1;
                    IndAction::Place(chunk)
                } else if collecting {
                    self.phase = Phase::Failed;
                    IndAction::Abort
                } else {
                    IndAction::Reject
                }
            },
            IndEvent::ChunkFailed => {
                if collecting {
                    self.phase = Phase::Failed;
                    IndAction::Abort
                } else {
                    IndAction::Reject
                }
            },
            IndEvent::WorkersJoined => {
                if matches!(self.phase, Phase::Draining) {
                    if self.n_received == self.received.len() {
                        self.phase = Phase::Joined;
                        IndAction::Finish
                    } else {
                        self.phase = Phase::Failed;
                        IndAction::Abort
                    }
                } else {
                    IndAction::Reject
                }
            },
            IndEvent::OutputMade => {
                if matches!(self.phase, Phase::Joined) {
                    self.phase = Phase::Done;
                    IndAction::Rest
                } else {
                    IndAction::Reject
                }
            },
        }
    }
}

/// The count of set flags among the first `n` depends on those flags only.
pub proof fn lemma_count_set_prefix(a: Seq<bool>, b: Seq<bool>, n: int)
    requires
        0 <= n <= a.len(),
        n <= b.len(),
        forall|k: int| 0 <= k < n ==> a[k] == b[k],
    ensures
        count_set(a, n) == count_set(b, n),
    decreases n,
{
    if n > 0 {
        lemma_count_set_prefix(a, b, n - 1);
    }
}

/// The rows are put together only when every chunk has come back, and
/// then each chunk has come back once: a chunk is placed only while its
/// flag is clear.
pub proof fn lemma_finish_is_complete(run: IndRunView, event: IndEvent)
    ensures
        run.spec_step(event).1 == IndAction::Finish ==> forall|k: int|
            0 <= k < run.received.len() ==> #[trigger] run.received[k],
        run.spec_step(event).1 matches IndAction::Place(chunk) ==> chunk < run.received.len()
            && !run.received[chunk as int] && run.spec_step(event).0.received[chunk as int],
{
    lemma_count_set_full(run.received, run.received.len() as int);
}

} // verus!
