//! Bookkeeping of the worker that keeps fetching the dirty log of a running
//! VM: the merged table of dirtied memory and the recent dirty rates, and
//! the decisions of the worker's loop.
use crate::error::MigratableError;
use crate::memory_range_table::{
    canonical, ranges_fit, total_length, touches, MemoryRangeTable,
};
use std::collections::VecDeque;
use vstd::prelude::*;

verus! {

/// The size of a guest page in bytes.
pub const PAGE_SIZE: u64 = 4096;

/// Throttle (sleep) time of the worker per iteration, in milliseconds.
pub const THREAD_THROTTLE_MS: u64 = 33;

/// The timeslice over which the current dirty rate of the VM is averaged, in
/// milliseconds.
pub const DIRTY_RATE_CALC_TIMESLICE_MS: u64 = 1000;

/// The sum of the values of `s`.
pub open spec fn seq_sum(s: Seq<u64>) -> int
    decreases s.len(),
{
    if s.len() == 0 {
        0
    } else {
        seq_sum(s.drop_last()) + s.last()
    }
}

/// `a / b`, rounded up.
pub open spec fn ceil_div(a: int, b: int) -> int {
    if a % b == 0 {
        a / b
    } else {
        a / b + 1
    }
}

/// The number of dirty-rate samples that cover the averaging timeslice.
pub open spec fn spec_dirty_rate_vec_capacity() -> int {
    ceil_div(DIRTY_RATE_CALC_TIMESLICE_MS as int, THREAD_THROTTLE_MS as int)
}

proof fn lemma_seq_sum_prefix(s: Seq<u64>, i: int)
    requires
        0 <= i <= s.len(),
    ensures
        0 <= seq_sum(s.take(i)) <= seq_sum(s),
    decreases s.len() - i,
{
    if i < s.len() {
        lemma_seq_sum_prefix(s, i + 1);
        assert(s.take(i + 1).drop_last() == s.take(i));
        lemma_seq_sum_nonneg(s.take(i));
    } else {
        assert(s.take(i) == s);
        lemma_seq_sum_nonneg(s);
    }
}

proof fn lemma_seq_sum_nonneg(s: Seq<u64>)
    ensures
        seq_sum(s) >= 0,
    decreases s.len(),
{
    if s.len() > 0 {
        lemma_seq_sum_nonneg(s.drop_last());
    }
}

/// All shared state of the dirty-log worker.
pub struct DirtyLogWorkerSharedState {
    /// The dirty rates measured in the past timeslice, newest first.
    dirty_rates_pps: VecDeque<u64>,
    /// The merged table of memory dirtied since the table was taken last.
    table: MemoryRangeTable,
    /// Set to true to signal the worker to stop and exit.
    stop: bool,
}

impl DirtyLogWorkerSharedState {
    /// The dirty rates, newest first.
    pub closed spec fn spec_rates(&self) -> Seq<u64> {
        self.dirty_rates_pps@
    }

    /// The merged table of dirtied memory.
    pub closed spec fn spec_table(&self) -> Seq<crate::memory_range_table::MemoryRange> {
        self.table@
    }

    pub closed spec fn spec_stop(&self) -> bool {
        self.stop
    }

    /// The state holds at most a timeslice of rates, and a table that can be
    /// merged into.
    pub open spec fn wf(&self) -> bool {
        &&& self.spec_rates().len() <= spec_dirty_rate_vec_capacity()
        &&& ranges_fit(self.spec_table())
    }

    /// A state with no rates, an empty table, and no stop requested.
    pub fn new() -> (r: Self)
        ensures
            r.wf(),
            r.spec_rates() == Seq::<u64>::empty(),
            r.spec_table() == Seq::<crate::memory_range_table::MemoryRange>::empty(),
            !r.spec_stop(),
    {
        DirtyLogWorkerSharedState {
            dirty_rates_pps: VecDeque::new(),
            table: MemoryRangeTable::default(),
            stop: false,
        }
    }

    /// The number of dirty-rate samples kept: enough to cover the averaging
    /// timeslice.
    pub fn dirty_rate_vec_capacity() -> (r: usize)
        ensures
            r == spec_dirty_rate_vec_capacity(),
    {
        let a = DIRTY_RATE_CALC_TIMESLICE_MS;
        let b = THREAD_THROTTLE_MS;
        let q = a / b;
        let r = if a % b == 0 {
            q
        } else {
            q + 1
        };
        r as usize
    }

    /// Adds a new dirty rate measurement and drops the oldest one once more
    /// than a timeslice's worth are kept.
    pub fn update_dirty_rate(&mut self, dirty_rate_pps: u64)
        requires
            old(self).wf(),
        ensures
            final(self).wf(),
            final(self).spec_table() == old(self).spec_table(),
            final(self).spec_stop() == old(self).spec_stop(),
            final(self).spec_rates() == if old(self).spec_rates().len() + 1 > spec_dirty_rate_vec_capacity() {
                (seq![dirty_rate_pps] + old(self).spec_rates()).drop_last()
            } else {
                seq![dirty_rate_pps] + old(self).spec_rates()
            },
    {
        self.dirty_rates_pps.push_front(dirty_rate_pps);
        if self.dirty_rates_pps.len() > Self::dirty_rate_vec_capacity() {
            self.dirty_rates_pps.pop_back();
        }
    }

    /// The average dirty rate in pages per second, rounded up; 0 without
    /// any measurement.
    pub fn average_dirty_rate_pps(&self) -> (r: u64)
        requires
            seq_sum(self.spec_rates()) <= u64::MAX,
        ensures
            self.spec_rates().len() == 0 ==> r == 0,
            self.spec_rates().len() > 0 ==> r == ceil_div(
                seq_sum(self.spec_rates()),
                self.spec_rates().len() as int,
            ),
    {
        let n = self.dirty_rates_pps.len();
        if n == 0 {
            return 0;
        }
        let ghost s = self.dirty_rates_pps@;
        let mut sum: u64 = 0;
        let mut i: usize = 0;
        while i < n
            invariant
                n == s.len(),
                s == self.dirty_rates_pps@,
                i <= n,
                sum == seq_sum(s.take(i as int)),
                seq_sum(s) <= u64::MAX,
            decreases n - i,
        {
            proof {
                lemma_seq_sum_prefix(s, i + 1);
                assert(s.take(i + 1).drop_last() == s.take(i as int));
            }
            sum = sum + self.dirty_rates_pps[i];
            i = i + 1;
        }
        assert(s.take(n as int) == s);
        let len = n as u64;
        let q = sum / len;
        if sum % len == 0 {
            q
        } else {
            proof {
                assert(len >= 2) by {
                    if len == 1 {
                        assert(sum % 1 == 0);
                    }
                }
                assert(q < 0xffff_ffff_ffff_ffffu64) by (nonlinear_arith)
                    requires
                        q == sum / len,
                        len >= 2,
                ;
            }
            q + 1
        }
    }

    /// The sum of the dirty rates, if it fits in a `u64`.
    pub fn dirty_rates_sum(&self) -> (r: Option<u64>)
        ensures
            seq_sum(self.spec_rates()) <= u64::MAX ==> r == Some(seq_sum(self.spec_rates()) as u64),
            seq_sum(self.spec_rates()) > u64::MAX ==> r == None::<u64>,
    {
        let ghost s = self.dirty_rates_pps@;
        let n = self.dirty_rates_pps.len();
        let mut sum: u64 = 0;
        let mut i: usize = 0;
        while i < n
            invariant
                n == s.len(),
                s == self.dirty_rates_pps@,
                i <= n,
                sum == seq_sum(s.take(i as int)),
            decreases n - i,
        {
            proof {
                assert(s.take(i + 1).drop_last() == s.take(i as int));
            }
            let v = self.dirty_rates_pps[i];
            if v > u64::MAX - sum {
                proof {
                    lemma_seq_sum_prefix(s, i + 1);
                }
                return None;
            }
            sum = sum + v;
            i = i + 1;
        }
        assert(s.take(n as int) == s);
        Some(sum)
    }

    /// Records the dirty rate of the latest cycle and merges the newly
    /// dirtied memory into the table.
    pub fn calc_metrics_and_update_table(&mut self, new_table: MemoryRangeTable, dirty_rate_pps: u64)
        requires
            old(self).wf(),
            ranges_fit(new_table@),
        ensures
            final(self).wf(),
            final(self).spec_stop() == old(self).spec_stop(),
            final(self).spec_rates() == if old(self).spec_rates().len() + 1 > spec_dirty_rate_vec_capacity() {
                (seq![dirty_rate_pps] + old(self).spec_rates()).drop_last()
            } else {
                seq![dirty_rate_pps] + old(self).spec_rates()
            },
            canonical(final(self).spec_table()),
            forall|x: int|
                #[trigger] touches(final(self).spec_table(), x) == (touches(
                    old(self).spec_table(),
                    x,
                ) || touches(new_table@, x)),
    {
        self.update_dirty_rate(dirty_rate_pps);
        self.table.merge_in_place(new_table);
    }

    /// What taking the table gives: the table, and the average of the dirty
    /// rates rounded up (0 where there is no rate).
    pub open spec fn spec_get_result(&self) -> (Seq<crate::memory_range_table::MemoryRange>, int) {
        (
            self.spec_table(),
            if self.spec_rates().len() == 0 {
                0
            } else {
                ceil_div(seq_sum(self.spec_rates()), self.spec_rates().len() as int)
            },
        )
    }

    /// Takes the table of memory dirtied since the last call, leaving an
    /// empty table, and returns it with the average dirty rate.
    pub fn get(&mut self) -> (r: (MemoryRangeTable, u64))
        requires
            old(self).wf(),
            seq_sum(old(self).spec_rates()) <= u64::MAX,
        ensures
            final(self).wf(),
            (r.0@, r.1 as int) == old(self).spec_get_result(),
            taken_from(*final(self), *old(self)),
            r.0@ == old(self).spec_table(),
            final(self).spec_table() == Seq::<crate::memory_range_table::MemoryRange>::empty(),
            final(self).spec_rates() == old(self).spec_rates(),
            final(self).spec_stop() == old(self).spec_stop(),
            old(self).spec_rates().len() == 0 ==> r.1 == 0,
            old(self).spec_rates().len() > 0 ==> r.1 == ceil_div(
                seq_sum(old(self).spec_rates()),
                old(self).spec_rates().len() as int,
            ),
    {
        let mut table = MemoryRangeTable::default();
        core::mem::swap(&mut table, &mut self.table);
        (table, self.average_dirty_rate_pps())
    }

    /// Asks the worker to stop.
    pub fn request_stop(&mut self)
        requires
            old(self).wf(),
        ensures
            final(self).wf(),
            final(self).spec_stop(),
            final(self).spec_rates() == old(self).spec_rates(),
            final(self).spec_table() == old(self).spec_table(),
    {
        self.stop = true;
    }

    /// Whether the worker was asked to stop.
    pub fn stop_requested(&self) -> (r: bool)
        ensures
            r == self.spec_stop(),
    {
        self.stop
    }
}

/// The number of dirty pages that a newly fetched table holds.
pub fn dirty_page_count(new_table: &MemoryRangeTable) -> (r: u64)
    requires
        total_length(new_table@) <= u64::MAX,
    ensures
        r == total_length(new_table@) / (PAGE_SIZE as int),
{
    new_table.effective_size() / PAGE_SIZE
}

/// `after` is what taking the table leaves of `before`: an empty table, the
/// same rates and the same stop request.
pub open spec fn taken_from(after: DirtyLogWorkerSharedState, before: DirtyLogWorkerSharedState) -> bool {
    &&& after.spec_table() == Seq::<crate::memory_range_table::MemoryRange>::empty()
    &&& after.spec_rates() == before.spec_rates()
    &&& after.spec_stop() == before.spec_stop()
}

/// Taking the table twice with no update in between: the second time gives
/// an empty table and the same average rate as the first, and leaves the
/// state as the first left it.
pub proof fn lemma_get_twice(
    s1: DirtyLogWorkerSharedState,
    s2: DirtyLogWorkerSharedState,
    s3: DirtyLogWorkerSharedState,
)
    requires
        taken_from(s2, s1),
        taken_from(s3, s2),
    ensures
        s2.spec_get_result() == (Seq::<crate::memory_range_table::MemoryRange>::empty(), s1.spec_get_result().1),
        s3.spec_table() == s2.spec_table(),
        s3.spec_rates() == s2.spec_rates(),
        s3.spec_stop() == s2.spec_stop(),
{
}

/// Where the dirty-log worker stands in its loop.
#[derive(Debug, Copy, Clone, PartialEq, Eq, Structural)]
pub enum WorkerPhase {
    /// Fetching the dirty log and updating the shared state.
    Sampling,
    /// Sleeping until the throttle time passed or a stop was requested.
    Waiting,
    /// Fetching the dirty log a last time, after a stop was requested.
    FinalSampling,
    /// The worker has exited.
    Exited,
}

/// What happened to the worker.
#[derive(Debug, PartialEq, Eq)]
pub enum WorkerEvent {
    /// The dirty log was fetched and the shared state updated.
    Updated,
    /// The worker woke up; `stop` tells whether a stop was requested.
    WokeUp { stop: bool },
    /// Fetching the dirty log failed.
    FetchFailed(MigratableError),
}

/// What the worker does next.
#[derive(Debug, PartialEq, Eq)]
pub enum WorkerAction {
    /// Fetch the latest dirty log and update the shared state.
    FetchAndUpdate,
    /// Sleep for the throttle time, or until a stop is requested.
    Wait,
    /// Leave the loop with this result.
    Exit(Result<(), MigratableError>),
}

/// The phase and action that follow `event` in `phase`.
pub open spec fn worker_step(phase: WorkerPhase, event: WorkerEvent) -> (WorkerPhase, WorkerAction) {
    match event {
        WorkerEvent::FetchFailed(e) => (WorkerPhase::Exited, WorkerAction::Exit(Err(e))),
        WorkerEvent::Updated => match phase {
            WorkerPhase::Sampling => (WorkerPhase::Waiting, WorkerAction::Wait),
            WorkerPhase::FinalSampling => (WorkerPhase::Exited, WorkerAction::Exit(Ok(()))),
            WorkerPhase::Waiting => (WorkerPhase::Waiting, WorkerAction::Wait),
            WorkerPhase::Exited => (WorkerPhase::Exited, WorkerAction::Exit(Ok(()))),
        },
        WorkerEvent::WokeUp { stop } => match phase {
            WorkerPhase::Waiting => if stop {
                (WorkerPhase::FinalSampling, WorkerAction::FetchAndUpdate)
            } else {
                (WorkerPhase::Sampling, WorkerAction::FetchAndUpdate)
            },
            WorkerPhase::Sampling => (WorkerPhase::Sampling, WorkerAction::FetchAndUpdate),
            WorkerPhase::FinalSampling => (WorkerPhase::FinalSampling, WorkerAction::FetchAndUpdate),
            WorkerPhase::Exited => (WorkerPhase::Exited, WorkerAction::Exit(Ok(()))),
        },
    }
}

/// The decisions of the dirty-log worker's loop: fetch and update, then
/// sleep; on waking up with a stop requested, fetch and update one last time
/// so that the final table is the freshest, then exit; exit with the error
/// as soon as a fetch fails.
pub struct DirtyLogWorker {
    phase: WorkerPhase,
}

impl DirtyLogWorker {
    pub closed spec fn spec_phase(&self) -> WorkerPhase {
        self.phase
    }

    /// A worker that starts by fetching the dirty log.
    pub fn new() -> (r: (Self, WorkerAction))
        ensures
            r.0.spec_phase() == WorkerPhase::Sampling,
            r.1 == WorkerAction::FetchAndUpdate,
    {
        (DirtyLogWorker { phase: WorkerPhase::Sampling }, WorkerAction::FetchAndUpdate)
    }

    /// Moves the worker on by one event and returns what it does next.
    pub fn on_event(&mut self, event: WorkerEvent) -> (r: WorkerAction)
        ensures
            (final(self).spec_phase(), r) == worker_step(old(self).spec_phase(), event),
    {
        match event {
            WorkerEvent::FetchFailed(e) => {
                self.phase = WorkerPhase::Exited;
                WorkerAction::Exit(Err(e))
            },
            WorkerEvent::Updated => match self.phase {
                WorkerPhase::Sampling => {
                    self.phase = WorkerPhase::Waiting;
                    WorkerAction::Wait
                },
                WorkerPhase::FinalSampling => {
                    self.phase = WorkerPhase::Exited;
                    WorkerAction::Exit(Ok(()))
                },
                WorkerPhase::Waiting => WorkerAction::Wait,
                WorkerPhase::Exited => WorkerAction::Exit(Ok(())),
            },
            WorkerEvent::WokeUp { stop } => match self.phase {
                WorkerPhase::Waiting => {
                    if stop {
                        self.phase = WorkerPhase::FinalSampling;
                    } else {
                        self.phase = WorkerPhase::Sampling;
                    }
                    WorkerAction::FetchAndUpdate
                },
                WorkerPhase::Sampling => WorkerAction::FetchAndUpdate,
                WorkerPhase::FinalSampling => WorkerAction::FetchAndUpdate,
                WorkerPhase::Exited => WorkerAction::Exit(Ok(())),
            },
        }
    }
}

/// The phase the worker is in after the first `i` events of `events`,
/// starting from [`DirtyLogWorker::new`].
pub open spec fn phase_after(events: Seq<WorkerEvent>, i: nat) -> WorkerPhase
    decreases i,
{
    if i == 0 {
        WorkerPhase::Sampling
    } else {
        worker_step(phase_after(events, (i - 1) as nat), events[i - 1]).0
    }
}

/// The action the worker takes after the first `i` events of `events`,
/// starting from [`DirtyLogWorker::new`].
pub open spec fn action_after(events: Seq<WorkerEvent>, i: nat) -> WorkerAction {
    if i == 0 {
        WorkerAction::FetchAndUpdate
    } else {
        worker_step(phase_after(events, (i - 1) as nat), events[i - 1]).1
    }
}

/// `event` is what carrying out `action` can give: a fetch is updated or
/// fails, a wait wakes up, and nothing follows an exit.
pub open spec fn answers(action: WorkerAction, event: WorkerEvent) -> bool {
    match action {
        WorkerAction::FetchAndUpdate => event is Updated || event is FetchFailed,
        WorkerAction::Wait => event is WokeUp,
        WorkerAction::Exit(_) => false,
    }
}

/// Each event of `events` is what carrying out the action before it gave.
pub open spec fn events_answer(events: Seq<WorkerEvent>) -> bool {
    forall|i: int| 0 <= i < events.len() ==> answers(#[trigger] action_after(events, i as nat), events[i])
}

/// The phase and the action go together: sampling fetches, waiting waits,
/// and an exited worker exits.
spec fn phase_fits_action(phase: WorkerPhase, action: WorkerAction) -> bool {
    match phase {
        WorkerPhase::Sampling => action == WorkerAction::FetchAndUpdate,
        WorkerPhase::Waiting => action == WorkerAction::Wait,
        WorkerPhase::FinalSampling => action == WorkerAction::FetchAndUpdate,
        WorkerPhase::Exited => action is Exit,
    }
}

proof fn lemma_phase_fits_action(events: Seq<WorkerEvent>, i: nat)
    requires
        events_answer(events),
        i <= events.len(),
    ensures
        phase_fits_action(phase_after(events, i), action_after(events, i)),
    decreases i,
{
    if i > 0 {
        lemma_phase_fits_action(events, (i - 1) as nat);
        assert(answers(action_after(events, (i - 1) as nat), events[i - 1]));
    }
}

/// The run of the worker's loop, whatever the events that carrying out its
/// actions gives: it exits with success only when the event before last was
/// a wake-up with a stop requested and the last a successful fetch, so
/// exactly one fetch follows the stop; a wake-up with a stop requested is
/// followed by one more fetch, and exit with success once that fetch
/// succeeded; a failed fetch makes it exit at once with the error.
pub proof fn lemma_worker_run(events: Seq<WorkerEvent>)
    requires
        events_answer(events),
    ensures
        forall|i: int|
            0 <= i < events.len() && #[trigger] action_after(events, (i + 1) as nat) == WorkerAction::Exit(
                Ok(()),
            ) ==> i >= 1 && events[i - 1] == (WorkerEvent::WokeUp { stop: true }) && events[i]
                == WorkerEvent::Updated,
        forall|i: int|
            0 <= i < events.len() && #[trigger] events[i] == (WorkerEvent::WokeUp { stop: true }) ==> {
                &&& action_after(events, (i + 1) as nat) == WorkerAction::FetchAndUpdate
                &&& i + 1 < events.len() && events[i + 1] == WorkerEvent::Updated ==> action_after(
                    events,
                    (i + 2) as nat,
                ) == WorkerAction::Exit(Ok(()))
            },
        forall|i: int|
            0 <= i < events.len() && #[trigger] events[i] is FetchFailed ==> action_after(
                events,
                (i + 1) as nat,
            ) == WorkerAction::Exit(Err(events[i]->0)),
{
    assert forall|i: int|
        0 <= i < events.len() && #[trigger] action_after(events, (i + 1) as nat) == WorkerAction::Exit(
            Ok(()),
        ) implies i >= 1 && events[i - 1] == (WorkerEvent::WokeUp { stop: true }) && events[i]
        == WorkerEvent::Updated by {
        lemma_phase_fits_action(events, i as nat);
        assert(answers(action_after(events, i as nat), events[i]));
        if i >= 1 {
            lemma_phase_fits_action(events, (i - 1) as nat);
            assert(answers(action_after(events, (i - 1) as nat), events[i - 1]));
        }
    }
    assert forall|i: int|
        0 <= i < events.len() && #[trigger] events[i] == (WorkerEvent::WokeUp { stop: true }) implies {
            &&& action_after(events, (i + 1) as nat) == WorkerAction::FetchAndUpdate
            &&& i + 1 < events.len() && events[i + 1] == WorkerEvent::Updated ==> action_after(
                events,
                (i + 2) as nat,
            ) == WorkerAction::Exit(Ok(()))
        } by {
        lemma_phase_fits_action(events, i as nat);
        assert(answers(action_after(events, i as nat), events[i]));
    }
}

} // verus!
