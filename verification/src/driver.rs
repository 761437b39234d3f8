//! The decisions of a worker's loop: when to drain the input, when to let
//! the closure catch up, when to report a phase and wait, and when to leave.
//! The loop itself, with its channels and clocks, belongs to the caller: it
//! performs each action and reports back what happened.

use crate::model::types::{RuntimeLog, Triple, Update};
use vstd::prelude::*;

verus! {

/// Where the loop stands.
#[derive(Clone, Copy, PartialEq, Eq, Structural, Debug)]
pub enum Phase {
    /// Looking at the input channels.
    Ingest,
    /// A batch was taken; the closure is catching up.
    Step,
    /// A phase was reported; waiting for the command.
    PhaseSync,
    /// The command was to stop; the last input is being taken.
    FinalFlush,
    /// Done.
    Exit,
}

/// What the caller reports.
#[derive(Clone, Copy, PartialEq, Eq, Structural, Debug)]
pub enum Event {
    /// So many updates wait in the input channel of the terminology box, and so many in that of the assertion box.
    Pending(usize, usize),
    /// A batch was drained and ingested: so many assertions, so many retractions, in so many milliseconds.
    Ingested(usize, usize, u128),
    /// The closure has caught up with the last batch.
    Stepped,
    /// The command that answers a report: to stop, or to go on.
    Command(bool),
}

/// What the caller is to do next.
#[derive(Clone, Copy, PartialEq, Eq, Structural, Debug)]
pub enum Action {
    /// Look at the input channels and report what is pending.
    Poll,
    /// Drain both input channels into one batch, ingest it under the next epoch, and report it.
    Drain,
    /// Let the closure catch up, then report that it did.
    Step,
    /// Send this record and the done signal, then wait for the command and report it.
    Report(usize, u128, usize, usize, usize),
    /// Keep waiting for the command.
    Wait,
    /// Close the inputs and leave.
    Close,
}

/// The state of a worker's loop.
#[derive(Clone, Copy, PartialEq, Eq, Structural, Debug)]
pub struct Driver {
    pub phase: Phase,
    /// The size of a full batch.
    pub batch_size: usize,
    /// How many polls a batch that is not full may wait before it is taken all the same.
    pub patience: usize,
    /// How many polls the pending batch has waited.
    pub idle: usize,
    /// Something was ingested since the last report.
    pub dirty: bool,
    /// This worker's number.
    pub worker: usize,
    /// How many phases were reported.
    pub files_loaded: usize,
    /// Milliseconds spent ingesting in this phase.
    pub latency: u128,
    /// Assertions ingested in this phase.
    pub added: usize,
    /// Retractions ingested in this phase.
    pub removed: usize,
    /// Milliseconds spent ingesting in all.
    pub total_latency: u128,
    /// Assertions ingested in all.
    pub total_added: usize,
    /// Batches ingested in all.
    pub rounds: usize,
}

/// The sum, or the largest value where the sum does not fit.
pub open spec fn capped(a: int, b: int, max: int) -> int {
    if a + b > max {
        max
    } else {
        a + b
    }
}

/// The sum of two counters, held at the largest value.
pub fn count(a: usize, b: usize) -> (c: usize)
    ensures
        c == capped(a as int, b as int, usize::MAX as int),
{
    if a > usize::MAX - b {
        usize::MAX
    } else {
        a + b
    }
}

/// The sum of two times, held at the largest value.
pub fn elapse(a: u128, b: u128) -> (c: u128)
    ensures
        c == capped(a as int, b as int, u128::MAX as int),
{
    if a > u128::MAX - b {
        u128::MAX
    } else {
        a + b
    }
}

impl Driver {
    /// A full batch waits in one of the channels.
    pub open spec fn full(&self, tbox: usize, abox: usize) -> bool {
        (tbox > 0 && tbox >= self.batch_size) || (abox > 0 && abox >= self.batch_size)
    }

    /// The driver as it is after taking note of an ingested batch.
    pub open spec fn noting(&self, added: usize, removed: usize, millis: u128) -> Driver {
        Driver {
            idle: 0,
            dirty: true,
            latency: capped(self.latency as int, millis as int, u128::MAX as int) as u128,
            added: capped(self.added as int, added as int, usize::MAX as int) as usize,
            removed: capped(self.removed as int, removed as int, usize::MAX as int) as usize,
            total_latency: capped(
                self.total_latency as int,
                millis as int,
                u128::MAX as int,
            ) as u128,
            total_added: capped(self.total_added as int, added as int, usize::MAX as int) as usize,
            rounds: capped(self.rounds as int, 1, usize::MAX as int) as usize,
            ..*self
        }
    }

    /// The state and the action that follow an event.
    pub open spec fn react(&self, event: Event) -> (Driver, Action) {
        match self.phase {
            Phase::Ingest => match event {
                Event::Pending(tbox, abox) => {
                    if self.full(tbox, abox) || ((tbox > 0 || abox > 0) && self.idle
                        >= self.patience) {
                        (Driver { phase: Phase::Step, idle: 0, ..*self }, Action::Drain)
                    } else if tbox > 0 || abox > 0 {
                        (Driver { idle: (self.idle + 1) as usize, ..*self }, Action::Poll)
                    } else if self.dirty {
                        (
                            Driver { phase: Phase::PhaseSync, idle: 0, ..*self },
                            Action::Report(
                                self.files_loaded,
                                self.latency,
                                self.added,
                                self.removed,
                                self.worker,
                            ),
                        )
                    } else {
                        (Driver { idle: 0, ..*self }, Action::Poll)
                    }
                },
                _ => (*self, Action::Poll),
            },
            Phase::Step => match event {
                Event::Ingested(added, removed, millis) => (
                    self.noting(added, removed, millis),
                    Action::Step,
                ),
                Event::Stepped => (Driver { phase: Phase::Ingest, ..*self }, Action::Poll),
                _ => (*self, Action::Step),
            },
            Phase::PhaseSync => match event {
                Event::Command(stop) => {
                    let files = capped(self.files_loaded as int, 1, usize::MAX as int) as usize;
                    if stop {
                        (
                            Driver { phase: Phase::FinalFlush, files_loaded: files, ..*self },
                            Action::Drain,
                        )
                    } else {
                        (
                            Driver {
                                phase: Phase::Ingest,
                                files_loaded: files,
                                dirty: false,
                                latency: 0,
                                added: 0,
                                removed: 0,
                                ..*self
                            },
                            Action::Poll,
                        )
                    }
                },
                _ => (*self, Action::Wait),
            },
            Phase::FinalFlush => match event {
                Event::Ingested(added, removed, millis) => (
                    self.noting(added, removed, millis),
                    Action::Step,
                ),
                Event::Stepped => (Driver { phase: Phase::Exit, ..*self }, Action::Close),
                _ => (*self, Action::Step),
            },
            Phase::Exit => (*self, Action::Close),
        }
    }

    /// The driver of worker number `worker` before its first poll.
    pub fn new(batch_size: usize, patience: usize, worker: usize) -> (d: Driver)
        ensures
            d == (Driver {
                phase: Phase::Ingest,
                batch_size,
                patience,
                idle: 0,
                dirty: false,
                worker,
                files_loaded: 0,
                latency: 0,
                added: 0,
                removed: 0,
                total_latency: 0,
                total_added: 0,
                rounds: 0,
            }),
    {
        Driver {
            phase: Phase::Ingest,
            batch_size,
            patience,
            idle: 0,
            dirty: false,
            worker,
            files_loaded: 0,
            latency: 0,
            added: 0,
            removed: 0,
            total_latency: 0,
            total_added: 0,
            rounds: 0,
        }
    }

    fn note(&mut self, added: usize, removed: usize, millis: u128)
        ensures
            *final(self) == old(self).noting(added, removed, millis),
    {
        self.idle = 0;
        self.dirty = true;
        self.latency = elapse(self.latency, millis);
        self.added = count(self.added, added);
        self.removed = count(self.removed, removed);
        self.total_latency = elapse(self.total_latency, millis);
        self.total_added = count(self.total_added, added);
        self.rounds = count(self.rounds, 1);
    }

    /// Takes an event and says what to do next.
    pub fn next(&mut self, event: Event) -> (action: Action)
        ensures
            (*final(self), action) == old(self).react(event),
    {
        match self.phase {
            Phase::Ingest => match event {
                Event::Pending(tbox, abox) => {
                    let full = (tbox > 0 && tbox >= self.batch_size) || (abox > 0 && abox
                        >= self.batch_size);
                    let some = tbox > 0 || abox > 0;
                    if full || (some && self.idle >= self.patience) {
                        self.phase = Phase::Step;
                        self.idle = 0;
                        Action::Drain
                    } else if some {
                        self.idle = self.idle + 1;
                        Action::Poll
                    } else if self.dirty {
                        self.phase = Phase::PhaseSync;
                        self.idle = 0;
                        Action::Report(
                            self.files_loaded,
                            self.latency,
                            self.added,
                            self.removed,
                            self.worker,
                        )
                    } else {
                        self.idle = 0;
                        Action::Poll
                    }
                },
                _ => Action::Poll,
            },
            Phase::Step => match event {
                Event::Ingested(added, removed, millis) => {
                    self.note(added, removed, millis);
                    Action::Step
                },
                Event::Stepped => {
                    self.phase = Phase::Ingest;
                    Action::Poll
                },
                _ => Action::Step,
            },
            Phase::PhaseSync => match event {
                Event::Command(stop) => {
                    self.files_loaded = count(self.files_loaded, 1);
                    if stop {
                        self.phase = Phase::FinalFlush;
                        Action::Drain
                    } else {
                        self.phase = Phase::Ingest;
                        self.dirty = false;
                        self.latency = 0;
                        self.added = 0;
                        self.removed = 0;
                        Action::Poll
                    }
                },
                _ => Action::Wait,
            },
            Phase::FinalFlush => match event {
                Event::Ingested(added, removed, millis) => {
                    self.note(added, removed, millis);
                    Action::Step
                },
                Event::Stepped => {
                    self.phase = Phase::Exit;
                    Action::Close
                },
                _ => Action::Step,
            },
            Phase::Exit => Action::Close,
        }
    }

    /// The record of the phase that is about to be reported.
    pub fn record(&self) -> (log: RuntimeLog)
        ensures
            log.file == self.files_loaded,
            log.latency == self.latency,
            log.added == self.added,
            log.removed == self.removed,
            log.worker == self.worker,
    {
        RuntimeLog::new(self.files_loaded, self.latency, self.added, self.removed, self.worker)
    }
}

/// Waiting never exceeds the patience.
pub proof fn lemma_idle_within_patience(d: Driver, event: Event)
    requires
        d.idle <= d.patience,
    ensures
        d.react(event).0.idle <= d.react(event).0.patience,
        d.react(event).0.patience == d.patience,
        d.react(event).0.batch_size == d.batch_size,
        d.react(event).0.worker == d.worker,
{
}

/// Once the loop has left, it stays out: every event is answered with `Close`.
pub proof fn lemma_exit_is_final(d: Driver, event: Event)
    requires
        d.phase == Phase::Exit,
    ensures
        d.react(event) == (d, Action::Close),
{
}

/// A phase is reported only when both channels are empty and something was
/// ingested since the last report, and the report carries the counters of that phase.
pub proof fn lemma_report_means_drained(d: Driver, event: Event)
    requires
        d.react(event).1 is Report,
    ensures
        d.phase == Phase::Ingest,
        event == Event::Pending(0, 0),
        d.dirty,
        d.react(event).1 == Action::Report(
            d.files_loaded,
            d.latency,
            d.added,
            d.removed,
            d.worker,
        ),
        d.react(event).0.phase == Phase::PhaseSync,
{
}

/// A full batch is taken at once.
pub proof fn lemma_full_batch_is_taken(d: Driver, tbox: usize, abox: usize)
    requires
        d.phase == Phase::Ingest,
        d.full(tbox, abox),
    ensures
        d.react(Event::Pending(tbox, abox)).1 == Action::Drain,
        d.react(Event::Pending(tbox, abox)).0.phase == Phase::Step,
{
}

/// The `k`-th state when the same pending counts are reported again and again.
pub open spec fn after_polls(d: Driver, tbox: usize, abox: usize, k: nat) -> Driver
    decreases k,
{
    if k == 0 {
        d
    } else {
        after_polls(d, tbox, abox, (k - 1) as nat).react(Event::Pending(tbox, abox)).0
    }
}

/// No batch starves: a batch that is not full is taken after at most
/// `patience` polls that found it waiting.
pub proof fn lemma_partial_batch_is_taken(d: Driver, tbox: usize, abox: usize)
    requires
        d.phase == Phase::Ingest,
        tbox > 0 || abox > 0,
        d.idle <= d.patience,
    ensures
        ({
            let last = after_polls(d, tbox, abox, (d.patience - d.idle) as nat);
            last.phase == Phase::Step || last.react(Event::Pending(tbox, abox)).1 == Action::Drain
        }),
{
    lemma_polls(d, tbox, abox, (d.patience - d.idle) as nat);
}

proof fn lemma_polls(d: Driver, tbox: usize, abox: usize, k: nat)
    requires
        d.phase == Phase::Ingest,
        tbox > 0 || abox > 0,
        d.idle + k <= d.patience,
    ensures
        ({
            let s = after_polls(d, tbox, abox, k);
            s.patience == d.patience && s.batch_size == d.batch_size && (s.phase == Phase::Step || (
            s.phase == Phase::Ingest && s.idle == d.idle + k))
        }),
    decreases k,
{
    if k > 0 {
        lemma_polls(d, tbox, abox, (k - 1) as nat);
    }
}

/// A command to stop leads out: the last input is taken, the closure
/// catches up, and the loop leaves.
pub proof fn lemma_stop_leads_out(d: Driver, added: usize, removed: usize, millis: u128)
    requires
        d.phase == Phase::PhaseSync,
    ensures
        ({
            let (flushing, first) = d.react(Event::Command(true));
            let (noted, second) = flushing.react(Event::Ingested(added, removed, millis));
            let (gone, third) = noted.react(Event::Stepped);
            first == Action::Drain && second == Action::Step && third == Action::Close && gone.phase
                == Phase::Exit
        }),
{
}

/// The batches of a run: all of the assertion box at once, or, where
/// `cutoff` splits it, the part before the cutoff, then the rest, then the
/// rest again as retractions.
pub open spec fn phases_of(abox: Seq<Triple>, cutoff: int) -> Seq<Seq<Update>> {
    if 0 < cutoff < abox.len() {
        seq![
            Seq::new(cutoff as nat, |i: int| (abox[i], 1i64)),
            Seq::new((abox.len() - cutoff) as nat, |i: int| (abox[cutoff + i], 1i64)),
            Seq::new((abox.len() - cutoff) as nat, |i: int| (abox[cutoff + i], -1i64)),
        ]
    } else {
        seq![Seq::new(abox.len(), |i: int| (abox[i], 1i64))]
    }
}

/// The updates `(abox[i], weight)` for `i` in `from..to`.
fn slice_updates(abox: &Vec<Triple>, from: usize, to: usize, weight: i64) -> (r: Vec<Update>)
    requires
        from <= to <= abox@.len(),
    ensures
        r@ == Seq::new((to - from) as nat, |i: int| (abox@[from + i], weight)),
{
    let mut r: Vec<Update> = Vec::new();
    let mut i = from;
    while i < to
        invariant
            from <= i <= to <= abox@.len(),
            r@ == Seq::new((i - from) as nat, |k: int| (abox@[from + k], weight)),
        decreases to - i,
    {
        r.push((abox[i], weight));
        i += 1;
        assert(r@ =~= Seq::new((i - from) as nat, |k: int| (abox@[from + k], weight)));
    }
    r
}

/// The batches of a run over `abox` with the given cutoff.
pub fn phases(abox: &Vec<Triple>, cutoff: usize) -> (r: Vec<Vec<Update>>)
    ensures
        r@.len() == phases_of(abox@, cutoff as int).len(),
        forall|k: int| 0 <= k < r@.len() ==> (#[trigger] r@[k])@ == phases_of(abox@, cutoff as int)[k],
{
    let n = abox.len();
    let mut r: Vec<Vec<Update>> = Vec::new();
    if 0 < cutoff && cutoff < n {
        let head = slice_updates(abox, 0, cutoff, 1);
        let more = slice_updates(abox, cutoff, n, 1);
        let less = slice_updates(abox, cutoff, n, -1);
        proof {
            assert(head@ =~= phases_of(abox@, cutoff as int)[0]);
            assert(more@ =~= phases_of(abox@, cutoff as int)[1]);
            assert(less@ =~= phases_of(abox@, cutoff as int)[2]);
        }
        r.push(head);
        r.push(more);
        r.push(less);
    } else {
        let all = slice_updates(abox, 0, n, 1);
        proof {
            assert(all@ =~= phases_of(abox@, cutoff as int)[0]);
        }
        r.push(all);
    }
    r
}

/// How many updates of a batch do not assert: their change is zero or less.
pub open spec fn retractions(batch: Seq<Update>) -> nat
    decreases batch.len(),
{
    if batch.len() == 0 {
        0
    } else {
        retractions(batch.drop_last()) + if batch.last().1 <= 0 {
            1nat
        } else {
            0nat
        }
    }
}

/// What a drained batch counts for in the record of its phase: first what
/// it added, then what it took away. Every update of the terminology box
/// counts as added; an update of the assertion box counts as added where
/// its change is above zero, else as taken away.
pub fn tally(tbox_batch: &Vec<Update>, abox_batch: &Vec<Update>) -> (r: (usize, usize))
    ensures
        r.1 == retractions(abox_batch@),
        r.0 == capped(
            tbox_batch@.len() as int,
            abox_batch@.len() - retractions(abox_batch@),
            usize::MAX as int,
        ),
{
    let mut removed: usize = 0;
    let mut i: usize = 0;
    while i < abox_batch.len()
        invariant
            i <= abox_batch.len(),
            removed == retractions(abox_batch@.take(i as int)),
            removed <= i,
        decreases abox_batch.len() - i,
    {
        proof {
            assert(abox_batch@.take(i + 1).drop_last() =~= abox_batch@.take(i as int));
        }
        if abox_batch[i].1 <= 0 {
            removed = removed + 1;
        }
        i += 1;
    }
    assert(abox_batch@.take(abox_batch@.len() as int) =~= abox_batch@);
    (count(tbox_batch.len(), abox_batch.len() - removed), removed)
}

/// Whether the worker of this number keeps the closure of its process: the
/// first of the `threads` workers of a process does.
pub fn keeps_closure(index: usize, threads: usize) -> (b: bool)
    ensures
        b == (threads == 0 || index % threads == 0),
{
    threads == 0 || index % threads == 0
}

/// The records of one phase for the workers of a process: that of the
/// worker that keeps the closure with what the phase counted, and one for
/// each other worker of the process with nothing counted.
pub fn phase_records(
    file: usize,
    latency: u128,
    added: usize,
    removed: usize,
    worker: usize,
    threads: usize,
) -> (logs: Vec<RuntimeLog>)
    ensures
        logs@.len() == if threads == 0 {
            1
        } else {
            threads as int
        },
        logs@[0].file == file && logs@[0].latency == latency && logs@[0].added == added
            && logs@[0].removed == removed && logs@[0].worker == worker,
        forall|i: int|
            1 <= i < logs@.len() ==> (#[trigger] logs@[i]).file == file && logs@[i].latency == 0
                && logs@[i].added == 0 && logs@[i].removed == 0 && logs@[i].worker == capped(
                worker as int,
                i,
                usize::MAX as int,
            ),
{
    let mut logs: Vec<RuntimeLog> = Vec::new();
    logs.push(RuntimeLog::new(file, latency, added, removed, worker));
    let n: usize = if threads == 0 {
        1
    } else {
        threads
    };
    let mut i: usize = 1;
    while i < n
        invariant
            1 <= i <= n,
            logs@.len() == i,
            logs@[0].file == file && logs@[0].latency == latency && logs@[0].added == added
                && logs@[0].removed == removed && logs@[0].worker == worker,
            forall|k: int|
                1 <= k < logs@.len() ==> (#[trigger] logs@[k]).file == file && logs@[k].latency
                    == 0 && logs@[k].added == 0 && logs@[k].removed == 0 && logs@[k].worker
                    == capped(worker as int, k, usize::MAX as int),
        decreases n - i,
    {
        logs.push(RuntimeLog::new(file, 0, 0, 0, count(worker, i)));
        i += 1;
    }
    logs
}

} // verus!
