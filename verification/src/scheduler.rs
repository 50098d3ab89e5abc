//! The job scheduler's counters and decisions. The pending-job estimate is
//! advisory: notifications raise it, a periodic reconciliation replaces it
//! with an authoritative count, a claim miss resets it to zero. The in-flight
//! count is bounded by the configured concurrency limit: a task is spawned
//! only below the limit, and finishing a task always frees its slot. The
//! control loop itself — sleeping, listening, spawning — is the surrounding
//! program's work; every counter move goes through these transitions.

use vstd::prelude::*;

verus! {

/// Seconds between authoritative recounts of the pending jobs.
pub const RECONCILE_INTERVAL_SECS: u64 = 300;

/// The scheduler's counters: the advisory pending-job estimate, the number
/// of in-flight file-processing tasks, and the configured concurrency limit.
pub struct Scheduler {
    pub pending: u64,
    pub in_flight: u64,
    pub limit: u64,
}

/// Every way the counters may move.
pub enum SchedulerEvent {
    /// A push notification: one more file was inserted.
    FileInserted,
    /// The periodic reconciliation read this authoritative count.
    Reconciled(u64),
    /// A task found no file to claim: the queue is empty.
    ClaimMissed,
    /// A processing task was dispatched to a free slot.
    TaskSpawned,
    /// A processing task ended, successfully or not.
    TaskFinished,
}

impl Scheduler {
    /// The bound the scheduler maintains: never more in-flight tasks than
    /// the configured limit.
    pub open spec fn wf(&self) -> bool {
        self.in_flight <= self.limit
    }
}

/// How one event moves the counters. Spawning moves them only when a job is
/// pending and a slot is free; finishing a task never drops the in-flight
/// count below zero.
pub open spec fn scheduler_step(s: Scheduler, e: SchedulerEvent) -> Scheduler {
    match e {
        SchedulerEvent::FileInserted => Scheduler {
            pending: if s.pending < u64::MAX {
                (s.pending + 1) as u64
            } else {
                s.pending
            },
            ..s
        },
        SchedulerEvent::Reconciled(n) => Scheduler { pending: n, ..s },
        SchedulerEvent::ClaimMissed => Scheduler { pending: 0, ..s },
        SchedulerEvent::TaskSpawned => if s.pending > 0 && s.in_flight < s.limit {
            Scheduler { pending: (s.pending - 1) as u64, in_flight: (s.in_flight + 1) as u64, ..s }
        } else {
            s
        },
        SchedulerEvent::TaskFinished => Scheduler {
            in_flight: if s.in_flight > 0 {
                (s.in_flight - 1) as u64
            } else {
                0
            },
            ..s
        },
    }
}

/// The counters after a whole sequence of events.
pub open spec fn scheduler_run(s: Scheduler, es: Seq<SchedulerEvent>) -> Scheduler
    decreases es.len(),
{
    if es.len() == 0 {
        s
    } else {
        scheduler_run(scheduler_step(s, es[0]), es.drop_first())
    }
}

/// No single event moves the in-flight count past the limit, and no event
/// changes the limit.
pub proof fn lemma_step_respects_limit(s: Scheduler, e: SchedulerEvent)
    requires
        s.wf(),
    ensures
        scheduler_step(s, e).wf(),
        scheduler_step(s, e).limit == s.limit,
{
}

/// However many events arrive, in whatever order — a burst of simultaneous
/// file insertions included — the in-flight count never exceeds the
/// configured concurrency limit.
pub proof fn lemma_limit_never_exceeded(s: Scheduler, es: Seq<SchedulerEvent>)
    requires
        s.wf(),
    ensures
        scheduler_run(s, es).wf(),
        scheduler_run(s, es).in_flight <= s.limit,
    decreases es.len(),
{
    if es.len() > 0 {
        lemma_step_respects_limit(s, es[0]);
        lemma_limit_never_exceeded(scheduler_step(s, es[0]), es.drop_first());
    }
}

impl Scheduler {
    /// A scheduler that starts with the authoritative pending count, no
    /// in-flight tasks, and the configured concurrency limit.
    pub fn new(limit: u64, initial_pending: u64) -> (r: Scheduler)
        ensures
            r.pending == initial_pending,
            r.in_flight == 0,
            r.limit == limit,
            r.wf(),
    {
        Scheduler { pending: initial_pending, in_flight: 0, limit }
    }

    /// A push notification arrived: one more file to process.
    pub fn file_inserted(&mut self)
        ensures
            *final(self) == scheduler_step(*old(self), SchedulerEvent::FileInserted),
    {
        if self.pending < u64::MAX {
            self.pending = self.pending + 1;
        }
    }

    /// Replace the estimate with an authoritative count.
    pub fn reconciled(&mut self, count: u64)
        ensures
            *final(self) == scheduler_step(*old(self), SchedulerEvent::Reconciled(count)),
    {
        self.pending = count;
    }

    /// A task found nothing to claim: the queue is empty.
    pub fn claim_missed(&mut self)
        ensures
            *final(self) == scheduler_step(*old(self), SchedulerEvent::ClaimMissed),
    {
        self.pending = 0;
    }

    /// Whether a task may be dispatched now: a job is pending and a slot is
    /// free.
    pub fn can_spawn(&self) -> (r: bool)
        ensures
            r == (self.pending > 0 && self.in_flight < self.limit),
    {
        self.pending > 0 && self.in_flight < self.limit
    }

    /// Dispatch one task to a free slot.
    pub fn task_spawned(&mut self)
        requires
            old(self).pending > 0,
            old(self).in_flight < old(self).limit,
        ensures
            *final(self) == scheduler_step(*old(self), SchedulerEvent::TaskSpawned),
            final(self).wf(),
    {
        self.pending = self.pending - 1;
        self.in_flight = self.in_flight + 1;
    }

    /// A task ended, successfully or not: its slot is free again. This must
    /// run on every completion path, so the pool never loses capacity.
    pub fn task_finished(&mut self)
        ensures
            *final(self) == scheduler_step(*old(self), SchedulerEvent::TaskFinished),
            old(self).wf() ==> final(self).wf(),
    {
        if self.in_flight > 0 {
            self.in_flight = self.in_flight - 1;
        }
    }

    /// Whether the control loop should sleep instead of polling: nothing is
    /// pending while capacity is still free.
    pub fn should_sleep(&self) -> (r: bool)
        ensures
            r == (self.pending == 0 && self.in_flight < self.limit),
    {
        self.pending == 0 && self.in_flight < self.limit
    }
}

/// Whether the periodic reconciliation is due.
pub fn needs_reconcile(elapsed_secs: u64) -> (r: bool)
    ensures
        r == (elapsed_secs > RECONCILE_INTERVAL_SECS),
{
    elapsed_secs > RECONCILE_INTERVAL_SECS
}

} // verus!
