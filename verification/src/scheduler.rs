use vstd::prelude::*;

use crate::errors::SyncError;

verus! {

/// The bounded-concurrency worker pool, as a state machine over counters.
///
/// A fixed pool of `limit` workers consumes the jobs `0, 1, ..., total - 1`
/// of a flattened batch. An idle worker claims the next unclaimed job;
/// a worker whose job fails terminates its own loop and claims nothing
/// further; a worker that finds the queue drained retires. The driver that
/// owns the pool performs the transfers and reports each outcome back.
#[derive(Debug, Clone, Copy, PartialEq, Eq, Structural)]
pub struct Scheduler {
    /// The number of jobs in the batch.
    pub total: usize,
    /// How many jobs have been claimed so far (also the index of the next
    /// unclaimed job).
    pub next: usize,
    /// How many jobs are executing right now.
    pub active: usize,
    /// How many workers are still alive.
    pub workers: usize,
    /// The pool size P: true parallelism never exceeds it.
    pub limit: usize,
    /// How many jobs finished successfully (skips included).
    pub completed: usize,
    /// How many jobs failed (each failure also terminated its worker).
    pub failed: usize,
    /// The first error observed across all workers.
    pub first_error: Option<SyncError>,
}

impl Scheduler {
    /// The pool's invariant. In particular, the number of jobs executing
    /// concurrently never exceeds the number of live workers, which never
    /// exceeds the pool size.
    pub open spec fn wf(self) -> bool {
        &&& 1 <= self.limit
        &&& self.workers <= self.limit
        &&& self.active <= self.workers
        &&& self.next <= self.total
        &&& self.completed + self.failed + self.active == self.next
        &&& (self.first_error is Some <==> self.failed > 0)
        &&& (self.workers < self.limit && self.first_error is None ==> self.next == self.total)
    }

    /// A fresh pool of `limit` workers over a batch of `total` jobs.
    pub fn new(total: usize, limit: usize) -> (r: Scheduler)
        requires
            1 <= limit,
        ensures
            r.wf(),
            r == (Scheduler {
                total,
                next: 0,
                active: 0,
                workers: limit,
                limit,
                completed: 0,
                failed: 0,
                first_error: None,
            }),
    {
        Scheduler {
            total,
            next: 0,
            active: 0,
            workers: limit,
            limit,
            completed: 0,
            failed: 0,
            first_error: None,
        }
    }

    /// An idle worker asks for work: it receives the next unclaimed job's
    /// index, or retires if the queue has drained. Each job index is handed
    /// out at most once, because `next` only ever grows.
    pub fn claim(&mut self) -> (r: Option<usize>)
        requires
            old(self).wf(),
            old(self).active < old(self).workers,
        ensures
            final(self).wf(),
            final(self).active <= final(self).limit,
            match r {
                Some(i) => {
                    &&& i == old(self).next
                    &&& i < old(self).total
                    &&& *final(self) == (Scheduler {
                        next: (old(self).next + 1) as usize,
                        active: (old(self).active + 1) as usize,
                        ..*old(self)
                    })
                },
                None => {
                    &&& old(self).next == old(self).total
                    &&& *final(self) == (Scheduler {
                        workers: (old(self).workers - 1) as usize,
                        ..*old(self)
                    })
                },
            },
    {
        if self.next < self.total {
            let i = self.next;
            self.next = self.next + 1;
            self.active = self.active + 1;
            Some(i)
        } else {
            self.workers = self.workers - 1;
            None
        }
    }

    /// A worker reports the outcome of the job it was executing. On
    /// success the worker goes idle again; on failure it terminates its own
    /// loop, and the error is kept if it was the first.
    pub fn finish(&mut self, outcome: Result<(), SyncError>)
        requires
            old(self).wf(),
            old(self).active >= 1,
        ensures
            final(self).wf(),
            final(self).active <= final(self).limit,
            match outcome {
                Ok(()) => *final(self) == (Scheduler {
                    active: (old(self).active - 1) as usize,
                    completed: (old(self).completed + 1) as usize,
                    ..*old(self)
                }),
                Err(e) => *final(self) == (Scheduler {
                    active: (old(self).active - 1) as usize,
                    failed: (old(self).failed + 1) as usize,
                    workers: (old(self).workers - 1) as usize,
                    first_error: match old(self).first_error {
                        Some(first) => Some(first),
                        None => Some(e),
                    },
                    ..*old(self)
                }),
            },
    {
        match outcome {
            Ok(()) => {
                self.active = self.active - 1;
                self.completed = self.completed + 1;
            },
            Err(e) => {
                self.active = self.active - 1;
                self.failed = self.failed + 1;
                self.workers = self.workers - 1;
                if self.first_error.is_none() {
                    self.first_error = Some(e);
                }
            },
        }
    }

    /// Whether the pool still has live workers.
    pub fn is_drained(&self) -> (r: bool)
        ensures
            r == (self.workers == 0),
    {
        self.workers == 0
    }

    /// The batch's overall outcome, once every worker has exited: the first
    /// error observed across all workers, or the number of jobs completed.
    /// Success implies that every job of the batch was claimed and finished.
    pub fn batch_result(&self) -> (r: Result<usize, SyncError>)
        requires
            self.wf(),
            self.workers == 0,
        ensures
            match self.first_error {
                Some(e) => r == Result::<usize, SyncError>::Err(e),
                None => r == Result::<usize, SyncError>::Ok(self.completed)
                    && self.completed == self.total,
            },
    {
        match self.first_error {
            Some(e) => Err(e),
            None => Ok(self.completed),
        }
    }
}

/// True parallelism never exceeds the pool size: in every reachable pool
/// state, the number of jobs executing concurrently is at most `limit`.
pub proof fn lemma_bounded_concurrency(s: Scheduler)
    requires
        s.wf(),
    ensures
        s.active <= s.limit,
{
}

} // verus!
