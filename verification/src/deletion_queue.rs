//! Deletion-queue executor logic: coalesce individual remote-object
//! deletions into larger batches. The executor accumulates up to
//! [`MAX_KEYS_PER_DELETE`] keys, asks the driver to execute a batch when
//! it fills (or on the driver's own flush cadence), retries failed
//! executions, and reports a cooperative shutdown when it may not have
//! flushed everything.

use vstd::prelude::*;

verus! {

/// The largest number of keys one remote delete call may carry.
pub const MAX_KEYS_PER_DELETE: usize = 1000;

/// Why a flush ended without emptying the accumulator.
#[derive(Clone, Copy, PartialEq, Eq, Structural, Debug)]
pub enum DeletionQueueError {
    ShuttingDown,
}

/// What the flush loop must do next.
#[derive(Clone, Copy, PartialEq, Eq, Debug)]
pub enum FlushStep {
    /// Execute the accumulated batch remotely, then report the outcome
    /// with [`ExecutorWorker::on_flush_result`] and ask again.
    Execute,
    /// The loop is over: everything flushed, or shutting down with work
    /// possibly left behind.
    Finished { result: Result<(), DeletionQueueError> },
}

/// What the ingest loop must do next.
#[derive(Clone, Copy, PartialEq, Eq, Structural, Debug)]
pub enum IngestStep {
    /// The accumulator is full: run a flush loop, then step again.
    NeedsFlush,
    /// Keys were moved into the accumulator: step again.
    Advanced,
    /// The incoming list is drained and the accumulator is below its cap.
    Done,
}

/// Non-persistent deletion queue executor, for coalescing multiple object
/// deletes into larger requests. The remote calls and the channel live
/// with the driver; this holds the accumulator and makes every decision.
#[derive(Debug)]
pub struct ExecutorWorker {
    /// Up to [`MAX_KEYS_PER_DELETE`] keys for the next deletion call.
    pub accumulator: Vec<String>,
}

impl ExecutorWorker {
    pub open spec fn wf(&self) -> bool {
        self.accumulator@.len() <= MAX_KEYS_PER_DELETE
    }

    pub fn new() -> (r: Self)
        ensures
            r.wf(),
            r.accumulator@ == Seq::<String>::empty(),
    {
        ExecutorWorker { accumulator: Vec::new() }
    }

    /// Move as many keys as fit from the tail of the incoming list into
    /// the accumulator, preserving their order.
    pub fn fill_from(&mut self, list: &mut Vec<String>)
        requires
            old(self).wf(),
        ensures
            final(self).wf(),
            ({
                let room = MAX_KEYS_PER_DELETE - old(self).accumulator@.len();
                let take = if room <= old(list)@.len() {
                    room
                } else {
                    old(list)@.len() as int
                };
                &&& final(self).accumulator@ == old(self).accumulator@ + old(list)@.subrange(
                    old(list)@.len() - take,
                    old(list)@.len() as int,
                )
                &&& final(list)@ == old(list)@.subrange(0, old(list)@.len() - take)
            }),
    {
        let room: usize = MAX_KEYS_PER_DELETE - self.accumulator.len();
        let take: usize = if room <= list.len() {
            room
        } else {
            list.len()
        };
        let mut tail: Vec<String> = list.split_off(list.len() - take);
        self.accumulator.append(&mut tail);
    }

    /// Whether the accumulator has reached the batch cap.
    pub fn is_full(&self) -> (r: bool)
        ensures
            r == (self.accumulator@.len() == MAX_KEYS_PER_DELETE),
    {
        self.accumulator.len() == MAX_KEYS_PER_DELETE
    }

    /// One decision of the flush loop: while keys remain and the executor
    /// is not cancelled, execute a batch; once drained, succeed; once
    /// cancelled, report shutdown — some keys may not have been flushed.
    pub fn flush_step(&self, cancelled: bool) -> (r: FlushStep)
        ensures
            r == if self.accumulator@.len() > 0 && !cancelled {
                FlushStep::Execute
            } else if cancelled {
                FlushStep::Finished { result: Err::<(), DeletionQueueError>(
                    DeletionQueueError::ShuttingDown,
                ) }
            } else {
                FlushStep::Finished { result: Ok::<(), DeletionQueueError>(()) }
            },
    {
        if self.accumulator.len() > 0 && !cancelled {
            FlushStep::Execute
        } else if cancelled {
            FlushStep::Finished { result: Err(DeletionQueueError::ShuttingDown) }
        } else {
            FlushStep::Finished { result: Ok(()) }
        }
    }

    /// Record the outcome of one remote batch execution: a successful
    /// call empties the accumulator (the storage layer treats
    /// already-absent objects as deleted); a failed one keeps every key
    /// for retry.
    pub fn on_flush_result(&mut self, success: bool)
        requires
            old(self).wf(),
        ensures
            final(self).wf(),
            success ==> final(self).accumulator@ == Seq::<String>::empty(),
            !success ==> final(self).accumulator@ == old(self).accumulator@,
    {
        if success {
            self.accumulator.clear();
        }
    }

    /// One decision of the ingest loop for a batch of incoming keys: flush
    /// when the accumulator is at the cap, otherwise move keys in, until
    /// the list is drained and the accumulator is below the cap.
    pub fn ingest_step(&mut self, list: &mut Vec<String>) -> (r: IngestStep)
        requires
            old(self).wf(),
        ensures
            final(self).wf(),
            old(list)@.len() == 0 && old(self).accumulator@.len() != MAX_KEYS_PER_DELETE ==> r
                == IngestStep::Done && *final(self) == *old(self) && final(list)@ == old(list)@,
            old(self).accumulator@.len() == MAX_KEYS_PER_DELETE ==> r == IngestStep::NeedsFlush
                && *final(self) == *old(self) && final(list)@ == old(list)@,
            old(list)@.len() > 0 && old(self).accumulator@.len() != MAX_KEYS_PER_DELETE ==> r
                == IngestStep::Advanced && ({
                let room = MAX_KEYS_PER_DELETE - old(self).accumulator@.len();
                let take = if room <= old(list)@.len() {
                    room
                } else {
                    old(list)@.len() as int
                };
                &&& final(self).accumulator@ == old(self).accumulator@ + old(list)@.subrange(
                    old(list)@.len() - take,
                    old(list)@.len() as int,
                )
                &&& final(list)@ == old(list)@.subrange(0, old(list)@.len() - take)
            }),
    {
        if list.len() == 0 && self.accumulator.len() != MAX_KEYS_PER_DELETE {
            return IngestStep::Done;
        }
        if self.accumulator.len() == MAX_KEYS_PER_DELETE {
            return IngestStep::NeedsFlush;
        }
        self.fill_from(list);
        IngestStep::Advanced
    }
}

} // verus!
