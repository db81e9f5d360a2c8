//! Deletion-queue batching: accumulate up to the batch cap, flush on
//! demand, retry failures, and report shutdown when cancelled.

use attachment_service::deletion_queue::{
    DeletionQueueError, ExecutorWorker, FlushStep, IngestStep, MAX_KEYS_PER_DELETE,
};

fn keys(n: usize) -> Vec<String> {
    (0..n).map(|i| format!("key-{i:05}")).collect()
}

#[test]
fn ingest_batches_at_the_cap_preserving_order() {
    let mut w = ExecutorWorker::new();
    let mut list = keys(2500);
    let mut executed: Vec<String> = Vec::new();
    loop {
        match w.ingest_step(&mut list) {
            IngestStep::Done => break,
            IngestStep::NeedsFlush => {
                assert_eq!(w.accumulator.len(), MAX_KEYS_PER_DELETE);
                executed.extend(w.accumulator.iter().cloned());
                w.on_flush_result(true);
            }
            IngestStep::Advanced => {}
        }
    }
    executed.extend(w.accumulator.iter().cloned());
    // every key was batched exactly once, none reordered within a batch,
    // and no batch exceeded the cap
    assert_eq!(executed.len(), 2500);
    let mut sorted = executed.clone();
    sorted.sort();
    let mut expected = keys(2500);
    expected.sort();
    assert_eq!(sorted, expected);
    assert!(w.accumulator.len() < MAX_KEYS_PER_DELETE);
    assert_eq!(w.accumulator.len(), 500);
}

#[test]
fn fill_moves_tail_in_order() {
    let mut w = ExecutorWorker::new();
    let mut list = keys(10);
    w.fill_from(&mut list);
    assert_eq!(list.len(), 0);
    assert_eq!(w.accumulator, keys(10));

    // with limited room, the tail of the list moves over
    let mut w2 = ExecutorWorker::new();
    let mut big = keys(MAX_KEYS_PER_DELETE - 3);
    w2.fill_from(&mut big);
    let mut more = keys(10);
    w2.fill_from(&mut more);
    assert_eq!(w2.accumulator.len(), MAX_KEYS_PER_DELETE);
    assert_eq!(more.len(), 7);
    assert_eq!(w2.accumulator[MAX_KEYS_PER_DELETE - 3..], keys(10)[7..]);
}

#[test]
fn flush_retries_until_success() {
    let mut w = ExecutorWorker::new();
    let mut list = keys(3);
    w.fill_from(&mut list);
    assert_eq!(w.flush_step(false), FlushStep::Execute);
    // a failed execution keeps the keys for retry
    w.on_flush_result(false);
    assert_eq!(w.accumulator.len(), 3);
    assert_eq!(w.flush_step(false), FlushStep::Execute);
    w.on_flush_result(true);
    assert_eq!(w.accumulator.len(), 0);
    assert_eq!(w.flush_step(false), FlushStep::Finished { result: Ok(()) });
}

#[test]
fn flush_reports_shutdown_when_cancelled() {
    let mut w = ExecutorWorker::new();
    let mut list = keys(3);
    w.fill_from(&mut list);
    assert_eq!(
        w.flush_step(true),
        FlushStep::Finished { result: Err(DeletionQueueError::ShuttingDown) }
    );
    // even a drained executor reports shutdown under cancellation
    w.on_flush_result(true);
    assert_eq!(
        w.flush_step(true),
        FlushStep::Finished { result: Err(DeletionQueueError::ShuttingDown) }
    );
}
