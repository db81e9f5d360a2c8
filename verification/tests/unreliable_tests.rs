//! Failure injection: the first N attempts of each distinct operation
//! fail, the next succeeds and clears the counter.

use attachment_service::unreliable::{DownloadError, RemoteOp, UnreliableWrapper};

#[test]
fn attempts_fail_then_succeed_and_reset() {
    let mut w = UnreliableWrapper::new(3);
    let op = || RemoteOp::Upload(String::from("tenants/t1/layer-a"));
    assert_eq!(w.attempt(op()), Err(DownloadError::Other));
    assert_eq!(w.attempt(op()), Err(DownloadError::Other));
    // the attempt that reaches the threshold goes through, reporting the
    // count it took
    assert_eq!(w.attempt(op()), Ok(3));
    // the counter was cleared: the cycle restarts
    assert_eq!(w.attempt(op()), Err(DownloadError::Other));
}

#[test]
fn single_failure_mode() {
    let mut w = UnreliableWrapper::new(1);
    let op = || RemoteOp::Download(String::from("tenants/t1/layer-a"));
    assert_eq!(w.attempt(op()), Err(DownloadError::Other));
    assert_eq!(w.attempt(op()), Ok(2));
}

#[test]
fn operations_are_counted_independently() {
    let mut w = UnreliableWrapper::new(1);
    assert!(w.attempt(RemoteOp::Delete(String::from("a"))).is_err());
    assert!(w.attempt(RemoteOp::Delete(String::from("b"))).is_err());
    assert!(w.attempt(RemoteOp::Delete(String::from("a"))).is_ok());
    assert!(w.attempt(RemoteOp::Delete(String::from("b"))).is_ok());
    // a different kind on the same path is a different operation
    assert!(w.attempt(RemoteOp::Upload(String::from("a"))).is_err());
}

#[test]
fn list_and_batch_operations_match_by_content() {
    let mut w = UnreliableWrapper::new(1);
    assert!(w.attempt(RemoteOp::ListPrefixes(None)).is_err());
    assert!(w.attempt(RemoteOp::ListPrefixes(Some(String::from("p")))).is_err());
    assert!(w.attempt(RemoteOp::ListPrefixes(None)).is_ok());
    assert!(w.attempt(RemoteOp::ListPrefixes(Some(String::from("p")))).is_ok());

    let batch = || RemoteOp::DeleteObjects(vec![String::from("x"), String::from("y")]);
    assert!(w.attempt(batch()).is_err());
    // a different batch is a different operation
    assert!(w.attempt(RemoteOp::DeleteObjects(vec![String::from("x")])).is_err());
    assert!(w.attempt(batch()).is_ok());
}
