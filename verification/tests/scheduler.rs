use rethink_driver::scheduler::{into_reply, DriverStep, QueryState, SchedulerQueue, SendOutcome, WaitOutcome};
use rethink_driver::Error;
use std::sync::atomic::{AtomicUsize, Ordering};
use std::sync::Arc;
use std::task::{Wake, Waker};

struct Counter(AtomicUsize);

impl Wake for Counter {
    fn wake(self: Arc<Self>) {
        self.0.fetch_add(1, Ordering::SeqCst);
    }
}

fn waker() -> (Arc<Counter>, Waker) {
    let c = Arc::new(Counter(AtomicUsize::new(0)));
    (c.clone(), Waker::from(c))
}

#[test]
fn first_query_drives_and_others_wait() {
    let mut q = SchedulerQueue::new();
    assert!(q.is_empty());
    let (_, w1) = waker();
    let a = q.register(1, b"one".to_vec(), true, w1);
    assert!(a.driver);
    let (driver_count, dw) = waker();
    q.set_driver_waker(dw);
    let (_, w2) = waker();
    let b = q.register(2, b"two".to_vec(), true, w2);
    assert!(!b.driver);
    assert_ne!(a.cell, b.cell);
    b.wake.unwrap().wake();
    assert_eq!(driver_count.0.load(Ordering::SeqCst), 1);
    assert!(matches!(q.poll_waiting(b.cell), WaitOutcome::Wait));
    assert!(matches!(q.poll_waiting(a.cell), WaitOutcome::Drive));
}

#[test]
fn driver_sends_and_delivers_replies() {
    let mut q = SchedulerQueue::new();
    let (_, w1) = waker();
    let a = q.register(1, b"one".to_vec(), true, w1);
    let (count2, w2) = waker();
    let b = q.register(2, b"two".to_vec(), true, w2);
    // send phase: both requests go out in order
    let mut sent = Vec::new();
    let mut p = 0;
    while let Some(i) = q.next_request(p) {
        let (token, bytes) = q.request(i);
        sent.push((token, bytes));
        match q.on_sent(i, Ok(())) {
            SendOutcome::Continue { next, wake } => {
                assert!(wake.is_none());
                p = next;
            },
            SendOutcome::Stop(_) => panic!(),
        }
    }
    assert_eq!(sent, vec![(1, b"one".to_vec()), (2, b"two".to_vec())]);
    // the reply of the waiting query goes to it and wakes it
    match q.on_receive(Ok((2, b"r2".to_vec()))) {
        DriverStep::Continue(Some(w)) => w.wake(),
        _ => panic!(),
    }
    assert_eq!(count2.0.load(Ordering::SeqCst), 1);
    match q.poll_waiting(b.cell) {
        WaitOutcome::Done(Ok(Some(buf))) => assert_eq!(buf, b"r2"),
        _ => panic!(),
    }
    // a reply for nobody is dropped
    assert!(matches!(q.on_receive(Ok((9, Vec::new()))), DriverStep::Continue(None)));
    // the driver's own reply stops it
    let end = match q.on_receive(Ok((1, b"r1".to_vec()))) {
        DriverStep::Stop(s) => s,
        _ => panic!(),
    };
    assert!(q.is_empty());
    let (end, next) = q.finish(a.cell, end);
    assert!(next.is_none());
    assert_eq!(into_reply(end).unwrap(), Some(b"r1".to_vec()));
}

#[test]
fn noreply_requests_end_when_sent() {
    let mut q = SchedulerQueue::new();
    let (_, w1) = waker();
    let a = q.register(1, b"one".to_vec(), false, w1);
    let i = q.next_request(0).unwrap();
    match q.on_sent(i, Ok(())) {
        SendOutcome::Stop(s) => assert_eq!(into_reply(s).unwrap(), None),
        _ => panic!(),
    }
    assert!(q.is_empty());
    let _ = q.finish(a.cell, QueryState::ResultNoReply);
}

#[test]
fn failed_send_ends_a_waiting_query() {
    let mut q = SchedulerQueue::new();
    let (_, w1) = waker();
    let _a = q.register(1, b"one".to_vec(), true, w1);
    let (count2, w2) = waker();
    let b = q.register(2, b"two".to_vec(), true, w2);
    assert!(matches!(q.on_sent(0, Ok(())), SendOutcome::Continue { next: 1, .. }));
    let err = Error::Io(std::io::Error::new(std::io::ErrorKind::Other, "broken"));
    match q.on_sent(1, Err(err)) {
        // the last entry left the queue: the walk starts over from the front
        SendOutcome::Continue { next: 0, wake: Some(w) } => w.wake(),
        _ => panic!(),
    }
    assert_eq!(count2.0.load(Ordering::SeqCst), 1);
    assert!(matches!(q.poll_waiting(b.cell), WaitOutcome::Done(Err(Error::Io(_)))));
}

#[test]
fn finishing_driver_hands_over_to_the_first_waiting_query() {
    let mut q = SchedulerQueue::new();
    let (_, w1) = waker();
    let a = q.register(1, b"one".to_vec(), false, w1);
    let (c2, w2) = waker();
    let b = q.register(2, b"two".to_vec(), true, w2);
    let (c3, w3) = waker();
    let _c = q.register(3, b"three".to_vec(), true, w3);
    let end = match q.on_sent(0, Ok(())) {
        SendOutcome::Stop(s) => s,
        _ => panic!(),
    };
    let (end, next) = q.finish(a.cell, end);
    assert!(matches!(end, QueryState::ResultNoReply));
    next.unwrap().wake();
    assert_eq!(c2.0.load(Ordering::SeqCst), 1);
    assert_eq!(c3.0.load(Ordering::SeqCst), 0);
    assert!(matches!(q.poll_waiting(b.cell), WaitOutcome::Drive));
}

#[test]
fn receive_error_stops_the_driver() {
    let mut q = SchedulerQueue::new();
    let err = Error::Sync("closed");
    match q.on_receive(Err(err)) {
        DriverStep::Stop(s) => assert!(matches!(into_reply(s), Err(Error::Sync("closed")))),
        _ => panic!(),
    }
    assert!(matches!(into_reply(QueryState::PendingActive), Err(Error::Sync("invalid query state after wakeup"))));
}
