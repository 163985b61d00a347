use yarapi::cleanup::{CancelableDropList, DropList, QueueEntry};

#[test]
fn actions_run_in_submission_order_and_at_most_once() {
    let mut queue = DropList::new();
    let a1 = queue.async_drop();
    let a2 = queue.async_drop();
    assert_ne!(a1, a2);

    assert_eq!(queue.step(), Some(QueueEntry::Action { id: a1 }));
    assert_eq!(queue.step(), Some(QueueEntry::Action { id: a2 }));
    assert_eq!(queue.step(), None, "each entry is handed out once");
}

#[test]
fn flush_barrier_is_acknowledged_after_earlier_actions() {
    let mut queue = DropList::new();
    let a1 = queue.async_drop();
    let sync = queue.flush();
    let a_after = queue.async_drop();

    // the worker drains in order: the action enqueued before the barrier
    // runs before the barrier is acknowledged
    assert_eq!(queue.step(), Some(QueueEntry::Action { id: a1 }));
    assert_eq!(queue.step(), Some(QueueEntry::Sync { id: sync }));
    // the action enqueued after the flush had no guarantee yet
    assert_eq!(queue.step(), Some(QueueEntry::Action { id: a_after }));
    assert_eq!(queue.step(), None);
}

#[test]
fn canceled_link_registers_nothing() {
    let queue = DropList::new();
    let mut link = CancelableDropList::attach(queue);
    assert!(!link.is_canceled());
    link.cancel();
    assert!(link.is_canceled());
    assert!(link.async_drop().is_none(), "a canceled link skips auto-cleanup");

    let mut fresh = CancelableDropList::new();
    assert!(fresh.is_canceled());
    assert!(fresh.take().is_none());
}

#[test]
fn link_fires_exactly_once() {
    let queue = DropList::new();
    let mut link = CancelableDropList::attach(queue);
    let first = link.async_drop();
    match first {
        Some((queue_back, id)) => {
            let mut queue_back = queue_back;
            assert_eq!(queue_back.step(), Some(QueueEntry::Action { id }));
        }
        None => panic!("an attached link must register its cleanup"),
    }
    assert!(link.async_drop().is_none(), "the second registration is suppressed");
}
