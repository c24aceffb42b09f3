use telemetry_broker::retention::MessageQueue;

fn frame(tag: u8, len: usize) -> Vec<u8> {
    vec![tag; len]
}

#[test]
fn budget_keeps_only_newest_six_byte_frame() {
    let mut q = MessageQueue::new(Some(10));
    q.push(frame(1, 6));
    assert_eq!(q.snapshot().1, vec![frame(1, 6)]);
    q.push(frame(2, 6));
    assert_eq!(q.snapshot().1, vec![frame(2, 6)]);
    q.push(frame(3, 6));
    assert_eq!(q.snapshot().1, vec![frame(3, 6)]);
    assert_eq!(q.ephemeral_bytes(), 6);
}

#[test]
fn budget_evicts_oldest_first() {
    let mut q = MessageQueue::new(Some(10));
    q.push(frame(1, 3));
    q.push(frame(2, 3));
    q.push(frame(3, 3));
    assert_eq!(q.ephemeral_bytes(), 9);
    q.push(frame(4, 4));
    assert_eq!(q.snapshot().1, vec![frame(2, 3), frame(3, 3), frame(4, 4)]);
    assert_eq!(q.ephemeral_bytes(), 10);
    q.push(frame(5, 5));
    assert_eq!(q.snapshot().1, vec![frame(4, 4), frame(5, 5)]);
    assert_eq!(q.ephemeral_bytes(), 9);
}

#[test]
fn frame_larger_than_budget_stays_alone() {
    let mut q = MessageQueue::new(Some(10));
    q.push(frame(1, 4));
    q.push(frame(2, 25));
    assert_eq!(q.snapshot().1, vec![frame(2, 25)]);
    assert_eq!(q.ephemeral_bytes(), 25);
    q.push(frame(3, 2));
    assert_eq!(q.snapshot().1, vec![frame(3, 2)]);
}

#[test]
fn exact_fit_is_not_evicted() {
    let mut q = MessageQueue::new(Some(10));
    q.push(frame(1, 5));
    q.push(frame(2, 5));
    assert_eq!(q.snapshot().1, vec![frame(1, 5), frame(2, 5)]);
}

#[test]
fn unbounded_queue_never_evicts() {
    let mut q = MessageQueue::new(None);
    for i in 0..50u8 {
        q.push(frame(i, 100));
    }
    assert_eq!(q.snapshot().1.len(), 50);
    assert_eq!(q.ephemeral_bytes(), 5000);
    assert!(!q.budget_is_set());
}

#[test]
fn permanent_frames_survive_eviction() {
    let mut q = MessageQueue::new(Some(8));
    q.push_static(frame(100, 50));
    for i in 0..20u8 {
        q.push(frame(i, 6));
    }
    q.push_static(frame(101, 50));
    q.push(frame(21, 6));
    let (permanent, ephemeral) = q.snapshot();
    assert_eq!(permanent, vec![frame(100, 50), frame(101, 50)]);
    assert_eq!(ephemeral, vec![frame(21, 6)]);
    assert_eq!(q.ephemeral_bytes(), 6);
}

#[test]
fn zero_budget_keeps_newest_frame_only() {
    let mut q = MessageQueue::new(Some(0));
    q.push(frame(1, 1));
    q.push(frame(2, 1));
    assert_eq!(q.snapshot().1, vec![frame(2, 1)]);
    q.push(Vec::new());
    assert_eq!(q.snapshot().1, vec![Vec::<u8>::new()]);
}
