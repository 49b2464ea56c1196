use pevm::specfence::admit_deque::LocalAdmitDeque;
use pevm::specfence::deque::LocalDeque;

#[test]
fn owner_lifo_thief_fifo() {
    let mut d = LocalDeque::with_capacity(8);
    d.push_bottom(1);
    d.push_bottom(2);
    d.push_bottom(3);
    assert_eq!(d.pop_bottom(), Some(3));
    assert_eq!(d.pop_top(), Some(1));
    assert_eq!(d.pop_bottom(), Some(2));
    assert_eq!(d.pop_bottom(), None);
}

#[test]
fn owner_lifo_and_thief_fifo() {
    let mut d = LocalAdmitDeque::with_capacity(8);
    d.push_bottom(1);
    d.push_bottom(2);
    d.push_bottom(3);
    assert_eq!(d.pop_bottom(), Some(3));
    assert_eq!(d.pop_top(), Some(1));
    assert_eq!(d.pop_bottom(), Some(2));
    assert_eq!(d.pop_bottom(), None);
    assert_eq!(d.pop_top(), None);
    assert_eq!(d.len(), 0);
}

#[test]
fn ring_wraps_and_keeps_every_task_once() {
    // min_live 1 gives a four-slot ring; push and steal past the wrap point.
    let mut d = LocalAdmitDeque::with_capacity(1);
    let mut taken = Vec::new();
    for round in 0..10usize {
        d.push_bottom(3 * round);
        d.push_bottom(3 * round + 1);
        d.push_bottom(3 * round + 2);
        taken.push(d.pop_top().unwrap());
        taken.push(d.pop_bottom().unwrap());
        taken.push(d.pop_top().unwrap());
        assert_eq!(d.len(), 0);
    }
    taken.sort_unstable();
    assert_eq!(taken, (0..30).collect::<Vec<_>>());
}

#[test]
fn full_ring_holds_capacity_tasks() {
    // min_live 8: least power of two >= 9 is 16, so 32 slots.
    let mut d = LocalDeque::with_capacity(8);
    for i in 0..32 {
        d.push_bottom(i);
    }
    assert_eq!(d.len(), 32);
    assert_eq!(d.pop_top(), Some(0));
    assert_eq!(d.pop_bottom(), Some(31));
}
