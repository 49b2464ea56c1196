use pevm::specfence::dag::{FenceGraph, RegionMode};

#[test]
fn arm_soft_wake_on_publish() {
    let mut g = FenceGraph::new();
    assert!(g.arm_soft(1, 5, 3, Some(2)));
    assert!(g.has_soft_wait(1));
    assert!(g.is_wait(1));
    let woken = g.wake_on_publish(1, 2);
    assert_eq!(woken, vec![5]);
    assert!(!g.has_soft_wait(1));
}

#[test]
fn clear_revokes_soft_wait() {
    let mut g = FenceGraph::new();
    g.arm_soft(9, 1, 0, None);
    g.arm_soft(9, 2, 0, None);
    assert_eq!(g.clear(9), 2);
    assert!(!g.is_wait(9));
    assert!(g.soft_revoke_count() >= 1);
}

#[test]
fn iter_waiters_lists_arms() {
    let mut g = FenceGraph::new();
    g.arm_soft(3, 10, 7, Some(4));
    let arms = g.iter_waiters(3);
    assert_eq!(arms.len(), 1);
    assert_eq!(arms[0].waiter, 10);
    assert_eq!(arms[0].armed_at_k, 7);
}

#[test]
fn rearming_a_waiter_replaces_its_arm() {
    let mut g = FenceGraph::new();
    assert!(g.arm_soft(3, 10, 7, Some(4)));
    assert!(!g.arm_soft(3, 10, 9, None));
    let arms = g.iter_waiters(3);
    assert_eq!(arms.len(), 1);
    assert_eq!(arms[0].armed_at_k, 9);
    assert_eq!(g.soft_arm_count(), 1);
    assert_eq!(g.edge_count(), 1);
}

#[test]
fn publish_wakes_only_later_matching_waiters() {
    let mut g = FenceGraph::new();
    g.arm_soft(1, 5, 0, Some(2));
    g.arm_soft(1, 6, 0, Some(3));
    g.arm_soft(1, 1, 0, None);
    g.arm_soft(1, 8, 0, None);
    assert_eq!(g.wake_on_publish(1, 2), vec![5, 8]);
    assert_eq!(g.soft_waiters(1), vec![6, 1]);
    assert!(g.wake_on_publish(1, 2).is_empty(), "a second publish wakes nobody");
    assert_eq!(g.wake_count(), 2);
    assert_eq!(g.mode(1), RegionMode::Wait);
}

#[test]
fn clear_waiter_and_writer_sweep() {
    let mut g = FenceGraph::new();
    g.arm_soft(1, 5, 0, Some(2));
    g.arm_soft(4, 7, 0, Some(2));
    g.arm_soft(4, 9, 0, Some(3));
    assert!(g.clear_waiter(4, 9));
    assert!(!g.clear_waiter(4, 9));
    let mut swept = g.clear_for_writer(2);
    swept.sort();
    assert_eq!(swept, vec![(1, 5), (4, 7)]);
    assert!(!g.is_wait(1));
    assert_eq!(g.mode(4), RegionMode::Speculate);
}

#[test]
fn wait_flags_and_ready_hints() {
    let mut g = FenceGraph::new();
    assert!(g.set_wait(3));
    assert!(!g.set_wait(3));
    assert!(g.is_wait(3));
    assert!(!g.clear_wait(3), "no soft wait was armed");
    assert!(!g.is_wait(3));
    g.mark_ready(4);
    assert!(g.is_ready_hint(4));
    g.clear_ready(4);
    assert!(!g.is_ready_hint(4));
    g.note_soft_wait(2, 8);
    assert_eq!(g.soft_waiters(2), vec![8]);
    g.note_hard_edge();
    assert_eq!(g.edge_count(), 2);
}
