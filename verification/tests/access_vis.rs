use pevm::specfence::access_vis::compose_unfinished;

/// Done flags of a sixteen-transaction block where exactly `done` are done.
fn done_only(done: &[usize]) -> Vec<bool> {
    (0..16).map(|w| done.contains(&w)).collect()
}

#[test]
fn done_mv_tip_is_not_unfinished() {
    let (writer, n) = compose_unfinished(Vec::new(), Some(1), None, None, 4, &done_only(&[1]));
    assert_eq!(writer, Some(1));
    assert_eq!(n, 0, "S2: done last_writer must not starve OrderedAdmit");
}

#[test]
fn live_mv_tip_counts() {
    let (writer, n) = compose_unfinished(Vec::new(), Some(2), None, None, 4, &vec![false; 16]);
    assert_eq!(writer, Some(2));
    assert_eq!(n, 1);
}

#[test]
fn sketch_unfinished_kept() {
    let (writer, n) = compose_unfinished(vec![0, 2], Some(2), None, None, 5, &done_only(&[0]));
    assert_eq!(writer, Some(2));
    assert_eq!(n, 1);
}

#[test]
fn force_writer_dropped_when_done() {
    let (_, n) = compose_unfinished(Vec::new(), None, None, Some(3), 8, &vec![true; 16]);
    assert_eq!(n, 0);
}

#[test]
fn later_mv_tip_falls_back_to_least_live_sketch_writer() {
    let (writer, n) = compose_unfinished(vec![3, 1, 6, 9], Some(9), None, None, 7, &done_only(&[1]));
    assert_eq!(writer, Some(3));
    assert_eq!(n, 2);
}

#[test]
fn residual_used_when_mv_absent() {
    let (writer, n) = compose_unfinished(Vec::new(), None, Some(2), Some(1), 4, &vec![false; 16]);
    assert_eq!(writer, Some(2));
    assert_eq!(n, 1);
}

#[test]
fn empty_everything_has_no_writer() {
    let (writer, n) = compose_unfinished(Vec::new(), None, None, None, 4, &vec![false; 16]);
    assert_eq!(writer, None);
    assert_eq!(n, 0);
}
