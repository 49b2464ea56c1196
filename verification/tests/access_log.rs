use pevm::specfence::access_log::AccessOrdinalLog;

#[test]
fn records_true_k_not_residual_one() {
    let mut log = AccessOrdinalLog::new(2);
    assert_eq!(log.note(0, 7), 1);
    assert_eq!(log.note(0, 8), 2);
    assert_eq!(log.note(0, 7), 3);
    assert_eq!(log.first_k(0, 7), Some(1));
    assert_eq!(log.first_k(0, 8), Some(2));
    log.begin_incarnation(0);
    assert_eq!(log.first_k(0, 7), None);
    assert_eq!(log.note(0, 7), 1);
}

#[test]
fn prefix_before_excludes_fail_k() {
    let mut log = AccessOrdinalLog::new(1);
    assert_eq!(log.note(0, 7), 1);
    assert_eq!(log.note(0, 8), 2);
    assert_eq!(log.note(0, 9), 3);
    let p = log.prefix_before(0, 3);
    assert_eq!(p.len(), 2);
    assert!(p.contains(&(7, 1)));
    assert!(p.contains(&(8, 2)));
    assert!(!p.iter().any(|(l, _)| *l == 9));
}

#[test]
fn out_of_block_notes_are_zero() {
    let mut log = AccessOrdinalLog::new(1);
    assert_eq!(log.note(4, 7), 0);
    assert_eq!(log.first_k(4, 7), None);
    assert!(log.prefix_before(4, 10).is_empty());
}
