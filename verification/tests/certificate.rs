use pevm::specfence::certificate::CertificateTable;

#[test]
fn no_strip_without_success() {
    let mut t = CertificateTable::new(2);
    t.begin_execute(0, false, 0);
    assert!(!t.has_any(0));
    assert!(!t.covers_all(0, &[7]));
}

#[test]
fn one_ordered_admit_does_not_cover_sibling_spec() {
    let mut t = CertificateTable::new(1);
    t.begin_execute(0, false, 0);
    t.note_success(0, 7);
    assert!(t.covers_all(0, &[7]));
    assert!(
        !t.covers_all(0, &[7, 9]),
        "tx-global cert from one OrderedAdmit is forbidden"
    );
    assert!(!t.covers_all(0, &[9]));
}

#[test]
fn repair_armed_is_prefix_certificate() {
    let mut t = CertificateTable::new(1);
    t.begin_execute(0, true, 0);
    assert!(t.has_any(0));
    assert!(t.covers_all(0, &[1, 2]));
}

#[test]
fn next_execute_keeps_strips_until_begin_block() {
    let mut t = CertificateTable::new(1);
    t.begin_execute(0, false, 0);
    t.note_success(0, 3);
    t.begin_execute(0, false, 0);
    assert!(
        t.has_any(0),
        "M5: same-incarnation resume must not wipe strips"
    );
    t.begin_block();
    assert!(!t.has_any(0));
}

#[test]
fn rem_legal_is_certificate_not_second_table() {
    let mut t = CertificateTable::new(2);
    assert!(!t.rem_legal(0));
    assert!(!t.may_resolve(0));
    t.note_success(0, 1);
    assert!(t.rem_legal(0));
    assert!(t.may_resolve(0));
    assert!(!t.rem_legal(1));
    t.begin_execute(1, true, 0);
    assert!(t.repair_armed(1));
    assert!(t.rem_legal(1));
}

#[test]
fn wait_resume_keeps_location_strips() {
    let mut t = CertificateTable::new(1);
    t.begin_execute(0, false, 0);
    t.note_success(0, 7);
    t.begin_execute(0, false, 1);
    assert!(
        t.has_any(0),
        "WaitFor/OrderedAdmit strip must survive inc>0 resume"
    );
    assert!(t.covers(0, 7));
    assert!(
        !t.covers_all(0, &[7, 9]),
        "kept strip must not cover sibling optimistic_read"
    );
}

#[test]
fn repair_armed_does_not_strip_cover_siblings() {
    let mut t = CertificateTable::new(1);
    t.begin_execute(0, true, 0);
    t.note_success(0, 7);
    assert!(t.covers_all(0, &[7, 9]), "repair_armed covers_all");
    assert!(
        !t.covers_strips_all(0, &[7, 9]),
        "PartialAbortRewind must use strips only"
    );
    assert!(t.covers_strips_all(0, &[7]));
}

#[test]
fn out_of_block_transaction_has_no_certificate() {
    let mut t = CertificateTable::new(1);
    t.note_success(3, 7);
    assert!(!t.has_any(3));
    assert!(!t.covers(3, 7));
    assert!(t.covers_all(3, &[]));
}
