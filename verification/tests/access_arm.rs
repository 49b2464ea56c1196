use pevm::specfence::access_arm::{AccessArm, AccessArmTable, LiveAct};

#[test]
fn beneficiary_never_waits_and_true_waw_waits_once() {
    let mut t = AccessArmTable::new();
    assert_eq!(t.decide(9, 1, 8, true, false), LiveAct::Skip);
    assert_eq!(t.decide(9, 1, 8, true, false), LiveAct::Skip);
    assert_eq!(t.never_wait(), 2);
    assert_eq!(t.wait_once(), 0);

    assert_eq!(t.decide(329, 7, 314, false, false), LiveAct::Block);
    assert_eq!(
        t.decide(329, 7, 314, false, false),
        LiveAct::Skip,
        "same (tx, ℓ, w) must not Blocking again"
    );
    assert_eq!(t.wait_once(), 1);
    assert_eq!(t.wait_suppressed(), 1);
    assert_eq!(
        t.decide(329, 7, 314, false, true),
        LiveAct::Retry,
        "publish/done releases; the cap is not a second park"
    );
}

#[test]
fn morph_flip_decays_unreinforced_wait_once() {
    // k=0 opportunistic WaitOnce decays; k=5 early-WAW template stays.
    // peer=7 on early-WAW so Detect(a) restores pred before read.
    let mut t = AccessArmTable::new();
    t.begin_from_prior(&vec![(11, 1, 0, 0), (33, 1, 5, 7), (22, 2, 1, 0)], Vec::new());
    assert_eq!(t.wait_once_pred(40, 33), Some(7));
    let (snaps, _edges) = t.end_pack(true);
    assert!(
        snaps.iter().all(|&(loc, _, _, _)| loc != 11),
        "unreinforced k=0 WaitOnce decays on morph flip"
    );
    assert!(
        snaps
            .iter()
            .any(|&(loc, tag, k, peer)| loc == 33 && tag == 1 && k == 5 && peer == 7),
        "early-WAW WaitOnce (k>0) + peer survives morph flip"
    );
    assert!(
        snaps.iter().any(|&(loc, tag, _, _)| loc == 22 && tag == 2),
        "NeverWait prior stays"
    );
}

#[test]
fn has_wait_once_peer_before_gates_occ_shaped() {
    let mut t = AccessArmTable::new();
    assert!(!t.has_wait_once_peer_before(40));
    // Crit spine alone must not gate OCC-shaped.
    t.install_crit_chain(99, &[1, 7, 20, 40]);
    assert!(
        !t.non_crit_wait(),
        "crit-only WaitOnce must not tax cold antichain reads"
    );
    assert!(
        !t.has_wait_once_peer_before(40),
        "crit_pred alone must not block OCC-shaped"
    );
    t.note_early_waw_peer(33, 5, 7);
    assert!(t.non_crit_wait(), "non-crit WaitOnce stays on the arm map");
    assert!(t.any_wait_once());
    assert!(t.has_wait_once_peer_before(40));
    assert!(!t.has_wait_once_peer_before(5), "peer must be before tx");
    assert!(t.is_wait_once_producer(7));
    assert!(
        t.is_wait_once_producer(40),
        "crit writer stays a tip producer"
    );
    assert!(!t.is_wait_once_producer(99));
}

#[test]
fn protect_hot_arms_wait_once_without_occ_shaped_peer() {
    let mut t = AccessArmTable::new();
    t.note_prior_touchers(11, &[3, 7, 40]);
    assert!(t.protect_hot(11));
    assert_eq!(t.wait_once_pred(40, 11), Some(7));
    assert_eq!(t.wait_once_pred(7, 11), Some(3));
    assert!(!t.has_wait_once_peer_before(4));
    assert!(!t.protect_hot(11), "one protect per location");
    assert!(t.is_protected(11));
    assert!(t.is_wait_once(11));
    assert!(t.protect_live());
    assert_eq!(t.protect_n(), 1);
    // Arm peer stays 0. Only the prior touchers gain a WaitOnce edge.
    assert!(!t.has_wait_once_peer_before(2));
    assert!(t.has_wait_once_peer_before(40));
    assert!(!t.has_wait_once_peer_before(6));
    t.note_replay_after_protect();
    t.note_protect_before_opt();
    assert_eq!(t.replay_after_protect_n(), 1);
    assert_eq!(t.protect_before_opt_n(), 1);
}

#[test]
fn chain_predecessor_and_peers_before() {
    let mut t = AccessArmTable::new();
    t.install_crit_chain(99, &[1, 7, 20, 40]);
    assert_eq!(t.crit_pred(20, 99), Some(7));
    assert_eq!(t.crit_pred(1, 99), None);
    assert_eq!(t.crit_pred(25, 99), Some(20));
    assert_eq!(t.crit_pred(25, 98), None);
    assert_eq!(t.crit_chain_len(), 4);
    assert!(t.is_crit_loc(99));
    assert_eq!(t.known_toucher_loc(7), Some(99));
    assert_eq!(t.known_writer_indexes(99), Some(vec![1, 7, 20, 40]));
    t.note_early_waw_edge(30, 33, 5, 12);
    let peers = t.wait_once_peers_before(30);
    assert_eq!(peers[0], (99, 20));
    assert!(peers.contains(&(33, 12)));
    assert_eq!(t.plant_wait_edges(), vec![(30, 12)]);
    assert_eq!(t.wait_once_k(33), 5);
    assert_eq!(AccessArm::from_tag(2), AccessArm::NeverWait);
    assert_eq!(AccessArm::WaitOnce.tag(), 1);
}
