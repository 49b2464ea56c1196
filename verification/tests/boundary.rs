use pevm::specfence::access_spine::AccessMode;
use pevm::specfence::boundary::{
    jump_is_safe, jump_refuse_reason, plan_absolute_jump, BlobAccount, BoundarySnapshot, CachedCallOutcome, FfValue,
    JournalBlob, LogReplay, ResumeContinuation, StorageWriteReplay,
};
use pevm::types::{Addr, Word256};

fn addr(n: u32) -> Addr {
    Addr { hi: 0, mid: 0, lo: n }
}

fn word(n: u64) -> Word256 {
    Word256 { l0: n, l1: 0, l2: 0, l3: 0 }
}

fn snap() -> BoundarySnapshot {
    BoundarySnapshot {
        pc: 10,
        gas_remaining: 100,
        gas_refunded: 0,
        memory_words: 0,
        memory_expansion_cost: 0,
        call_depth: 0,
        opcode_steps: 5,
        stack: Vec::new(),
        memory: Vec::new(),
        code_hash: None,
        bytecode_len: 100,
        at_call_boundary: false,
        post_sstore: false,
        sstore_index: 0,
        write_replays_at_tip: Vec::new(),
        tip_sloads: Vec::new(),
    }
}

fn cont() -> ResumeContinuation {
    ResumeContinuation {
        jump_snap: Some(snap()),
        valued_blocks_jump: false,
        call_outcomes: Vec::new(),
        write_replays: Vec::new(),
        values: vec![FfValue::Basic],
        effects: vec![AccessMode::Read],
        cp_k: 1,
        journal_blob: None,
        log_replays: Vec::new(),
    }
}

fn replay(gas: u64) -> StorageWriteReplay {
    StorageWriteReplay {
        address: addr(1),
        slot: word(1),
        present: word(2),
        original: word(0),
        gas_remaining_after: gas,
    }
}

#[test]
fn certified_read_prefix_jumps() {
    let c = cont();
    assert!(jump_is_safe(&c));
    assert_eq!(jump_refuse_reason(&c), "ok");
}

#[test]
fn missing_or_dead_snapshot_refuses() {
    let mut c = cont();
    c.jump_snap = None;
    assert!(!jump_is_safe(&c));
    assert_eq!(jump_refuse_reason(&c), "no_snap");
    let mut c = cont();
    let mut s = snap();
    s.pc = 0;
    s.gas_remaining = 0;
    c.jump_snap = Some(s);
    assert!(!jump_is_safe(&c));
    assert_eq!(jump_refuse_reason(&c), "not_live");
}

#[test]
fn step_and_size_limits_refuse() {
    let mut c = cont();
    let mut s = snap();
    s.opcode_steps = 0;
    c.jump_snap = Some(s);
    assert_eq!(jump_refuse_reason(&c), "steps_zero");
    let mut c = cont();
    let mut s = snap();
    s.opcode_steps = 129;
    c.jump_snap = Some(s);
    assert_eq!(jump_refuse_reason(&c), "steps_over");
    assert!(!jump_is_safe(&c));
    let mut c = cont();
    let mut s = snap();
    s.bytecode_len = 30_000;
    c.jump_snap = Some(s);
    assert_eq!(jump_refuse_reason(&c), "bytecode_huge");
    let mut c = cont();
    let mut s = snap();
    s.bytecode_len = 1_000;
    c.jump_snap = Some(s);
    assert_eq!(jump_refuse_reason(&c), "bytecode_no_storage_ff");
    let mut c = cont();
    let mut s = snap();
    s.pc = 100;
    c.jump_snap = Some(s);
    assert_eq!(jump_refuse_reason(&c), "pc_oob");
    let mut c = cont();
    let mut s = snap();
    s.call_depth = 3;
    c.jump_snap = Some(s);
    assert_eq!(jump_refuse_reason(&c), "call_depth");
}

#[test]
fn effects_and_values_must_certify_the_prefix() {
    let mut c = cont();
    c.effects = Vec::new();
    assert_eq!(jump_refuse_reason(&c), "effects_empty");
    let mut c = cont();
    c.effects = vec![AccessMode::Write];
    assert_eq!(jump_refuse_reason(&c), "write_effects_no_replays");
    assert!(!jump_is_safe(&c));
    let mut c = cont();
    c.values = vec![FfValue::Other];
    assert_eq!(jump_refuse_reason(&c), "no_ff_values");
    let mut c = cont();
    c.valued_blocks_jump = true;
    assert_eq!(jump_refuse_reason(&c), "valued_blocks");
}

#[test]
fn journal_blob_poisons_jump() {
    let mut c = cont();
    c.journal_blob = Some(JournalBlob {
        accounts: vec![BlobAccount { selfdestructed: true, storage_len: 0 }],
        log_count: 0,
    });
    assert_eq!(jump_refuse_reason(&c), "blob_selfdestruct");
    let mut c = cont();
    c.journal_blob = Some(JournalBlob {
        accounts: vec![BlobAccount { selfdestructed: false, storage_len: 2 }],
        log_count: 0,
    });
    assert_eq!(jump_refuse_reason(&c), "blob_storage_poison");
    assert!(!jump_is_safe(&c));
    let blob = JournalBlob { accounts: Vec::new(), log_count: 0 };
    assert!(blob.is_empty());
    assert_eq!(blob.account_count(), 0);
}

#[test]
fn write_prefix_needs_bounded_gas_spread() {
    let mut c = cont();
    c.effects = vec![AccessMode::Write];
    c.write_replays = vec![replay(200), replay(300)];
    assert!(jump_is_safe(&c));
    assert_eq!(jump_refuse_reason(&c), "ok");
    c.write_replays = vec![replay(200), replay(60_000)];
    assert!(!jump_is_safe(&c));
    assert_eq!(jump_refuse_reason(&c), "write_prefix_unsafe");
    // The tip may not hold more gas than any replay.
    c.write_replays = vec![replay(50)];
    assert_eq!(jump_refuse_reason(&c), "write_prefix_unsafe");
}

#[test]
fn valued_call_without_writes_refuses() {
    let mut c = cont();
    let mut s = snap();
    s.at_call_boundary = true;
    c.jump_snap = Some(s);
    c.call_outcomes = vec![CachedCallOutcome {
        call_seq: 1,
        depth: 2,
        target: addr(2),
        bytecode_address: addr(2),
        caller: addr(1),
        gas_limit: 10,
        is_static: false,
        value: word(1),
        k_end: 0,
    }];
    assert_eq!(jump_refuse_reason(&c), "valued_call_no_writes");
    c.call_outcomes[0].value = word(0);
    assert!(jump_is_safe(&c));
    let mut s = snap();
    s.at_call_boundary = false;
    c.jump_snap = Some(s);
    assert_eq!(jump_refuse_reason(&c), "call_outcomes_not_boundary");
}

#[test]
fn store_tip_is_reported_as_a_group() {
    let mut c = cont();
    let mut s = snap();
    s.sstore_index = 1;
    s.memory = vec![0u8; 32];
    s.write_replays_at_tip = vec![replay(100)];
    c.jump_snap = Some(s);
    c.effects = vec![AccessMode::Write];
    c.write_replays = vec![replay(100)];
    assert!(jump_is_safe(&c));
    assert_eq!(jump_refuse_reason(&c), "sstore_tip_gates");
}

#[test]
fn live_capture_needs_some_state() {
    let mut s = snap();
    assert!(s.is_live_capture());
    s.pc = 0;
    s.gas_remaining = 0;
    assert!(!s.is_live_capture());
    s.code_hash = Some(word(5));
    assert!(s.is_live_capture());
}

// The continuations of the boundary's own jump scenarios, written in the
// library's model: a basic read prefix certified by one basic value, or a
// storage read prefix certified by one storage value.

fn filled(b: u8) -> Addr {
    let w = u64::from_be_bytes([b; 8]);
    Addr { hi: w, mid: w, lo: u32::from_be_bytes([b; 4]) }
}

fn live_snap() -> BoundarySnapshot {
    BoundarySnapshot {
        pc: 4,
        gas_remaining: 50_000,
        gas_refunded: 0,
        memory_words: 0,
        memory_expansion_cost: 0,
        call_depth: 1,
        opcode_steps: 12,
        stack: vec![word(9)],
        memory: vec![0],
        code_hash: Some(word(0)),
        bytecode_len: 64,
        at_call_boundary: false,
        post_sstore: false,
        sstore_index: 0,
        write_replays_at_tip: Vec::new(),
        tip_sloads: Vec::new(),
    }
}

fn post_sstore_snap(pc: usize, gas: u64, steps: u64, at_call_boundary: bool) -> BoundarySnapshot {
    BoundarySnapshot {
        pc,
        gas_remaining: gas,
        opcode_steps: steps,
        stack: vec![],
        memory: vec![],
        at_call_boundary,
        post_sstore: true,
        ..live_snap()
    }
}

fn basic_read_cont(k: usize) -> ResumeContinuation {
    ResumeContinuation {
        jump_snap: None,
        valued_blocks_jump: false,
        call_outcomes: vec![],
        write_replays: vec![],
        values: vec![FfValue::Basic],
        effects: vec![AccessMode::Read],
        cp_k: k,
        journal_blob: None,
        log_replays: Vec::new(),
    }
}

fn storage_read_cont(k: usize) -> ResumeContinuation {
    ResumeContinuation {
        values: vec![FfValue::Storage { address: addr(0), slot: word(0), value: word(1) }],
        ..basic_read_cont(k)
    }
}

fn write_replay(slot: u64, present: u64, gas: u64) -> StorageWriteReplay {
    StorageWriteReplay {
        address: addr(0),
        slot: word(slot),
        original: word(0),
        present: word(present),
        gas_remaining_after: gas,
    }
}

fn cached_call(value: u64) -> CachedCallOutcome {
    CachedCallOutcome {
        call_seq: 2,
        depth: 2,
        target: filled(1),
        bytecode_address: filled(1),
        caller: filled(2),
        gas_limit: 50_000,
        is_static: false,
        value: word(value),
        k_end: 2,
    }
}

#[test]
fn jump_is_safe_rejects_lite_and_nested_call() {
    let lite = ResumeContinuation {
        values: vec![],
        effects: vec![],
        jump_snap: None,
        ..basic_read_cont(2)
    };
    assert!(!jump_is_safe(&lite), "lite snap must not jump");
    let nested = ResumeContinuation {
        jump_snap: Some(BoundarySnapshot {
            pc: 4,
            gas_remaining: 1_000,
            call_depth: 2,
            opcode_steps: 10,
            stack: vec![word(1)],
            memory: vec![],
            bytecode_len: 32,
            ..live_snap()
        }),
        journal_blob: None,
        values: vec![],
        effects: vec![],
        ..basic_read_cont(2)
    };
    assert!(!jump_is_safe(&nested), "nested without effects/FF must fall back");
}

#[test]
fn jump_is_safe_accepts_live_with_journal_blob() {
    let cont = ResumeContinuation {
        jump_snap: Some(live_snap()),
        journal_blob: Some(JournalBlob {
            accounts: vec![BlobAccount { selfdestructed: false, storage_len: 0 }],
            log_count: 0,
        }),
        ..basic_read_cont(2)
    };
    assert!(jump_is_safe(&cont), "live top-level read-only snap may jump");
}

#[test]
fn jump_is_safe_rejects_write_prefix() {
    let cont = ResumeContinuation {
        jump_snap: Some(live_snap()),
        values: vec![],
        effects: vec![AccessMode::Write],
        journal_blob: Some(JournalBlob { accounts: vec![], log_count: 0 }),
        ..basic_read_cont(2)
    };
    assert!(
        !jump_is_safe(&cont),
        "write-prefix without write_replays / post_sstore must fall back"
    );
}

#[test]
fn jump_is_safe_accepts_write_prefix_with_post_sstore_replays() {
    let base = storage_read_cont(2);
    let cont = ResumeContinuation {
        jump_snap: Some(post_sstore_snap(8, 30_000, 12, false)),
        effects: vec![AccessMode::Read, AccessMode::Write],
        write_replays: vec![write_replay(0, 1, 30_000)],
        ..base
    };
    assert!(
        jump_is_safe(&cont),
        "post-store snap + write replays must allow a write-prefix jump"
    );
}

#[test]
fn jump_is_safe_accepts_read_only_without_blob() {
    let cont = ResumeContinuation { jump_snap: Some(live_snap()), ..basic_read_cont(2) };
    assert!(jump_is_safe(&cont), "read-only live snap may jump without blob");
}

#[test]
fn jump_is_safe_accepts_storage_read_prefix() {
    let cont = ResumeContinuation { jump_snap: Some(live_snap()), ..storage_read_cont(2) };
    assert!(jump_is_safe(&cont), "storage-read certified prefix may absolute-jump");
}

#[test]
fn jump_is_safe_accepts_depth2_with_call_cache() {
    let cont = ResumeContinuation {
        jump_snap: Some(BoundarySnapshot { call_depth: 2, at_call_boundary: true, ..live_snap() }),
        ..basic_read_cont(2)
    };
    assert!(jump_is_safe(&cont), "depth=2 live snap may jump");
}

#[test]
fn jump_is_safe_accepts_multi_sstore_write_prefix() {
    let cont = ResumeContinuation {
        jump_snap: Some(post_sstore_snap(16, 25_000, 20, false)),
        effects: vec![AccessMode::Read, AccessMode::Write, AccessMode::Write],
        journal_blob: Some(JournalBlob { accounts: vec![], log_count: 1 }),
        write_replays: vec![write_replay(0, 1, 30_000), write_replay(1, 2, 25_000)],
        ..storage_read_cont(3)
    };
    assert!(jump_is_safe(&cont), "multi-store + logs blob must allow a write-prefix jump");
}

#[test]
fn jump_is_safe_accepts_valued_call_at_call_boundary() {
    let cont = ResumeContinuation {
        jump_snap: Some(post_sstore_snap(12, 40_000, 18, true)),
        effects: vec![AccessMode::Read, AccessMode::Write],
        call_outcomes: vec![cached_call(1)],
        write_replays: vec![write_replay(0, 1, 40_000)],
        ..storage_read_cont(2)
    };
    assert!(jump_is_safe(&cont), "valued call outcome OK at a call boundary with write replays");
}

#[test]
fn jump_is_safe_rejects_valued_blocks_jump_cache_miss() {
    let cont = ResumeContinuation {
        jump_snap: Some(post_sstore_snap(12, 40_000, 18, true)),
        valued_blocks_jump: true,
        ..storage_read_cont(2)
    };
    assert!(!jump_is_safe(&cont), "a valued cache miss still forbids the absolute jump");
}

#[test]
fn jump_is_safe_accepts_write_prefix_plus_zero_value_call_outcome_combine() {
    let cont = ResumeContinuation {
        jump_snap: Some(post_sstore_snap(12, 40_000, 18, true)),
        effects: vec![AccessMode::Read, AccessMode::Write],
        call_outcomes: vec![cached_call(0)],
        write_replays: vec![write_replay(0, 1, 40_000)],
        ..storage_read_cont(2)
    };
    assert!(jump_is_safe(&cont), "write replays + zero-value call outcome OK at a call boundary");
}

fn storage_ff(a: u32, slot: u64, value: u64) -> FfValue {
    FfValue::Storage { address: addr(a), slot: word(slot), value: word(value) }
}

#[test]
fn plan_absolute_jump_gates_on_flag_disable_and_safety() {
    let c = cont();
    assert!(plan_absolute_jump(&c, true, false).is_some());
    assert!(plan_absolute_jump(&c, false, false).is_none());
    assert!(plan_absolute_jump(&c, true, true).is_none());
    let mut unsafe_c = cont();
    unsafe_c.jump_snap = None;
    assert!(plan_absolute_jump(&unsafe_c, true, false).is_none());
}

#[test]
fn plan_absolute_jump_warms_read_prefix_values() {
    let mut c = cont();
    c.values = vec![FfValue::Basic, storage_ff(1, 2, 3)];
    let arm = plan_absolute_jump(&c, true, false).unwrap();
    assert!(arm.tip_writes.is_empty());
    assert_eq!(arm.warm_presents, c.values);
    assert!(arm.call_touches.is_empty());
}

#[test]
fn plan_absolute_jump_checks_bound_reads() {
    // A bound read that matches a fast-forwarded value allows the jump.
    let mut c = cont();
    c.values = vec![storage_ff(1, 2, 3)];
    let mut s = snap();
    s.tip_sloads = vec![(addr(1), word(2), word(3)), (addr(9), word(9), word(9))];
    c.jump_snap = Some(s);
    assert!(jump_is_safe(&c));
    assert!(plan_absolute_jump(&c, true, false).is_some());
    // A conflicting value refuses it.
    let mut c2 = cont();
    c2.values = vec![storage_ff(1, 2, 4)];
    let mut s2 = snap();
    s2.tip_sloads = vec![(addr(1), word(2), word(3))];
    c2.jump_snap = Some(s2);
    assert!(jump_is_safe(&c2));
    assert!(plan_absolute_jump(&c2, true, false).is_none());
    // No bound read overlapping any value refuses it too.
    let mut c3 = cont();
    c3.values = vec![FfValue::Basic, storage_ff(5, 5, 5)];
    let mut s3 = snap();
    s3.tip_sloads = vec![(addr(1), word(2), word(3))];
    c3.jump_snap = Some(s3);
    assert!(jump_is_safe(&c3));
    assert!(plan_absolute_jump(&c3, true, false).is_none());
}

#[test]
fn plan_absolute_jump_replays_continuation_writes_without_warming() {
    let base = storage_read_cont(2);
    let c = ResumeContinuation {
        jump_snap: Some(post_sstore_snap(8, 30_000, 12, false)),
        effects: vec![AccessMode::Read, AccessMode::Write],
        write_replays: vec![write_replay(0, 1, 30_000)],
        ..base
    };
    let arm = plan_absolute_jump(&c, true, false).unwrap();
    assert_eq!(arm.tip_writes, vec![write_replay(0, 1, 30_000)]);
    assert!(arm.warm_presents.is_empty());
}

#[test]
fn plan_absolute_jump_replays_logs_up_to_the_tip() {
    let mut c = cont();
    c.log_replays = vec![
        LogReplay { pc: 3, log_seq: 0 },
        LogReplay { pc: 10, log_seq: 1 },
        LogReplay { pc: 11, log_seq: 2 },
    ];
    let arm = plan_absolute_jump(&c, true, false).unwrap();
    // The tip is at program counter 10.
    assert_eq!(arm.skipped_logs, vec![LogReplay { pc: 3, log_seq: 0 }, LogReplay { pc: 10, log_seq: 1 }]);
}

#[test]
fn bytecode_above_four_kib_never_jumps() {
    let mut c = storage_read_cont(2);
    let mut s = live_snap();
    s.bytecode_len = 5000;
    c.jump_snap = Some(s);
    c.effects = vec![AccessMode::Read, AccessMode::Write];
    c.write_replays = vec![write_replay(0, 1, 40_000)];
    assert!(!jump_is_safe(&c));
    assert!(plan_absolute_jump(&c, true, false).is_none());
    let mut c2 = storage_read_cont(2);
    let mut s2 = live_snap();
    s2.bytecode_len = 4096;
    c2.jump_snap = Some(s2);
    assert!(jump_is_safe(&c2));
}
