use pevm::specfence::boundary::{BoundarySnapshot, FfValue};
use pevm::specfence::resume::{reconcile_stack, resume_refusal, ResumeRefusal};
use pevm::types::{Addr, Word256};

fn addr(n: u32) -> Addr {
    Addr { hi: 0, mid: 0, lo: n }
}

fn word(n: u64) -> Word256 {
    Word256 { l0: n, l1: 0, l2: 0, l3: 0 }
}

fn snap() -> BoundarySnapshot {
    BoundarySnapshot {
        pc: 10,
        gas_remaining: 100,
        gas_refunded: 0,
        memory_words: 0,
        memory_expansion_cost: 0,
        call_depth: 1,
        opcode_steps: 5,
        stack: Vec::new(),
        memory: Vec::new(),
        code_hash: Some(word(42)),
        bytecode_len: 100,
        at_call_boundary: false,
        post_sstore: false,
        sstore_index: 0,
        write_replays_at_tip: Vec::new(),
        tip_sloads: Vec::new(),
    }
}

#[test]
fn tip_applies_on_matching_top_frame() {
    assert_eq!(resume_refusal(&snap(), 0, word(42), 1), None);
    assert_eq!(resume_refusal(&snap(), 1, word(42), 1), None);
}

#[test]
fn tip_refused_on_other_depth_code_or_nested_journal() {
    assert_eq!(resume_refusal(&snap(), 2, word(42), 1), Some(ResumeRefusal::Depth));
    assert_eq!(resume_refusal(&snap(), 1, word(43), 1), Some(ResumeRefusal::CodeHash));
    assert_eq!(resume_refusal(&snap(), 1, word(42), 2), Some(ResumeRefusal::NestedReadPrefix));
    let mut s = snap();
    s.post_sstore = true;
    assert_eq!(resume_refusal(&s, 1, word(42), 2), None);
    s.pc = 100;
    assert_eq!(resume_refusal(&s, 1, word(42), 2), Some(ResumeRefusal::PcOutOfBounds));
}

#[test]
fn stale_read_values_are_replaced_on_the_stack() {
    let mut stack = vec![word(5), word(1), word(5)];
    let sloads = vec![(addr(1), word(2), word(5)), (addr(1), word(3), word(1))];
    let ff = vec![
        FfValue::Basic,
        FfValue::Storage { address: addr(1), slot: word(2), value: word(6) },
        FfValue::Storage { address: addr(1), slot: word(2), value: word(7) },
        FfValue::Storage { address: addr(1), slot: word(3), value: word(1) },
    ];
    reconcile_stack(&mut stack, &sloads, &ff);
    assert_eq!(stack, vec![word(6), word(1), word(6)]);
}
