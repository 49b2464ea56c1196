use pevm::specfence::boundary::CachedCallOutcome;
use pevm::specfence::inspector::{CallPlan, SpecFenceInspector, OP_LOG0, OP_SSTORE};
use pevm::types::{Addr, Word256};

fn addr(n: u32) -> Addr {
    Addr { hi: 0, mid: 0, lo: n }
}

fn word(n: u64) -> Word256 {
    Word256 { l0: n, l1: 0, l2: 0, l3: 0 }
}

fn cached(seq: u32, depth: u16, value: u64, gas: u64) -> CachedCallOutcome {
    CachedCallOutcome {
        call_seq: seq,
        depth,
        target: addr(2),
        bytecode_address: addr(2),
        caller: addr(1),
        gas_limit: gas,
        is_static: false,
        value: word(value),
        k_end: 0,
    }
}

#[test]
fn new_inspector_is_fresh() {
    let i = SpecFenceInspector::new();
    assert_eq!(i.opcode_steps, 0);
    assert_eq!(i.call_depth, 0);
    assert!(i.pending_calls.is_empty());
    assert!(i.resume_calls.is_empty());
}

#[test]
fn steps_count_and_sstore_marks_tip() {
    let mut i = SpecFenceInspector::new();
    assert_eq!(i.on_step(OP_SSTORE), 1);
    let a = i.on_step_end();
    assert!(a.post_sstore);
    assert!(!a.after_log);
    assert!(!a.attach_effect);
    assert_eq!(i.on_step(OP_LOG0 + 2), 2);
    let a = i.on_step_end();
    assert!(!a.post_sstore);
    assert!(a.after_log);
    assert_eq!(i.steps_this_run, 2);
}

#[test]
fn armed_effect_attaches_once() {
    let mut i = SpecFenceInspector::new();
    i.arm_pending_effect_cp();
    i.on_step(0x01);
    assert!(i.on_step_end().attach_effect);
    i.on_step(0x01);
    assert!(!i.on_step_end().attach_effect);
}

#[test]
fn call_end_marks_parent_boundary_and_captures_nested() {
    let mut i = SpecFenceInspector::new();
    assert_eq!(i.on_call(addr(2), addr(2), addr(1), 100, false, word(0), false), CallPlan::Proceed);
    assert_eq!(i.on_call(addr(3), addr(3), addr(2), 50, false, word(0), false), CallPlan::Proceed);
    assert_eq!(i.call_depth, 2);
    let out = i.on_call_end(true, 7).unwrap();
    assert_eq!(out.depth, 2);
    assert_eq!(out.call_seq, 2);
    assert_eq!(out.k_end, 7);
    assert_eq!(i.captured_calls.len(), 1);
    let step_end = i.on_step_end();
    assert!(step_end.at_call_boundary);
    assert!(step_end.attach_effect);
    // The top-level call is never captured.
    assert!(i.on_call_end(true, 8).is_none());
    assert_eq!(i.call_depth, 0);
}

#[test]
fn failed_nested_call_is_not_captured() {
    let mut i = SpecFenceInspector::new();
    i.on_call(addr(2), addr(2), addr(1), 100, false, word(0), false);
    i.on_call(addr(3), addr(3), addr(2), 50, false, word(0), false);
    assert!(i.on_call_end(false, 1).is_none());
    assert!(i.captured_calls.is_empty());
}

#[test]
fn resume_cache_short_circuits_matching_nested_call() {
    let mut i = SpecFenceInspector::new();
    i.arm_call_outcome_cache(vec![cached(2, 2, 0, 50)]);
    // Top-level call: never short-circuited.
    assert_eq!(i.on_call(addr(9), addr(9), addr(8), 1000, false, word(0), false), CallPlan::Proceed);
    let plan = i.on_call(addr(2), addr(2), addr(1), 50, false, word(0), false);
    assert_eq!(plan, CallPlan::ShortCircuit { index: 0, value: word(0) });
    i.note_call_short_circuit();
    assert_eq!(i.resume_idx, 1);
}

#[test]
fn resume_cache_refuses_changed_gas_and_valued_call() {
    let mut i = SpecFenceInspector::new();
    i.arm_call_outcome_cache(vec![cached(2, 2, 0, 50)]);
    i.on_call(addr(9), addr(9), addr(8), 1000, false, word(0), false);
    assert_eq!(i.on_call(addr(2), addr(2), addr(1), 51, false, word(0), false), CallPlan::Proceed);

    let mut j = SpecFenceInspector::new();
    j.arm_call_outcome_cache(vec![cached(2, 2, 5, 50)]);
    j.on_call(addr(9), addr(9), addr(8), 1000, false, word(0), false);
    assert_eq!(j.on_call(addr(2), addr(2), addr(1), 50, false, word(0), false), CallPlan::Proceed);

    let mut k = SpecFenceInspector::new();
    k.arm_call_outcome_cache(vec![cached(2, 2, 5, 50)]);
    k.on_call(addr(9), addr(9), addr(8), 1000, false, word(0), true);
    assert_eq!(
        k.on_call(addr(2), addr(2), addr(1), 50, false, word(0), true),
        CallPlan::ShortCircuit { index: 0, value: word(5) }
    );
}

#[test]
fn create_frames_balance_depth() {
    let mut i = SpecFenceInspector::new();
    i.on_create();
    i.on_create();
    assert_eq!(i.call_depth, 2);
    i.on_create_end();
    i.on_create_end();
    i.on_create_end();
    assert_eq!(i.call_depth, 0);
}
