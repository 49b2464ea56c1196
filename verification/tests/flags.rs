use pevm::specfence::flags::{
    bind_snap_capture_wanted, bind_snap_env_enabled, bind_snap_jump_enabled, bind_snap_mode,
    handler_bind_snap_install_wanted, handler_sstore_plant_install_wanted, BindSnapMode,
    absolute_jump_env_enabled, stall_flag_on, suffix_repair_jump_env_ok, truthy, valued_call_cache_env_enabled,
};

fn v(s: &str) -> Option<&[u8]> {
    Some(s.as_bytes())
}

#[test]
fn truthy_accepts_one_true_yes_in_any_case() {
    assert!(truthy(v("1")));
    assert!(truthy(v("true")));
    assert!(truthy(v("TRUE")));
    assert!(truthy(v("TrUe")));
    assert!(truthy(v("Yes")));
    assert!(truthy(v("yes")));
}

#[test]
fn truthy_rejects_other_values_and_unset() {
    assert!(!truthy(None));
    assert!(!truthy(v("0")));
    assert!(!truthy(v("")));
    assert!(!truthy(v("11")));
    assert!(!truthy(v("on")));
    assert!(!truthy(v("truth")));
}

#[test]
fn absolute_jump_follows_research_mode() {
    // Research inspection implies the jump unless explicitly `0`.
    assert!(absolute_jump_env_enabled(true, None));
    assert!(absolute_jump_env_enabled(true, v("no")));
    assert!(!absolute_jump_env_enabled(true, v("0")));
    // Otherwise off by default.
    assert!(!absolute_jump_env_enabled(false, None));
    assert!(absolute_jump_env_enabled(false, v("1")));
    assert!(absolute_jump_env_enabled(false, v("True")));
    assert!(absolute_jump_env_enabled(false, v("blob")));
    assert!(!absolute_jump_env_enabled(false, v("BLOB")));
    assert!(!absolute_jump_env_enabled(false, v("yes")));
}

#[test]
fn suffix_repair_jump_off_only_for_zero() {
    assert!(suffix_repair_jump_env_ok(None));
    assert!(suffix_repair_jump_env_ok(v("1")));
    assert!(suffix_repair_jump_env_ok(v("00")));
    assert!(!suffix_repair_jump_env_ok(v("0")));
}

#[test]
fn valued_call_cache_follows_research_mode() {
    assert!(valued_call_cache_env_enabled(true, None));
    assert!(!valued_call_cache_env_enabled(true, v("0")));
    assert!(!valued_call_cache_env_enabled(false, None));
    assert!(valued_call_cache_env_enabled(false, v("YES")));
    assert!(!valued_call_cache_env_enabled(false, v("blob")));
}

#[test]
fn stall_flag_exact_spellings_only() {
    assert!(stall_flag_on(v("1")));
    assert!(stall_flag_on(v("true")));
    assert!(stall_flag_on(v("TRUE")));
    assert!(!stall_flag_on(v("True")));
    assert!(!stall_flag_on(v("yes")));
    assert!(!stall_flag_on(None));
}

#[test]
fn valued_call_cache_env_default_off_r0() {
    // Research inspection off; the flag read from the environment.
    assert!(!valued_call_cache_env_enabled(false, v("0")));
    assert!(valued_call_cache_env_enabled(false, v("1")));
}

#[test]
fn bind_snap_mode_defaults_to_resume_path() {
    assert_eq!(bind_snap_mode(None), BindSnapMode::ResumePath);
    assert_eq!(bind_snap_mode(v("resume")), BindSnapMode::ResumePath);
    assert_eq!(bind_snap_mode(v("whatever")), BindSnapMode::ResumePath);
    for off in ["0", "false", "OFF", "No"] {
        assert_eq!(bind_snap_mode(v(off)), BindSnapMode::Off, "{off}");
    }
    for on in ["1", "TRUE", "yes", "Mass"] {
        assert_eq!(bind_snap_mode(v(on)), BindSnapMode::Mass, "{on}");
    }
    assert!(bind_snap_env_enabled(v("mass")));
    assert!(!bind_snap_env_enabled(None));
    assert!(bind_snap_capture_wanted(None));
    assert!(!bind_snap_capture_wanted(v("off")));
}

#[test]
fn bind_snap_jump_follows_capture_when_unset() {
    assert!(bind_snap_jump_enabled(None, None));
    assert!(!bind_snap_jump_enabled(None, v("0")));
    assert!(!bind_snap_jump_enabled(v("no"), None));
    assert!(bind_snap_jump_enabled(v("1"), v("0")));
    assert!(!bind_snap_jump_enabled(v("mass"), None));
}

#[test]
fn handler_hooks_install_conditions() {
    assert!(handler_bind_snap_install_wanted(true, v("0")));
    assert!(!handler_bind_snap_install_wanted(false, v("0")));
    assert!(handler_bind_snap_install_wanted(false, None));
    assert!(handler_sstore_plant_install_wanted(true, false, None));
    assert!(handler_sstore_plant_install_wanted(false, true, None));
    assert!(handler_sstore_plant_install_wanted(false, false, v("yes")));
    assert!(!handler_sstore_plant_install_wanted(false, false, v("2")));
}
