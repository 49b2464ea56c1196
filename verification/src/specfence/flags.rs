//! Switch values of the fence's runtime flags: how a flag's raw value (when
//! the flag is set at all) turns a feature on or off.

use vstd::prelude::*;

verus! {

/// ASCII lower case of one byte.
pub open spec fn lower(b: u8) -> u8 {
    if 0x41 <= b <= 0x5a {
        (b + 0x20) as u8
    } else {
        b
    }
}

/// `v` spells `word` (given in lower case) in any ASCII case.
pub open spec fn spells(v: Seq<u8>, word: Seq<u8>) -> bool {
    v.len() == word.len() && forall|i: int| 0 <= i < v.len() ==> lower(#[trigger] v[i]) == word[i]
}

pub open spec fn word_one() -> Seq<u8> {
    seq![0x31u8]
}

pub open spec fn word_zero() -> Seq<u8> {
    seq![0x30u8]
}

pub open spec fn word_true() -> Seq<u8> {
    seq![0x74u8, 0x72u8, 0x75u8, 0x65u8]
}

pub open spec fn word_yes() -> Seq<u8> {
    seq![0x79u8, 0x65u8, 0x73u8]
}

pub open spec fn word_true_upper() -> Seq<u8> {
    seq![0x54u8, 0x52u8, 0x55u8, 0x45u8]
}

pub open spec fn word_blob() -> Seq<u8> {
    seq![0x62u8, 0x6cu8, 0x6fu8, 0x62u8]
}

/// A set flag reads as on: `1`, `true` or `yes` in any case.
pub open spec fn truthy_spec(v: Option<Seq<u8>>) -> bool {
    match v {
        Some(s) => s == word_one() || spells(s, word_true()) || spells(s, word_yes()),
        None => false,
    }
}

fn spells_exec(v: &[u8], word: &[u8]) -> (r: bool)
    requires
        forall|i: int| 0 <= i < word@.len() ==> lower(#[trigger] word@[i]) == word@[i],
    ensures
        r == spells(v@, word@),
{
    if v.len() != word.len() {
        return false;
    }
    let mut i: usize = 0;
    while i < v.len()
        invariant
            i <= v@.len(),
            v@.len() == word@.len(),
            forall|j: int| 0 <= j < i ==> lower(#[trigger] v@[j]) == word@[j],
        decreases v.len() - i,
    {
        let b = v[i];
        let l = if 0x41 <= b && b <= 0x5a {
            b + 0x20
        } else {
            b
        };
        if l != word[i] {
            return false;
        }
        i = i + 1;
    }
    true
}

fn is_bytes(v: &[u8], word: &[u8]) -> (r: bool)
    ensures
        r == (v@ == word@),
{
    if v.len() != word.len() {
        return false;
    }
    let mut i: usize = 0;
    while i < v.len()
        invariant
            i <= v@.len(),
            v@.len() == word@.len(),
            forall|j: int| 0 <= j < i ==> v@[j] == word@[j],
        decreases v.len() - i,
    {
        if v[i] != word[i] {
            return false;
        }
        i = i + 1;
    }
    assert(v@ =~= word@);
    true
}

/// Is a flag with raw value `v` (`None` when unset) on?
pub fn truthy(v: Option<&[u8]>) -> (r: bool)
    ensures
        r == truthy_spec(
            match v {
                Some(s) => Some(s@),
                None => None,
            },
        ),
{
    match v {
        None => false,
        Some(s) => {
            let one: [u8; 1] = [0x31];
            let tru: [u8; 4] = [0x74, 0x72, 0x75, 0x65];
            let yes: [u8; 3] = [0x79, 0x65, 0x73];
            assert(one@ == word_one());
            assert(tru@ == word_true());
            assert(yes@ == word_yes());
            is_bytes(s, &one) || spells_exec(s, &tru) || spells_exec(s, &yes)
        },
    }
}

/// Absolute jumps: with research inspection, on unless the flag is `0`;
/// else on only for `1`, `true` (any case) or `blob`.
pub open spec fn absolute_jump_spec(research: bool, v: Option<Seq<u8>>) -> bool {
    if research {
        match v {
            None => true,
            Some(s) => s != word_zero(),
        }
    } else {
        match v {
            None => false,
            Some(s) => s == word_one() || spells(s, word_true()) || s == word_blob(),
        }
    }
}

pub fn absolute_jump_env_enabled(research: bool, v: Option<&[u8]>) -> (r: bool)
    ensures
        r == absolute_jump_spec(
            research,
            match v {
                Some(s) => Some(s@),
                None => None,
            },
        ),
{
    let zero: [u8; 1] = [0x30];
    let one: [u8; 1] = [0x31];
    let tru: [u8; 4] = [0x74, 0x72, 0x75, 0x65];
    let blob: [u8; 4] = [0x62, 0x6c, 0x6f, 0x62];
    assert(zero@ == word_zero());
    assert(one@ == word_one());
    assert(tru@ == word_true());
    assert(blob@ == word_blob());
    match v {
        None => research,
        Some(s) => {
            if research {
                !is_bytes(s, &zero)
            } else {
                is_bytes(s, &one) || spells_exec(s, &tru) || is_bytes(s, &blob)
            }
        },
    }
}

/// Suffix-repair jumps stay allowed unless the flag is exactly `0`.
pub fn suffix_repair_jump_env_ok(v: Option<&[u8]>) -> (r: bool)
    ensures
        r == match v {
            Some(s) => s@ != word_zero(),
            None => true,
        },
{
    let zero: [u8; 1] = [0x30];
    assert(zero@ == word_zero());
    match v {
        None => true,
        Some(s) => !is_bytes(s, &zero),
    }
}

/// Valued call short-circuits: with research inspection, on unless the
/// flag is `0`; else on only for a truthy flag.
pub fn valued_call_cache_env_enabled(research: bool, v: Option<&[u8]>) -> (r: bool)
    ensures
        r == (if research {
            match v {
                Some(s) => s@ != word_zero(),
                None => true,
            }
        } else {
            truthy_spec(
                match v {
                    Some(s) => Some(s@),
                    None => None,
                },
            )
        }),
{
    if research {
        suffix_repair_jump_env_ok(v)
    } else {
        truthy(v)
    }
}

/// The stall-trace flag's value `v` turns it on: exactly `1`, `true` or
/// `TRUE`.
pub open spec fn stall_flag_spec(v: Option<Seq<u8>>) -> bool {
    match v {
        Some(s) => s == word_one() || s == word_true() || s == word_true_upper(),
        None => false,
    }
}

/// The stall-trace flag is on for exactly `1`, `true` or `TRUE`; any other
/// value, and an unset flag, leave it off.
pub fn stall_flag_on(v: Option<&[u8]>) -> (r: bool)
    ensures
        r == match v {
            Some(s) => s@ == word_one() || s@ == word_true() || s@ == word_true_upper(),
            None => false,
        },
        r == stall_flag_spec(
            match v {
                Some(s) => Some(s@),
                None => None,
            },
        ),
{
    let one: [u8; 1] = [0x31];
    let tru: [u8; 4] = [0x74, 0x72, 0x75, 0x65];
    let upper: [u8; 4] = [0x54, 0x52, 0x55, 0x45];
    assert(one@ == word_one());
    assert(tru@ == word_true());
    assert(upper@ == word_true_upper());
    match v {
        None => false,
        Some(s) => is_bytes(s, &one) || is_bytes(s, &tru) || is_bytes(s, &upper),
    }
}

pub open spec fn word_false() -> Seq<u8> {
    seq![0x66u8, 0x61u8, 0x6cu8, 0x73u8, 0x65u8]
}

pub open spec fn word_off() -> Seq<u8> {
    seq![0x6fu8, 0x66u8, 0x66u8]
}

pub open spec fn word_no() -> Seq<u8> {
    seq![0x6eu8, 0x6fu8]
}

pub open spec fn word_mass() -> Seq<u8> {
    seq![0x6du8, 0x61u8, 0x73u8, 0x73u8]
}

/// A set flag reads as off: `0`, `false`, `off` or `no` in any case.
pub open spec fn falsy_spec(s: Seq<u8>) -> bool {
    s == word_zero() || spells(s, word_false()) || spells(s, word_off()) || spells(s, word_no())
}

/// A set flag asks for the mass dig: `1`, `true`, `yes` or `mass` in any case.
pub open spec fn mass_spec(s: Seq<u8>) -> bool {
    s == word_one() || spells(s, word_true()) || spells(s, word_yes()) || spells(s, word_mass())
}

fn falsy(s: &[u8]) -> (r: bool)
    ensures
        r == falsy_spec(s@),
{
    let zero: [u8; 1] = [0x30];
    let fls: [u8; 5] = [0x66, 0x61, 0x6c, 0x73, 0x65];
    let off: [u8; 3] = [0x6f, 0x66, 0x66];
    let no: [u8; 2] = [0x6e, 0x6f];
    assert(zero@ == word_zero());
    assert(fls@ == word_false());
    assert(off@ == word_off());
    assert(no@ == word_no());
    is_bytes(s, &zero) || spells_exec(s, &fls) || spells_exec(s, &off) || spells_exec(s, &no)
}

/// Which bind snapshots are taken.
#[derive(Debug, Clone, Copy, PartialEq, Eq, Structural)]
pub enum BindSnapMode {
    Off,
    ResumePath,
    Mass,
}

/// The bind-snapshot mode of a flag value: off for an off word, the mass
/// dig for an on word or `mass`, else (unset, `resume`, anything else) the
/// resume path.
pub open spec fn bind_snap_mode_spec(v: Option<Seq<u8>>) -> BindSnapMode {
    match v {
        None => BindSnapMode::ResumePath,
        Some(s) => if falsy_spec(s) {
            BindSnapMode::Off
        } else if mass_spec(s) {
            BindSnapMode::Mass
        } else {
            BindSnapMode::ResumePath
        },
    }
}

pub open spec fn opt_view(v: Option<&[u8]>) -> Option<Seq<u8>> {
    match v {
        Some(s) => Some(s@),
        None => None,
    }
}

pub fn bind_snap_mode(v: Option<&[u8]>) -> (r: BindSnapMode)
    ensures
        r == bind_snap_mode_spec(opt_view(v)),
{
    match v {
        None => BindSnapMode::ResumePath,
        Some(s) => {
            if falsy(s) {
                BindSnapMode::Off
            } else {
                let one: [u8; 1] = [0x31];
                let tru: [u8; 4] = [0x74, 0x72, 0x75, 0x65];
                let yes: [u8; 3] = [0x79, 0x65, 0x73];
                let mass: [u8; 4] = [0x6d, 0x61, 0x73, 0x73];
                assert(one@ == word_one());
                assert(tru@ == word_true());
                assert(yes@ == word_yes());
                assert(mass@ == word_mass());
                if is_bytes(s, &one) || spells_exec(s, &tru) || spells_exec(s, &yes) || spells_exec(s, &mass) {
                    BindSnapMode::Mass
                } else {
                    BindSnapMode::ResumePath
                }
            }
        },
    }
}

/// The older switch: on only for the mass dig.
pub fn bind_snap_env_enabled(v: Option<&[u8]>) -> (r: bool)
    ensures
        r == (bind_snap_mode_spec(opt_view(v)) == BindSnapMode::Mass),
{
    bind_snap_mode(v) == BindSnapMode::Mass
}

/// Some capture path may run: any mode but off.
pub fn bind_snap_capture_wanted(v: Option<&[u8]>) -> (r: bool)
    ensures
        r == (bind_snap_mode_spec(opt_view(v)) != BindSnapMode::Off),
{
    bind_snap_mode(v) != BindSnapMode::Off
}

/// Bind jumps: a set jump flag decides alone (off words off, on words on,
/// anything else off); unset, they follow whether capture is wanted.
pub fn bind_snap_jump_enabled(jump: Option<&[u8]>, snap: Option<&[u8]>) -> (r: bool)
    ensures
        r == match opt_view(jump) {
            Some(s) => !falsy_spec(s) && truthy_spec(Some(s)),
            None => bind_snap_mode_spec(opt_view(snap)) != BindSnapMode::Off,
        },
{
    match jump {
        Some(s) => {
            if falsy(s) {
                false
            } else {
                truthy(Some(s))
            }
        },
        None => bind_snap_capture_wanted(snap),
    }
}

/// The load-snapshot hook is installed under research inspection or when
/// capture is wanted.
pub fn handler_bind_snap_install_wanted(research: bool, snap: Option<&[u8]>) -> (r: bool)
    ensures
        r == (research || bind_snap_mode_spec(opt_view(snap)) != BindSnapMode::Off),
{
    if research {
        return true;
    }
    bind_snap_capture_wanted(snap)
}

/// The store-plant hook is installed under research inspection, when
/// absolute jumps are on, or for a truthy capture flag.
pub fn handler_sstore_plant_install_wanted(research: bool, absolute_jump: bool, capture: Option<&[u8]>) -> (r: bool)
    ensures
        r == (research || absolute_jump || truthy_spec(opt_view(capture))),
{
    if research {
        return true;
    }
    if absolute_jump {
        return true;
    }
    truthy(capture)
}

} // verus!
