use pevm::specfence::bloom::{indexes, LocBloom};

#[test]
fn insert_is_visible_and_absent_stays_clear() {
    let mut bloom = LocBloom::new(4096);
    assert!(!bloom.may_contain(0xabd6_bb39_7881_5b97));
    bloom.insert(0xabd6_bb39_7881_5b97);
    assert!(bloom.may_contain(0xabd6_bb39_7881_5b97));
    assert!(!bloom.may_contain(1));
}

#[test]
fn indexes_match_multiply_rotate_xor() {
    let loc: u64 = 12345;
    let h1 = loc.wrapping_mul(0x9E37_79B9_7F4A_7C15);
    let h2 = h1.rotate_left(17) ^ loc;
    let mask = 4095usize;
    assert_eq!(indexes(loc, mask), ((h1 as usize) & mask, (h2 as usize) & mask));
}

#[test]
fn small_filter_still_has_64_bits_and_keeps_all_inserts() {
    let mut bloom = LocBloom::new(0);
    for loc in 0..40u64 {
        bloom.insert(loc * 7919);
    }
    for loc in 0..40u64 {
        assert!(bloom.may_contain(loc * 7919));
    }
    let (a, b) = indexes(5, 63);
    assert!(a < 64 && b < 64);
}

#[test]
fn fresh_filter_is_empty_and_inserts_are_never_lost() {
    let mut bloom = LocBloom::new(256);
    for y in 0..200u64 {
        assert!(!bloom.may_contain(y * 31 + 5), "a fresh filter answers no");
    }
    let locs = [3u64, 0xdead_beef, 77, 1 << 40];
    let mut seen_maybe: Vec<u64> = Vec::new();
    for (i, &l) in locs.iter().enumerate() {
        bloom.insert(l);
        for &earlier in &locs[..=i] {
            assert!(bloom.may_contain(earlier));
        }
        for &y in &seen_maybe {
            assert!(bloom.may_contain(y), "a maybe never turns back into no");
        }
        seen_maybe = (0..200u64).filter(|&y| bloom.may_contain(y)).collect();
    }
}
