use pitico::codec::to_base62;
use std::collections::HashSet;

#[test]
fn encodes_single_symbols() {
    assert_eq!(to_base62(&0), "0");
    assert_eq!(to_base62(&1), "1");
    assert_eq!(to_base62(&9), "9");
    assert_eq!(to_base62(&10), "A");
    assert_eq!(to_base62(&35), "Z");
    assert_eq!(to_base62(&36), "a");
    assert_eq!(to_base62(&61), "z");
}

#[test]
fn encodes_several_symbols_most_significant_first() {
    assert_eq!(to_base62(&62), "10");
    assert_eq!(to_base62(&125), "21");
    assert_eq!(to_base62(&3843), "zz");
    assert_eq!(to_base62(&3844), "100");
}

#[test]
fn encodes_largest_identifier() {
    assert_eq!(to_base62(&u64::MAX), "LygHa16AHYF");
}

#[test]
fn encoding_is_deterministic() {
    for id in [0u64, 1, 61, 62, 123_456_789, u64::MAX] {
        assert_eq!(to_base62(&id), to_base62(&id));
    }
}

#[test]
fn encoding_is_injective_on_a_range() {
    let mut seen = HashSet::new();
    for id in 0u64..20_000 {
        assert!(seen.insert(to_base62(&id)));
    }
}
