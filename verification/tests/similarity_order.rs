use embeddings::similarity::{Similarity, INFINITY_BITS, SIGN_BIT};

fn score(value: f32) -> Similarity {
    Similarity::from_bits(value.to_bits())
}

fn numbers() -> Vec<f32> {
    vec![
        f32::NEG_INFINITY,
        f32::MIN,
        -1.5,
        -1.0,
        -0.75,
        -f32::MIN_POSITIVE,
        -1.0e-45,
        -0.0,
        0.0,
        1.0e-45,
        f32::MIN_POSITIVE,
        0.25,
        0.5,
        0.99999994,
        1.0,
        1.0000001,
        3.0,
        f32::MAX,
        f32::INFINITY,
    ]
}

#[test]
fn bits_round_trip() {
    for bits in [0u32, 1, 0x3f80_0000, 0x7fc0_0000, 0x8000_0000, 0xffff_ffff] {
        assert_eq!(Similarity::from_bits(bits).to_bits(), bits);
        assert_eq!(Similarity::from_bits(bits).bits, bits);
    }
}

#[test]
fn constants_are_the_sign_and_infinity_patterns() {
    assert_eq!(SIGN_BIT, (-0.0f32).to_bits());
    assert_eq!(INFINITY_BITS, f32::INFINITY.to_bits());
}

#[test]
fn key_of_known_patterns() {
    assert_eq!(score(0.0).key(), 0);
    assert_eq!(score(-0.0).key(), 0);
    assert_eq!(score(1.0).key(), 1_065_353_216);
    assert_eq!(score(-1.0).key(), -1_065_353_216);
    assert_eq!(score(0.5).key(), 1_056_964_608);
    assert_eq!(score(f32::INFINITY).key(), 2_139_095_040);
    assert_eq!(score(f32::NEG_INFINITY).key(), -2_139_095_040);
    assert_eq!(Similarity::from_bits(0xffff_ffff).key(), -2_147_483_647);
    assert_eq!(Similarity::from_bits(0x7fff_ffff).key(), 2_147_483_647);
}

#[test]
fn key_orders_numbers_as_their_values() {
    let values = numbers();
    for a in &values {
        for b in &values {
            let by_key = score(*a).key().cmp(&score(*b).key());
            let by_value = a.partial_cmp(b).unwrap();
            assert_eq!(by_key, by_value);
        }
    }
}

#[test]
fn nan_patterns_are_recognised() {
    assert!(score(f32::NAN).is_nan());
    assert!(score(-f32::NAN).is_nan());
    assert!(Similarity::from_bits(0x7f80_0001).is_nan());
    assert!(Similarity::from_bits(0x7fff_ffff).is_nan());
    assert!(Similarity::from_bits(0xff80_0001).is_nan());
    assert!(Similarity::from_bits(0xffff_ffff).is_nan());
    assert!(score(0.0f32 / 0.0f32).is_nan());
}

#[test]
fn numbers_are_not_nan() {
    for value in numbers() {
        assert!(!score(value).is_nan());
        assert_eq!(score(value).is_nan(), value.is_nan());
    }
    assert!(!Similarity::from_bits(0x7f80_0000).is_nan());
    assert!(!Similarity::from_bits(0xff80_0000).is_nan());
}

#[test]
fn greater_number_ranks_before_smaller() {
    let values = numbers();
    for a in &values {
        for b in &values {
            assert_eq!(score(*a).ranks_before(score(*b)), a > b);
        }
    }
}

#[test]
fn number_ranks_before_nan_and_never_after() {
    let nan = score(f32::NAN);
    for value in numbers() {
        assert!(score(value).ranks_before(nan));
        assert!(!nan.ranks_before(score(value)));
        assert!(!nan.ties_with(score(value)));
    }
}

#[test]
fn nan_patterns_tie_with_each_other() {
    let quiet = score(f32::NAN);
    let negative = Similarity::from_bits(0xffc0_0001);
    assert!(!quiet.ranks_before(negative));
    assert!(!negative.ranks_before(quiet));
    assert!(quiet.ties_with(negative));
    assert!(quiet.ties_with(quiet));
}

#[test]
fn zeros_tie() {
    assert!(score(0.0).ties_with(score(-0.0)));
    assert!(!score(0.0).ranks_before(score(-0.0)));
    assert!(!score(-0.0).ranks_before(score(0.0)));
}

#[test]
fn ties_are_exactly_equal_numbers() {
    let values = numbers();
    for a in &values {
        for b in &values {
            assert_eq!(score(*a).ties_with(score(*b)), a == b);
        }
    }
}

#[test]
fn nothing_ranks_before_itself() {
    for value in numbers() {
        assert!(!score(value).ranks_before(score(value)));
    }
    assert!(!score(f32::NAN).ranks_before(score(f32::NAN)));
}

#[test]
fn order_agrees_with_the_numbers_on_arbitrary_patterns() {
    let mut seed: u32 = 2024;
    let mut patterns: Vec<u32> = Vec::new();
    for _ in 0..400 {
        seed = seed.wrapping_mul(1664525).wrapping_add(1013904223);
        patterns.push(seed);
        patterns.push(seed & 0x807f_ffff);
        patterns.push(seed | 0x7f80_0000);
    }
    for a in &patterns {
        for b in &patterns {
            let x = f32::from_bits(*a);
            let y = f32::from_bits(*b);
            let ahead = !x.is_nan() && (y.is_nan() || x > y);
            assert_eq!(Similarity::from_bits(*a).ranks_before(Similarity::from_bits(*b)), ahead);
            assert_eq!(Similarity::from_bits(*a).is_nan(), x.is_nan());
        }
    }
}
