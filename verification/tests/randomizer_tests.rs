use tetris_core::randomizer::{DummyRng, ThreadRandomizer};
use tetris_core::traits::Randomizer;

#[test]
fn dummy_rng_multiplies_by_123() {
    let mut rng = DummyRng::with_seed(2);
    assert_eq!(rng.next(), 246);
    assert_eq!(rng.next(), 30258);
    assert_eq!(rng.next(), 3721734);
    assert_eq!(rng.next(), 457773282);
}

#[test]
fn dummy_rng_wraps() {
    let mut rng = DummyRng::with_seed(457773282);
    // 457773282 * 123 = 56306113686, which is 13 * 2^32 + 471538838.
    assert_eq!(rng.next(), 471538838);
    let mut negative = DummyRng::with_seed(i32::MAX);
    // (2^31 - 1) * 123 = 61 * 2^32 + 2^31 - 123.
    assert_eq!(negative.next(), i32::MAX - 122);
    let mut lowest = DummyRng::with_seed(i32::MIN);
    assert_eq!(lowest.next(), i32::MIN);
}

#[test]
fn dummy_rng_starts_from_one() {
    let mut rng = DummyRng::new();
    assert_eq!(rng.next(), 123);
    assert_eq!(rng.next(), 15129);
}

#[test]
fn dummy_rng_repeats_for_the_same_seed() {
    let mut a = DummyRng::with_seed(77);
    let mut b = DummyRng::with_seed(77);
    for _ in 0..50 {
        assert_eq!(a.next(), b.next());
    }
}

#[test]
fn dummy_rng_of_zero_stays_zero() {
    let mut rng = DummyRng::with_seed(0);
    assert_eq!(rng.next(), 0);
    assert_eq!(rng.next(), 0);
}

#[test]
fn thread_randomizer_yields_shape_indices() {
    let mut rng = ThreadRandomizer;
    let mut seen = [false; 7];
    for _ in 0..2000 {
        let v = rng.next();
        assert!((0..=6).contains(&v));
        seen[v as usize] = true;
    }
    assert!(seen.iter().all(|s| *s));
}

#[test]
fn default_dummy_rng_starts_from_zero() {
    let mut rng = DummyRng::default();
    assert_eq!(rng.next(), 0);
}

#[test]
fn a_cloned_dummy_rng_goes_on_alike() {
    let mut rng = DummyRng::with_seed(9);
    rng.next();
    let mut copy = rng.clone();
    assert_eq!(copy.next(), rng.next());
    assert_eq!(copy.next(), 9 * 123 * 123 * 123);
}
