use seen_unseen::{Konadare192PxPlusPlus, KNOMUL, KSINK, PRNG};

#[test]
fn test_f() {
    println!("{}", KSINK::hash(5943847430032560006, "2202 TSEC 85:62:71 32 tcO nuS".as_bytes()));
}

#[test]
fn game_over_coding_v01_f() {
    println!("{}", KSINK::permute_index(3419954961163653668, 17792727522076118826));
}

#[test]
fn game_over_coding_v01_g() {
    let mut rng = Konadare192PxPlusPlus::from_seed(8366408846780968924);
    let mut s: Vec<Option<usize>> =
        (0..3).map(|_| rng.next_with_upper_bound(64) as usize).map(Some).collect();
    s.sort();
    println!("{:?}", s);
}

#[test]
fn test_g() {
    let mut rng = Konadare192PxPlusPlus::from_seed(8366408846780968924);
    let mut s: Vec<Option<usize>> =
        (0..3).map(|_| rng.next_with_upper_bound(64) as usize).map(Some).collect();
    s.sort();
    println!("{:?}", s);
}

#[test]
fn bounded_draws_match_recorded_values() {
    let mut rng = Konadare192PxPlusPlus::from_seed(8366408846780968924);
    let mut s: Vec<usize> = (0..3).map(|_| rng.next_with_upper_bound(64) as usize).collect();
    s.sort();
    assert_eq!(s, vec![30, 31, 54]);
}

#[test]
fn ksink_permutation_matches_recorded_value() {
    assert_eq!(
        KSINK::permute_index(17792727522076118826, 2123399681707578173),
        3419954961163653668
    );
}

#[test]
fn bounded_draws_stay_below_bound() {
    let mut rng = Konadare192PxPlusPlus::from_seed(1);
    for bound in [1u32, 2, 3, 7, 64, 1000, 1_000_000_000, 0x7fff_ffff] {
        for _ in 0..100 {
            assert!(rng.next_with_upper_bound(bound) < bound);
        }
    }
}

#[test]
fn bound_one_always_gives_zero() {
    let mut rng = Konadare192PxPlusPlus::from_seed(99);
    for _ in 0..50 {
        assert_eq!(rng.next_with_upper_bound(1), 0);
    }
}

#[test]
fn generator_is_determined_by_its_seed() {
    let mut a = Konadare192PxPlusPlus::from_seed(42);
    let mut b = Konadare192PxPlusPlus::from_seed(42);
    let mut c = Konadare192PxPlusPlus::from_seed(43);
    let xs: Vec<u64> = (0..16).map(|_| a.next()).collect();
    let ys: Vec<u64> = (0..16).map(|_| b.next()).collect();
    let zs: Vec<u64> = (0..16).map(|_| c.next()).collect();
    assert_eq!(xs, ys);
    assert_ne!(xs, zs);
}

#[test]
fn prng_handle_follows_the_generator() {
    let mut p = PRNG::fromSeed(7);
    let mut g = Konadare192PxPlusPlus::from_seed(7);
    assert_eq!(p.next(), g.next());
    assert_eq!(p.nextWithUpperBound(10), g.next_with_upper_bound(10));
}

#[test]
fn hash_of_no_bytes_is_the_seed() {
    assert_eq!(KNOMUL::hash(123, &[]), 123);
    assert_eq!(KSINK::hash(456, &[]), 456);
}

#[test]
fn hash_folds_permutation_over_bytes() {
    let seed = 2636128771936786712u64;
    let h = KSINK::permute_index(2, KSINK::permute_index(1, seed));
    assert_eq!(KSINK::hash(seed, &[1, 2]), h);
    let k = KNOMUL::permute_index(9, KNOMUL::permute_index(8, seed));
    assert_eq!(KNOMUL::hash(seed, &[8, 9]), k);
    assert_ne!(KSINK::hash(seed, &[1, 2]), KSINK::hash(seed, &[2, 1]));
}

#[test]
fn mix_never_leaves_all_zero_words() {
    let mut s = vec![0u64; 3];
    KNOMUL::mix(&mut s, 0);
    assert!(s.iter().any(|&x| x != 0));
    let mut t = vec![0u64; 1];
    KNOMUL::mix(&mut t, 5);
    assert_eq!(t.len(), 1);
    let mut u: Vec<u64> = vec![];
    KNOMUL::stir(&mut u, true);
    assert!(u.is_empty());
}

#[test]
fn from_seed_uses_mixed_words() {
    let mut s = vec![0u64; 3];
    KNOMUL::mix(&mut s, 77);
    let mut g = Konadare192PxPlusPlus::from_seed(77);
    assert_eq!(g.next(), s[1] ^ s[2]);
}
