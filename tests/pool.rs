use std::collections::HashSet;

use seen_unseen::{Konadare192PxPlusPlus, Unseen};

fn numbers(r: std::ops::Range<usize>) -> Vec<String> {
    r.map(|x| x.to_string()).collect()
}

#[test]
fn never_poll_same_element_twice() {
    let mut unseen = Unseen::new(numbers(0..8));
    let mut rng = Konadare192PxPlusPlus::from_seed(8512851105331467714);
    let mut s = HashSet::new();

    for _ in 0..8 {
        assert!(s.insert(unseen.poll(&mut rng).unwrap().clone()));
    }
}

#[test]
fn none_when_empty() {
    let mut rng = Konadare192PxPlusPlus::from_seed(12783995747563634368);

    let mut unseen = Unseen::new(Vec::new());
    assert_eq!(unseen.poll(&mut rng), None);

    let mut unseen = Unseen::new(numbers(0..8));
    let mut i = 0;
    while unseen.poll(&mut rng).is_some() {
        i += 1;
        if i > 8 {
            panic!("`i` is greater than expected");
        }
    }
    assert_eq!(i, 8)
}

#[test]
fn same_order_after_reset() {
    let mut rng = Konadare192PxPlusPlus::from_seed(3654338965601285362);
    let mut unseen = Unseen::new(numbers(0..8));
    let mut s = Vec::new();
    while let Some(x) = unseen.poll(&mut rng) {
        s.push(x);
    }

    let mut rng = Konadare192PxPlusPlus::from_seed(3654338965601285362);
    unseen.reset();
    for x in s.iter() {
        assert_eq!(x, &unseen.poll(&mut rng).unwrap());
    }
}

#[test]
fn clone_generates_same_output() {
    let mut rng = Konadare192PxPlusPlus::from_seed(16667478474295396221);
    let mut unseen0 = Unseen::new(numbers(0..16));

    unseen0.poll(&mut rng);
    unseen0.poll(&mut rng);

    let mut rng0 = Konadare192PxPlusPlus::from_seed(12150609935105388669);
    let mut rng1 = Konadare192PxPlusPlus::from_seed(12150609935105388669);
    let mut unseen1 = unseen0.clone();

    while let (Some(x0), Some(x1)) = (unseen0.poll(&mut rng0), unseen1.poll(&mut rng1)) {
        assert_eq!(x0, x1);
    }
}

#[test]
fn each_candidate_is_yielded_exactly_once_then_none() {
    let n = 40;
    let mut unseen = Unseen::new(numbers(0..n));
    let mut rng = Konadare192PxPlusPlus::from_seed(5);
    let mut got: Vec<usize> = Vec::new();
    for _ in 0..n {
        got.push(unseen.poll(&mut rng).unwrap().parse().unwrap());
    }
    got.sort();
    assert_eq!(got, (0..n).collect::<Vec<usize>>());
    assert_eq!(unseen.poll(&mut rng), None);
    assert_eq!(unseen.poll(&mut rng), None);
}

#[test]
fn single_candidate_is_yielded_once() {
    let mut unseen = Unseen::new(vec!["only".to_string()]);
    let mut rng = Konadare192PxPlusPlus::from_seed(11);
    assert_eq!(unseen.poll(&mut rng), Some("only".to_string()));
    assert_eq!(unseen.poll(&mut rng), None);
}

#[test]
fn candidates_are_kept() {
    let unseen = Unseen::new(numbers(0..3));
    assert_eq!(unseen.candidates(), numbers(0..3));
}
