use hashed_permutation::{HashedIter, HashedPermutation};
use std::collections::HashSet;

/// The lengths and the seeds of the cases, in that order.
fn lengths_and_seeds() -> (Vec<u32>, Vec<u32>) {
    let lengths: Vec<u32> = vec![100, 5, 13, 128, 249];
    let seeds: Vec<u32> = vec![100, 5, 13, 128, 249];
    assert_eq!(lengths.len(), seeds.len());
    (lengths, seeds)
}

#[test]
fn iterator_test_bijection() {
    let (lengths, seeds) = lengths_and_seeds();

    for (&length, seed) in lengths.iter().zip(seeds) {
        let mut it = HashedIter::new_with_seed(length, seed);
        let mut set = HashSet::new();

        while let Some(elem) = it.next() {
            assert!(set.get(&elem).is_none());
            set.insert(elem);
        }
        let mut result: Vec<u32> = set.into_iter().collect();
        result.sort();
        let expected: Vec<u32> = (0..length).collect();
        assert_eq!(expected, result);
    }
}

#[test]
fn iterator_matches_shuffle_in_order() {
    for (length, seed) in [(1u32, 0u32), (5, 100), (10, 1234), (249, 249)] {
        let perm = HashedPermutation::new_with_seed(length, seed);
        let mut it = HashedIter::new_with_seed(length, seed);
        let mut produced: Vec<u32> = Vec::new();
        while let Some(v) = it.next() {
            produced.push(v);
        }
        let expected: Vec<u32> = (0..length).map(|i| perm.shuffle(i).unwrap()).collect();
        assert_eq!(produced.len(), length as usize);
        assert_eq!(produced, expected);
    }
}

#[test]
fn iterator_exact_values() {
    let mut it = HashedIter::new_with_seed(10, 1234);
    let mut produced: Vec<u32> = Vec::new();
    while let Some(v) = it.next() {
        produced.push(v);
    }
    assert_eq!(produced, vec![7, 9, 3, 6, 8, 1, 4, 0, 5, 2]);
}

#[test]
fn exhausted_iterator_stays_exhausted() {
    let mut it = HashedIter::new_with_seed(2, 9);
    assert!(it.next().is_some());
    assert!(it.next().is_some());
    assert_eq!(it.next(), None);
    assert_eq!(it.next(), None);
}

#[test]
fn random_seed_iterator_visits_every_value() {
    let mut it = HashedIter::new(20);
    let mut produced: Vec<u32> = Vec::new();
    while let Some(v) = it.next() {
        produced.push(v);
    }
    produced.sort();
    assert_eq!(produced, (0..20).collect::<Vec<u32>>());
}
