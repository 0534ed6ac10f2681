use hashed_permutation::{HashedPermutation, PermutationError};
use std::collections::{HashMap, HashSet};

/// The lengths and the seeds of the cases, in that order.
fn lengths_and_seeds() -> (Vec<u32>, Vec<u32>) {
    let lengths: Vec<u32> = vec![100, 5, 13, 128, 249];
    let seeds: Vec<u32> = vec![100, 5, 13, 128, 249];
    assert_eq!(lengths.len(), seeds.len());
    (lengths, seeds)
}

#[test]
fn test_domain() {
    let (lengths, seeds) = lengths_and_seeds();

    for (&length, seed) in lengths.iter().zip(seeds) {
        let perm = HashedPermutation { seed, length };

        for i in 0..perm.length {
            let res = perm.shuffle(i);
            assert!(res.is_ok());
            assert!(res.unwrap() < perm.length);
        }
    }
}

#[test]
fn kensler_test_bijection() {
    let (lengths, seeds) = lengths_and_seeds();

    for (length, seed) in lengths.iter().zip(seeds) {
        let perm = HashedPermutation { seed, length: *length };
        let mut map = HashMap::new();

        for i in 0..perm.length {
            let res = perm.shuffle(i).unwrap();
            assert!(map.get(&res).is_none());
            map.insert(res, i);
        }
        let mut keys_vec: Vec<u32> = map.keys().map(|k| *k).collect();
        keys_vec.sort();
        let mut vals_vec: Vec<u32> = map.values().map(|v| *v).collect();
        vals_vec.sort();
        let ground_truth: Vec<u32> = (0..*length).collect();
        assert_eq!(ground_truth, keys_vec);
        assert_eq!(ground_truth, vals_vec);
    }
}

#[test]
fn test_out_of_range() {
    let lengths: Vec<u32> = vec![1, 50, 256, 18];
    let offsets: Vec<u32> = vec![0, 1, 5, 15, 100];

    for length in lengths {
        let perm = HashedPermutation { seed: 0, length };

        for offset in &offsets {
            let result = perm.shuffle(length + offset);
            assert!(result.is_err());
        }
    }
}

fn all_values(perm: &HashedPermutation) -> Vec<u32> {
    (0..perm.length).map(|i| perm.shuffle(i).unwrap()).collect()
}

#[test]
fn length_five_seed_hundred_is_a_permutation() {
    let perm = HashedPermutation::new_with_seed(5, 100);
    let values = all_values(&perm);
    let set: HashSet<u32> = values.iter().copied().collect();
    assert_eq!(set.len(), 5);
    assert_eq!(set, (0..5).collect::<HashSet<u32>>());
    assert_eq!(values, vec![1, 2, 4, 3, 0]);
}

#[test]
fn exact_values_for_seed_1234() {
    let perm = HashedPermutation::new_with_seed(10, 1234);
    assert_eq!(all_values(&perm), vec![7, 9, 3, 6, 8, 1, 4, 0, 5, 2]);
}

#[test]
fn length_one_has_one_value() {
    let perm = HashedPermutation::new_with_seed(1, 0);
    assert_eq!(perm.shuffle(0), Ok(0));
    assert_eq!(
        perm.shuffle(1),
        Err(PermutationError::ShuffleOutOfRange { shuffle: 1, max_shuffle: 1 })
    );
}

#[test]
fn out_of_range_carries_index_and_length() {
    let perm = HashedPermutation::new_with_seed(256, 13);
    assert_eq!(
        perm.shuffle(300),
        Err(PermutationError::ShuffleOutOfRange { shuffle: 300, max_shuffle: 256 })
    );
    assert_eq!(
        perm.shuffle(256),
        Err(PermutationError::ShuffleOutOfRange { shuffle: 256, max_shuffle: 256 })
    );
    assert!(perm.shuffle(255).is_ok());
}

#[test]
fn seeds_select_different_permutations() {
    let a = all_values(&HashedPermutation::new_with_seed(128, 5));
    let b = all_values(&HashedPermutation::new_with_seed(128, 7));
    assert_ne!(a, b);
    let expected: Vec<u32> = (0..128).collect();
    let mut sa = a.clone();
    sa.sort();
    let mut sb = b.clone();
    sb.sort();
    assert_eq!(sa, expected);
    assert_eq!(sb, expected);
}

#[test]
fn same_seed_and_length_give_same_values() {
    let a = HashedPermutation::new_with_seed(249, 77);
    let b = HashedPermutation::new_with_seed(249, 77);
    for i in 0..300 {
        assert_eq!(a.shuffle(i), b.shuffle(i));
    }
}

#[test]
fn largest_length() {
    let perm = HashedPermutation::new_with_seed(u32::MAX, 0xdeadbeef);
    assert_eq!(perm.shuffle(u32::MAX - 1), Ok(263736416));
    assert_eq!(
        perm.shuffle(u32::MAX),
        Err(PermutationError::ShuffleOutOfRange { shuffle: u32::MAX, max_shuffle: u32::MAX })
    );
    let other = HashedPermutation::new_with_seed(u32::MAX, u32::MAX);
    assert_eq!(other.shuffle(0), Ok(164371007));
}

#[test]
fn large_seed_rotation_stays_a_permutation() {
    let perm = HashedPermutation::new_with_seed(3, u32::MAX);
    let mut values = all_values(&perm);
    values.sort();
    assert_eq!(values, vec![0, 1, 2]);
}

#[test]
fn power_of_two_length() {
    let perm = HashedPermutation::new_with_seed(1 << 20, 7);
    assert_eq!(perm.shuffle(12345), Ok(1019398));
}

#[test]
fn random_seed_keeps_length_and_permutes() {
    let perm = HashedPermutation::new(37);
    assert_eq!(perm.length, 37);
    let mut values = all_values(&perm);
    values.sort();
    assert_eq!(values, (0..37).collect::<Vec<u32>>());
}
