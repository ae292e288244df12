use netmon::monitor::ordering::{key_before, stable_order, stable_sort};

#[test]
fn keys_compare_place_by_place() {
    assert!(key_before(&vec![1, 2], &vec![1, 3]));
    assert!(!key_before(&vec![1, 3], &vec![1, 2]));
    assert!(key_before(&vec![1], &vec![1, 0]));
    assert!(!key_before(&vec![1, 0], &vec![1]));
    assert!(!key_before(&vec![4, 5], &vec![4, 5]));
    assert!(!key_before(&vec![], &vec![]));
}

#[test]
fn equal_keys_keep_their_order_both_ways() {
    let keys = vec![vec![2], vec![1], vec![2], vec![1], vec![3]];
    assert_eq!(stable_order(&keys, false), vec![1, 3, 0, 2, 4]);
    assert_eq!(stable_order(&keys, true), vec![4, 0, 2, 1, 3]);
}

#[test]
fn sorting_agrees_with_the_standard_library() {
    let mut seed: u64 = 7;
    for size in 0..40usize {
        let mut items: Vec<(u64, usize)> = Vec::new();
        for index in 0..size {
            seed = seed.wrapping_mul(6364136223846793005).wrapping_add(1442695040888963407);
            items.push(((seed >> 33) % 9, index));
        }
        let keys: Vec<Vec<u64>> = items.iter().map(|item| vec![item.0]).collect();
        let mut expected = items.clone();
        expected.sort_by_key(|item| item.0);
        assert_eq!(stable_sort(items.clone(), &keys, false), expected);
        let mut expected = items.clone();
        expected.sort_by(|a, b| b.0.cmp(&a.0));
        assert_eq!(stable_sort(items, &keys, true), expected);
    }
}
