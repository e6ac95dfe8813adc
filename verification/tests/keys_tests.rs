//! Key reconstruction and search: cumulative sums, overflow detection,
//! and the leftmost tie-break.

use echtvar::EchtError;
use echtvar::keys::{cumsum, find_key};

#[test]
fn cumsum_exact_values() {
    assert_eq!(cumsum(&vec![5, 3, 4]).unwrap(), vec![5, 8, 12]);
    assert_eq!(cumsum(&vec![]).unwrap(), Vec::<u32>::new());
    assert_eq!(cumsum(&vec![0, 0, 7]).unwrap(), vec![0, 0, 7]);
}

#[test]
fn cumsum_overflow_is_corrupt() {
    assert_eq!(cumsum(&vec![u32::MAX, 1]), Err(EchtError::CorruptBlock));
    assert_eq!(cumsum(&vec![u32::MAX, 0]).unwrap(), vec![u32::MAX, u32::MAX]);
}

#[test]
fn find_key_answers_the_leftmost_match() {
    let keys: Vec<u32> = vec![1, 5, 5, 5, 9];
    assert_eq!(find_key(&keys, 5), Some(1));
    assert_eq!(find_key(&keys, 1), Some(0));
    assert_eq!(find_key(&keys, 9), Some(4));
    assert_eq!(find_key(&keys, 4), None);
    assert_eq!(find_key(&keys, 10), None);
    assert_eq!(find_key(&vec![], 3), None);
}
