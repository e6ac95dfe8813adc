//! The variant key encoder: exact key values, position-major order, and
//! the overflow code.

use echtvar::WINDOW_SIZE;
use echtvar::var32::{OVERFLOW_CODE, encode};

#[test]
fn exact_key_for_snv() {
    // Window-relative position 1, alleles C -> T: lengths 1 and 1 give
    // zero length bits; bases pack to ((1*4 + 3)*4)*4 = 112.
    assert_eq!(encode(1, b"C", b"T"), 1 * 4096 + 112);
}

#[test]
fn exact_key_for_lowest_code() {
    // A -> A at the window's first position packs to all-zero bits.
    assert_eq!(encode(0, b"A", b"A"), 0);
}

#[test]
fn key_uses_window_relative_position() {
    let k = encode(7, b"C", b"T");
    assert_eq!(encode(WINDOW_SIZE + 7, b"C", b"T"), k);
    assert_eq!(encode(5 * WINDOW_SIZE + 7, b"G", b"A"), 7 * 4096 + (2 * 4 + 0) * 16);
}

#[test]
fn keys_are_position_major() {
    // A smaller window-relative position wins, whatever the alleles.
    assert!(encode(10, b"T", b"T") < encode(11, b"A", b"A"));
    assert!(encode(0, b"ACGT", b"ACGTA") < encode(1, b"A", b"A"));
}

#[test]
fn distinct_representable_variants_get_distinct_keys() {
    let variants: [(&[u8], &[u8]); 6] =
        [(b"A", b"C"), (b"C", b"A"), (b"A", b"CG"), (b"AC", b"G"), (b"ACG", b"T"), (b"T", b"ACG")];
    for (i, (r1, a1)) in variants.iter().enumerate() {
        for (j, (r2, a2)) in variants.iter().enumerate() {
            let same = encode(42, r1, a1) == encode(42, r2, a2);
            assert_eq!(same, i == j);
        }
    }
}

#[test]
fn unrepresentable_variants_share_the_overflow_code() {
    // Too long, empty, and non-ACGT alleles all overflow.
    assert_eq!(encode(0, b"ACGTA", b"A"), OVERFLOW_CODE);
    assert_eq!(encode(0, b"ACG", b"TT"), OVERFLOW_CODE);
    assert_eq!(encode(0, b"", b"A"), OVERFLOW_CODE);
    assert_eq!(encode(0, b"N", b"A"), OVERFLOW_CODE);
    assert_eq!(encode(3, b"ACGTA", b"A"), 3 * 4096 + OVERFLOW_CODE);
}
