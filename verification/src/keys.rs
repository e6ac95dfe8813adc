//! Sorted-key reconstruction and search.
//!
//! A window's key block stores deltas of the sorted keys; the absolute
//! keys are their cumulative sums, which makes them non-decreasing by
//! construction. Duplicate keys are possible (the encoding is lossy), so
//! the search deterministically answers the leftmost match.

use vstd::prelude::*;

use crate::EchtError;

verus! {

/// Non-decreasing.
pub open spec fn sorted(s: Seq<u32>) -> bool {
    forall|i: int, j: int| 0 <= i <= j < s.len() ==> s[i] <= s[j]
}

/// The sum of the first `i` deltas.
pub open spec fn prefix_total(s: Seq<u32>, i: int) -> int
    decreases i,
{
    if i <= 0 {
        0
    } else {
        prefix_total(s, i - 1) + s[i - 1]
    }
}

/// Every prefix sum of the deltas stays within 32 bits.
pub open spec fn cumsum_ok(s: Seq<u32>) -> bool {
    forall|i: int| 0 <= i <= s.len() ==> prefix_total(s, i) <= u32::MAX
}

/// The cumulative sums: `keys[i]` is the sum of deltas `0 ..= i`.
pub open spec fn cumsum_spec(s: Seq<u32>) -> Seq<u32> {
    Seq::new(s.len(), |i: int| prefix_total(s, i + 1) as u32)
}

/// Prefix sums never shrink.
pub proof fn lemma_prefix_total_monotone(s: Seq<u32>, i: int, j: int)
    requires
        0 <= i <= j <= s.len(),
    ensures
        prefix_total(s, i) <= prefix_total(s, j),
    decreases j,
{
    if i < j {
        lemma_prefix_total_monotone(s, i, j - 1);
    }
}

/// As long as the sums fit 32 bits, the cumulative sums of a delta
/// sequence are non-decreasing.
pub proof fn lemma_cumsum_sorted(s: Seq<u32>)
    requires
        cumsum_ok(s),
    ensures
        sorted(cumsum_spec(s)),
{
    assert forall|i: int, j: int|
        0 <= i <= j < cumsum_spec(s).len() implies cumsum_spec(s)[i] <= cumsum_spec(s)[j] by {
        lemma_prefix_total_monotone(s, i + 1, j + 1);
        lemma_prefix_total_monotone(s, 0, i + 1);
        assert(prefix_total(s, 0) == 0);
    }
}

/// Turn decoded deltas into absolute keys by cumulative summation, or
/// report the block corrupt if a running sum leaves 32 bits.
pub fn cumsum(deltas: &Vec<u32>) -> (r: Result<Vec<u32>, EchtError>)
    ensures
        r is Ok <==> cumsum_ok(deltas@),
        r matches Ok(keys) ==> keys@ == cumsum_spec(deltas@),
        r matches Ok(keys) ==> sorted(keys@),
        r matches Err(e) ==> e == EchtError::CorruptBlock,
{
    let mut keys: Vec<u32> = Vec::new();
    let mut acc: u32 = 0;
    let mut i: usize = 0;
    while i < deltas.len()
        invariant
            i <= deltas@.len(),
            acc == prefix_total(deltas@, i as int),
            keys@.len() == i,
            forall|k: int| 0 <= k < i ==> keys@[k] == prefix_total(deltas@, k + 1),
        decreases deltas@.len() - i,
    {
        let d: u32 = deltas[i];
        if d > u32::MAX - acc {
            proof {
                assert(prefix_total(deltas@, i + 1) > u32::MAX);
            }
            return Err(EchtError::CorruptBlock);
        }
        acc = acc + d;
        keys.push(acc);
        i = i + 1;
    }
    proof {
        assert(keys@ =~= cumsum_spec(deltas@));
        assert forall|k: int| 0 <= k <= deltas@.len() implies prefix_total(deltas@, k)
            <= u32::MAX by {
            lemma_prefix_total_monotone(deltas@, k, deltas@.len() as int);
        }
        lemma_cumsum_sorted(deltas@);
    }
    Ok(keys)
}

/// The index of the leftmost occurrence of `key`, if any.
pub open spec fn find_spec(s: Seq<u32>, key: u32) -> Option<int>
    decreases s.len(),
{
    if s.len() == 0 {
        None
    } else if s[0] == key {
        Some(0)
    } else {
        match find_spec(s.subrange(1, s.len() as int), key) {
            Some(i) => Some(i + 1),
            None => None,
        }
    }
}

/// `find_spec` answers exactly the leftmost occurrence.
pub proof fn lemma_find_spec_characterizes(s: Seq<u32>, key: u32)
    ensures
        match find_spec(s, key) {
            Some(i) => 0 <= i < s.len() && s[i] == key && forall|j: int|
                0 <= j < i ==> s[j] != key,
            None => forall|j: int| 0 <= j < s.len() ==> s[j] != key,
        },
    decreases s.len(),
{
    if s.len() > 0 && s[0] != key {
        let tail = s.subrange(1, s.len() as int);
        lemma_find_spec_characterizes(tail, key);
        match find_spec(tail, key) {
            Some(i) => {
                assert(s[i + 1] == tail[i]);
                assert forall|j: int| 0 <= j < i + 1 implies s[j] != key by {
                    if j > 0 {
                        assert(tail[j - 1] == s[j]);
                        assert(tail[j - 1] != key);
                    }
                }
            },
            None => {
                assert forall|j: int| 0 <= j < s.len() implies s[j] != key by {
                    if j > 0 {
                        assert(tail[j - 1] == s[j]);
                        assert(tail[j - 1] != key);
                    }
                }
            },
        }
    }
}

/// The converse: a leftmost occurrence determines `find_spec`.
pub proof fn lemma_find_spec_of_leftmost(s: Seq<u32>, key: u32, i: int)
    requires
        0 <= i < s.len(),
        s[i] == key,
        forall|j: int| 0 <= j < i ==> s[j] != key,
    ensures
        find_spec(s, key) == Some(i),
    decreases s.len(),
{
    if s[0] != key {
        let tail = s.subrange(1, s.len() as int);
        assert(forall|j: int| 0 <= j < tail.len() ==> tail[j] == s[j + 1]);
        lemma_find_spec_of_leftmost(tail, key, i - 1);
    }
}

/// A key that occurs nowhere makes `find_spec` answer `None`.
pub proof fn lemma_find_spec_absent(s: Seq<u32>, key: u32)
    requires
        forall|j: int| 0 <= j < s.len() ==> s[j] != key,
    ensures
        find_spec(s, key) is None,
{
    lemma_find_spec_characterizes(s, key);
    if find_spec(s, key) is Some {
        let i = find_spec(s, key).unwrap();
        assert(s[i] == key);
    }
}

/// Binary search for `key` in the sorted keys; ties go to the leftmost
/// matching index.
pub fn find_key(keys: &Vec<u32>, key: u32) -> (r: Option<usize>)
    requires
        sorted(keys@),
    ensures
        match r {
            Some(i) => find_spec(keys@, key) == Some(i as int),
            None => find_spec(keys@, key) is None,
        },
{
    let mut lo: usize = 0;
    let mut hi: usize = keys.len();
    while lo < hi
        invariant
            lo <= hi <= keys@.len(),
            sorted(keys@),
            forall|j: int| 0 <= j < lo ==> keys@[j] < key,
            forall|j: int| hi <= j < keys@.len() ==> keys@[j] >= key,
        decreases hi - lo,
    {
        let mid: usize = lo + (hi - lo) / 2;
        if keys[mid] < key {
            lo = mid + 1;
        } else {
            hi = mid;
        }
    }
    if lo < keys.len() {
        let v: u32 = keys[lo];
        if v == key {
            proof {
                lemma_find_spec_of_leftmost(keys@, key, lo as int);
            }
            return Some(lo);
        }
    }
    proof {
        assert forall|j: int| 0 <= j < keys@.len() implies keys@[j] != key by {
            if j >= lo {
                assert(keys@[lo as int] <= keys@[j]);
            }
        }
        lemma_find_spec_absent(keys@, key);
    }
    None
}

} // verus!
