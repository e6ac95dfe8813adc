//! The variant key encoder.
//!
//! A variant (position, reference allele, alternate allele) is packed
//! into one ordered 32-bit key: the position within its window in the
//! high 20 bits, then a 12-bit allele code. The code holds both allele
//! lengths and the bases, two bits per base, so a variant is
//! representable exactly when both alleles are non-empty, together hold
//! at most four bases, and use only A, C, G and T. Keys are
//! position-major, and representable variants map to distinct keys at
//! distinct codes; everything else shares one overflow code and is
//! recorded per window in the overflow list instead.

use vstd::prelude::*;

use crate::WINDOW_SIZE;

verus! {

/// The allele code reserved for variants the compact key cannot hold.
/// It is larger than every representable allele code.
pub const OVERFLOW_CODE: u32 = 0xFFF;

/// An overflow record: a variant of the window whose alleles do not fit
/// the compact key. Loaded with the window, but not consulted by lookup.
#[derive(Clone, Copy, Debug, PartialEq, Eq, Structural)]
pub struct LongVariant {
    /// The variant's genomic position.
    pub position: u32,
}

/// The two-bit code of a base.
pub open spec fn base_code(b: u8) -> nat {
    if b == 67 {  // C
        1
    } else if b == 71 {  // G
        2
    } else if b == 84 {  // T
        3
    } else {
        0
    }
}

/// Is the byte one of the four bases A, C, G, T?
pub open spec fn is_base(b: u8) -> bool {
    b == 65 || b == 67 || b == 71 || b == 84
}

pub open spec fn all_bases(s: Seq<u8>) -> bool {
    forall|i: int| 0 <= i < s.len() ==> is_base(#[trigger] s[i])
}

/// A variant's alleles fit the compact key: both non-empty, at most four
/// bases in total, all of them A, C, G or T.
pub open spec fn representable(reference: Seq<u8>, alternate: Seq<u8>) -> bool {
    &&& reference.len() >= 1
    &&& alternate.len() >= 1
    &&& reference.len() + alternate.len() <= 4
    &&& all_bases(reference)
    &&& all_bases(alternate)
}

/// The base at index `k` of the padded base string: the reference's
/// bases, then the alternate's, then zeros.
pub open spec fn padded_code(s: Seq<u8>, k: nat) -> nat {
    if k < s.len() {
        base_code(s[k as int])
    } else {
        0
    }
}

/// The first `k` padded bases of `s`, packed two bits each, first base
/// most significant.
pub open spec fn pack_prefix(s: Seq<u8>, k: nat) -> nat
    decreases k,
{
    if k == 0 {
        0
    } else {
        pack_prefix(s, (k - 1) as nat) * 4 + padded_code(s, (k - 1) as nat)
    }
}

/// All four padded bases of `s`, packed into eight bits.
pub open spec fn pack_bases(s: Seq<u8>) -> nat {
    pack_prefix(s, 4)
}

/// The 12-bit allele code: both lengths (minus one, two bits each), then
/// the packed bases; or the overflow code.
pub open spec fn allele_code_spec(reference: Seq<u8>, alternate: Seq<u8>) -> nat {
    if representable(reference, alternate) {
        ((reference.len() - 1) * 1024 + (alternate.len() - 1) * 256 + pack_bases(
            reference + alternate,
        )) as nat
    } else {
        OVERFLOW_CODE as nat
    }
}

/// The ordered 32-bit key of a variant: the position within its window,
/// then the allele code.
pub open spec fn encode_spec(position: u32, reference: Seq<u8>, alternate: Seq<u8>) -> u32 {
    ((position % WINDOW_SIZE) * 4096 + allele_code_spec(reference, alternate)) as u32
}

/// The packed bases of any string fit in eight bits.
pub proof fn lemma_pack_prefix_bound(s: Seq<u8>, k: nat)
    requires
        k <= 4,
    ensures
        pack_prefix(s, k) < quad_pow(k),
    decreases k,
{
    if k > 0 {
        lemma_pack_prefix_bound(s, (k - 1) as nat);
    }
}

/// `4^k`, for bounding packed bases.
pub open spec fn quad_pow(k: nat) -> nat {
    if k == 0 {
        1
    } else if k == 1 {
        4
    } else if k == 2 {
        16
    } else if k == 3 {
        64
    } else {
        256
    }
}

/// A representable allele code is below the overflow code.
pub proof fn lemma_allele_code_bound(reference: Seq<u8>, alternate: Seq<u8>)
    ensures
        allele_code_spec(reference, alternate) <= OVERFLOW_CODE,
        representable(reference, alternate) ==> allele_code_spec(reference, alternate)
            < OVERFLOW_CODE,
{
    if representable(reference, alternate) {
        lemma_pack_prefix_bound(reference + alternate, 4);
        assert(reference.len() - 1 <= 2);
        assert(alternate.len() - 1 <= 2);
    }
}

/// Check that every byte of `s` is a base.
fn check_bases(s: &[u8]) -> (r: bool)
    ensures
        r == all_bases(s@),
{
    let mut i: usize = 0;
    while i < s.len()
        invariant
            i <= s.len(),
            forall|k: int| 0 <= k < i ==> is_base(#[trigger] s@[k]),
        decreases s.len() - i,
    {
        let b: u8 = s[i];
        if !(b == 65 || b == 67 || b == 71 || b == 84) {
            return false;
        }
        i = i + 1;
    }
    true
}

/// The two-bit code of one base.
fn base_code_exec(b: u8) -> (r: u32)
    ensures
        r == base_code(b),
        r < 4,
{
    if b == 67 {
        1
    } else if b == 71 {
        2
    } else if b == 84 {
        3
    } else {
        0
    }
}

/// The padded base code at index `k` of reference-then-alternate.
fn padded_code_exec(reference: &[u8], alternate: &[u8], k: usize) -> (r: u32)
    requires
        reference@.len() + alternate@.len() <= 4,
        k < 4,
    ensures
        r == padded_code(reference@ + alternate@, k as nat),
        r < 4,
{
    if k < reference.len() {
        base_code_exec(reference[k])
    } else if k - reference.len() < alternate.len() {
        base_code_exec(alternate[k - reference.len()])
    } else {
        0
    }
}

/// Encode a variant as its ordered 32-bit key. Every variant gets a key;
/// ones the compact scheme cannot hold share the overflow code, so
/// distinct keys are only guaranteed for representable variants (see
/// `lemma_encode_injective`).
pub fn encode(position: u32, reference: &[u8], alternate: &[u8]) -> (r: u32)
    ensures
        r == encode_spec(position, reference@, alternate@),
{
    let rl: usize = reference.len();
    let al: usize = alternate.len();
    let code: u32 = if rl >= 1 && al >= 1 && rl <= 3 && al <= 3 && rl + al <= 4 && check_bases(
        reference,
    ) && check_bases(alternate) {
        let mut packed: u32 = 0;
        let mut k: usize = 0;
        while k < 4
            invariant
                k <= 4,
                reference@.len() + alternate@.len() <= 4,
                packed == pack_prefix(reference@ + alternate@, k as nat),
                packed < 256,
            decreases 4 - k,
        {
            proof {
                lemma_pack_prefix_bound(reference@ + alternate@, k as nat);
            }
            packed = packed * 4 + padded_code_exec(reference, alternate, k);
            k = k + 1;
        }
        ((rl - 1) as u32) * 1024 + ((al - 1) as u32) * 256 + packed
    } else {
        OVERFLOW_CODE
    };
    proof {
        lemma_allele_code_bound(reference@, alternate@);
    }
    assert(code == allele_code_spec(reference@, alternate@));
    assert(position % WINDOW_SIZE < WINDOW_SIZE);
    (position % WINDOW_SIZE) * 4096 + code
}

/// Keys are position-major: within a window, a variant at a smaller
/// window-relative position gets a smaller key, whatever the alleles.
pub proof fn lemma_encode_position_major(
    p1: u32,
    r1: Seq<u8>,
    a1: Seq<u8>,
    p2: u32,
    r2: Seq<u8>,
    a2: Seq<u8>,
)
    requires
        p1 % WINDOW_SIZE < p2 % WINDOW_SIZE,
    ensures
        encode_spec(p1, r1, a1) < encode_spec(p2, r2, a2),
{
    lemma_allele_code_bound(r1, a1);
    lemma_allele_code_bound(r2, a2);
}

/// Two equal packed-base prefixes have equal padded codes everywhere
/// below their length.
proof fn lemma_pack_prefix_injective(s1: Seq<u8>, s2: Seq<u8>, k: nat)
    requires
        k <= 4,
        pack_prefix(s1, k) == pack_prefix(s2, k),
    ensures
        forall|j: nat| j < k ==> padded_code(s1, j) == padded_code(s2, j),
    decreases k,
{
    if k > 0 {
        let p1 = pack_prefix(s1, (k - 1) as nat);
        let p2 = pack_prefix(s2, (k - 1) as nat);
        let c1 = padded_code(s1, (k - 1) as nat);
        let c2 = padded_code(s2, (k - 1) as nat);
        assert(c1 < 4 && c2 < 4);
        assert(p1 * 4 + c1 == p2 * 4 + c2);
        assert(p1 == p2 && c1 == c2) by (nonlinear_arith)
            requires
                c1 < 4,
                c2 < 4,
                p1 * 4 + c1 == p2 * 4 + c2,
        ;
        lemma_pack_prefix_injective(s1, s2, (k - 1) as nat);
        assert(forall|j: nat| j < k ==> padded_code(s1, j) == padded_code(s2, j)) by {
            assert(padded_code(s1, (k - 1) as nat) == padded_code(s2, (k - 1) as nat));
        }
    }
}

/// Within one window, the key is injective on representable variants:
/// equal keys mean the same window-relative position and the same
/// alleles.
pub proof fn lemma_encode_injective(
    p1: u32,
    r1: Seq<u8>,
    a1: Seq<u8>,
    p2: u32,
    r2: Seq<u8>,
    a2: Seq<u8>,
)
    requires
        representable(r1, a1),
        representable(r2, a2),
        encode_spec(p1, r1, a1) == encode_spec(p2, r2, a2),
    ensures
        p1 % WINDOW_SIZE == p2 % WINDOW_SIZE,
        r1 == r2,
        a1 == a2,
{
    lemma_allele_code_bound(r1, a1);
    lemma_allele_code_bound(r2, a2);
    let c1 = allele_code_spec(r1, a1);
    let c2 = allele_code_spec(r2, a2);
    let w1 = (p1 % WINDOW_SIZE) as nat;
    let w2 = (p2 % WINDOW_SIZE) as nat;
    assert(w1 * 4096 + c1 < 0x100000000) by (nonlinear_arith)
        requires
            w1 < 0x100000,
            c1 < 4096,
    ;
    assert(w2 * 4096 + c2 < 0x100000000) by (nonlinear_arith)
        requires
            w2 < 0x100000,
            c2 < 4096,
    ;
    assert(w1 * 4096 + c1 == w2 * 4096 + c2);
    assert(w1 == w2 && c1 == c2) by (nonlinear_arith)
        requires
            c1 < 4096,
            c2 < 4096,
            w1 * 4096 + c1 == w2 * 4096 + c2,
    ;
    let rl1 = (r1.len() - 1) as nat;
    let al1 = (a1.len() - 1) as nat;
    let rl2 = (r2.len() - 1) as nat;
    let al2 = (a2.len() - 1) as nat;
    let b1 = pack_bases(r1 + a1);
    let b2 = pack_bases(r2 + a2);
    lemma_pack_prefix_bound(r1 + a1, 4);
    lemma_pack_prefix_bound(r2 + a2, 4);
    assert(rl1 * 1024 + al1 * 256 + b1 == rl2 * 1024 + al2 * 256 + b2);
    assert(rl1 == rl2 && al1 == al2 && b1 == b2) by (nonlinear_arith)
        requires
            rl1 <= 2,
            al1 <= 2,
            rl2 <= 2,
            al2 <= 2,
            b1 < 256,
            b2 < 256,
            rl1 * 1024 + al1 * 256 + b1 == rl2 * 1024 + al2 * 256 + b2,
    ;
    lemma_pack_prefix_injective(r1 + a1, r2 + a2, 4);
    assert(r1 =~= r2) by {
        assert forall|i: int| 0 <= i < r1.len() implies r1[i] == r2[i] by {
            assert(padded_code(r1 + a1, i as nat) == padded_code(r2 + a2, i as nat));
            assert((r1 + a1)[i] == r1[i]);
            assert((r2 + a2)[i] == r2[i]);
            assert(is_base(r1[i]) && is_base(r2[i]));
            assert(base_code(r1[i]) == base_code(r2[i]));
        }
    }
    assert(a1 =~= a2) by {
        assert forall|i: int| 0 <= i < a1.len() implies a1[i] == a2[i] by {
            let k = r1.len() + i;
            assert(padded_code(r1 + a1, k as nat) == padded_code(r2 + a2, k as nat));
            assert((r1 + a1)[k] == a1[i]);
            assert((r2 + a2)[k] == a2[i]);
            assert(base_code(a1[i]) == base_code(a2[i]));
            assert(is_base(a1[i]) && is_base(a2[i]));
        }
    }
}

} // verus!
