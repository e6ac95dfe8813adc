//! The integer block codec.
//!
//! A value block is a 4-byte little-endian count `n` followed by `n`
//! unsigned 32-bit integers in the streaming variable-byte layout: one
//! control byte per group of four numbers, all control bytes first, then
//! the numbers' bytes. Two bits of the control byte give each number's
//! encoded length minus one, the first number of the group in the lowest
//! bits; each number is little-endian. A trailing group of fewer than
//! four numbers uses only the low bit pairs of its control byte.
//!
//! Decoding accounts for every byte: a block whose payload is not
//! consumed exactly is rejected, never silently short-read.

use vstd::prelude::*;

use crate::EchtError;

verus! {

/// The value of a little-endian byte string: byte 0 is least significant.
pub open spec fn le_val(b: Seq<u8>) -> nat
    decreases b.len(),
{
    if b.len() == 0 {
        0
    } else {
        b[0] as nat + 256 * le_val(b.subrange(1, b.len() as int))
    }
}

/// A little-endian value of at most four bytes fits in 32 bits.
pub proof fn lemma_le_val_bound(b: Seq<u8>)
    ensures
        b.len() == 0 ==> le_val(b) == 0,
        b.len() == 1 ==> le_val(b) < 0x100,
        b.len() == 2 ==> le_val(b) < 0x10000,
        b.len() == 3 ==> le_val(b) < 0x1000000,
        b.len() == 4 ==> le_val(b) < 0x100000000,
    decreases b.len(),
{
    if b.len() > 0 {
        lemma_le_val_bound(b.subrange(1, b.len() as int));
    }
}

/// How many control bytes a block of `n` numbers has: one per group of
/// four, rounded up.
pub open spec fn ctrl_len(n: nat) -> nat {
    n / 4 + if n % 4 == 0 {
        0nat
    } else {
        1nat
    }
}

/// The divisor that moves the two control bits of the `j`-th number of a
/// group (0 <= j < 4) into the low bits.
pub open spec fn quad_shift(j: nat) -> nat {
    if j == 0 {
        1
    } else if j == 1 {
        4
    } else if j == 2 {
        16
    } else {
        64
    }
}

/// The encoded byte length of the `j`-th number of the group with
/// control byte `ctrl`: its two control bits, plus one.
pub open spec fn num_len(ctrl: u8, j: nat) -> nat {
    (ctrl as nat / quad_shift(j)) % 4 + 1
}

/// The offset in `data` at which the `i`-th number's bytes start: the
/// control bytes come first, then the numbers in order.
pub open spec fn offset_of(data: Seq<u8>, n: nat, i: nat) -> nat
    decreases i,
{
    if i == 0 {
        ctrl_len(n)
    } else {
        offset_of(data, n, (i - 1) as nat) + num_len(data[(i - 1) as int / 4], (i - 1) as nat % 4)
    }
}

/// Offsets grow with the index.
pub proof fn lemma_offset_monotone(data: Seq<u8>, n: nat, i: nat, j: nat)
    requires
        i <= j,
    ensures
        offset_of(data, n, i) <= offset_of(data, n, j),
    decreases j,
{
    if i < j {
        lemma_offset_monotone(data, n, i, (j - 1) as nat);
    }
}

/// How many bytes a well-formed block of `n` numbers occupies in `data`.
pub open spec fn svb_consumed(data: Seq<u8>, n: nat) -> nat {
    offset_of(data, n, n)
}

/// `data` is long enough to hold all control bytes and all `n` encoded
/// numbers.
pub open spec fn svb_wf(data: Seq<u8>, n: nat) -> bool {
    ctrl_len(n) <= data.len() && svb_consumed(data, n) <= data.len()
}

/// The `i`-th decoded number of the block.
pub open spec fn svb_value(data: Seq<u8>, n: nat, i: nat) -> u32 {
    le_val(
        data.subrange(
            offset_of(data, n, i) as int,
            offset_of(data, n, i) as int + num_len(data[i as int / 4], i % 4) as int,
        ),
    ) as u32
}

/// All `n` decoded numbers of the block, in order.
pub open spec fn svb_decoded(data: Seq<u8>, n: nat) -> Seq<u32> {
    Seq::new(n, |i: int| svb_value(data, n, i as nat))
}

/// Read the little-endian value of `data[off .. off + l]`.
fn read_le(data: &[u8], off: usize, l: usize) -> (v: u32)
    requires
        l <= 4,
        off + l <= data.len(),
    ensures
        v == le_val(data@.subrange(off as int, off as int + l as int)),
{
    let mut v: u32 = 0;
    let mut k: usize = l;
    while k > 0
        invariant
            k <= l,
            l <= 4,
            off + l <= data.len(),
            v == le_val(data@.subrange(off + k, off as int + l as int)),
        decreases k,
    {
        proof {
            lemma_le_val_bound(data@.subrange(off + k, off as int + l as int));
            assert(data@.subrange(off + k - 1, off as int + l as int).subrange(
                1,
                data@.subrange(off + k - 1, off as int + l as int).len() as int,
            ) =~= data@.subrange(off + k, off as int + l as int));
        }
        k = k - 1;
        v = v * 256 + (data[off + k] as u32);
    }
    proof {
        assert(data@.subrange(off as int, off as int + l as int) =~= data@.subrange(
            off + 0,
            off as int + l as int,
        ));
    }
    v
}

/// Decode `n` numbers from `data`, which holds exactly the payload of a
/// block (control bytes, then number bytes). Returns the numbers and how
/// many bytes of `data` they occupied, or `None` if `data` is too short
/// for `n` numbers.
pub fn svb_decode(data: &[u8], n: usize) -> (r: Option<(Vec<u32>, usize)>)
    ensures
        r is Some <==> svb_wf(data@, n as nat),
        r matches Some(p) ==> p.0@ == svb_decoded(data@, n as nat) && p.1 == svb_consumed(
            data@,
            n as nat,
        ),
{
    let cl: usize = n / 4 + if n % 4 == 0 {
        0
    } else {
        1
    };
    assert(cl == ctrl_len(n as nat));
    if cl > data.len() {
        return None;
    }
    let mut out: Vec<u32> = Vec::new();
    let mut off: usize = cl;
    let mut i: usize = 0;
    while i < n
        invariant
            i <= n,
            cl == ctrl_len(n as nat),
            cl <= data.len(),
            off == offset_of(data@, n as nat, i as nat),
            off <= data.len(),
            out@.len() == i,
            forall|k: int|
                0 <= k < i ==> out@[k] == svb_value(data@, n as nat, k as nat),
        decreases n - i,
    {
        assert(i / 4 < cl) by (nonlinear_arith)
            requires
                i < n,
                cl == n / 4 + if n % 4 == 0 {
                    0int
                } else {
                    1int
                },
        ;
        let ctrl: u8 = data[i / 4];
        let j: usize = i % 4;
        let d: usize = if j == 0 {
            1
        } else if j == 1 {
            4
        } else if j == 2 {
            16
        } else {
            64
        };
        let l: usize = (ctrl as usize / d) % 4 + 1;
        assert(l == num_len(ctrl, j as nat));
        if l > data.len() - off {
            proof {
                assert(offset_of(data@, n as nat, (i + 1) as nat) > data@.len());
                lemma_offset_monotone(data@, n as nat, (i + 1) as nat, n as nat);
            }
            return None;
        }
        let v: u32 = read_le(data, off, l);
        assert(v == svb_value(data@, n as nat, i as nat));
        out.push(v);
        off = off + l;
        i = i + 1;
    }
    proof {
        assert(out@ =~= svb_decoded(data@, n as nat));
    }
    Some((out, off))
}

/// What a whole named block means: its declared count, then exactly that
/// many encoded numbers filling the rest of the bytes. `None` is a
/// corrupt block.
pub open spec fn block_spec(b: Seq<u8>) -> Option<Seq<u32>> {
    if b.len() < 4 {
        None
    } else {
        let n = le_val(b.subrange(0, 4));
        let data = b.subrange(4, b.len() as int);
        if svb_wf(data, n) && svb_consumed(data, n) == data.len() {
            Some(svb_decoded(data, n))
        } else {
            None
        }
    }
}

/// Decode one named block: a 4-byte little-endian count `n`, then `n`
/// numbers. Every payload byte must be accounted for: a block whose
/// encoded numbers do not consume the payload exactly is rejected as
/// corrupt, and the decoded count always equals the declared count.
pub fn decode_block(bytes: &[u8]) -> (r: Result<Vec<u32>, EchtError>)
    ensures
        r is Ok <==> block_spec(bytes@) is Some,
        r matches Ok(v) ==> v@ == block_spec(bytes@).unwrap(),
        r matches Ok(v) ==> v@.len() == le_val(bytes@.subrange(0, 4)),
        r matches Err(e) ==> e == EchtError::CorruptBlock,
{
    if bytes.len() < 4 {
        return Err(EchtError::CorruptBlock);
    }
    let n32: u32 = read_le(bytes, 0, 4);
    proof {
        lemma_le_val_bound(bytes@.subrange(0, 4));
    }
    let n: usize = n32 as usize;
    let data: &[u8] = &bytes[4..bytes.len()];
    match svb_decode(data, n) {
        Some(p) => {
            let (v, consumed) = p;
            if consumed == data.len() {
                Ok(v)
            } else {
                Err(EchtError::CorruptBlock)
            }
        },
        None => Err(EchtError::CorruptBlock),
    }
}

} // verus!
