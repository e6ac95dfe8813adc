use vstd::prelude::*;

pub mod archive;
pub mod echtvar;
pub mod fields;
pub mod jsonval;
pub mod keys;
pub mod paths;
pub mod svb;
pub mod var32;

verus! {

/// One genomic window spans this many bases; chunk boundaries are
/// multiples of it, and the per-window archive entries are named after
/// the window index `position / WINDOW_SIZE`.
pub const WINDOW_SIZE: u32 = 0x100000;

/// The start of the window that contains `position`: the position
/// rounded down to a `WINDOW_SIZE` boundary.
pub open spec fn window_start_spec(position: u32) -> u32 {
    ((position / WINDOW_SIZE) * WINDOW_SIZE) as u32
}

/// Round a position down to the start of its window.
pub fn window_start(position: u32) -> (r: u32)
    ensures
        r == window_start_spec(position),
        r <= position,
{
    proof {
        lemma_window_start(position);
    }
    (position / WINDOW_SIZE) * WINDOW_SIZE
}

/// A window start never exceeds the position, and lies in the same
/// window.
pub proof fn lemma_window_start(p: u32)
    ensures
        window_start_spec(p) <= p,
        window_start_spec(p) / WINDOW_SIZE == p / WINDOW_SIZE,
{
    let pi = p as int;
    let w = WINDOW_SIZE as int;
    assert(0 <= pi / w * w <= pi && (pi / w * w) / w == pi / w) by (nonlinear_arith)
        requires
            w == 0x100000,
            0 <= pi < 0x100000000,
    ;
}

/// Two positions share a window exactly when their window starts agree:
/// the cache test on the window index and the definition by rounding
/// say the same thing.
pub proof fn lemma_same_window(p1: u32, p2: u32)
    ensures
        (p1 / WINDOW_SIZE == p2 / WINDOW_SIZE) <==> (window_start_spec(p1) == window_start_spec(
            p2,
        )),
{
    lemma_window_start(p1);
    lemma_window_start(p2);
    let w = WINDOW_SIZE as int;
    assert((p1 as int / w) * w == (p2 as int / w) * w ==> p1 as int / w == p2 as int / w)
        by (nonlinear_arith)
        requires
            w == 0x100000,
    ;
}

/// Everything that can go wrong while opening a store or answering a
/// lookup. Absence of a variant from the store is not an error: it is
/// answered with the configured missing values.
#[derive(Clone, Copy, Debug, PartialEq, Eq, Structural)]
pub enum EchtError {
    /// The archive container itself could not be read.
    BadArchive,
    /// The field configuration is absent or malformed.
    BadConfig,
    /// A per-window archive entry named by the store layout is absent.
    EntryNotFound,
    /// A compressed block (or the overflow list) does not decode to
    /// exactly its declared contents.
    CorruptBlock,
    /// The queried chromosome name is not valid UTF-8.
    BadChromosome,
}

} // verus!
