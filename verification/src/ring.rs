//! Arithmetic on the identifier ring.
//!
//! Positions are the integers modulo `2^M`, where `M` is [`RING_BITS`]. Every
//! comparison of positions goes through [`between`], the arc test.

use vstd::arithmetic::div_mod::lemma_mod_multiples_basic;
use vstd::arithmetic::power2::{lemma2_to64, lemma_pow2_adds, pow2};
use vstd::prelude::*;

verus! {

/// A position on the ring.
pub type HashPos = u8;

/// The ring's width in bits, which is also the number of fingers of a node.
pub const RING_BITS: usize = 8;

/// What the width of a position gives: its size in bytes, its first
/// numbers, and the number of fingers of a node.
pub trait HashRingKey {
    /// The size of a position in bytes.
    fn size() -> usize;

    /// The position 1.
    fn one() -> HashPos;

    /// The position 2.
    fn two() -> HashPos;

    /// The number of fingers of a node: one for each bit of a position.
    fn finger_count() -> usize;
}

impl HashRingKey for HashPos {
    fn size() -> (bytes: usize)
        ensures
            bytes * 8 == RING_BITS,
    {
        1
    }

    fn one() -> (one: HashPos)
        ensures
            one == 1,
    {
        1
    }

    fn two() -> (two: HashPos)
        ensures
            two == 2,
    {
        2
    }

    fn finger_count() -> (count: usize)
        ensures
            count == RING_BITS,
    {
        HashPos::size() * 8
    }
}

/// The number of positions on the ring.
pub open spec fn ring_size() -> int {
    256
}

/// Whether `p` is a position of the ring.
pub open spec fn on_ring(p: int) -> bool {
    0 <= p < ring_size()
}

/// The number of clockwise steps that lead from `from` to `to`.
pub open spec fn clockwise(from: int, to: int) -> int {
    (to - from) % ring_size()
}

/// The position `steps` clockwise steps after `p`.
pub open spec fn advance(p: int, steps: int) -> int {
    (p + steps) % ring_size()
}

/// The arc test: whether `p` lies on the arc that leads clockwise from `a`
/// to `b`. Each end belongs to the arc unless it is open. Where `a == b` the
/// arc is the single position `a`, and empty if its left end is open.
pub open spec fn between(p: int, a: int, b: int, left_open: bool, right_open: bool) -> bool {
    if a < b {
        (if left_open { a < p } else { a <= p }) && (if right_open { p < b } else { p <= b })
    } else if a > b {
        (if left_open { a < p } else { a <= p }) || (if right_open { p < b } else { p <= b })
    } else {
        !left_open && p == a
    }
}

/// Membership in an arc, said by counting steps: `p` is on the arc from `a`
/// to `b` when walking clockwise from `a` reaches `p` no later than `b`,
/// an open end being left out.
pub open spec fn on_arc(p: int, a: int, b: int, left_open: bool, right_open: bool) -> bool {
    if a == b {
        !left_open && p == a
    } else {
        &&& clockwise(a, p) <= clockwise(a, b)
        &&& left_open ==> p != a
        &&& right_open ==> p != b
    }
}

/// The start of finger `index` of the node at `p`: `p + 2^index` on the ring.
pub open spec fn spec_finger_start(p: int, index: nat) -> int {
    advance(p, pow2(index) as int)
}

/// The arc test on positions.
pub fn is_between(
    pos: HashPos,
    lower: HashPos,
    upper: HashPos,
    left_open: bool,
    right_open: bool,
) -> (inside: bool)
    ensures
        inside == between(pos as int, lower as int, upper as int, left_open, right_open),
{
    if lower < upper {
        if left_open && right_open {
            lower < pos && pos < upper
        } else if left_open {
            lower < pos && pos <= upper
        } else if right_open {
            lower <= pos && pos < upper
        } else {
            lower <= pos && pos <= upper
        }
    } else if lower > upper {
        if left_open && right_open {
            lower < pos || pos < upper
        } else if left_open {
            lower < pos || pos <= upper
        } else if right_open {
            lower <= pos || pos < upper
        } else {
            lower <= pos || pos <= upper
        }
    } else {
        !left_open && pos == lower
    }
}

/// The position that follows `pos` on the ring.
pub fn successor_pos(pos: HashPos) -> (next: HashPos)
    ensures
        next as int == advance(pos as int, 1),
{
    pos.wrapping_add(HashPos::one())
}

/// A power of two from the ring's width on is a whole number of turns
/// round the ring.
pub proof fn lemma_whole_turns(index: nat)
    requires
        index >= RING_BITS,
    ensures
        pow2(index) as int % ring_size() == 0,
{
    lemma2_to64();
    lemma_pow2_adds(8, (index - 8) as nat);
    lemma_mod_multiples_basic(pow2((index - 8) as nat) as int, 256);
    assert(pow2(index) == 256 * pow2((index - 8) as nat));
    assert(256 * pow2((index - 8) as nat) == pow2((index - 8) as nat) * 256) by (nonlinear_arith);
}

/// The start of finger `index` of the node at `pos`. Beyond the fingers
/// that a node has, the starts come back to the node itself.
pub fn finger_start(pos: HashPos, index: usize) -> (start: HashPos)
    ensures
        start as int == spec_finger_start(pos as int, index as nat),
{
    if index >= RING_BITS {
        proof {
            lemma_whole_turns(index as nat);
        }
        return pos;
    }
    let shift: u32 = index as u32;
    let offset: u8 = 1u8 << shift;
    proof {
        assert(shift < 8 ==> (1u8 << shift) == if shift == 0 {
            1u8
        } else if shift == 1 {
            2u8
        } else if shift == 2 {
            4u8
        } else if shift == 3 {
            8u8
        } else if shift == 4 {
            16u8
        } else if shift == 5 {
            32u8
        } else if shift == 6 {
            64u8
        } else {
            128u8
        }) by (bit_vector);
        lemma2_to64();
        assert(offset as int == pow2(index as nat));
    }
    pos.wrapping_add(offset)
}

/// The arc test is the characteristic function of the arc: on the ring it
/// holds of exactly the positions that walking clockwise from `a` to `b`
/// meets, the open ends left out.
pub proof fn lemma_between_is_arc(p: int, a: int, b: int, left_open: bool, right_open: bool)
    requires
        on_ring(p),
        on_ring(a),
        on_ring(b),
    ensures
        between(p, a, b, left_open, right_open) == on_arc(p, a, b, left_open, right_open),
{
}

/// The number of clockwise steps between two positions, without the
/// remainder.
pub proof fn lemma_clockwise_steps(from: int, to: int)
    requires
        on_ring(from),
        on_ring(to),
    ensures
        clockwise(from, to) == if to >= from {
            to - from
        } else {
            to - from + ring_size()
        },
{
}

} // verus!
