//! Sharing a value between the two grid points next to a position.

use vstd::prelude::*;

verus! {

/// A non-negative position on an axis, split at the grid point below it.
#[derive(Debug, Copy, Clone, PartialEq)]
pub struct Position<T> {
    /// The grid point at or below the position.
    pub whole: usize,
    /// How far the position lies beyond that grid point.
    pub fraction: T,
    /// How far the position lies short of the next grid point: one less the fraction.
    pub complement: T,
}

impl<T> Position<T> {
    /// The grid point below the position (`side` 0) or above it (`side` 1).
    pub open spec fn index(self, side: int) -> int {
        self.whole + side
    }

    /// As `index`, on an axis of `length` grid points that wraps around on the right.
    pub open spec fn wrapped_index(self, side: int, length: int) -> int {
        if side == 1 && self.whole + 1 >= length {
            0
        } else {
            self.whole + side
        }
    }

    /// The share of the grid point below the position (`side` 0) or above it (`side` 1): the
    /// nearer the position, the larger.
    pub open spec fn weight(self, side: int) -> T {
        if side == 0 {
            self.complement
        } else {
            self.fraction
        }
    }
}

/// Indices and weights for an interpolated value.
#[derive(Debug, Copy, Clone, PartialEq)]
pub struct Interpolation<T> {
    /// The two neighbouring grid points, left one first.
    pub indices: [usize; 2],
    /// The share of each of them.
    pub weights: [T; 2],
}

impl<T: Copy> Interpolation<T> {
    /// Creates new interpolation with provided indices and weights.
    pub fn new(indices: [usize; 2], weights: [T; 2]) -> (interpolation: Interpolation<T>)
        ensures
            interpolation == (Interpolation { indices, weights }),
    {
        Interpolation { indices, weights }
    }

    /// Interpolates between two indices, without wrapping.
    pub fn from_position(pos: Position<T>) -> (interpolation: Interpolation<T>)
        requires
            pos.whole < usize::MAX,
        ensures
            forall|side: int|
                0 <= side < 2 ==> #[trigger] interpolation.indices[side] == pos.index(side),
            forall|side: int|
                0 <= side < 2 ==> #[trigger] interpolation.weights[side] == pos.weight(side),
            interpolation.indices[0] == pos.whole,
            interpolation.indices[1] == pos.whole + 1,
            interpolation.weights[0] == pos.complement,
            interpolation.weights[1] == pos.fraction,
    {
        Self::new([pos.whole, pos.whole + 1], [pos.complement, pos.fraction])
    }

    /// Interpolates between two indices, wrapping the right index.
    /// The left index is used as it is, whether or not it is within bounds.
    pub fn from_position_wrapping(pos: Position<T>, length: usize) -> (interpolation:
        Interpolation<T>)
        requires
            pos.whole < usize::MAX,
        ensures
            forall|side: int|
                0 <= side < 2 ==> #[trigger] interpolation.indices[side] == pos.wrapped_index(
                    side,
                    length as int,
                ),
            forall|side: int|
                0 <= side < 2 ==> #[trigger] interpolation.weights[side] == pos.weight(side),
            interpolation.indices[0] == pos.whole,
            pos.whole + 1 < length ==> interpolation.indices[1] == pos.whole + 1,
            pos.whole + 1 >= length ==> interpolation.indices[1] == 0,
            interpolation.weights[0] == pos.complement,
            interpolation.weights[1] == pos.fraction,
    {
        let mut right: usize = pos.whole + 1;
        if right >= length {
            right = 0;
        }
        Self::new([pos.whole, right], [pos.complement, pos.fraction])
    }
}

/// Where the left index is within bounds, so is the wrapped right one, and the right index
/// follows the left one around the axis.
pub proof fn law_wrapping_stays_in_bounds<T>(pos: Position<T>, length: int)
    requires
        pos.whole < length,
    ensures
        0 <= pos.wrapped_index(0, length) < length,
        0 <= pos.wrapped_index(1, length) < length,
        pos.wrapped_index(1, length) == (pos.wrapped_index(0, length) + 1) % length,
{
    if pos.whole + 1 == length {
        assert(length % length == 0) by (nonlinear_arith)
            requires
                0 < length,
        ;
    } else {
        vstd::arithmetic::div_mod::lemma_small_mod((pos.whole + 1) as nat, length as nat);
    }
}

/// A position lies between two neighbouring grid points: the lower one is that at or below the
/// position and has the complement as its share, the upper one follows it and has the fraction.
pub proof fn law_neighbours<T>(pos: Position<T>)
    ensures
        pos.index(0) == pos.whole,
        pos.index(1) == pos.index(0) + 1,
        pos.weight(0) == pos.complement,
        pos.weight(1) == pos.fraction,
{
}

/// On an axis that wraps around, the neighbours of a position are the grid point at or below it and
/// the next one in increasing order, modulo the length of the axis.
pub proof fn law_wrapped_neighbours<T>(pos: Position<T>, side: int, length: int)
    requires
        pos.whole < length,
        0 <= side < 2,
    ensures
        pos.wrapped_index(side, length) == (pos.whole + side) % length,
{
    law_wrapping_stays_in_bounds(pos, length);
    vstd::arithmetic::div_mod::lemma_small_mod(pos.whole as nat, length as nat);
}

} // verus!
