//! Three-dimensional arrays stored in one contiguous buffer, and the slice copying they rely on.
//!
//! The first dimension varies fastest, so all entries that share their outer two indices are
//! contiguous.

use vstd::prelude::*;

verus! {

/// Position in the buffer of the entry with indices `i0`, `i1`, `i2`, when the inner two
/// dimensions have lengths `l0` and `l1`.
pub open spec fn flat_index(l0: int, l1: int, i0: int, i1: int, i2: int) -> int {
    i2 * (l0 * l1) + i1 * l0 + i0
}

/// An owned three-dimensional array.
pub struct Array3d<T> {
    /// The entries, first dimension fastest-varying.
    pub data: Vec<T>,
    /// The length of each dimension, innermost first.
    pub lengths: [usize; 3],
}

/// Whether an array with these dimensions can be addressed by `usize` offsets.
pub open spec fn addressable(l0: int, l1: int, l2: int) -> bool {
    &&& l0 * l1 <= usize::MAX
    &&& (l0 * l1) * l2 <= usize::MAX
}

/// Tests whether an array with these dimensions can be addressed by `usize` offsets.
pub fn can_address(lengths: [usize; 3]) -> (possible: bool)
    ensures
        possible == addressable(lengths[0] as int, lengths[1] as int, lengths[2] as int),
{
    match lengths[0].checked_mul(lengths[1]) {
        Some(row) => row.checked_mul(lengths[2]).is_some(),
        None => false,
    }
}

/// The entries that share in-range outer indices lie in one run of length `l0` that stays within
/// the buffer, and so do the partial sums of its offset.
pub proof fn lemma_flat_index_in_range(
    l0: int,
    l1: int,
    l2: int,
    i1: int,
    i2: int,
)
    requires
        0 <= l0,
        0 <= i1 < l1,
        0 <= i2 < l2,
    ensures
        0 <= flat_index(l0, l1, 0, i1, i2),
        flat_index(l0, l1, 0, i1, i2) + l0 <= (l0 * l1) * l2,
        0 <= i1 * l0 <= l0 * l1,
        0 <= i2 * (l0 * l1) <= (l0 * l1) * l2,
{
    let row = l0 * l1;
    assert(0 <= row) by (nonlinear_arith)
        requires
            row == l0 * l1,
            0 <= l0,
            0 < l1,
    ;
    assert(0 <= i1 * l0 && i1 * l0 + l0 <= row) by (nonlinear_arith)
        requires
            row == l0 * l1,
            0 <= l0,
            0 <= i1 < l1,
    ;
    assert(0 <= i2 * row && i2 * row + row <= row * l2) by (nonlinear_arith)
        requires
            0 <= row,
            0 <= i2 < l2,
    ;
}

/// An offset along rows of `width` items gives a column and a row within bounds.
pub proof fn lemma_offset_in_rows(width: int, height: int, i: int)
    requires
        0 <= width,
        0 <= height,
        0 <= i < width * height,
    ensures
        0 <= i % width < width,
        0 <= i / width < height,
{
    assert(0 < width) by (nonlinear_arith)
        requires
            0 <= width,
            0 <= i < width * height,
    ;
    assert(0 <= i % width < width && 0 <= i / width < height) by (nonlinear_arith)
        requires
            0 < width,
            0 <= i < width * height,
    ;
}

/// Runs of different outer indices do not overlap: the one whose outer indices come first in
/// lexicographic order (outermost index first) ends before the other starts.
pub proof fn lemma_flat_index_ordered(
    l0: int,
    l1: int,
    a1: int,
    a2: int,
    b1: int,
    b2: int,
)
    requires
        0 <= l0,
        0 <= a1 < l1,
        0 <= b1 < l1,
        0 <= a2,
        a2 < b2 || (a2 == b2 && a1 < b1),
    ensures
        flat_index(l0, l1, 0, a1, a2) + l0 <= flat_index(l0, l1, 0, b1, b2),
{
    let row = l0 * l1;
    if a2 < b2 {
        assert(a1 * l0 + l0 <= row) by (nonlinear_arith)
            requires
                row == l0 * l1,
                0 <= l0,
                a1 < l1,
        ;
        assert(a2 * row + row <= b2 * row) by (nonlinear_arith)
            requires
                0 <= row,
                a2 < b2,
        ;
        assert(0 <= b1 * l0) by (nonlinear_arith)
            requires
                0 <= l0,
                0 <= b1,
        ;
    } else {
        assert(a1 * l0 + l0 <= b1 * l0) by (nonlinear_arith)
            requires
                0 <= l0,
                a1 < b1,
        ;
    }
}

/// The positions of an array are exactly the positions of its index triples: every position
/// within the buffer belongs to one triple of in-range indices and to no other.
pub proof fn law_flat_index_bijective(l0: int, l1: int, l2: int, position: int)
    requires
        0 < l0,
        0 < l1,
        0 < l2,
        0 <= position < (l0 * l1) * l2,
    ensures
        exists|i0: int, i1: int, i2: int|
            0 <= i0 < l0 && 0 <= i1 < l1 && 0 <= i2 < l2 && #[trigger] flat_index(
                l0,
                l1,
                i0,
                i1,
                i2,
            ) == position,
        forall|i0: int, i1: int, i2: int, j0: int, j1: int, j2: int|
            0 <= i0 < l0 && 0 <= i1 < l1 && 0 <= i2 < l2 && 0 <= j0 < l0 && 0 <= j1 < l1 && 0 <= j2
                < l2 && #[trigger] flat_index(l0, l1, i0, i1, i2) == position
                && #[trigger] flat_index(l0, l1, j0, j1, j2) == position ==> i0 == j0 && i1 == j1
                && i2 == j2,
{
    let row = l0 * l1;
    assert(0 < row) by (nonlinear_arith)
        requires
            row == l0 * l1,
            0 < l0,
            0 < l1,
    ;
    let k2 = position / row;
    let rest = position % row;
    let k1 = rest / l0;
    let k0 = rest % l0;
    assert(position == row * k2 + rest && 0 <= rest < row) by (nonlinear_arith)
        requires
            0 < row,
            k2 == position / row,
            rest == position % row,
    ;
    assert(rest == l0 * k1 + k0 && 0 <= k0 < l0) by (nonlinear_arith)
        requires
            0 < l0,
            k1 == rest / l0,
            k0 == rest % l0,
    ;
    assert(0 <= k2 < l2) by (nonlinear_arith)
        requires
            0 <= position < row * l2,
            position == row * k2 + rest,
            0 <= rest < row,
    ;
    assert(0 <= k1 < l1) by (nonlinear_arith)
        requires
            0 <= rest < l0 * l1,
            rest == l0 * k1 + k0,
            0 <= k0 < l0,
    ;
    assert(flat_index(l0, l1, k0, k1, k2) == position) by (nonlinear_arith)
        requires
            position == (l0 * l1) * k2 + l0 * k1 + k0,
    ;
    assert forall|i0: int, i1: int, i2: int, j0: int, j1: int, j2: int|
        0 <= i0 < l0 && 0 <= i1 < l1 && 0 <= i2 < l2 && 0 <= j0 < l0 && 0 <= j1 < l1 && 0 <= j2 < l2
            && #[trigger] flat_index(l0, l1, i0, i1, i2) == position && #[trigger] flat_index(
            l0,
            l1,
            j0,
            j1,
            j2,
        ) == position implies i0 == j0 && i1 == j1 && i2 == j2 by {
        if i2 < j2 || (i2 == j2 && i1 < j1) {
            lemma_flat_index_ordered(l0, l1, i1, i2, j1, j2);
        } else if j2 < i2 || (i2 == j2 && j1 < i1) {
            lemma_flat_index_ordered(l0, l1, j1, j2, i1, i2);
        }
    }
}

/// The first dimension varies fastest and the last one slowest: one step along the first dimension
/// is one position, one step along the second passes a whole run of the first, and one step along
/// the third passes a whole plane of the first two.
pub proof fn law_first_dimension_varies_fastest(
    l0: int,
    l1: int,
    i0: int,
    i1: int,
    i2: int,
)
    ensures
        flat_index(l0, l1, 0, 0, 0) == 0,
        flat_index(l0, l1, i0 + 1, i1, i2) == flat_index(l0, l1, i0, i1, i2) + 1,
        flat_index(l0, l1, i0, i1 + 1, i2) == flat_index(l0, l1, i0, i1, i2) + l0,
        flat_index(l0, l1, i0, i1, i2 + 1) == flat_index(l0, l1, i0, i1, i2) + l0 * l1,
        flat_index(l0, l1, i0, i1, i2) == (i2 * l1 + i1) * l0 + i0,
{
    assert((i1 + 1) * l0 == i1 * l0 + l0) by (nonlinear_arith);
    assert((i2 + 1) * (l0 * l1) == i2 * (l0 * l1) + l0 * l1) by (nonlinear_arith);
    assert(0 * (l0 * l1) == 0 && 0 * l0 == 0) by (nonlinear_arith);
    assert(i2 * (l0 * l1) + i1 * l0 == (i2 * l1 + i1) * l0) by (nonlinear_arith);
}

/// Dimensions are addressable whenever an array with them, and one plane of it, have no more than
/// `usize::MAX` entries.
pub proof fn law_addressable(l0: int, l1: int, l2: int)
    ensures
        addressable(l0, l1, l2) <==> l0 * l1 <= usize::MAX && l0 * l1 * l2 <= usize::MAX,
{
}

/// Copies the first `to.len()` items of `from` over `to`.
pub fn copy<T: Copy>(from: &[T], to: &mut [T])
    requires
        old(to)@.len() <= from@.len(),
    ensures
        final(to)@ == from@.subrange(0, old(to)@.len() as int),
{
    let count: usize = to.len();
    for i in 0..count
        invariant
            count <= from@.len(),
            to@.len() == count,
            forall|k: int| 0 <= k < i ==> to@[k] == from@[k],
    {
        to[i] = from[i];
    }
}

/// The run of entries of `data`, viewed as an array with inner lengths `l0` and `l1`, whose outer
/// indices are `x1` and `x2`.
pub open spec fn inner_run<T>(data: Seq<T>, l0: int, l1: int, x1: int, x2: int) -> Seq<T> {
    data.subrange(flat_index(l0, l1, 0, x1, x2), flat_index(l0, l1, 0, x1, x2) + l0)
}

/// Whether two buffers agree on every run but that of outer indices `x1` and `x2`.
pub open spec fn same_other_runs<T>(
    before: Seq<T>,
    after: Seq<T>,
    l0: int,
    l1: int,
    l2: int,
    x1: int,
    x2: int,
) -> bool {
    forall|y1: int, y2: int|
        0 <= y1 < l1 && 0 <= y2 < l2 && (y1 != x1 || y2 != x2) ==> #[trigger] inner_run(
            after,
            l0,
            l1,
            y1,
            y2,
        ) == inner_run(before, l0, l1, y1, y2)
}

/// The buffer `before` with the run of outer indices `x1` and `x2` replaced by `run`.
pub open spec fn with_run<T>(
    before: Seq<T>,
    run: Seq<T>,
    l0: int,
    l1: int,
    x1: int,
    x2: int,
) -> Seq<T> {
    let start = flat_index(l0, l1, 0, x1, x2);
    before.subrange(0, start) + run + before.subrange(start + l0, before.len() as int)
}

/// Replacing one run by another of the same length changes that run alone.
pub proof fn lemma_with_run<T>(
    before: Seq<T>,
    run: Seq<T>,
    l0: int,
    l1: int,
    l2: int,
    x1: int,
    x2: int,
)
    requires
        0 <= l0,
        before.len() == (l0 * l1) * l2,
        0 <= x1 < l1,
        0 <= x2 < l2,
        run.len() == l0,
    ensures
        with_run(before, run, l0, l1, x1, x2).len() == before.len(),
        inner_run(with_run(before, run, l0, l1, x1, x2), l0, l1, x1, x2) == run,
        same_other_runs(before, with_run(before, run, l0, l1, x1, x2), l0, l1, l2, x1, x2),
{
    let after = with_run(before, run, l0, l1, x1, x2);
    lemma_flat_index_in_range(l0, l1, l2, x1, x2);
    assert(inner_run(after, l0, l1, x1, x2) =~= run);
    assert forall|y1: int, y2: int|
        0 <= y1 < l1 && 0 <= y2 < l2 && (y1 != x1 || y2 != x2) implies #[trigger] inner_run(
        after,
        l0,
        l1,
        y1,
        y2,
    ) == inner_run(before, l0, l1, y1, y2) by {
        lemma_flat_index_in_range(l0, l1, l2, y1, y2);
        if y2 < x2 || (y2 == x2 && y1 < x1) {
            lemma_flat_index_ordered(l0, l1, y1, y2, x1, x2);
        } else {
            lemma_flat_index_ordered(l0, l1, x1, x2, y1, y2);
        }
        assert(inner_run(after, l0, l1, y1, y2) =~= inner_run(before, l0, l1, y1, y2));
    }
}

/// All entries of `data`, viewed as an array with the given lengths, that have outer indices `x1`
/// and `x2`, as a mutable slice.
pub fn inner_slice_mut<T>(data: &mut [T], lengths: [usize; 3], x1: usize, x2: usize) -> (run:
    &mut [T])
    requires
        addressable(lengths[0] as int, lengths[1] as int, lengths[2] as int),
        old(data)@.len() == (lengths[0] * lengths[1]) * lengths[2],
        x1 < lengths[1],
        x2 < lengths[2],
    ensures
        run@ == inner_run(
            old(data)@,
            lengths[0] as int,
            lengths[1] as int,
            x1 as int,
            x2 as int,
        ),
        run@.len() == lengths[0],
        final(data)@ == with_run(
            old(data)@,
            final(run)@,
            lengths[0] as int,
            lengths[1] as int,
            x1 as int,
            x2 as int,
        ),
{
    proof {
        lemma_flat_index_in_range(
            lengths[0] as int,
            lengths[1] as int,
            lengths[2] as int,
            x1 as int,
            x2 as int,
        );
    }
    let start: usize = x2 * (lengths[0] * lengths[1]) + x1 * lengths[0];
    let (front, back) = data.split_at_mut(start + lengths[0]);
    let (head, run) = front.split_at_mut(start);
    run
}

impl<T> Array3d<T> {
    /// The buffer holds exactly one entry per triple of in-range indices.
    pub open spec fn wf(self) -> bool {
        &&& addressable(self.lengths[0] as int, self.lengths[1] as int, self.lengths[2] as int)
        &&& self.data@.len() == (self.lengths[0] * self.lengths[1]) * self.lengths[2]
    }

    /// Whether the three indices are within bounds.
    pub open spec fn contains(self, i0: int, i1: int, i2: int) -> bool {
        &&& 0 <= i0 < self.lengths[0]
        &&& 0 <= i1 < self.lengths[1]
        &&& 0 <= i2 < self.lengths[2]
    }

    /// The entry with the given indices.
    pub open spec fn at(self, i0: int, i1: int, i2: int) -> T {
        self.data@[flat_index(self.lengths[0] as int, self.lengths[1] as int, i0, i1, i2)]
    }

    /// The entries with outer indices `x1` and `x2`, in order of their innermost index.
    pub open spec fn inner(self, x1: int, x2: int) -> Seq<T> {
        inner_run(self.data@, self.lengths[0] as int, self.lengths[1] as int, x1, x2)
    }

    /// Tests whether the buffer holds exactly one entry per triple of in-range indices.
    pub fn is_complete(&self) -> (complete: bool)
        ensures
            complete == self.wf(),
    {
        can_address(self.lengths) && self.data.len() == (self.lengths[0] * self.lengths[1])
            * self.lengths[2]
    }

    /// All entries with the given outer indices. As the first dimension is fastest-varying this
    /// is a contiguous slice.
    pub fn inner_slice(&self, x1: usize, x2: usize) -> (run: &[T])
        requires
            self.wf(),
            x1 < self.lengths[1],
            x2 < self.lengths[2],
        ensures
            run@ == self.inner(x1 as int, x2 as int),
            run@.len() == self.lengths[0],
            forall|i: int| 0 <= i < run@.len() ==> run@[i] == self.at(i, x1 as int, x2 as int),
    {
        proof {
            lemma_flat_index_in_range(
                self.lengths[0] as int,
                self.lengths[1] as int,
                self.lengths[2] as int,
                x1 as int,
                x2 as int,
            );
        }
        let start: usize = x2 * (self.lengths[0] * self.lengths[1]) + x1 * self.lengths[0];
        &self.data.as_slice()[start..start + self.lengths[0]]
    }

    /// All entries with the given outer indices, as a mutable slice.
    pub fn inner_slice_mut(&mut self, x1: usize, x2: usize) -> (run: &mut [T])
        requires
            old(self).wf(),
            x1 < old(self).lengths[1],
            x2 < old(self).lengths[2],
        ensures
            run@ == old(self).inner(x1 as int, x2 as int),
            run@.len() == old(self).lengths[0],
            final(self).lengths == old(self).lengths,
            final(self).data@ == with_run(
                old(self).data@,
                final(run)@,
                old(self).lengths[0] as int,
                old(self).lengths[1] as int,
                x1 as int,
                x2 as int,
            ),
    {
        let lengths = self.lengths;
        inner_slice_mut(self.data.as_mut_slice(), lengths, x1, x2)
    }

    /// A mutable reference to the entry with the given indices.
    pub fn at_mut(&mut self, indices: [usize; 3]) -> (entry: &mut T)
        requires
            old(self).wf(),
            old(self).contains(indices[0] as int, indices[1] as int, indices[2] as int),
        ensures
            *entry == old(self).at(indices[0] as int, indices[1] as int, indices[2] as int),
            final(self).lengths == old(self).lengths,
            final(self).wf(),
            final(self).at(indices[0] as int, indices[1] as int, indices[2] as int) 
                == *final(entry),
            forall|i0: int, i1: int, i2: int|
                old(self).contains(i0, i1, i2) && !(i0 == indices[0] && i1 == indices[1] && i2
                    == indices[2]) ==> #[trigger] final(self).at(i0, i1, i2) == old(self).at(
                    i0,
                    i1,
                    i2,
                ),
    {
        let lengths = self.lengths;
        proof {
            let l0 = lengths[0] as int;
            let l1 = lengths[1] as int;
            let l2 = lengths[2] as int;
            let x1 = indices[1] as int;
            let x2 = indices[2] as int;
            lemma_flat_index_in_range(l0, l1, l2, x1, x2);
            assert forall|i0: int, i1: int, i2: int|
                self.contains(i0, i1, i2) && !(i0 == indices[0] && i1 == x1 && i2 == x2) implies
                #[trigger] flat_index(l0, l1, i0, i1, i2) != flat_index(
                l0,
                l1,
                indices[0] as int,
                x1,
                x2,
            ) && 0 <= flat_index(l0, l1, i0, i1, i2) < self.data@.len() by {
                lemma_flat_index_in_range(l0, l1, l2, i1, i2);
                if i2 < x2 || (i2 == x2 && i1 < x1) {
                    lemma_flat_index_ordered(l0, l1, i1, i2, x1, x2);
                } else if x2 < i2 || (i2 == x2 && x1 < i1) {
                    lemma_flat_index_ordered(l0, l1, x1, x2, i1, i2);
                }
            }
        }
        let position: usize = indices[2] * (lengths[0] * lengths[1]) + indices[1] * lengths[0]
            + indices[0];
        &mut self.data[position]
    }
}

impl<T: Copy> Array3d<T> {
    /// Allocates a new array with the given dimensions, every entry equal to `fill`.
    pub fn new(lengths: [usize; 3], fill: T) -> (array: Array3d<T>)
        requires
            addressable(lengths[0] as int, lengths[1] as int, lengths[2] as int),
        ensures
            array.wf(),
            array.lengths == lengths,
            forall|i: int| 0 <= i < array.data@.len() ==> #[trigger] array.data@[i] == fill,
    {
        let length: usize = (lengths[0] * lengths[1]) * lengths[2];
        let mut data: Vec<T> = Vec::new();
        for i in 0..length
            invariant
                data@.len() == i,
                forall|k: int| 0 <= k < i ==> #[trigger] data@[k] == fill,
        {
            data.push(fill);
        }
        Array3d { data, lengths }
    }
}

/// A well-formed array has one entry for each triple of in-range indices, and the run with outer
/// indices `x1` and `x2` holds, in order, the entries with these outer indices.
pub proof fn law_runs_hold_entries<T>(array: Array3d<T>, i: int, x1: int, x2: int)
    requires
        array.wf(),
        array.contains(i, x1, x2),
    ensures
        array.data@.len() == array.lengths[0] * array.lengths[1] * array.lengths[2],
        array.inner(x1, x2).len() == array.lengths[0],
        array.inner(x1, x2)[i] == array.at(i, x1, x2),
        0 <= (x2 * array.lengths[1] + x1) * array.lengths[0] + i < array.data@.len(),
        array.at(i, x1, x2) == array.data@[(x2 * array.lengths[1] + x1) * array.lengths[0] + i],
{
    let l0 = array.lengths[0] as int;
    let l1 = array.lengths[1] as int;
    lemma_flat_index_in_range(l0, l1, array.lengths[2] as int, x1, x2);
    law_first_dimension_varies_fastest(l0, l1, i, x1, x2);
}

/// Indices are within bounds exactly where each is at least zero and less than its length.
pub proof fn law_bounds<T>(array: Array3d<T>, i0: int, i1: int, i2: int)
    ensures
        array.contains(i0, i1, i2) <==> 0 <= i0 < array.lengths[0] && 0 <= i1 < array.lengths[1]
            && 0 <= i2 < array.lengths[2],
{
}

/// An array is well-formed whenever it is addressable and has an entry for each triple of indices.
pub proof fn law_complete_arrays_are_well_formed<T>(array: Array3d<T>)
    requires
        array.lengths[0] * array.lengths[1] <= usize::MAX,
        array.data@.len() == array.lengths[0] * array.lengths[1] * array.lengths[2],
    ensures
        array.wf(),
{
    assert(array.data@.len() == array.data.len());
}

} // verus!
