//! A fixed-size, row-major, dense two-dimensional container with
//! bounds-checked element access.

use vstd::pervasive::VecAdditionalExecFns;
use vstd::prelude::*;

use crate::vector::Vector2u;

verus! {

/// The single error kind of the container: a coordinate outside the
/// grid's rectangle was used for an access.
#[derive(Debug, Clone, Copy, PartialEq, Eq)]
pub enum GridError {
    OutOfRange,
}

/// A dense grid of `size.x * size.y` cells, stored row-major: the cell
/// at `(x, y)` lives at linear index `y * size.x + x`.
pub struct Grid<T> {
    pub size: Vector2u,
    pub map: Vec<T>,
}

impl<T> Grid<T> {
    /// Well-formedness: the backing storage holds exactly one element
    /// per cell of the `size.x` by `size.y` rectangle.
    pub open spec fn wf(&self) -> bool {
        self.map@.len() == self.size.x * self.size.y
    }

    /// The linear index of the cell at `pos`, row-major.
    pub open spec fn index_of(&self, pos: Vector2u) -> int {
        pos.y * self.size.x + pos.x
    }

    /// Whether `pos` lies strictly inside the grid's rectangle on both axes.
    pub open spec fn in_bounds(&self, pos: Vector2u) -> bool {
        pos.x < self.size.x && pos.y < self.size.y
    }

    /// The value stored at `pos`.
    pub open spec fn cell(&self, pos: Vector2u) -> T {
        self.map@[self.index_of(pos)]
    }

    /// The value stored at column `x`, row `y`.
    pub open spec fn cell_xy(&self, x: int, y: int) -> T {
        self.map@[y * self.size.x + x]
    }

    /// Bounds-checked read: the element stored at linear offset
    /// `pos.y * size.x + pos.x`, or the out-of-range error when `pos`
    /// lies outside the rectangle on either axis.
    pub fn at(&self, pos: Vector2u) -> (r: Result<&T, GridError>)
        requires
            self.wf(),
        ensures
            self.in_bounds(pos) ==> (r matches Ok(v) && *v == self.cell(pos)),
            !self.in_bounds(pos) ==> (r matches Err(e) && e == GridError::OutOfRange),
    {
        if pos.x < self.size.x && pos.y < self.size.y {
            proof {
                assert(self.map.len() <= usize::MAX);
                lemma_row_major_index_in_range(
                    pos.x as int,
                    pos.y as int,
                    self.size.x as int,
                    self.size.y as int,
                );
            }
            let idx: usize = (pos.y as usize) * (self.size.x as usize) + (pos.x as usize);
            Ok(&self.map[idx])
        } else {
            Err(GridError::OutOfRange)
        }
    }

    /// Bounds-checked write: overwrites the cell at `pos`, or returns the
    /// out-of-range error, leaving the grid untouched, when `pos` lies
    /// outside the rectangle on either axis.
    pub fn assign(&mut self, pos: Vector2u, val: T) -> (r: Result<(), GridError>)
        requires
            old(self).wf(),
        ensures
            final(self).wf(),
            final(self).size == old(self).size,
            old(self).in_bounds(pos) ==> (r is Ok && final(self).map@ == old(self).map@.update(
                old(self).index_of(pos),
                val,
            )),
            !old(self).in_bounds(pos) ==> (r matches Err(e) && e == GridError::OutOfRange
                && final(self).map@ == old(self).map@),
    {
        if pos.x < self.size.x && pos.y < self.size.y {
            proof {
                assert(self.map.len() <= usize::MAX);
                lemma_row_major_index_in_range(
                    pos.x as int,
                    pos.y as int,
                    self.size.x as int,
                    self.size.y as int,
                );
            }
            let idx: usize = (pos.y as usize) * (self.size.x as usize) + (pos.x as usize);
            self.map.set(idx, val);
            Ok(())
        } else {
            Err(GridError::OutOfRange)
        }
    }
}

/// The rectangle of cells at `origin` with extent `extent` lies inside the
/// grid: its far corner stays within the grid's rectangle on both axes.
pub open spec fn region_ok<T>(g: Grid<T>, origin: Vector2u, extent: Vector2u) -> bool {
    &&& origin.x + extent.x <= g.size.x
    &&& origin.y + extent.y <= g.size.y
}

/// `sub` is a materialized read-only view of `src` at `origin`: it fits
/// inside `src`, and its cell `(i, j)` refers to the source cell
/// `(origin.x + i, origin.y + j)`.
pub open spec fn is_slice_of<T>(sub: Grid<&T>, src: Grid<T>, origin: Vector2u) -> bool {
    &&& sub.wf()
    &&& src.wf()
    &&& region_ok(src, origin, sub.size)
    &&& forall|i: int, j: int|
        0 <= i < sub.size.x && 0 <= j < sub.size.y ==> *(#[trigger] sub.cell_xy(i, j))
            == src.cell_xy(origin.x + i, origin.y + j)
}

impl<T> Grid<T> {
    /// Materializes the rectangular sub-region of extent `size` whose
    /// top-left corner sits at `position`, as a grid of references into
    /// this grid, built in row-major order; or returns the out-of-range
    /// error, with nothing truncated or clamped, when the rectangle does
    /// not fit inside this grid.
    pub fn get_slice<'a>(&'a self, position: Vector2u, size: Vector2u) -> (r: Result<
        Grid<&'a T>,
        GridError,
    >)
        requires
            self.wf(),
        ensures
            region_ok(*self, position, size) ==> (r matches Ok(s) && s.size == size
                && is_slice_of(s, *self, position)),
            !region_ok(*self, position, size) ==> (r matches Err(e) && e
                == GridError::OutOfRange),
    {
        let fits_x = (position.x as u64) + (size.x as u64) <= (self.size.x as u64);
        let fits_y = (position.y as u64) + (size.y as u64) <= (self.size.y as u64);
        if fits_x && fits_y {
            let mut slice_map: Vec<&T> = Vec::new();
            let mut j: u32 = 0;
            while j < size.y
                invariant
                    self.wf(),
                    region_ok(*self, position, size),
                    j <= size.y,
                    slice_map@.len() == j * size.x,
                    forall|i2: int, j2: int|
                        0 <= i2 < size.x && 0 <= j2 < j ==> *(#[trigger] slice_map@[j2 * size.x
                            + i2]) == self.cell_xy(position.x + i2, position.y + j2),
                decreases size.y - j,
            {
                let mut i: u32 = 0;
                while i < size.x
                    invariant
                        self.wf(),
                        region_ok(*self, position, size),
                        j < size.y,
                        i <= size.x,
                        slice_map@.len() == j * size.x + i,
                        forall|i2: int, j2: int|
                            0 <= i2 < size.x && 0 <= j2 < j ==> *(#[trigger] slice_map@[j2 * size.x
                                + i2]) == self.cell_xy(position.x + i2, position.y + j2),
                        forall|i2: int|
                            0 <= i2 < i ==> *(#[trigger] slice_map@[j * size.x + i2])
                                == self.cell_xy(position.x + i2, position.y + j),
                    decreases size.x - i,
                {
                    proof {
                        assert(self.map.len() <= usize::MAX);
                        lemma_row_major_index_in_range(
                            position.x + i as int,
                            position.y + j as int,
                            self.size.x as int,
                            self.size.y as int,
                        );
                    }
                    let idx: usize = ((position.y + j) as usize) * (self.size.x as usize) + ((
                    position.x + i) as usize);
                    slice_map.push(&self.map[idx]);
                    proof {
                        assert forall|i2: int, j2: int|
                            0 <= i2 < size.x && 0 <= j2 < j implies *(#[trigger] slice_map@[j2
                            * size.x + i2]) == self.cell_xy(position.x + i2, position.y + j2) by {
                            assert(0 <= j2 * size.x + i2 < j * size.x) by (nonlinear_arith)
                                requires
                                    0 <= i2 < size.x as int,
                                    0 <= j2 < j as int,
                            ;
                        }
                    }
                    i += 1;
                }
                proof {
                    assert((j + 1) * size.x == j * size.x + size.x) by (nonlinear_arith);
                    assert forall|i2: int, j2: int|
                        0 <= i2 < size.x && 0 <= j2 < j + 1 implies *(#[trigger] slice_map@[j2
                        * size.x + i2]) == self.cell_xy(position.x + i2, position.y + j2) by {
                        assert(0 <= j2 * size.x + i2 < j * size.x + size.x) by (nonlinear_arith)
                            requires
                                0 <= i2 < size.x as int,
                                0 <= j2 <= j as int,
                        ;
                        if j2 == j {
                            assert(*slice_map@[j * size.x + i2] == self.cell_xy(
                                position.x + i2,
                                position.y + j,
                            ));
                        }
                    }
                }
                j += 1;
            }
            proof {
                assert(slice_map@.len() == size.x * size.y) by (nonlinear_arith)
                    requires
                        slice_map@.len() == size.y * size.x,
                ;
            }
            Ok(Grid { size, map: slice_map })
        } else {
            Err(GridError::OutOfRange)
        }
    }
}

/// Law: a slice of a slice addresses the same underlying cells as direct
/// double-offset addressing into the original grid.
pub proof fn lemma_nested_slice<T>(g: Grid<T>, s1: Grid<&T>, s2: Grid<&&T>, o1: Vector2u, o2: Vector2u)
    requires
        is_slice_of(s1, g, o1),
        is_slice_of(s2, s1, o2),
    ensures
        o1.x + o2.x + s2.size.x <= g.size.x,
        o1.y + o2.y + s2.size.y <= g.size.y,
        forall|i: int, j: int|
            0 <= i < s2.size.x && 0 <= j < s2.size.y ==> **(#[trigger] s2.cell_xy(i, j))
                == g.cell_xy(o1.x + o2.x + i, o1.y + o2.y + j),
{
    assert forall|i: int, j: int|
        0 <= i < s2.size.x && 0 <= j < s2.size.y implies **(#[trigger] s2.cell_xy(i, j))
        == g.cell_xy(o1.x + o2.x + i, o1.y + o2.y + j) by {
        assert(*s2.cell_xy(i, j) == s1.cell_xy(o2.x + i, o2.y + j));
        assert(*s1.cell_xy(o2.x + i, o2.y + j) == g.cell_xy(
            o1.x + (o2.x + i),
            o1.y + (o2.y + j),
        ));
    }
}

/// A row-major index stays inside the storage: for coordinates strictly
/// inside a `sx` by `sy` rectangle, `y * sx + x` lies below `sy * sx`.
pub proof fn lemma_row_major_index_in_range(x: int, y: int, sx: int, sy: int)
    requires
        0 <= x < sx,
        0 <= y < sy,
    ensures
        0 <= y * sx + x < sx * sy,
{
    assert(0 <= y * sx + x < sx * sy) by (nonlinear_arith)
        requires
            0 <= x < sx,
            0 <= y < sy,
    ;
}

/// Law: `assign(pos, v)` followed immediately by `at(pos)` reads back `v`.
/// The grids are related exactly as `assign`'s contract relates the value
/// before the call to the value after it.
pub proof fn lemma_read_after_write<T>(g0: Grid<T>, g1: Grid<T>, pos: Vector2u, v: T)
    requires
        g0.wf(),
        g0.in_bounds(pos),
        g1.size == g0.size,
        g1.map@ == g0.map@.update(g0.index_of(pos), v),
    ensures
        g1.wf(),
        g1.in_bounds(pos),
        g1.cell(pos) == v,
{
    lemma_row_major_index_in_range(
        pos.x as int,
        pos.y as int,
        g0.size.x as int,
        g0.size.y as int,
    );
}

} // verus!
