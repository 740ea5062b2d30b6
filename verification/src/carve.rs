//! In-place region transformation: a row-major sweep that applies a rule to
//! every cell of a rectangle, writing each result back before the next cell
//! is computed, so the rule reads the grid as mutated so far.

use vstd::prelude::*;

use crate::grid::{lemma_row_major_index_in_range, region_ok, Grid, GridError};
use crate::vector::{Vector2, Vector2u};

verus! {

/// `p` lies inside the rectangle at `origin` with extent `extent`.
pub open spec fn in_region(origin: Vector2u, extent: Vector2u, p: Vector2u) -> bool {
    &&& origin.x <= p.x < origin.x + extent.x
    &&& origin.y <= p.y < origin.y + extent.y
}

/// The linear index, in a grid of width `sx`, of the cell at `origin`
/// shifted by the relative offset `(i, j)`.
pub open spec fn region_index(sx: int, origin: Vector2u, i: int, j: int) -> int {
    (origin.y + j) * sx + (origin.x + i)
}

/// The linear index `k` addresses some cell of the rectangle at `origin`
/// with extent `extent`, in a grid of width `sx`.
pub open spec fn in_region_index(sx: int, origin: Vector2u, extent: Vector2u, k: int) -> bool {
    exists|i2: int, j2: int|
        0 <= i2 < extent.x && 0 <= j2 < extent.y && k == #[trigger] region_index(
            sx,
            origin,
            i2,
            j2,
        )
}

/// The relative cell `(i2, j2)` of a rectangle of extent `extent` comes
/// strictly before the sweep position `(i, j)` in row-major order
/// (`y` outer, `x` inner).
pub open spec fn sweep_before(extent: Vector2u, i2: int, j2: int, i: int, j: int) -> bool {
    &&& 0 <= i2 < extent.x
    &&& 0 <= j2 < extent.y
    &&& (j2 < j || (j2 == j && i2 < i))
}

/// The cell at linear index `k` was already overwritten when the row-major
/// sweep of the rectangle at `origin` with extent `extent`, over a grid of
/// width `sx`, reached the sweep position `(i, j)`.
pub open spec fn swept_before(
    sx: int,
    origin: Vector2u,
    extent: Vector2u,
    i: int,
    j: int,
    k: int,
) -> bool {
    exists|i2: int, j2: int|
        #[trigger] sweep_before(extent, i2, j2, i, j) && k == region_index(sx, origin, i2, j2)
}

/// The storage of the sweep's intermediate state as it reaches position
/// `(i, j)`: cells swept earlier hold their values from `m1`, all other
/// cells their values from `m0`.
pub open spec fn sweep_view<T>(
    m0: Seq<T>,
    m1: Seq<T>,
    sx: int,
    origin: Vector2u,
    extent: Vector2u,
    i: int,
    j: int,
) -> Seq<T> {
    Seq::new(
        m0.len(),
        |k: int|
            if swept_before(sx, origin, extent, i, j, k) {
                m1[k]
            } else {
                m0[k]
            },
    )
}

/// The value a finished sweep left in the cell at relative offset `(i, j)`
/// is one the rule could return for that cell when handed the sweep's
/// intermediate state there: cells swept earlier already carry their final
/// values from `g1`, every other cell still carries its original value
/// from `g0`.
pub open spec fn carve_cell_ok<T, F: Fn(&Grid<T>, Vector2u) -> T>(
    f: F,
    g0: Grid<T>,
    g1: Grid<T>,
    origin: Vector2u,
    extent: Vector2u,
    i: int,
    j: int,
) -> bool {
    exists|g_mid: Grid<T>|
        g_mid.size == g0.size && (#[trigger] g_mid.map)@ == sweep_view(
            g0.map@,
            g1.map@,
            g0.size.x as int,
            origin,
            extent,
            i,
            j,
        ) && call_ensures(
            f,
            (&g_mid, (Vector2u { x: (origin.x + i) as u32, y: (origin.y + j) as u32 })),
            g1.cell_xy(origin.x + i, origin.y + j),
        )
}

/// Two distinct relative cells of a rectangle that fits a row of width `sx`
/// never share a linear index.
pub proof fn lemma_region_index_injective(
    sx: int,
    origin: Vector2u,
    extent: Vector2u,
    i1: int,
    j1: int,
    i2: int,
    j2: int,
)
    requires
        origin.x + extent.x <= sx,
        0 <= i1 < extent.x,
        0 <= j1 < extent.y,
        0 <= i2 < extent.x,
        0 <= j2 < extent.y,
        region_index(sx, origin, i1, j1) == region_index(sx, origin, i2, j2),
    ensures
        i1 == i2,
        j1 == j2,
{
    assert(i1 == i2 && j1 == j2) by (nonlinear_arith)
        requires
            origin.x + extent.x <= sx,
            0 <= i1 < extent.x,
            0 <= j1 < extent.y,
            0 <= i2 < extent.x,
            0 <= j2 < extent.y,
            (origin.y + j1) * sx + (origin.x + i1) == (origin.y + j2) * sx + (origin.x + i2),
    ;
}

/// The sweep never overwrites a cell before its own turn: when it reaches
/// position `(i, j)`, the cell at relative offset `(i, j)` is untouched,
/// so the intermediate state still shows that cell's original value.
pub proof fn lemma_own_cell_not_swept(sx: int, origin: Vector2u, extent: Vector2u, i: int, j: int)
    requires
        origin.x + extent.x <= sx,
        0 <= i < extent.x,
        0 <= j < extent.y,
    ensures
        !swept_before(sx, origin, extent, i, j, region_index(sx, origin, i, j)),
{
    if swept_before(sx, origin, extent, i, j, region_index(sx, origin, i, j)) {
        let (i3, j3): (int, int) = choose|i3: int, j3: int|
            sweep_before(extent, i3, j3, i, j) && region_index(sx, origin, i, j) == region_index(
                sx,
                origin,
                i3,
                j3,
            );
        lemma_region_index_injective(sx, origin, extent, i3, j3, i, j);
    }
}

/// Applies `f` to every cell of the rectangle at `position` with extent
/// `size`, in row-major order (`y` outer, `x` inner), writing each result
/// back into the grid before the next cell is computed. `f` receives the
/// grid as mutated so far: it may read any cell, including cells already
/// overwritten earlier in the same sweep. When the rectangle does not fit
/// inside the grid, the out-of-range error is returned before anything is
/// written: the bounds are checked up front instead of failing mid-sweep,
/// so a rejected call never leaves a partially overwritten grid.
pub fn carve_room<T, F: Fn(&Grid<T>, Vector2u) -> T>(
    grid: &mut Grid<T>,
    position: Vector2u,
    size: Vector2u,
    f: F,
) -> (r: Result<(), GridError>)
    requires
        old(grid).wf(),
        forall|g: Grid<T>, p: Vector2u|
            g.size == old(grid).size && g.wf() && in_region(position, size, p)
                ==> #[trigger] call_requires(f, (&g, p)),
    ensures
        final(grid).wf(),
        final(grid).size == old(grid).size,
        !region_ok(*old(grid), position, size) ==> (r matches Err(e) && e == GridError::OutOfRange
            && final(grid).map@ == old(grid).map@),
        region_ok(*old(grid), position, size) ==> r is Ok,
        region_ok(*old(grid), position, size) ==> (forall|k: int|
            0 <= k < old(grid).map@.len() && !in_region_index(
                old(grid).size.x as int,
                position,
                size,
                k,
            ) ==> final(grid).map@[k] == old(grid).map@[k]),
        region_ok(*old(grid), position, size) ==> (forall|i: int, j: int|
            0 <= i < size.x && 0 <= j < size.y ==> #[trigger] carve_cell_ok(
                f,
                *old(grid),
                *final(grid),
                position,
                size,
                i,
                j,
            )),
{
    let fits_x = (position.x as u64) + (size.x as u64) <= (grid.size.x as u64);
    let fits_y = (position.y as u64) + (size.y as u64) <= (grid.size.y as u64);
    if !(fits_x && fits_y) {
        return Err(GridError::OutOfRange);
    }
    let ghost g0: Grid<T> = *grid;
    let ghost sx: int = g0.size.x as int;
    let mut j: u32 = 0;
    while j < size.y
        invariant
            grid.wf(),
            grid.size == g0.size,
            g0.wf(),
            region_ok(g0, position, size),
            forall|g: Grid<T>, p: Vector2u|
                g.size == g0.size && g.wf() && in_region(position, size, p)
                    ==> #[trigger] call_requires(f, (&g, p)),
            sx == g0.size.x as int,
            j <= size.y,
            forall|k: int|
                0 <= k < g0.map@.len() && !swept_before(sx, position, size, 0, j as int, k)
                    ==> grid.map@[k] == g0.map@[k],
            forall|i2: int, j2: int|
                sweep_before(size, i2, j2, 0, j as int) ==> #[trigger] carve_cell_ok(
                    f,
                    g0,
                    *grid,
                    position,
                    size,
                    i2,
                    j2,
                ),
        decreases size.y - j,
    {
        let mut i: u32 = 0;
        while i < size.x
            invariant
                grid.wf(),
                grid.size == g0.size,
                g0.wf(),
                region_ok(g0, position, size),
                forall|g: Grid<T>, p: Vector2u|
                    g.size == g0.size && g.wf() && in_region(position, size, p)
                        ==> #[trigger] call_requires(f, (&g, p)),
                sx == g0.size.x as int,
                j < size.y,
                i <= size.x,
                forall|k: int|
                    0 <= k < g0.map@.len() && !swept_before(sx, position, size, i as int, j as int, k)
                        ==> grid.map@[k] == g0.map@[k],
                forall|i2: int, j2: int|
                    sweep_before(size, i2, j2, i as int, j as int) ==> #[trigger] carve_cell_ok(
                        f,
                        g0,
                        *grid,
                        position,
                        size,
                        i2,
                        j2,
                    ),
            decreases size.x - i,
        {
            let p = Vector2::new(position.x + i, position.y + j);
            let ghost g_before: Grid<T> = *grid;
            let ghost k0: int = region_index(sx, position, i as int, j as int);
            proof {
                lemma_row_major_index_in_range(
                    p.x as int,
                    p.y as int,
                    sx,
                    g0.size.y as int,
                );
            }
            let v = f(&*grid, p);
            let _ = grid.assign(p, v);
            proof {
                assert(grid.map@ == g_before.map@.update(k0, v));
                assert(grid.map@.len() == g0.map@.len());
                // The cell just written was not itself swept before `(i, j)`,
                // and no cell swept before `(i, j)` shares its index.
                assert(!swept_before(sx, position, size, i as int, j as int, k0)) by {
                    lemma_own_cell_not_swept(sx, position, size, i as int, j as int);
                }
                // The intermediate state handed to `f` was exactly the sweep
                // view at `(i, j)` of the original and the current storage.
                assert(g_before.map@ =~= sweep_view(
                    g0.map@,
                    grid.map@,
                    sx,
                    position,
                    size,
                    i as int,
                    j as int,
                )) by {
                    assert forall|k: int| 0 <= k < g0.map@.len() implies g_before.map@[k]
                        == sweep_view(
                        g0.map@,
                        grid.map@,
                        sx,
                        position,
                        size,
                        i as int,
                        j as int,
                    )[k] by {
                        if swept_before(sx, position, size, i as int, j as int, k) {
                            assert(k != k0);
                            assert(grid.map@[k] == g_before.map@[k]);
                        }
                    }
                }
                // The new cell satisfies the rule's postcondition at that state.
                assert(carve_cell_ok(f, g0, *grid, position, size, i as int, j as int)) by {
                    assert(p == (Vector2u {
                        x: (position.x + i as int) as u32,
                        y: (position.y + j as int) as u32,
                    }));
                    assert(grid.cell_xy(position.x + i as int, position.y + j as int) == v);
                    assert(g_before.map@ == sweep_view(
                        g0.map@,
                        grid.map@,
                        sx,
                        position,
                        size,
                        i as int,
                        j as int,
                    ));
                    assert(call_ensures(f, (&g_before, p), v));
                }
                // Cells swept before an earlier position are also swept before
                // the next one, and their sweep views are unchanged by the
                // write, so every earlier cell's record carries over.
                assert forall|i2: int, j2: int|
                    sweep_before(size, i2, j2, i as int + 1, j as int) implies carve_cell_ok(
                    f,
                    g0,
                    *grid,
                    position,
                    size,
                    i2,
                    j2,
                ) by {
                    if i2 == i as int && j2 == j as int {
                        assert(carve_cell_ok(f, g0, *grid, position, size, i2, j2));
                    } else {
                        assert(sweep_before(size, i2, j2, i as int, j as int));
                        assert(carve_cell_ok(f, g0, g_before, position, size, i2, j2));
                        let g_mid: Grid<T> = choose|g_mid: Grid<T>|
                            g_mid.size == g0.size && (#[trigger] g_mid.map)@ == sweep_view(
                                g0.map@,
                                g_before.map@,
                                sx,
                                position,
                                size,
                                i2,
                                j2,
                            ) && call_ensures(
                                f,
                                (
                                    &g_mid,
                                    (Vector2u {
                                        x: (position.x + i2) as u32,
                                        y: (position.y + j2) as u32,
                                    }),
                                ),
                                g_before.cell_xy(position.x + i2, position.y + j2),
                            );
                        let k2: int = region_index(sx, position, i2, j2);
                        assert(k2 != k0) by {
                            if k2 == k0 {
                                lemma_region_index_injective(
                                    sx,
                                    position,
                                    size,
                                    i2,
                                    j2,
                                    i as int,
                                    j as int,
                                );
                            }
                        }
                        assert(sweep_view(g0.map@, g_before.map@, sx, position, size, i2, j2)
                            =~= sweep_view(g0.map@, grid.map@, sx, position, size, i2, j2)) by {
                            assert forall|k: int| 0 <= k < g0.map@.len() implies sweep_view(
                                g0.map@,
                                g_before.map@,
                                sx,
                                position,
                                size,
                                i2,
                                j2,
                            )[k] == sweep_view(
                                g0.map@,
                                grid.map@,
                                sx,
                                position,
                                size,
                                i2,
                                j2,
                            )[k] by {
                                if swept_before(sx, position, size, i2, j2, k) {
                                    assert(k != k0) by {
                                        if k == k0 {
                                            let (i3, j3): (int, int) = choose|i3: int, j3: int|
                                                sweep_before(size, i3, j3, i2, j2) && k
                                                    == region_index(sx, position, i3, j3);
                                            lemma_region_index_injective(
                                                sx,
                                                position,
                                                size,
                                                i3,
                                                j3,
                                                i as int,
                                                j as int,
                                            );
                                            assert(sweep_before(size, i as int, j as int, i2, j2));
                                        }
                                    }
                                }
                            }
                        }
                        lemma_row_major_index_in_range(
                            position.x + i2,
                            position.y + j2,
                            sx,
                            g0.size.y as int,
                        );
                        assert(grid.map@[k2] == g_before.map@[k2]);
                        assert(g_before.cell_xy(position.x + i2, position.y + j2) == grid.cell_xy(
                            position.x + i2,
                            position.y + j2,
                        ));
                        assert(carve_cell_ok(f, g0, *grid, position, size, i2, j2)) by {
                            assert(g_mid.map@ == sweep_view(
                                g0.map@,
                                grid.map@,
                                sx,
                                position,
                                size,
                                i2,
                                j2,
                            ));
                        }
                    }
                }
                // A cell untouched up to the next sweep position was untouched
                // up to this one and is not the cell just written.
                assert forall|k: int|
                    0 <= k < g0.map@.len() && !swept_before(
                        sx,
                        position,
                        size,
                        i as int + 1,
                        j as int,
                        k,
                    ) implies grid.map@[k] == g0.map@[k] by {
                    assert(sweep_before(size, i as int, j as int, i as int + 1, j as int));
                    assert(k != k0);
                    assert(!swept_before(sx, position, size, i as int, j as int, k)) by {
                        if swept_before(sx, position, size, i as int, j as int, k) {
                            let (i3, j3): (int, int) = choose|i3: int, j3: int|
                                sweep_before(size, i3, j3, i as int, j as int) && k == region_index(
                                    sx,
                                    position,
                                    i3,
                                    j3,
                                );
                            assert(sweep_before(size, i3, j3, i as int + 1, j as int));
                        }
                    }
                }
            }
            i += 1;
        }
        proof {
            // At the end of a row, the sweep position `(size.x, j)` covers the
            // same cells as the start of the next row, `(0, j + 1)`.
            assert forall|k: int|
                0 <= k < g0.map@.len() && !swept_before(
                    sx,
                    position,
                    size,
                    0,
                    j as int + 1,
                    k,
                ) implies grid.map@[k] == g0.map@[k] by {
                assert(!swept_before(sx, position, size, size.x as int, j as int, k)) by {
                    if swept_before(sx, position, size, size.x as int, j as int, k) {
                        let (i3, j3): (int, int) = choose|i3: int, j3: int|
                            sweep_before(size, i3, j3, size.x as int, j as int) && k == region_index(
                                sx,
                                position,
                                i3,
                                j3,
                            );
                        assert(sweep_before(size, i3, j3, 0, j as int + 1));
                    }
                }
            }
            assert forall|i2: int, j2: int|
                sweep_before(size, i2, j2, 0, j as int + 1) implies carve_cell_ok(
                f,
                g0,
                *grid,
                position,
                size,
                i2,
                j2,
            ) by {
                assert(sweep_before(size, i2, j2, size.x as int, j as int));
            }
        }
        j += 1;
    }
    proof {
        // A finished sweep has covered exactly the rectangle's cells.
        assert forall|k: int|
            0 <= k < g0.map@.len() && !in_region_index(sx, position, size, k) implies grid.map@[k]
            == g0.map@[k] by {
            assert(!swept_before(sx, position, size, 0, size.y as int, k)) by {
                if swept_before(sx, position, size, 0, size.y as int, k) {
                    let (i3, j3): (int, int) = choose|i3: int, j3: int|
                        sweep_before(size, i3, j3, 0, size.y as int) && k == region_index(
                            sx,
                            position,
                            i3,
                            j3,
                        );
                    assert(k == region_index(sx, position, i3, j3));
                }
            }
        }
        assert forall|i2: int, j2: int|
            0 <= i2 < size.x && 0 <= j2 < size.y implies #[trigger] carve_cell_ok(
            f,
            g0,
            *grid,
            position,
            size,
            i2,
            j2,
        ) by {
            assert(sweep_before(size, i2, j2, 0, size.y as int));
        }
    }
    Ok(())
}

} // verus!
