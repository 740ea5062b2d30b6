//! The world around the grid: a tile cell type, a debug text rendering of
//! a grid (one character per cell, a newline after each row), and a
//! constructor that fills a grid with independently random tiles.

use vstd::prelude::*;

use crate::grid::{lemma_row_major_index_in_range, Grid};
use crate::vector::Vector2u;

verus! {

/// A cell type the grid can draw: each value renders as one character.
pub trait Render {
    /// The character the value renders as.
    spec fn render_spec(&self) -> char;

    /// Draws the value as a single display character.
    fn render_cell(&self) -> (c: char)
        ensures
            c == self.render_spec(),
    ;
}

/// One cell of the world: a flag telling whether the cell is filled.
#[derive(Debug, Clone, Copy, PartialEq, Eq)]
pub struct Tile {
    pub is_filled: bool,
}

impl Render for Tile {
    /// A filled tile draws as `'X'`, an empty one as `'_'`.
    open spec fn render_spec(&self) -> char {
        if self.is_filled {
            'X'
        } else {
            '_'
        }
    }

    fn render_cell(&self) -> (c: char) {
        if self.is_filled {
            'X'
        } else {
            '_'
        }
    }
}

impl<T: Render> Grid<T> {
    /// The text rendering of the grid: one character per cell, row-major,
    /// each row of `size.x` characters terminated by a newline.
    pub fn render(&self) -> (s: String)
        requires
            self.wf(),
        ensures
            s@.len() == (self.size.x + 1) * self.size.y,
            forall|i: int, j: int|
                0 <= i < self.size.x && 0 <= j < self.size.y ==> #[trigger] s@[j * (self.size.x
                    + 1) + i] == self.cell_xy(i, j).render_spec(),
            forall|j: int|
                0 <= j < self.size.y ==> #[trigger] s@[j * (self.size.x + 1) + self.size.x]
                    == '\n',
    {
        let mut chars: Vec<char> = Vec::new();
        let mut j: u32 = 0;
        while j < self.size.y
            invariant
                self.wf(),
                j <= self.size.y,
                chars@.len() == j * (self.size.x + 1),
                forall|i2: int, j2: int|
                    0 <= i2 < self.size.x && 0 <= j2 < j ==> #[trigger] chars@[j2 * (self.size.x
                        + 1) + i2] == self.cell_xy(i2, j2).render_spec(),
                forall|j2: int|
                    0 <= j2 < j ==> #[trigger] chars@[j2 * (self.size.x + 1) + self.size.x]
                        == '\n',
            decreases self.size.y - j,
        {
            let mut i: u32 = 0;
            while i < self.size.x
                invariant
                    self.wf(),
                    j < self.size.y,
                    i <= self.size.x,
                    chars@.len() == j * (self.size.x + 1) + i,
                    forall|i2: int, j2: int|
                        0 <= i2 < self.size.x && 0 <= j2 < j ==> #[trigger] chars@[j2 * (self.size.x
                            + 1) + i2] == self.cell_xy(i2, j2).render_spec(),
                    forall|j2: int|
                        0 <= j2 < j ==> #[trigger] chars@[j2 * (self.size.x + 1) + self.size.x]
                            == '\n',
                    forall|i2: int|
                        0 <= i2 < i ==> #[trigger] chars@[j * (self.size.x + 1) + i2]
                            == self.cell_xy(i2, j as int).render_spec(),
                decreases self.size.x - i,
            {
                proof {
                    assert(self.map.len() <= usize::MAX);
                    lemma_row_major_index_in_range(
                        i as int,
                        j as int,
                        self.size.x as int,
                        self.size.y as int,
                    );
                }
                let idx: usize = (j as usize) * (self.size.x as usize) + (i as usize);
                chars.push(self.map[idx].render_cell());
                proof {
                    assert forall|i2: int, j2: int|
                        0 <= i2 < self.size.x && 0 <= j2 < j implies #[trigger] chars@[j2
                        * (self.size.x + 1) + i2] == self.cell_xy(i2, j2).render_spec() by {
                        assert(0 <= j2 * (self.size.x + 1) + i2 < j * (self.size.x + 1))
                            by (nonlinear_arith)
                            requires
                                0 <= i2 < self.size.x as int + 1,
                                0 <= j2 < j as int,
                        ;
                    }
                    assert forall|j2: int|
                        0 <= j2 < j implies #[trigger] chars@[j2 * (self.size.x + 1) + self.size.x]
                        == '\n' by {
                        assert(0 <= j2 * (self.size.x + 1) + self.size.x < j * (self.size.x + 1))
                            by (nonlinear_arith)
                            requires
                                0 <= j2 < j as int,
                                0 <= self.size.x as int,
                        ;
                    }
                }
                i += 1;
            }
            chars.push('\n');
            proof {
                assert((j + 1) * (self.size.x + 1) == j * (self.size.x + 1) + self.size.x + 1)
                    by (nonlinear_arith);
                assert forall|i2: int, j2: int|
                    0 <= i2 < self.size.x && 0 <= j2 < j + 1 implies #[trigger] chars@[j2
                    * (self.size.x + 1) + i2] == self.cell_xy(i2, j2).render_spec() by {
                    assert(0 <= j2 * (self.size.x + 1) + i2 < j * (self.size.x + 1) + self.size.x)
                        by (nonlinear_arith)
                        requires
                            0 <= i2 < self.size.x as int,
                            0 <= j2 <= j as int,
                    ;
                    if j2 == j {
                        assert(chars@[j * (self.size.x + 1) + i2] == self.cell_xy(
                            i2,
                            j as int,
                        ).render_spec());
                    }
                }
                assert forall|j2: int|
                    0 <= j2 < j + 1 implies #[trigger] chars@[j2 * (self.size.x + 1) + self.size.x]
                    == '\n' by {
                    assert(0 <= j2 * (self.size.x + 1) + self.size.x < (j + 1) * (self.size.x + 1))
                        by (nonlinear_arith)
                        requires
                            0 <= j2 <= j as int,
                            0 <= self.size.x as int,
                    ;
                    if j2 == j {
                        assert(chars@[j * (self.size.x + 1) + self.size.x] == '\n');
                    }
                }
            }
            j += 1;
        }
        proof {
            assert(chars@.len() == (self.size.x + 1) * self.size.y) by (nonlinear_arith)
                requires
                    chars@.len() == self.size.y * (self.size.x + 1),
            ;
        }
        chars_to_string(&chars)
    }
}

/// A world: the owner of a grid of tiles.
pub struct World {
    pub grid: Grid<Tile>,
}

impl World {
    /// Builds a world whose grid has the given size, every cell an
    /// independently random tile.
    pub fn new(size: Vector2u) -> (w: World)
        requires
            size.x * size.y <= usize::MAX,
        ensures
            w.grid.wf(),
            w.grid.size == size,
    {
        let n: usize = (size.x as usize) * (size.y as usize);
        let mut map_vector: Vec<Tile> = Vec::new();
        let mut k: usize = 0;
        while k < n
            invariant
                map_vector@.len() == k,
                k <= n,
            decreases n - k,
        {
            map_vector.push(Tile { is_filled: random_bool() });
            k += 1;
        }
        World { grid: Grid { size, map: map_vector } }
    }
}

/// Relies on `rand::random`: draws one boolean from the thread-local
/// generator; nothing is promised of the outcome.
#[verifier::external_body]
fn random_bool() -> bool {
    rand::random::<bool>()
}

/// Relies on `Iterator::collect` for `String`: the characters of the
/// vector, in order, as one string.
#[verifier::external_body]
fn chars_to_string(v: &Vec<char>) -> (s: String)
    ensures
        s@ == v@,
{
    v.iter().collect()
}

} // verus!
