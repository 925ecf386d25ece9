use vstd::prelude::*;

use crate::common::text::{parse_cell_values, spec_cell_values, str_eq};
use crate::config::grids::{
    GRID_L, GRID_M, GRID_S, GRID_TEST_DIAGONAL, GRID_TEST_HORIZONTAL, GRID_TEST_LINE,
    GRID_TEST_SINGLE, GRID_TEST_VERTICAL,
};

verus! {

/// Errors surfaced by the planning and simulation core.
///
/// Configuration errors (an unknown grid name, grid text whose cell count is
/// not a perfect square) are fatal to the run that caused them; a too-short
/// path is a caller-contract violation reported by simulators.
#[derive(Clone, Copy, PartialEq, Eq, Structural, Debug)]
pub enum CoreError {
    /// A grid was requested under a name the library does not know.
    InvalidGridName,
    /// Grid text did not hold a square number of cell values.
    MalformedGrid,
    /// A path handed to a simulator had fewer than two steps.
    PathTooShort,
}

/// A planned route over a grid: the ordered cells to traverse (front first)
/// and the accumulated cost assigned by the planner that produced it.
pub struct Path {
    /// The sequence of steps in the path, as (row, col) coordinates.
    pub steps: Vec<(usize, usize)>,
    /// The total cost of the path.
    pub total_cost: usize,
}

impl Path {
    /// Every step lies inside a square grid of the given side length.
    pub open spec fn in_bounds(&self, size: int) -> bool {
        forall|i: int|
            0 <= i < self.steps@.len() ==> (#[trigger] self.steps@[i]).0 < size
                && self.steps@[i].1 < size
    }
}

impl Clone for Path {
    fn clone(&self) -> (r: Self)
        ensures
            r.steps@ == self.steps@,
            r.total_cost == self.total_cost,
    {
        let mut steps: Vec<(usize, usize)> = Vec::new();
        let mut i: usize = 0;
        while i < self.steps.len()
            invariant
                i <= self.steps@.len(),
                steps@ == self.steps@.subrange(0, i as int),
            decreases self.steps@.len() - i,
        {
            steps.push(self.steps[i]);
            proof {
                assert(steps@ =~= self.steps@.subrange(0, i + 1));
            }
            i = i + 1;
        }
        proof {
            assert(steps@ =~= self.steps@);
        }
        Path { steps, total_cost: self.total_cost }
    }
}

/// A transient search record used by the exploring planners: a cell, the
/// value accumulated along the discovered route from the start cell, and the
/// cell it was discovered from.
pub struct Node {
    /// The row of the node in the grid.
    pub row: usize,
    /// The column of the node in the grid.
    pub col: usize,
    /// The value accumulated along the discovered route to this node.
    pub value: usize,
    /// The coordinates of the node this one was discovered from, if any.
    pub parent: Option<(usize, usize)>,
}

impl Clone for Node {
    fn clone(&self) -> (r: Self)
        ensures
            r == *self,
    {
        Node { row: self.row, col: self.col, value: self.value, parent: self.parent }
    }
}

/// Search records compare by accumulated value alone: two nodes for
/// different cells are interchangeable to an ordering structure when the
/// routes to them accumulate the same value.
impl PartialEq for Node {
    fn eq(&self, other: &Self) -> (r: bool)
        ensures
            r == (self.value == other.value),
    {
        self.value == other.value
    }
}

impl vstd::std_specs::cmp::PartialEqSpecImpl for Node {
    open spec fn obeys_eq_spec() -> bool {
        true
    }

    open spec fn eq_spec(&self, other: &Self) -> bool {
        self.value == other.value
    }
}

impl Eq for Node {}

/// A square field of intensity values in `0..=255`, stored row-major.
pub struct Grid {
    /// The raw data of the grid, stored row-major.
    pub data: Vec<u8>,
    /// The side length of the (square) grid.
    pub size: usize,
}

/// The square neighborhood of half-width `range` around `(row, col)`,
/// clipped to the bounds of a grid of side length `size`: exactly the cells
/// the local grid operators touch.
pub open spec fn in_clipped_square(
    size: int,
    row: int,
    col: int,
    range: int,
    r: int,
    c: int,
) -> bool {
    &&& (if row - range > 0 { row - range } else { 0 }) <= r
    &&& r < (if row + range + 1 < size { row + range + 1 } else { size })
    &&& (if col - range > 0 { col - range } else { 0 }) <= c
    &&& c < (if col + range + 1 < size { col + range + 1 } else { size })
}

/// Row-major position of cell `(r, c)` stays inside the flat data array.
pub proof fn lemma_grid_index(size: int, r: int, c: int)
    by (nonlinear_arith)
    requires
        0 <= r < size,
        0 <= c < size,
    ensures
        0 <= r * size + c < size * size,
{
}

/// The largest integer whose square does not exceed `n`.
fn isqrt(n: usize) -> (r: usize)
    ensures
        r * r <= n,
        (r + 1) * (r + 1) > n,
        r < 0x1_0000_0000,
{
    let mut r: usize = 0;
    loop
        invariant_except_break
            r * r <= n,
            r <= n,
            r < 0x1_0000_0000,
        ensures
            r * r <= n,
            (r + 1) * (r + 1) > n,
            r < 0x1_0000_0000,
        decreases n - r,
    {
        let s1: u128 = r as u128 + 1;
        proof {
            assert(s1 * s1 <= 0x1_0000_0000_0000_0000u128) by (nonlinear_arith)
                requires
                    s1 <= 0x1_0000_0000u128,
            {
            }
        }
        if s1 * s1 > n as u128 {
            break;
        }
        proof {
            assert(r + 1 <= n && r + 1 < 0x1_0000_0000) by (nonlinear_arith)
                requires
                    (r + 1) * (r + 1) <= n,
                    0 <= r,
                    n <= usize::MAX,
                    usize::MAX < 0x1_0000_0000_0000_0000,
            {
            }
        }
        r = r + 1;
    }
    r
}

/// Distinct cells have distinct row-major positions.
pub proof fn lemma_grid_index_injective(size: int, r1: int, c1: int, r2: int, c2: int)
    by (nonlinear_arith)
    requires
        0 <= r1 < size,
        0 <= c1 < size,
        0 <= r2 < size,
        0 <= c2 < size,
        r1 * size + c1 == r2 * size + c2,
    ensures
        r1 == r2,
        c1 == c2,
{
}

impl Grid {
    /// The grid invariant: the flat data array holds exactly `size * size`
    /// values, so every cell with row and column below `size` is backed.
    pub open spec fn wf(&self) -> bool {
        self.size * self.size == self.data@.len()
    }

    /// The value of cell `(r, c)`.
    pub open spec fn spec_value_at(&self, r: int, c: int) -> u8 {
        self.data@[r * self.size + c]
    }

    /// Cell `(r, c)` lies inside the grid.
    pub open spec fn spec_in_bounds(&self, r: int, c: int) -> bool {
        0 <= r < self.size && 0 <= c < self.size
    }

    /// Creates a new grid from a flat vector whose length is a perfect
    /// square; the side length is the exact square root of that length.
    pub fn new(data: Vec<u8>) -> (g: Grid)
        requires
            exists|s: int| 0 <= s && #[trigger] (s * s) == data@.len(),
        ensures
            g.wf(),
            g.data@ == data@,
            g.size * g.size == data@.len(),
    {
        let ghost root: int = choose|s: int| 0 <= s && #[trigger] (s * s) == data@.len();
        let n = data.len();
        let size = isqrt(n);
        proof {
            assert(size == root) by (nonlinear_arith)
                requires
                    0 <= size,
                    0 <= root,
                    size * size <= n,
                    (size + 1) * (size + 1) > n,
                    root * root == n,
            {
            }
        }
        Grid { data, size }
    }

    /// Clipped bounds of the square neighborhood of half-width `range`
    /// around `(row, col)`: start rows/columns saturate at zero, end
    /// rows/columns are exclusive and clipped to the grid side length.
    fn get_start_end_row_col(&self, row: usize, col: usize, range: usize) -> (res: (
        usize,
        usize,
        usize,
        usize,
    ))
        requires
            row + range + 1 <= usize::MAX,
            col + range + 1 <= usize::MAX,
        ensures
            res.0 == if row > range { row - range } else { 0 },
            res.1 == if row + range + 1 < self.size { row + range + 1 } else { self.size as int },
            res.2 == if col > range { col - range } else { 0 },
            res.3 == if col + range + 1 < self.size { col + range + 1 } else { self.size as int },
            res.1 <= self.size,
            res.3 <= self.size,
    {
        let start_row = row.saturating_sub(range);
        let end_row = if row + range + 1 < self.size { row + range + 1 } else { self.size };
        let start_col = col.saturating_sub(range);
        let end_col = if col + range + 1 < self.size { col + range + 1 } else { self.size };

        (start_row, end_row, start_col, end_col)
    }

    /// Subtracts a value from every cell in the clipped neighborhood of
    /// `(row, col)`, saturating at zero; cells outside that neighborhood
    /// keep their value. Amounts are taken modulo 256, as a cast to the
    /// cell width would.
    pub fn saturated_subtract_at(&mut self, row: usize, col: usize, range: usize, amount: usize)
        requires
            old(self).wf(),
            row + range + 1 <= usize::MAX,
            col + range + 1 <= usize::MAX,
        ensures
            final(self).wf(),
            final(self).size == old(self).size,
            forall|r: int, c: int|
                old(self).spec_in_bounds(r, c) ==> (#[trigger] final(self).spec_value_at(r, c))
                    == (if in_clipped_square(
                    old(self).size as int,
                    row as int,
                    col as int,
                    range as int,
                    r,
                    c,
                ) {
                    old(self).spec_value_at(r, c).saturating_sub((amount % 256) as u8)
                } else {
                    old(self).spec_value_at(r, c)
                }),
    {
        let (start_row, end_row, start_col, end_col) = self.get_start_end_row_col(row, col, range);
        let amt: u8 = (amount % 256) as u8;
        let size = self.size;
        let ghost g0 = *self;
        let mut r = start_row;
        while r < end_row
            invariant
                self.size == g0.size,
                self.data@.len() == g0.data@.len(),
                g0.wf(),
                size == g0.size,
                end_row <= size,
                end_col <= size,
                start_row <= r,
                r <= end_row || r == start_row,
                amt == (amount % 256) as u8,
                start_row == if row > range { row - range } else { 0 },
                end_row == if row + range + 1 < size { row + range + 1 } else { size as int },
                start_col == if col > range { col - range } else { 0 },
                end_col == if col + range + 1 < size { col + range + 1 } else { size as int },
                forall|i: int, j: int|
                    g0.spec_in_bounds(i, j) ==> (#[trigger] self.spec_value_at(i, j)) == (if i < r
                        && in_clipped_square(
                        g0.size as int,
                        row as int,
                        col as int,
                        range as int,
                        i,
                        j,
                    ) {
                        g0.spec_value_at(i, j).saturating_sub(amt)
                    } else {
                        g0.spec_value_at(i, j)
                    }),
            decreases end_row - r,
        {
            let mut c = start_col;
            while c < end_col
                invariant
                    self.size == g0.size,
                    self.data@.len() == g0.data@.len(),
                    g0.wf(),
                    size == g0.size,
                    start_row <= r < end_row,
                    end_row <= size,
                    end_col <= size,
                    start_col <= c,
                    c <= end_col || c == start_col,
                    amt == (amount % 256) as u8,
                    start_row == if row > range { row - range } else { 0 },
                    end_row == if row + range + 1 < size { row + range + 1 } else { size as int },
                    start_col == if col > range { col - range } else { 0 },
                    end_col == if col + range + 1 < size { col + range + 1 } else { size as int },
                    forall|i: int, j: int|
                        g0.spec_in_bounds(i, j) ==> (#[trigger] self.spec_value_at(i, j)) == (if (i
                            < r || (i == r && j < c)) && in_clipped_square(
                            g0.size as int,
                            row as int,
                            col as int,
                            range as int,
                            i,
                            j,
                        ) {
                            g0.spec_value_at(i, j).saturating_sub(amt)
                        } else {
                            g0.spec_value_at(i, j)
                        }),
                decreases end_col - c,
            {
                let n = self.data.len();
                proof {
                    lemma_grid_index(size as int, r as int, c as int);
                }
                let idx = r * size + c;
                let ghost pre = *self;
                let v = self.data[idx];
                self.data[idx] = v.saturating_sub(amt);
                proof {
                    assert forall|i: int, j: int| g0.spec_in_bounds(i, j) implies (
                    #[trigger] self.spec_value_at(i, j)) == (if (i < r || (i == r && j < c + 1))
                        && in_clipped_square(
                        g0.size as int,
                        row as int,
                        col as int,
                        range as int,
                        i,
                        j,
                    ) {
                        g0.spec_value_at(i, j).saturating_sub(amt)
                    } else {
                        g0.spec_value_at(i, j)
                    }) by {
                        lemma_grid_index(g0.size as int, i, j);
                        if i * g0.size + j == idx as int {
                            lemma_grid_index_injective(g0.size as int, i, j, r as int, c as int);
                            assert(pre.spec_value_at(i, j) == g0.spec_value_at(i, j));
                        } else {
                            assert(self.spec_value_at(i, j) == pre.spec_value_at(i, j));
                        }
                    }
                }
                c = c + 1;
            }
            r = r + 1;
        }
    }

    /// Adds a value to every cell in the clipped neighborhood of
    /// `(row, col)`, saturating at 255; cells outside that neighborhood
    /// keep their value. Amounts are taken modulo 256, as a cast to the
    /// cell width would.
    pub fn saturated_add_at(&mut self, row: usize, col: usize, range: usize, amount: usize)
        requires
            old(self).wf(),
            row + range + 1 <= usize::MAX,
            col + range + 1 <= usize::MAX,
        ensures
            final(self).wf(),
            final(self).size == old(self).size,
            forall|r: int, c: int|
                old(self).spec_in_bounds(r, c) ==> (#[trigger] final(self).spec_value_at(r, c))
                    == (if in_clipped_square(
                    old(self).size as int,
                    row as int,
                    col as int,
                    range as int,
                    r,
                    c,
                ) {
                    old(self).spec_value_at(r, c).saturating_add((amount % 256) as u8)
                } else {
                    old(self).spec_value_at(r, c)
                }),
    {
        let (start_row, end_row, start_col, end_col) = self.get_start_end_row_col(row, col, range);
        let amt: u8 = (amount % 256) as u8;
        let size = self.size;
        let ghost g0 = *self;
        let mut r = start_row;
        while r < end_row
            invariant
                self.size == g0.size,
                self.data@.len() == g0.data@.len(),
                g0.wf(),
                size == g0.size,
                end_row <= size,
                end_col <= size,
                start_row <= r,
                r <= end_row || r == start_row,
                amt == (amount % 256) as u8,
                start_row == if row > range { row - range } else { 0 },
                end_row == if row + range + 1 < size { row + range + 1 } else { size as int },
                start_col == if col > range { col - range } else { 0 },
                end_col == if col + range + 1 < size { col + range + 1 } else { size as int },
                forall|i: int, j: int|
                    g0.spec_in_bounds(i, j) ==> (#[trigger] self.spec_value_at(i, j)) == (if i < r
                        && in_clipped_square(
                        g0.size as int,
                        row as int,
                        col as int,
                        range as int,
                        i,
                        j,
                    ) {
                        g0.spec_value_at(i, j).saturating_add(amt)
                    } else {
                        g0.spec_value_at(i, j)
                    }),
            decreases end_row - r,
        {
            let mut c = start_col;
            while c < end_col
                invariant
                    self.size == g0.size,
                    self.data@.len() == g0.data@.len(),
                    g0.wf(),
                    size == g0.size,
                    start_row <= r < end_row,
                    end_row <= size,
                    end_col <= size,
                    start_col <= c,
                    c <= end_col || c == start_col,
                    amt == (amount % 256) as u8,
                    start_row == if row > range { row - range } else { 0 },
                    end_row == if row + range + 1 < size { row + range + 1 } else { size as int },
                    start_col == if col > range { col - range } else { 0 },
                    end_col == if col + range + 1 < size { col + range + 1 } else { size as int },
                    forall|i: int, j: int|
                        g0.spec_in_bounds(i, j) ==> (#[trigger] self.spec_value_at(i, j)) == (if (i
                            < r || (i == r && j < c)) && in_clipped_square(
                            g0.size as int,
                            row as int,
                            col as int,
                            range as int,
                            i,
                            j,
                        ) {
                            g0.spec_value_at(i, j).saturating_add(amt)
                        } else {
                            g0.spec_value_at(i, j)
                        }),
                decreases end_col - c,
            {
                let n = self.data.len();
                proof {
                    lemma_grid_index(size as int, r as int, c as int);
                }
                let idx = r * size + c;
                let ghost pre = *self;
                let v = self.data[idx];
                self.data[idx] = v.saturating_add(amt);
                proof {
                    assert forall|i: int, j: int| g0.spec_in_bounds(i, j) implies (
                    #[trigger] self.spec_value_at(i, j)) == (if (i < r || (i == r && j < c + 1))
                        && in_clipped_square(
                        g0.size as int,
                        row as int,
                        col as int,
                        range as int,
                        i,
                        j,
                    ) {
                        g0.spec_value_at(i, j).saturating_add(amt)
                    } else {
                        g0.spec_value_at(i, j)
                    }) by {
                        lemma_grid_index(g0.size as int, i, j);
                        if i * g0.size + j == idx as int {
                            lemma_grid_index_injective(g0.size as int, i, j, r as int, c as int);
                            assert(pre.spec_value_at(i, j) == g0.spec_value_at(i, j));
                        } else {
                            assert(self.spec_value_at(i, j) == pre.spec_value_at(i, j));
                        }
                    }
                }
                c = c + 1;
            }
            r = r + 1;
        }
    }

    /// Raises every cell in the clipped neighborhood of `(row, col)` to at
    /// least its value in `source_grid`; cells outside that neighborhood
    /// keep their value.
    pub fn max(&mut self, row: usize, col: usize, range: usize, source_grid: &Grid)
        requires
            old(self).wf(),
            source_grid.wf(),
            source_grid.size == old(self).size,
            row + range + 1 <= usize::MAX,
            col + range + 1 <= usize::MAX,
        ensures
            final(self).wf(),
            final(self).size == old(self).size,
            forall|r: int, c: int|
                old(self).spec_in_bounds(r, c) ==> (#[trigger] final(self).spec_value_at(r, c))
                    == (if in_clipped_square(
                    old(self).size as int,
                    row as int,
                    col as int,
                    range as int,
                    r,
                    c,
                ) {
                    if source_grid.spec_value_at(r, c) > old(self).spec_value_at(r, c) {
                        source_grid.spec_value_at(r, c)
                    } else {
                        old(self).spec_value_at(r, c)
                    }
                } else {
                    old(self).spec_value_at(r, c)
                }),
    {
        let (start_row, end_row, start_col, end_col) = self.get_start_end_row_col(row, col, range);
        let size = self.size;
        let ghost g0 = *self;
        let mut r = start_row;
        while r < end_row
            invariant
                self.size == g0.size,
                self.data@.len() == g0.data@.len(),
                g0.wf(),
                source_grid.wf(),
                source_grid.size == g0.size,
                size == g0.size,
                end_row <= size,
                end_col <= size,
                start_row <= r,
                r <= end_row || r == start_row,
                start_row == if row > range { row - range } else { 0 },
                end_row == if row + range + 1 < size { row + range + 1 } else { size as int },
                start_col == if col > range { col - range } else { 0 },
                end_col == if col + range + 1 < size { col + range + 1 } else { size as int },
                forall|i: int, j: int|
                    g0.spec_in_bounds(i, j) ==> (#[trigger] self.spec_value_at(i, j)) == (if i < r
                        && in_clipped_square(
                        g0.size as int,
                        row as int,
                        col as int,
                        range as int,
                        i,
                        j,
                    ) {
                        if source_grid.spec_value_at(i, j) > g0.spec_value_at(i, j) {
                            source_grid.spec_value_at(i, j)
                        } else {
                            g0.spec_value_at(i, j)
                        }
                    } else {
                        g0.spec_value_at(i, j)
                    }),
            decreases end_row - r,
        {
            let mut c = start_col;
            while c < end_col
                invariant
                    self.size == g0.size,
                    self.data@.len() == g0.data@.len(),
                    g0.wf(),
                    source_grid.wf(),
                    source_grid.size == g0.size,
                    size == g0.size,
                    start_row <= r < end_row,
                    end_row <= size,
                    end_col <= size,
                    start_col <= c,
                    c <= end_col || c == start_col,
                    start_row == if row > range { row - range } else { 0 },
                    end_row == if row + range + 1 < size { row + range + 1 } else { size as int },
                    start_col == if col > range { col - range } else { 0 },
                    end_col == if col + range + 1 < size { col + range + 1 } else { size as int },
                    forall|i: int, j: int|
                        g0.spec_in_bounds(i, j) ==> (#[trigger] self.spec_value_at(i, j)) == (if (i
                            < r || (i == r && j < c)) && in_clipped_square(
                            g0.size as int,
                            row as int,
                            col as int,
                            range as int,
                            i,
                            j,
                        ) {
                            if source_grid.spec_value_at(i, j) > g0.spec_value_at(i, j) {
                                source_grid.spec_value_at(i, j)
                            } else {
                                g0.spec_value_at(i, j)
                            }
                        } else {
                            g0.spec_value_at(i, j)
                        }),
                decreases end_col - c,
            {
                let n = self.data.len();
                proof {
                    lemma_grid_index(size as int, r as int, c as int);
                }
                let idx = r * size + c;
                let ghost pre = *self;
                let v = self.data[idx];
                let s = source_grid.data[idx];
                self.data[idx] = if s > v {
                    s
                } else {
                    v
                };
                proof {
                    assert forall|i: int, j: int| g0.spec_in_bounds(i, j) implies (
                    #[trigger] self.spec_value_at(i, j)) == (if (i < r || (i == r && j < c + 1))
                        && in_clipped_square(
                        g0.size as int,
                        row as int,
                        col as int,
                        range as int,
                        i,
                        j,
                    ) {
                        if source_grid.spec_value_at(i, j) > g0.spec_value_at(i, j) {
                            source_grid.spec_value_at(i, j)
                        } else {
                            g0.spec_value_at(i, j)
                        }
                    } else {
                        g0.spec_value_at(i, j)
                    }) by {
                        lemma_grid_index(g0.size as int, i, j);
                        if i * g0.size + j == idx as int {
                            lemma_grid_index_injective(g0.size as int, i, j, r as int, c as int);
                            assert(pre.spec_value_at(i, j) == g0.spec_value_at(i, j));
                        } else {
                            assert(self.spec_value_at(i, j) == pre.spec_value_at(i, j));
                        }
                    }
                }
                c = c + 1;
            }
            r = r + 1;
        }
    }

    /// Returns the value at the specified row and column.
    pub fn value_at(&self, row: usize, col: usize) -> (v: u8)
        requires
            self.wf(),
            row < self.size,
            col < self.size,
        ensures
            v == self.spec_value_at(row as int, col as int),
    {
        let n = self.data.len();
        proof {
            lemma_grid_index(self.size as int, row as int, col as int);
        }
        self.data[row * self.size + col]
    }

    /// Loads a predefined grid by name: the named cell text is parsed into
    /// values, each value is scaled by ten (saturating), and the result must
    /// hold a square number of cells.
    pub fn load(grid_name: &str) -> (r: Result<Grid, CoreError>)
        ensures
            match r {
                Ok(g) => {
                    &&& spec_grid_text(grid_name@) is Some
                    &&& g.wf()
                    &&& g.data@ == spec_cell_values(spec_grid_text(grid_name@)->0).map_values(
                        |v: u8| scale10(v),
                    )
                },
                Err(e) => {
                    &&& (e == CoreError::InvalidGridName <==> spec_grid_text(grid_name@) is None)
                    &&& (e == CoreError::MalformedGrid <==> spec_grid_text(grid_name@) is Some
                        && !is_perfect_square(
                        spec_cell_values(spec_grid_text(grid_name@)->0).len() as int,
                    ))
                    &&& (e == CoreError::InvalidGridName || e == CoreError::MalformedGrid)
                },
            },
            r is Ok <==> spec_grid_text(grid_name@) is Some && is_perfect_square(
                spec_cell_values(spec_grid_text(grid_name@)->0).len() as int,
            ),
    {
        let grid_file: &str = if str_eq(grid_name, "GRID_S") {
            GRID_S
        } else if str_eq(grid_name, "GRID_M") {
            GRID_M
        } else if str_eq(grid_name, "GRID_L") {
            GRID_L
        } else if str_eq(grid_name, "GRID_TEST_SINGLE") {
            GRID_TEST_SINGLE
        } else if str_eq(grid_name, "GRID_TEST_LINE") {
            GRID_TEST_LINE
        } else if str_eq(grid_name, "GRID_TEST_HORIZONTAL") {
            GRID_TEST_HORIZONTAL
        } else if str_eq(grid_name, "GRID_TEST_VERTICAL") {
            GRID_TEST_VERTICAL
        } else if str_eq(grid_name, "GRID_TEST_DIAGONAL") {
            GRID_TEST_DIAGONAL
        } else {
            return Err(CoreError::InvalidGridName);
        };

        let values = parse_cell_values(grid_file);
        let mut scaled: Vec<u8> = Vec::new();
        let mut i: usize = 0;
        while i < values.len()
            invariant
                i <= values@.len(),
                scaled@.len() == i,
                forall|j: int| 0 <= j < i ==> scaled@[j] == scale10(#[trigger] values@[j]),
            decreases values@.len() - i,
        {
            let v = values[i];
            let w: u16 = v as u16 * 10;
            scaled.push(if w > 255 {
                255u8
            } else {
                w as u8
            });
            i = i + 1;
        }
        proof {
            assert(scaled@ =~= values@.map_values(|v: u8| scale10(v)));
        }

        let count = scaled.len();
        let s = isqrt(count);
        if s * s != count {
            proof {
                assert forall|t: int| 0 <= t implies #[trigger] (t * t) != count by {
                    if t <= s {
                        assert(t * t <= s * s) by (nonlinear_arith)
                            requires
                                0 <= t <= s,
                        {
                        }
                    } else {
                        assert(t * t >= (s + 1) * (s + 1)) by (nonlinear_arith)
                            requires
                                s + 1 <= t,
                                0 <= s,
                        {
                        }
                    }
                }
            }
            return Err(CoreError::MalformedGrid);
        }

        let grid = Grid::new(scaled);

        Ok(grid)
    }
}

/// Two cells adjoin in the 8-connected sense: they differ, and each
/// coordinate differs by at most one.
pub open spec fn eight_adjacent(a: (usize, usize), b: (usize, usize)) -> bool {
    &&& a != b
    &&& -1 <= b.0 - a.0 <= 1
    &&& -1 <= b.1 - a.1 <= 1
}

/// Consecutive steps of the sequence are 8-adjacent.
pub open spec fn contiguous_steps(steps: Seq<(usize, usize)>) -> bool {
    forall|i: int| 0 <= i < steps.len() - 1 ==> eight_adjacent(#[trigger] steps[i], steps[i + 1])
}

/// The sum of the grid values over the cells of a route.
pub open spec fn path_value(g: Grid, steps: Seq<(usize, usize)>) -> int
    decreases steps.len(),
{
    if steps.len() == 0 {
        0
    } else {
        path_value(g, steps.drop_last()) + g.spec_value_at(
            steps.last().0 as int,
            steps.last().1 as int,
        )
    }
}

/// Whether `n` is the square of an integer.
pub open spec fn is_perfect_square(n: int) -> bool {
    exists|s: int| 0 <= s && #[trigger] (s * s) == n
}

/// A cell value scaled by ten, saturating at the cell maximum.
pub open spec fn scale10(v: u8) -> u8 {
    if v * 10 > 255 {
        255
    } else {
        (v * 10) as u8
    }
}

/// The predefined cell text a grid name refers to, if the name is known.
pub open spec fn spec_grid_text(name: Seq<char>) -> Option<Seq<char>> {
    if name == "GRID_S"@ {
        Some(GRID_S@)
    } else if name == "GRID_M"@ {
        Some(GRID_M@)
    } else if name == "GRID_L"@ {
        Some(GRID_L@)
    } else if name == "GRID_TEST_SINGLE"@ {
        Some(GRID_TEST_SINGLE@)
    } else if name == "GRID_TEST_LINE"@ {
        Some(GRID_TEST_LINE@)
    } else if name == "GRID_TEST_HORIZONTAL"@ {
        Some(GRID_TEST_HORIZONTAL@)
    } else if name == "GRID_TEST_VERTICAL"@ {
        Some(GRID_TEST_VERTICAL@)
    } else if name == "GRID_TEST_DIAGONAL"@ {
        Some(GRID_TEST_DIAGONAL@)
    } else {
        None
    }
}

impl Clone for Grid {
    fn clone(&self) -> (r: Self)
        ensures
            r.data@ == self.data@,
            r.size == self.size,
    {
        let data = self.data.clone();
        proof {
            assert(data@ =~= self.data@);
        }
        Grid { data, size: self.size }
    }
}

} // verus!
