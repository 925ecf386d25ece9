use vstd::prelude::*;

use crate::common::traits::Planner;
use crate::common::types::{Grid, Path};
use crate::planners::trig::{ray_offset, spec_ray_offset};

verus! {

/// The rasterized straight segment from `(sx, sy)` toward `(ex, ey)`, as
/// the line-drawing crate computes it: what `line_points` returns.
pub uninterp spec fn bresenham_line(sx: int, sy: int, ex: int, ey: int) -> Seq<(int, int)>;

/// The unit step from `a` toward `b` along one axis.
pub open spec fn step_sign(a: int, b: int) -> int {
    if b > a {
        1
    } else if b < a {
        -1
    } else {
        0
    }
}

/// Chebyshev distance between two integer points.
pub open spec fn cheb_dist(sx: int, sy: int, ex: int, ey: int) -> int {
    let dx = if ex >= sx {
        ex - sx
    } else {
        sx - ex
    };
    let dy = if ey >= sy {
        ey - sy
    } else {
        sy - ey
    };
    if dx >= dy {
        dx
    } else {
        dy
    }
}

/// Relies on bresenham::Bresenham: rasterizes the straight segment from
/// `start` toward `end`, yielding exactly one point per unit of Chebyshev
/// distance, `start` first and `end` excluded; each successive point moves
/// by at most one cell per axis, never against the segment's direction,
/// and never stays in place.
#[verifier::external_body]
fn line_points(start: (isize, isize), end: (isize, isize)) -> (r: Vec<(isize, isize)>)
    requires
        -0x2000_0000 <= start.0 <= 0x2000_0000,
        -0x2000_0000 <= start.1 <= 0x2000_0000,
        -0x2000_0000 <= end.0 <= 0x2000_0000,
        -0x2000_0000 <= end.1 <= 0x2000_0000,
    ensures
        r@.map_values(|p: (isize, isize)| (p.0 as int, p.1 as int)) == bresenham_line(
            start.0 as int,
            start.1 as int,
            end.0 as int,
            end.1 as int,
        ),
        r@.len() == cheb_dist(start.0 as int, start.1 as int, end.0 as int, end.1 as int),
        r@.len() > 0 ==> r@[0] == start,
        forall|t: int|
            0 <= t < r@.len() - 1 ==> {
                let d0 = (#[trigger] r@[t + 1]).0 - r@[t].0;
                let d1 = r@[t + 1].1 - r@[t].1;
                &&& (d0 == 0 || d0 == step_sign(start.0 as int, end.0 as int))
                &&& (d1 == 0 || d1 == step_sign(start.1 as int, end.1 as int))
                &&& !(d0 == 0 && d1 == 0)
            },
{
    bresenham::Bresenham::new(start, end).collect()
}

/// A cell of the integer plane lies inside a square grid of side `size`.
pub open spec fn cell_in_bounds(p: (int, int), size: int) -> bool {
    0 <= p.0 < size && 0 <= p.1 < size
}

/// The in-bounds points of a rasterized line, in order.
pub open spec fn kept_points(line: Seq<(int, int)>, size: int) -> Seq<(int, int)>
    decreases line.len(),
{
    if line.len() == 0 {
        Seq::empty()
    } else {
        let rest = kept_points(line.drop_last(), size);
        if cell_in_bounds(line.last(), size) {
            rest.push(line.last())
        } else {
            rest
        }
    }
}

/// The sum of the grid values over a sequence of in-bounds cells.
pub open spec fn points_sum(g: Grid, pts: Seq<(int, int)>) -> int
    decreases pts.len(),
{
    if pts.len() == 0 {
        0
    } else {
        points_sum(g, pts.drop_last()) + g.spec_value_at(pts.last().0, pts.last().1)
    }
}

/// The rasterized line of ray `i`: from the start cell toward the cell at
/// distance `len` along the ray's direction.
pub open spec fn ray_line(start: (usize, usize), i: int, rays: int, len: int) -> Seq<(int, int)> {
    let d = spec_ray_offset(i, rays, len);
    bresenham_line(start.0 as int, start.1 as int, start.0 + d.0, start.1 + d.1)
}

/// The in-bounds points of ray `i` on the given grid.
pub open spec fn ray_kept(g: Grid, start: (usize, usize), i: int, rays: int, len: int) -> Seq<
    (int, int),
> {
    kept_points(ray_line(start, i, rays, len), g.size as int)
}

/// A ray is a candidate when more than one of its points lies on the grid.
pub open spec fn ray_valid(g: Grid, start: (usize, usize), i: int, rays: int, len: int) -> bool {
    ray_kept(g, start, i, rays, len).len() > 1
}

/// Ray `i` scores strictly higher than ray `j`: scores are the average
/// value along each ray's in-bounds points with the denominator biased by
/// two, compared exactly by cross-multiplication.
pub open spec fn beats(g: Grid, start: (usize, usize), rays: int, len: int, i: int, j: int) -> bool {
    let si = points_sum(g, ray_kept(g, start, i, rays, len));
    let ci = ray_kept(g, start, i, rays, len).len() as int;
    let sj = points_sum(g, ray_kept(g, start, j, rays, len));
    let cj = ray_kept(g, start, j, rays, len).len() as int;
    si * (cj + 2) > sj * (ci + 2)
}

/// A kept sequence is never longer than its line.
proof fn lemma_kept_le_len(line: Seq<(int, int)>, size: int)
    ensures
        kept_points(line, size).len() <= line.len(),
    decreases line.len(),
{
    if line.len() > 0 {
        lemma_kept_le_len(line.drop_last(), size);
    }
}

/// Every kept point lies inside the grid.
proof fn lemma_kept_bounds(line: Seq<(int, int)>, size: int)
    ensures
        forall|t: int|
            0 <= t < kept_points(line, size).len() ==> cell_in_bounds(
                #[trigger] kept_points(line, size)[t],
                size,
            ),
    decreases line.len(),
{
    if line.len() > 0 {
        lemma_kept_bounds(line.drop_last(), size);
        let rest = kept_points(line.drop_last(), size);
        if cell_in_bounds(line.last(), size) {
            assert forall|t: int| 0 <= t < kept_points(line, size).len() implies cell_in_bounds(
                #[trigger] kept_points(line, size)[t],
                size,
            ) by {
                if t < rest.len() {
                    assert(kept_points(line, size)[t] == rest[t]);
                } else {
                    assert(kept_points(line, size)[t] == line.last());
                }
            }
        } else {
            assert(kept_points(line, size) == rest);
        }
    }
}

/// A line starting on the grid keeps its first point first.
proof fn lemma_kept_first(line: Seq<(int, int)>, size: int)
    requires
        line.len() >= 1,
        cell_in_bounds(line[0], size),
    ensures
        kept_points(line, size).len() >= 1,
        kept_points(line, size)[0] == line[0],
    decreases line.len(),
{
    if line.len() == 1 {
        assert(line.last() == line[0]);
        assert(line.drop_last().len() == 0);
        assert(kept_points(line.drop_last(), size) == Seq::<(int, int)>::empty());
    } else {
        assert(line.drop_last()[0] == line[0]);
        lemma_kept_first(line.drop_last(), size);
    }
}

/// Strict score dominance passes through a displaced maximum: if `i`
/// strictly beats the old best and `j` did not beat the old best, then
/// `i` strictly beats `j`.
proof fn lemma_beats_trans(si: int, ci: int, sj: int, cj: int, sb: int, cb: int)
    by (nonlinear_arith)
    requires
        si >= 0,
        sj >= 0,
        sb >= 0,
        ci >= 0,
        cj >= 0,
        cb >= 0,
        si * (cb + 2) > sb * (ci + 2),
        !(sj * (cb + 2) > sb * (cj + 2)),
    ensures
        si * (cj + 2) > sj * (ci + 2),
{
}

/// A planner that casts equally spaced straight rays from the start cell
/// and follows the highest-scoring one.
pub struct RayCasting {
    /// The length of each ray.
    pub len: usize,
    /// The number of rays to cast.
    pub rays: usize,
}

impl Planner for RayCasting {
    open spec fn req(&self, size: usize) -> bool {
        &&& self.len <= 0x1000_0000
        &&& self.rays <= 0x1_0000_0000
        &&& size <= 0x1000_0000
        &&& 255 * (self.len + 1) <= usize::MAX
    }

    /// Divides the full turn into `rays` equal directions, rasterizes the
    /// straight segment of length `len` along each, discards points off
    /// the grid, and scores each candidate as the sum of its in-bounds
    /// values divided by their count plus two — the bias that keeps very
    /// short clipped rays from winning. The first highest-scoring ray with
    /// more than one in-bounds point becomes the path; its cost is the
    /// exact sum of the values along it. `None` comes back exactly when no
    /// ray keeps more than one point on the grid.
    fn solve(&self, grid: &Grid, start: (usize, usize)) -> (r: Option<Path>)
        ensures
            match r {
                Some(p) => exists|i: int|
                    0 <= i < self.rays && #[trigger] ray_valid(
                        *grid,
                        start,
                        i,
                        self.rays as int,
                        self.len as int,
                    ) && {
                        let kept = ray_kept(*grid, start, i, self.rays as int, self.len as int);
                        &&& p.steps@.map_values(|q: (usize, usize)| (q.0 as int, q.1 as int))
                            == kept
                        &&& p.steps@.len() <= self.len
                        &&& p.total_cost == points_sum(*grid, kept)
                        &&& (forall|j: int|
                            0 <= j < self.rays && #[trigger] ray_valid(
                                *grid,
                                start,
                                j,
                                self.rays as int,
                                self.len as int,
                            ) ==> !beats(*grid, start, self.rays as int, self.len as int, j, i))
                        &&& (forall|j: int|
                            0 <= j < i && #[trigger] ray_valid(
                                *grid,
                                start,
                                j,
                                self.rays as int,
                                self.len as int,
                            ) ==> beats(*grid, start, self.rays as int, self.len as int, i, j))
                    },
                None => forall|i: int|
                    0 <= i < self.rays ==> !#[trigger] ray_valid(
                        *grid,
                        start,
                        i,
                        self.rays as int,
                        self.len as int,
                    ),
            },
    {
        let size = grid.size;
        let rays = self.rays;
        let len = self.len;
        let mut best: Option<Path> = None;
        let mut best_sum: u64 = 0;
        let mut best_cnt: usize = 0;
        let ghost mut best_i: int = 0;
        let mut i: usize = 0;
        while i < rays
            invariant
                size == grid.size,
                rays == self.rays,
                len == self.len,
                grid.wf(),
                size <= 0x1000_0000,
                start.0 < size,
                start.1 < size,
                len <= 0x1000_0000,
                rays <= 0x1_0000_0000,
                255 * (len + 1) <= usize::MAX,
                i <= rays,
                best_cnt <= len,
                best_sum <= 255 * (len as int),
                match best {
                    None => forall|j: int|
                        0 <= j < i ==> !#[trigger] ray_valid(
                            *grid,
                            start,
                            j,
                            rays as int,
                            len as int,
                        ),
                    Some(p) => {
                        let kept = ray_kept(*grid, start, best_i, rays as int, len as int);
                        &&& 0 <= best_i < i
                        &&& ray_valid(*grid, start, best_i, rays as int, len as int)
                        &&& p.steps@.map_values(|q: (usize, usize)| (q.0 as int, q.1 as int))
                            == kept
                        &&& p.steps@.len() == best_cnt
                        &&& p.steps@[0] == start
                        &&& p.in_bounds(size as int)
                        &&& best_cnt == kept.len()
                        &&& 2 <= best_cnt <= len
                        &&& best_sum == points_sum(*grid, kept)
                        &&& best_sum <= 255 * (best_cnt as int)
                        &&& p.total_cost == best_sum
                        &&& (forall|j: int|
                            0 <= j < i && #[trigger] ray_valid(
                                *grid,
                                start,
                                j,
                                rays as int,
                                len as int,
                            ) ==> !beats(*grid, start, rays as int, len as int, j, best_i))
                        &&& (forall|j: int|
                            0 <= j < best_i && #[trigger] ray_valid(
                                *grid,
                                start,
                                j,
                                rays as int,
                                len as int,
                            ) ==> beats(*grid, start, rays as int, len as int, best_i, j))
                    },
                },
            decreases rays - i,
        {
            let (dx, dy) = ray_offset(i, rays, len);
            let ex: i64 = start.0 as i64 + dx;
            let ey: i64 = start.1 as i64 + dy;
            let pts = line_points(
                (start.0 as isize, start.1 as isize),
                (ex as isize, ey as isize),
            );
            let ghost line = ray_line(start, i as int, rays as int, len as int);
            proof {
                assert(pts@.map_values(|p: (isize, isize)| (p.0 as int, p.1 as int)) == line);
                assert(pts@.len() <= len);
            }

            let mut kept: Vec<(usize, usize)> = Vec::new();
            let mut sum: u64 = 0;
            let mut t: usize = 0;
            let pcount = pts.len();
            while t < pcount
                invariant
                    size == grid.size,
                    grid.wf(),
                    size <= 0x1000_0000,
                    len <= 0x1000_0000,
                    t <= pcount,
                    pcount == pts@.len(),
                    pts@.len() <= len,
                    pts@.map_values(|p: (isize, isize)| (p.0 as int, p.1 as int)) == line,
                    kept@.map_values(|q: (usize, usize)| (q.0 as int, q.1 as int))
                        == kept_points(line.take(t as int), size as int),
                    forall|u: int|
                        0 <= u < kept@.len() ==> (#[trigger] kept@[u]).0 < size && kept@[u].1
                            < size,
                    sum == points_sum(*grid, kept_points(line.take(t as int), size as int)),
                    sum <= 255 * kept@.len(),
                    kept@.len() <= t,
                decreases pcount - t,
            {
                let p = pts[t];
                proof {
                    assert(line.take(t + 1).drop_last() =~= line.take(t as int));
                    assert(line.take(t + 1).last() == line[t as int]);
                    assert(line[t as int] == (pts@[t as int].0 as int, pts@[t as int].1 as int));
                }
                if p.0 >= 0 && p.1 >= 0 && p.0 < size as isize && p.1 < size as isize {
                    let cell = (p.0 as usize, p.1 as usize);
                    let v = grid.value_at(cell.0, cell.1);
                    sum = sum + v as u64;
                    kept.push(cell);
                    proof {
                        let prev = kept_points(line.take(t as int), size as int);
                        assert(kept_points(line.take(t + 1), size as int) == prev.push(
                            line[t as int],
                        ));
                        assert(prev.push(line[t as int]).drop_last() =~= prev);
                        assert(prev.push(line[t as int]).last() == line[t as int]);
                        assert(kept@.map_values(|q: (usize, usize)| (q.0 as int, q.1 as int)) =~= kept_points(
                            line.take(t + 1),
                            size as int,
                        ));
                    }
                } else {
                    proof {
                        assert(!cell_in_bounds(line[t as int], size as int));
                        assert(kept_points(line.take(t + 1), size as int) == kept_points(
                            line.take(t as int),
                            size as int,
                        ));
                    }
                }
                t = t + 1;
            }
            proof {
                assert(line.take(pts@.len() as int) =~= line);
            }

            if kept.len() > 1 {
                let cnt = kept.len();
                proof {
                    assert((sum as int) * ((best_cnt + 2) as int) <= 0x10_0000_0000 * 0x2000_0000)
                        by (nonlinear_arith)
                        requires
                            0 <= sum as int <= 0x10_0000_0000,
                            0 <= best_cnt as int <= 0x1000_0000,
                    {
                    }
                    assert((best_sum as int) * ((cnt + 2) as int) <= 0x10_0000_0000 * 0x2000_0000)
                        by (nonlinear_arith)
                        requires
                            0 <= best_sum as int <= 0x10_0000_0000,
                            0 <= cnt as int <= 0x1000_0000,
                    {
                    }
                }
                let is_better = match &best {
                    None => true,
                    Some(_) => (sum as u128) * ((best_cnt as u128) + 2) > (best_sum as u128) * ((
                    cnt as u128) + 2),
                };
                if is_better {
                    proof {
                        lemma_kept_first(line, size as int);
                        lemma_kept_bounds(line, size as int);
                        lemma_kept_le_len(line, size as int);
                        if best is Some {
                            let ghost ob = best_i;
                            assert forall|j: int|
                                0 <= j < i && #[trigger] ray_valid(
                                    *grid,
                                    start,
                                    j,
                                    rays as int,
                                    len as int,
                                ) implies beats(*grid, start, rays as int, len as int, i as int, j) by {
                                lemma_points_sum_nonneg(
                                    *grid,
                                    ray_kept(*grid, start, j, rays as int, len as int),
                                );
                                lemma_points_sum_nonneg(
                                    *grid,
                                    ray_kept(*grid, start, ob, rays as int, len as int),
                                );
                                lemma_points_sum_nonneg(
                                    *grid,
                                    ray_kept(*grid, start, i as int, rays as int, len as int),
                                );
                                lemma_beats_trans(
                                    points_sum(
                                        *grid,
                                        ray_kept(*grid, start, i as int, rays as int, len as int),
                                    ),
                                    ray_kept(
                                        *grid,
                                        start,
                                        i as int,
                                        rays as int,
                                        len as int,
                                    ).len() as int,
                                    points_sum(
                                        *grid,
                                        ray_kept(*grid, start, j, rays as int, len as int),
                                    ),
                                    ray_kept(*grid, start, j, rays as int, len as int).len() as int,
                                    points_sum(
                                        *grid,
                                        ray_kept(*grid, start, ob, rays as int, len as int),
                                    ),
                                    ray_kept(*grid, start, ob, rays as int, len as int).len() as int,
                                );
                            }
                        }
                        best_i = i as int;
                    }
                    best_sum = sum;
                    best_cnt = cnt;
                    best = Some(Path { steps: kept, total_cost: sum as usize });
                }
            }
            i = i + 1;
        }
        best
    }
}

/// A sum of cell values is nonnegative.
proof fn lemma_points_sum_nonneg(g: Grid, pts: Seq<(int, int)>)
    ensures
        points_sum(g, pts) >= 0,
    decreases pts.len(),
{
    if pts.len() > 0 {
        lemma_points_sum_nonneg(g, pts.drop_last());
    }
}

} // verus!
