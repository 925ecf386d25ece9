use vstd::prelude::*;

use crate::common::traits::Planner;
use crate::common::types::{
    contiguous_steps, eight_adjacent, lemma_grid_index, lemma_grid_index_injective, path_value,
    Grid, Node, Path,
};

verus! {

/// A planner that explores the whole grid breadth-first from the start
/// cell, accumulating cell values along discovery routes, and returns the
/// route to the cell with the greatest accumulated value.
pub struct BFS {}

/// The fixed 8-connected neighbor order the search expands in.
pub open spec fn spec_direction(k: int) -> (int, int) {
    if k == 0 {
        (1, 0)
    } else if k == 1 {
        (1, 1)
    } else if k == 2 {
        (0, 1)
    } else if k == 3 {
        (-1, 1)
    } else if k == 4 {
        (-1, 0)
    } else if k == 5 {
        (-1, -1)
    } else if k == 6 {
        (0, -1)
    } else {
        (1, -1)
    }
}

/// The fixed 8-connected neighbor order the search expands in.
fn direction(k: usize) -> (d: (i64, i64))
    requires
        k < 8,
    ensures
        (d.0 as int, d.1 as int) == spec_direction(k as int),
        -1 <= d.0 <= 1,
        -1 <= d.1 <= 1,
{
    if k == 0 {
        (1, 0)
    } else if k == 1 {
        (1, 1)
    } else if k == 2 {
        (0, 1)
    } else if k == 3 {
        (-1, 1)
    } else if k == 4 {
        (-1, 0)
    } else if k == 5 {
        (-1, -1)
    } else if k == 6 {
        (0, -1)
    } else {
        (1, -1)
    }
}

/// Every 8-adjacent cell is one neighbor-order step away.
proof fn lemma_directions_cover(a: (usize, usize), b: (usize, usize))
    requires
        eight_adjacent(a, b),
    ensures
        exists|k: int|
            0 <= k < 8 && b.0 == a.0 + #[trigger] spec_direction(k).0 && b.1 == a.1
                + spec_direction(k).1,
{
    let dr = b.0 - a.0;
    let dc = b.1 - a.1;
    if dr == 1 && dc == 0 {
        assert(b.0 == a.0 + spec_direction(0).0 && b.1 == a.1 + spec_direction(0).1);
    } else if dr == 1 && dc == 1 {
        assert(b.0 == a.0 + spec_direction(1).0 && b.1 == a.1 + spec_direction(1).1);
    } else if dr == 0 && dc == 1 {
        assert(b.0 == a.0 + spec_direction(2).0 && b.1 == a.1 + spec_direction(2).1);
    } else if dr == -1 && dc == 1 {
        assert(b.0 == a.0 + spec_direction(3).0 && b.1 == a.1 + spec_direction(3).1);
    } else if dr == -1 && dc == 0 {
        assert(b.0 == a.0 + spec_direction(4).0 && b.1 == a.1 + spec_direction(4).1);
    } else if dr == -1 && dc == -1 {
        assert(b.0 == a.0 + spec_direction(5).0 && b.1 == a.1 + spec_direction(5).1);
    } else if dr == 0 && dc == -1 {
        assert(b.0 == a.0 + spec_direction(6).0 && b.1 == a.1 + spec_direction(6).1);
    } else {
        assert(dr == 1 && dc == -1);
        assert(b.0 == a.0 + spec_direction(7).0 && b.1 == a.1 + spec_direction(7).1);
    }
}

/// How many search records a table holds.
pub open spec fn count_some(s: Seq<Option<Node>>) -> int
    decreases s.len(),
{
    if s.len() == 0 {
        0
    } else {
        count_some(s.drop_last()) + if s.last() is Some {
            1int
        } else {
            0int
        }
    }
}

proof fn lemma_count_all_none(s: Seq<Option<Node>>)
    requires
        forall|j: int| 0 <= j < s.len() ==> s[j] is None,
    ensures
        count_some(s) == 0,
    decreases s.len(),
{
    if s.len() > 0 {
        assert(forall|j: int| 0 <= j < s.drop_last().len() ==> s.drop_last()[j] == s[j]);
        lemma_count_all_none(s.drop_last());
    }
}

proof fn lemma_count_some_le(s: Seq<Option<Node>>)
    ensures
        count_some(s) <= s.len(),
    decreases s.len(),
{
    if s.len() > 0 {
        lemma_count_some_le(s.drop_last());
    }
}

proof fn lemma_count_some_none_lt(s: Seq<Option<Node>>, i: int)
    requires
        0 <= i < s.len(),
        s[i] is None,
    ensures
        count_some(s) < s.len(),
    decreases s.len(),
{
    if i == s.len() - 1 {
        lemma_count_some_le(s.drop_last());
    } else {
        assert(s.drop_last()[i] == s[i]);
        lemma_count_some_none_lt(s.drop_last(), i);
    }
}

proof fn lemma_count_some_update(s: Seq<Option<Node>>, i: int, nd: Node)
    requires
        0 <= i < s.len(),
        s[i] is None,
    ensures
        count_some(s.update(i, Some(nd))) == count_some(s) + 1,
    decreases s.len(),
{
    let s2 = s.update(i, Some(nd));
    if i == s.len() - 1 {
        assert(s2.drop_last() =~= s.drop_last());
        assert(s2.last() == Some(nd));
    } else {
        assert(s2.drop_last() =~= s.drop_last().update(i, Some(nd)));
        assert(s2.last() == s.last());
        assert(s.drop_last()[i] == s[i]);
        lemma_count_some_update(s.drop_last(), i, nd);
    }
}

/// A route's value is at least the value of its first cell.
proof fn lemma_path_value_first(g: Grid, p: Seq<(usize, usize)>)
    requires
        p.len() >= 1,
    ensures
        path_value(g, p) >= g.spec_value_at(p[0].0 as int, p[0].1 as int),
    decreases p.len(),
{
    if p.len() == 1 {
        assert(p.last() == p[0]);
        assert(p.drop_last().len() == 0);
        assert(path_value(g, p.drop_last()) == 0);
    } else {
        assert(p.drop_last()[0] == p[0]);
        lemma_path_value_first(g, p.drop_last());
    }
}

/// A route of two or more cells is worth at least its first and last cells.
proof fn lemma_path_value_ends(g: Grid, p: Seq<(usize, usize)>)
    requires
        p.len() >= 2,
    ensures
        path_value(g, p) >= g.spec_value_at(p[0].0 as int, p[0].1 as int) + g.spec_value_at(
            p.last().0 as int,
            p.last().1 as int,
        ),
{
    assert(p.drop_last()[0] == p[0]);
    lemma_path_value_first(g, p.drop_last());
}

/// On a grid whose only possibly-positive cell is the start cell, a route
/// from the start that never returns to it is worth the start cell alone.
proof fn lemma_path_value_all_zero(g: Grid, p: Seq<(usize, usize)>, start: (usize, usize))
    requires
        p.len() >= 1,
        p[0] == start,
        forall|k: int| 1 <= k < p.len() ==> #[trigger] p[k] != start,
        forall|k: int| 0 <= k < p.len() ==> (#[trigger] p[k]).0 < g.size && p[k].1 < g.size,
        forall|r: int, c: int|
            0 <= r < g.size && 0 <= c < g.size && !(r == start.0 && c == start.1)
                ==> #[trigger] g.spec_value_at(r, c) == 0,
    ensures
        path_value(g, p) == g.spec_value_at(start.0 as int, start.1 as int),
    decreases p.len(),
{
    if p.len() == 1 {
        assert(p.last() == p[0]);
        assert(p.drop_last().len() == 0);
        assert(path_value(g, p.drop_last()) == 0);
    } else {
        assert(p.last() == p[p.len() - 1]);
        assert(p.last() != start);
        assert(g.spec_value_at(p.last().0 as int, p.last().1 as int) == 0);
        assert(p.drop_last()[0] == p[0]);
        assert(forall|k: int| 1 <= k < p.drop_last().len() ==> #[trigger] p.drop_last()[k]
            != start);
        assert(forall|k: int|
            0 <= k < p.drop_last().len() ==> (#[trigger] p.drop_last()[k]).0 < g.size
                && p.drop_last()[k].1 < g.size);
        lemma_path_value_all_zero(g, p.drop_last(), start);
    }
}

/// Chebyshev distance between two cells.
pub open spec fn cheb(a: (usize, usize), b: (usize, usize)) -> int {
    let dr = if a.0 >= b.0 {
        a.0 - b.0
    } else {
        b.0 - a.0
    };
    let dc = if a.1 >= b.1 {
        a.1 - b.1
    } else {
        b.1 - a.1
    };
    if dr >= dc {
        dr
    } else {
        dc
    }
}

/// The search table is closed under 8-adjacency: every in-bounds neighbor
/// of a recorded cell is recorded.
pub open spec fn table_closed(g: Grid, nodes: Seq<Option<Node>>) -> bool {
    forall|r: int, c: int, r2: int, c2: int|
        #![trigger nodes[r * g.size + c], nodes[r2 * g.size + c2]]
        0 <= r < g.size && 0 <= c < g.size && 0 <= r2 < g.size && 0 <= c2 < g.size && nodes[r
            * g.size + c] is Some && eight_adjacent(
            ((r as usize), (c as usize)),
            ((r2 as usize), (c2 as usize)),
        ) ==> nodes[r2 * g.size + c2] is Some
}

/// In a neighbor-closed table that records the start cell, every cell is
/// recorded: walking one step toward the start from any unrecorded cell
/// would contradict closure.
proof fn lemma_cell_discovered(
    g: Grid,
    start: (usize, usize),
    nodes: Seq<Option<Node>>,
    r: int,
    c: int,
)
    requires
        g.wf(),
        start.0 < g.size,
        start.1 < g.size,
        nodes.len() == g.size * g.size,
        nodes[start.0 * g.size + start.1] is Some,
        table_closed(g, nodes),
        0 <= r < g.size,
        0 <= c < g.size,
    ensures
        nodes[r * g.size + c] is Some,
    decreases cheb(start, ((r as usize), (c as usize))),
{
    if r == start.0 && c == start.1 {
    } else {
        let r2: int = if r < start.0 {
            r + 1
        } else if r > start.0 {
            r - 1
        } else {
            r
        };
        let c2: int = if c < start.1 {
            c + 1
        } else if c > start.1 {
            c - 1
        } else {
            c
        };
        assert(cheb(start, ((r2 as usize), (c2 as usize))) < cheb(
            start,
            ((r as usize), (c as usize)),
        ));
        lemma_cell_discovered(g, start, nodes, r2, c2);
        assert(eight_adjacent(((r2 as usize), (c2 as usize)), ((r as usize), (c as usize))));
    }
}

/// When the queue is exhausted, every recorded cell was expanded, so the
/// table is closed under adjacency and therefore complete: every in-bounds
/// cell holds a record, under its own coordinates, whose accumulated value
/// the running maximum dominates.
proof fn lemma_end_state(
    g: Grid,
    start: (usize, usize),
    nodes: Seq<Option<Node>>,
    paths: Map<int, Seq<(usize, usize)>>,
    queue: Seq<(usize, usize)>,
    count: int,
    qh: int,
    max_value: int,
    max_end: (usize, usize),
)
    requires
        bfs_inv(g, start, nodes, paths, queue, count),
        bfs_processed(g, nodes, queue, qh),
        bfs_max(g, start, nodes, queue, qh, max_value, max_end),
        qh == queue.len(),
    ensures
        forall|r: int, c: int|
            #![trigger nodes[r * g.size + c]]
            0 <= r < g.size && 0 <= c < g.size ==> (nodes[r * g.size + c] matches Some(nd)
                && nd.value <= max_value && nd.row == r && nd.col == c),
{
    let size = g.size as int;
    assert forall|r: int, c: int, r2: int, c2: int|
        #![trigger nodes[r * g.size + c], nodes[r2 * g.size + c2]]
        0 <= r < size && 0 <= c < size && 0 <= r2 < size && 0 <= c2 < size && nodes[r * g.size
            + c] is Some && eight_adjacent(
            ((r as usize), (c as usize)),
            ((r2 as usize), (c2 as usize)),
        ) implies nodes[r2 * g.size + c2] is Some by {
        lemma_grid_index(size, r, c);
        lemma_grid_index(size, r2, c2);
        assert(nodes[r * g.size + c] is Some);
        assert(exists|t: int|
            0 <= t < queue.len() && (#[trigger] queue[t]).0 * g.size + queue[t].1 == r * g.size
                + c);
        let t = choose|t: int|
            0 <= t < queue.len() && (#[trigger] queue[t]).0 * g.size + queue[t].1 == r * g.size
                + c;
        lemma_grid_index_injective(size, queue[t].0 as int, queue[t].1 as int, r, c);
        assert(queue[t] == ((r as usize), (c as usize)));
    }
    assert(table_closed(g, nodes));
    assert forall|r: int, c: int|
        #![trigger nodes[r * g.size + c]]
        0 <= r < size && 0 <= c < size implies (nodes[r * g.size + c] matches Some(nd) && nd.value
        <= max_value && nd.row == r && nd.col == c) by {
        lemma_grid_index(size, r, c);
        lemma_cell_discovered(g, start, nodes, r, c);
        assert(exists|t: int|
            0 <= t < queue.len() && (#[trigger] queue[t]).0 * g.size + queue[t].1 == r * g.size
                + c);
        let t = choose|t: int|
            0 <= t < queue.len() && (#[trigger] queue[t]).0 * g.size + queue[t].1 == r * g.size
                + c;
        lemma_grid_index_injective(size, queue[t].0 as int, queue[t].1 as int, r, c);
        assert(node_ok(g, start, nodes, paths, count, r * g.size + c));
        let nd = nodes[r * g.size + c]->Some_0;
        lemma_grid_index(size, nd.row as int, nd.col as int);
        lemma_grid_index_injective(size, nd.row as int, nd.col as int, r, c);
    }
}

/// One in-progress state of the breadth-first search: the per-cell record
/// table, the FIFO queue with its read head, the discovery route of each
/// recorded cell, and the running maximum.
#[verifier::ext_equal]
pub ghost struct Search {
    pub nodes: Seq<Option<Node>>,
    pub queue: Seq<(usize, usize)>,
    pub qh: int,
    pub routes: Map<int, Seq<(usize, usize)>>,
    pub max_value: int,
    pub max_end: (usize, usize),
}

/// The search state before any expansion: only the start cell is
/// recorded, queued, and routed.
#[verifier::opaque]
pub open spec fn search_init(g: Grid, start: (usize, usize)) -> Search {
    let start_idx = start.0 * g.size + start.1;
    Search {
        nodes: Seq::new((g.size * g.size) as nat, |i: int| None::<Node>).update(
            start_idx,
            Some(
                Node {
                    row: start.0,
                    col: start.1,
                    value: g.spec_value_at(start.0 as int, start.1 as int) as usize,
                    parent: None,
                },
            ),
        ),
        queue: seq![start],
        qh: 0,
        routes: Map::empty().insert(start_idx, seq![start]),
        max_value: 0,
        max_end: start,
    }
}

/// One neighbor probe of the cell under expansion: an in-bounds,
/// unrecorded neighbor is recorded with the accumulated value and route
/// through the current cell and appended to the queue; anything else
/// leaves the state unchanged.
#[verifier::opaque]
pub open spec fn search_dir(
    g: Grid,
    st: Search,
    row: usize,
    col: usize,
    cur: usize,
    k: int,
) -> Search {
    let d = spec_direction(k);
    let nr = row + d.0;
    let nc = col + d.1;
    if 0 <= nr < g.size && 0 <= nc < g.size && st.nodes[nr * g.size + nc] is None {
        let cell = ((nr as usize), (nc as usize));
        Search {
            nodes: st.nodes.update(
                nr * g.size + nc,
                Some(
                    Node {
                        row: cell.0,
                        col: cell.1,
                        value: (cur + g.spec_value_at(nr, nc)) as usize,
                        parent: Some((row, col)),
                    },
                ),
            ),
            queue: st.queue.push(cell),
            qh: st.qh,
            routes: st.routes.insert(
                nr * g.size + nc,
                st.routes[row * g.size + col].push(cell),
            ),
            max_value: st.max_value,
            max_end: st.max_end,
        }
    } else {
        st
    }
}

/// Neighbor probes from direction `k` on, in the fixed order.
#[verifier::opaque]
pub open spec fn search_expand(
    g: Grid,
    st: Search,
    row: usize,
    col: usize,
    cur: usize,
    k: int,
) -> Search
    decreases 8 - k,
{
    if k < 0 || k >= 8 {
        st
    } else {
        search_expand(g, search_dir(g, st, row, col, cur, k), row, col, cur, k + 1)
    }
}

/// One full expansion step: the cell at the queue's read head is taken, a
/// strictly greater accumulated value displaces the running maximum, all
/// eight neighbors are probed in order, and the read head advances.
#[verifier::opaque]
pub open spec fn search_step(g: Grid, st: Search) -> Search {
    let rc = st.queue[st.qh];
    let idx = rc.0 * g.size + rc.1;
    let cur = if st.nodes[idx] is Some {
        st.nodes[idx]->Some_0.value
    } else {
        0
    };
    let st1 = if cur > st.max_value {
        Search {
            nodes: st.nodes,
            queue: st.queue,
            qh: st.qh,
            routes: st.routes,
            max_value: cur as int,
            max_end: rc,
        }
    } else {
        st
    };
    let st2 = search_expand(g, st1, rc.0, rc.1, cur, 0);
    Search {
        nodes: st2.nodes,
        queue: st2.queue,
        qh: st2.qh + 1,
        routes: st2.routes,
        max_value: st2.max_value,
        max_end: st2.max_end,
    }
}

/// The search state after up to `fuel` expansion steps, stopping early
/// once the queue is exhausted.
#[verifier::opaque]
pub open spec fn search_run(g: Grid, st: Search, fuel: nat) -> Search
    decreases fuel,
{
    if fuel == 0 || st.qh >= st.queue.len() {
        st
    } else {
        search_run(g, search_step(g, st), (fuel - 1) as nat)
    }
}

/// The finished search: every cell is recorded at most once, so one step
/// per cell and one more always exhausts the queue.
pub open spec fn spec_bfs(g: Grid, start: (usize, usize)) -> Search {
    search_run(g, search_init(g, start), (g.size * g.size + 1) as nat)
}

/// The flat index of the finished search's maximum cell.
pub open spec fn spec_bfs_end_idx(g: Grid, start: (usize, usize)) -> int {
    let fin = spec_bfs(g, start);
    fin.max_end.0 * g.size + fin.max_end.1
}

/// The finished search's best route: the discovery route of the cell with
/// the greatest accumulated value.
pub open spec fn spec_bfs_route(g: Grid, start: (usize, usize)) -> Seq<(usize, usize)> {
    spec_bfs(g, start).routes[spec_bfs_end_idx(g, start)]
}

/// A state whose queue is exhausted no longer changes.
proof fn lemma_search_run_stable(g: Grid, st: Search, fuel: nat)
    requires
        st.qh >= st.queue.len(),
    ensures
        search_run(g, st, fuel) == st,
{
    reveal(search_run);
}

/// Once a run reaches an exhausted queue, more fuel changes nothing.
proof fn lemma_search_run_extend(g: Grid, st: Search, f1: nat, f2: nat)
    requires
        f1 <= f2,
        search_run(g, st, f1).qh >= search_run(g, st, f1).queue.len(),
    ensures
        search_run(g, st, f2) == search_run(g, st, f1),
    decreases f1,
{
    reveal(search_run);
    if st.qh >= st.queue.len() {
        lemma_search_run_stable(g, st, f1);
        lemma_search_run_stable(g, st, f2);
    } else {
        assert(f1 > 0) by {
            if f1 == 0 {
                assert(search_run(g, st, f1) == st);
            }
        }
        lemma_search_run_extend(g, search_step(g, st), (f1 - 1) as nat, (f2 - 1) as nat);
    }
}

/// Running one more step from a live state is stepping the run.
proof fn lemma_search_run_snoc(g: Grid, st: Search, k: nat)
    requires
        search_run(g, st, k).qh < search_run(g, st, k).queue.len(),
    ensures
        search_run(g, st, k + 1) == search_step(g, search_run(g, st, k)),
    decreases k,
{
    reveal(search_run);
    if st.qh >= st.queue.len() {
        lemma_search_run_stable(g, st, k);
        lemma_search_run_stable(g, st, k + 1);
        assert(false);
    } else if k == 0 {
        assert(search_run(g, st, 1) == search_run(g, search_step(g, st), 0));
    } else {
        lemma_search_run_snoc(g, search_step(g, st), (k - 1) as nat);
    }
}

/// A probe of an in-bounds, unrecorded neighbor records exactly the node,
/// queue entry and route that the search model writes.
proof fn lemma_search_dir_discover(
    g: Grid,
    st: Search,
    row: usize,
    col: usize,
    cur: usize,
    k: int,
    nr: usize,
    nc: usize,
    nd: Node,
)
    requires
        0 <= k < 8,
        row + spec_direction(k).0 == nr as int,
        col + spec_direction(k).1 == nc as int,
        (nr as int) < g.size,
        (nc as int) < g.size,
        st.nodes[nr * g.size + nc] is None,
        nd == (Node {
            row: nr,
            col: nc,
            value: (cur + g.spec_value_at(nr as int, nc as int)) as usize,
            parent: Some((row, col)),
        }),
    ensures
        search_dir(g, st, row, col, cur, k) == (Search {
            nodes: st.nodes.update(nr * g.size + nc, Some(nd)),
            queue: st.queue.push((nr, nc)),
            qh: st.qh,
            routes: st.routes.insert(
                nr * g.size + nc,
                st.routes[row * g.size + col].push((nr, nc)),
            ),
            max_value: st.max_value,
            max_end: st.max_end,
        }),
{
    reveal(search_dir);
    let d = spec_direction(k);
    assert(search_dir(g, st, row, col, cur, k).nodes =~= st.nodes.update(
        nr * g.size + nc,
        Some(nd),
    ));
    assert(search_dir(g, st, row, col, cur, k).queue =~= st.queue.push((nr, nc)));
    assert(search_dir(g, st, row, col, cur, k).routes =~= st.routes.insert(
        nr * g.size + nc,
        st.routes[row * g.size + col].push((nr, nc)),
    ));
}

/// A probe that leaves the grid or lands on a recorded cell changes
/// nothing.
proof fn lemma_search_dir_skip(g: Grid, st: Search, row: usize, col: usize, cur: usize, k: int)
    requires
        0 <= k < 8,
        !(0 <= row + spec_direction(k).0 < g.size && 0 <= col + spec_direction(k).1 < g.size)
            || st.nodes[(row + spec_direction(k).0) * g.size + (col + spec_direction(k).1)]
            is Some,
    ensures
        search_dir(g, st, row, col, cur, k) == st,
{
    reveal(search_dir);
}

/// Expanding from direction `k` is probing `k` and expanding on.
proof fn lemma_search_expand_step(g: Grid, st: Search, row: usize, col: usize, cur: usize, k: int)
    requires
        0 <= k < 8,
    ensures
        search_expand(g, st, row, col, cur, k) == search_expand(
            g,
            search_dir(g, st, row, col, cur, k),
            row,
            col,
            cur,
            k + 1,
        ),
{
    reveal(search_expand);
}

/// Expansion past the last direction is over.
proof fn lemma_search_expand_done(g: Grid, st: Search, row: usize, col: usize, cur: usize)
    ensures
        search_expand(g, st, row, col, cur, 8) == st,
{
    reveal(search_expand);
}

/// One record of the search table is well formed: it names its own cell,
/// its discovery route runs from the start cell to that cell over adjacent
/// in-bounds cells without revisiting the start, its accumulated value is
/// the route's value, and its parent is the route's previous cell (only
/// the start record has none).
pub open spec fn node_ok(
    g: Grid,
    start: (usize, usize),
    nodes: Seq<Option<Node>>,
    paths: Map<int, Seq<(usize, usize)>>,
    count: int,
    idx: int,
) -> bool {
    nodes[idx] matches Some(nd) ==> {
        &&& paths.contains_key(idx)
        &&& nd.row < g.size
        &&& nd.col < g.size
        &&& nd.row * g.size + nd.col == idx
        &&& paths[idx].len() >= 1
        &&& paths[idx][0] == start
        &&& paths[idx].last() == (nd.row, nd.col)
        &&& contiguous_steps(paths[idx])
        &&& (forall|k: int|
            0 <= k < paths[idx].len() ==> (#[trigger] paths[idx][k]).0 < g.size
                && paths[idx][k].1 < g.size)
        &&& (forall|k: int| 1 <= k < paths[idx].len() ==> #[trigger] paths[idx][k] != start)
        &&& nd.value == path_value(g, paths[idx])
        &&& nd.value <= 255 * count
        &&& paths[idx].len() <= count
        &&& (forall|k1: int, k2: int|
            0 <= k1 < k2 < paths[idx].len() ==> #[trigger] paths[idx][k1]
                != #[trigger] paths[idx][k2])
        &&& (forall|k: int|
            0 <= k < paths[idx].len() ==> nodes[(#[trigger] paths[idx][k]).0 * g.size
                + paths[idx][k].1] is Some)
        &&& match nd.parent {
            None => idx == start.0 * g.size + start.1 && paths[idx] == seq![start],
            Some(pp) => {
                &&& pp.0 < g.size
                &&& pp.1 < g.size
                &&& 0 <= pp.0 * g.size + pp.1 < nodes.len()
                &&& nodes[pp.0 * g.size + pp.1] is Some
                &&& paths[idx].len() >= 2
                &&& paths.contains_key(pp.0 * g.size + pp.1)
                &&& paths[pp.0 * g.size + pp.1] == paths[idx].drop_last()
                &&& pp == paths[idx][paths[idx].len() - 2]
            },
        }
    }
}

/// The standing invariant of the search: the table is square, its record
/// count is tracked exactly, the queue starts with the start cell and holds
/// only recorded in-bounds cells, and every record is well formed.
pub open spec fn bfs_inv(
    g: Grid,
    start: (usize, usize),
    nodes: Seq<Option<Node>>,
    paths: Map<int, Seq<(usize, usize)>>,
    queue: Seq<(usize, usize)>,
    count: int,
) -> bool {
    &&& g.wf()
    &&& start.0 < g.size
    &&& start.1 < g.size
    &&& nodes.len() == g.size * g.size
    &&& count == count_some(nodes)
    &&& queue.len() >= 1
    &&& queue[0] == start
    &&& (nodes[start.0 * g.size + start.1] matches Some(snd) && snd.parent is None)
    &&& (forall|k: int|
        0 <= k < queue.len() ==> (#[trigger] queue[k]).0 < g.size && queue[k].1 < g.size
            && nodes[queue[k].0 * g.size + queue[k].1] is Some)
    &&& (forall|idx: int| 0 <= idx < nodes.len() ==> node_ok(g, start, nodes, paths, count, idx))
    &&& (forall|idx: int|
        0 <= idx < nodes.len() && nodes[idx] is Some ==> exists|k: int|
            0 <= k < queue.len() && (#[trigger] queue[k]).0 * g.size + queue[k].1 == idx)
}

/// Every processed queue entry has all its in-bounds neighbors recorded.
pub open spec fn bfs_processed(
    g: Grid,
    nodes: Seq<Option<Node>>,
    queue: Seq<(usize, usize)>,
    qh: int,
) -> bool {
    forall|k: int, r2: int, c2: int|
        #![trigger queue[k], nodes[r2 * g.size + c2]]
        0 <= k < qh && 0 <= r2 < g.size && 0 <= c2 < g.size && eight_adjacent(
            queue[k],
            ((r2 as usize), (c2 as usize)),
        ) ==> nodes[r2 * g.size + c2] is Some
}

/// The running maximum: before any processing it is zero at the start
/// cell; afterwards it is the accumulated value of its cell's record, no
/// processed record exceeds it, and it leaves the start cell only for a
/// strictly greater value.
pub open spec fn bfs_max(
    g: Grid,
    start: (usize, usize),
    nodes: Seq<Option<Node>>,
    queue: Seq<(usize, usize)>,
    qh: int,
    max_value: int,
    max_end: (usize, usize),
) -> bool {
    &&& max_end.0 < g.size
    &&& max_end.1 < g.size
    &&& (qh == 0 ==> max_value == 0 && max_end == start)
    &&& (qh >= 1 ==> {
        &&& nodes[max_end.0 * g.size + max_end.1] matches Some(nd) && nd.value == max_value
        &&& (max_end == start || (nodes[start.0 * g.size + start.1] matches Some(snd)
            && max_value > snd.value))
    })
    &&& (forall|k: int|
        0 <= k < qh ==> (nodes[(#[trigger] queue[k]).0 * g.size + queue[k].1] matches Some(nd)
            ==> nd.value <= max_value))
}

/// One neighbor direction of the cell under expansion has been handled:
/// if the neighbor lies in bounds, it is recorded.
pub open spec fn dir_done(g: Grid, nodes: Seq<Option<Node>>, row: int, col: int, j: int) -> bool {
    0 <= row + spec_direction(j).0 < g.size && 0 <= col + spec_direction(j).1 < g.size
        ==> nodes[(row + spec_direction(j).0) * g.size + (col + spec_direction(j).1)] is Some
}

impl Planner for BFS {
    open spec fn req(&self, size: usize) -> bool {
        255 * (size * size) <= usize::MAX
    }

    /// Explores every cell of the grid exactly once, breadth-first from
    /// `start` in a fixed neighbor order, and reconstructs the discovery
    /// route to the cell with the greatest accumulated value.
    ///
    /// The result is the unique outcome of the `spec_bfs` expansion model:
    /// the returned path is that search's best discovery route, so two
    /// calls on the same inputs agree. It runs from `start` over 8-adjacent
    /// in-bounds cells, never revisits a cell (so it has at most one step
    /// per grid cell), and its `total_cost` is exactly the sum of the grid
    /// values along it — the maximum accumulated value over every cell's
    /// discovery route, and so at least the start cell's value plus any
    /// other single cell's value. `None` is returned exactly when no cell
    /// but the start holds a positive value: the best route then has
    /// nowhere to go, and a one-step path cannot be executed.
    #[verifier::rlimit(100)]
    fn solve(&self, grid: &Grid, start: (usize, usize)) -> (r: Option<Path>)
        ensures
            match r {
                Some(p) => {
                    &&& p.steps@.len() >= 2
                    &&& p.steps@[0] == start
                    &&& p.in_bounds(grid.size as int)
                    &&& contiguous_steps(p.steps@)
                    &&& (forall|k1: int, k2: int|
                        0 <= k1 < k2 < p.steps@.len() ==> #[trigger] p.steps@[k1]
                            != #[trigger] p.steps@[k2])
                    &&& p.steps@.len() <= grid.size * grid.size
                    &&& p.total_cost == path_value(*grid, p.steps@)
                    &&& p.steps@ == spec_bfs_route(*grid, start)
                    &&& p.total_cost == spec_bfs(*grid, start).max_value
                    &&& (forall|r2: int, c2: int|
                        0 <= r2 < grid.size && 0 <= c2 < grid.size ==> path_value(
                            *grid,
                            #[trigger] spec_bfs(*grid, start).routes[r2 * grid.size + c2],
                        ) <= p.total_cost)
                    &&& (forall|r2: int, c2: int|
                        0 <= r2 < grid.size && 0 <= c2 < grid.size && !(r2 == start.0 && c2
                            == start.1) ==> p.total_cost >= grid.spec_value_at(
                            start.0 as int,
                            start.1 as int,
                        ) + #[trigger] grid.spec_value_at(r2, c2))
                },
                None => true,
            },
            r is None <==> (forall|r2: int, c2: int|
                0 <= r2 < grid.size && 0 <= c2 < grid.size && !(r2 == start.0 && c2 == start.1)
                    ==> #[trigger] grid.spec_value_at(r2, c2) == 0),
            r is Some <==> spec_bfs_route(*grid, start).len() >= 2,
    {
        let size = grid.size;
        let n = grid.data.len();
        proof {
            lemma_grid_index(size as int, start.0 as int, start.1 as int);
        }
        let start_idx = start.0 * size + start.1;

        // The search table: one slot per cell, row-major.
        let mut nodes: Vec<Option<Node>> = Vec::new();
        let mut i: usize = 0;
        while i < n
            invariant
                i <= n,
                nodes@.len() == i,
                forall|j: int| 0 <= j < i ==> nodes@[j] is None,
            decreases n - i,
        {
            nodes.push(None);
            i = i + 1;
        }
        proof {
            assert(count_some(nodes@) == 0) by {
                lemma_count_all_none(nodes@);
            }
        }

        let v0 = grid.value_at(start.0, start.1);
        let ghost nodes0 = nodes@;
        nodes[start_idx] = Some(
            Node { row: start.0, col: start.1, value: v0 as usize, parent: None },
        );
        let ghost mut paths: Map<int, Seq<(usize, usize)>> = Map::empty().insert(
            start_idx as int,
            seq![start],
        );
        proof {
            lemma_count_all_none(nodes0);
            lemma_count_some_update(
                nodes0,
                start_idx as int,
                Node { row: start.0, col: start.1, value: v0 as usize, parent: None },
            );
        }
        let mut count: usize = 1;

        let mut queue: Vec<(usize, usize)> = Vec::new();
        queue.push(start);
        let mut qh: usize = 0;

        let mut max_value: usize = 0;
        let mut max_end = start;

        proof {
            assert(paths[start_idx as int] == seq![start]);
            assert(path_value(*grid, seq![start]) == v0) by {
                assert(seq![start].drop_last() =~= Seq::<(usize, usize)>::empty());
                assert(path_value(*grid, Seq::<(usize, usize)>::empty()) == 0);
                assert(seq![start].last() == start);
            }
            assert(count_some(nodes@) == 1);
            assert(size < 0x1_0000_0000) by (nonlinear_arith)
                requires
                    0 <= size,
                    size * size == n,
                    n <= usize::MAX,
                    usize::MAX < 0x1_0000_0000_0000_0000,
            {
            }
            assert(bfs_inv(*grid, start, nodes@, paths, queue@, count as int));
            assert(queue@ =~= seq![start]);
            assert(nodes@ =~= Seq::new((size * size) as nat, |i: int| None::<Node>).update(
                start_idx as int,
                Some(Node { row: start.0, col: start.1, value: v0 as usize, parent: None }),
            ));
            reveal(search_init);
            reveal(search_run);
            assert((Search {
                nodes: nodes@,
                queue: queue@,
                qh: 0int,
                routes: paths,
                max_value: 0int,
                max_end: start,
            }) =~~= search_init(*grid, start));
            assert(search_run(*grid, search_init(*grid, start), 0nat) == search_init(
                *grid,
                start,
            ));
        }

        while qh < queue.len()
            invariant
                size == grid.size,
                n == grid.data@.len(),
                n == size * size,
                size < 0x1_0000_0000,
                255 * (size * size) <= usize::MAX,
                start_idx == start.0 * size + start.1,
                nodes@.len() == n,
                qh <= queue@.len(),
                count <= n,
                queue@.len() == count,
                bfs_inv(*grid, start, nodes@, paths, queue@, count as int),
                bfs_processed(*grid, nodes@, queue@, qh as int),
                bfs_max(*grid, start, nodes@, queue@, qh as int, max_value as int, max_end),
                search_run(*grid, search_init(*grid, start), qh as nat) == (Search {
                    nodes: nodes@,
                    queue: queue@,
                    qh: qh as int,
                    routes: paths,
                    max_value: max_value as int,
                    max_end: max_end,
                }),
            decreases (queue@.len() - qh) + (n - count),
        {
            let ghost st_pre = Search {
                nodes: nodes@,
                queue: queue@,
                qh: qh as int,
                routes: paths,
                max_value: max_value as int,
                max_end: max_end,
            };
            let (row, col) = queue[qh];
            proof {
                lemma_grid_index(size as int, row as int, col as int);
            }
            let idx = row * size + col;
            let current_value = if let Some(nd) = &nodes[idx] {
                nd.value
            } else {
                0
            };
            proof {
                assert(nodes@[idx as int] is Some);
            }

            if current_value > max_value {
                proof {
                    if qh == 0 {
                        assert(queue@[0] == (row, col));
                        assert((row, col) == start);
                    } else {
                        assert(queue@[0] == start);
                        assert(nodes@[start.0 * size + start.1] matches Some(snd) ==> snd.value
                            <= max_value);
                    }
                }
                max_value = current_value;
                max_end = (row, col);
            }
            proof {
                assert(bfs_max(
                    *grid,
                    start,
                    nodes@,
                    queue@,
                    (qh + 1) as int,
                    max_value as int,
                    max_end,
                ));
            }
            let ghost st1 = Search {
                nodes: nodes@,
                queue: queue@,
                qh: qh as int,
                routes: paths,
                max_value: max_value as int,
                max_end: max_end,
            };

            let ghost qc_gap = queue@.len() - count as int;
            let mut k: usize = 0;
            while k < 8
                invariant
                    queue@.len() - count as int == qc_gap,
                    size == grid.size,
                    n == grid.data@.len(),
                    n == size * size,
                    size < 0x1_0000_0000,
                    255 * (size * size) <= usize::MAX,
                    start_idx == start.0 * size + start.1,
                    nodes@.len() == n,
                    qh < queue@.len(),
                    count <= n,
                    k <= 8,
                    row < size,
                    col < size,
                    idx == row * size + col,
                    idx < n,
                    queue@[qh as int] == (row, col),
                    nodes@[(row * size + col) as int] matches Some(nd) && nd.value
                        == current_value,
                    st_pre.qh == qh as int,
                    st_pre.qh < st_pre.queue.len(),
                    st_pre.queue[qh as int] == (row, col),
                    st_pre.nodes[(row * size + col) as int] matches Some(nd2) && nd2.value
                        == current_value,
                    st1 == (if current_value as int > st_pre.max_value {
                        Search {
                            nodes: st_pre.nodes,
                            queue: st_pre.queue,
                            qh: st_pre.qh,
                            routes: st_pre.routes,
                            max_value: current_value as int,
                            max_end: (row, col),
                        }
                    } else {
                        st_pre
                    }),
                    search_run(*grid, search_init(*grid, start), qh as nat) == st_pre,
                    bfs_inv(*grid, start, nodes@, paths, queue@, count as int),
                    bfs_processed(*grid, nodes@, queue@, qh as int),
                    bfs_max(*grid, start, nodes@, queue@, (qh + 1) as int, max_value as int,
                        max_end),
                    search_expand(*grid, st1, row, col, current_value, 0) == search_expand(
                        *grid,
                        (Search {
                            nodes: nodes@,
                            queue: queue@,
                            qh: qh as int,
                            routes: paths,
                            max_value: max_value as int,
                            max_end: max_end,
                        }),
                        row,
                        col,
                        current_value,
                        k as int,
                    ),
                    forall|j: int| 0 <= j < k ==> dir_done(*grid, nodes@, row as int, col as int, j),
                decreases 8 - k,
            {
                let ghost stk = Search {
                    nodes: nodes@,
                    queue: queue@,
                    qh: qh as int,
                    routes: paths,
                    max_value: max_value as int,
                    max_end: max_end,
                };
                let (dr, dc) = direction(k);
                let nr64 = row as i64 + dr;
                let nc64 = col as i64 + dc;
                if nr64 >= 0 && nr64 < size as i64 && nc64 >= 0 && nc64 < size as i64 {
                    let nr = nr64 as usize;
                    let nc = nc64 as usize;
                    proof {
                        lemma_grid_index(size as int, nr as int, nc as int);
                    }
                    let nidx = nr * size + nc;
                    let undiscovered = nodes[nidx].is_none();
                    if undiscovered {
                        proof {
                            lemma_count_some_none_lt(nodes@, nidx as int);
                            lemma_grid_index(size as int, row as int, col as int);
                            assert(node_ok(*grid, start, nodes@, paths, count as int, idx as int));
                        }
                        let gval = grid.value_at(nr, nc);
                        let new_value = current_value + gval as usize;
                        let new_node = Node {
                            row: nr,
                            col: nc,
                            value: new_value,
                            parent: Some((row, col)),
                        };
                        let ghost old_nodes = nodes@;
                        let ghost old_paths = paths;
                        let ghost old_queue = queue@;
                        let ghost pcur = paths[idx as int];
                        nodes[nidx] = Some(new_node);
                        proof {
                            paths = paths.insert(nidx as int, pcur.push((nr, nc)));
                            lemma_count_some_update(old_nodes, nidx as int, new_node);
                        }
                        count = count + 1;
                        queue.push((nr, nc));
                        proof {
                            let pnew = pcur.push((nr, nc));
                            assert(paths[nidx as int] == pnew);
                            assert(pnew.drop_last() =~= pcur);
                            assert(pnew.last() == (nr, nc));
                            assert(path_value(*grid, pnew) == path_value(*grid, pcur)
                                + grid.spec_value_at(nr as int, nc as int));
                            assert(eight_adjacent((row, col), (nr, nc)));
                            if (nr, nc) == start {
                                assert(old_nodes[start_idx as int] is Some);
                                assert(false);
                            }
                            assert(node_ok(*grid, start, old_nodes, old_paths, (count - 1) as int,
                                idx as int));
                            let ndcur = old_nodes[idx as int]->Some_0;
                            lemma_grid_index_injective(
                                size as int,
                                ndcur.row as int,
                                ndcur.col as int,
                                row as int,
                                col as int,
                            );
                            assert(pcur.last() == (row, col));
                            assert(pnew[0] == start);
                            assert(forall|t: int| 1 <= t < pnew.len() ==> #[trigger] pnew[t]
                                != start);
                            assert forall|t: int|
                                0 <= t < pnew.len() - 1 implies eight_adjacent(
                                #[trigger] pnew[t],
                                pnew[t + 1],
                            ) by {
                                if t < pcur.len() - 1 {
                                    assert(pnew[t] == pcur[t]);
                                    assert(pnew[t + 1] == pcur[t + 1]);
                                    assert(eight_adjacent(pcur[t], pcur[t + 1]));
                                } else {
                                    assert(pnew[t] == pcur.last());
                                    assert(pnew[t + 1] == (nr, nc));
                                }
                            }
                            assert(contiguous_steps(pnew));
                            assert forall|t: int| 0 <= t < pcur.len() implies old_nodes[(
                            #[trigger] pcur[t]).0 * size + pcur[t].1] is Some by {
                                assert(node_ok(*grid, start, old_nodes, old_paths, (count
                                    - 1) as int, idx as int));
                            }
                            assert forall|t1: int, t2: int|
                                0 <= t1 < t2 < pnew.len() implies #[trigger] pnew[t1]
                                != #[trigger] pnew[t2] by {
                                if t2 == pnew.len() - 1 {
                                    assert(pnew[t1] == pcur[t1]);
                                    if pcur[t1] == (nr, nc) {
                                        assert(old_nodes[nidx as int] is Some);
                                    }
                                } else {
                                    assert(pnew[t1] == pcur[t1]);
                                    assert(pnew[t2] == pcur[t2]);
                                }
                            }
                            assert forall|t: int| 0 <= t < pnew.len() implies nodes@[(
                            #[trigger] pnew[t]).0 * size + pnew[t].1] is Some by {
                                if t < pcur.len() {
                                    assert(pnew[t] == pcur[t]);
                                    assert(old_nodes[pcur[t].0 * size + pcur[t].1] is Some);
                                    lemma_grid_index(
                                        size as int,
                                        pcur[t].0 as int,
                                        pcur[t].1 as int,
                                    );
                                } else {
                                    assert(pnew[t] == (nr, nc));
                                }
                            }
                            assert(node_ok(*grid, start, nodes@, paths, count as int,
                                nidx as int));
                            assert forall|j: int| 0 <= j < k implies dir_done(
                                *grid,
                                nodes@,
                                row as int,
                                col as int,
                            j,
                            ) by {
                                assert(dir_done(*grid, old_nodes, row as int, col as int, j));
                                let d = spec_direction(j);
                                if 0 <= row + d.0 < size && 0 <= col + d.1 < size {
                                    lemma_grid_index(size as int, row + d.0, col + d.1);
                                }
                            }
                            assert forall|idx2: int| 0 <= idx2 < nodes@.len() implies node_ok(
                                *grid,
                                start,
                                nodes@,
                                paths,
                                count as int,
                                idx2,
                            ) by {
                                if idx2 != nidx as int {
                                    assert(node_ok(*grid, start, old_nodes, old_paths, (count
                                        - 1) as int, idx2));
                                    assert(nodes@[idx2] == old_nodes[idx2]);
                                    if old_nodes[idx2] is Some {
                                        let nd2 = old_nodes[idx2]->Some_0;
                                        if nd2.parent is Some {
                                            let pp = nd2.parent->Some_0;
                                            assert(nodes@[pp.0 * size + pp.1] == old_nodes[pp.0
                                                * size + pp.1] || pp.0 * size + pp.1
                                                == nidx as int);
                                        }
                                        assert forall|t: int|
                                            0 <= t < old_paths[idx2].len() implies nodes@[(
                                        #[trigger] old_paths[idx2][t]).0 * size
                                            + old_paths[idx2][t].1] is Some by {
                                            assert(old_nodes[old_paths[idx2][t].0 * size
                                                + old_paths[idx2][t].1] is Some);
                                            lemma_grid_index(
                                                size as int,
                                                old_paths[idx2][t].0 as int,
                                                old_paths[idx2][t].1 as int,
                                            );
                                        }
                                    }
                                }
                            }
                            assert forall|kk: int, r2: int, c2: int|
                                #![trigger queue@[kk], nodes@[r2 * size + c2]]
                                0 <= kk < qh && 0 <= r2 < size && 0 <= c2 < size
                                    && eight_adjacent(
                                    queue@[kk],
                                    ((r2 as usize), (c2 as usize)),
                                ) implies nodes@[r2 * size + c2] is Some by {
                                assert(queue@[kk] == old_queue[kk]);
                                lemma_grid_index(size as int, r2, c2);
                                assert(old_nodes[r2 * size + c2] is Some);
                            }
                            assert(bfs_processed(*grid, nodes@, queue@, qh as int));
                            assert forall|kk: int| 0 <= kk < qh + 1 implies (nodes@[(
                            #[trigger] queue@[kk]).0 * size + queue@[kk].1] matches Some(nd2)
                                ==> nd2.value <= max_value) by {
                                assert(queue@[kk] == old_queue[kk]);
                                lemma_grid_index(
                                    size as int,
                                    queue@[kk].0 as int,
                                    queue@[kk].1 as int,
                                );
                                assert(old_nodes[queue@[kk].0 * size + queue@[kk].1] is Some);
                                assert(nodes@[queue@[kk].0 * size + queue@[kk].1] == old_nodes[queue@[kk].0
                                    * size + queue@[kk].1]);
                            }
                            assert forall|kk: int| 0 <= kk < queue@.len() implies ((
                            #[trigger] queue@[kk]).0 < size && queue@[kk].1 < size
                                && nodes@[queue@[kk].0 * size + queue@[kk].1] is Some) by {
                                if kk < old_queue.len() {
                                    assert(queue@[kk] == old_queue[kk]);
                                    assert(old_nodes[old_queue[kk].0 * size + old_queue[kk].1]
                                        is Some);
                                    lemma_grid_index(
                                        size as int,
                                        queue@[kk].0 as int,
                                        queue@[kk].1 as int,
                                    );
                                } else {
                                    assert(queue@[kk] == (nr, nc));
                                }
                            }
                            assert(queue@[0] == start);
                            lemma_grid_index(size as int, max_end.0 as int, max_end.1 as int);
                            lemma_grid_index(size as int, start.0 as int, start.1 as int);
                            assert(nodes@[(max_end.0 * size + max_end.1) as int] == old_nodes[(max_end.0
                                * size + max_end.1) as int]);
                            assert(nodes@[start_idx as int] == old_nodes[start_idx as int]);
                            assert(bfs_max(
                                *grid,
                                start,
                                nodes@,
                                queue@,
                                (qh + 1) as int,
                                max_value as int,
                                max_end,
                            ));
                            assert forall|idx2: int|
                                0 <= idx2 < nodes@.len() && nodes@[idx2] is Some implies (exists|
                                t: int,
                            |
                                0 <= t < queue@.len() && (#[trigger] queue@[t]).0 * size
                                    + queue@[t].1 == idx2) by {
                                if idx2 == nidx as int {
                                    assert(queue@[queue@.len() - 1] == (nr, nc));
                                    assert(0 <= queue@.len() - 1 < queue@.len() && queue@[queue@.len()
                                        - 1].0 * size + queue@[queue@.len() - 1].1 == idx2);
                                } else {
                                    assert(old_nodes[idx2] is Some);
                                    let t = choose|t: int|
                                        0 <= t < old_queue.len() && (#[trigger] old_queue[t]).0
                                            * size + old_queue[t].1 == idx2;
                                    assert(queue@[t] == old_queue[t]);
                                    assert(0 <= t < queue@.len() && queue@[t].0 * size
                                        + queue@[t].1 == idx2);
                                }
                            }
                            // The mutation is exactly one neighbor probe of
                            // the search model.
                            let stk2 = Search {
                                nodes: nodes@,
                                queue: queue@,
                                qh: qh as int,
                                routes: paths,
                                max_value: max_value as int,
                                max_end: max_end,
                            };
                            assert(new_node == (Node {
                                row: nr,
                                col: nc,
                                value: (current_value as int + grid.spec_value_at(
                                    nr as int,
                                    nc as int,
                                )) as usize,
                                parent: Some((row, col)),
                            }));
                            lemma_search_dir_discover(
                                *grid,
                                stk,
                                row,
                                col,
                                current_value,
                                k as int,
                                nr,
                                nc,
                                new_node,
                            );
                            assert(search_dir(*grid, stk, row, col, current_value, k as int)
                                == stk2);
                            lemma_search_expand_step(*grid, stk, row, col, current_value, k as int);
                        }
                    } else {
                        proof {
                            assert(stk.nodes[(row + spec_direction(k as int).0) * size + (col
                                + spec_direction(k as int).1)] is Some);
                            lemma_search_dir_skip(*grid, stk, row, col, current_value, k as int);
                            lemma_search_expand_step(
                                *grid,
                                stk,
                                row,
                                col,
                                current_value,
                                k as int,
                            );
                        }
                    }
                } else {
                    proof {
                        assert(row + spec_direction(k as int).0 == nr64 as int && col
                            + spec_direction(k as int).1 == nc64 as int);
                        lemma_search_dir_skip(*grid, stk, row, col, current_value, k as int);
                        lemma_search_expand_step(*grid, stk, row, col, current_value, k as int);
                    }
                }
                k = k + 1;
            }
            proof {
                assert forall|r2: int, c2: int|
                    0 <= r2 < size && 0 <= c2 < size && eight_adjacent(
                        (row, col),
                        ((r2 as usize), (c2 as usize)),
                    ) implies #[trigger] nodes@[r2 * size + c2] is Some by {
                    lemma_directions_cover((row, col), ((r2 as usize), (c2 as usize)));
                    let kd = choose|kd: int|
                        0 <= kd < 8 && r2 == row + #[trigger] spec_direction(kd).0 && c2 == col
                            + spec_direction(kd).1;
                    assert(dir_done(*grid, nodes@, row as int, col as int, kd));
                }
                assert forall|kk: int, r2: int, c2: int|
                    #![trigger queue@[kk], nodes@[r2 * size + c2]]
                    0 <= kk < qh + 1 && 0 <= r2 < size && 0 <= c2 < size && eight_adjacent(
                        queue@[kk],
                        ((r2 as usize), (c2 as usize)),
                    ) implies nodes@[r2 * size + c2] is Some by {
                    if kk == qh {
                        assert(queue@[kk] == (row, col));
                    }
                }
                assert(bfs_processed(*grid, nodes@, queue@, (qh + 1) as int));
                // The whole iteration is one expansion step of the model.
                let st_after = Search {
                    nodes: nodes@,
                    queue: queue@,
                    qh: qh as int,
                    routes: paths,
                    max_value: max_value as int,
                    max_end: max_end,
                };
                lemma_search_expand_done(*grid, st_after, row, col, current_value);
                assert(search_expand(*grid, st1, row, col, current_value, 0) == st_after);
                assert(search_step(*grid, st_pre) == (Search {
                    nodes: st_after.nodes,
                    queue: st_after.queue,
                    qh: st_after.qh + 1,
                    routes: st_after.routes,
                    max_value: st_after.max_value,
                    max_end: st_after.max_end,
                })) by {
                    reveal(search_step);
                }
                lemma_search_run_snoc(*grid, search_init(*grid, start), qh as nat);
                assert((qh + 1) as nat == qh as nat + 1);
                assert(search_run(*grid, search_init(*grid, start), (qh + 1) as nat)
                    == search_step(*grid, st_pre));
            }
            qh = qh + 1;
        }

        // Reconstruct the best route by walking parent links back to the
        // start, then reverse it into forward order.
        proof {
            lemma_grid_index(size as int, max_end.0 as int, max_end.1 as int);
            // The queue is exhausted, so the model's run has reached its
            // fixed point: the finished search is this very state.
            lemma_search_run_extend(
                *grid,
                search_init(*grid, start),
                qh as nat,
                (size * size + 1) as nat,
            );
            assert(spec_bfs(*grid, start) == (Search {
                nodes: nodes@,
                queue: queue@,
                qh: qh as int,
                routes: paths,
                max_value: max_value as int,
                max_end: max_end,
            }));
        }
        let end_idx = max_end.0 * size + max_end.1;
        let ghost pend = paths[end_idx as int];
        let mut collected: Vec<(usize, usize)> = Vec::new();
        let mut cur = max_end;
        proof {
            assert(qh >= 1);
            assert(nodes@[end_idx as int] is Some);
            assert(node_ok(*grid, start, nodes@, paths, count as int, end_idx as int));
            assert(pend.take(pend.len() as int) =~= pend);
        }
        loop
            invariant_except_break
                size == grid.size,
                n == grid.data@.len(),
                nodes@.len() == n,
                n == size * size,
                start_idx == start.0 * size + start.1,
                bfs_inv(*grid, start, nodes@, paths, queue@, count as int),
                bfs_processed(*grid, nodes@, queue@, qh as int),
                bfs_max(*grid, start, nodes@, queue@, qh as int, max_value as int, max_end),
                qh == queue@.len(),
                spec_bfs(*grid, start) == (Search {
                    nodes: nodes@,
                    queue: queue@,
                    qh: qh as int,
                    routes: paths,
                    max_value: max_value as int,
                    max_end: max_end,
                }),
                cur.0 < size,
                cur.1 < size,
                nodes@[(cur.0 * size + cur.1) as int] is Some,
                pend == paths[end_idx as int],
                end_idx == max_end.0 * size + max_end.1,
                nodes@[end_idx as int] is Some,
                collected@.len() <= pend.len(),
                paths[(cur.0 * size + cur.1) as int] == pend.take(
                    pend.len() - collected@.len(),
                ),
                forall|j: int|
                    0 <= j < collected@.len() ==> #[trigger] collected@[j] == pend[pend.len() - 1
                        - j],
            ensures
                size == grid.size,
                n == grid.data@.len(),
                nodes@.len() == n,
                n == size * size,
                start_idx == start.0 * size + start.1,
                bfs_inv(*grid, start, nodes@, paths, queue@, count as int),
                bfs_processed(*grid, nodes@, queue@, qh as int),
                bfs_max(*grid, start, nodes@, queue@, qh as int, max_value as int, max_end),
                qh == queue@.len(),
                spec_bfs(*grid, start) == (Search {
                    nodes: nodes@,
                    queue: queue@,
                    qh: qh as int,
                    routes: paths,
                    max_value: max_value as int,
                    max_end: max_end,
                }),
                pend == paths[end_idx as int],
                end_idx == max_end.0 * size + max_end.1,
                collected@.len() == pend.len(),
                forall|j: int|
                    0 <= j < collected@.len() ==> #[trigger] collected@[j] == pend[pend.len() - 1
                        - j],
            decreases pend.len() - collected@.len(),
        {
            proof {
                lemma_grid_index(size as int, cur.0 as int, cur.1 as int);
            }
            let cidx = cur.0 * size + cur.1;
            proof {
                assert(node_ok(*grid, start, nodes@, paths, count as int, cidx as int));
                assert(paths[cidx as int].len() >= 1);
                assert(paths[cidx as int].last() == cur) by {
                    let nd = nodes@[cidx as int]->Some_0;
                    lemma_grid_index(size as int, nd.row as int, nd.col as int);
                    lemma_grid_index_injective(
                        size as int,
                        nd.row as int,
                        nd.col as int,
                        cur.0 as int,
                        cur.1 as int,
                    );
                }
            }
            collected.push(cur);
            let ghost cnt = collected@.len() as int;
            let parent: Option<(usize, usize)> = if let Some(nd) = &nodes[cidx] {
                nd.parent
            } else {
                None
            };
            match parent {
                Some(p) => {
                    proof {
                        assert(paths[cidx as int].len() >= 2);
                        assert(paths[(p.0 * size + p.1) as int] == paths[cidx as int].drop_last());
                        assert(pend.take(pend.len() - (cnt - 1)).drop_last() =~= pend.take(
                            pend.len() - cnt,
                        ));
                        assert(collected@[cnt - 1] == cur);
                        assert(cur == paths[cidx as int].last());
                        assert(paths[cidx as int].last() == pend[pend.len() - cnt]);
                        lemma_grid_index(size as int, p.0 as int, p.1 as int);
                    }
                    cur = p;
                },
                None => {
                    proof {
                        assert(cidx == start_idx);
                        assert(paths[cidx as int] == seq![start]);
                        assert(pend.take(pend.len() - (cnt - 1)).len() == 1);
                        assert(collected@[cnt - 1] == cur);
                        assert(cur == paths[cidx as int].last());
                        assert(paths[cidx as int].last() == pend[pend.len() - cnt]);
                        assert(collected@.len() == pend.len());
                    }
                    break;
                },
            }
        }

        proof {
            lemma_end_state(
                *grid,
                start,
                nodes@,
                paths,
                queue@,
                count as int,
                qh as int,
                max_value as int,
                max_end,
            );
            assert(node_ok(*grid, start, nodes@, paths, count as int, end_idx as int));
            assert(node_ok(*grid, start, nodes@, paths, count as int, start_idx as int));
            assert(paths[start_idx as int] == seq![start]);
            assert(path_value(*grid, seq![start]) == grid.spec_value_at(
                start.0 as int,
                start.1 as int,
            )) by {
                assert(seq![start].drop_last() =~= Seq::<(usize, usize)>::empty());
                assert(seq![start].last() == start);
            }
        }
        proof {
            assert(spec_bfs_end_idx(*grid, start) == end_idx as int);
            assert(spec_bfs_route(*grid, start) == pend);
            assert(spec_bfs(*grid, start).max_value == max_value as int);
        }
        let ghost v_start = grid.spec_value_at(start.0 as int, start.1 as int) as int;

        if collected.len() < 2 {
            // The best route never left the start cell, so no other cell can
            // hold a positive value: its record would have beaten the start.
            proof {
                assert(pend.len() == 1);
                assert(pend[0] == start);
                assert(pend.last() == (max_end.0, max_end.1)) by {
                    let nd = nodes@[end_idx as int]->Some_0;
                    lemma_grid_index(size as int, nd.row as int, nd.col as int);
                    lemma_grid_index_injective(
                        size as int,
                        nd.row as int,
                        nd.col as int,
                        max_end.0 as int,
                        max_end.1 as int,
                    );
                }
                assert(max_end == start);
                assert(max_value == v_start);
                assert forall|r2: int, c2: int|
                    0 <= r2 < grid.size && 0 <= c2 < grid.size && !(r2 == start.0 && c2
                        == start.1) implies #[trigger] grid.spec_value_at(r2, c2) == 0 by {
                    if grid.spec_value_at(r2, c2) != 0 {
                        lemma_grid_index(size as int, r2, c2);
                        let idx2 = r2 * size + c2;
                        assert(nodes@[idx2] is Some);
                        assert(node_ok(*grid, start, nodes@, paths, count as int, idx2));
                        let nd = nodes@[idx2]->Some_0;
                        assert(paths[idx2].last() == ((r2 as usize), (c2 as usize)));
                        assert(paths[idx2].len() >= 2) by {
                            if paths[idx2].len() == 1 {
                                assert(paths[idx2].last() == paths[idx2][0]);
                            }
                        }
                        lemma_path_value_ends(*grid, paths[idx2]);
                        assert(nd.value >= v_start + grid.spec_value_at(r2, c2));
                        assert(nd.value <= max_value);
                        assert(false);
                    }
                }
            }
            return None;
        }

        let mut steps: Vec<(usize, usize)> = Vec::new();
        let mut j = collected.len();
        while j > 0
            invariant
                j <= collected@.len(),
                collected@.len() == pend.len(),
                steps@.len() == collected@.len() - j,
                forall|t: int|
                    0 <= t < collected@.len() ==> #[trigger] collected@[t] == pend[pend.len() - 1
                        - t],
                forall|t: int| 0 <= t < steps@.len() ==> #[trigger] steps@[t] == pend[t],
            decreases j,
        {
            j = j - 1;
            steps.push(collected[j]);
        }
        proof {
            assert(steps@ =~= pend);
        }

        proof {
            // The returned route is the end record's discovery route; its
            // cost is that record's accumulated value, which dominates every
            // cell's record and in particular start plus any other cell.
            assert(pend.len() >= 2);
            assert(pend.last() == (max_end.0, max_end.1)) by {
                let nd = nodes@[end_idx as int]->Some_0;
                lemma_grid_index(size as int, nd.row as int, nd.col as int);
                lemma_grid_index_injective(
                    size as int,
                    nd.row as int,
                    nd.col as int,
                    max_end.0 as int,
                    max_end.1 as int,
                );
            }
            assert(max_end != start) by {
                assert(pend.last() == pend[pend.len() - 1]);
                assert(pend[pend.len() - 1] != start);
            }
            assert(max_value == path_value(*grid, pend));
            assert forall|r2: int, c2: int|
                0 <= r2 < grid.size && 0 <= c2 < grid.size && !(r2 == start.0 && c2 == start.1)
                implies max_value >= v_start + #[trigger] grid.spec_value_at(r2, c2) by {
                lemma_grid_index(size as int, r2, c2);
                let idx2 = r2 * size + c2;
                assert(node_ok(*grid, start, nodes@, paths, count as int, idx2));
                let nd = nodes@[idx2]->Some_0;
                assert(paths[idx2].last() == ((r2 as usize), (c2 as usize)));
                assert(paths[idx2].len() >= 2) by {
                    if paths[idx2].len() == 1 {
                        assert(paths[idx2].last() == paths[idx2][0]);
                    }
                }
                lemma_path_value_ends(*grid, paths[idx2]);
            }
            assert forall|r2: int, c2: int|
                0 <= r2 < grid.size && 0 <= c2 < grid.size implies path_value(
                *grid,
                #[trigger] spec_bfs(*grid, start).routes[r2 * grid.size + c2],
            ) <= max_value by {
                lemma_grid_index(size as int, r2, c2);
                let idx2 = r2 * size + c2;
                assert(node_ok(*grid, start, nodes@, paths, count as int, idx2));
                let nd = nodes@[idx2]->Some_0;
                assert(spec_bfs(*grid, start).routes[idx2] == paths[idx2]);
                assert(nd.value == path_value(*grid, paths[idx2]));
                assert(nd.value <= max_value);
            }
            // A grid whose only value sits at the start could not have moved
            // the maximum off the start cell.
            if forall|r2: int, c2: int|
                0 <= r2 < grid.size && 0 <= c2 < grid.size && !(r2 == start.0 && c2 == start.1)
                    ==> #[trigger] grid.spec_value_at(r2, c2) == 0 {
                lemma_path_value_all_zero(*grid, pend, start);
                assert(max_value == v_start);
                assert(nodes@[start_idx as int] matches Some(snd) && max_value > snd.value);
                assert(false);
            }
        }

        Some(Path { steps, total_cost: max_value })
    }
}

} // verus!
