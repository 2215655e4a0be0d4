//! The neighbour count on the torus and the next-generation rule.

use vstd::prelude::*;
use vstd::arithmetic::div_mod::lemma_fundamental_div_mod_converse;
use crate::grid::{Grid, all_dead, grid_height, grid_width, in_bounds, is_grid, reads_before};

verus! {

/// Coordinate `v` moved by `d` on an axis of length `n`, wrapping around.
pub open spec fn wrap(v: int, d: int, n: int) -> int {
    (v + d + n) % n
}

pub open spec fn live_as_int(v: Seq<Seq<bool>>, x: int, y: int) -> int {
    if v[y][x] { 1 } else { 0 }
}

/// Whether the neighbour at offset `(dx, dy)` of cell `(x, y)` is alive, as 0 or 1.
pub open spec fn neighbor_at(v: Seq<Seq<bool>>, x: int, y: int, dx: int, dy: int) -> int {
    live_as_int(v, wrap(x, dx, grid_width(v)), wrap(y, dy, grid_height(v)))
}

/// The number of live cells among the eight wrapped neighbours of `(x, y)`.
pub open spec fn neighbor_count(v: Seq<Seq<bool>>, x: int, y: int) -> int {
    neighbor_at(v, x, y, -1, -1) + neighbor_at(v, x, y, 0, -1) + neighbor_at(v, x, y, 1, -1)
        + neighbor_at(v, x, y, -1, 0) + neighbor_at(v, x, y, 1, 0)
        + neighbor_at(v, x, y, -1, 1) + neighbor_at(v, x, y, 0, 1) + neighbor_at(v, x, y, 1, 1)
}

/// Cell `(cx, cy)` is one of the eight wrapped neighbours of `(x, y)`.
pub open spec fn is_neighbor(v: Seq<Seq<bool>>, x: int, y: int, cx: int, cy: int) -> bool {
    exists|dx: int, dy: int|
        -1 <= dx <= 1 && -1 <= dy <= 1 && !(dx == 0 && dy == 0)
            && cx == #[trigger] wrap(x, dx, grid_width(v)) && cy == #[trigger] wrap(y, dy, grid_height(v))
}

/// The state of a cell in the next generation, from its state and its
/// number of live neighbours.
pub open spec fn life_rule(alive: bool, neighbors: int) -> bool {
    if alive {
        neighbors == 2 || neighbors == 3
    } else {
        neighbors == 3
    }
}

/// The next generation of a whole grid, every cell computed from the current one.
pub open spec fn next_cells(v: Seq<Seq<bool>>) -> Seq<Seq<bool>> {
    Seq::new(
        grid_height(v) as nat,
        |y: int| Seq::new(grid_width(v) as nat, |x: int| life_rule(v[y][x], neighbor_count(v, x, y))),
    )
}

/// A grid with no live cell stays without live cells: the next generation of
/// an all-dead grid is the same all-dead grid.
pub proof fn lemma_dead_grid_is_fixed(v: Seq<Seq<bool>>)
    requires
        is_grid(v),
        all_dead(v),
    ensures
        next_cells(v) == v,
        all_dead(next_cells(v)),
{
    let w = grid_width(v);
    let h = grid_height(v);
    assert forall|y: int| 0 <= y < h implies #[trigger] next_cells(v)[y] =~= v[y] by {
        assert forall|x: int| 0 <= x < w implies #[trigger] next_cells(v)[y][x] == v[y][x] by {
            assert forall|dx: int, dy: int| -1 <= dx <= 1 && -1 <= dy <= 1
                implies #[trigger] neighbor_at(v, x, y, dx, dy) == 0 by {
                lemma_wrap(x, dx, w);
                lemma_wrap(y, dy, h);
                assert(in_bounds(v, wrap(x, dx, w), wrap(y, dy, h)));
            }
            assert(in_bounds(v, x, y));
            assert(neighbor_count(v, x, y) == 0);
        }
    }
    assert(next_cells(v) =~= v);
}

/// A cell whose eight wrapped neighbours are the only live cells of the grid
/// has eight live neighbours, wherever it stands, corners and edges included.
pub proof fn lemma_surrounded_cell_has_eight(v: Seq<Seq<bool>>, x: int, y: int)
    requires
        is_grid(v),
        in_bounds(v, x, y),
        forall|cx: int, cy: int| in_bounds(v, cx, cy) ==> (#[trigger] v[cy][cx] <==> is_neighbor(v, x, y, cx, cy)),
    ensures
        neighbor_count(v, x, y) == 8,
{
    let w = grid_width(v);
    let h = grid_height(v);
    assert forall|dx: int, dy: int| -1 <= dx <= 1 && -1 <= dy <= 1 && !(dx == 0 && dy == 0)
        implies #[trigger] neighbor_at(v, x, y, dx, dy) == 1 by {
        lemma_wrap(x, dx, w);
        lemma_wrap(y, dy, h);
        let cx = wrap(x, dx, w);
        let cy = wrap(y, dy, h);
        assert(is_neighbor(v, x, y, cx, cy));
        assert(in_bounds(v, cx, cy));
        assert(v[cy][cx]);
    }
}

/// On the torus the cell at the opposite corner, `(width - 1, height - 1)`, is
/// a neighbour of `(0, 0)` and is counted among its live neighbours.
pub proof fn lemma_origin_sees_far_corner(v: Seq<Seq<bool>>)
    requires
        is_grid(v),
    ensures
        is_neighbor(v, 0, 0, grid_width(v) - 1, grid_height(v) - 1),
        neighbor_at(v, 0, 0, -1, -1) == live_as_int(v, grid_width(v) - 1, grid_height(v) - 1),
        v[grid_height(v) - 1][grid_width(v) - 1] ==> neighbor_count(v, 0, 0) >= 1,
{
    let w = grid_width(v);
    let h = grid_height(v);
    lemma_wrap(0, -1, w);
    lemma_wrap(0, -1, h);
    assert(wrap(0, -1, w) == w - 1 && wrap(0, -1, h) == h - 1);
}

/// The rule as a table: a live cell with fewer than two or more than three
/// live neighbours dies, with two or three it lives on; a dead cell comes
/// alive with exactly three and stays dead otherwise.
pub proof fn lemma_rule_table(neighbors: int)
    requires
        0 <= neighbors <= 8,
    ensures
        neighbors <= 1 ==> !life_rule(true, neighbors),
        2 <= neighbors <= 3 ==> life_rule(true, neighbors),
        4 <= neighbors ==> !life_rule(true, neighbors),
        neighbors == 3 ==> life_rule(false, neighbors),
        neighbors != 3 ==> !life_rule(false, neighbors),
{
}

/// Wrapping a coordinate by one step lands on the neighbouring coordinate,
/// or across the edge.
pub proof fn lemma_wrap(v: int, d: int, n: int)
    requires
        0 <= v < n,
        -1 <= d <= 1,
    ensures
        wrap(v, d, n) == (if v + d < 0 {
            n - 1
        } else if v + d >= n {
            0
        } else {
            v + d
        }),
        0 <= wrap(v, d, n) < n,
{
    if v + d < 0 {
        lemma_fundamental_div_mod_converse(v + d + n, n, 0, n - 1);
    } else if v + d >= n {
        lemma_fundamental_div_mod_converse(v + d + n, n, 2, 0);
    } else {
        lemma_fundamental_div_mod_converse(v + d + n, n, 1, v + d);
    }
}

/// The neighbour index reached from `v` by offset `k - 1`, on an axis of length `n`.
fn wrapped(v: usize, k: usize, n: usize) -> (r: usize)
    requires
        v < n,
        k <= 2,
    ensures
        r == wrap(v as int, k - 1, n as int),
{
    proof { lemma_wrap(v as int, k - 1, n as int); }
    if k == 0 {
        if v == 0 { n - 1 } else { v - 1 }
    } else if k == 1 {
        v
    } else {
        if v + 1 == n { 0 } else { v + 1 }
    }
}

impl Grid {
    fn neighbor_term(&self, x: usize, y: usize, kx: usize, ky: usize) -> (r: u8)
        requires
            self.wf(),
            in_bounds(self@, x as int, y as int),
            kx <= 2,
            ky <= 2,
        ensures
            r as int == neighbor_at(self@, x as int, y as int, kx - 1, ky - 1),
    {
        let nx = wrapped(x, kx, self.width());
        let ny = wrapped(y, ky, self.height());
        if self.get(nx, ny) { 1 } else { 0 }
    }

    /// The number of live cells among the eight neighbours of `(x, y)`,
    /// wrapping around both edges.
    pub fn count_alive_neighbors(&self, x: usize, y: usize) -> (r: u8)
        requires
            self.wf(),
            in_bounds(self@, x as int, y as int),
        ensures
            r as int == neighbor_count(self@, x as int, y as int),
            r <= 8,
    {
        self.neighbor_term(x, y, 0, 0) + self.neighbor_term(x, y, 1, 0) + self.neighbor_term(x, y, 2, 0)
            + self.neighbor_term(x, y, 0, 1) + self.neighbor_term(x, y, 2, 1)
            + self.neighbor_term(x, y, 0, 2) + self.neighbor_term(x, y, 1, 2) + self.neighbor_term(x, y, 2, 2)
    }

    /// The next generation, computed entirely from this one.
    pub fn next_generation(&self) -> (r: Grid)
        requires
            self.wf(),
        ensures
            r.wf(),
            r@ == next_cells(self@),
    {
        let w = self.width();
        let h = self.height();
        let mut next = Grid::new(w, h);
        let mut y: usize = 0;
        while y < h
            invariant
                self.wf(),
                next.wf(),
                w == grid_width(self@),
                h == grid_height(self@),
                grid_width(next@) == w,
                grid_height(next@) == h,
                y <= h,
                forall|cx: int, cy: int| in_bounds(next@, cx, cy) ==> #[trigger] next@[cy][cx] == if cy < y {
                    life_rule(self@[cy][cx], neighbor_count(self@, cx, cy))
                } else {
                    false
                },
            decreases h - y,
        {
            let mut x: usize = 0;
            while x < w
                invariant
                    self.wf(),
                    next.wf(),
                    w == grid_width(self@),
                    h == grid_height(self@),
                    grid_width(next@) == w,
                    grid_height(next@) == h,
                    y < h,
                    x <= w,
                    forall|cx: int, cy: int| in_bounds(next@, cx, cy) ==> #[trigger] next@[cy][cx] == if reads_before(cx, cy, x as int, y as int) {
                        life_rule(self@[cy][cx], neighbor_count(self@, cx, cy))
                    } else {
                        false
                    },
                decreases w - x,
            {
                let n = self.count_alive_neighbors(x, y);
                let alive = if self.get(x, y) { n == 2 || n == 3 } else { n == 3 };
                next.set(x, y, alive);
                x = x + 1;
            }
            y = y + 1;
        }
        proof {
            assert(next@ =~= next_cells(self@)) by {
                assert forall|cy: int| 0 <= cy < h implies #[trigger] next@[cy] =~= next_cells(self@)[cy] by {
                    assert forall|cx: int| 0 <= cx < w implies #[trigger] next@[cy][cx] == next_cells(self@)[cy][cx] by {
                        assert(in_bounds(next@, cx, cy));
                    }
                }
            }
        }
        next
    }
}

} // verus!
