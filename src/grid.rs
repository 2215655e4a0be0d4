//! The rectangular grid of live and dead cells.

use vstd::prelude::*;

verus! {

/// A grid model is a non-empty sequence of rows, all of one non-zero width.
/// Rows are indexed by `y`, cells within a row by `x`.
pub open spec fn is_grid(v: Seq<Seq<bool>>) -> bool {
    &&& v.len() >= 1
    &&& v[0].len() >= 1
    &&& forall|y: int| 0 <= y < v.len() ==> #[trigger] v[y].len() == v[0].len()
}

pub open spec fn grid_width(v: Seq<Seq<bool>>) -> int {
    v[0].len() as int
}

pub open spec fn grid_height(v: Seq<Seq<bool>>) -> int {
    v.len() as int
}

pub open spec fn in_bounds(v: Seq<Seq<bool>>, x: int, y: int) -> bool {
    0 <= x < grid_width(v) && 0 <= y < grid_height(v)
}

/// Every cell of the grid is dead.
pub open spec fn all_dead(v: Seq<Seq<bool>>) -> bool {
    forall|x: int, y: int| in_bounds(v, x, y) ==> !#[trigger] v[y][x]
}

/// The grid of the given size with every cell dead.
pub open spec fn dead_grid(width: nat, height: nat) -> Seq<Seq<bool>> {
    Seq::new(height, |y: int| Seq::new(width, |x: int| false))
}

/// The grid of the given size whose live cells are those of `live`.
pub open spec fn grid_of(live: Set<(int, int)>, width: nat, height: nat) -> Seq<Seq<bool>> {
    Seq::new(height, |y: int| Seq::new(width, |x: int| live.contains((x, y))))
}

/// The grid with cell `(x, y)` set to `alive`.
pub open spec fn with_cell(v: Seq<Seq<bool>>, x: int, y: int, alive: bool) -> Seq<Seq<bool>> {
    v.update(y, v[y].update(x, alive))
}

/// The row with the `len` cells starting at `x` made live.
pub open spec fn filled_row(row: Seq<bool>, x: int, len: int) -> Seq<bool> {
    Seq::new(row.len(), |i: int| if x <= i < x + len { true } else { row[i] })
}

/// Cell `(x1, y1)` comes before cell `(x2, y2)` when the grid is read row by
/// row, each row from left to right.
pub open spec fn reads_before(x1: int, y1: int, x2: int, y2: int) -> bool {
    y1 < y2 || (y1 == y2 && x1 < x2)
}

/// A fixed-size grid of cells; `true` is a live cell.
pub struct Grid {
    width: usize,
    height: usize,
    cells: Vec<Vec<bool>>,
}

impl View for Grid {
    type V = Seq<Seq<bool>>;

    closed spec fn view(&self) -> Seq<Seq<bool>> {
        self.cells@.map_values(|r: Vec<bool>| r@)
    }
}

impl Grid {
    /// The stored sizes agree with the rows.
    pub closed spec fn inv(&self) -> bool {
        &&& self.width >= 1
        &&& self.height >= 1
        &&& self.cells@.len() == self.height
        &&& forall|y: int| 0 <= y < self.height ==> (#[trigger] self.cells@[y])@.len() == self.width
    }

    pub open spec fn wf(&self) -> bool {
        self.inv() && is_grid(self@)
    }

    proof fn lemma_inv_view(&self)
        requires
            self.inv(),
        ensures
            is_grid(self@),
            grid_width(self@) == self.width,
            grid_height(self@) == self.height,
    {
        assert(self@[0] == self.cells@[0]@);
        assert forall|y: int| 0 <= y < self@.len() implies #[trigger] self@[y].len() == self@[0].len() by {
            assert(self@[y] == self.cells@[y]@);
        }
    }

    /// A grid of `width` by `height` cells, all dead.
    pub fn new(width: usize, height: usize) -> (r: Grid)
        requires
            width >= 1,
            height >= 1,
        ensures
            r.wf(),
            r@ == dead_grid(width as nat, height as nat),
    {
        let mut cells: Vec<Vec<bool>> = Vec::new();
        let mut y: usize = 0;
        while y < height
            invariant
                y <= height,
                cells@.len() == y,
                forall|j: int| 0 <= j < y ==> (#[trigger] cells@[j])@ == Seq::new(width as nat, |x: int| false),
            decreases height - y,
        {
            let row: Vec<bool> = vec![false; width];
            proof {
                assert(row@ =~= Seq::new(width as nat, |x: int| false));
            }
            cells.push(row);
            y = y + 1;
        }
        let r = Grid { width, height, cells };
        proof {
            r.lemma_inv_view();
            assert(r@ =~= dead_grid(width as nat, height as nat)) by {
                assert forall|j: int| 0 <= j < height implies #[trigger] r@[j] == dead_grid(width as nat, height as nat)[j] by {
                    assert(r@[j] == r.cells@[j]@);
                }
            }
        }
        r
    }

    pub fn width(&self) -> (r: usize)
        requires
            self.wf(),
        ensures
            r == grid_width(self@),
    {
        proof { self.lemma_inv_view(); }
        self.width
    }

    pub fn height(&self) -> (r: usize)
        requires
            self.wf(),
        ensures
            r == grid_height(self@),
    {
        proof { self.lemma_inv_view(); }
        self.height
    }

    /// The state of an in-bounds cell.
    pub fn get(&self, x: usize, y: usize) -> (r: bool)
        requires
            self.wf(),
            in_bounds(self@, x as int, y as int),
        ensures
            r == self@[y as int][x as int],
    {
        proof {
            self.lemma_inv_view();
            assert(self@[y as int] == self.cells@[y as int]@);
        }
        self.cells[y][x]
    }

    /// The state of cell `(x, y)`, or `None` where it lies outside the grid.
    pub fn get_cell(&self, x: usize, y: usize) -> (r: Option<bool>)
        requires
            self.wf(),
        ensures
            r == (if in_bounds(self@, x as int, y as int) {
                Some(self@[y as int][x as int])
            } else {
                None::<bool>
            }),
    {
        if x < self.width() && y < self.height() {
            Some(self.get(x, y))
        } else {
            None
        }
    }

    /// Sets an in-bounds cell.
    pub fn set(&mut self, x: usize, y: usize, alive: bool)
        requires
            old(self).wf(),
            in_bounds(old(self)@, x as int, y as int),
        ensures
            final(self).wf(),
            grid_width(final(self)@) == grid_width(old(self)@),
            grid_height(final(self)@) == grid_height(old(self)@),
            final(self)@ == with_cell(old(self)@, x as int, y as int, alive),
    {
        proof { self.lemma_inv_view(); }
        self.cells[y][x] = alive;
        proof {
            self.lemma_inv_view();
            assert(self@ =~= with_cell(old(self)@, x as int, y as int, alive)) by {
                assert forall|j: int| 0 <= j < self@.len() implies #[trigger] self@[j] == with_cell(old(self)@, x as int, y as int, alive)[j] by {
                    assert(self@[j] == self.cells@[j]@);
                    assert(old(self)@[j] == old(self).cells@[j]@);
                    if j == y {
                        assert(self@[j] =~= old(self)@[j].update(x as int, alive));
                    }
                }
            }
        }
    }

    /// Sets cell `(x, y)` where it lies inside the grid; a coordinate outside
    /// the grid leaves every cell as it was.
    pub fn set_cell(&mut self, x: i64, y: i64, alive: bool)
        requires
            old(self).wf(),
        ensures
            final(self).wf(),
            grid_width(final(self)@) == grid_width(old(self)@),
            grid_height(final(self)@) == grid_height(old(self)@),
            final(self)@ == (if in_bounds(old(self)@, x as int, y as int) {
                with_cell(old(self)@, x as int, y as int, alive)
            } else {
                old(self)@
            }),
    {
        if x >= 0 && y >= 0 {
            let w = self.width();
            let h = self.height();
            if (x as u64) < (w as u64) && (y as u64) < (h as u64) {
                self.set(x as usize, y as usize, alive);
            }
        }
    }

    /// The live cells as `(x, y)` pairs, row by row and left to right.
    pub fn live_cells(&self) -> (r: Vec<(usize, usize)>)
        requires
            self.wf(),
        ensures
            forall|i: int| 0 <= i < r@.len() ==> {
                let (x, y) = #[trigger] r@[i];
                in_bounds(self@, x as int, y as int) && self@[y as int][x as int]
            },
            forall|x: int, y: int| in_bounds(self@, x, y) && #[trigger] self@[y][x] ==> exists|i: int|
                0 <= i < r@.len() && #[trigger] r@[i] == (x as usize, y as usize),
            forall|i: int, j: int| 0 <= i < j < r@.len() ==>
                reads_before((#[trigger] r@[i]).0 as int, r@[i].1 as int, (#[trigger] r@[j]).0 as int, r@[j].1 as int),
    {
        let w = self.width();
        let h = self.height();
        let mut r: Vec<(usize, usize)> = Vec::new();
        let mut y: usize = 0;
        while y < h
            invariant
                self.wf(),
                w == grid_width(self@),
                h == grid_height(self@),
                y <= h,
                forall|i: int| 0 <= i < r@.len() ==> {
                    let (cx, cy) = #[trigger] r@[i];
                    in_bounds(self@, cx as int, cy as int) && self@[cy as int][cx as int] && cy < y
                },
                forall|cx: int, cy: int| in_bounds(self@, cx, cy) && #[trigger] self@[cy][cx] && cy < y ==> exists|i: int|
                    0 <= i < r@.len() && #[trigger] r@[i] == (cx as usize, cy as usize),
                forall|i: int, j: int| 0 <= i < j < r@.len() ==>
                    reads_before((#[trigger] r@[i]).0 as int, r@[i].1 as int, (#[trigger] r@[j]).0 as int, r@[j].1 as int),
            decreases h - y,
        {
            let mut x: usize = 0;
            while x < w
                invariant
                    self.wf(),
                    w == grid_width(self@),
                    h == grid_height(self@),
                    y < h,
                    x <= w,
                    forall|i: int| 0 <= i < r@.len() ==> {
                        let (cx, cy) = #[trigger] r@[i];
                        in_bounds(self@, cx as int, cy as int) && self@[cy as int][cx as int]
                            && reads_before(cx as int, cy as int, x as int, y as int)
                    },
                    forall|cx: int, cy: int| in_bounds(self@, cx, cy) && #[trigger] self@[cy][cx]
                        && reads_before(cx, cy, x as int, y as int) ==> exists|i: int|
                        0 <= i < r@.len() && #[trigger] r@[i] == (cx as usize, cy as usize),
                    forall|i: int, j: int| 0 <= i < j < r@.len() ==>
                        reads_before((#[trigger] r@[i]).0 as int, r@[i].1 as int, (#[trigger] r@[j]).0 as int, r@[j].1 as int),
                decreases w - x,
            {
                let ghost before = r@;
                let alive = self.get(x, y);
                if alive {
                    r.push((x, y));
                    proof {
                        let n = r@.len() - 1;
                        assert(r@[n] == (x, y));
                    }
                }
                proof {
                    assert forall|cx: int, cy: int| in_bounds(self@, cx, cy) && #[trigger] self@[cy][cx]
                        && reads_before(cx, cy, x + 1, y as int) implies exists|i: int|
                        0 <= i < r@.len() && #[trigger] r@[i] == (cx as usize, cy as usize) by {
                        if reads_before(cx, cy, x as int, y as int) {
                            let i = choose|i: int| 0 <= i < before.len() && #[trigger] before[i] == (cx as usize, cy as usize);
                            assert(r@[i] == before[i]);
                        } else {
                            assert(r@[r@.len() - 1] == (cx as usize, cy as usize));
                        }
                    }
                }
                x = x + 1;
            }
            y = y + 1;
        }
        r
    }
}

/// Makes live the `len` cells of row `y` that start at column `x`.
pub fn fill_cells(cells: &mut Grid, x: usize, y: usize, len: usize)
    requires
        old(cells).wf(),
        (y as int) < grid_height(old(cells)@),
        x as int + len as int <= grid_width(old(cells)@),
    ensures
        final(cells).wf(),
        grid_width(final(cells)@) == grid_width(old(cells)@),
        grid_height(final(cells)@) == grid_height(old(cells)@),
        final(cells)@ == old(cells)@.update(y as int, filled_row(old(cells)@[y as int], x as int, len as int)),
{
    let mut i: usize = 0;
    proof {
        let row = old(cells)@[y as int];
        assert(filled_row(row, x as int, 0) =~= row);
        assert(old(cells)@.update(y as int, row) =~= old(cells)@);
    }
    while i < len
        invariant
            cells.wf(),
            grid_width(cells@) == grid_width(old(cells)@),
            grid_height(cells@) == grid_height(old(cells)@),
            (y as int) < grid_height(old(cells)@),
            x as int + len as int <= grid_width(old(cells)@),
            i <= len,
            cells@ == old(cells)@.update(y as int, filled_row(old(cells)@[y as int], x as int, i as int)),
        decreases len - i,
    {
        cells.set(x + i, y, true);
        proof {
            let row = old(cells)@[y as int];
            assert(filled_row(row, x as int, i as int).update(x + i, true) =~= filled_row(row, x as int, i + 1));
            assert(cells@ =~= old(cells)@.update(y as int, filled_row(row, x as int, i + 1)));
        }
        i = i + 1;
    }
}

} // verus!
