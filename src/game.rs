//! The running simulation: the current and previous generations, the
//! generation counter, the pause flag and painting with the pointer.

use vstd::prelude::*;
use rand::rngs::StdRng;
use crate::engine::next_cells;
use crate::fuzz::{FUZZ_SCALE, fuzz, fuzzed, valid_draws};
use crate::grid::{Grid, dead_grid, grid_height, grid_width, in_bounds, is_grid, reads_before, with_cell};
use crate::pattern::{LoadError, load_pattern, loaded_pattern};

verus! {

/// What a simulation holds, as mathematical values.
pub struct LifeView {
    pub cells: Seq<Seq<bool>>,
    /// The generation before the last step.
    pub previous: Seq<Seq<bool>>,
    pub generation: int,
    pub paused: bool,
    /// The pointer button is held down, so moving it paints.
    pub painting: bool,
}

pub open spec fn same_shape(a: Seq<Seq<bool>>, b: Seq<Seq<bool>>) -> bool {
    grid_width(a) == grid_width(b) && grid_height(a) == grid_height(b)
}

/// The cell is drawn this frame: every cell on the first frame, later only
/// the cells that changed in the last step.
pub open spec fn needs_redraw(v: LifeView, x: int, y: int) -> bool {
    v.generation == 0 || v.previous[y][x] != v.cells[y][x]
}

pub struct GameOfLife {
    cells: Grid,
    prev_cells: Grid,
    n_ticks: u64,
    paused: bool,
    mouse_down: bool,
}

impl View for GameOfLife {
    type V = LifeView;

    closed spec fn view(&self) -> LifeView {
        LifeView {
            cells: self.cells@,
            previous: self.prev_cells@,
            generation: self.n_ticks as int,
            paused: self.paused,
            painting: self.mouse_down,
        }
    }
}

impl GameOfLife {
    pub closed spec fn inv(&self) -> bool {
        self.cells.wf() && self.prev_cells.wf() && same_shape(self.cells@, self.prev_cells@)
    }

    pub open spec fn wf(&self) -> bool {
        &&& self.inv()
        &&& is_grid(self@.cells)
        &&& is_grid(self@.previous)
        &&& same_shape(self@.cells, self@.previous)
        &&& 0 <= self@.generation <= u64::MAX
    }

    /// A paused simulation at generation 0 that starts from `grid`.
    pub fn from_grid(grid: Grid) -> (r: GameOfLife)
        requires
            grid.wf(),
        ensures
            r.wf(),
            r@ == (LifeView {
                cells: grid@,
                previous: dead_grid(grid_width(grid@) as nat, grid_height(grid@) as nat),
                generation: 0,
                paused: true,
                painting: false,
            }),
    {
        let prev_cells = Grid::new(grid.width(), grid.height());
        GameOfLife { cells: grid, prev_cells, n_ticks: 0, paused: true, mouse_down: false }
    }

    /// A paused simulation at generation 0 whose first generation is the
    /// pattern file's, `path` naming its format and `content` its text, with
    /// each cell then flipped with chance `fuzz_chance` (parts per million).
    pub fn new(
        path: &[u8],
        content: &[u8],
        width: usize,
        height: usize,
        fuzz_chance: u32,
        rng: &mut StdRng,
    ) -> (r: Result<GameOfLife, LoadError>)
        requires
            width >= 1,
            height >= 1,
            fuzz_chance <= FUZZ_SCALE,
        ensures
            match r {
                Ok(game) => {
                    let p = loaded_pattern(path@, content@, width as int, height as int);
                    &&& game.wf()
                    &&& p.is_some()
                    &&& exists|draws: Seq<u32>| valid_draws(p.unwrap(), draws)
                        && game@.cells == fuzzed(p.unwrap(), fuzz_chance as int, draws)
                    &&& fuzz_chance == 0 ==> game@.cells == p.unwrap()
                    &&& game@.previous == dead_grid(width as nat, height as nat)
                    &&& game@.generation == 0
                    &&& game@.paused
                    &&& !game@.painting
                },
                Err(e) => loaded_pattern(path@, content@, width as int, height as int).is_none()
                    && e == LoadError::OutOfBounds,
            },
    {
        let mut grid = match load_pattern(path, content, width, height) {
            Ok(g) => g,
            Err(e) => return Err(e),
        };
        let ghost loaded = grid@;
        assert(grid_width(loaded) == width && grid_height(loaded) == height);
        fuzz(&mut grid, fuzz_chance, rng);
        let ghost draws = choose|draws: Seq<u32>|
            valid_draws(loaded, draws) && grid@ == fuzzed(loaded, fuzz_chance as int, draws);
        assert(grid_width(grid@) == width && grid_height(grid@) == height);
        let game = GameOfLife::from_grid(grid);
        assert(loaded_pattern(path@, content@, width as int, height as int).unwrap() == loaded);
        assert(valid_draws(loaded, draws) && game@.cells == fuzzed(loaded, fuzz_chance as int, draws));
        Ok(game)
    }

    pub fn cells(&self) -> (r: &Grid)
        requires
            self.wf(),
        ensures
            r.wf(),
            r@ == self@.cells,
    {
        &self.cells
    }

    pub fn previous(&self) -> (r: &Grid)
        requires
            self.wf(),
        ensures
            r.wf(),
            r@ == self@.previous,
    {
        &self.prev_cells
    }

    pub fn generation(&self) -> (r: u64)
        ensures
            r == self@.generation,
    {
        self.n_ticks
    }

    pub fn is_paused(&self) -> (r: bool)
        ensures
            r == self@.paused,
    {
        self.paused
    }

    /// The state of cell `(x, y)`, or `None` outside the grid.
    pub fn get_cell(&self, x: usize, y: usize) -> (r: Option<bool>)
        requires
            self.wf(),
        ensures
            r == (if in_bounds(self@.cells, x as int, y as int) {
                Some(self@.cells[y as int][x as int])
            } else {
                None::<bool>
            }),
    {
        self.cells.get_cell(x, y)
    }

    /// Advances one generation: the current one becomes the previous one and
    /// the next is computed from it alone. The counter stops at `u64::MAX`.
    pub fn step(&mut self)
        requires
            old(self).wf(),
        ensures
            final(self).wf(),
            final(self)@ == (LifeView {
                cells: next_cells(old(self)@.cells),
                previous: old(self)@.cells,
                generation: if old(self)@.generation < u64::MAX { old(self)@.generation + 1 } else { old(self)@.generation },
                ..old(self)@
            }),
    {
        let mut next = self.cells.next_generation();
        std::mem::swap(&mut self.cells, &mut next);
        self.prev_cells = next;
        self.n_ticks = self.n_ticks.saturating_add(1);
    }

    /// Advances one generation when a step is due and the simulation is not
    /// paused; returns whether it did.
    pub fn update(&mut self, due: bool) -> (r: bool)
        requires
            old(self).wf(),
        ensures
            final(self).wf(),
            r == (due && !old(self)@.paused),
            r ==> final(self)@ == (LifeView {
                cells: next_cells(old(self)@.cells),
                previous: old(self)@.cells,
                generation: if old(self)@.generation < u64::MAX { old(self)@.generation + 1 } else { old(self)@.generation },
                ..old(self)@
            }),
            !r ==> final(self)@ == old(self)@,
    {
        if due && !self.paused {
            self.step();
            true
        } else {
            false
        }
    }

    /// Sets cell `(x, y)` where it lies inside the grid; elsewhere nothing changes.
    pub fn set_cell(&mut self, x: i64, y: i64, alive: bool)
        requires
            old(self).wf(),
        ensures
            final(self).wf(),
            final(self)@ == (LifeView {
                cells: if in_bounds(old(self)@.cells, x as int, y as int) {
                    with_cell(old(self)@.cells, x as int, y as int, alive)
                } else {
                    old(self)@.cells
                },
                ..old(self)@
            }),
    {
        self.cells.set_cell(x, y, alive);
    }

    /// A typed character: a space pauses or resumes, anything else is ignored.
    pub fn text_input(&mut self, c: char)
        requires
            old(self).wf(),
        ensures
            final(self).wf(),
            final(self)@ == (LifeView { paused: if c == ' ' { !old(self)@.paused } else { old(self)@.paused }, ..old(self)@ }),
    {
        if c == ' ' {
            self.paused = !self.paused;
        }
    }

    /// The pointer button goes down over cell `(x, y)`: that cell comes alive
    /// and painting starts.
    pub fn press(&mut self, x: i64, y: i64)
        requires
            old(self).wf(),
        ensures
            final(self).wf(),
            final(self)@ == (LifeView {
                cells: if in_bounds(old(self)@.cells, x as int, y as int) {
                    with_cell(old(self)@.cells, x as int, y as int, true)
                } else {
                    old(self)@.cells
                },
                painting: true,
                ..old(self)@
            }),
    {
        self.mouse_down = true;
        self.cells.set_cell(x, y, true);
    }

    /// The pointer moves over cell `(x, y)`: while painting, that cell comes alive.
    pub fn drag(&mut self, x: i64, y: i64)
        requires
            old(self).wf(),
        ensures
            final(self).wf(),
            final(self)@ == (LifeView {
                cells: if old(self)@.painting && in_bounds(old(self)@.cells, x as int, y as int) {
                    with_cell(old(self)@.cells, x as int, y as int, true)
                } else {
                    old(self)@.cells
                },
                ..old(self)@
            }),
    {
        if self.mouse_down {
            self.cells.set_cell(x, y, true);
        }
    }

    /// The pointer button comes up: painting stops.
    pub fn release(&mut self)
        requires
            old(self).wf(),
        ensures
            final(self).wf(),
            final(self)@ == (LifeView { painting: false, ..old(self)@ }),
    {
        self.mouse_down = false;
    }

    /// The cells to draw this frame as `(x, y, alive)`, row by row: all of
    /// them at generation 0, afterwards those that the last step changed.
    pub fn cells_to_draw(&self) -> (r: Vec<(usize, usize, bool)>)
        requires
            self.wf(),
        ensures
            forall|i: int| 0 <= i < r@.len() ==> {
                let (x, y, alive) = #[trigger] r@[i];
                in_bounds(self@.cells, x as int, y as int) && needs_redraw(self@, x as int, y as int)
                    && alive == self@.cells[y as int][x as int]
            },
            forall|x: int, y: int| in_bounds(self@.cells, x, y) && #[trigger] needs_redraw(self@, x, y) ==> exists|i: int|
                0 <= i < r@.len() && #[trigger] r@[i] == (x as usize, y as usize, self@.cells[y][x]),
            forall|i: int, j: int| 0 <= i < j < r@.len() ==>
                reads_before((#[trigger] r@[i]).0 as int, r@[i].1 as int, (#[trigger] r@[j]).0 as int, r@[j].1 as int),
    {
        let w = self.cells.width();
        let h = self.cells.height();
        let first = self.n_ticks == 0;
        let mut r: Vec<(usize, usize, bool)> = Vec::new();
        let mut y: usize = 0;
        while y < h
            invariant
                self.wf(),
                first == (self@.generation == 0),
                w == grid_width(self@.cells),
                h == grid_height(self@.cells),
                y <= h,
                forall|i: int| 0 <= i < r@.len() ==> {
                    let (cx, cy, alive) = #[trigger] r@[i];
                    in_bounds(self@.cells, cx as int, cy as int) && needs_redraw(self@, cx as int, cy as int)
                        && alive == self@.cells[cy as int][cx as int] && cy < y
                },
                forall|cx: int, cy: int| in_bounds(self@.cells, cx, cy) && #[trigger] needs_redraw(self@, cx, cy) && cy < y ==> exists|i: int|
                    0 <= i < r@.len() && #[trigger] r@[i] == (cx as usize, cy as usize, self@.cells[cy][cx]),
                forall|i: int, j: int| 0 <= i < j < r@.len() ==>
                    reads_before((#[trigger] r@[i]).0 as int, r@[i].1 as int, (#[trigger] r@[j]).0 as int, r@[j].1 as int),
            decreases h - y,
        {
            let mut x: usize = 0;
            while x < w
                invariant
                    self.wf(),
                    first == (self@.generation == 0),
                    w == grid_width(self@.cells),
                    h == grid_height(self@.cells),
                    y < h,
                    x <= w,
                    forall|i: int| 0 <= i < r@.len() ==> {
                        let (cx, cy, alive) = #[trigger] r@[i];
                        in_bounds(self@.cells, cx as int, cy as int) && needs_redraw(self@, cx as int, cy as int)
                            && alive == self@.cells[cy as int][cx as int]
                            && reads_before(cx as int, cy as int, x as int, y as int)
                    },
                    forall|cx: int, cy: int| in_bounds(self@.cells, cx, cy) && #[trigger] needs_redraw(self@, cx, cy)
                        && reads_before(cx, cy, x as int, y as int) ==> exists|i: int|
                        0 <= i < r@.len() && #[trigger] r@[i] == (cx as usize, cy as usize, self@.cells[cy][cx]),
                    forall|i: int, j: int| 0 <= i < j < r@.len() ==>
                        reads_before((#[trigger] r@[i]).0 as int, r@[i].1 as int, (#[trigger] r@[j]).0 as int, r@[j].1 as int),
                decreases w - x,
            {
                let ghost before = r@;
                let alive = self.cells.get(x, y);
                if first || self.prev_cells.get(x, y) != alive {
                    r.push((x, y, alive));
                    proof {
                        assert(r@[r@.len() - 1] == (x, y, alive));
                    }
                }
                proof {
                    assert forall|cx: int, cy: int| in_bounds(self@.cells, cx, cy) && #[trigger] needs_redraw(self@, cx, cy)
                        && reads_before(cx, cy, x + 1, y as int) implies exists|i: int|
                        0 <= i < r@.len() && #[trigger] r@[i] == (cx as usize, cy as usize, self@.cells[cy][cx]) by {
                        if reads_before(cx, cy, x as int, y as int) {
                            let i = choose|i: int| 0 <= i < before.len() && #[trigger] before[i] == (cx as usize, cy as usize, self@.cells[cy][cx]);
                            assert(r@[i] == before[i]);
                        } else {
                            assert(r@[r@.len() - 1] == (cx as usize, cy as usize, self@.cells[cy][cx]));
                        }
                    }
                }
                x = x + 1;
            }
            y = y + 1;
        }
        r
    }
}

} // verus!
