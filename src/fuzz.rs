//! Random perturbation of a grid: each cell flips with a given chance.
//!
//! A chance is given in parts per million: `0` never flips a cell,
//! `FUZZ_SCALE` flips every cell.

use vstd::prelude::*;
use rand::rngs::StdRng;
use rand::Rng;
use crate::grid::{Grid, grid_height, grid_width, in_bounds, is_grid};

verus! {

/// The chance that flips every cell, in parts per million.
pub const FUZZ_SCALE: u32 = 1_000_000;

/// rand's seedable standard generator, carried through as an opaque value.
#[verifier::external_type_specification]
#[verifier::external_body]
pub struct ExStdRng(StdRng);

/// The position of cell `(x, y)` in a sequence laid out row by row.
pub open spec fn cell_index(width: int, x: int, y: int) -> int {
    y * width + x
}

/// The grid after perturbation: cell `(x, y)` flips exactly when its draw,
/// the one at `cell_index`, is below `chance`.
pub open spec fn fuzzed(v: Seq<Seq<bool>>, chance: int, draws: Seq<u32>) -> Seq<Seq<bool>> {
    Seq::new(
        grid_height(v) as nat,
        |y: int| Seq::new(
            grid_width(v) as nat,
            |x: int| if (draws[cell_index(grid_width(v), x, y)] as int) < chance { !v[y][x] } else { v[y][x] },
        ),
    )
}

/// The grid with every cell flipped.
pub open spec fn flipped(v: Seq<Seq<bool>>) -> Seq<Seq<bool>> {
    Seq::new(grid_height(v) as nat, |y: int| Seq::new(grid_width(v) as nat, |x: int| !v[y][x]))
}

/// A sequence of draws, one per cell, each below `FUZZ_SCALE`.
pub open spec fn valid_draws(v: Seq<Seq<bool>>, draws: Seq<u32>) -> bool {
    &&& draws.len() == grid_width(v) * grid_height(v)
    &&& forall|i: int| 0 <= i < draws.len() ==> (#[trigger] draws[i]) < FUZZ_SCALE
}

/// Every in-bounds cell has its own draw.
pub proof fn lemma_cell_index_bounds(width: int, height: int, x: int, y: int)
    requires
        0 <= x < width,
        0 <= y < height,
    ensures
        0 <= cell_index(width, x, y) < width * height,
{
    assert(0 <= y * width + x < width * height) by (nonlinear_arith)
        requires 0 <= x < width, 0 <= y < height;
}

/// With a chance of zero no cell flips, whatever was drawn.
pub proof fn lemma_zero_chance_keeps_grid(v: Seq<Seq<bool>>, draws: Seq<u32>)
    requires
        is_grid(v),
    ensures
        fuzzed(v, 0, draws) == v,
{
    assert forall|y: int| 0 <= y < grid_height(v) implies #[trigger] fuzzed(v, 0, draws)[y] =~= v[y] by {}
    assert(fuzzed(v, 0, draws) =~= v);
}

/// With the full chance every cell flips exactly once, whatever was drawn.
pub proof fn lemma_full_chance_flips_all(v: Seq<Seq<bool>>, draws: Seq<u32>)
    requires
        is_grid(v),
        valid_draws(v, draws),
    ensures
        fuzzed(v, FUZZ_SCALE as int, draws) == flipped(v),
{
    let w = grid_width(v);
    let h = grid_height(v);
    assert forall|y: int| 0 <= y < h implies #[trigger] fuzzed(v, FUZZ_SCALE as int, draws)[y] =~= flipped(v)[y] by {
        assert forall|x: int| 0 <= x < w implies #[trigger] fuzzed(v, FUZZ_SCALE as int, draws)[y][x] == flipped(v)[y][x] by {
            lemma_cell_index_bounds(w, h, x, y);
        }
    }
    assert(fuzzed(v, FUZZ_SCALE as int, draws) =~= flipped(v));
}

/// Relies on rand's `Rng::gen_range` for a value drawn from `0..bound`,
/// which lies below `bound`; the call panics on an empty range, which
/// `requires` leaves out.
#[verifier::external_body]
fn draw_below(rng: &mut StdRng, bound: u32) -> (r: u32)
    requires
        bound > 0,
    ensures
        r < bound,
{
    rng.gen_range(0..bound)
}

/// Flips each cell whose draw is below `chance`; `draws` holds one value per
/// cell, row by row.
pub fn apply_fuzz(grid: &mut Grid, chance: u32, draws: &Vec<u32>)
    requires
        old(grid).wf(),
        draws@.len() == grid_width(old(grid)@) * grid_height(old(grid)@),
    ensures
        final(grid).wf(),
        grid_width(final(grid)@) == grid_width(old(grid)@),
        grid_height(final(grid)@) == grid_height(old(grid)@),
        final(grid)@ == fuzzed(old(grid)@, chance as int, draws@),
{
    let w = grid.width();
    let h = grid.height();
    let ghost start = grid@;
    let total = draws.len();
    let mut i: usize = 0;
    let mut y: usize = 0;
    while y < h
        invariant
            grid.wf(),
            is_grid(start),
            w == grid_width(start),
            h == grid_height(start),
            grid_width(grid@) == w,
            grid_height(grid@) == h,
            draws@.len() == w * h,
            total == draws@.len(),
            y <= h,
            i == y * w,
            forall|cx: int, cy: int| in_bounds(start, cx, cy) ==> #[trigger] grid@[cy][cx] == if cy < y {
                fuzzed(start, chance as int, draws@)[cy][cx]
            } else {
                start[cy][cx]
            },
        decreases h - y,
    {
        let mut x: usize = 0;
        while x < w
            invariant
                grid.wf(),
                is_grid(start),
                w == grid_width(start),
                h == grid_height(start),
                grid_width(grid@) == w,
                grid_height(grid@) == h,
                draws@.len() == w * h,
                total == draws@.len(),
                y < h,
                x <= w,
                i == y * w + x,
                forall|cx: int, cy: int| in_bounds(start, cx, cy) ==> #[trigger] grid@[cy][cx] == if cy < y || (cy == y && cx < x) {
                    fuzzed(start, chance as int, draws@)[cy][cx]
                } else {
                    start[cy][cx]
                },
            decreases w - x,
        {
            proof { lemma_cell_index_bounds(w as int, h as int, x as int, y as int); }
            if draws[i] < chance {
                let alive = grid.get(x, y);
                grid.set(x, y, !alive);
            }
            i = i + 1;
            x = x + 1;
        }
        proof {
            assert(y * w + w == (y + 1) * w) by (nonlinear_arith);
        }
        y = y + 1;
    }
    proof {
        assert(grid@ =~= fuzzed(start, chance as int, draws@)) by {
            assert forall|cy: int| 0 <= cy < h implies #[trigger] grid@[cy] =~= fuzzed(start, chance as int, draws@)[cy] by {
                assert forall|cx: int| 0 <= cx < w implies #[trigger] grid@[cy][cx] == fuzzed(start, chance as int, draws@)[cy][cx] by {
                    assert(in_bounds(start, cx, cy));
                }
            }
        }
    }
}

/// Flips each cell independently with probability `chance / FUZZ_SCALE`,
/// drawing one value per cell, row by row, from `rng`.
pub fn fuzz(grid: &mut Grid, chance: u32, rng: &mut StdRng)
    requires
        old(grid).wf(),
        chance <= FUZZ_SCALE,
    ensures
        final(grid).wf(),
        grid_width(final(grid)@) == grid_width(old(grid)@),
        grid_height(final(grid)@) == grid_height(old(grid)@),
        exists|draws: Seq<u32>| valid_draws(old(grid)@, draws)
            && final(grid)@ == fuzzed(old(grid)@, chance as int, draws),
        chance == 0 ==> final(grid)@ == old(grid)@,
        chance == FUZZ_SCALE ==> final(grid)@ == flipped(old(grid)@),
{
    let w = grid.width();
    let h = grid.height();
    let mut draws: Vec<u32> = Vec::new();
    let mut y: usize = 0;
    while y < h
        invariant
            y <= h,
            draws@.len() == y * w,
            forall|i: int| 0 <= i < draws@.len() ==> (#[trigger] draws@[i]) < FUZZ_SCALE,
        decreases h - y,
    {
        let mut x: usize = 0;
        while x < w
            invariant
                y < h,
                x <= w,
                draws@.len() == y * w + x,
                forall|i: int| 0 <= i < draws@.len() ==> (#[trigger] draws@[i]) < FUZZ_SCALE,
            decreases w - x,
        {
            let d = draw_below(rng, FUZZ_SCALE);
            draws.push(d);
            x = x + 1;
        }
        proof {
            assert(y * w + w == (y + 1) * w) by (nonlinear_arith);
        }
        y = y + 1;
    }
    proof {
        assert(h * w == w * h) by (nonlinear_arith);
        lemma_zero_chance_keeps_grid(grid@, draws@);
        lemma_full_chance_flips_all(grid@, draws@);
    }
    apply_fuzz(grid, chance, &draws);
}

} // verus!
