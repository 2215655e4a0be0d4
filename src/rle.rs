//! The run-length-encoded pattern format.
//!
//! The text is read byte by byte. Decimal digits build a run count (1 when
//! none is given); `b` skips that many cells, `o` makes that many cells live,
//! and `$` moves to the start of the next row. A tag uses up the count. Lines
//! whose first byte is `#` are comments, a new line also drops a pending
//! count, and every other byte is ignored. Rows start at column `start_x`.

use vstd::prelude::*;
use crate::grid::{Grid, fill_cells, filled_row, grid_height, grid_of, grid_width, in_bounds};
use crate::pattern::LoadError;

verus! {

/// The state of the reader after some prefix of the text.
pub struct RleScan {
    pub x: int,
    pub y: int,
    /// The run count read so far, if `has_count`.
    pub count: int,
    pub has_count: bool,
    pub line_start: bool,
    pub comment: bool,
    /// The cells made live so far.
    pub live: Set<(int, int)>,
    /// Every live run so far lies inside the grid.
    pub fits: bool,
}

/// Positions and counts are held up to `usize::MAX`; any position that far
/// out is outside every grid, so nothing depends on where exactly it lies.
pub open spec fn capped(v: int) -> int {
    if v < usize::MAX { v } else { usize::MAX as int }
}

/// The cells of a live run of `len` cells starting at `(x, y)`.
pub open spec fn run_cells(x: int, y: int, len: int) -> Set<(int, int)> {
    Set::new(|p: (int, int)| p.1 == y && x <= p.0 < x + len)
}

pub open spec fn run_length(st: RleScan) -> int {
    if st.has_count { st.count } else { 1 }
}

pub open spec fn rle_start(start_x: int, start_y: int) -> RleScan {
    RleScan {
        x: start_x,
        y: start_y,
        count: 0,
        has_count: false,
        line_start: true,
        comment: false,
        live: Set::empty(),
        fits: true,
    }
}

pub open spec fn rle_step(st: RleScan, c: u8, start_x: int, width: int, height: int) -> RleScan {
    let m = run_length(st);
    if c == 10 {
        RleScan { line_start: true, comment: false, count: 0, has_count: false, ..st }
    } else if st.comment {
        st
    } else if st.line_start && c == 35 {
        RleScan { comment: true, line_start: false, ..st }
    } else if 48 <= c <= 57 {
        RleScan {
            count: if st.has_count { capped(st.count * 10 + (c - 48)) } else { c - 48 },
            has_count: true,
            line_start: false,
            ..st
        }
    } else if c == 98 {
        RleScan { x: capped(st.x + m), count: 0, has_count: false, line_start: false, ..st }
    } else if c == 111 {
        RleScan {
            live: st.live.union(run_cells(st.x, st.y, m)),
            fits: st.fits && (m == 0 || (st.x + m <= width && st.y < height)),
            x: capped(st.x + m),
            count: 0,
            has_count: false,
            line_start: false,
            ..st
        }
    } else if c == 36 {
        RleScan { y: capped(st.y + 1), x: start_x, count: 0, has_count: false, line_start: false, ..st }
    } else {
        RleScan { line_start: false, ..st }
    }
}

/// The reader's state after reading `s` from position `i` on, starting in `st`.
pub open spec fn rle_scan_from(s: Seq<u8>, i: int, st: RleScan, start_x: int, width: int, height: int) -> RleScan
    decreases s.len() - i,
{
    if i >= s.len() {
        st
    } else {
        rle_scan_from(s, i + 1, rle_step(st, s[i], start_x, width, height), start_x, width, height)
    }
}

/// The reader's state at the end of the text.
pub open spec fn rle_pattern(s: Seq<u8>, start_x: int, start_y: int, width: int, height: int) -> RleScan {
    rle_scan_from(s, 0, rle_start(start_x, start_y), start_x, width, height)
}

/// Reads a run-length-encoded pattern onto a fresh `width` by `height` grid,
/// rows starting at `(start_x, start_y)`. Fails when a live cell falls
/// outside the grid.
pub fn load_rle(content: &[u8], start_x: usize, start_y: usize, width: usize, height: usize) -> (r: Result<Grid, LoadError>)
    requires
        width >= 1,
        height >= 1,
    ensures
        ({
            let st = rle_pattern(content@, start_x as int, start_y as int, width as int, height as int);
            match r {
                Ok(g) => st.fits && g.wf() && g@ == grid_of(st.live, width as nat, height as nat),
                Err(e) => !st.fits && e == LoadError::OutOfBounds,
            }
        }),
{
    let mut grid = Grid::new(width, height);
    let ghost sx = start_x as int;
    let ghost w = width as int;
    let ghost h = height as int;
    let mut x: usize = start_x;
    let mut y: usize = start_y;
    let mut count: usize = 0;
    let mut has_count = false;
    let mut line_start = true;
    let mut comment = false;
    let mut fits = true;
    let ghost mut live: Set<(int, int)> = Set::empty();
    let mut i: usize = 0;
    while i < content.len()
        invariant
            i <= content@.len(),
            sx == start_x,
            w == width,
            h == height,
            grid.wf(),
            grid_width(grid@) == width,
            grid_height(grid@) == height,
            rle_scan_from(content@, i as int, RleScan { x: x as int, y: y as int, count: count as int, has_count, line_start, comment, live, fits }, sx, w, h)
                == rle_pattern(content@, start_x as int, start_y as int, w, h),
            fits ==> forall|p: (int, int)| #[trigger] live.contains(p) ==> in_bounds(grid@, p.0, p.1),
            fits ==> forall|cx: int, cy: int| in_bounds(grid@, cx, cy) ==> (#[trigger] grid@[cy][cx] <==> live.contains((cx, cy))),
        decreases content@.len() - i,
    {
        let c = content[i];
        let ghost st0 = RleScan { x: x as int, y: y as int, count: count as int, has_count, line_start, comment, live, fits };
        let m: usize = if has_count { count } else { 1 };
        if c == 10 {
            line_start = true;
            comment = false;
            count = 0;
            has_count = false;
        } else if comment {
        } else if line_start && c == 35 {
            comment = true;
            line_start = false;
        } else if 48 <= c && c <= 57 {
            let d = (c - 48) as usize;
            count = if has_count {
                match count.checked_mul(10) {
                    Some(p) => p.saturating_add(d),
                    None => usize::MAX,
                }
            } else {
                d
            };
            has_count = true;
            line_start = false;
        } else if c == 98 {
            x = x.saturating_add(m);
            count = 0;
            has_count = false;
            line_start = false;
        } else if c == 111 {
            let ghost old_grid = grid@;
            let ghost run = run_cells(x as int, y as int, m as int);
            if m > 0 {
                let fits_here = x <= width && m <= width - x && y < height;
                if fits_here {
                    fill_cells(&mut grid, x, y, m);
                    proof {
                        assert forall|cx: int, cy: int| in_bounds(grid@, cx, cy) implies
                            (#[trigger] grid@[cy][cx] <==> (old_grid[cy][cx] || run.contains((cx, cy)))) by {
                            if cy == y {
                                assert(grid@[cy] == filled_row(old_grid[cy], x as int, m as int));
                            }
                        }
                    }
                } else {
                    fits = false;
                }
            }
            proof {
                live = live.union(run);
            }
            x = x.saturating_add(m);
            count = 0;
            has_count = false;
            line_start = false;
        } else if c == 36 {
            y = y.saturating_add(1);
            x = start_x;
            count = 0;
            has_count = false;
            line_start = false;
        } else {
            line_start = false;
        }
        proof {
            let st1 = RleScan { x: x as int, y: y as int, count: count as int, has_count, line_start, comment, live, fits };
            let expect = rle_step(st0, c, sx, w, h);
            assert(st1 == expect);
        }
        i = i + 1;
    }
    if fits {
        proof {
            assert(grid@ =~= grid_of(live, width as nat, height as nat)) by {
                assert forall|cy: int| 0 <= cy < height implies #[trigger] grid@[cy] =~= grid_of(live, width as nat, height as nat)[cy] by {
                    assert forall|cx: int| 0 <= cx < width implies #[trigger] grid@[cy][cx] == grid_of(live, width as nat, height as nat)[cy][cx] by {
                        assert(in_bounds(grid@, cx, cy));
                    }
                }
            }
        }
        Ok(grid)
    } else {
        Err(LoadError::OutOfBounds)
    }
}

} // verus!
