//! Loading a pattern file's text into a fresh grid.
//!
//! The format follows the file name: `.txt` is a coordinate list, `.rle` is
//! run-length encoded with rows starting at `(RLE_START_X, RLE_START_Y)`, and
//! any other name gives an empty pattern.

use vstd::prelude::*;
use crate::coords::{coordinate_list, parse_coordinate_list};
use crate::grid::{Grid, dead_grid, grid_height, grid_of, grid_width, in_bounds};
use crate::rle::{load_rle, rle_pattern};

verus! {

pub const RLE_START_X: usize = 50;

pub const RLE_START_Y: usize = 50;

/// Why a pattern could not be placed on the grid.
#[derive(Debug, Clone, Copy, PartialEq, Eq, Structural)]
pub enum LoadError {
    /// A live cell of the pattern lies outside the grid.
    OutOfBounds,
}

#[derive(Debug, Clone, Copy, PartialEq, Eq, Structural)]
pub enum PatternFormat {
    CoordinateList,
    RunLengthEncoded,
}

pub open spec fn ends_with(s: Seq<u8>, suffix: Seq<u8>) -> bool {
    s.len() >= suffix.len() && s.subrange(s.len() - suffix.len(), s.len() as int) == suffix
}

/// `.txt`
pub open spec fn txt_suffix() -> Seq<u8> {
    seq![46u8, 116u8, 120u8, 116u8]
}

/// `.rle`
pub open spec fn rle_suffix() -> Seq<u8> {
    seq![46u8, 114u8, 108u8, 101u8]
}

pub open spec fn path_format(path: Seq<u8>) -> Option<PatternFormat> {
    if ends_with(path, txt_suffix()) {
        Some(PatternFormat::CoordinateList)
    } else if ends_with(path, rle_suffix()) {
        Some(PatternFormat::RunLengthEncoded)
    } else {
        None
    }
}

/// Every coordinate lies inside a `width` by `height` grid.
pub open spec fn all_in_grid(cs: Seq<(int, int)>, width: int, height: int) -> bool {
    forall|k: int| 0 <= k < cs.len() ==> 0 <= (#[trigger] cs[k]).0 < width && 0 <= cs[k].1 < height
}

pub open spec fn coordinate_set(cs: Seq<(int, int)>) -> Set<(int, int)> {
    Set::new(|p: (int, int)| cs.contains(p))
}

/// The grid that a pattern file gives, or `None` where a live cell falls
/// outside it.
pub open spec fn loaded_pattern(path: Seq<u8>, content: Seq<u8>, width: int, height: int) -> Option<Seq<Seq<bool>>> {
    match path_format(path) {
        Some(PatternFormat::CoordinateList) => {
            let cs = coordinate_list(content);
            if all_in_grid(cs, width, height) {
                Some(grid_of(coordinate_set(cs), width as nat, height as nat))
            } else {
                None
            }
        },
        Some(PatternFormat::RunLengthEncoded) => {
            let st = rle_pattern(content, RLE_START_X as int, RLE_START_Y as int, width, height);
            if st.fits {
                Some(grid_of(st.live, width as nat, height as nat))
            } else {
                None
            }
        },
        None => Some(dead_grid(width as nat, height as nat)),
    }
}

fn has_suffix(path: &[u8], a: u8, b: u8, c: u8, d: u8) -> (r: bool)
    ensures
        r == ends_with(path@, seq![a, b, c, d]),
{
    let n = path.len();
    if n < 4 {
        return false;
    }
    let r = path[n - 4] == a && path[n - 3] == b && path[n - 2] == c && path[n - 1] == d;
    proof {
        let tail = path@.subrange(n - 4, n as int);
        if r {
            assert(tail =~= seq![a, b, c, d]);
        } else {
            assert(tail[0] != a || tail[1] != b || tail[2] != c || tail[3] != d);
        }
    }
    r
}

/// The format that a file name calls for, if any.
pub fn format_for_path(path: &[u8]) -> (r: Option<PatternFormat>)
    ensures
        r == path_format(path@),
{
    if has_suffix(path, 46, 116, 120, 116) {
        Some(PatternFormat::CoordinateList)
    } else if has_suffix(path, 46, 114, 108, 101) {
        Some(PatternFormat::RunLengthEncoded)
    } else {
        None
    }
}

/// Reads a coordinate list onto a fresh `width` by `height` grid. Fails when
/// a coordinate lies outside the grid.
pub fn load_coordinate_list(content: &[u8], width: usize, height: usize) -> (r: Result<Grid, LoadError>)
    requires
        width >= 1,
        height >= 1,
    ensures
        ({
            let cs = coordinate_list(content@);
            match r {
                Ok(g) => all_in_grid(cs, width as int, height as int) && g.wf()
                    && g@ == grid_of(coordinate_set(cs), width as nat, height as nat),
                Err(e) => !all_in_grid(cs, width as int, height as int) && e == LoadError::OutOfBounds,
            }
        }),
{
    let coords = parse_coordinate_list(content);
    let ghost cs = coordinate_list(content@);
    let mut grid = Grid::new(width, height);
    let mut k: usize = 0;
    while k < coords.len()
        invariant
            cs == coordinate_list(content@),
            cs == coords@.map_values(|p: (i32, i32)| (p.0 as int, p.1 as int)),
            k <= coords@.len(),
            grid.wf(),
            grid_width(grid@) == width,
            grid_height(grid@) == height,
            forall|j: int| 0 <= j < k ==> 0 <= (#[trigger] cs[j]).0 < width && 0 <= cs[j].1 < height,
            forall|cx: int, cy: int| in_bounds(grid@, cx, cy) ==> (#[trigger] grid@[cy][cx] <==> exists|j: int|
                0 <= j < k && #[trigger] cs[j] == (cx, cy)),
        decreases coords@.len() - k,
    {
        let (x, y) = coords[k];
        assert(cs[k as int] == (x as int, y as int));
        if x < 0 || y < 0 || x as usize >= width || y as usize >= height {
            assert(!(0 <= cs[k as int].0 < width && 0 <= cs[k as int].1 < height));
            return Err(LoadError::OutOfBounds);
        }
        let ghost before = grid@;
        grid.set(x as usize, y as usize, true);
        proof {
            assert forall|cx: int, cy: int| in_bounds(grid@, cx, cy) implies (#[trigger] grid@[cy][cx] <==> exists|j: int|
                0 <= j < k + 1 && #[trigger] cs[j] == (cx, cy)) by {
                if cx == x && cy == y {
                    assert(cs[k as int] == (cx, cy));
                } else {
                    assert(grid@[cy][cx] == before[cy][cx]);
                    if exists|j: int| 0 <= j < k + 1 && #[trigger] cs[j] == (cx, cy) {
                        let j = choose|j: int| 0 <= j < k + 1 && #[trigger] cs[j] == (cx, cy);
                        assert(j != k);
                    }
                }
            }
        }
        k = k + 1;
    }
    proof {
        assert(grid@ =~= grid_of(coordinate_set(cs), width as nat, height as nat)) by {
            assert forall|cy: int| 0 <= cy < height implies #[trigger] grid@[cy] =~= grid_of(coordinate_set(cs), width as nat, height as nat)[cy] by {
                assert forall|cx: int| 0 <= cx < width implies #[trigger] grid@[cy][cx] == grid_of(coordinate_set(cs), width as nat, height as nat)[cy][cx] by {
                    assert(in_bounds(grid@, cx, cy));
                    if grid@[cy][cx] {
                        let j = choose|j: int| 0 <= j < k && #[trigger] cs[j] == (cx, cy);
                        assert(cs.contains((cx, cy)));
                    }
                    if cs.contains((cx, cy)) {
                        let j = choose|j: int| 0 <= j < cs.len() && #[trigger] cs[j] == (cx, cy);
                    }
                }
            }
        }
    }
    Ok(grid)
}

/// Reads a pattern file's text onto a fresh `width` by `height` grid, in the
/// format that `path` calls for.
pub fn load_pattern(path: &[u8], content: &[u8], width: usize, height: usize) -> (r: Result<Grid, LoadError>)
    requires
        width >= 1,
        height >= 1,
    ensures
        match r {
            Ok(g) => g.wf() && loaded_pattern(path@, content@, width as int, height as int) == Some(g@),
            Err(e) => loaded_pattern(path@, content@, width as int, height as int).is_none() && e == LoadError::OutOfBounds,
        },
{
    match format_for_path(path) {
        Some(PatternFormat::CoordinateList) => load_coordinate_list(content, width, height),
        Some(PatternFormat::RunLengthEncoded) => load_rle(content, RLE_START_X, RLE_START_Y, width, height),
        None => Ok(Grid::new(width, height)),
    }
}

} // verus!
