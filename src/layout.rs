//! Integer layouts of atlas regions: grid slicing and explicit patches.
use vstd::prelude::*;

verus! {

/// A rectangle inside a source image, in pixels; `max` is exclusive.
#[derive(Clone, Copy, Debug, PartialEq, Eq, Structural)]
pub struct Region {
    pub min_x: usize,
    pub min_y: usize,
    pub max_x: usize,
    pub max_y: usize,
}

/// The regions of one atlas, in index order, and the size of the surface they are cut from.
#[derive(Debug)]
pub struct AtlasLayout {
    pub size: (usize, usize),
    pub regions: Vec<Region>,
}

/// `r` is the rectangle with top-left corner `(x, y)` and extent `w` by `h`.
pub open spec fn region_is(r: Region, x: int, y: int, w: int, h: int) -> bool {
    &&& r.min_x == x
    &&& r.min_y == y
    &&& r.max_x == x + w
    &&& r.max_y == y + h
}

/// Length covered by `n` cells of length `tile` with `gap` between neighbours.
pub open spec fn span(n: int, tile: int, gap: int) -> int {
    if n <= 0 {
        0
    } else {
        (n - 1) * (tile + gap) + tile
    }
}

/// The padding of a grid recipe; none means no space between cells.
pub open spec fn padding_of(padding: Option<(usize, usize)>) -> (usize, usize) {
    match padding {
        Some(p) => p,
        None => (0, 0),
    }
}

/// Index of the cell in column `c` and row `r` of a grid `columns` wide (row-major).
pub open spec fn grid_index(columns: int, r: int, c: int) -> int {
    r * columns + c
}

/// Every coordinate of the grid, and its cell count, fit in a `usize`.
pub open spec fn grid_fits(
    columns: usize,
    rows: usize,
    tile: (usize, usize),
    pad: (usize, usize),
) -> bool {
    &&& columns * rows <= usize::MAX
    &&& span(columns as int, tile.0 as int, pad.0 as int) <= usize::MAX
    &&& span(rows as int, tile.1 as int, pad.1 as int) <= usize::MAX
}

/// `l` slices a grid of `columns` by `rows` cells of size `tile`, with `pad` between cells:
/// cell `(c, r)` starts at `(c * (tile.0 + pad.0), r * (tile.1 + pad.1))`.
pub open spec fn is_grid_layout(
    l: AtlasLayout,
    columns: usize,
    rows: usize,
    tile: (usize, usize),
    pad: (usize, usize),
) -> bool {
    &&& l.size.0 == span(columns as int, tile.0 as int, pad.0 as int)
    &&& l.size.1 == span(rows as int, tile.1 as int, pad.1 as int)
    &&& l.regions@.len() == columns * rows
    &&& forall|r: int, c: int|
        0 <= r < rows && 0 <= c < columns ==> region_is(
            #[trigger] l.regions@[grid_index(columns as int, r, c)],
            c * (tile.0 + pad.0),
            r * (tile.1 + pad.1),
            tile.0 as int,
            tile.1 as int,
        )
}

/// No patch reaches past `usize::MAX`.
pub open spec fn patches_fit(width: usize, height: usize, positions: Seq<(usize, usize)>) -> bool {
    forall|i: int|
        0 <= i < positions.len() ==> #[trigger] positions[i].0 + width <= usize::MAX
            && positions[i].1 + height <= usize::MAX
}

/// `l` has one region per position, in order, each `width` by `height`;
/// its surface is one patch large.
pub open spec fn is_patch_layout(
    l: AtlasLayout,
    width: usize,
    height: usize,
    positions: Seq<(usize, usize)>,
) -> bool {
    &&& l.size == (width, height)
    &&& l.regions@.len() == positions.len()
    &&& forall|i: int|
        0 <= i < positions.len() ==> region_is(
            #[trigger] l.regions@[i],
            positions[i].0 as int,
            positions[i].1 as int,
            width as int,
            height as int,
        )
}

fn checked_span(n: usize, tile: usize, gap: usize) -> (r: Option<usize>)
    ensures
        r.is_some() == (span(n as int, tile as int, gap as int) <= usize::MAX),
        r matches Some(v) ==> v == span(n as int, tile as int, gap as int),
{
    if n == 0 {
        Some(0)
    } else if n == 1 {
        Some(tile)
    } else {
        proof {
            assert((n - 1) * (tile + gap) >= tile + gap) by (nonlinear_arith)
                requires
                    n >= 2,
            ;
        }
        match tile.checked_add(gap) {
            None => None,
            Some(step) => match (n - 1).checked_mul(step) {
                None => None,
                Some(m) => m.checked_add(tile),
            },
        }
    }
}

/// Cuts a grid of `columns` by `rows` cells of `tile_size` out of an image, with `padding`
/// between cells; `None` when a coordinate would not fit in a `usize`.
pub fn grid_layout(
    columns: usize,
    rows: usize,
    tile_size: (usize, usize),
    padding: Option<(usize, usize)>,
) -> (res: Option<AtlasLayout>)
    ensures
        res.is_some() == grid_fits(columns, rows, tile_size, padding_of(padding)),
        res matches Some(l) ==> is_grid_layout(l, columns, rows, tile_size, padding_of(padding)),
{
    let pad = match padding {
        Some(p) => p,
        None => (0, 0),
    };
    let width = match checked_span(columns, tile_size.0, pad.0) {
        Some(w) => w,
        None => return None,
    };
    let height = match checked_span(rows, tile_size.1, pad.1) {
        Some(h) => h,
        None => return None,
    };
    let count = match columns.checked_mul(rows) {
        Some(n) => n,
        None => return None,
    };
    let ghost tw = tile_size.0 as int;
    let ghost th = tile_size.1 as int;
    let ghost sx: int = tile_size.0 + pad.0;
    let ghost sy: int = tile_size.1 + pad.1;
    let mut regions: Vec<Region> = Vec::new();
    let mut r: usize = 0;
    while r < rows
        invariant
            r <= rows,
            tw == tile_size.0,
            th == tile_size.1,
            sx == tile_size.0 + pad.0,
            sy == tile_size.1 + pad.1,
            count == columns * rows,
            width == span(columns as int, tw, pad.0 as int),
            height == span(rows as int, th, pad.1 as int),
            regions@.len() == r * columns,
            forall|r2: int, c2: int|
                0 <= r2 < r && 0 <= c2 < columns ==> region_is(
                    #[trigger] regions@[grid_index(columns as int, r2, c2)],
                    c2 * sx,
                    r2 * sy,
                    tw,
                    th,
                ),
        decreases rows - r,
    {
        proof {
            assert(r * sy + th <= (rows - 1) * sy + th) by (nonlinear_arith)
                requires
                    r < rows,
                    sy >= 0,
            ;
        }
        let y: usize = if r == 0 {
            0
        } else {
            proof {
                assert(sy <= r * sy) by (nonlinear_arith)
                    requires
                        r >= 1,
                        sy >= 0,
                ;
                assert(sy <= (rows - 1) * sy) by (nonlinear_arith)
                    requires
                        rows >= 2,
                        sy >= 0,
                ;
            }
            r * (tile_size.1 + pad.1)
        };
        let mut c: usize = 0;
        while c < columns
            invariant
                r < rows,
                c <= columns,
                tw == tile_size.0,
                th == tile_size.1,
                sx == tile_size.0 + pad.0,
                sy == tile_size.1 + pad.1,
                y == r * sy,
                y + th <= usize::MAX,
                width == span(columns as int, tw, pad.0 as int),
                regions@.len() == r * columns + c,
                forall|r2: int, c2: int|
                    (0 <= r2 < r && 0 <= c2 < columns) || (r2 == r && 0 <= c2 < c) ==> region_is(
                        #[trigger] regions@[grid_index(columns as int, r2, c2)],
                        c2 * sx,
                        r2 * sy,
                        tw,
                        th,
                    ),
            decreases columns - c,
        {
            proof {
                assert(c * sx + tw <= (columns - 1) * sx + tw) by (nonlinear_arith)
                    requires
                        c < columns,
                        sx >= 0,
                ;
            }
            let x: usize = if c == 0 {
                0
            } else {
                proof {
                    assert(sx <= c * sx) by (nonlinear_arith)
                        requires
                            c >= 1,
                            sx >= 0,
                    ;
                    assert(sx <= (columns - 1) * sx) by (nonlinear_arith)
                        requires
                            columns >= 2,
                            sx >= 0,
                    ;
                }
                c * (tile_size.0 + pad.0)
            };
            let ghost before = regions@;
            regions.push(Region { min_x: x, min_y: y, max_x: x + tile_size.0, max_y: y + tile_size.1 });
            proof {
                assert(grid_index(columns as int, r as int, c as int) == r * columns + c);
                assert forall|r2: int, c2: int|
                    (0 <= r2 < r && 0 <= c2 < columns) || (r2 == r && 0 <= c2 < c + 1) implies region_is(
                        #[trigger] regions@[grid_index(columns as int, r2, c2)],
                        c2 * sx,
                        r2 * sy,
                        tw,
                        th,
                    ) by {
                    if r2 == r && c2 == c {
                    } else {
                        assert(grid_index(columns as int, r2, c2) < r * columns + c) by (nonlinear_arith)
                            requires
                                (0 <= r2 < r && 0 <= c2 < columns) || (r2 == r && 0 <= c2 < c),
                        ;
                        assert(regions@[grid_index(columns as int, r2, c2)] == before[grid_index(
                            columns as int,
                            r2,
                            c2,
                        )]);
                    }
                }
            }
            c = c + 1;
        }
        proof {
            assert(r * columns + columns == (r + 1) * columns) by (nonlinear_arith);
        }
        r = r + 1;
    }
    proof {
        assert(regions@.len() == columns * rows) by (nonlinear_arith)
            requires
                regions@.len() == r * columns,
                r == rows,
        ;
    }
    Some(AtlasLayout { size: (width, height), regions })
}

/// Places a `width` by `height` region at each position, in order; `None` when a patch would
/// reach past `usize::MAX`.
pub fn patch_layout(width: usize, height: usize, positions: &Vec<(usize, usize)>) -> (res: Option<
    AtlasLayout,
>)
    ensures
        res.is_some() == patches_fit(width, height, positions@),
        res matches Some(l) ==> is_patch_layout(l, width, height, positions@),
{
    let mut regions: Vec<Region> = Vec::new();
    let mut i: usize = 0;
    while i < positions.len()
        invariant
            i <= positions@.len(),
            regions@.len() == i,
            forall|j: int|
                0 <= j < i ==> #[trigger] positions@[j].0 + width <= usize::MAX
                    && positions@[j].1 + height <= usize::MAX,
            forall|j: int|
                0 <= j < i ==> region_is(
                    #[trigger] regions@[j],
                    positions@[j].0 as int,
                    positions@[j].1 as int,
                    width as int,
                    height as int,
                ),
        decreases positions@.len() - i,
    {
        let (x, y) = positions[i];
        let right = match x.checked_add(width) {
            Some(v) => v,
            None => return None,
        };
        let bottom = match y.checked_add(height) {
            Some(v) => v,
            None => return None,
        };
        regions.push(Region { min_x: x, min_y: y, max_x: right, max_y: bottom });
        i = i + 1;
    }
    Some(AtlasLayout { size: (width, height), regions })
}

} // verus!
