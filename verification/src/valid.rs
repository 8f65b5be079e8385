//! What it means for a generated grid to satisfy a catalog.
//!
//! `grid_valid` is the full-grid consistency statement: every in-bounds
//! cell is assigned a catalog tile, every `must` rule of that tile is met
//! by the actual neighbor (which in particular must be on the grid), and no
//! `must_not` rule is broken by the actual neighbor.  `check_grid` decides
//! the statement at run time; generation only hands out grids that pass
//! it.

use vstd::prelude::*;
use crate::tiles::{Requirement, TileType};
use crate::grid::{cell_at, dest_x, dest_y, get_neighbor, in_bounds, lemma_rowmajor_in_range};

verus! {

/// The rule `req`, carried by the tile at `(x, y)`, is met: its direction
/// stays on the grid, the neighbor there is assigned, and the neighbor's
/// tile bears the demanded name.
pub open spec fn must_satisfied(
    cat: Seq<TileType>,
    cells: Seq<Option<usize>>,
    w: int,
    h: int,
    x: int,
    y: int,
    req: Requirement,
) -> bool {
    let nx = dest_x(req.dir, x);
    let ny = dest_y(req.dir, y);
    &&& in_bounds(w, h, nx, ny)
    &&& cell_at(cells, w, nx, ny) is Some
    &&& cell_at(cells, w, nx, ny)->0 < cat.len()
    &&& cat[cell_at(cells, w, nx, ny)->0 as int].name@ == req.tile@
}

/// The rule `req`, carried by the tile at `(x, y)`, is not broken: the
/// neighbor in its direction, if on the grid and assigned, does not bear
/// the forbidden name.
pub open spec fn must_not_respected(
    cat: Seq<TileType>,
    cells: Seq<Option<usize>>,
    w: int,
    h: int,
    x: int,
    y: int,
    req: Requirement,
) -> bool {
    let nx = dest_x(req.dir, x);
    let ny = dest_y(req.dir, y);
    in_bounds(w, h, nx, ny) && cell_at(cells, w, nx, ny) is Some && cell_at(cells, w, nx, ny)->0
        < cat.len() ==> cat[cell_at(cells, w, nx, ny)->0 as int].name@ != req.tile@
}

/// The cell `(x, y)` is assigned a catalog tile all of whose rules hold.
pub open spec fn tile_ok_at(
    cat: Seq<TileType>,
    cells: Seq<Option<usize>>,
    w: int,
    h: int,
    x: int,
    y: int,
) -> bool {
    &&& cell_at(cells, w, x, y) is Some
    &&& cell_at(cells, w, x, y)->0 < cat.len()
    &&& forall|k: int|
        0 <= k < cat[cell_at(cells, w, x, y)->0 as int].must@.len()
            ==> must_satisfied(
                cat,
                cells,
                w,
                h,
                x,
                y,
                #[trigger] cat[cell_at(cells, w, x, y)->0 as int].must@[k],
            )
    &&& forall|k: int|
        0 <= k < cat[cell_at(cells, w, x, y)->0 as int].must_not@.len()
            ==> must_not_respected(
                cat,
                cells,
                w,
                h,
                x,
                y,
                #[trigger] cat[cell_at(cells, w, x, y)->0 as int].must_not@[k],
            )
}

/// Full-grid consistency against the catalog `cat`: the cell sequence
/// covers the whole `w` by `h` grid and every in-bounds cell satisfies
/// `tile_ok_at`.
pub open spec fn grid_valid(cat: Seq<TileType>, cells: Seq<Option<usize>>, w: int, h: int) -> bool {
    &&& cells.len() == w * h
    &&& forall|x: int, y: int|
        in_bounds(w, h, x, y) ==> #[trigger] tile_ok_at(cat, cells, w, h, x, y)
}

/// The catalog holds exactly one tile type, and it carries no rule at
/// all.
pub open spec fn singleton_unconstrained(cat: Seq<TileType>) -> bool {
    &&& cat.len() == 1
    &&& cat[0].must@.len() == 0
    &&& cat[0].must_not@.len() == 0
}

/// Decide whether every rule of the assigned tile at `(x, y)` holds.
fn tile_ok_exec(
    cat: &Vec<TileType>,
    cells: &Vec<Option<usize>>,
    w: u32,
    h: u32,
    x: u32,
    y: u32,
) -> (b: bool)
    requires
        cells@.len() == w as int * h as int,
        in_bounds(w as int, h as int, x as int, y as int),
    ensures
        b == tile_ok_at(cat@, cells@, w as int, h as int, x as int, y as int),
{
    proof {
        lemma_rowmajor_in_range(w as int, h as int, x as int, y as int);
    }
    let _n: usize = cells.len();
    let here = cells[(y as usize) * (w as usize) + (x as usize)];
    let t: usize = match here {
        Some(t) => t,
        None => {
            return false;
        },
    };
    if t >= cat.len() {
        return false;
    }
    let tile = &cat[t];
    let mut k: usize = 0;
    while k < tile.must.len()
        invariant
            cells@.len() == w as int * h as int,
            in_bounds(w as int, h as int, x as int, y as int),
            k <= tile.must.len(),
            t < cat@.len(),
            tile == &cat@[t as int],
            cell_at(cells@, w as int, x as int, y as int) == Some(t),
            forall|k2: int|
                0 <= k2 < k
                    ==> must_satisfied(
                        cat@,
                        cells@,
                        w as int,
                        h as int,
                        x as int,
                        y as int,
                        #[trigger] tile.must@[k2],
                    ),
        decreases tile.must.len() - k,
    {
        let req = &tile.must[k];
        let nbr = get_neighbor(cells, w, h, x, y, req.dir);
        match nbr {
            Some(j) => {
                if j >= cat.len() || !(cat[j].name == req.tile) {
                    return false;
                }
            },
            None => {
                return false;
            },
        }
        k += 1;
    }
    let mut k: usize = 0;
    while k < tile.must_not.len()
        invariant
            cells@.len() == w as int * h as int,
            in_bounds(w as int, h as int, x as int, y as int),
            k <= tile.must_not.len(),
            t < cat@.len(),
            tile == &cat@[t as int],
            cell_at(cells@, w as int, x as int, y as int) == Some(t),
            forall|k2: int|
                0 <= k2 < k
                    ==> must_not_respected(
                        cat@,
                        cells@,
                        w as int,
                        h as int,
                        x as int,
                        y as int,
                        #[trigger] tile.must_not@[k2],
                    ),
        decreases tile.must_not.len() - k,
    {
        let req = &tile.must_not[k];
        let nbr = get_neighbor(cells, w, h, x, y, req.dir);
        match nbr {
            Some(j) => {
                if j < cat.len() && cat[j].name == req.tile {
                    return false;
                }
            },
            None => {},
        }
        k += 1;
    }
    true
}

/// Decide `grid_valid` for the whole grid.
pub(crate) fn check_grid(cat: &Vec<TileType>, cells: &Vec<Option<usize>>, w: u32, h: u32) -> (b:
    bool)
    requires
        cells@.len() == w as int * h as int,
    ensures
        b == grid_valid(cat@, cells@, w as int, h as int),
{
    let mut y: u32 = 0;
    while y < h
        invariant
            cells@.len() == w as int * h as int,
            y <= h,
            forall|x2: int, y2: int|
                in_bounds(w as int, h as int, x2, y2) && y2 < y
                    ==> #[trigger] tile_ok_at(cat@, cells@, w as int, h as int, x2, y2),
        decreases h - y,
    {
        let mut x: u32 = 0;
        while x < w
            invariant
                cells@.len() == w as int * h as int,
                y < h,
                x <= w,
                forall|x2: int, y2: int|
                    in_bounds(w as int, h as int, x2, y2) && y2 < y
                        ==> #[trigger] tile_ok_at(cat@, cells@, w as int, h as int, x2, y2),
                forall|x2: int|
                    0 <= x2 < x
                        ==> #[trigger] tile_ok_at(cat@, cells@, w as int, h as int, x2, y as int),
            decreases w - x,
        {
            if !tile_ok_exec(cat, cells, w, h, x, y) {
                return false;
            }
            x += 1;
        }
        y += 1;
    }
    true
}

} // verus!
