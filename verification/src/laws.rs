//! Library-wide laws, stated once and proved from the public
//! specifications.

use vstd::prelude::*;
use crate::tiles::{flip_spec, RelativeDirection, TileType};
use crate::grid::{cell_at, in_bounds, Grid};
use crate::valid::{grid_valid, singleton_unconstrained, tile_ok_at};

verus! {

/// Flipping a direction twice gives the direction back.
pub proof fn flip_is_involutive(d: RelativeDirection)
    ensures
        flip_spec(flip_spec(d)) == d,
{
}

/// With a catalog of exactly one tile type carrying no rule, every valid
/// grid assigns that one tile to every cell.  Together with the
/// postconditions of `TileSystem::try_gen` and `TileSystem::gen_retry` —
/// which promise a valid grid, and promise success for such a catalog —
/// generation on any grid size succeeds and fills every cell with that
/// tile.
pub proof fn singleton_catalog_fills_uniformly(
    cat: Seq<TileType>,
    cells: Seq<Option<usize>>,
    w: int,
    h: int,
)
    requires
        singleton_unconstrained(cat),
        grid_valid(cat, cells, w, h),
    ensures
        forall|x: int, y: int|
            in_bounds(w, h, x, y) ==> #[trigger] cell_at(cells, w, x, y) == Some(0usize),
{
    assert forall|x: int, y: int| in_bounds(w, h, x, y) implies #[trigger] cell_at(cells, w, x, y)
        == Some(0usize) by {
        assert(tile_ok_at(cat, cells, w, h, x, y));
        assert(cell_at(cells, w, x, y) is Some);
        assert(cell_at(cells, w, x, y)->0 < 1);
    }
}

/// A catalog that no grid of the requested size can satisfy generates
/// nothing: any result that meets the generator's contract — a returned
/// grid always satisfies `grid_valid` — must be `None`.
pub proof fn unsatisfiable_catalog_generates_nothing(
    cat: Seq<TileType>,
    w: int,
    h: int,
    r: Option<Grid>,
)
    requires
        forall|cells: Seq<Option<usize>>| !grid_valid(cat, cells, w, h),
        r matches Some(g) ==> grid_valid(cat, g@, w, h),
    ensures
        r is None,
{
}

} // verus!
