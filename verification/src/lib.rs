//! A procedural tilemap generator.
//!
//! A catalog of named tile types, each carrying adjacency rules ("must be" /
//! "must not be" a named tile in a given relative direction), is used to fill
//! a rectangular grid with tile assignments that satisfy every rule, or to
//! report failure.
//!
//! Orientation convention: the cell (0, 0) is the first column of the first
//! row, `UP` increases the y coordinate and `RIGHT` increases the x
//! coordinate.  Callers decide visually whether y = 0 is the top or the
//! bottom row; the two are mirror images.
//!
//! Every grid that generation returns is total and consistent: each
//! in-bounds cell holds a catalog tile, each `must` rule of each placed
//! tile is met by its actual neighbor, and no `must_not` rule is broken
//! (`grid_valid`).  The search itself is a bounded backtracking pass and
//! is not complete: a satisfiable catalog may still exhaust its attempt
//! budget, but an unsatisfiable one can never produce a grid.
//!
//! A rule may name a tile that is never registered; such a rule simply
//! cannot be satisfied there.  `TileSystem::validate_references` is the
//! fail-fast check for catalogs that prefer to reject this outright.

mod tiles;
mod grid;
mod valid;
mod eval;
mod system;
mod laws;

pub use tiles::RelativeDirection;
pub use tiles::Requirement;
pub use tiles::TileType;
pub use tiles::flip_spec;
pub use grid::Grid;
pub use grid::cell_at;
pub use grid::dest_x;
pub use grid::dest_y;
pub use grid::in_bounds;
pub use valid::grid_valid;
pub use valid::tile_ok_at;
pub use valid::must_satisfied;
pub use valid::must_not_respected;
pub use valid::singleton_unconstrained;
pub use system::TileSystem;
pub use system::UnknownTileReference;
pub use system::references_resolved;
pub use system::tile_references_resolved;
pub use eval::name_index;
pub use laws::flip_is_involutive;
pub use laws::singleton_catalog_fills_uniformly;
pub use laws::unsatisfiable_catalog_generates_nothing;
