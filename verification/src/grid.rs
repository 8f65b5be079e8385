//! The generated grid and the spec-level geometry it is stated over.
//!
//! A grid of width `w` and height `h` is a row-major sequence of `w * h`
//! cells; the cell at column `x` of row `y` sits at index `y * w + x`.  An
//! assigned cell holds the index of its tile type in the catalog that
//! generated the grid.

use vstd::prelude::*;
use crate::tiles::RelativeDirection;

verus! {

/// Whether `(x, y)` lies on a grid of width `w` and height `h`.
pub open spec fn in_bounds(w: int, h: int, x: int, y: int) -> bool {
    0 <= x < w && 0 <= y < h
}

/// The column reached by one step from column `x` in direction `d`.
pub open spec fn dest_x(d: RelativeDirection, x: int) -> int {
    match d {
        RelativeDirection::UP => x,
        RelativeDirection::DOWN => x,
        RelativeDirection::LEFT => x - 1,
        RelativeDirection::RIGHT => x + 1,
    }
}

/// The row reached by one step from row `y` in direction `d`.
pub open spec fn dest_y(d: RelativeDirection, y: int) -> int {
    match d {
        RelativeDirection::UP => y + 1,
        RelativeDirection::DOWN => y - 1,
        RelativeDirection::LEFT => y,
        RelativeDirection::RIGHT => y,
    }
}

/// The cell at column `x` of row `y` in a row-major cell sequence of width
/// `w`.
pub open spec fn cell_at(cells: Seq<Option<usize>>, w: int, x: int, y: int) -> Option<usize> {
    cells[y * w + x]
}

/// Every assigned cell holds a catalog index below `n`.
pub open spec fn cells_indices_below(cells: Seq<Option<usize>>, n: int) -> bool {
    forall|i: int| 0 <= i < cells.len() && cells[i] is Some ==> cells[i]->0 < n
}

/// The row-major index of an in-bounds cell lies below `w * h`.
pub proof fn lemma_rowmajor_in_range(w: int, h: int, x: int, y: int)
    requires
        in_bounds(w, h, x, y),
    ensures
        0 <= y * w + x < w * h,
{
    assert(0 <= y * w + x < w * h) by (nonlinear_arith)
        requires 0 <= x < w && 0 <= y < h;
}

/// Distinct in-bounds cells have distinct row-major indices.
pub proof fn lemma_rowmajor_injective(w: int, h: int, x1: int, y1: int, x2: int, y2: int)
    requires
        in_bounds(w, h, x1, y1),
        in_bounds(w, h, x2, y2),
        y1 * w + x1 == y2 * w + x2,
    ensures
        x1 == x2 && y1 == y2,
{
    assert(x1 == x2 && y1 == y2) by (nonlinear_arith)
        requires
            0 <= x1 < w && 0 <= y1 < h,
            0 <= x2 < w && 0 <= y2 < h,
            y1 * w + x1 == y2 * w + x2;
}

/// How many cells of the sequence are unassigned.
pub closed spec fn count_empty(cells: Seq<Option<usize>>) -> nat
    decreases cells.len(),
{
    if cells.len() == 0 {
        0
    } else {
        count_empty(cells.drop_last()) + if cells.last() is None { 1nat } else { 0nat }
    }
}

/// Assigning an unassigned cell lowers the number of unassigned cells by
/// one.
pub proof fn lemma_count_empty_fill(cells: Seq<Option<usize>>, i: int, v: usize)
    requires
        0 <= i < cells.len(),
        cells[i] is None,
    ensures
        count_empty(cells) >= 1,
        count_empty(cells.update(i, Some(v))) == count_empty(cells) - 1,
    decreases cells.len(),
{
    let updated = cells.update(i, Some(v));
    if i == cells.len() - 1 {
        assert(updated.drop_last() =~= cells.drop_last());
    } else {
        assert(updated.drop_last() =~= cells.drop_last().update(i, Some(v)));
        lemma_count_empty_fill(cells.drop_last(), i, v);
    }
}

/// `b` extends `a`: same length, and every cell assigned in `a` is assigned
/// the same way in `b`.
pub open spec fn extends(a: Seq<Option<usize>>, b: Seq<Option<usize>>) -> bool {
    &&& a.len() == b.len()
    &&& forall|i: int| 0 <= i < a.len() && a[i] is Some ==> b[i] == a[i]
}

/// An extension has at most as many unassigned cells.
pub proof fn lemma_count_empty_extends(a: Seq<Option<usize>>, b: Seq<Option<usize>>)
    requires
        extends(a, b),
    ensures
        count_empty(b) <= count_empty(a),
    decreases a.len(),
{
    if a.len() > 0 {
        assert(extends(a.drop_last(), b.drop_last()));
        lemma_count_empty_extends(a.drop_last(), b.drop_last());
        assert(a.last() == a[a.len() - 1]);
        assert(b.last() == b[a.len() - 1]);
    }
}

pub proof fn lemma_extends_trans(a: Seq<Option<usize>>, b: Seq<Option<usize>>, c: Seq<Option<usize>>)
    requires
        extends(a, b),
        extends(b, c),
    ensures
        extends(a, c),
{
}

/// The in-bounds neighbor of `(x, y)` in direction `d` is assigned, or
/// there is no such neighbor.
pub open spec fn dir_filled(
    cells: Seq<Option<usize>>,
    w: int,
    h: int,
    x: int,
    y: int,
    d: RelativeDirection,
) -> bool {
    in_bounds(w, h, dest_x(d, x), dest_y(d, y))
        ==> cell_at(cells, w, dest_x(d, x), dest_y(d, y)) is Some
}

/// Every in-bounds neighbor of `(x, y)` is assigned.
pub open spec fn neighbors_filled(cells: Seq<Option<usize>>, w: int, h: int, x: int, y: int) -> bool {
    &&& dir_filled(cells, w, h, x, y, RelativeDirection::UP)
    &&& dir_filled(cells, w, h, x, y, RelativeDirection::DOWN)
    &&& dir_filled(cells, w, h, x, y, RelativeDirection::LEFT)
    &&& dir_filled(cells, w, h, x, y, RelativeDirection::RIGHT)
}

/// Every cell assigned in `b` but not in `a` has all of its in-bounds
/// neighbors assigned in `b`.
pub open spec fn new_cells_closed(
    a: Seq<Option<usize>>,
    b: Seq<Option<usize>>,
    w: int,
    h: int,
) -> bool {
    forall|x: int, y: int|
        in_bounds(w, h, x, y)
            && #[trigger] cell_at(b, w, x, y) is Some
            && cell_at(a, w, x, y) is None
            ==> neighbors_filled(b, w, h, x, y)
}

/// An assigned in-bounds neighbor stays assigned in an extension.
pub proof fn lemma_dir_filled_extends(
    b: Seq<Option<usize>>,
    c: Seq<Option<usize>>,
    w: int,
    h: int,
    x: int,
    y: int,
    d: RelativeDirection,
)
    requires
        b.len() == w * h,
        extends(b, c),
        dir_filled(b, w, h, x, y, d),
    ensures
        dir_filled(c, w, h, x, y, d),
{
    let nx = dest_x(d, x);
    let ny = dest_y(d, y);
    if in_bounds(w, h, nx, ny) {
        lemma_rowmajor_in_range(w, h, nx, ny);
        assert(cell_at(c, w, nx, ny) == cell_at(b, w, nx, ny));
    }
}

/// All assigned in-bounds neighbors stay assigned in an extension.
pub proof fn lemma_neighbors_filled_extends(
    b: Seq<Option<usize>>,
    c: Seq<Option<usize>>,
    w: int,
    h: int,
    x: int,
    y: int,
)
    requires
        b.len() == w * h,
        extends(b, c),
        neighbors_filled(b, w, h, x, y),
    ensures
        neighbors_filled(c, w, h, x, y),
{
    lemma_dir_filled_extends(b, c, w, h, x, y, RelativeDirection::UP);
    lemma_dir_filled_extends(b, c, w, h, x, y, RelativeDirection::DOWN);
    lemma_dir_filled_extends(b, c, w, h, x, y, RelativeDirection::LEFT);
    lemma_dir_filled_extends(b, c, w, h, x, y, RelativeDirection::RIGHT);
}

/// Closure composes across two extension steps.
pub proof fn lemma_closed_trans(
    a: Seq<Option<usize>>,
    b: Seq<Option<usize>>,
    c: Seq<Option<usize>>,
    w: int,
    h: int,
)
    requires
        a.len() == w * h,
        b.len() == w * h,
        c.len() == w * h,
        extends(b, c),
        new_cells_closed(a, b, w, h),
        new_cells_closed(b, c, w, h),
    ensures
        new_cells_closed(a, c, w, h),
{
    assert forall|x: int, y: int|
        in_bounds(w, h, x, y)
            && #[trigger] cell_at(c, w, x, y) is Some
            && cell_at(a, w, x, y) is None
        implies neighbors_filled(c, w, h, x, y)
    by {
        lemma_rowmajor_in_range(w, h, x, y);
        if cell_at(b, w, x, y) is Some {
            assert(neighbors_filled(b, w, h, x, y));
            lemma_neighbors_filled_extends(b, c, w, h, x, y);
        } else {
            assert(neighbors_filled(c, w, h, x, y));
        }
    }
}

/// In a grid whose first cell is assigned and whose assigned cells all have
/// assigned in-bounds neighbors, every in-bounds cell is assigned.
pub proof fn lemma_closed_grid_complete(
    cells: Seq<Option<usize>>,
    w: int,
    h: int,
    x: int,
    y: int,
)
    requires
        cells.len() == w * h,
        in_bounds(w, h, 0, 0),
        cell_at(cells, w, 0, 0) is Some,
        forall|x2: int, y2: int|
            in_bounds(w, h, x2, y2) && #[trigger] cell_at(cells, w, x2, y2) is Some
                ==> neighbors_filled(cells, w, h, x2, y2),
        in_bounds(w, h, x, y),
    ensures
        cell_at(cells, w, x, y) is Some,
    decreases x + y,
{
    if x > 0 {
        lemma_closed_grid_complete(cells, w, h, x - 1, y);
        assert(neighbors_filled(cells, w, h, x - 1, y));
        assert(dir_filled(cells, w, h, x - 1, y, RelativeDirection::RIGHT));
        assert(dest_x(RelativeDirection::RIGHT, x - 1) == x);
    } else if y > 0 {
        lemma_closed_grid_complete(cells, w, h, x, y - 1);
        assert(neighbors_filled(cells, w, h, x, y - 1));
        assert(dir_filled(cells, w, h, x, y - 1, RelativeDirection::UP));
        assert(dest_y(RelativeDirection::UP, y - 1) == y);
    }
}

/// Whether one step from `(x, y)` in direction `dir` stays on a grid of
/// width `w` and height `h`.
pub(crate) fn trans_is_in_bounds(x: u32, y: u32, dir: RelativeDirection, w: u32, h: u32) -> (b:
    bool)
    ensures
        b == in_bounds(w as int, h as int, dest_x(dir, x as int), dest_y(dir, y as int)),
{
    match dir {
        RelativeDirection::UP => x < w && h > 0 && y < h - 1,
        RelativeDirection::DOWN => x < w && y >= 1 && y - 1 < h,
        RelativeDirection::LEFT => x >= 1 && x - 1 < w && y < h,
        RelativeDirection::RIGHT => w > 0 && x < w - 1 && y < h,
    }
}

/// Read the cell at `(x, y)`; `None` when `(x, y)` is out of bounds or the
/// cell is unassigned.
pub(crate) fn get_tile(cells: &Vec<Option<usize>>, w: u32, h: u32, x: u32, y: u32) -> (r: Option<
    usize>)
    requires
        cells@.len() == w as int * h as int,
    ensures
        in_bounds(w as int, h as int, x as int, y as int)
            ==> r == cell_at(cells@, w as int, x as int, y as int),
        !in_bounds(w as int, h as int, x as int, y as int) ==> r is None,
{
    if x < w && y < h {
        let _n: usize = cells.len();
        proof {
            lemma_rowmajor_in_range(w as int, h as int, x as int, y as int);
        }
        let i: usize = (y as usize) * (w as usize) + (x as usize);
        cells[i]
    } else {
        None
    }
}

/// Read the neighbor of `(x, y)` in direction `dir`; `None` when the
/// neighbor is off the grid or unassigned.
pub(crate) fn get_neighbor(
    cells: &Vec<Option<usize>>,
    w: u32,
    h: u32,
    x: u32,
    y: u32,
    dir: RelativeDirection,
) -> (r: Option<usize>)
    requires
        cells@.len() == w as int * h as int,
    ensures
        in_bounds(w as int, h as int, dest_x(dir, x as int), dest_y(dir, y as int))
            ==> r == cell_at(cells@, w as int, dest_x(dir, x as int), dest_y(dir, y as int)),
        !in_bounds(w as int, h as int, dest_x(dir, x as int), dest_y(dir, y as int))
            ==> r is None,
{
    if trans_is_in_bounds(x, y, dir, w, h) {
        match dir {
            RelativeDirection::UP => get_tile(cells, w, h, x, y + 1),
            RelativeDirection::DOWN => get_tile(cells, w, h, x, y - 1),
            RelativeDirection::LEFT => get_tile(cells, w, h, x - 1, y),
            RelativeDirection::RIGHT => get_tile(cells, w, h, x + 1, y),
        }
    } else {
        None
    }
}

/// A fresh, fully unassigned cell sequence for a `w` by `h` grid.
pub(crate) fn empty_cells(w: u32, h: u32) -> (r: Vec<Option<usize>>)
    requires
        w as int * h as int <= usize::MAX as int,
    ensures
        r@.len() == w as int * h as int,
        forall|i: int| 0 <= i < r@.len() ==> r@[i] is None,
{
    proof {
        assert(w as int * h as int >= 0) by (nonlinear_arith);
    }
    let total: usize = (w as usize) * (h as usize);
    let mut r: Vec<Option<usize>> = Vec::new();
    let mut i: usize = 0;
    while i < total
        invariant
            i <= total,
            r@.len() == i,
            forall|j: int| 0 <= j < r@.len() ==> r@[j] is None,
        decreases total - i,
    {
        r.push(None);
        i += 1;
    }
    r
}

/// An element-for-element copy of the cell sequence.
pub(crate) fn copy_cells(src: &Vec<Option<usize>>) -> (r: Vec<Option<usize>>)
    ensures
        r@ == src@,
{
    let mut r: Vec<Option<usize>> = Vec::new();
    let mut i: usize = 0;
    while i < src.len()
        invariant
            i <= src@.len(),
            r@ == src@.subrange(0, i as int),
        decreases src@.len() - i,
    {
        r.push(src[i]);
        proof {
            assert(r@ =~= src@.subrange(0, i as int + 1));
        }
        i += 1;
    }
    proof {
        assert(r@ =~= src@);
    }
    r
}

/// Assign the cell at `(x, y)`.
pub(crate) fn put_tile(cells: &mut Vec<Option<usize>>, w: u32, h: u32, x: u32, y: u32, t: usize)
    requires
        old(cells)@.len() == w as int * h as int,
        in_bounds(w as int, h as int, x as int, y as int),
    ensures
        final(cells)@ == old(cells)@.update(y as int * w as int + x as int, Some(t)),
{
    let _n: usize = cells.len();
    proof {
        lemma_rowmajor_in_range(w as int, h as int, x as int, y as int);
    }
    let i: usize = (y as usize) * (w as usize) + (x as usize);
    cells.set(i, Some(t));
}

/// A finished tile assignment for a `width` by `height` grid.  Each cell
/// holds the catalog index of its tile type.
#[derive(Debug)]
pub struct Grid {
    width: u32,
    height: u32,
    cells: Vec<Option<usize>>,
}

impl View for Grid {
    type V = Seq<Option<usize>>;

    closed spec fn view(&self) -> Seq<Option<usize>> {
        self.cells@
    }
}

impl Grid {
    /// The width the grid was generated with.
    pub closed spec fn spec_width(self) -> u32 {
        self.width
    }

    /// The height the grid was generated with.
    pub closed spec fn spec_height(self) -> u32 {
        self.height
    }

    /// The cell sequence has one row-major entry per cell.
    pub open spec fn wf(self) -> bool {
        self@.len() == self.spec_width() as int * self.spec_height() as int
    }

    pub(crate) fn from_parts(width: u32, height: u32, cells: Vec<Option<usize>>) -> (g: Grid)
        requires
            cells@.len() == width as int * height as int,
        ensures
            g.spec_width() == width,
            g.spec_height() == height,
            g@ == cells@,
            g.wf(),
    {
        Grid { width, height, cells }
    }

    /// The width the grid was generated with.
    pub fn width(&self) -> (r: u32)
        ensures
            r == self.spec_width(),
    {
        self.width
    }

    /// The height the grid was generated with.
    pub fn height(&self) -> (r: u32)
        ensures
            r == self.spec_height(),
    {
        self.height
    }

    /// The catalog index assigned to cell `(x, y)`, or `None` when `(x, y)`
    /// is out of bounds or the cell is unassigned.
    pub fn get(&self, x: u32, y: u32) -> (r: Option<usize>)
        requires
            self.wf(),
        ensures
            in_bounds(self.spec_width() as int, self.spec_height() as int, x as int, y as int)
                ==> r == cell_at(self@, self.spec_width() as int, x as int, y as int),
            !in_bounds(self.spec_width() as int, self.spec_height() as int, x as int, y as int)
                ==> r is None,
    {
        if x < self.width && y < self.height {
            let _n: usize = self.cells.len();
            proof {
                lemma_rowmajor_in_range(
                    self.width as int,
                    self.height as int,
                    x as int,
                    y as int,
                );
            }
            let i: usize = (y as usize) * (self.width as usize) + (x as usize);
            self.cells[i]
        } else {
            None
        }
    }
}

} // verus!
