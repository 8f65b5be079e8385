//! The constraint evaluator: which catalog tiles may legally occupy a
//! cell, given its already-assigned neighbors.
//!
//! An assigned neighbor whose `must` list points back at the cell forces a
//! specific tile there: if every such demand names the same registered
//! tile, that tile is the only candidate; if two demands disagree, or the
//! demanded name was never registered, the cell has no candidate at all.
//! When nothing is forced, the catalog is filtered in registration order,
//! and the surviving list is rotated by the attempt seed so that retries
//! explore a different order deterministically.

use vstd::prelude::*;
use crate::tiles::{flip_spec, RelativeDirection, TileType};
use crate::grid::{cell_at, dest_x, dest_y, get_neighbor, in_bounds};
use crate::valid::must_not_respected;

verus! {

/// The assigned neighbor of `(x, y)` in direction `d` carries a `must`
/// rule pointing back at `(x, y)` that names `nm`.
pub open spec fn dir_demands(
    cat: Seq<TileType>,
    cells: Seq<Option<usize>>,
    w: int,
    h: int,
    x: int,
    y: int,
    d: RelativeDirection,
    nm: Seq<char>,
) -> bool {
    let nx = dest_x(d, x);
    let ny = dest_y(d, y);
    &&& in_bounds(w, h, nx, ny)
    &&& cell_at(cells, w, nx, ny) is Some
    &&& cell_at(cells, w, nx, ny)->0 < cat.len()
    &&& exists|k: int|
        0 <= k < cat[cell_at(cells, w, nx, ny)->0 as int].must@.len()
            && (#[trigger] cat[cell_at(cells, w, nx, ny)->0 as int].must@[k]).dir == flip_spec(d)
            && cat[cell_at(cells, w, nx, ny)->0 as int].must@[k].tile@ == nm
}

/// Some assigned neighbor forces a tile at `(x, y)`.
pub open spec fn has_demand(
    cat: Seq<TileType>,
    cells: Seq<Option<usize>>,
    w: int,
    h: int,
    x: int,
    y: int,
) -> bool {
    exists|d: RelativeDirection, nm: Seq<char>| #[trigger] dir_demands(cat, cells, w, h, x, y, d, nm)
}

/// Every demand at `(x, y)` names `nm`.
pub open spec fn demands_agree(
    cat: Seq<TileType>,
    cells: Seq<Option<usize>>,
    w: int,
    h: int,
    x: int,
    y: int,
    nm: Seq<char>,
) -> bool {
    forall|d2: RelativeDirection, nm2: Seq<char>|
        #[trigger] dir_demands(cat, cells, w, h, x, y, d2, nm2) ==> nm2 == nm
}

/// Two demands at `(x, y)` name different tiles.
pub open spec fn demands_conflict(
    cat: Seq<TileType>,
    cells: Seq<Option<usize>>,
    w: int,
    h: int,
    x: int,
    y: int,
) -> bool {
    exists|d1: RelativeDirection, nm1: Seq<char>, d2: RelativeDirection, nm2: Seq<char>|
        #[trigger] dir_demands(cat, cells, w, h, x, y, d1, nm1)
            && #[trigger] dir_demands(cat, cells, w, h, x, y, d2, nm2)
            && nm1 != nm2
}

/// The position of the first catalog tile named `nm`, searching from `i`.
pub open spec fn name_index_from(cat: Seq<TileType>, nm: Seq<char>, i: int) -> Option<int>
    decreases cat.len() - i,
{
    if i < 0 || i >= cat.len() {
        None
    } else if cat[i].name@ == nm {
        Some(i)
    } else {
        name_index_from(cat, nm, i + 1)
    }
}

/// The position of the first catalog tile named `nm`.
pub open spec fn name_index(cat: Seq<TileType>, nm: Seq<char>) -> Option<int> {
    name_index_from(cat, nm, 0)
}

/// The candidate list when the single demanded name is `nm`: the demanded
/// tile alone when it is registered, nothing otherwise.
pub open spec fn demanded_candidates(cat: Seq<TileType>, nm: Seq<char>) -> Seq<usize> {
    match name_index(cat, nm) {
        Some(i) => seq![i as usize],
        None => Seq::empty(),
    }
}

/// The `must` rule `req` of a tile under consideration for `(x, y)` could
/// still be met: it points onto the grid, and its target cell, if already
/// assigned, bears the demanded name.
pub open spec fn must_viable(
    cat: Seq<TileType>,
    cells: Seq<Option<usize>>,
    w: int,
    h: int,
    x: int,
    y: int,
    req: crate::tiles::Requirement,
) -> bool {
    let nx = dest_x(req.dir, x);
    let ny = dest_y(req.dir, y);
    &&& in_bounds(w, h, nx, ny)
    &&& (cell_at(cells, w, nx, ny) is Some && cell_at(cells, w, nx, ny)->0 < cat.len()
        ==> cat[cell_at(cells, w, nx, ny)->0 as int].name@ == req.tile@)
}

/// The assigned neighbor of `(x, y)` in direction `d` carries a `must_not`
/// rule pointing back at `(x, y)` that names `nm`.
pub open spec fn dir_forbids(
    cat: Seq<TileType>,
    cells: Seq<Option<usize>>,
    w: int,
    h: int,
    x: int,
    y: int,
    d: RelativeDirection,
    nm: Seq<char>,
) -> bool {
    let nx = dest_x(d, x);
    let ny = dest_y(d, y);
    &&& in_bounds(w, h, nx, ny)
    &&& cell_at(cells, w, nx, ny) is Some
    &&& cell_at(cells, w, nx, ny)->0 < cat.len()
    &&& exists|k: int|
        0 <= k < cat[cell_at(cells, w, nx, ny)->0 as int].must_not@.len()
            && (#[trigger] cat[cell_at(cells, w, nx, ny)->0 as int].must_not@[k]).dir == flip_spec(
            d,
        ) && cat[cell_at(cells, w, nx, ny)->0 as int].must_not@[k].tile@ == nm
}

/// Catalog tile `t` survives the filtering pass at `(x, y)`: each of its
/// `must` rules is still satisfiable, none of its `must_not` rules is
/// already broken, and no assigned neighbor forbids it here.
pub open spec fn passes_filter(
    cat: Seq<TileType>,
    cells: Seq<Option<usize>>,
    w: int,
    h: int,
    x: int,
    y: int,
    t: int,
) -> bool {
    &&& forall|k: int|
        0 <= k < cat[t].must@.len()
            ==> must_viable(cat, cells, w, h, x, y, #[trigger] cat[t].must@[k])
    &&& forall|k: int|
        0 <= k < cat[t].must_not@.len()
            ==> must_not_respected(cat, cells, w, h, x, y, #[trigger] cat[t].must_not@[k])
    &&& !dir_forbids(cat, cells, w, h, x, y, RelativeDirection::UP, cat[t].name@)
    &&& !dir_forbids(cat, cells, w, h, x, y, RelativeDirection::DOWN, cat[t].name@)
    &&& !dir_forbids(cat, cells, w, h, x, y, RelativeDirection::LEFT, cat[t].name@)
    &&& !dir_forbids(cat, cells, w, h, x, y, RelativeDirection::RIGHT, cat[t].name@)
}

/// The surviving tiles among the first `n` catalog entries, in
/// registration order.
pub open spec fn filtered_prefix(
    cat: Seq<TileType>,
    cells: Seq<Option<usize>>,
    w: int,
    h: int,
    x: int,
    y: int,
    n: int,
) -> Seq<usize>
    decreases n,
{
    if n <= 0 {
        Seq::empty()
    } else if passes_filter(cat, cells, w, h, x, y, n - 1) {
        filtered_prefix(cat, cells, w, h, x, y, n - 1).push((n - 1) as usize)
    } else {
        filtered_prefix(cat, cells, w, h, x, y, n - 1)
    }
}

/// All surviving tiles, in registration order.
pub open spec fn filtered_candidates(
    cat: Seq<TileType>,
    cells: Seq<Option<usize>>,
    w: int,
    h: int,
    x: int,
    y: int,
) -> Seq<usize> {
    filtered_prefix(cat, cells, w, h, x, y, cat.len() as int)
}

/// The sequence rotated left by `k` places.
pub open spec fn rotate_left(s: Seq<usize>, k: int) -> Seq<usize> {
    s.subrange(k, s.len() as int) + s.subrange(0, k)
}

/// Scan the assigned neighbor in direction `d` for `must` rules pointing
/// back at `(x, y)`.  Returns the first demanded name, if any, and whether
/// two rules of this neighbor demand different names.
fn dir_demand_scan(
    cat: &Vec<TileType>,
    cells: &Vec<Option<usize>>,
    w: u32,
    h: u32,
    x: u32,
    y: u32,
    d: RelativeDirection,
) -> (r: (Option<String>, bool))
    requires
        cells@.len() == w as int * h as int,
    ensures
        r.0 matches Some(nm) ==> dir_demands(
            cat@,
            cells@,
            w as int,
            h as int,
            x as int,
            y as int,
            d,
            nm@,
        ),
        r.0 is None ==> forall|nm: Seq<char>|
            !dir_demands(cat@, cells@, w as int, h as int, x as int, y as int, d, nm),
        r.1 ==> exists|nm1: Seq<char>, nm2: Seq<char>|
            dir_demands(cat@, cells@, w as int, h as int, x as int, y as int, d, nm1)
                && dir_demands(cat@, cells@, w as int, h as int, x as int, y as int, d, nm2)
                && nm1 != nm2,
        !r.1 ==> (r.0 matches Some(nm) ==> forall|nm2: Seq<char>|
            dir_demands(cat@, cells@, w as int, h as int, x as int, y as int, d, nm2) ==> nm2
                == nm@),
{
    let nbr = get_neighbor(cells, w, h, x, y, d);
    let j: usize = match nbr {
        Some(j) => j,
        None => {
            return (None, false);
        },
    };
    if j >= cat.len() {
        return (None, false);
    }
    let fd = d.flip();
    let tile = &cat[j];
    let mut first: Option<String> = None;
    let mut confl = false;
    let mut k: usize = 0;
    while k < tile.must.len()
        invariant
            cells@.len() == w as int * h as int,
            j < cat@.len(),
            tile == &cat@[j as int],
            in_bounds(w as int, h as int, dest_x(d, x as int), dest_y(d, y as int)),
            cell_at(cells@, w as int, dest_x(d, x as int), dest_y(d, y as int)) == Some(j),
            fd == flip_spec(d),
            k <= tile.must.len(),
            first matches Some(nm) ==> exists|k2: int|
                0 <= k2 < k && (#[trigger] tile.must@[k2]).dir == flip_spec(d)
                    && tile.must@[k2].tile@ == nm@,
            first is None ==> forall|k2: int|
                0 <= k2 < k ==> (#[trigger] tile.must@[k2]).dir != flip_spec(d),
            confl ==> exists|k2: int, k3: int|
                0 <= k2 < k && 0 <= k3 < k && (#[trigger] tile.must@[k2]).dir == flip_spec(d)
                    && (#[trigger] tile.must@[k3]).dir == flip_spec(d) && tile.must@[k2].tile@
                    != tile.must@[k3].tile@,
            !confl ==> (first matches Some(nm) ==> forall|k2: int|
                0 <= k2 < k && (#[trigger] tile.must@[k2]).dir == flip_spec(d)
                    ==> tile.must@[k2].tile@ == nm@),
        decreases tile.must.len() - k,
    {
        let req = &tile.must[k];
        if req.dir == fd {
            match &first {
                None => {
                    first = Some(req.tile.clone());
                },
                Some(nm) => {
                    if !(*nm == req.tile) {
                        confl = true;
                    }
                },
            }
        }
        k += 1;
    }
    proof {
        if first is Some {
            assert(dir_demands(cat@, cells@, w as int, h as int, x as int, y as int, d, first->0@));
        }
        if confl {
            let (k2, k3) = choose|k2: int, k3: int|
                0 <= k2 < tile.must@.len() && 0 <= k3 < tile.must@.len()
                    && (#[trigger] tile.must@[k2]).dir == flip_spec(d)
                    && (#[trigger] tile.must@[k3]).dir == flip_spec(d) && tile.must@[k2].tile@
                    != tile.must@[k3].tile@;
            assert(dir_demands(
                cat@,
                cells@,
                w as int,
                h as int,
                x as int,
                y as int,
                d,
                tile.must@[k2].tile@,
            ));
            assert(dir_demands(
                cat@,
                cells@,
                w as int,
                h as int,
                x as int,
                y as int,
                d,
                tile.must@[k3].tile@,
            ));
        }
    }
    (first, confl)
}

/// Find the first catalog tile with the given name.
pub(crate) fn name_index_exec(cat: &Vec<TileType>, nm: &String) -> (r: Option<usize>)
    ensures
        r matches Some(i) ==> i < cat@.len() && name_index(cat@, nm@) == Some(i as int),
        r is None ==> name_index(cat@, nm@) is None,
{
    let mut i: usize = 0;
    while i < cat.len()
        invariant
            i <= cat@.len(),
            forall|j: int| 0 <= j < i ==> (#[trigger] cat@[j]).name@ != nm@,
        decreases cat@.len() - i,
    {
        if cat[i].name == *nm {
            proof {
                lemma_name_index_skip(cat@, nm@, i as int);
            }
            return Some(i);
        }
        i += 1;
    }
    proof {
        lemma_name_index_skip(cat@, nm@, cat@.len() as int);
    }
    None
}

/// What a first-match lookup tells of the catalog: a hit names the first
/// tile with the looked-up name, a miss means no tile bears it.
pub(crate) proof fn lemma_name_index_found(cat: Seq<TileType>, nm: Seq<char>)
    ensures
        name_index(cat, nm) matches Some(i) ==> 0 <= i < cat.len() && cat[i].name@ == nm,
        name_index(cat, nm) is None ==> forall|j: int|
            0 <= j < cat.len() ==> (#[trigger] cat[j]).name@ != nm,
{
    lemma_name_index_found_from(cat, nm, 0);
}

/// A registered tile's own name is always found by lookup.
pub(crate) proof fn lemma_registered_name_found(cat: Seq<TileType>, t: int)
    requires
        0 <= t < cat.len(),
    ensures
        name_index(cat, cat[t].name@) is Some,
{
    lemma_name_index_found(cat, cat[t].name@);
    if name_index(cat, cat[t].name@) is None {
        assert(cat[t].name@ != cat[t].name@);
    }
}

proof fn lemma_name_index_found_from(cat: Seq<TileType>, nm: Seq<char>, i: int)
    requires
        0 <= i <= cat.len(),
    ensures
        name_index_from(cat, nm, i) matches Some(j) ==> i <= j < cat.len() && cat[j].name@ == nm,
        name_index_from(cat, nm, i) is None ==> forall|j: int|
            i <= j < cat.len() ==> (#[trigger] cat[j]).name@ != nm,
    decreases cat.len() - i,
{
    if i < cat.len() {
        lemma_name_index_found_from(cat, nm, i + 1);
    }
}

/// Searching from the front finds no match before `i`, so the search may
/// as well start at `i`.
proof fn lemma_name_index_skip(cat: Seq<TileType>, nm: Seq<char>, i: int)
    requires
        0 <= i <= cat.len(),
        forall|j: int| 0 <= j < i ==> (#[trigger] cat[j]).name@ != nm,
    ensures
        name_index(cat, nm) == name_index_from(cat, nm, i),
    decreases i,
{
    if i > 0 {
        lemma_name_index_skip(cat, nm, i - 1);
    }
}

/// Decide whether catalog tile `t` survives the filtering pass at
/// `(x, y)`.
fn passes_filter_exec(
    cat: &Vec<TileType>,
    cells: &Vec<Option<usize>>,
    w: u32,
    h: u32,
    x: u32,
    y: u32,
    t: usize,
) -> (b: bool)
    requires
        cells@.len() == w as int * h as int,
        t < cat@.len(),
    ensures
        b == passes_filter(cat@, cells@, w as int, h as int, x as int, y as int, t as int),
{
    let tile = &cat[t];
    let mut k: usize = 0;
    while k < tile.must.len()
        invariant
            cells@.len() == w as int * h as int,
            t < cat@.len(),
            tile == &cat@[t as int],
            k <= tile.must.len(),
            forall|k2: int|
                0 <= k2 < k
                    ==> must_viable(
                        cat@,
                        cells@,
                        w as int,
                        h as int,
                        x as int,
                        y as int,
                        #[trigger] tile.must@[k2],
                    ),
        decreases tile.must.len() - k,
    {
        let req = &tile.must[k];
        if !crate::grid::trans_is_in_bounds(x, y, req.dir, w, h) {
            return false;
        }
        match get_neighbor(cells, w, h, x, y, req.dir) {
            Some(j) => {
                if j < cat.len() && !(cat[j].name == req.tile) {
                    return false;
                }
            },
            None => {},
        }
        k += 1;
    }
    let mut k: usize = 0;
    while k < tile.must_not.len()
        invariant
            cells@.len() == w as int * h as int,
            t < cat@.len(),
            tile == &cat@[t as int],
            k <= tile.must_not.len(),
            forall|k2: int|
                0 <= k2 < k
                    ==> must_not_respected(
                        cat@,
                        cells@,
                        w as int,
                        h as int,
                        x as int,
                        y as int,
                        #[trigger] tile.must_not@[k2],
                    ),
        decreases tile.must_not.len() - k,
    {
        let req = &tile.must_not[k];
        match get_neighbor(cells, w, h, x, y, req.dir) {
            Some(j) => {
                if j < cat.len() && cat[j].name == req.tile {
                    return false;
                }
            },
            None => {},
        }
        k += 1;
    }
    if dir_forbids_exec(cat, cells, w, h, x, y, RelativeDirection::UP, &tile.name) {
        return false;
    }
    if dir_forbids_exec(cat, cells, w, h, x, y, RelativeDirection::DOWN, &tile.name) {
        return false;
    }
    if dir_forbids_exec(cat, cells, w, h, x, y, RelativeDirection::LEFT, &tile.name) {
        return false;
    }
    if dir_forbids_exec(cat, cells, w, h, x, y, RelativeDirection::RIGHT, &tile.name) {
        return false;
    }
    true
}

/// Decide whether the assigned neighbor in direction `d` forbids the name
/// `nm` at `(x, y)`.
fn dir_forbids_exec(
    cat: &Vec<TileType>,
    cells: &Vec<Option<usize>>,
    w: u32,
    h: u32,
    x: u32,
    y: u32,
    d: RelativeDirection,
    nm: &String,
) -> (b: bool)
    requires
        cells@.len() == w as int * h as int,
    ensures
        b == dir_forbids(cat@, cells@, w as int, h as int, x as int, y as int, d, nm@),
{
    let nbr = get_neighbor(cells, w, h, x, y, d);
    let j: usize = match nbr {
        Some(j) => j,
        None => {
            return false;
        },
    };
    if j >= cat.len() {
        return false;
    }
    let fd = d.flip();
    let tile = &cat[j];
    let mut k: usize = 0;
    while k < tile.must_not.len()
        invariant
            cells@.len() == w as int * h as int,
            j < cat@.len(),
            tile == &cat@[j as int],
            in_bounds(w as int, h as int, dest_x(d, x as int), dest_y(d, y as int)),
            cell_at(cells@, w as int, dest_x(d, x as int), dest_y(d, y as int)) == Some(j),
            fd == flip_spec(d),
            k <= tile.must_not.len(),
            forall|k2: int|
                0 <= k2 < k
                    ==> !((#[trigger] tile.must_not@[k2]).dir == flip_spec(d)
                        && tile.must_not@[k2].tile@ == nm@),
        decreases tile.must_not.len() - k,
    {
        let req = &tile.must_not[k];
        if req.dir == fd && req.tile == *nm {
            return true;
        }
        k += 1;
    }
    false
}

/// The ordered candidate list for cell `(x, y)`: the forced tile when the
/// neighbors' demands single one out, nothing when they disagree or demand
/// an unregistered name, and otherwise the filtered catalog in
/// registration order, rotated by `seed`.
pub(crate) fn candidates_at(
    cat: &Vec<TileType>,
    cells: &Vec<Option<usize>>,
    w: u32,
    h: u32,
    x: u32,
    y: u32,
    seed: u32,
) -> (r: Vec<usize>)
    requires
        cells@.len() == w as int * h as int,
    ensures
        forall|i: int| 0 <= i < r@.len() ==> r@[i] < cat@.len(),
        forall|d: RelativeDirection, nm: Seq<char>|
            dir_demands(cat@, cells@, w as int, h as int, x as int, y as int, d, nm)
                && demands_agree(cat@, cells@, w as int, h as int, x as int, y as int, nm) ==> r@
                == demanded_candidates(cat@, nm),
        demands_conflict(cat@, cells@, w as int, h as int, x as int, y as int) ==> r@
            == Seq::<usize>::empty(),
        !has_demand(cat@, cells@, w as int, h as int, x as int, y as int) ==> {
            let base = filtered_candidates(cat@, cells@, w as int, h as int, x as int, y as int);
            r@ == if base.len() == 0 {
                base
            } else {
                rotate_left(base, (seed as int) % (base.len() as int))
            }
        },
{
    let ghost catv = cat@;
    let ghost cv = cells@;
    let ghost wi = w as int;
    let ghost hi = h as int;
    let ghost xi = x as int;
    let ghost yi = y as int;
    let (up_nm, up_c) = dir_demand_scan(cat, cells, w, h, x, y, RelativeDirection::UP);
    let (down_nm, down_c) = dir_demand_scan(cat, cells, w, h, x, y, RelativeDirection::DOWN);
    let (left_nm, left_c) = dir_demand_scan(cat, cells, w, h, x, y, RelativeDirection::LEFT);
    let (right_nm, right_c) = dir_demand_scan(cat, cells, w, h, x, y, RelativeDirection::RIGHT);
    let forced: Option<&String> = if up_nm.is_some() {
        up_nm.as_ref()
    } else if down_nm.is_some() {
        down_nm.as_ref()
    } else if left_nm.is_some() {
        left_nm.as_ref()
    } else {
        right_nm.as_ref()
    };
    match forced {
        Some(f) => {
            assert(dir_demands(catv, cv, wi, hi, xi, yi, first_demand_dir(up_nm, down_nm, left_nm), f@));
            let mut conflict = up_c || down_c || left_c || right_c;
            if let Some(u) = &up_nm {
                if !(*u == *f) {
                    conflict = true;
                }
            }
            if let Some(dn) = &down_nm {
                if !(*dn == *f) {
                    conflict = true;
                }
            }
            if let Some(l) = &left_nm {
                if !(*l == *f) {
                    conflict = true;
                }
            }
            if let Some(rr) = &right_nm {
                if !(*rr == *f) {
                    conflict = true;
                }
            }
            if conflict {
                proof {
                    let fd = first_demand_dir(up_nm, down_nm, left_nm);
                    if up_c {
                        let (nm1, nm2) = choose|nm1: Seq<char>, nm2: Seq<char>|
                            dir_demands(catv, cv, wi, hi, xi, yi, RelativeDirection::UP, nm1)
                                && dir_demands(catv, cv, wi, hi, xi, yi, RelativeDirection::UP, nm2)
                                && nm1 != nm2;
                        assert(dir_demands(catv, cv, wi, hi, xi, yi, RelativeDirection::UP, nm1));
                        assert(dir_demands(catv, cv, wi, hi, xi, yi, RelativeDirection::UP, nm2));
                    } else if down_c {
                        let (nm1, nm2) = choose|nm1: Seq<char>, nm2: Seq<char>|
                            dir_demands(catv, cv, wi, hi, xi, yi, RelativeDirection::DOWN, nm1)
                                && dir_demands(
                                catv,
                                cv,
                                wi,
                                hi,
                                xi,
                                yi,
                                RelativeDirection::DOWN,
                                nm2,
                            ) && nm1 != nm2;
                        assert(dir_demands(catv, cv, wi, hi, xi, yi, RelativeDirection::DOWN, nm1));
                        assert(dir_demands(catv, cv, wi, hi, xi, yi, RelativeDirection::DOWN, nm2));
                    } else if left_c {
                        let (nm1, nm2) = choose|nm1: Seq<char>, nm2: Seq<char>|
                            dir_demands(catv, cv, wi, hi, xi, yi, RelativeDirection::LEFT, nm1)
                                && dir_demands(
                                catv,
                                cv,
                                wi,
                                hi,
                                xi,
                                yi,
                                RelativeDirection::LEFT,
                                nm2,
                            ) && nm1 != nm2;
                        assert(dir_demands(catv, cv, wi, hi, xi, yi, RelativeDirection::LEFT, nm1));
                        assert(dir_demands(catv, cv, wi, hi, xi, yi, RelativeDirection::LEFT, nm2));
                    } else if right_c {
                        let (nm1, nm2) = choose|nm1: Seq<char>, nm2: Seq<char>|
                            dir_demands(catv, cv, wi, hi, xi, yi, RelativeDirection::RIGHT, nm1)
                                && dir_demands(
                                catv,
                                cv,
                                wi,
                                hi,
                                xi,
                                yi,
                                RelativeDirection::RIGHT,
                                nm2,
                            ) && nm1 != nm2;
                        assert(dir_demands(
                            catv,
                            cv,
                            wi,
                            hi,
                            xi,
                            yi,
                            RelativeDirection::RIGHT,
                            nm1,
                        ));
                        assert(dir_demands(
                            catv,
                            cv,
                            wi,
                            hi,
                            xi,
                            yi,
                            RelativeDirection::RIGHT,
                            nm2,
                        ));
                    } else if up_nm is Some && up_nm->0@ != f@ {
                        assert(dir_demands(
                            catv,
                            cv,
                            wi,
                            hi,
                            xi,
                            yi,
                            RelativeDirection::UP,
                            up_nm->0@,
                        ));
                        assert(dir_demands(catv, cv, wi, hi, xi, yi, fd, f@));
                    } else if down_nm is Some && down_nm->0@ != f@ {
                        assert(dir_demands(
                            catv,
                            cv,
                            wi,
                            hi,
                            xi,
                            yi,
                            RelativeDirection::DOWN,
                            down_nm->0@,
                        ));
                        assert(dir_demands(catv, cv, wi, hi, xi, yi, fd, f@));
                    } else if left_nm is Some && left_nm->0@ != f@ {
                        assert(dir_demands(
                            catv,
                            cv,
                            wi,
                            hi,
                            xi,
                            yi,
                            RelativeDirection::LEFT,
                            left_nm->0@,
                        ));
                        assert(dir_demands(catv, cv, wi, hi, xi, yi, fd, f@));
                    } else {
                        assert(right_nm is Some && right_nm->0@ != f@);
                        assert(dir_demands(
                            catv,
                            cv,
                            wi,
                            hi,
                            xi,
                            yi,
                            RelativeDirection::RIGHT,
                            right_nm->0@,
                        ));
                        assert(dir_demands(catv, cv, wi, hi, xi, yi, fd, f@));
                    }
                    assert(demands_conflict(catv, cv, wi, hi, xi, yi));
                    assert forall|d2: RelativeDirection, nm2: Seq<char>|
                        dir_demands(catv, cv, wi, hi, xi, yi, d2, nm2) && demands_agree(
                            catv,
                            cv,
                            wi,
                            hi,
                            xi,
                            yi,
                            nm2,
                        ) implies false
                    by {
                        let (da, na, db, nb) = choose|
                            da: RelativeDirection,
                            na: Seq<char>,
                            db: RelativeDirection,
                            nb: Seq<char>,
                        |
                            #[trigger] dir_demands(catv, cv, wi, hi, xi, yi, da, na)
                                && #[trigger] dir_demands(catv, cv, wi, hi, xi, yi, db, nb) && na
                                != nb;
                        assert(na == nm2 && nb == nm2);
                    }
                }
                let empty: Vec<usize> = Vec::new();
                return empty;
            }
            proof {
                let fd = first_demand_dir(up_nm, down_nm, left_nm);
                assert forall|d2: RelativeDirection, nm2: Seq<char>|
                    #[trigger] dir_demands(catv, cv, wi, hi, xi, yi, d2, nm2) implies nm2 == f@
                by {
                    match d2 {
                        RelativeDirection::UP => {
                            assert(up_nm matches Some(u) && u@ == f@);
                        },
                        RelativeDirection::DOWN => {
                            assert(down_nm matches Some(u) && u@ == f@);
                        },
                        RelativeDirection::LEFT => {
                            assert(left_nm matches Some(u) && u@ == f@);
                        },
                        RelativeDirection::RIGHT => {
                            assert(right_nm matches Some(u) && u@ == f@);
                        },
                    }
                }
                assert(demands_agree(catv, cv, wi, hi, xi, yi, f@));
                assert(!demands_conflict(catv, cv, wi, hi, xi, yi)) by {
                    if demands_conflict(catv, cv, wi, hi, xi, yi) {
                        let (d1, nm1, d2, nm2) = choose|
                            d1: RelativeDirection,
                            nm1: Seq<char>,
                            d2: RelativeDirection,
                            nm2: Seq<char>,
                        |
                            #[trigger] dir_demands(catv, cv, wi, hi, xi, yi, d1, nm1)
                                && #[trigger] dir_demands(catv, cv, wi, hi, xi, yi, d2, nm2)
                                && nm1 != nm2;
                        assert(nm1 == f@ && nm2 == f@);
                    }
                }
            }
            match name_index_exec(cat, f) {
                Some(i) => {
                    let mut one: Vec<usize> = Vec::new();
                    one.push(i);
                    assert(one@ =~= demanded_candidates(catv, f@));
                    one
                },
                None => {
                    let empty: Vec<usize> = Vec::new();
                    assert(empty@ =~= demanded_candidates(catv, f@));
                    empty
                },
            }
        },
        None => {
            proof {
                assert forall|d2: RelativeDirection, nm2: Seq<char>|
                    !(#[trigger] dir_demands(catv, cv, wi, hi, xi, yi, d2, nm2))
                by {
                    match d2 {
                        RelativeDirection::UP => {},
                        RelativeDirection::DOWN => {},
                        RelativeDirection::LEFT => {},
                        RelativeDirection::RIGHT => {},
                    }
                }
            }
            let n: usize = cat.len();
            let mut out: Vec<usize> = Vec::new();
            let mut t: usize = 0;
            while t < n
                invariant
                    cells@.len() == w as int * h as int,
                    n == cat@.len(),
                    t <= n,
                    out@ == filtered_prefix(
                        cat@,
                        cells@,
                        w as int,
                        h as int,
                        x as int,
                        y as int,
                        t as int,
                    ),
                    forall|i: int| 0 <= i < out@.len() ==> out@[i] < n,
                decreases n - t,
            {
                if passes_filter_exec(cat, cells, w, h, x, y, t) {
                    out.push(t);
                }
                t += 1;
            }
            let len: usize = out.len();
            if len == 0 {
                return out;
            }
            let k: usize = (seed as usize) % len;
            let mut rot: Vec<usize> = Vec::new();
            let mut i: usize = k;
            while i < len
                invariant
                    k < len,
                    len == out@.len(),
                    k <= i <= len,
                    rot@ == out@.subrange(k as int, i as int),
                    forall|i2: int| 0 <= i2 < out@.len() ==> out@[i2] < cat@.len(),
                    forall|i2: int| 0 <= i2 < rot@.len() ==> rot@[i2] < cat@.len(),
                decreases len - i,
            {
                rot.push(out[i]);
                proof {
                    assert(rot@ =~= out@.subrange(k as int, i as int + 1));
                }
                i += 1;
            }
            proof {
                assert(rot@ =~= out@.subrange(k as int, len as int) + out@.subrange(0, 0));
            }
            let mut i: usize = 0;
            while i < k
                invariant
                    k < len,
                    len == out@.len(),
                    i <= k,
                    rot@ == out@.subrange(k as int, len as int) + out@.subrange(0, i as int),
                    forall|i2: int| 0 <= i2 < out@.len() ==> out@[i2] < cat@.len(),
                    forall|i2: int| 0 <= i2 < rot@.len() ==> rot@[i2] < cat@.len(),
                decreases k - i,
            {
                rot.push(out[i]);
                proof {
                    assert(rot@ =~= out@.subrange(k as int, len as int) + out@.subrange(
                        0,
                        i as int + 1,
                    ));
                }
                i += 1;
            }
            rot
        },
    }
}

/// With a single unconstrained tile in the catalog, no neighbor can force
/// anything and the filtering pass keeps exactly that tile.
pub proof fn lemma_singleton_candidates(
    cat: Seq<TileType>,
    cells: Seq<Option<usize>>,
    w: int,
    h: int,
    x: int,
    y: int,
)
    requires
        crate::valid::singleton_unconstrained(cat),
    ensures
        !has_demand(cat, cells, w, h, x, y),
        filtered_candidates(cat, cells, w, h, x, y) =~= seq![0usize],
{
    assert forall|d: RelativeDirection, nm: Seq<char>|
        !(#[trigger] dir_demands(cat, cells, w, h, x, y, d, nm))
    by {
        if dir_demands(cat, cells, w, h, x, y, d, nm) {
            let nx = dest_x(d, x);
            let ny = dest_y(d, y);
            let j = cell_at(cells, w, nx, ny)->0;
            assert(j < 1);
            assert(cat[j as int].must@.len() == 0);
        }
    }
    assert(passes_filter(cat, cells, w, h, x, y, 0)) by {
        assert(!dir_forbids(cat, cells, w, h, x, y, RelativeDirection::UP, cat[0].name@)) by {
            if dir_forbids(cat, cells, w, h, x, y, RelativeDirection::UP, cat[0].name@) {
                assert(false);
            }
        }
        assert(!dir_forbids(cat, cells, w, h, x, y, RelativeDirection::DOWN, cat[0].name@)) by {
            if dir_forbids(cat, cells, w, h, x, y, RelativeDirection::DOWN, cat[0].name@) {
                assert(false);
            }
        }
        assert(!dir_forbids(cat, cells, w, h, x, y, RelativeDirection::LEFT, cat[0].name@)) by {
            if dir_forbids(cat, cells, w, h, x, y, RelativeDirection::LEFT, cat[0].name@) {
                assert(false);
            }
        }
        assert(!dir_forbids(cat, cells, w, h, x, y, RelativeDirection::RIGHT, cat[0].name@)) by {
            if dir_forbids(cat, cells, w, h, x, y, RelativeDirection::RIGHT, cat[0].name@) {
                assert(false);
            }
        }
    }
    assert(filtered_prefix(cat, cells, w, h, x, y, 0) =~= Seq::<usize>::empty());
    assert(filtered_candidates(cat, cells, w, h, x, y) =~= seq![0usize]);
}

/// The direction whose scan supplied the forced name: the first of
/// `UP`, `DOWN`, `LEFT`, `RIGHT` whose scan found a demand.
pub open spec fn first_demand_dir(
    up: Option<String>,
    down: Option<String>,
    left: Option<String>,
) -> RelativeDirection {
    if up is Some {
        RelativeDirection::UP
    } else if down is Some {
        RelativeDirection::DOWN
    } else if left is Some {
        RelativeDirection::LEFT
    } else {
        RelativeDirection::RIGHT
    }
}

} // verus!
