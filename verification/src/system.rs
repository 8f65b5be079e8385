//! The tile catalog and the backtracking generator.

use vstd::prelude::*;
use crate::tiles::{RelativeDirection, TileType};
use crate::grid::{
    cell_at, cells_indices_below, copy_cells, count_empty, empty_cells, extends, in_bounds,
    lemma_closed_grid_complete, lemma_closed_trans, lemma_count_empty_extends,
    lemma_count_empty_fill, lemma_extends_trans, lemma_rowmajor_in_range, lemma_rowmajor_injective,
    new_cells_closed, put_tile, Grid,
};
use crate::valid::{check_grid, grid_valid, singleton_unconstrained, tile_ok_at};
use crate::eval::{candidates_at, demanded_candidates, demands_agree, demands_conflict,
    dir_demands, lemma_registered_name_found, lemma_singleton_candidates,
    name_index, name_index_exec,
    rotate_left, filtered_candidates, lemma_name_index_found};

verus! {

/// A requirement points at a name that was never registered: `tile` is
/// the registered tile carrying the rule, `target` the name the rule
/// demands or forbids.
#[derive(Debug)]
pub struct UnknownTileReference {
    /// The name of the registered tile whose rule is unresolved.
    pub tile: String,
    /// The referenced name that no registered tile bears.
    pub target: String,
}

/// Every rule of tile `t` names a registered tile.
pub open spec fn tile_references_resolved(cat: Seq<TileType>, t: int) -> bool {
    &&& forall|k: int|
        0 <= k < cat[t].must@.len() ==> name_index(
            cat,
            (#[trigger] cat[t].must@[k]).tile@,
        ) is Some
    &&& forall|k: int|
        0 <= k < cat[t].must_not@.len() ==> name_index(
            cat,
            (#[trigger] cat[t].must_not@[k]).tile@,
        ) is Some
}

/// Every rule of every registered tile names a registered tile.
pub open spec fn references_resolved(cat: Seq<TileType>) -> bool {
    forall|t: int| 0 <= t < cat.len() ==> #[trigger] tile_references_resolved(cat, t)
}

/// The catalog of registered tile types, in registration order, and the
/// generator that fills grids from it.
pub struct TileSystem {
    tiles: Vec<TileType>,
}

impl View for TileSystem {
    type V = Seq<TileType>;

    closed spec fn view(&self) -> Seq<TileType> {
        self.tiles@
    }
}

impl TileSystem {
    /// An empty catalog.
    pub fn new() -> (r: TileSystem)
        ensures
            r@ == Seq::<TileType>::empty(),
    {
        TileSystem { tiles: Vec::new() }
    }

    /// Register a tile type.  When no registered tile bears its name it is
    /// appended to the catalog; otherwise it is handed back unchanged and
    /// the catalog — in particular the earlier tile of that name — is left
    /// exactly as it was.
    pub fn add_tile(&mut self, tile: TileType) -> (r: Result<(), TileType>)
        ensures
            match r {
                Ok(()) => final(self)@ == old(self)@.push(tile) && (forall|i: int|
                    0 <= i < old(self)@.len() ==> (#[trigger] old(self)@[i]).name@ != tile.name@),
                Err(t) => t == tile && final(self)@ == old(self)@ && (exists|i: int|
                    0 <= i < old(self)@.len() && (#[trigger] old(self)@[i]).name@ == tile.name@),
            },
    {
        let taken = name_index_exec(&self.tiles, &tile.name);
        match taken {
            Some(i) => {
                proof {
                    lemma_name_index_found(self.tiles@, tile.name@);
                    assert((i as int) < old(self)@.len() && old(self)@[i as int].name@
                        == tile.name@);
                }
                Err(tile)
            },
            None => {
                proof {
                    lemma_name_index_found(self.tiles@, tile.name@);
                    assert(forall|j: int|
                        0 <= j < old(self)@.len() ==> (#[trigger] old(self)@[j]).name@
                            != tile.name@);
                }
                self.tiles.push(tile);
                Ok(())
            },
        }
    }

    /// Look up the tile registered under `name`.
    pub fn borrow_tile(&self, name: &str) -> (r: Option<&TileType>)
        ensures
            r is Some <==> name_index(self@, name@) is Some,
            r matches Some(t) ==> name_index(self@, name@) matches Some(i) && 0 <= i < self@.len()
                && *t == self@[i] && t.name@ == name@,
    {
        let key: String = name.to_owned();
        let found = name_index_exec(&self.tiles, &key);
        proof {
            lemma_name_index_found(self.tiles@, key@);
        }
        match found {
            Some(i) => Some(&self.tiles[i]),
            None => None,
        }
    }

    /// The tile at a catalog position, in registration order; grid cells
    /// store such positions.
    pub fn tile_by_index(&self, i: usize) -> (r: Option<&TileType>)
        ensures
            i < self@.len() ==> (r matches Some(t) && *t == self@[i as int]),
            i >= self@.len() ==> r is None,
    {
        if i < self.tiles.len() {
            Some(&self.tiles[i])
        } else {
            None
        }
    }

    /// How many tile types are registered.
    pub fn tile_count(&self) -> (r: usize)
        ensures
            r == self@.len(),
    {
        self.tiles.len()
    }

    /// Check every rule's target name against the catalog, failing fast
    /// on the first that was never registered.
    ///
    /// Generation itself stays permissive: a rule naming an unregistered
    /// tile is simply never satisfiable there.  Callers that prefer to
    /// reject such a catalog outright run this check once the catalog is
    /// finished.
    pub fn validate_references(&self) -> (r: Result<(), UnknownTileReference>)
        ensures
            r is Ok <==> references_resolved(self@),
            r matches Err(e) ==> name_index(self@, e.target@) is None && name_index(
                self@,
                e.tile@,
            ) is Some,
    {
        let mut t: usize = 0;
        while t < self.tiles.len()
            invariant
                t <= self@.len(),
                forall|t2: int| 0 <= t2 < t ==> #[trigger] tile_references_resolved(self@, t2),
            decreases self@.len() - t,
        {
            let tile = &self.tiles[t];
            let mut k: usize = 0;
            while k < tile.must.len()
                invariant
                    t < self@.len(),
                    tile == &self@[t as int],
                    k <= tile.must.len(),
                    forall|k2: int|
                        0 <= k2 < k ==> name_index(
                            self@,
                            (#[trigger] tile.must@[k2]).tile@,
                        ) is Some,
                decreases tile.must.len() - k,
            {
                let req = &tile.must[k];
                if name_index_exec(&self.tiles, &req.tile).is_none() {
                    proof {
                        lemma_registered_name_found(self@, t as int);
                        assert(!tile_references_resolved(self@, t as int));
                    }
                    return Err(
                        UnknownTileReference { tile: tile.name.clone(), target: req.tile.clone() },
                    );
                }
                k += 1;
            }
            let mut k: usize = 0;
            while k < tile.must_not.len()
                invariant
                    t < self@.len(),
                    tile == &self@[t as int],
                    k <= tile.must_not.len(),
                    forall|k2: int|
                        0 <= k2 < k ==> name_index(
                            self@,
                            (#[trigger] tile.must_not@[k2]).tile@,
                        ) is Some,
                    forall|k2: int|
                        0 <= k2 < tile.must@.len() ==> name_index(
                            self@,
                            (#[trigger] tile.must@[k2]).tile@,
                        ) is Some,
                decreases tile.must_not.len() - k,
            {
                let req = &tile.must_not[k];
                if name_index_exec(&self.tiles, &req.tile).is_none() {
                    proof {
                        lemma_registered_name_found(self@, t as int);
                        assert(!tile_references_resolved(self@, t as int));
                    }
                    return Err(
                        UnknownTileReference { tile: tile.name.clone(), target: req.tile.clone() },
                    );
                }
                k += 1;
            }
            proof {
                assert(tile_references_resolved(self@, t as int));
            }
            t += 1;
        }
        Ok(())
    }

    /// Fill the cell `(x, y)` and, recursively, its whole connected
    /// region, backtracking over the candidate tiles of each cell.
    ///
    /// On failure the cell sequence is handed back exactly as it came in:
    /// every placement made under an abandoned candidate is reverted by
    /// restoring the whole sequence from a snapshot.  On success the
    /// result extends the input, and every newly filled cell has all of
    /// its in-bounds neighbors filled.  A coordinate off the grid, or one
    /// already assigned, succeeds with the cells untouched.  When the
    /// neighbors' demands agree on a registered tile, that tile is what a
    /// success places at `(x, y)`; disagreeing demands, or an agreed
    /// demand naming an unregistered tile, fail the cell outright.
    #[verifier::loop_isolation(false)]
    fn place_from(
        &self,
        w: u32,
        h: u32,
        cells: Vec<Option<usize>>,
        x: u32,
        y: u32,
        ex: u32,
        ey: u32,
        seed: u32,
    ) -> (res: (bool, Vec<Option<usize>>))
        requires
            cells@.len() == w as int * h as int,
            cells_indices_below(cells@, self@.len() as int),
            (ex == x && ey == y) || (in_bounds(w as int, h as int, ex as int, ey as int)
                && cell_at(cells@, w as int, ex as int, ey as int) is Some),
        ensures
            res.1@.len() == cells@.len(),
            cells_indices_below(res.1@, self@.len() as int),
            !res.0 ==> res.1@ == cells@,
            res.0 ==> extends(cells@, res.1@),
            res.0 ==> new_cells_closed(cells@, res.1@, w as int, h as int),
            res.0 && in_bounds(w as int, h as int, x as int, y as int) ==> cell_at(
                res.1@,
                w as int,
                x as int,
                y as int,
            ) is Some,
            singleton_unconstrained(self@) ==> res.0,
            x >= w || y >= h ==> res.0 && res.1@ == cells@,
            in_bounds(w as int, h as int, x as int, y as int) && cell_at(
                cells@,
                w as int,
                x as int,
                y as int,
            ) is Some ==> res.0 && res.1@ == cells@,
            in_bounds(w as int, h as int, x as int, y as int) && cell_at(
                cells@,
                w as int,
                x as int,
                y as int,
            ) is None && demands_conflict(self@, cells@, w as int, h as int, x as int, y as int)
                ==> !res.0,
            forall|d: RelativeDirection, nm: Seq<char>|
                in_bounds(w as int, h as int, x as int, y as int) && cell_at(
                    cells@,
                    w as int,
                    x as int,
                    y as int,
                ) is None && #[trigger] dir_demands(
                    self@,
                    cells@,
                    w as int,
                    h as int,
                    x as int,
                    y as int,
                    d,
                    nm,
                ) && demands_agree(self@, cells@, w as int, h as int, x as int, y as int, nm)
                    && name_index(self@, nm) is None ==> !res.0,
            forall|d: RelativeDirection, nm: Seq<char>|
                res.0 && in_bounds(w as int, h as int, x as int, y as int) && cell_at(
                    cells@,
                    w as int,
                    x as int,
                    y as int,
                ) is None && #[trigger] dir_demands(
                    self@,
                    cells@,
                    w as int,
                    h as int,
                    x as int,
                    y as int,
                    d,
                    nm,
                ) && demands_agree(self@, cells@, w as int, h as int, x as int, y as int, nm)
                    && name_index(self@, nm) is Some ==> cell_at(
                    res.1@,
                    w as int,
                    x as int,
                    y as int,
                ) == Some(name_index(self@, nm)->0 as usize),
        decreases count_empty(cells@),
    {
        if x >= w || y >= h {
            return (true, cells);
        }
        proof {
            lemma_rowmajor_in_range(w as int, h as int, x as int, y as int);
        }
        let _n: usize = cells.len();
        let idx: usize = (y as usize) * (w as usize) + (x as usize);
        if cells[idx].is_some() {
            return (true, cells);
        }
        let ghost g0 = cells@;
        let cands = candidates_at(&self.tiles, &cells, w, h, x, y, seed);
        proof {
            if singleton_unconstrained(self@) {
                lemma_singleton_candidates(self@, g0, w as int, h as int, x as int, y as int);
                assert(filtered_candidates(self@, g0, w as int, h as int, x as int, y as int).len()
                    == 1);
                assert(rotate_left(seq![0usize], 0) =~= seq![0usize]);
                assert(cands@.len() == 1);
            }
        }
        let saved = copy_cells(&cells);
        let mut cur = cells;
        let cl: usize = cands.len();
        let mut ci: usize = 0;
        while ci < cl
            invariant
                self@.len() == self.tiles@.len(),
                cl == cands@.len(),
                forall|i: int| 0 <= i < cands@.len() ==> cands@[i] < self@.len(),
                cur@ == g0,
                saved@ == g0,
                g0.len() == w as int * h as int,
                cells_indices_below(g0, self@.len() as int),
                x < w,
                y < h,
                idx as int == y as int * w as int + x as int,
                (idx as int) < g0.len(),
                g0[idx as int] is None,
                (ex == x && ey == y) || (in_bounds(w as int, h as int, ex as int, ey as int)
                    && cell_at(g0, w as int, ex as int, ey as int) is Some),
                singleton_unconstrained(self@) ==> ci == 0,
                ci <= cl,
            decreases cl - ci,
        {
            let cand = cands[ci];
            put_tile(&mut cur, w, h, x, y, cand);
            let ghost g1 = cur@;
            proof {
                assert(g1 == g0.update(idx as int, Some(cand)));
                lemma_count_empty_fill(g0, idx as int, cand);
                assert(extends(g0, g1));
                assert(cells_indices_below(g1, self@.len() as int));
                assert(cell_at(g1, w as int, x as int, y as int) is Some);
            }
            let mut ok = true;
            // forward neighbors, in the fixed order RIGHT, DOWN, LEFT, UP,
            // skipping the entry cell and anything off the grid
            if x + 1 < w && !(x + 1 == ex && y == ey) {
                proof {
                    lemma_count_empty_extends(g1, cur@);
                }
                let (r1, c1) = self.place_from(w, h, cur, x + 1, y, x, y, seed);
                cur = c1;
                ok = r1;
            }
            let ghost a1 = cur@;
            proof {
                if ok {
                    assert(extends(g1, a1));
                    assert(new_cells_closed(g1, a1, w as int, h as int));
                    assert(cells_indices_below(a1, self@.len() as int));
                    assert(a1.len() == w as int * h as int);
                    assert(cell_at(a1, w as int, x as int, y as int) is Some);
                    assert(in_bounds(w as int, h as int, x as int + 1, y as int) ==> (x as int + 1
                        == ex as int && y == ey) || cell_at(
                        a1,
                        w as int,
                        x as int + 1,
                        y as int,
                    ) is Some);
                }
            }
            if ok && y > 0 && !(x == ex && y - 1 == ey) {
                proof {
                    lemma_count_empty_extends(g1, a1);
                }
                let (r1, c1) = self.place_from(w, h, cur, x, y - 1, x, y, seed);
                cur = c1;
                ok = r1;
            }
            let ghost a2 = cur@;
            proof {
                if ok {
                    assert(extends(a1, a2));
                    assert(new_cells_closed(a1, a2, w as int, h as int));
                    lemma_extends_trans(g1, a1, a2);
                    lemma_closed_trans(g1, a1, a2, w as int, h as int);
                    assert(cells_indices_below(a2, self@.len() as int));
                    assert(a2.len() == w as int * h as int);
                    assert(cell_at(a2, w as int, x as int, y as int) is Some);
                    if in_bounds(w as int, h as int, x as int + 1, y as int) {
                        lemma_rowmajor_in_range(w as int, h as int, x as int + 1, y as int);
                    }
                    assert(in_bounds(w as int, h as int, x as int + 1, y as int) ==> (x as int + 1
                        == ex as int && y == ey) || cell_at(
                        a2,
                        w as int,
                        x as int + 1,
                        y as int,
                    ) is Some);
                    assert(in_bounds(w as int, h as int, x as int, y as int - 1) ==> (x == ex && y
                        as int - 1 == ey as int) || cell_at(
                        a2,
                        w as int,
                        x as int,
                        y as int - 1,
                    ) is Some);
                }
            }
            if ok && x > 0 && !(x - 1 == ex && y == ey) {
                proof {
                    lemma_count_empty_extends(g1, a2);
                }
                let (r1, c1) = self.place_from(w, h, cur, x - 1, y, x, y, seed);
                cur = c1;
                ok = r1;
            }
            let ghost a3 = cur@;
            proof {
                if ok {
                    assert(extends(a2, a3));
                    assert(new_cells_closed(a2, a3, w as int, h as int));
                    lemma_extends_trans(g1, a2, a3);
                    lemma_closed_trans(g1, a2, a3, w as int, h as int);
                    assert(cells_indices_below(a3, self@.len() as int));
                    assert(a3.len() == w as int * h as int);
                    assert(cell_at(a3, w as int, x as int, y as int) is Some);
                    if in_bounds(w as int, h as int, x as int + 1, y as int) {
                        lemma_rowmajor_in_range(w as int, h as int, x as int + 1, y as int);
                    }
                    if in_bounds(w as int, h as int, x as int, y as int - 1) {
                        lemma_rowmajor_in_range(w as int, h as int, x as int, y as int - 1);
                    }
                    assert(in_bounds(w as int, h as int, x as int + 1, y as int) ==> (x as int + 1
                        == ex as int && y == ey) || cell_at(
                        a3,
                        w as int,
                        x as int + 1,
                        y as int,
                    ) is Some);
                    assert(in_bounds(w as int, h as int, x as int, y as int - 1) ==> (x == ex && y
                        as int - 1 == ey as int) || cell_at(
                        a3,
                        w as int,
                        x as int,
                        y as int - 1,
                    ) is Some);
                    assert(in_bounds(w as int, h as int, x as int - 1, y as int) ==> (x as int - 1
                        == ex as int && y == ey) || cell_at(
                        a3,
                        w as int,
                        x as int - 1,
                        y as int,
                    ) is Some);
                }
            }
            if ok && y + 1 < h && !(x == ex && y + 1 == ey) {
                proof {
                    lemma_count_empty_extends(g1, a3);
                }
                let (r1, c1) = self.place_from(w, h, cur, x, y + 1, x, y, seed);
                cur = c1;
                ok = r1;
            }
            if ok {
                proof {
                    let a4 = cur@;
                    assert(extends(a3, a4));
                    assert(new_cells_closed(a3, a4, w as int, h as int));
                    lemma_extends_trans(g1, a3, a4);
                    lemma_closed_trans(g1, a3, a4, w as int, h as int);
                    assert(cells_indices_below(a4, self@.len() as int));
                    assert(a4.len() == w as int * h as int);
                    assert(cell_at(a4, w as int, x as int, y as int) is Some);
                    if in_bounds(w as int, h as int, x as int + 1, y as int) {
                        lemma_rowmajor_in_range(w as int, h as int, x as int + 1, y as int);
                    }
                    if in_bounds(w as int, h as int, x as int, y as int - 1) {
                        lemma_rowmajor_in_range(w as int, h as int, x as int, y as int - 1);
                    }
                    if in_bounds(w as int, h as int, x as int - 1, y as int) {
                        lemma_rowmajor_in_range(w as int, h as int, x as int - 1, y as int);
                    }
                    if in_bounds(w as int, h as int, x as int, y as int + 1) {
                        lemma_rowmajor_in_range(w as int, h as int, x as int, y as int + 1);
                    }
                    lemma_place_success(
                        g0,
                        g1,
                        a4,
                        w as int,
                        h as int,
                        x as int,
                        y as int,
                        ex as int,
                        ey as int,
                    );
                    lemma_extends_trans(g0, g1, a4);
                    // with a forced demand the evaluator pinned the list:
                    // conflicting or unregistered demands would have left
                    // it empty, and this loop iteration could not exist
                    if demands_conflict(self@, g0, w as int, h as int, x as int, y as int) {
                        assert(cands@ =~= Seq::<usize>::empty());
                        assert(false);
                    }
                    assert forall|d: RelativeDirection, nm: Seq<char>|
                        #[trigger] dir_demands(
                            self@,
                            g0,
                            w as int,
                            h as int,
                            x as int,
                            y as int,
                            d,
                            nm,
                        ) && demands_agree(
                            self@,
                            g0,
                            w as int,
                            h as int,
                            x as int,
                            y as int,
                            nm,
                        ) implies name_index(self@, nm) is Some && cell_at(
                        a4,
                        w as int,
                        x as int,
                        y as int,
                    ) == Some(name_index(self@, nm)->0 as usize) by {
                        assert(cands@ == demanded_candidates(self@, nm));
                        if name_index(self@, nm) is None {
                            assert(cands@.len() == 0);
                            assert(false);
                        } else {
                            let i = name_index(self@, nm)->0;
                            assert(cands@ =~= seq![i as usize]);
                            assert(ci == 0 && cand == cands@[0]);
                            assert(cell_at(a4, w as int, x as int, y as int) == cell_at(
                                g1,
                                w as int,
                                x as int,
                                y as int,
                            ));
                        }
                    }
                }
                return (true, cur);
            }
            cur = copy_cells(&saved);
            ci += 1;
        }
        proof {
            if singleton_unconstrained(self@) {
                assert(cl == 1);
                assert(false);
            }
        }
        (false, cur)
    }

    /// One generation attempt with an explicit candidate-ordering seed:
    /// retries with different seeds explore different orders, and equal
    /// seeds reproduce the same outcome.
    ///
    /// A returned grid always satisfies `grid_valid`: it is fully
    /// assigned and every adjacency rule of every placed tile holds.
    pub fn try_gen_seeded(&self, w: u32, h: u32, seed: u32) -> (r: Option<Grid>)
        requires
            w as int * h as int <= usize::MAX as int,
        ensures
            r matches Some(g) ==> g.spec_width() == w && g.spec_height() == h && g.wf()
                && grid_valid(self@, g@, w as int, h as int),
            singleton_unconstrained(self@) ==> r is Some,
            self@.len() == 0 && w > 0 && h > 0 ==> r is None,
            w == 0 || h == 0 ==> r is Some,
    {
        let blank = empty_cells(w, h);
        let ghost e0 = blank@;
        let (ok, cells) = self.place_from(w, h, blank, 0, 0, 0, 0, seed);
        if !ok {
            return None;
        }
        let good = check_grid(&self.tiles, &cells, w, h);
        proof {
            if singleton_unconstrained(self@) {
                lemma_singleton_valid(self@, e0, cells@, w as int, h as int);
                assert(good);
            }
            if w == 0 || h == 0 {
                assert(grid_valid(self@, cells@, w as int, h as int));
                assert(good);
            }
        }
        if good {
            proof {
                if self@.len() == 0 && w > 0 && h > 0 {
                    assert(in_bounds(w as int, h as int, 0, 0));
                    assert(tile_ok_at(self@, cells@, w as int, h as int, 0, 0));
                }
            }
            Some(Grid::from_parts(w, h, cells))
        } else {
            None
        }
    }

    /// One generation attempt, with the default candidate ordering
    /// (registration order).
    pub fn try_gen(&self, w: u32, h: u32) -> (r: Option<Grid>)
        requires
            w as int * h as int <= usize::MAX as int,
        ensures
            r matches Some(g) ==> g.spec_width() == w && g.spec_height() == h && g.wf()
                && grid_valid(self@, g@, w as int, h as int),
            singleton_unconstrained(self@) ==> r is Some,
            self@.len() == 0 && w > 0 && h > 0 ==> r is None,
            w == 0 || h == 0 ==> r is Some,
    {
        self.try_gen_seeded(w, h, 0)
    }

    /// Up to `tries` generation attempts, each with its attempt number as
    /// the candidate-ordering seed; the first grid that satisfies every
    /// rule is returned.  `None` means every attempt failed.
    pub fn gen_retry(&self, w: u32, h: u32, tries: u32) -> (r: Option<Grid>)
        requires
            w as int * h as int <= usize::MAX as int,
        ensures
            r matches Some(g) ==> g.spec_width() == w && g.spec_height() == h && g.wf()
                && grid_valid(self@, g@, w as int, h as int),
            tries >= 1 && singleton_unconstrained(self@) ==> r is Some,
            self@.len() == 0 && w > 0 && h > 0 ==> r is None,
            tries == 0 ==> r is None,
            tries >= 1 && (w == 0 || h == 0) ==> r is Some,
    {
        let mut attempt: u32 = 0;
        while attempt < tries
            invariant
                attempt <= tries,
                w as int * h as int <= usize::MAX as int,
                singleton_unconstrained(self@) ==> attempt == 0,
                w == 0 || h == 0 ==> attempt == 0,
            decreases tries - attempt,
        {
            match self.try_gen_seeded(w, h, attempt) {
                Some(g) => {
                    return Some(g);
                },
                None => {},
            }
            attempt += 1;
        }
        None
    }
}

/// During a candidate attempt at `(x, y)`: `g1` is the snapshot `g0` with
/// `(x, y)` assigned, and `g2` extends `g1` with its new cells closed.
/// Then `g2` also extends `g0`, keeps `(x, y)` assigned, and only the
/// cells of `g2` beyond `g1`, plus `(x, y)` itself, are new over `g0`.
proof fn lemma_place_step(
    g0: Seq<Option<usize>>,
    g1: Seq<Option<usize>>,
    g2: Seq<Option<usize>>,
    w: int,
    h: int,
    x: int,
    y: int,
)
    requires
        g0.len() == w * h,
        in_bounds(w, h, x, y),
        g0[y * w + x] is None,
        g1 == g0.update(y * w + x, cell_at(g1, w, x, y)),
        cell_at(g1, w, x, y) is Some,
        extends(g1, g2),
        new_cells_closed(g1, g2, w, h),
    ensures
        extends(g0, g2),
        cell_at(g2, w, x, y) is Some,
{
    lemma_rowmajor_in_range(w, h, x, y);
    assert(extends(g0, g1));
    lemma_extends_trans(g0, g1, g2);
}

/// After every forward neighbor of `(x, y)` has been handled, the cells
/// filled since the snapshot `g0` are closed: the neighbors of `(x, y)`
/// are the entry cell, cells filled by the recursion, or off the grid,
/// and cells filled by the recursion are closed among themselves.
proof fn lemma_place_success(
    g0: Seq<Option<usize>>,
    g1: Seq<Option<usize>>,
    g2: Seq<Option<usize>>,
    w: int,
    h: int,
    x: int,
    y: int,
    ex: int,
    ey: int,
)
    requires
        g0.len() == w * h,
        in_bounds(w, h, x, y),
        g0[y * w + x] is None,
        g1 == g0.update(y * w + x, cell_at(g1, w, x, y)),
        cell_at(g1, w, x, y) is Some,
        extends(g1, g2),
        new_cells_closed(g1, g2, w, h),
        (ex == x && ey == y) || (in_bounds(w, h, ex, ey) && cell_at(g0, w, ex, ey) is Some),
        in_bounds(w, h, x + 1, y) ==> (x + 1 == ex && y == ey) || cell_at(g2, w, x + 1, y) is Some,
        in_bounds(w, h, x - 1, y) ==> (x - 1 == ex && y == ey) || cell_at(g2, w, x - 1, y) is Some,
        in_bounds(w, h, x, y + 1) ==> (x == ex && y + 1 == ey) || cell_at(g2, w, x, y + 1) is Some,
        in_bounds(w, h, x, y - 1) ==> (x == ex && y - 1 == ey) || cell_at(g2, w, x, y - 1) is Some,
    ensures
        new_cells_closed(g0, g2, w, h),
{
    lemma_rowmajor_in_range(w, h, x, y);
    assert(extends(g0, g1));
    lemma_extends_trans(g0, g1, g2);
    // the entry cell, when it is not (x, y) itself, stays assigned
    if !(ex == x && ey == y) {
        lemma_rowmajor_in_range(w, h, ex, ey);
        assert(cell_at(g2, w, ex, ey) is Some);
    }
    assert(crate::grid::neighbors_filled(g2, w, h, x, y));
    assert forall|x2: int, y2: int|
        in_bounds(w, h, x2, y2) && #[trigger] cell_at(g2, w, x2, y2) is Some && cell_at(
            g0,
            w,
            x2,
            y2,
        ) is None implies crate::grid::neighbors_filled(g2, w, h, x2, y2)
    by {
        lemma_rowmajor_in_range(w, h, x2, y2);
        if x2 == x && y2 == y {
        } else {
            if y2 * w + x2 == y * w + x {
                lemma_rowmajor_injective(w, h, x2, y2, x, y);
            }
            assert(cell_at(g1, w, x2, y2) == cell_at(g0, w, x2, y2));
            assert(cell_at(g1, w, x2, y2) is None);
        }
    }
}

/// With a single unconstrained tile, a run of the placer that succeeds on
/// an initially blank grid yields a valid grid: the grid is connectedly
/// filled from the origin, every index points at the one tile, and there
/// is no rule to break.
proof fn lemma_singleton_valid(
    cat: Seq<TileType>,
    e0: Seq<Option<usize>>,
    cells: Seq<Option<usize>>,
    w: int,
    h: int,
)
    requires
        singleton_unconstrained(cat),
        e0.len() == w * h,
        w >= 0,
        h >= 0,
        forall|i: int| 0 <= i < e0.len() ==> e0[i] is None,
        cells.len() == w * h,
        cells_indices_below(cells, cat.len() as int),
        extends(e0, cells),
        new_cells_closed(e0, cells, w, h),
        in_bounds(w, h, 0, 0) ==> cell_at(cells, w, 0, 0) is Some,
    ensures
        grid_valid(cat, cells, w, h),
{
    assert forall|x: int, y: int| in_bounds(w, h, x, y) implies #[trigger] tile_ok_at(
        cat,
        cells,
        w,
        h,
        x,
        y,
    ) by {
        lemma_rowmajor_in_range(w, h, x, y);
        assert(in_bounds(w, h, 0, 0));
        assert forall|x2: int, y2: int|
            in_bounds(w, h, x2, y2) && #[trigger] cell_at(cells, w, x2, y2) is Some implies
            crate::grid::neighbors_filled(cells, w, h, x2, y2)
        by {
            lemma_rowmajor_in_range(w, h, x2, y2);
            assert(cell_at(e0, w, x2, y2) is None);
        }
        lemma_closed_grid_complete(cells, w, h, x, y);
        assert(cell_at(cells, w, x, y) is Some);
        assert(cell_at(cells, w, x, y)->0 < 1);
    }
}

} // verus!
