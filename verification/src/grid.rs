//! The hex grid store: the addressable set of tiles, generated once per
//! board as a spiral of rings around the goal at the origin.
use crate::components::{Tile, TileType};
use crate::hex::{
    Hex, adjacent, hex_dist, is_ring_point, lemma_dist_zero, lemma_ring_cover,
    lemma_ring_point_dist, lemma_ring_point_distinct, on_edge, origin, ring_point_at, ring_slot,
};
use crate::rng::rng_range;
use vstd::prelude::*;

verus! {

/// Dense storage of the board: `tiles[k]` is the record of cell `coords[k]`.
/// The coordinate list is the spiral enumeration of all cells within the
/// board radius, so lookups resolve a coordinate to its index.
pub struct HexGrid {
    pub radius: u32,
    pub coords: Vec<Hex>,
    pub tiles: Vec<Tile>,
}

impl HexGrid {
    /// The grid's addressable cells all lie within the board radius, are
    /// stored once each, start with the goal cell at the origin, and the
    /// goal flag marks exactly the origin.
    pub open spec fn wf(self) -> bool {
        &&& 1 <= self.radius <= 64
        &&& self.coords@.len() == self.tiles@.len()
        &&& self.coords@.len() <= 25000
        &&& self.coords@.len() >= 1
        &&& self.coords@[0] == origin()
        &&& self.coords@.no_duplicates()
        &&& forall|k: int|
            0 <= k < self.coords@.len() ==> hex_dist(origin(), #[trigger] self.coords@[k])
                <= self.radius
        &&& forall|k: int|
            0 <= k < self.coords@.len() ==> ((#[trigger] self.tiles@[k]).is_goal <==> self.coords@[k]
                == origin())
        &&& forall|h: Hex|
            hex_dist(origin(), h) <= self.radius ==> #[trigger] self.coords@.contains(h)
    }

    /// Whether a coordinate is addressable on this board.
    pub open spec fn contains_hex(self, h: Hex) -> bool {
        self.coords@.contains(h)
    }

    /// Index of an addressable coordinate.
    pub open spec fn idx_of(self, h: Hex) -> int {
        self.coords@.index_of(h)
    }

    /// The tile record of an addressable coordinate.
    pub open spec fn tile_at(self, h: Hex) -> Tile {
        self.tiles@[self.idx_of(h)]
    }

    /// A contained coordinate's index is in range, reads back to the
    /// coordinate, and is the only index holding it.
    pub proof fn lemma_idx_of(self, h: Hex)
        requires
            self.wf(),
            self.contains_hex(h),
        ensures
            0 <= self.idx_of(h) < self.coords@.len(),
            self.coords@[self.idx_of(h)] == h,
            forall|k: int|
                0 <= k < self.coords@.len() && self.coords@[k] == h ==> k == self.idx_of(h),
    {
        let i = self.idx_of(h);
        assert(exists|k: int| 0 <= k < self.coords@.len() && self.coords@[k] == h);
        assert(0 <= i < self.coords@.len() && self.coords@[i] == h);
    }

    /// Cost of entering a cell for the route search: plains are free,
    /// mountains and tower-occupied cells carry the large avoidance penalty,
    /// cells off the board are not traversable.
    pub open spec fn route_cost_spec(self, h: Hex) -> Option<u32> {
        if !self.contains_hex(h) {
            None
        } else {
            let t = self.tile_at(h);
            if t.has_tower || t.tile_type == TileType::Mountain {
                Some(1000u32)
            } else {
                Some(0u32)
            }
        }
    }

    pub fn route_cost(&self, h: Hex) -> (r: Option<u32>)
        requires
            self.wf(),
        ensures
            r == self.route_cost_spec(h),
    {
        match self.resolve(h) {
            None => None,
            Some(i) => {
                let t = self.tiles[i];
                if t.has_tower || matches!(t.tile_type, TileType::Mountain) {
                    Some(1000)
                } else {
                    Some(0)
                }
            },
        }
    }

    /// Resolve a coordinate to its tile index; fails exactly off the board.
    pub fn resolve(&self, h: Hex) -> (r: Option<usize>)
        requires
            self.wf(),
        ensures
            match r {
                Some(i) => self.contains_hex(h) && i == self.idx_of(h) && i < self.tiles@.len(),
                None => !self.contains_hex(h),
            },
    {
        let n = self.coords.len();
        let mut k: usize = 0;
        while k < n
            invariant
                k <= n,
                n == self.coords@.len(),
                forall|j: int| 0 <= j < k ==> self.coords@[j] != h,
            decreases n - k,
        {
            if self.coords[k] == h {
                proof {
                    assert(self.coords@.contains(h));
                    self.lemma_idx_of(h);
                }
                return Some(k);
            }
            k += 1;
        }
        proof {
            assert forall|j: int| 0 <= j < self.coords@.len() implies self.coords@[j] != h by {}
            if self.coords@.contains(h) {
                let w = choose|j: int| 0 <= j < self.coords@.len() && self.coords@[j] == h;
                assert(false);
            }
        }
        None
    }
}

/// A candidate route: from `start` to `goal` in single adjacent steps,
/// never leaving the board.
pub open spec fn is_grid_route(g: HexGrid, q: Seq<Hex>, start: Hex, goal: Hex) -> bool {
    &&& q.len() >= 1
    &&& q[0] == start
    &&& q[q.len() - 1] == goal
    &&& forall|j: int| 0 <= j < q.len() - 1 ==> adjacent(#[trigger] q[j], q[j + 1])
    &&& forall|j: int| 0 <= j < q.len() ==> g.contains_hex(#[trigger] q[j])
}

/// How many cells of a route carry the avoidance penalty (mountain or
/// tower-occupied).
pub open spec fn route_penalties(g: HexGrid, q: Seq<Hex>) -> nat
    decreases q.len(),
{
    if q.len() == 0 {
        0
    } else {
        route_penalties(g, q.drop_last()) + (if g.route_cost_spec(q.last()) == Some(1000u32) {
            1nat
        } else {
            0nat
        })
    }
}

/// Whether every cell of the board is free to cross at no cost: no
/// mountains, no towers.
pub open spec fn all_cells_free(g: HexGrid) -> bool {
    forall|h: Hex| g.contains_hex(h) ==> #[trigger] g.route_cost_spec(h) == Some(0u32)
}

/// Two grids with the same cells, terrain, and tower occupancy price every
/// cell alike, whatever their derived flags.
pub proof fn lemma_same_costs(g1: HexGrid, g2: HexGrid)
    requires
        g1.wf(),
        g2.wf(),
        g2.coords@ == g1.coords@,
        g2.tiles@.len() == g1.tiles@.len(),
        forall|k: int|
            0 <= k < g1.tiles@.len() ==> (#[trigger] g2.tiles@[k]).tile_type
                == g1.tiles@[k].tile_type && g2.tiles@[k].has_tower == g1.tiles@[k].has_tower,
    ensures
        forall|h: Hex|
            #![trigger g1.route_cost_spec(h)]
            #![trigger g2.route_cost_spec(h)]
            g2.route_cost_spec(h) == g1.route_cost_spec(h),
{
    assert forall|h: Hex|
        #![trigger g1.route_cost_spec(h)]
        #![trigger g2.route_cost_spec(h)]
        g2.route_cost_spec(h) == g1.route_cost_spec(h) by {
        if g1.contains_hex(h) {
            g1.lemma_idx_of(h);
            g2.lemma_idx_of(h);
            assert(g2.idx_of(h) == g1.idx_of(h));
        }
    }
}

/// Grids that price every cell alike price every route alike.
pub proof fn lemma_same_penalties(g1: HexGrid, g2: HexGrid, q: Seq<Hex>)
    requires
        forall|h: Hex|
            #![trigger g1.route_cost_spec(h)]
            #![trigger g2.route_cost_spec(h)]
            g2.route_cost_spec(h) == g1.route_cost_spec(h),
    ensures
        route_penalties(g2, q) == route_penalties(g1, q),
    decreases q.len(),
{
    if q.len() > 0 {
        lemma_same_penalties(g1, g2, q.drop_last());
    }
}

/// Spiral order on ring-edge slots.
pub open spec fn slot_earlier(r: int, d: int, i: int, r2: int, d2: int, i2: int) -> bool {
    r < r2 || (r == r2 && d < d2) || (r == r2 && d == d2 && i < i2)
}

/// `h` is the cell of some valid slot before `(r, d, i)` in spiral order.
pub open spec fn from_earlier_slot(h: Hex, r: int, d: int, i: int) -> bool {
    exists|rr: int, dd: int, ii: int|
        (ring_slot(rr, dd, ii) && slot_earlier(rr, dd, ii, r, d, i)) && #[trigger] is_ring_point(
            h,
            rr,
            dd,
            ii,
        )
}

/// Spiral order is transitive over the earlier-slot predicate.
proof fn lemma_earlier_mono(h: Hex, r: int, d: int, i: int, r2: int, d2: int, i2: int)
    requires
        from_earlier_slot(h, r, d, i),
        forall|rr: int, dd: int, ii: int|
            ring_slot(rr, dd, ii) && slot_earlier(rr, dd, ii, r, d, i) ==> slot_earlier(
                rr,
                dd,
                ii,
                r2,
                d2,
                i2,
            ),
    ensures
        from_earlier_slot(h, r2, d2, i2),
{
    let (rr, dd, ii): (int, int, int) = choose|rr: int, dd: int, ii: int|
        (ring_slot(rr, dd, ii) && slot_earlier(rr, dd, ii, r, d, i)) && #[trigger] is_ring_point(
            h,
            rr,
            dd,
            ii,
        );
    assert(is_ring_point(h, rr, dd, ii));
}

/// A slot's cell is uniquely determined.
pub proof fn lemma_ring_point_val(h: Hex, r: int, d: int, i: int)
    requires
        is_ring_point(h, r, d, i),
    ensures
        ring_point_val(r, d, i) == h,
{
    assert(exists|hh: Hex| is_ring_point(hh, r, d, i));
    let w = ring_point_val(r, d, i);
    assert(is_ring_point(w, r, d, i));
}

/// Generate the coordinate and tile arrays for a fresh board: the origin
/// goal tile first, then each ring from 1 to the radius. Terrain is drawn
/// at random, one chance in four of a mountain; all derived flags start
/// clear.
pub(crate) fn generate_grid(
    radius: u32,
    spawns: &Vec<Hex>,
    rng: &mut rand::rngs::StdRng,
) -> (g: HexGrid)
    requires
        1 <= radius <= 64,
        spawns@.len() == 6,
        forall|j: int| 0 <= j < 6 ==> hex_dist(origin(), #[trigger] spawns@[j]) == radius,
        forall|j: int| 0 <= j < 6 ==> on_edge(#[trigger] spawns@[j], radius as int, j),
    ensures
        g.wf(),
        g.radius == radius,
        forall|j: int| 0 <= j < 6 ==> g.contains_hex(#[trigger] spawns@[j]),
        forall|k: int|
            0 <= k < g.coords@.len() ==> ((#[trigger] g.tiles@[k]).is_spawn <==> spawns@.contains(
                g.coords@[k],
            )),
        forall|k: int|
            0 <= k < g.coords@.len() ==> {
                let t = #[trigger] g.tiles@[k];
                !t.on_path && !t.has_tower && !t.is_cursor && t.damaging is None
            },
{
    let mut coords: Vec<Hex> = Vec::new();
    let mut tiles: Vec<Tile> = Vec::new();
    let origin_spawn = contains_hex_vec(spawns, Hex::zero());
    coords.push(Hex::zero());
    tiles.push(
        Tile {
            tile_type: TileType::Plains,
            is_cursor: false,
            is_goal: true,
            is_spawn: origin_spawn,
            has_tower: false,
            on_path: false,
            damaging: None,
        },
    );
    let mut r: u32 = 1;
    while r <= radius
        invariant
            1 <= r <= radius + 1,
            coords@.len() <= 1 + 384 * (r - 1),
            coords@.len() == tiles@.len(),
            coords@.len() >= 1,
            coords@[0] == origin(),
            coords@.no_duplicates(),
            forall|k: int|
                1 <= k < coords@.len() ==> from_earlier_slot(
                    #[trigger] coords@[k],
                    r as int,
                    0,
                    0,
                ),
            forall|rr: int, dd: int, ii: int|
                ring_slot(rr, dd, ii) && slot_earlier(rr, dd, ii, r as int, 0, 0)
                    ==> coords@.contains(#[trigger] ring_point_val(rr, dd, ii)),
            forall|k: int|
                0 <= k < coords@.len() ==> hex_dist(origin(), #[trigger] coords@[k]) <= radius,
            forall|k: int|
                0 <= k < coords@.len() ==> ((#[trigger] tiles@[k]).is_goal <==> coords@[k]
                    == origin()),
            forall|k: int|
                0 <= k < coords@.len() ==> ((#[trigger] tiles@[k]).is_spawn <==> spawns@.contains(
                    coords@[k],
                )),
            forall|k: int|
                0 <= k < coords@.len() ==> {
                    let t = #[trigger] tiles@[k];
                    !t.on_path && !t.has_tower && !t.is_cursor && t.damaging is None
                },
        decreases radius + 1 - r,
    {
        let mut d: u32 = 0;
        while d < 6
            invariant
                d <= 6,
                1 <= r <= radius,
                coords@.len() <= 1 + 384 * (r - 1) + 64 * d,
                coords@.len() == tiles@.len(),
                coords@.len() >= 1,
                coords@[0] == origin(),
                coords@.no_duplicates(),
                forall|k: int|
                    1 <= k < coords@.len() ==> from_earlier_slot(
                        #[trigger] coords@[k],
                        r as int,
                        d as int,
                        0,
                    ),
                forall|rr: int, dd: int, ii: int|
                    ring_slot(rr, dd, ii) && slot_earlier(rr, dd, ii, r as int, d as int, 0)
                        ==> coords@.contains(#[trigger] ring_point_val(rr, dd, ii)),
                forall|k: int|
                    0 <= k < coords@.len() ==> hex_dist(origin(), #[trigger] coords@[k]) <= radius,
                forall|k: int|
                    0 <= k < coords@.len() ==> ((#[trigger] tiles@[k]).is_goal <==> coords@[k]
                        == origin()),
                forall|k: int|
                    0 <= k < coords@.len() ==> ((#[trigger] tiles@[k]).is_spawn
                        <==> spawns@.contains(coords@[k])),
                forall|k: int|
                    0 <= k < coords@.len() ==> {
                        let t = #[trigger] tiles@[k];
                        !t.on_path && !t.has_tower && !t.is_cursor && t.damaging is None
                    },
            decreases 6 - d,
        {
            let mut i: u32 = 0;
            while i < r
                invariant
                    i <= r,
                    d < 6,
                    1 <= r <= radius,
                    coords@.len() <= 1 + 384 * (r - 1) + 64 * d + i,
                    coords@.len() == tiles@.len(),
                    coords@.len() >= 1,
                    coords@[0] == origin(),
                    coords@.no_duplicates(),
                    forall|k: int|
                        1 <= k < coords@.len() ==> from_earlier_slot(
                            #[trigger] coords@[k],
                            r as int,
                            d as int,
                            i as int,
                        ),
                    forall|rr: int, dd: int, ii: int|
                        ring_slot(rr, dd, ii) && slot_earlier(
                            rr,
                            dd,
                            ii,
                            r as int,
                            d as int,
                            i as int,
                        ) ==> coords@.contains(#[trigger] ring_point_val(rr, dd, ii)),
                    forall|k: int|
                        0 <= k < coords@.len() ==> hex_dist(origin(), #[trigger] coords@[k])
                            <= radius,
                    forall|k: int|
                        0 <= k < coords@.len() ==> ((#[trigger] tiles@[k]).is_goal <==> coords@[k]
                            == origin()),
                    forall|k: int|
                        0 <= k < coords@.len() ==> ((#[trigger] tiles@[k]).is_spawn
                            <==> spawns@.contains(coords@[k])),
                    forall|k: int|
                        0 <= k < coords@.len() ==> {
                            let t = #[trigger] tiles@[k];
                            !t.on_path && !t.has_tower && !t.is_cursor && t.damaging is None
                        },
                decreases r - i,
            {
                let ghost old_coords = coords@;
                let p = ring_point_at(r, d, i);
                proof {
                    lemma_ring_point_dist(p, r as int, d as int, i as int);
                    assert forall|k: int| 0 <= k < old_coords.len() implies old_coords[k] != p by {
                        if k == 0 {
                            assert(hex_dist(origin(), origin()) == 0);
                        } else {
                            let (rr, dd, ii): (int, int, int) = choose|rr: int, dd: int, ii: int|
                                (ring_slot(rr, dd, ii) && slot_earlier(
                                    rr,
                                    dd,
                                    ii,
                                    r as int,
                                    d as int,
                                    i as int,
                                )) && #[trigger] is_ring_point(old_coords[k], rr, dd, ii);
                            lemma_ring_point_distinct(
                                old_coords[k],
                                p,
                                rr,
                                dd,
                                ii,
                                r as int,
                                d as int,
                                i as int,
                            );
                        }
                    }
                }
                let is_spawn = contains_hex_vec(spawns, p);
                let roll = rng_range(rng, 0, 3);
                let tile_type = if roll == 3 {
                    TileType::Mountain
                } else {
                    TileType::Plains
                };
                coords.push(p);
                tiles.push(
                    Tile {
                        tile_type,
                        is_cursor: false,
                        is_goal: false,
                        is_spawn,
                        has_tower: false,
                        on_path: false,
                        damaging: None,
                    },
                );
                proof {
                    assert(coords@ == old_coords.push(p));
                    assert forall|k1: int, k2: int|
                        0 <= k1 < k2 < coords@.len() implies coords@[k1] != coords@[k2] by {
                        if k2 == coords@.len() - 1 {
                            assert(coords@[k1] == old_coords[k1]);
                        }
                    }
                    assert(coords@.no_duplicates());
                    assert forall|k: int| 1 <= k < coords@.len() implies from_earlier_slot(
                        #[trigger] coords@[k],
                        r as int,
                        d as int,
                        i + 1,
                    ) by {
                        if k < coords@.len() - 1 {
                            lemma_earlier_mono(
                                coords@[k],
                                r as int,
                                d as int,
                                i as int,
                                r as int,
                                d as int,
                                i + 1,
                            );
                        } else {
                            assert(is_ring_point(p, r as int, d as int, i as int));
                            assert(from_earlier_slot(p, r as int, d as int, i + 1));
                        }
                    }
                    assert forall|rr: int, dd: int, ii: int|
                        ring_slot(rr, dd, ii) && slot_earlier(
                            rr,
                            dd,
                            ii,
                            r as int,
                            d as int,
                            i + 1,
                        ) implies coords@.contains(#[trigger] ring_point_val(rr, dd, ii)) by {
                        if slot_earlier(rr, dd, ii, r as int, d as int, i as int) {
                            assert(old_coords.contains(ring_point_val(rr, dd, ii)));
                            let w = choose|k: int|
                                0 <= k < old_coords.len() && old_coords[k] == ring_point_val(
                                    rr,
                                    dd,
                                    ii,
                                );
                            assert(coords@[w] == ring_point_val(rr, dd, ii));
                        } else {
                            lemma_ring_point_val(p, r as int, d as int, i as int);
                            assert(coords@[coords@.len() - 1] == p);
                        }
                    }
                }
                i += 1;
            }
            proof {
                assert forall|k: int| 1 <= k < coords@.len() implies from_earlier_slot(
                    #[trigger] coords@[k],
                    r as int,
                    d + 1,
                    0,
                ) by {
                    lemma_earlier_mono(
                        coords@[k],
                        r as int,
                        d as int,
                        r as int,
                        r as int,
                        d + 1,
                        0,
                    );
                }
            }
            d += 1;
        }
        proof {
            assert forall|k: int| 1 <= k < coords@.len() implies from_earlier_slot(
                #[trigger] coords@[k],
                r + 1,
                0,
                0,
            ) by {
                lemma_earlier_mono(coords@[k], r as int, 6, 0, r + 1, 0, 0);
            }
        }
        r += 1;
    }
    proof {
        assert forall|j: int| 0 <= j < 6 implies coords@.contains(#[trigger] spawns@[j]) by {
            assert(on_edge(spawns@[j], radius as int, j));
            let ii = choose|ii: int|
                0 <= ii < radius && is_ring_point(spawns@[j], radius as int, j, ii);
            assert(ring_slot(radius as int, j, ii));
            assert(slot_earlier(radius as int, j, ii, radius + 1, 0, 0));
            assert(coords@.contains(ring_point_val(radius as int, j, ii)));
            lemma_ring_point_val(spawns@[j], radius as int, j, ii);
        }
        assert forall|h: Hex|
            hex_dist(origin(), h) <= radius implies #[trigger] coords@.contains(h) by {
            let dist = hex_dist(origin(), h);
            if dist == 0 {
                lemma_dist_zero(h);
                assert(coords@[0] == h);
            } else {
                lemma_ring_cover(h, dist);
                let (dd, ii): (int, int) = choose|dd: int, ii: int|
                    ring_slot(dist, dd, ii) && #[trigger] is_ring_point(h, dist, dd, ii);
                assert(slot_earlier(dist, dd, ii, radius + 1, 0, 0));
                assert(coords@.contains(ring_point_val(dist, dd, ii)));
                lemma_ring_point_val(h, dist, dd, ii);
            }
        }
    }
    HexGrid { radius, coords, tiles }
}

/// The cell at a ring-edge slot, as a value.
pub open spec fn ring_point_val(r: int, d: int, i: int) -> Hex {
    choose|h: Hex| is_ring_point(h, r, d, i)
}

/// Membership test on a coordinate list.
pub fn contains_hex_vec(v: &Vec<Hex>, h: Hex) -> (r: bool)
    ensures
        r == v@.contains(h),
{
    let n = v.len();
    let mut k: usize = 0;
    while k < n
        invariant
            k <= n,
            n == v@.len(),
            forall|j: int| 0 <= j < k ==> v@[j] != h,
        decreases n - k,
    {
        if v[k] == h {
            return true;
        }
        k += 1;
    }
    false
}

} // verus!
