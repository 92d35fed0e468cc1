//! The streaming controller: keeps the resident chunk window centred on the
//! viewpoint, driving the slot pool and emitting generation requests, and
//! computes the frustum-culled draw list over resident slots.

use vstd::prelude::*;
use vstd::arithmetic::div_mod::{
    lemma_fundamental_div_mod,
    lemma_fundamental_div_mod_converse,
    lemma_div_is_ordered,
    lemma_div_multiples_vanish,
    lemma_multiply_divide_lt,
};
use vstd::set_lib::lemma_len_subset;
use crate::cache::{ChunkCache, ChunkSlot, ChunkState, coords_of, lemma_coords_of_membership,
    lemma_full_pool_resident};
use crate::coord::{ChunkCoord, CHUNK_WORLD_SIZE, world_to_chunk, chunk_bounds_visible};
use crate::frustum::{Plane, planes_in_bounds, PLANE_COEFF_BOUND};

verus! {

/// Largest accepted view radius; keeps every window computation comfortably
/// inside the machine integer ranges.
pub const MAX_VIEW_RADIUS: u32 = 0x3FFF;

/// The terrain-generation parameter set carried to the external generator.
///
/// Only `height_scale` is read by this engine, for the vertical culling
/// bound, and it is kept in whole world units. The remaining fractional
/// parameters are opaque here and are carried as IEEE-754 bit patterns;
/// the host encodes and decodes them at the boundary.
#[derive(Clone, Copy, Debug, PartialEq, Eq, Structural)]
pub struct TerrainSettings {
    pub terrain_scale_bits: u32,
    pub height_scale: i64,
    pub octaves: u32,
    pub warp_strength_bits: u32,
    pub height_variance_bits: u32,
    pub roughness_bits: u32,
    pub pattern_type: u32,
    pub seed: u32,
}

impl TerrainSettings {
    pub open spec fn wf(self) -> bool {
        0 <= self.height_scale <= PLANE_COEFF_BOUND
    }
}

/// One generation dispatch owed to the external generator: fill the slot's
/// resources with the chunk at `coord`, whose world offset and parameters
/// are carried along.
#[derive(Clone, Copy, Debug, PartialEq, Eq, Structural)]
pub struct GenerationRequest {
    pub slot: usize,
    pub coord: ChunkCoord,
    pub offset_x: i64,
    pub offset_z: i64,
    pub params: TerrainSettings,
}

/// Whether `c` lies in the square window of the given radius centred on
/// `cam`.
pub open spec fn in_window(cam: ChunkCoord, radius: int, c: ChunkCoord) -> bool {
    &&& cam.x - radius <= c.x <= cam.x + radius
    &&& cam.z - radius <= c.z <= cam.z + radius
}

/// The set of coordinates of the window.
pub open spec fn window_set(cam: ChunkCoord, radius: int) -> Set<ChunkCoord> {
    Set::new(|c: ChunkCoord| in_window(cam, radius, c))
}

/// Number of coordinates in a window of the given radius.
pub open spec fn window_count(radius: int) -> int {
    (2 * radius + 1) * (2 * radius + 1)
}

/// The `k`-th coordinate of the window, row-major from its low corner.
pub open spec fn window_coord(cam: ChunkCoord, radius: int, k: int) -> ChunkCoord {
    let n = 2 * radius + 1;
    ChunkCoord { x: (cam.x - radius + k % n) as i32, z: (cam.z - radius + k / n) as i32 }
}

/// Position of a window coordinate in the row-major enumeration.
pub open spec fn window_index(cam: ChunkCoord, radius: int, c: ChunkCoord) -> int {
    let n = 2 * radius + 1;
    (c.z - cam.z + radius) * n + (c.x - cam.x + radius)
}

/// The whole window stays inside the coordinate grid.
pub open spec fn window_fits(cam: ChunkCoord, radius: int) -> bool {
    &&& 0 <= radius <= MAX_VIEW_RADIUS
    &&& i32::MIN <= cam.x - radius
    &&& cam.x + radius <= i32::MAX
    &&& i32::MIN <= cam.z - radius
    &&& cam.z + radius <= i32::MAX
}

/// The row-major enumeration of the window is a bijection between
/// `[0, window_count)` and the window's coordinate set, and that set has
/// exactly `window_count` elements.
pub proof fn lemma_window_props(cam: ChunkCoord, radius: int)
    requires
        window_fits(cam, radius),
    ensures
        forall|k: int|
            0 <= k < window_count(radius) ==> in_window(
                cam,
                radius,
                #[trigger] window_coord(cam, radius, k),
            ),
        forall|k: int|
            0 <= k < window_count(radius) ==> window_index(
                cam,
                radius,
                #[trigger] window_coord(cam, radius, k),
            ) == k,
        forall|c: ChunkCoord|
            in_window(cam, radius, c) ==> 0 <= #[trigger] window_index(cam, radius, c)
                < window_count(radius) && window_coord(cam, radius, window_index(cam, radius, c))
                == c,
        window_set(cam, radius).finite(),
        window_set(cam, radius).len() == window_count(radius),
{
    let n = 2 * radius + 1;
    let n2 = window_count(radius);
    assert(n2 == n * n);
    assert(n <= 0x8000) by (nonlinear_arith)
        requires
            0 <= radius <= MAX_VIEW_RADIUS,
            n == 2 * radius + 1,
    ;
    assert forall|k: int| 0 <= k < n2 implies in_window(
        cam,
        radius,
        #[trigger] window_coord(cam, radius, k),
    ) && window_index(cam, radius, window_coord(cam, radius, k)) == k by {
        assert(0 <= k % n < n && k / n >= 0);
        assert(k / n < n) by {
            lemma_multiply_divide_lt(k, n, n);
        }
        let cx = cam.x - radius + k % n;
        let cz = cam.z - radius + k / n;
        assert(i32::MIN <= cx <= i32::MAX && i32::MIN <= cz <= i32::MAX);
        let c = window_coord(cam, radius, k);
        assert(c.x == cx && c.z == cz);
        assert(window_index(cam, radius, c) == (k / n) * n + k % n);
        assert(k == n * (k / n) + k % n) by {
            lemma_fundamental_div_mod(k, n);
        }
        assert((k / n) * n == n * (k / n)) by (nonlinear_arith);
    }
    assert forall|c: ChunkCoord| in_window(cam, radius, c) implies 0 <= #[trigger] window_index(
        cam,
        radius,
        c,
    ) < n2 && window_coord(cam, radius, window_index(cam, radius, c)) == c by {
        let qx = c.x - cam.x + radius;
        let qz = c.z - cam.z + radius;
        assert(0 <= qx < n && 0 <= qz < n);
        let k = qz * n + qx;
        assert(window_index(cam, radius, c) == k);
        assert(0 <= k < n2) by (nonlinear_arith)
            requires
                0 <= qx < n,
                0 <= qz < n,
                k == qz * n + qx,
                n2 == n * n,
        ;
        lemma_fundamental_div_mod_converse(k, n, qz, qx);
        assert(k % n == qx && k / n == qz);
    }
    let ws = Seq::new(n2 as nat, |k: int| window_coord(cam, radius, k));
    assert(ws.no_duplicates()) by {
        assert forall|k1: int, k2: int|
            0 <= k1 < ws.len() && 0 <= k2 < ws.len() && k1 != k2 implies ws[k1] != ws[k2] by {
            assert(window_index(cam, radius, window_coord(cam, radius, k1)) == k1);
            assert(window_index(cam, radius, window_coord(cam, radius, k2)) == k2);
        }
    }
    assert(window_set(cam, radius) =~= ws.to_set()) by {
        assert forall|c: ChunkCoord| window_set(cam, radius).contains(c) implies ws.to_set()
            .contains(c) by {
            let k = window_index(cam, radius, c);
            assert(ws[k] == c);
        }
        assert forall|c: ChunkCoord| ws.to_set().contains(c) implies window_set(cam, radius)
            .contains(c) by {
            let k = choose|k: int| 0 <= k < ws.len() && ws[k] == c;
            assert(in_window(cam, radius, window_coord(cam, radius, k)));
        }
    }
    ws.unique_seq_to_set();
}

/// The chunk containing the world position whose floored horizontal
/// coordinates are `(wx, wz)`.
pub open spec fn chunk_at(wx: int, wz: int) -> ChunkCoord {
    ChunkCoord { x: world_to_chunk(wx) as i32, z: world_to_chunk(wz) as i32 }
}

/// A viewpoint this far from the edges of the coordinate grid has its whole
/// window on the grid.
pub open spec fn viewpoint_in_range(w: int, radius: int) -> bool {
    -0x80_0000_0000 + CHUNK_WORLD_SIZE as int * radius <= w < 0x80_0000_0000
        - CHUNK_WORLD_SIZE as int * radius
}

pub proof fn lemma_viewpoint_window_fits(wx: int, wz: int, radius: int)
    requires
        0 <= radius <= MAX_VIEW_RADIUS,
        viewpoint_in_range(wx, radius),
        viewpoint_in_range(wz, radius),
    ensures
        window_fits(chunk_at(wx, wz), radius),
{
    lemma_world_axis_range(wx, radius);
    lemma_world_axis_range(wz, radius);
}

/// On one axis: a viewpoint in range lands in a chunk whose window span stays
/// within `i32`.
proof fn lemma_world_axis_range(w: int, radius: int)
    requires
        0 <= radius <= MAX_VIEW_RADIUS,
        viewpoint_in_range(w, radius),
    ensures
        -0x8000_0000 + radius <= world_to_chunk(w) <= 0x7FFF_FFFF - radius,
{
    let lo = -0x8000_0000 + radius;
    let hi = 0x8000_0000 - radius;
    assert(256 * lo <= w) by (nonlinear_arith)
        requires
            viewpoint_in_range(w, radius),
            lo == -0x8000_0000 + radius,
    ;
    lemma_div_is_ordered(256 * lo, w, 256);
    lemma_div_multiples_vanish(lo, 256);
    assert(w <= 256 * hi - 1) by (nonlinear_arith)
        requires
            viewpoint_in_range(w, radius),
            hi == 0x8000_0000 - radius,
    ;
    lemma_div_is_ordered(w, 256 * hi - 1, 256);
    assert((256 * hi - 1) / 256 == hi - 1) by {
        lemma_fundamental_div_mod_converse(256 * hi - 1, 256, hi - 1, 255);
    }
}

/// The `k`-th window coordinate around `cam`, for a window of radius `r32`
/// whose rows have `n` coordinates each.
fn nth_window_coord(cam: ChunkCoord, r32: u32, n: usize, k: usize) -> (c: ChunkCoord)
    requires
        window_fits(cam, r32 as int),
        n as int == 2 * (r32 as int) + 1,
        (k as int) < window_count(r32 as int),
    ensures
        c == window_coord(cam, r32 as int, k as int),
        in_window(cam, r32 as int, c),
        window_index(cam, r32 as int, c) == k as int,
{
    proof {
        lemma_window_props(cam, r32 as int);
        assert(window_count(r32 as int) == (n as int) * (n as int));
        assert((k as int) / (n as int) < n as int) by {
            lemma_multiply_divide_lt(k as int, n as int, n as int);
        }
    }
    let dx: usize = k % n;
    let dz: usize = k / n;
    let cx = cam.x as i64 - r32 as i64 + dx as i64;
    let cz = cam.z as i64 - r32 as i64 + dz as i64;
    let c = ChunkCoord::new(cx as i32, cz as i32);
    proof {
        assert(c == window_coord(cam, r32 as int, k as int));
    }
    c
}

/// The streaming terrain engine: the slot pool, the recency clock, the
/// current generation parameters and the pending-regeneration flag.
pub struct TerrainRenderer {
    pub cache: ChunkCache,
    pub current_frame: u64,
    pub view_radius: u32,
    pub settings: TerrainSettings,
    pub needs_regeneration: bool,
}

/// The pool capacity for a view radius: one slot per window coordinate.
pub fn window_capacity(view_radius: u32) -> (r: usize)
    requires
        view_radius <= MAX_VIEW_RADIUS,
    ensures
        r == window_count(view_radius as int),
{
    let n: u64 = 2 * view_radius as u64 + 1;
    proof {
        assert(n * n <= 0x8000 * 0x8000) by (nonlinear_arith)
            requires
                n <= 0x8000,
        ;
    }
    (n * n) as usize
}

impl TerrainRenderer {
    /// The pool matches the window size exactly, recency never runs ahead of
    /// the frame clock, and the parameters are in range.
    pub open spec fn wf(self) -> bool {
        &&& self.cache.wf()
        &&& self.view_radius <= MAX_VIEW_RADIUS
        &&& self.cache.slots@.len() == window_count(self.view_radius as int)
        &&& self.settings.wf()
        &&& forall|j: int|
            0 <= j < self.cache.slots@.len() ==> (#[trigger] self.cache.slots@[j]).last_used_frame
                <= self.current_frame
    }

    /// The set of currently resident chunk coordinates.
    pub open spec fn resident_set(self) -> Set<ChunkCoord> {
        self.cache.resident_set()
    }

    /// A cold engine: every slot empty, the frame clock at zero, no
    /// regeneration pending.
    pub fn new(capacity: usize, view_radius: u32, settings: TerrainSettings) -> (r: Self)
        requires
            view_radius <= MAX_VIEW_RADIUS,
            capacity == window_count(view_radius as int),
            settings.wf(),
        ensures
            r.wf(),
            r.view_radius == view_radius,
            r.settings == settings,
            r.current_frame == 0,
            r.needs_regeneration == false,
            r.cache.slots@.len() == capacity,
            forall|c: ChunkCoord| !r.cache.resident(c),
    {
        TerrainRenderer {
            cache: ChunkCache::new(capacity),
            current_frame: 0,
            view_radius,
            settings,
            needs_regeneration: false,
        }
    }

    /// Replaces the generation parameters. Regeneration is not triggered:
    /// the new parameters take effect for newly generated chunks, and for
    /// the whole resident set only once `queue_regeneration` is also called.
    pub fn update_settings(&mut self, settings: TerrainSettings)
        requires
            old(self).wf(),
            settings.wf(),
        ensures
            final(self).wf(),
            final(self).settings == settings,
            final(self).cache == old(self).cache,
            final(self).current_frame == old(self).current_frame,
            final(self).view_radius == old(self).view_radius,
            final(self).needs_regeneration == old(self).needs_regeneration,
    {
        self.settings = settings;
    }

    /// What the streaming pass promises of each emitted request: it names a
    /// window coordinate that was not resident when the pass began, and it
    /// carries that chunk's world offset and the engine's parameters.
    pub open spec fn request_ok(
        req: GenerationRequest,
        cam: ChunkCoord,
        radius: int,
        entry: ChunkCache,
        settings: TerrainSettings,
    ) -> bool {
        &&& in_window(cam, radius, req.coord)
        &&& !entry.resident(req.coord)
        &&& req.params == settings
        &&& req.offset_x as int == req.coord.x as int * CHUNK_WORLD_SIZE as int
        &&& req.offset_z as int == req.coord.z as int * CHUNK_WORLD_SIZE as int
    }

    /// What a whole emitted batch promises: every request is sound against
    /// the residency at the start of the pass, every window coordinate that
    /// was missing is requested, and no coordinate is requested twice.
    pub open spec fn batch_ok(
        batch: Seq<GenerationRequest>,
        cam: ChunkCoord,
        radius: int,
        entry: ChunkCache,
        settings: TerrainSettings,
    ) -> bool {
        &&& forall|b: int|
            0 <= b < batch.len() ==> Self::request_ok(
                #[trigger] batch[b],
                cam,
                radius,
                entry,
                settings,
            )
        &&& forall|c: ChunkCoord|
            in_window(cam, radius, c) && !entry.resident(c) ==> exists|b: int|
                0 <= b < batch.len() && (#[trigger] batch[b]).coord == c
        &&& forall|b1: int, b2: int|
            #![trigger batch[b1], batch[b2]]
            0 <= b1 < batch.len() && 0 <= b2 < batch.len() && b1 != b2 ==> batch[b1].coord
                != batch[b2].coord
    }

    /// What a full regeneration batch promises: one request for every window
    /// coordinate, each carrying the engine's parameters and its chunk's
    /// world offset, and no coordinate twice.
    pub open spec fn covers_window(
        batch: Seq<GenerationRequest>,
        cam: ChunkCoord,
        radius: int,
        settings: TerrainSettings,
    ) -> bool {
        &&& forall|b: int|
            0 <= b < batch.len() ==> in_window(cam, radius, (#[trigger] batch[b]).coord)
                && batch[b].params == settings && batch[b].offset_x as int == batch[b].coord.x
                as int * CHUNK_WORLD_SIZE as int && batch[b].offset_z as int == batch[b].coord.z
                as int * CHUNK_WORLD_SIZE as int
        &&& forall|c: ChunkCoord|
            in_window(cam, radius, c) ==> exists|b: int|
                0 <= b < batch.len() && (#[trigger] batch[b]).coord == c
        &&& forall|b1: int, b2: int|
            #![trigger batch[b1], batch[b2]]
            0 <= b1 < batch.len() && 0 <= b2 < batch.len() && b1 != b2 ==> batch[b1].coord
                != batch[b2].coord
    }

    /// The streaming pass: walks the window of the current radius around
    /// `cam` in row-major order and makes every window coordinate resident.
    /// A coordinate already resident (and already refreshed to `tick`) is
    /// kept; a missing one takes an empty slot, or evicts the stalest slot,
    /// and yields one generation request. After the pass the resident set is
    /// exactly the window.
    #[verifier::rlimit(40)]
    #[verifier::loop_isolation(false)]
    fn ensure_window(&mut self, cam: ChunkCoord, tick: u64) -> (batch: Vec<GenerationRequest>)
        requires
            old(self).wf(),
            window_fits(cam, old(self).view_radius as int),
            tick <= old(self).current_frame,
            forall|j: int|
                0 <= j < old(self).cache.slots@.len() ==> (#[trigger] old(
                    self,
                ).cache.slots@[j]).last_used_frame <= tick,
            forall|j: int|
                0 <= j < old(self).cache.slots@.len() && (#[trigger] old(
                    self,
                ).cache.slots@[j]).last_used_frame == tick && old(self).cache.slots@[j].coord
                    is Some ==> in_window(
                    cam,
                    old(self).view_radius as int,
                    old(self).cache.slots@[j].coord->0,
                ),
            forall|j: int|
                0 <= j < old(self).cache.slots@.len() && (#[trigger] old(
                    self,
                ).cache.slots@[j]).coord is Some && in_window(
                    cam,
                    old(self).view_radius as int,
                    old(self).cache.slots@[j].coord->0,
                ) ==> old(self).cache.slots@[j].last_used_frame == tick,
        ensures
            final(self).wf(),
            final(self).current_frame == old(self).current_frame,
            final(self).view_radius == old(self).view_radius,
            final(self).settings == old(self).settings,
            final(self).needs_regeneration == old(self).needs_regeneration,
            final(self).cache.slots@.len() == old(self).cache.slots@.len(),
            final(self).cache.resident_set() == window_set(cam, old(self).view_radius as int),
            Self::batch_ok(
                batch@,
                cam,
                old(self).view_radius as int,
                old(self).cache,
                old(self).settings,
            ),
            forall|b: int|
                0 <= b < batch@.len() ==> (#[trigger] batch@[b]).slot < old(
                    self,
                ).cache.slots@.len() && final(self).cache.slots@[batch@[b].slot as int].coord
                    == Some(batch@[b].coord),
            forall|j: int|
                0 <= j < old(self).cache.slots@.len() && (#[trigger] old(
                    self,
                ).cache.slots@[j]).coord is Some && in_window(
                    cam,
                    old(self).view_radius as int,
                    old(self).cache.slots@[j].coord->0,
                ) ==> final(self).cache.slots@[j] == old(self).cache.slots@[j],
    {
        let ghost radius = self.view_radius as int;
        let ghost entry_cache = self.cache;
        let r32 = self.view_radius;
        let n: usize = 2 * (r32 as usize) + 1;
        let n2: usize = self.cache.slots.len();
        proof {
            lemma_window_props(cam, radius);
            assert(n2 as int == (n as int) * (n as int));
        }
        let mut batch: Vec<GenerationRequest> = Vec::new();
        let mut k: usize = 0;
        while k < n2
            invariant
                self.cache.wf(),
                self.view_radius == old(self).view_radius,
                self.settings == old(self).settings,
                self.current_frame == old(self).current_frame,
                self.needs_regeneration == old(self).needs_regeneration,
                self.cache.slots@.len() == n2,
                k <= n2,
                forall|j: int|
                    0 <= j < n2 ==> (#[trigger] self.cache.slots@[j]).last_used_frame <= tick,
                forall|j: int|
                    0 <= j < n2 && (#[trigger] self.cache.slots@[j]).last_used_frame == tick
                        && self.cache.slots@[j].coord is Some ==> in_window(
                        cam,
                        radius,
                        self.cache.slots@[j].coord->0,
                    ),
                forall|j: int|
                    0 <= j < n2 && (#[trigger] self.cache.slots@[j]).coord is Some && in_window(
                        cam,
                        radius,
                        self.cache.slots@[j].coord->0,
                    ) ==> self.cache.slots@[j].last_used_frame == tick,
                forall|m: int|
                    0 <= m < k ==> self.cache.resident(#[trigger] window_coord(cam, radius, m)),
                forall|c: ChunkCoord| #[trigger]
                    self.cache.resident(c) ==> entry_cache.resident(c) || (in_window(
                        cam,
                        radius,
                        c,
                    ) && window_index(cam, radius, c) < k),
                forall|c: ChunkCoord| #[trigger]
                    entry_cache.resident(c) && in_window(cam, radius, c) ==> self.cache.resident(
                        c,
                    ),
                forall|j: int|
                    0 <= j < n2 && (#[trigger] entry_cache.slots@[j]).coord is Some && in_window(
                        cam,
                        radius,
                        entry_cache.slots@[j].coord->0,
                    ) ==> self.cache.slots@[j] == entry_cache.slots@[j],
                forall|b: int|
                    0 <= b < batch@.len() ==> Self::request_ok(
                        #[trigger] batch@[b],
                        cam,
                        radius,
                        entry_cache,
                        old(self).settings,
                    ) && batch@[b].slot < n2 && self.cache.slots@[batch@[b].slot as int].coord
                        == Some(batch@[b].coord) && self.cache.slots@[batch@[b].slot as int].last_used_frame
                        == tick && window_index(cam, radius, batch@[b].coord) < k,
                forall|m: int|
                    0 <= m < k && !entry_cache.resident(#[trigger] window_coord(cam, radius, m))
                        ==> exists|b: int|
                        0 <= b < batch@.len() && (#[trigger] batch@[b]).coord == window_coord(
                            cam,
                            radius,
                            m,
                        ),
                forall|b1: int, b2: int|
                    #![trigger batch@[b1], batch@[b2]]
                    0 <= b1 < batch@.len() && 0 <= b2 < batch@.len() && b1 != b2 ==> batch@[b1].coord
                        != batch@[b2].coord,
            decreases n2 - k,
        {
            let c = nth_window_coord(cam, r32, n, k);
            match self.cache.lookup(c) {
                Some(_idx) => {
                    proof {
                        assert(self.cache.resident(c));
                        assert(entry_cache.resident(c));
                    }
                },
                None => {
                    let idx = self.cache.allocate_or_evict();
                    let ghost pre = self.cache;
                    proof {
                        if !self.cache.has_empty() {
                            assert forall|j: int| 0 <= j < n2 implies (#[trigger] self
                                .cache
                                .slots@[j]).coord is Some by {
                                assert(self.cache.slots@[j].state != ChunkState::Empty);
                                assert(crate::cache::slot_wf(self.cache.slots@[j]));
                            }
                            if self.cache.slots@[idx as int].last_used_frame == tick {
                                assert forall|j: int| 0 <= j < n2 implies (#[trigger] self
                                    .cache
                                    .slots@[j]).last_used_frame == tick by {}
                                assert forall|d: ChunkCoord| self.cache.resident(d) implies
                                    window_set(cam, radius).contains(d) by {
                                    let j = choose|j: int|
                                        0 <= j < n2 && #[trigger] self.cache.slots@[j].coord
                                            == Some(d);
                                    assert(in_window(cam, radius, d));
                                }
                                lemma_full_pool_resident(self.cache, window_set(cam, radius), c);
                                assert(false);
                            }
                        } else {
                            assert(self.cache.slots@[idx as int].state == ChunkState::Empty);
                            assert(crate::cache::slot_wf(self.cache.slots@[idx as int]));
                        }
                        assert(pre.slots@[idx as int].coord is None || pre.slots@[idx
                            as int].last_used_frame < tick);
                        assert forall|i: int| 0 <= i < n2 && i != idx implies (#[trigger] self
                            .cache
                            .slots@[i]).coord != Some(c) by {}
                    }
                    self.cache.populate(idx, c, tick);
                    proof {
                        assert(self.cache.slots@ == pre.slots@.update(
                            idx as int,
                            (ChunkSlot {
                                state: ChunkState::Ready,
                                coord: Some(c),
                                last_used_frame: tick,
                            }),
                        ));
                        // a slot holding a window coordinate is at the tick, so it is
                        // not the reused slot and survives unchanged
                        assert forall|m: int| 0 <= m < k implies self.cache.resident(
                            #[trigger] window_coord(cam, radius, m),
                        ) by {
                            let wc = window_coord(cam, radius, m);
                            let j = choose|j: int|
                                0 <= j < n2 && #[trigger] pre.slots@[j].coord == Some(wc);
                            assert(pre.slots@[j].last_used_frame == tick);
                            assert(j != idx);
                            assert(self.cache.slots@[j].coord == Some(wc));
                        }
                        assert forall|d: ChunkCoord| #[trigger]
                            self.cache.resident(d) implies entry_cache.resident(d) || (in_window(
                            cam,
                            radius,
                            d,
                        ) && window_index(cam, radius, d) < k + 1) by {
                            let j = choose|j: int|
                                0 <= j < n2 && #[trigger] self.cache.slots@[j].coord == Some(d);
                            if j != idx {
                                assert(pre.slots@[j].coord == Some(d));
                                assert(pre.resident(d));
                            }
                        }
                        assert forall|d: ChunkCoord| #[trigger]
                            entry_cache.resident(d) && in_window(cam, radius, d) implies self
                            .cache
                            .resident(d) by {
                            assert(pre.resident(d));
                            let j = choose|j: int|
                                0 <= j < n2 && #[trigger] pre.slots@[j].coord == Some(d);
                            assert(pre.slots@[j].last_used_frame == tick);
                            assert(j != idx);
                            assert(self.cache.slots@[j].coord == Some(d));
                        }
                        assert forall|j: int|
                            0 <= j < n2 && (#[trigger] entry_cache.slots@[j]).coord is Some
                                && in_window(cam, radius, entry_cache.slots@[j].coord->0) implies
                            self.cache.slots@[j] == entry_cache.slots@[j] by {
                            assert(pre.slots@[j] == entry_cache.slots@[j]);
                            assert(pre.slots@[j].last_used_frame == tick);
                            assert(j != idx);
                        }
                        // requests already emitted point at slots that are at the tick,
                        // so the reused slot is none of theirs
                        assert forall|b: int| 0 <= b < batch@.len() implies self
                            .cache
                            .slots@[(#[trigger] batch@[b]).slot as int] == pre.slots@[batch@[b].slot
                            as int] by {
                            assert(pre.slots@[batch@[b].slot as int].coord == Some(
                                batch@[b].coord,
                            ));
                            assert(pre.slots@[batch@[b].slot as int].last_used_frame == tick);
                            assert(batch@[b].slot as int != idx as int);
                        }
                    }
                    let (ox, oz) = c.world_offset();
                    let req = GenerationRequest {
                        slot: idx,
                        coord: c,
                        offset_x: ox,
                        offset_z: oz,
                        params: self.settings,
                    };
                    let ghost pre_batch = batch@;
                    batch.push(req);
                    proof {
                        assert(batch@ == pre_batch.push(req));
                        assert forall|m: int|
                            0 <= m < k + 1 && !entry_cache.resident(
                                #[trigger] window_coord(cam, radius, m),
                            ) implies exists|b: int|
                            0 <= b < batch@.len() && (#[trigger] batch@[b]).coord == window_coord(
                                cam,
                                radius,
                                m,
                            ) by {
                            let wc = window_coord(cam, radius, m);
                            if m < k {
                                let b = choose|b: int|
                                    0 <= b < pre_batch.len() && (#[trigger] pre_batch[b]).coord
                                        == wc;
                                assert(batch@[b].coord == wc);
                            } else {
                                assert(batch@[batch@.len() - 1].coord == wc);
                            }
                        }
                    }
                },
            }
            k += 1;
        }
        proof {
            let ws = window_set(cam, radius);
            let rs = self.cache.resident_set();
            lemma_coords_of_membership(self.cache.slots@);
            assert(rs =~= coords_of(self.cache.slots@));
            assert forall|c: ChunkCoord| ws.contains(c) implies rs.contains(c) by {
                let m = window_index(cam, radius, c);
                assert(window_coord(cam, radius, m) == c);
                assert(self.cache.resident(c));
            }
            assert(ws.subset_of(rs));
            lemma_len_subset(ws, rs);
            assert forall|c: ChunkCoord| rs.contains(c) implies ws.contains(c) by {
                if !ws.contains(c) {
                    ws.lemma_subset_not_in_lt(rs, c);
                    assert(false);
                }
            }
            assert(rs =~= ws);
            assert forall|c: ChunkCoord|
                in_window(cam, radius, c) && !entry_cache.resident(c) implies exists|b: int|
                0 <= b < batch@.len() && (#[trigger] batch@[b]).coord == c by {
                let m = window_index(cam, radius, c);
                assert(window_coord(cam, radius, m) == c);
            }
        }
        batch
    }

    /// One streaming tick: advances the frame clock and brings the resident
    /// set to the window centred on the viewpoint, whose floored world
    /// coordinates are `(wx, wz)`. Chunks already resident are refreshed;
    /// missing ones take empty or least-recently-used slots and are returned
    /// as one batch of generation requests for the host to dispatch before
    /// it renders.
    #[verifier::loop_isolation(false)]
    pub fn update(&mut self, wx: i64, wz: i64) -> (batch: Vec<GenerationRequest>)
        requires
            old(self).wf(),
            old(self).current_frame < u64::MAX,
            viewpoint_in_range(wx as int, old(self).view_radius as int),
            viewpoint_in_range(wz as int, old(self).view_radius as int),
        ensures
            final(self).wf(),
            final(self).current_frame == old(self).current_frame + 1,
            final(self).view_radius == old(self).view_radius,
            final(self).settings == old(self).settings,
            final(self).needs_regeneration == old(self).needs_regeneration,
            final(self).cache.slots@.len() == old(self).cache.slots@.len(),
            final(self).resident_set() == window_set(
                chunk_at(wx as int, wz as int),
                old(self).view_radius as int,
            ),
            Self::batch_ok(
                batch@,
                chunk_at(wx as int, wz as int),
                old(self).view_radius as int,
                old(self).cache,
                old(self).settings,
            ),
            forall|b: int|
                0 <= b < batch@.len() ==> (#[trigger] batch@[b]).slot < old(
                    self,
                ).cache.slots@.len() && final(self).cache.slots@[batch@[b].slot as int].coord
                    == Some(batch@[b].coord),
            // a chunk that stays in the window keeps its slot: only its
            // recency is refreshed, so its resources are never reshuffled
            forall|j: int|
                0 <= j < old(self).cache.slots@.len() && (#[trigger] old(
                    self,
                ).cache.slots@[j]).coord is Some && in_window(
                    chunk_at(wx as int, wz as int),
                    old(self).view_radius as int,
                    old(self).cache.slots@[j].coord->0,
                ) ==> final(self).cache.slots@[j].coord == old(self).cache.slots@[j].coord
                    && final(self).cache.slots@[j].state == old(self).cache.slots@[j].state
                    && final(self).cache.slots@[j].last_used_frame == old(self).current_frame
                    + 1,
    {
        let ghost radius = self.view_radius as int;
        let ghost entry_cache = self.cache;
        self.current_frame = self.current_frame + 1;
        let tick = self.current_frame;
        let cam = ChunkCoord::from_world_pos(wx, wz);
        proof {
            lemma_viewpoint_window_fits(wx as int, wz as int, radius);
            assert(cam == chunk_at(wx as int, wz as int));
            lemma_window_props(cam, radius);
        }
        let r32 = self.view_radius;
        let n: usize = 2 * (r32 as usize) + 1;
        let n2: usize = self.cache.slots.len();
        proof {
            assert(n2 as int == (n as int) * (n as int));
        }
        // first pass: refresh the recency of every window coordinate that is
        // already resident, so that this tick's evictions can only strike
        // slots outside the window
        let mut m: usize = 0;
        while m < n2
            invariant
                self.cache.wf(),
                self.view_radius == old(self).view_radius,
                self.settings == old(self).settings,
                self.current_frame == tick,
                self.needs_regeneration == old(self).needs_regeneration,
                self.cache.slots@.len() == n2,
                m <= n2,
                forall|j: int|
                    0 <= j < n2 ==> (#[trigger] self.cache.slots@[j]).coord
                        == entry_cache.slots@[j].coord && self.cache.slots@[j].state
                        == entry_cache.slots@[j].state,
                forall|c: ChunkCoord| #[trigger]
                    self.cache.resident(c) <==> entry_cache.resident(c),
                forall|j: int|
                    0 <= j < n2 ==> (#[trigger] self.cache.slots@[j]).last_used_frame <= tick,
                forall|j: int|
                    0 <= j < n2 && (#[trigger] self.cache.slots@[j]).last_used_frame == tick
                        ==> self.cache.slots@[j].coord is Some && in_window(
                        cam,
                        radius,
                        self.cache.slots@[j].coord->0,
                    ),
                forall|j: int|
                    0 <= j < n2 && (#[trigger] self.cache.slots@[j]).coord is Some && in_window(
                        cam,
                        radius,
                        self.cache.slots@[j].coord->0,
                    ) && window_index(cam, radius, self.cache.slots@[j].coord->0) < m ==> self
                        .cache
                        .slots@[j].last_used_frame == tick,
            decreases n2 - m,
        {
            let c = nth_window_coord(cam, r32, n, m);
            self.cache.touch(c, tick);
            m += 1;
        }
        proof {
            // after the pass, every resident window coordinate is at the tick
            assert forall|j: int|
                0 <= j < n2 && (#[trigger] self.cache.slots@[j]).coord is Some && in_window(
                    cam,
                    radius,
                    self.cache.slots@[j].coord->0,
                ) implies self.cache.slots@[j].last_used_frame == tick by {
                let d = self.cache.slots@[j].coord->0;
                assert(0 <= window_index(cam, radius, d) < window_count(radius));
            }
        }
        let ghost mid = *self;
        let batch = self.ensure_window(cam, tick);
        proof {
            assert forall|b: int| 0 <= b < batch@.len() implies Self::request_ok(
                #[trigger] batch@[b],
                cam,
                radius,
                entry_cache,
                old(self).settings,
            ) by {
                assert(Self::request_ok(batch@[b], cam, radius, mid.cache, old(self).settings));
                assert(mid.cache.resident(batch@[b].coord) <==> entry_cache.resident(
                    batch@[b].coord,
                ));
            }
            assert forall|c: ChunkCoord|
                in_window(cam, radius, c) && !entry_cache.resident(c) implies exists|b: int|
                0 <= b < batch@.len() && (#[trigger] batch@[b]).coord == c by {
                assert(!mid.cache.resident(c));
            }
            assert forall|j: int|
                0 <= j < entry_cache.slots@.len() && (#[trigger] entry_cache.slots@[j]).coord
                    is Some && in_window(cam, radius, entry_cache.slots@[j].coord->0) implies self
                .cache
                .slots@[j].coord == entry_cache.slots@[j].coord && self.cache.slots@[j].state
                == entry_cache.slots@[j].state && self.cache.slots@[j].last_used_frame
                == tick by {
                assert(mid.cache.slots@[j].coord == entry_cache.slots@[j].coord);
                assert(mid.cache.slots@[j].coord is Some);
                assert(self.cache.slots@[j] == mid.cache.slots@[j]);
            }
        }
        batch
    }

    /// Clears every slot and rebuilds the whole window around the viewpoint
    /// with the current parameters, returning one generation request per
    /// window coordinate. The pending-regeneration flag is lowered.
    pub fn regenerate_all_chunks(&mut self, wx: i64, wz: i64) -> (batch: Vec<GenerationRequest>)
        requires
            old(self).wf(),
            viewpoint_in_range(wx as int, old(self).view_radius as int),
            viewpoint_in_range(wz as int, old(self).view_radius as int),
        ensures
            final(self).wf(),
            final(self).current_frame == old(self).current_frame,
            final(self).view_radius == old(self).view_radius,
            final(self).settings == old(self).settings,
            final(self).needs_regeneration == false,
            final(self).cache.slots@.len() == old(self).cache.slots@.len(),
            final(self).resident_set() == window_set(
                chunk_at(wx as int, wz as int),
                old(self).view_radius as int,
            ),
            Self::covers_window(
                batch@,
                chunk_at(wx as int, wz as int),
                old(self).view_radius as int,
                old(self).settings,
            ),
            forall|b: int|
                0 <= b < batch@.len() ==> (#[trigger] batch@[b]).slot < old(
                    self,
                ).cache.slots@.len() && final(self).cache.slots@[batch@[b].slot as int].coord
                    == Some(batch@[b].coord),
    {
        let ghost radius = self.view_radius as int;
        let cam = ChunkCoord::from_world_pos(wx, wz);
        proof {
            lemma_viewpoint_window_fits(wx as int, wz as int, radius);
            assert(cam == chunk_at(wx as int, wz as int));
        }
        self.cache.invalidate_all();
        self.needs_regeneration = false;
        let tick = self.current_frame;
        let ghost mid = *self;
        let batch = self.ensure_window(cam, tick);
        proof {
            assert forall|c: ChunkCoord| in_window(cam, radius, c) implies exists|b: int|
                0 <= b < batch@.len() && (#[trigger] batch@[b]).coord == c by {
                assert(!mid.cache.resident(c));
            }
        }
        batch
    }

    /// Consumes the pending-regeneration flag: when it is raised, performs a
    /// full regeneration around the viewpoint and returns its batch; when it
    /// is not, changes nothing and returns no requests.
    pub fn check_regeneration(&mut self, wx: i64, wz: i64) -> (batch: Vec<GenerationRequest>)
        requires
            old(self).wf(),
            viewpoint_in_range(wx as int, old(self).view_radius as int),
            viewpoint_in_range(wz as int, old(self).view_radius as int),
        ensures
            final(self).wf(),
            final(self).needs_regeneration == false,
            final(self).current_frame == old(self).current_frame,
            final(self).view_radius == old(self).view_radius,
            final(self).settings == old(self).settings,
            final(self).cache.slots@.len() == old(self).cache.slots@.len(),
            old(self).needs_regeneration ==> final(self).resident_set() == window_set(
                chunk_at(wx as int, wz as int),
                old(self).view_radius as int,
            ) && Self::covers_window(
                batch@,
                chunk_at(wx as int, wz as int),
                old(self).view_radius as int,
                old(self).settings,
            ),
            !old(self).needs_regeneration ==> *final(self) == *old(self) && batch@.len() == 0,
    {
        if self.needs_regeneration {
            self.regenerate_all_chunks(wx, wz)
        } else {
            Vec::new()
        }
    }

    /// Whether the slot at `j` owes a draw under these frustum planes: it is
    /// ready, and its chunk's conservative box passes the visibility test.
    pub open spec fn slot_visible(self, j: int, planes: Seq<Plane>) -> bool {
        &&& self.cache.slots@[j].state == ChunkState::Ready
        &&& chunk_bounds_visible(
            self.cache.slots@[j].coord->0.spec_world_bounds(self.settings.height_scale as int),
            planes,
        )
    }

    /// The culled draw list: the indices of exactly those slots that are
    /// ready and whose chunk survives the frustum test, in ascending order.
    /// The host issues one draw per entry, in order, reading that slot's
    /// resources.
    #[verifier::loop_isolation(false)]
    pub fn render(&self, planes: &[Plane; 6]) -> (draws: Vec<usize>)
        requires
            self.wf(),
            planes_in_bounds(planes@),
        ensures
            forall|d: int|
                0 <= d < draws@.len() ==> (#[trigger] draws@[d]) < self.cache.slots@.len(),
            forall|d1: int, d2: int|
                0 <= d1 < d2 < draws@.len() ==> draws@[d1] < draws@[d2],
            forall|j: usize|
                (j as int) < self.cache.slots@.len() ==> (#[trigger] draws@.contains(j)
                    <==> self.slot_visible(j as int, planes@)),
    {
        let n2 = self.cache.slots.len();
        let mut draws: Vec<usize> = Vec::new();
        let mut i: usize = 0;
        while i < n2
            invariant
                i <= n2,
                forall|d: int| 0 <= d < draws@.len() ==> (#[trigger] draws@[d]) < i,
                forall|d1: int, d2: int|
                    0 <= d1 < d2 < draws@.len() ==> draws@[d1] < draws@[d2],
                forall|j: usize|
                    (j as int) < i ==> (#[trigger] draws@.contains(j) <==> self.slot_visible(
                        j as int,
                        planes@,
                    )),
            decreases n2 - i,
        {
            let slot = self.cache.slots[i];
            let ghost pre_draws = draws@;
            let mut pushed = false;
            if matches!(slot.state, ChunkState::Ready) {
                if let Some(c) = slot.coord {
                    if c.is_visible_in_frustum(planes, self.settings.height_scale) {
                        draws.push(i);
                        pushed = true;
                    }
                }
            }
            proof {
                if pushed {
                    assert(draws@ == pre_draws.push(i));
                    assert(draws@[draws@.len() - 1] == i);
                }
                assert forall|j: usize| (j as int) < i + 1 implies (#[trigger] draws@.contains(j)
                    <==> self.slot_visible(j as int, planes@)) by {
                    if pushed {
                        if j == i {
                            assert(draws@.contains(j));
                        } else {
                            assert(draws@.contains(j) <==> pre_draws.contains(j)) by {
                                if draws@.contains(j) {
                                    let d = choose|d: int|
                                        0 <= d < draws@.len() && draws@[d] == j;
                                    assert(d < pre_draws.len() && pre_draws[d] == j);
                                }
                                if pre_draws.contains(j) {
                                    let d = choose|d: int|
                                        0 <= d < pre_draws.len() && pre_draws[d] == j;
                                    assert(draws@[d] == j);
                                }
                            }
                        }
                    } else {
                        if j == i {
                            assert(!self.slot_visible(j as int, planes@));
                            if draws@.contains(j) {
                                let d = choose|d: int| 0 <= d < draws@.len() && draws@[d] == j;
                                assert(false);
                            }
                        }
                    }
                }
            }
            i += 1;
        }
        draws
    }

    /// Raises the pending-regeneration flag, consumed by the next
    /// `check_regeneration`.
    pub fn queue_regeneration(&mut self)
        requires
            old(self).wf(),
        ensures
            final(self).wf(),
            final(self).needs_regeneration == true,
            final(self).cache == old(self).cache,
            final(self).current_frame == old(self).current_frame,
            final(self).view_radius == old(self).view_radius,
            final(self).settings == old(self).settings,
    {
        self.needs_regeneration = true;
    }
}

/// Full invalidation followed by an update leaves the same resident set as
/// constructing a fresh engine and updating it once at the same viewpoint:
/// `update` pins the resident set to the viewpoint's window whatever the
/// starting state was, so the two histories agree.
pub proof fn lemma_regeneration_matches_fresh(
    recycled: TerrainRenderer,
    fresh: TerrainRenderer,
    wx: int,
    wz: int,
)
    requires
        recycled.view_radius == fresh.view_radius,
        recycled.resident_set() == window_set(chunk_at(wx, wz), recycled.view_radius as int),
        fresh.resident_set() == window_set(chunk_at(wx, wz), fresh.view_radius as int),
    ensures
        recycled.resident_set() == fresh.resident_set(),
{
}

} // verus!
