use terrain_stream::cache::{ChunkCache, ChunkState};
use terrain_stream::coord::ChunkCoord;
use terrain_stream::terrain::{window_capacity, TerrainRenderer, TerrainSettings};

fn settings_with_seed(seed: u32) -> TerrainSettings {
    TerrainSettings {
        terrain_scale_bits: 0x3A83126F, // 0.001 as bits
        height_scale: 150,
        octaves: 2,
        warp_strength_bits: 0x41A00000, // 20.0 as bits
        height_variance_bits: 0x3F000000, // 0.5 as bits
        roughness_bits: 0x3EB33333, // 0.35 as bits
        pattern_type: 4,
        seed,
    }
}

fn engine(radius: u32) -> TerrainRenderer {
    let cap = window_capacity(radius);
    TerrainRenderer::new(cap, radius, settings_with_seed(0))
}

fn is_resident(r: &TerrainRenderer, x: i32, z: i32) -> bool {
    r.cache.lookup(ChunkCoord::new(x, z)).is_some()
}

fn resident_coords_sorted(r: &TerrainRenderer) -> Vec<(i32, i32)> {
    let mut v: Vec<(i32, i32)> = Vec::new();
    for slot in &r.cache.slots {
        if let Some(c) = slot.coord {
            v.push((c.x, c.z));
        }
    }
    v.sort();
    v
}

#[test]
fn cold_update_fills_window() {
    let mut r = engine(1);
    assert_eq!(r.cache.capacity(), 9);
    let batch = r.update(0, 0);
    assert_eq!(batch.len(), 9);
    for x in -1..=1 {
        for z in -1..=1 {
            assert!(is_resident(&r, x, z));
        }
    }
    assert!(!is_resident(&r, 2, 0));
    assert!(!is_resident(&r, 0, -2));
}

#[test]
fn window_tracks_any_update_sequence() {
    let mut r = engine(2);
    let viewpoints = [
        (0i64, 0i64),
        (1000, -3000),
        (-70000, 51200),
        (-70000, 51200),
        (255, -256),
    ];
    for &(wx, wz) in viewpoints.iter() {
        r.update(wx, wz);
        let cx = wx.div_euclid(256) as i32;
        let cz = wz.div_euclid(256) as i32;
        let mut expected: Vec<(i32, i32)> = Vec::new();
        for dz in -2..=2 {
            for dx in -2..=2 {
                expected.push((cx + dx, cz + dz));
            }
        }
        expected.sort();
        assert_eq!(resident_coords_sorted(&r), expected);
    }
}

#[test]
fn resident_count_bounded_and_unique() {
    let mut r = engine(1);
    let viewpoints = [(0i64, 0i64), (300, 0), (-510, 510), (100000, -100000)];
    for &(wx, wz) in viewpoints.iter() {
        r.update(wx, wz);
        let coords = resident_coords_sorted(&r);
        assert!(coords.len() <= 9);
        for w in coords.windows(2) {
            assert_ne!(w[0], w[1], "one coordinate resides in two slots");
        }
        for slot in &r.cache.slots {
            match slot.state {
                ChunkState::Ready => assert!(slot.coord.is_some()),
                ChunkState::Empty => assert!(slot.coord.is_none()),
            }
        }
    }
}

#[test]
fn move_one_chunk_evicts_exactly_one_column() {
    // radius 1, chunk size 256: from the origin window to viewpoint
    // (300, 0, 0), which is chunk (1, 0)
    let mut r = engine(1);
    let first = r.update(0, 0);
    assert_eq!(first.len(), 9);
    let slots_before: Vec<Option<(i32, i32)>> =
        r.cache.slots.iter().map(|s| s.coord.map(|c| (c.x, c.z))).collect();

    let batch = r.update(300, 0);

    // new window is {0,1,2} x {-1,0,1}
    let mut expected: Vec<(i32, i32)> = Vec::new();
    for dz in -1..=1 {
        for dx in 0..=2 {
            expected.push((dx, dz));
        }
    }
    expected.sort();
    assert_eq!(resident_coords_sorted(&r), expected);

    // exactly the three x == 2 coordinates are newly generated
    let mut generated: Vec<(i32, i32)> = batch.iter().map(|q| (q.coord.x, q.coord.z)).collect();
    generated.sort();
    assert_eq!(generated, vec![(2, -1), (2, 0), (2, 1)]);

    // the x == -1 column is gone
    for z in -1..=1 {
        assert!(!is_resident(&r, -1, z));
    }

    // the retained set is the intersection of the two windows, kept in place
    for z in -1..=1 {
        for x in 0..=1 {
            let idx = r.cache.lookup(ChunkCoord::new(x, z)).unwrap();
            assert_eq!(slots_before[idx], Some((x, z)), "retained chunk moved slots");
        }
    }
}

#[test]
fn generation_requests_carry_offsets_and_params() {
    let mut r = engine(1);
    let batch = r.update(0, 0);
    for q in &batch {
        assert_eq!(q.offset_x, q.coord.x as i64 * 256);
        assert_eq!(q.offset_z, q.coord.z as i64 * 256);
        assert_eq!(q.params, settings_with_seed(0));
        let slot = &r.cache.slots[q.slot];
        assert_eq!(slot.coord, Some(q.coord));
    }
}

#[test]
fn invalidate_then_update_matches_fresh() {
    let mut recycled = engine(1);
    recycled.update(5000, -3000);
    recycled.update(5300, -3000);
    recycled.cache.invalidate_all();
    let after = recycled.update(777, 888);

    let mut fresh = engine(1);
    let fresh_batch = fresh.update(777, 888);

    assert_eq!(resident_coords_sorted(&recycled), resident_coords_sorted(&fresh));
    assert_eq!(after.len(), fresh_batch.len());
}

#[test]
fn settings_change_takes_effect_only_after_queue() {
    let mut r = engine(1);
    r.update(0, 0);

    let mut new_settings = settings_with_seed(42);
    new_settings.height_scale = 600;
    r.update_settings(new_settings);

    // no regeneration pending: the check does nothing
    let batch = r.check_regeneration(0, 0);
    assert!(batch.is_empty());
    assert!(!r.needs_regeneration);

    // the two-step contract: queueing makes the next check rebuild all
    r.queue_regeneration();
    assert!(r.needs_regeneration);
    let batch = r.check_regeneration(0, 0);
    assert_eq!(batch.len(), 9);
    assert!(!r.needs_regeneration);
    for q in &batch {
        assert_eq!(q.params, new_settings);
    }
}

#[test]
fn eviction_picks_minimum_last_used() {
    let mut cache = ChunkCache::new(4);
    cache.populate(0, ChunkCoord::new(0, 0), 5);
    cache.populate(1, ChunkCoord::new(1, 0), 3);
    cache.populate(2, ChunkCoord::new(2, 0), 7);
    cache.populate(3, ChunkCoord::new(3, 0), 4);
    assert_eq!(cache.allocate_or_evict(), 1);
    cache.touch(ChunkCoord::new(1, 0), 9);
    assert_eq!(cache.allocate_or_evict(), 3);
}

#[test]
fn eviction_ties_resolve_to_lowest_index() {
    let mut cache = ChunkCache::new(4);
    cache.populate(0, ChunkCoord::new(0, 0), 8);
    cache.populate(1, ChunkCoord::new(1, 0), 3);
    cache.populate(2, ChunkCoord::new(2, 0), 3);
    cache.populate(3, ChunkCoord::new(3, 0), 3);
    assert_eq!(cache.allocate_or_evict(), 1);
}

#[test]
fn allocation_prefers_first_empty_slot() {
    let mut cache = ChunkCache::new(3);
    assert_eq!(cache.allocate_or_evict(), 0);
    cache.populate(0, ChunkCoord::new(0, 0), 10);
    assert_eq!(cache.allocate_or_evict(), 1);
    cache.populate(1, ChunkCoord::new(1, 0), 1);
    cache.populate(2, ChunkCoord::new(2, 0), 2);
    // full: now it is eviction, by recency, not position
    assert_eq!(cache.allocate_or_evict(), 1);
    cache.invalidate_all();
    assert_eq!(cache.allocate_or_evict(), 0);
}

#[test]
fn touch_refreshes_only_resident_coordinates() {
    let mut cache = ChunkCache::new(2);
    cache.populate(0, ChunkCoord::new(4, 4), 1);
    cache.populate(1, ChunkCoord::new(5, 4), 2);
    cache.touch(ChunkCoord::new(9, 9), 50);
    assert_eq!(cache.slots[0].last_used_frame, 1);
    assert_eq!(cache.slots[1].last_used_frame, 2);
    cache.touch(ChunkCoord::new(4, 4), 50);
    assert_eq!(cache.slots[0].last_used_frame, 50);
    assert_eq!(cache.slots[1].last_used_frame, 2);
}

#[test]
fn lookup_finds_only_resident_coordinates() {
    let mut cache = ChunkCache::new(2);
    assert!(cache.lookup(ChunkCoord::new(0, 0)).is_none());
    cache.populate(1, ChunkCoord::new(-3, 7), 1);
    assert_eq!(cache.lookup(ChunkCoord::new(-3, 7)), Some(1));
    assert!(cache.lookup(ChunkCoord::new(7, -3)).is_none());
    cache.invalidate_all();
    assert!(cache.lookup(ChunkCoord::new(-3, 7)).is_none());
}
