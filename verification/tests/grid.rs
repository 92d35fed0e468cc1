use terrain_stream::coord::{ChunkCoord, CHUNK_WORLD_SIZE};
use terrain_stream::presets::{get_default_preset_id, get_preset_list};

#[test]
fn chunk_size_is_fixed() {
    assert_eq!(CHUNK_WORLD_SIZE, 256);
}

#[test]
fn from_world_pos_floors_toward_negative_infinity() {
    assert_eq!(ChunkCoord::from_world_pos(0, 0), ChunkCoord::new(0, 0));
    assert_eq!(ChunkCoord::from_world_pos(255, 255), ChunkCoord::new(0, 0));
    assert_eq!(ChunkCoord::from_world_pos(256, 300), ChunkCoord::new(1, 1));
    assert_eq!(ChunkCoord::from_world_pos(-1, -256), ChunkCoord::new(-1, -1));
    assert_eq!(ChunkCoord::from_world_pos(-257, 511), ChunkCoord::new(-2, 1));
    assert_eq!(
        ChunkCoord::from_world_pos(-549755813888, 549755813887),
        ChunkCoord::new(i32::MIN, i32::MAX)
    );
}

#[test]
fn world_offset_is_coordinate_times_chunk_size() {
    assert_eq!(ChunkCoord::new(0, 0).world_offset(), (0, 0));
    assert_eq!(ChunkCoord::new(1, -2).world_offset(), (256, -512));
    assert_eq!(
        ChunkCoord::new(i32::MIN, i32::MAX).world_offset(),
        (-549755813888, 549755813632)
    );
}

#[test]
fn offset_round_trips_through_from_world_pos() {
    for &(x, z) in &[(0i32, 0i32), (5, -9), (-1000, 1000), (123456, -654321)] {
        let c = ChunkCoord::new(x, z);
        let (ox, oz) = c.world_offset();
        assert_eq!(ChunkCoord::from_world_pos(ox, oz), c);
        assert_eq!(ChunkCoord::from_world_pos(ox + 255, oz + 255), c);
    }
}

#[test]
fn preset_catalogue_is_stable() {
    let list = get_preset_list();
    let pairs: Vec<(String, String)> =
        list.into_iter().map(|p| (p.id, p.name)).collect();
    assert_eq!(
        pairs,
        vec![
            ("arctic".to_string(), "Arctic".to_string()),
            ("chalk".to_string(), "Moon".to_string()),
            ("desert".to_string(), "Desert".to_string()),
            ("lava".to_string(), "Lava".to_string()),
            ("natural".to_string(), "Islands".to_string()),
        ]
    );
}

#[test]
fn default_preset_is_arctic() {
    assert_eq!(get_default_preset_id(), "arctic");
}
