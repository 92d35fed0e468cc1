use glam::{Mat4, Vec3, Vec4};
use terrain_stream::coord::ChunkCoord;
use terrain_stream::frustum::{extract_frustum_planes, point_in_frustum, Mat4Row, Plane,
    ViewProjMatrix};
use terrain_stream::terrain::{window_capacity, TerrainRenderer, TerrainSettings};

/// Fixed-point scale used when bringing fractional matrix entries into the
/// engine's integer convention. It is large because the far-plane row of a
/// perspective transform has coefficients around `near / far`, which must
/// survive rounding.
const FIXED_SCALE: f32 = 67108864.0;

fn fixed_row(v: Vec4) -> Mat4Row {
    Mat4Row {
        x: (v.x * FIXED_SCALE).round() as i64,
        y: (v.y * FIXED_SCALE).round() as i64,
        z: (v.z * FIXED_SCALE).round() as i64,
        w: (v.w * FIXED_SCALE).round() as i64,
    }
}

fn fixed_view_proj(m: Mat4) -> ViewProjMatrix {
    ViewProjMatrix {
        row0: fixed_row(m.row(0)),
        row1: fixed_row(m.row(1)),
        row2: fixed_row(m.row(2)),
        row3: fixed_row(m.row(3)),
    }
}

/// A symmetric perspective camera at the origin looking down -Z.
fn test_planes() -> [Plane; 6] {
    let proj = Mat4::perspective_rh(70f32.to_radians(), 16.0 / 9.0, 0.1, 5000.0);
    let view = Mat4::look_at_rh(Vec3::ZERO, Vec3::new(0.0, 0.0, -1.0), Vec3::Y);
    extract_frustum_planes(&fixed_view_proj(proj * view))
}

#[test]
fn forward_point_inside_all_planes() {
    // a point on the eye's forward axis, within the near/far range, is
    // inside all six planes
    let planes = test_planes();
    assert!(point_in_frustum(&planes, 0, 0, -100));
    assert!(point_in_frustum(&planes, 0, 0, -1));
    assert!(point_in_frustum(&planes, 0, 0, -4000));
}

#[test]
fn points_outside_are_rejected() {
    let planes = test_planes();
    // beyond the far plane
    assert!(!point_in_frustum(&planes, 0, 0, -6000));
    // behind the camera
    assert!(!point_in_frustum(&planes, 0, 0, 100));
    // far off to the side
    assert!(!point_in_frustum(&planes, 30000, 0, -100));
}

#[test]
fn chunk_beyond_far_plane_is_excluded() {
    let planes = test_planes();
    // far plane at 5000: a chunk around z = -10000 lies entirely beyond it
    let c = ChunkCoord::new(0, -40);
    assert!(!c.is_visible_in_frustum(&planes, 150));
}

#[test]
fn chunk_beside_frustum_is_excluded() {
    let planes = test_planes();
    // a chunk near the camera in depth but far off to one side
    assert!(!ChunkCoord::new(-100, -4).is_visible_in_frustum(&planes, 150));
    assert!(!ChunkCoord::new(100, -4).is_visible_in_frustum(&planes, 150));
}

#[test]
fn chunk_straddling_a_plane_is_included() {
    let planes = test_planes();
    // the chunk spanning x in [0, 256], z in [-256, 0] contains the on-axis
    // point (0, 0, -100): no false negative is allowed
    assert!(point_in_frustum(&planes, 0, 0, -100));
    assert!(ChunkCoord::new(0, -1).is_visible_in_frustum(&planes, 150));
}

#[test]
fn extraction_combines_rows_exactly() {
    let m = ViewProjMatrix {
        row0: Mat4Row { x: 1, y: 2, z: 3, w: 4 },
        row1: Mat4Row { x: 5, y: 6, z: 7, w: 8 },
        row2: Mat4Row { x: 9, y: 10, z: 11, w: 12 },
        row3: Mat4Row { x: 100, y: 200, z: 300, w: 400 },
    };
    let p = extract_frustum_planes(&m);
    assert_eq!(p[0], Plane { a: 101, b: 202, c: 303, d: 404 }); // left
    assert_eq!(p[1], Plane { a: 99, b: 198, c: 297, d: 396 }); // right
    assert_eq!(p[2], Plane { a: 105, b: 206, c: 307, d: 408 }); // bottom
    assert_eq!(p[3], Plane { a: 95, b: 194, c: 293, d: 392 }); // top
    assert_eq!(p[4], Plane { a: 109, b: 210, c: 311, d: 412 }); // near
    assert_eq!(p[5], Plane { a: 91, b: 190, c: 289, d: 388 }); // far
}

#[test]
fn world_bounds_use_conservative_height_range() {
    let b = ChunkCoord::new(0, 0).world_bounds(150);
    assert_eq!((b.min_x, b.max_x), (0, 256));
    assert_eq!((b.min_z, b.max_z), (0, 256));
    assert_eq!((b.min_y, b.max_y), (-75, 150));
    // an odd height scale rounds the floor downward, staying over-inclusive
    let b = ChunkCoord::new(-1, 2).world_bounds(611);
    assert_eq!((b.min_x, b.max_x), (-256, 0));
    assert_eq!((b.min_z, b.max_z), (512, 768));
    assert_eq!((b.min_y, b.max_y), (-306, 611));
}

fn flat_settings() -> TerrainSettings {
    TerrainSettings {
        terrain_scale_bits: 0,
        height_scale: 150,
        octaves: 1,
        warp_strength_bits: 0,
        height_variance_bits: 0,
        roughness_bits: 0,
        pattern_type: 0,
        seed: 7,
    }
}

#[test]
fn render_draws_ready_slots_in_ascending_order() {
    let mut r = TerrainRenderer::new(window_capacity(1), 1, flat_settings());
    r.update(0, 0);
    let accept_all = [Plane { a: 0, b: 0, c: 0, d: 1 }; 6];
    let draws = r.render(&accept_all);
    assert_eq!(draws, vec![0, 1, 2, 3, 4, 5, 6, 7, 8]);
    let reject_all = [Plane { a: 0, b: 0, c: 0, d: -1 }; 6];
    assert!(r.render(&reject_all).is_empty());
}

#[test]
fn render_skips_chunks_outside_frustum() {
    let mut r = TerrainRenderer::new(window_capacity(1), 1, flat_settings());
    // viewpoint far down -Z from the camera at the origin: some of the nine
    // chunks are visible, those behind the camera are not
    r.update(0, -600);
    let planes = test_planes();
    let draws = r.render(&planes);
    assert!(!draws.is_empty());
    for &i in &draws {
        let c = r.cache.slots[i].coord.unwrap();
        assert!(c.is_visible_in_frustum(&planes, 150));
    }
    let drawn: Vec<usize> = draws.clone();
    for i in 0..r.cache.capacity() {
        let c = r.cache.slots[i].coord.unwrap();
        assert_eq!(drawn.contains(&i), c.is_visible_in_frustum(&planes, 150));
    }
}
