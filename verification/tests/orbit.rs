use orbit_camera::input::Vec2Fx;
use orbit_camera::orbit::{OrbitCamera, TransformFx, Vec3Fx, LEVEL_MAX, PITCH_MAX, PITCH_MIN};

fn origin() -> Vec3Fx {
    Vec3Fx { x: 0, y: 0, z: 0 }
}

fn blank_transform() -> TransformFx {
    TransformFx { position: Vec3Fx { x: 0, y: 0, z: 50000 }, forward: origin() }
}

#[test]
fn default_camera_values() {
    let cam = OrbitCamera::default();
    assert_eq!(cam.x, 0);
    assert_eq!(cam.y, 0);
    assert_eq!(cam.base_distance, 50000);
    assert_eq!(cam.zoom_level, 0);
    assert_eq!(cam.center, origin());
    assert_eq!(cam.rotate_sensitivity, 10000);
    assert_eq!(cam.zoom_sensitivity, 8000);
    assert_eq!(cam.distance(), 50000);
}

#[test]
fn new_sets_distance_and_center() {
    let c = Vec3Fx { x: 10000, y: -20000, z: 30000 };
    let cam = OrbitCamera::new(70000, c);
    assert_eq!(cam.base_distance, 70000);
    assert_eq!(cam.center, c);
    assert_eq!(cam.x, 0);
    assert_eq!(cam.y, 0);
    assert_eq!(cam.distance(), 70000);
}

#[test]
fn rotate_gate_off_is_noop() {
    let mut cam = OrbitCamera::default();
    let before = cam;
    let mut t = blank_transform();
    let t_before = t;
    cam.rotate(Vec2Fx { x: 123456, y: -654321 }, false, 10000, &mut t);
    assert_eq!(cam, before);
    assert_eq!(t, t_before);
}

#[test]
fn pitch_always_clamped() {
    let mut cam = OrbitCamera::default();
    let mut t = blank_transform();
    // A huge downward drag drives the pitch against the upper clamp.
    cam.rotate(Vec2Fx { x: 0, y: -4_000_000_000_000 }, true, 10000, &mut t);
    assert_eq!(cam.y, PITCH_MAX);
    // A huge upward drag drives it against the lower clamp.
    cam.rotate(Vec2Fx { x: 0, y: 4_000_000_000_000 }, true, 10000, &mut t);
    assert_eq!(cam.y, PITCH_MIN);
    // Repeated large drags never leave the clamp range.
    for i in 0..20 {
        let dy: i64 = if i % 2 == 0 { 900_000_000 } else { -1_700_000_000 };
        cam.rotate(Vec2Fx { x: 5000, y: dy }, true, 10000, &mut t);
        assert!(PITCH_MIN <= cam.y && cam.y <= PITCH_MAX);
    }
}

#[test]
fn zero_delta_rotate_is_stable() {
    // The regression baseline: yaw 0, pitch 0.01, distance 5, center origin.
    let mut cam = OrbitCamera::new(50000, origin());
    cam.y = PITCH_MIN;
    let mut t = blank_transform();
    cam.rotate(Vec2Fx { x: 0, y: 0 }, true, 10000, &mut t);
    assert_eq!(cam.x, 0);
    assert_eq!(cam.y, PITCH_MIN);
    let first = t;
    cam.rotate(Vec2Fx { x: 0, y: 0 }, true, 10000, &mut t);
    assert_eq!(cam.x, 0);
    assert_eq!(cam.y, PITCH_MIN);
    assert_eq!(t, first);
    // Near the pole the camera sits almost straight above the center.
    assert!((t.position.y - 50000).abs() < 500);
    assert!(t.position.x.abs() < 500);
    assert!(t.position.z.abs() < 600);
}

#[test]
fn rotate_derives_spherical_position() {
    // Pitch at a quarter turn: the camera should sit on the horizon,
    // distance away along -z (yaw 0), with almost no height.
    let mut cam = OrbitCamera::default();
    cam.y = 15708;
    let mut t = blank_transform();
    cam.rotate(Vec2Fx { x: 0, y: 0 }, true, 10000, &mut t);
    assert_eq!(cam.y, 15708);
    assert!(t.position.y.abs() < 500);
    assert!(t.position.x.abs() < 500);
    assert!((t.position.z + 50000).abs() < 500);
    // The forward vector points from the position back at the center.
    assert!(t.forward.z > 9000);
    assert!(t.forward.y.abs() < 500);
}

#[test]
fn zoom_one_line_scales_by_sensitivity() {
    let mut cam = OrbitCamera::default();
    let mut t = blank_transform();
    cam.zoom(10000, &mut t);
    // distance 5.0 scaled by exactly 0.8.
    assert_eq!(cam.distance(), 40000);
    cam.zoom(0, &mut t);
    assert_eq!(cam.distance(), 40000);
}

#[test]
fn zoom_out_divides_by_sensitivity() {
    let mut cam = OrbitCamera::default();
    let mut t = blank_transform();
    cam.zoom(-10000, &mut t);
    // distance 5.0 divided by 0.8: exactly 6.25.
    assert_eq!(cam.distance(), 62500);
}

#[test]
fn zoom_round_trip_restores_distance() {
    let mut cam = OrbitCamera::default();
    let mut t = blank_transform();
    let before = cam.distance();
    // A fractional scroll total exercises the fractional factor too.
    cam.zoom(35000, &mut t);
    cam.zoom(-35000, &mut t);
    assert_eq!(cam.distance(), before);
    assert_eq!(cam.zoom_level, 0);
    cam.zoom(-12345, &mut t);
    cam.zoom(12345, &mut t);
    assert_eq!(cam.distance(), before);
}

#[test]
fn zoom_half_line_uses_square_root_factor() {
    let mut cam = OrbitCamera::default();
    let mut t = blank_transform();
    cam.zoom(5000, &mut t);
    // 5.0 * 0.8^(1/2) on the grid: sqrt(0.8) is 0.8944, and
    // 5.0 * 0.8944 = 4.4720 exactly.
    assert_eq!(cam.distance(), 44720);
}

#[test]
fn zoom_preserves_direction() {
    let mut cam = OrbitCamera::default();
    let mut t = TransformFx {
        position: Vec3Fx { x: 10000, y: 0, z: 0 },
        forward: Vec3Fx { x: -10000, y: 0, z: 0 },
    };
    let fwd = t.forward;
    cam.zoom(10000, &mut t);
    let d = cam.distance();
    // The offset had direction (1, 0, 0); the new position lies on the same
    // ray at the new distance, and the forward vector is untouched.
    assert_eq!(t.position, Vec3Fx { x: d, y: 0, z: 0 });
    assert_eq!(t.forward, fwd);
}

#[test]
fn zoom_preserves_direction_off_axis() {
    let mut cam = OrbitCamera::default();
    let mut t = TransformFx {
        position: Vec3Fx { x: 30000, y: 40000, z: 0 },
        forward: origin(),
    };
    cam.zoom(10000, &mut t);
    let d = cam.distance() as i128;
    // Offset length was 50000; the rescaled components stay within one
    // rounding step of the exact ray, and signs are kept.
    let wx = t.position.x as i128;
    let wy = t.position.y as i128;
    assert!((wx * 50000 - 30000 * d).abs() < 50000);
    assert!((wy * 50000 - 40000 * d).abs() < 50000);
    assert!(wx > 0 && wy > 0);
    assert_eq!(t.position.z, 0);
}

#[test]
fn zoom_level_saturates_at_cap() {
    let mut cam = OrbitCamera::default();
    let mut t = blank_transform();
    cam.zoom(5_000_000_000_000, &mut t);
    assert_eq!(cam.zoom_level, LEVEL_MAX);
    assert!(cam.distance() >= 1);
    cam.zoom(-5_000_000_000_000, &mut t);
    assert_eq!(cam.zoom_level, -LEVEL_MAX);
    assert!(cam.distance() >= 1);
}

#[test]
fn distance_stays_positive_under_deep_zoom() {
    let mut cam = OrbitCamera::default();
    let mut t = blank_transform();
    for _ in 0..40 {
        cam.zoom(250_000, &mut t);
        assert!(cam.distance() >= 1);
    }
    assert_eq!(cam.zoom_level, LEVEL_MAX);
    assert!(cam.distance() >= 1);
}

#[test]
fn rotate_then_zoom_full_tick() {
    // A full tick: rotate with a drag held, then zoom; the zoom reuses the
    // rotated position's direction.
    let mut cam = OrbitCamera::default();
    let mut t = blank_transform();
    cam.rotate(Vec2Fx { x: 7000, y: -3000 }, true, 300, &mut t);
    let pos_before = t.position;
    cam.zoom(10000, &mut t);
    let d = cam.distance();
    assert_eq!(d, 40000);
    // The camera moved toward the center (smaller offset) on the same side.
    assert!(pos_before.y.signum() == t.position.y.signum() || t.position.y == 0);
    assert!(t.position.y.abs() <= pos_before.y.abs());
}

#[test]
fn rotate_at_oblique_angles_uses_real_trig() {
    // Pitch 2.5 rad, yaw 0: sin(2.5) is about 0.5985 and cos(2.5) about
    // -0.8011, so the camera sits at roughly (0, -2.0057, -2.9925) times
    // 10000 around the origin at distance 5.  An implementation that passed
    // angles through unchanged would land far away.
    let mut cam = OrbitCamera::default();
    cam.y = 25000;
    let mut t = blank_transform();
    cam.rotate(Vec2Fx { x: 0, y: 0 }, true, 10000, &mut t);
    assert!((t.position.y + 40057).abs() < 500, "y was {}", t.position.y);
    assert!((t.position.z + 29925).abs() < 500, "z was {}", t.position.z);
    assert!(t.position.x.abs() < 500);

    // Yaw a quarter turn at pitch pi/2: the camera swings to the -x side.
    let mut cam2 = OrbitCamera::default();
    cam2.x = 7854;
    cam2.y = 15708;
    cam2.rotate(Vec2Fx { x: 0, y: 0 }, true, 10000, &mut t);
    assert!((t.position.x + 35355).abs() < 500, "x was {}", t.position.x);
    assert!((t.position.z + 35355).abs() < 500, "z was {}", t.position.z);
    assert!(t.position.y.abs() < 500);
}
