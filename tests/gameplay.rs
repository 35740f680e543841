use gameplay_core::aim::{nearest_hit, resolve_aim, AimRay, RayHit, MAX_AIM_DISTANCE};
use gameplay_core::geometry::{div_floor, isqrt, normalize, Vec3, DIR_ONE};
use gameplay_core::layers::{player_layers, projectile_layers, CollisionLayers, GameLayer, LayerMask};
use gameplay_core::projectile::{age_in_range, update_projectiles, LiveProjectile, Projectile};
use gameplay_core::rig::{look_in_range, update_camera, CameraRig, PointerMotion, START_PITCH};
use gameplay_core::spawn::{mouse_input, spawn_toward, SPAWN_LIFT};

fn live(entity: u64, lifetime: i64) -> LiveProjectile {
    let mut projectile = Projectile::default();
    projectile.lifetime = lifetime;
    LiveProjectile { entity, projectile }
}

fn forward_ray() -> AimRay {
    AimRay { origin: Vec3::new(0, 2000, 0), direction: Vec3::new(0, 0, -DIR_ONE) }
}

fn hit(toi: i64) -> RayHit {
    RayHit { entity: 7, time_of_impact: toi }
}

#[test]
fn layer_bits_are_one_per_layer() {
    assert_eq!(GameLayer::Default.to_bits(), 1);
    assert_eq!(GameLayer::Player.to_bits(), 2);
    assert_eq!(GameLayer::Enemy.to_bits(), 4);
    assert_eq!(GameLayer::Ground.to_bits(), 8);
    assert_eq!(GameLayer::Projectile.to_bits(), 16);
}

#[test]
fn mask_from_layers_holds_exactly_those() {
    let m = LayerMask::from_layers(&[GameLayer::Enemy, GameLayer::Ground, GameLayer::Enemy]);
    assert_eq!(m.bits, 12);
    assert!(m.contains(GameLayer::Enemy));
    assert!(m.contains(GameLayer::Ground));
    assert!(!m.contains(GameLayer::Player));
    assert_eq!(LayerMask::from_layers(&[]).bits, 0);
    assert!(LayerMask::all().contains(GameLayer::Projectile));
}

#[test]
fn projectile_filters_never_hold_player() {
    let l = projectile_layers();
    assert_eq!(l.memberships.bits, 16);
    assert_eq!(l.filters.bits, 1 | 4 | 8);
    assert!(!l.filters.contains(GameLayer::Player));
}

#[test]
fn projectile_does_not_touch_player_but_touches_ground() {
    let shot = projectile_layers();
    let player = player_layers();
    let ground = CollisionLayers::with_all_filters(GameLayer::Ground);
    let enemy = CollisionLayers::new(GameLayer::Enemy, &[GameLayer::Projectile]);
    assert!(!shot.interacts_with(&player));
    assert!(!player.interacts_with(&shot));
    assert!(shot.interacts_with(&ground));
    assert!(shot.interacts_with(&enemy));
    assert!(player.interacts_with(&ground));
}

#[test]
fn default_projectile_values() {
    let p = Projectile::default();
    assert_eq!(p.direction, Vec3::new(605_395, 605_395, 605_395));
    assert_eq!(normalize(&Vec3::new(1, 1, 1)), Some(p.direction));
    assert_eq!(p.speed, 10_000);
    assert_eq!(p.lifetime, 1_000_000);
}

#[test]
fn tick_ages_and_retires() {
    let mut v = vec![live(1, 500_000), live(2, 100_000), live(3, 2_000_000)];
    let gone = update_projectiles(&mut v, 100_000);
    assert_eq!(gone, vec![2]);
    assert_eq!(v.len(), 2);
    assert_eq!(v[0].entity, 1);
    assert_eq!(v[0].projectile.lifetime, 400_000);
    assert_eq!(v[1].entity, 3);
    assert_eq!(v[1].projectile.lifetime, 1_900_000);
}

#[test]
fn tick_on_empty_set_is_a_no_op() {
    let mut v: Vec<LiveProjectile> = Vec::new();
    let gone = update_projectiles(&mut v, 16_000);
    assert!(gone.is_empty());
    assert!(v.is_empty());
}

#[test]
fn lifetime_over_several_frames() {
    let mut v = vec![live(9, 1_000_000)];
    assert!(update_projectiles(&mut v, 400_000).is_empty());
    assert_eq!(v[0].projectile.lifetime, 600_000);
    assert!(update_projectiles(&mut v, 400_000).is_empty());
    assert_eq!(v[0].projectile.lifetime, 200_000);
    assert_eq!(update_projectiles(&mut v, 300_000), vec![9]);
    assert!(v.is_empty());
    assert!(update_projectiles(&mut v, 0).is_empty());
    assert!(v.is_empty());
}

#[test]
fn zero_lifetime_is_retired_on_the_tick_that_reaches_it() {
    let mut v = vec![live(4, 16_000)];
    assert_eq!(update_projectiles(&mut v, 16_000), vec![4]);
    assert!(v.is_empty());
}

#[test]
fn nearest_of_three_hits() {
    let hits = [hit(5_000), hit(1_200), hit(9_900)];
    assert_eq!(nearest_hit(&hits), Some(1));
    assert_eq!(hits[nearest_hit(&hits).unwrap()].time_of_impact, 1_200);
}

#[test]
fn nearest_hit_ties_and_empty() {
    assert_eq!(nearest_hit(&[hit(3), hit(2), hit(2)]), Some(1));
    assert_eq!(nearest_hit(&[]), None);
}

#[test]
fn aim_without_hits_reaches_max_distance() {
    let ray = forward_ray();
    let t = resolve_aim(&ray, &[]);
    assert_eq!(t, Vec3::new(0, 2000, -MAX_AIM_DISTANCE));
    assert_eq!(resolve_aim(&ray, &[]), t);
}

#[test]
fn aim_at_nearest_hit() {
    let ray = forward_ray();
    let t = resolve_aim(&ray, &[hit(5_000), hit(1_200), hit(9_900)]);
    assert_eq!(t, Vec3::new(0, 2000, -1_200));
}

#[test]
fn aim_rounds_down_along_a_slanted_ray() {
    let ray = AimRay { origin: Vec3::new(0, 0, 0), direction: Vec3::new(-1, DIR_ONE / 2, 0) };
    let t = resolve_aim(&ray, &[hit(10)]);
    assert_eq!(t, Vec3::new(-1, 5, 0));
}

#[test]
fn floor_division_and_square_root() {
    assert_eq!(div_floor(-7, 2), -4);
    assert_eq!(div_floor(7, 2), 3);
    assert_eq!(div_floor(-8, 2), -4);
    assert_eq!(isqrt(0), 0);
    assert_eq!(isqrt(15), 3);
    assert_eq!(isqrt(16), 4);
    assert_eq!(isqrt(2 * (1u128 << 40)), 1_482_910);
}

#[test]
fn normalize_gives_unit_directions() {
    assert_eq!(normalize(&Vec3::new(3, 0, 0)), Some(Vec3::new(DIR_ONE, 0, 0)));
    assert_eq!(normalize(&Vec3::new(0, -5, 0)), Some(Vec3::new(0, -DIR_ONE, 0)));
    assert_eq!(normalize(&Vec3::new(1, 1, 0)), Some(Vec3::new(741_455, 741_455, 0)));
    assert_eq!(normalize(&Vec3::new(3, -4, 0)), Some(Vec3::new(629_145, -838_860, 0)));
    assert_eq!(normalize(&Vec3::new(0, 0, 0)), None);
}

#[test]
fn spawned_direction_is_unit_within_tolerance() {
    let cases = [(1, 1, 0), (3, -4, 12), (-7, 2, 5), (1_000_000, 1, -3)];
    for (x, y, z) in cases {
        let u = normalize(&Vec3::new(x, y, z)).unwrap();
        let n = ((u.x as f64).powi(2) + (u.y as f64).powi(2) + (u.z as f64).powi(2)).sqrt()
            / DIR_ONE as f64;
        assert!((n - 1.0).abs() < 1e-5);
    }
}

#[test]
fn spawn_toward_target() {
    let s = spawn_toward(&Vec3::new(0, 0, 0), &Vec3::new(0, 0, -10_000)).unwrap();
    assert_eq!(s.projectile.direction, Vec3::new(0, 0, -DIR_ONE));
    assert_eq!(s.projectile.speed, 10_000);
    assert_eq!(s.projectile.lifetime, 1_000_000);
    assert_eq!(s.velocity, Vec3::new(0, 0, -10_000 * DIR_ONE));
    assert_eq!(s.position, Vec3::new(0, SPAWN_LIFT, 0));
    assert_eq!(s.layers, projectile_layers());
    assert!(!s.layers.filters.contains(GameLayer::Player));
}

#[test]
fn spawn_on_degenerate_direction_is_skipped() {
    let p = Vec3::new(5, 6, 7);
    assert_eq!(spawn_toward(&p, &p), None);
}

#[test]
fn fire_only_while_held() {
    let ray = forward_ray();
    let player = Vec3::new(0, 1000, 0);
    assert_eq!(mouse_input(false, &player, &ray, &[hit(1_200)]), None);
    let s = mouse_input(true, &player, &ray, &[hit(1_200)]).unwrap();
    assert_eq!(s.position, Vec3::new(0, 1100, 0));
    let d = s.projectile.direction;
    assert_eq!(d.x, 0);
    assert!(d.y > 0 && d.z < 0);
}

#[test]
fn fire_at_own_position_is_skipped() {
    let ray = AimRay { origin: Vec3::new(0, 0, 0), direction: Vec3::new(DIR_ONE, 0, 0) };
    let player = Vec3::new(50, 0, 0);
    assert_eq!(mouse_input(true, &player, &ray, &[hit(50)]), None);
}

#[test]
fn rig_anchor_tracks_player() {
    let mut rig = CameraRig::new();
    let player = Vec3::new(3000, 0, 3000);
    update_camera(&mut rig, &player, &[PointerMotion { dx: 4, dy: 9 }], 16_000, true);
    assert_eq!(rig.anchor, Vec3::new(3000, 1000, 3000));
    let mut free = CameraRig::new();
    update_camera(&mut free, &player, &[], 16_000, false);
    assert_eq!(free.anchor, Vec3::new(3000, 1000, 3000));
}

#[test]
fn free_cursor_ignores_motion() {
    let mut rig = CameraRig::new();
    let motions = [PointerMotion { dx: 10, dy: -3 }, PointerMotion { dx: -4, dy: 8 }, PointerMotion { dx: 1, dy: 1 }];
    update_camera(&mut rig, &Vec3::new(0, 0, 0), &motions, 16_000, false);
    assert_eq!(rig.yaw, 0);
    assert_eq!(rig.pitch, START_PITCH);
}

#[test]
fn captured_cursor_turns_by_motion() {
    let mut rig = CameraRig::new();
    update_camera(&mut rig, &Vec3::new(0, 0, 0), &[PointerMotion { dx: 5, dy: -2 }], 16_000, true);
    assert_eq!(rig.yaw, -5 * 16_000 * 20);
    assert_eq!(rig.pitch, START_PITCH + 2 * 16_000 * 20);
}

#[test]
fn captured_cursor_sums_motions() {
    let mut rig = CameraRig::new();
    let motions = [PointerMotion { dx: 1, dy: 2 }, PointerMotion { dx: 3, dy: -4 }];
    update_camera(&mut rig, &Vec3::new(0, 0, 0), &motions, 1_000, true);
    assert_eq!(rig.yaw, -(1 + 3) * 1_000 * 20);
    assert_eq!(rig.pitch, START_PITCH - (2 - 4) * 1_000 * 20);
    update_camera(&mut rig, &Vec3::new(0, 0, 0), &[], 1_000, true);
    assert_eq!(rig.yaw, -80_000);
}

#[test]
fn layer_masks_have_exact_bits() {
    let shot = projectile_layers();
    let player = player_layers();
    assert_eq!((shot.memberships.bits, shot.filters.bits), (16, 13));
    assert_eq!((player.memberships.bits, player.filters.bits), (2, 13));
    let l = CollisionLayers::new(GameLayer::Ground, &[GameLayer::Player, GameLayer::Projectile]);
    assert_eq!((l.memberships.bits, l.filters.bits), (8, 18));
}

fn speed_of(v: Vec3) -> f64 {
    let s = (v.x as f64).powi(2) + (v.y as f64).powi(2) + (v.z as f64).powi(2);
    s.sqrt() / (1000.0 * DIR_ONE as f64)
}

#[test]
fn spawned_velocity_is_direction_times_speed() {
    let s = spawn_toward(&Vec3::new(0, -1000, 0), &Vec3::new(0, 0, -1000)).unwrap();
    let d = s.projectile.direction;
    assert_eq!(s.velocity, Vec3::new(d.x * 10_000, d.y * 10_000, d.z * 10_000));
    assert!((speed_of(s.velocity) - 10.0).abs() < 1e-4);
    for target in [Vec3::new(7, -3, 2), Vec3::new(-5_000, 12_345, 999), Vec3::new(1, 1, 1)] {
        let s = spawn_toward(&Vec3::new(0, 0, 0), &target).unwrap();
        assert!((speed_of(s.velocity) - 10.0).abs() < 1e-4);
    }
}

#[test]
fn equal_fire_inputs_give_equal_spawns() {
    let ray = forward_ray();
    let player = Vec3::new(10, 1000, -20);
    let hits = [hit(5_000), hit(1_200)];
    let a = mouse_input(true, &player, &ray, &hits);
    let b = mouse_input(true, &player, &ray, &hits);
    assert!(a.is_some());
    assert_eq!(a, b);
}

#[test]
fn look_range_check() {
    let rig = CameraRig::new();
    assert!(look_in_range(&rig, &[PointerMotion { dx: 5, dy: 5 }], 16_000));
    assert!(look_in_range(&rig, &[], 16_000));
    let huge = [PointerMotion { dx: i32::MAX, dy: 0 }];
    assert!(!look_in_range(&rig, &huge, u32::MAX));
    let mut near_edge = CameraRig::new();
    near_edge.pitch = i64::MIN + 10;
    assert!(!look_in_range(&near_edge, &[PointerMotion { dx: 0, dy: 1 }], 1));
    assert!(look_in_range(&near_edge, &[PointerMotion { dx: 0, dy: -1 }], 1));
}

#[test]
fn age_range_check() {
    assert!(age_in_range(&[live(1, 10), live(2, -5)], 16_000));
    assert!(age_in_range(&[], u32::MAX));
    assert!(!age_in_range(&[live(1, 10), live(2, i64::MIN + 3)], 4));
}
