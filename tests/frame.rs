use gameplay_core::aim::{AimRay, RayHit};
use gameplay_core::frame::{run_frame, FrameInput, World};
use gameplay_core::geometry::{Vec3, DIR_ONE};
use gameplay_core::projectile::{LiveProjectile, Projectile};
use gameplay_core::rig::{CameraRig, PointerMotion, START_PITCH};

fn ray() -> AimRay {
    AimRay { origin: Vec3::new(0, 3000, 10_000), direction: Vec3::new(0, 0, -DIR_ONE) }
}

fn world(player: Option<Vec3>) -> World {
    World { player, rig: CameraRig::new(), live: Vec::new(), next_entity: 100 }
}

fn input(fire_held: bool, captured: bool) -> FrameInput {
    FrameInput { dt: 16_000, motions: vec![PointerMotion { dx: 2, dy: 1 }], captured, fire_held }
}

#[test]
fn frame_without_player_only_ages_projectiles() {
    let mut w = world(None);
    let mut p = Projectile::default();
    p.lifetime = 20_000;
    w.live.push(LiveProjectile { entity: 5, projectile: p });
    let out = run_frame(&mut w, &input(true, true), &ray(), &[]);
    assert!(out.spawned.is_none());
    assert!(out.despawned.is_empty());
    assert_eq!(w.live[0].projectile.lifetime, 4_000);
    assert_eq!(w.rig, CameraRig::new());
    assert_eq!(w.next_entity, 100);
    let out = run_frame(&mut w, &input(false, true), &ray(), &[]);
    assert_eq!(out.despawned, vec![5]);
    assert!(w.live.is_empty());
}

#[test]
fn frame_spawns_then_ticks_the_new_projectile() {
    let mut w = world(Some(Vec3::new(0, 1000, 0)));
    let hits = [RayHit { entity: 1, time_of_impact: 20_000 }];
    let out = run_frame(&mut w, &input(true, true), &ray(), &hits);
    let s = out.spawned.unwrap();
    assert_eq!(s.entity, 100);
    assert_eq!(w.next_entity, 101);
    assert_eq!(w.live.len(), 1);
    assert_eq!(w.live[0].entity, 100);
    assert_eq!(w.live[0].projectile.lifetime, 1_000_000 - 16_000);
    assert_eq!(s.request.position, Vec3::new(0, 1100, 0));
    assert_eq!(w.rig.anchor, Vec3::new(0, 2000, 0));
    assert_eq!(w.rig.yaw, -2 * 16_000 * 20);
    assert_eq!(w.rig.pitch, START_PITCH - 16_000 * 20);
}

#[test]
fn frame_without_fire_spawns_nothing_and_free_cursor_keeps_angles() {
    let mut w = world(Some(Vec3::new(3000, 0, 3000)));
    let out = run_frame(&mut w, &input(false, false), &ray(), &[]);
    assert!(out.spawned.is_none());
    assert!(w.live.is_empty());
    assert_eq!(w.rig.anchor, Vec3::new(3000, 1000, 3000));
    assert_eq!(w.rig.yaw, 0);
    assert_eq!(w.rig.pitch, START_PITCH);
}
