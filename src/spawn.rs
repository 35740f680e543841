//! Firing: a projectile spawned at the player and sent toward the aim target.
use vstd::prelude::*;
use crate::aim::{aim_fits, aim_target, resolve_aim, unit_bounded, AimRay, RayHit};
use crate::geometry::{in_world, norm_sq, normalize, unit_of, Vec3, DIR_ONE};
use crate::layers::{layer_bit, projectile_layers, CollisionLayers, GameLayer};
use crate::projectile::{Projectile, PROJECTILE_LIFETIME, PROJECTILE_SPEED};

verus! {

/// How far above the player a projectile appears: a tenth of a world unit.
pub const SPAWN_LIFT: i64 = 100;

/// A projectile to add to the world: the projectile itself, where it starts, its fixed
/// velocity and its collision layers. The velocity is held at direction precision: in
/// position units per second, times `DIR_ONE`.
#[derive(Clone, Copy, Debug, PartialEq, Eq, Structural)]
pub struct SpawnRequest {
    pub projectile: Projectile,
    pub position: Vec3,
    pub velocity: Vec3,
    pub layers: CollisionLayers,
}

/// The velocity of a projectile that moves along the unit direction `u` at the fixed
/// speed: `u * speed`, exactly, in position units per second times `DIR_ONE`.
pub open spec fn velocity_of(u: Vec3) -> Vec3 {
    Vec3 {
        x: (u.x * PROJECTILE_SPEED) as i64,
        y: (u.y * PROJECTILE_SPEED) as i64,
        z: (u.z * PROJECTILE_SPEED) as i64,
    }
}

/// Whether `v`'s length is the fixed speed to within four parts in `DIR_ONE`, the
/// precision of a unit direction.
pub open spec fn speed_within_tolerance(v: Vec3) -> bool {
    PROJECTILE_SPEED * PROJECTILE_SPEED * ((DIR_ONE - 4) * (DIR_ONE - 4)) <= norm_sq(v)
        <= PROJECTILE_SPEED * PROJECTILE_SPEED * ((DIR_ONE + 1) * (DIR_ONE + 1))
}

/// Whether a direction's length is one to within four parts in `DIR_ONE`.
pub open spec fn unit_within_tolerance(u: Vec3) -> bool {
    (DIR_ONE - 4) * (DIR_ONE - 4) <= norm_sq(u) <= (DIR_ONE + 1) * (DIR_ONE + 1)
}

/// The offset from the player to the target.
pub open spec fn offset(player: Vec3, target: Vec3) -> Vec3 {
    Vec3 {
        x: (target.x - player.x) as i64,
        y: (target.y - player.y) as i64,
        z: (target.z - player.z) as i64,
    }
}

/// Whether `s` is the projectile fired from `player` toward `target`: it heads along the
/// unit direction from the one to the other at the fixed speed, with the fixed lifetime,
/// starting just above the player.
pub open spec fn fired(s: SpawnRequest, player: Vec3, target: Vec3) -> bool {
    let u = unit_of(offset(player, target));
    &&& s.projectile == Projectile {
        direction: u,
        speed: PROJECTILE_SPEED,
        lifetime: PROJECTILE_LIFETIME,
    }
    &&& s.position == (Vec3 { x: player.x, y: (player.y + SPAWN_LIFT) as i64, z: player.z })
    &&& s.velocity == velocity_of(u)
    &&& s.layers.memberships.bits == layer_bit(GameLayer::Projectile)
    &&& s.layers.filters.bits == layer_bit(GameLayer::Enemy) | layer_bit(GameLayer::Ground)
        | layer_bit(GameLayer::Default)
    &&& s.layers.memberships@ == set![GameLayer::Projectile]
    &&& s.layers.filters@ == set![GameLayer::Enemy, GameLayer::Ground, GameLayer::Default]
}

/// Firing is a function of the player's position and the target alone: two projectiles
/// fired from the same position toward the same target are equal in every field.
pub proof fn lemma_fired_unique(a: SpawnRequest, b: SpawnRequest, player: Vec3, target: Vec3)
    requires
        fired(a, player, target),
        fired(b, player, target),
    ensures
        a == b,
{
}

/// A velocity is the speed times its direction, so its length is the speed to within
/// the direction's tolerance.
proof fn lemma_velocity_length(u: Vec3)
    requires
        unit_within_tolerance(u),
        -DIR_ONE <= u.x <= DIR_ONE,
        -DIR_ONE <= u.y <= DIR_ONE,
        -DIR_ONE <= u.z <= DIR_ONE,
    ensures
        speed_within_tolerance(velocity_of(u)),
{
    let v = velocity_of(u);
    assert(v.x == u.x * 10000 && v.y == u.y * 10000 && v.z == u.z * 10000) by (nonlinear_arith)
        requires
            -0x100000 <= u.x <= 0x100000,
            -0x100000 <= u.y <= 0x100000,
            -0x100000 <= u.z <= 0x100000,
            v == velocity_of(u),
    ;
    assert(norm_sq(v) == 10000 * 10000 * norm_sq(u)) by (nonlinear_arith)
        requires v.x == u.x * 10000, v.y == u.y * 10000, v.z == u.z * 10000;
    let n = norm_sq(u);
    assert(10000 * 10000 * ((0x100000 - 4) * (0x100000 - 4)) <= 10000 * 10000 * n) by (nonlinear_arith)
        requires (0x100000 - 4) * (0x100000 - 4) <= n;
    assert(10000 * 10000 * n <= 10000 * 10000 * ((0x100000 + 1) * (0x100000 + 1))) by (nonlinear_arith)
        requires n <= (0x100000 + 1) * (0x100000 + 1);
}

/// One velocity coordinate: a unit coordinate times the speed.
fn scale_speed(c: i64) -> (r: i64)
    requires
        -DIR_ONE <= c <= DIR_ONE,
    ensures
        r == c * PROJECTILE_SPEED,
{
    proof {
        assert(-0x100000 * 10000 <= c * 10000 <= 0x100000 * 10000) by (nonlinear_arith)
            requires -0x100000 <= c <= 0x100000;
    }
    c * PROJECTILE_SPEED
}

/// The projectile fired from `player` toward `target`; `None` when the two coincide, as
/// there is no direction to fire in.
pub fn spawn_toward(player: &Vec3, target: &Vec3) -> (r: Option<SpawnRequest>)
    requires
        in_world(*player),
        in_world(*target),
    ensures
        r is None <==> *player == *target,
        r matches Some(s) ==> fired(s, *player, *target),
        r matches Some(s) ==> !s.layers.filters@.contains(GameLayer::Player),
        r matches Some(s) ==> unit_within_tolerance(s.projectile.direction),
        r matches Some(s) ==> speed_within_tolerance(s.velocity),
{
    let d = target.sub(player);
    match normalize(&d) {
        None => None,
        Some(u) => {
            let layers = projectile_layers();
            proof {
                lemma_velocity_length(u);
            }
            let velocity = Vec3 { x: scale_speed(u.x), y: scale_speed(u.y), z: scale_speed(u.z) };
            Some(
                SpawnRequest {
                    projectile: Projectile {
                        direction: u,
                        speed: PROJECTILE_SPEED,
                        lifetime: PROJECTILE_LIFETIME,
                    },
                    position: Vec3 { x: player.x, y: player.y + SPAWN_LIFT, z: player.z },
                    velocity,
                    layers,
                },
            )
        },
    }
}

/// One frame of the fire input: while `fire_held` is set, a projectile is fired from
/// `player` toward the aim target resolved from the camera ray and its hits; nothing is
/// fired when the button is up or the target lies on the player.
///
/// Firing is level-triggered with no cooldown: every frame the button is held fires a
/// new projectile, so the rate of fire is the frame rate. This is very likely not what a
/// shipped game wants; an edge trigger or a cooldown would be a change of behaviour and is
/// left to the caller, which decides what `fire_held` means.
pub fn mouse_input(fire_held: bool, player: &Vec3, ray: &AimRay, hits: &[RayHit]) -> (r: Option<
    SpawnRequest,
>)
    requires
        in_world(*player),
        unit_bounded(*ray),
        aim_fits(*ray, hits@),
        in_world(aim_target(*ray, hits@)),
    ensures
        r is Some <==> fire_held && *player != aim_target(*ray, hits@),
        r matches Some(s) ==> fired(s, *player, aim_target(*ray, hits@)),
        r matches Some(s) ==> !s.layers.filters@.contains(GameLayer::Player),
        r matches Some(s) ==> unit_within_tolerance(s.projectile.direction),
        r matches Some(s) ==> speed_within_tolerance(s.velocity),
{
    if !fire_held {
        return None;
    }
    let target = resolve_aim(ray, hits);
    spawn_toward(player, &target)
}

} // verus!
