//! One simulation frame, its phases in a fixed order: the camera rig follows the player,
//! the fire input spawns a projectile toward the aim target, and then every live
//! projectile ages and the spent ones retire.
use vstd::prelude::*;
use crate::aim::{aim_fits, aim_target, unit_bounded, AimRay, RayHit};
use crate::geometry::{fits_i64, in_world, Vec3};
use crate::projectile::{
    can_age, retired, survivors, update_projectiles, LiveProjectile, PROJECTILE_LIFETIME,
};
use crate::rig::{look_fits, update_camera, CameraRig, PointerMotion, VERTICAL_OFFSET};
use crate::spawn::{fired, mouse_input, SpawnRequest};

verus! {

/// What the input side reports for a frame: its length in microseconds, the pointer
/// motion since the last frame, whether the cursor is captured, and whether the fire
/// button is held.
#[derive(Clone, Debug)]
pub struct FrameInput {
    pub dt: u32,
    pub motions: Vec<PointerMotion>,
    pub captured: bool,
    pub fire_held: bool,
}

/// The state the frame phases own: the player's position, if there is a player this
/// frame, the camera rig, the live projectiles, and the next free entity number.
#[derive(Clone, Debug)]
pub struct World {
    pub player: Option<Vec3>,
    pub rig: CameraRig,
    pub live: Vec<LiveProjectile>,
    pub next_entity: u64,
}

/// A projectile the frame spawned, under the entity number it was given.
#[derive(Clone, Copy, Debug, PartialEq, Eq, Structural)]
pub struct Spawned {
    pub entity: u64,
    pub request: SpawnRequest,
}

/// What a frame asks of the physics and render sides: at most one body to add, and the
/// entities to remove.
#[derive(Clone, Debug)]
pub struct FrameOutput {
    pub spawned: Option<Spawned>,
    pub despawned: Vec<u64>,
}

/// Whether a frame on `w` with `input`, the camera ray and its hits stays within the
/// ranges of the fixed-point types.
pub open spec fn frame_fits(w: World, input: FrameInput, ray: AimRay, hits: Seq<RayHit>) -> bool {
    &&& w.next_entity < u64::MAX
    &&& can_age(w.live@, input.dt as int)
    &&& w.player matches Some(p) ==> {
        &&& in_world(p)
        &&& fits_i64(p.y + VERTICAL_OFFSET)
        &&& input.captured ==> look_fits(w.rig, input.motions@, input.dt as int)
        &&& input.fire_held ==> unit_bounded(ray) && aim_fits(ray, hits) && in_world(
            aim_target(ray, hits),
        )
    }
}

/// Runs one frame: with a player present, the rig follows it and takes the look input,
/// and the fire input may spawn a projectile, which joins the live set under the next
/// entity number; with no player those phases do nothing. Then every live projectile,
/// the new one included, ages by the frame time and the spent ones are retired.
pub fn run_frame(world: &mut World, input: &FrameInput, ray: &AimRay, hits: &[RayHit]) -> (out:
    FrameOutput)
    requires
        frame_fits(*old(world), *input, *ray, hits@),
    ensures
        final(world).player == old(world).player,
        old(world).player is None ==> final(world).rig == old(world).rig && out.spawned is None,
        old(world).player matches Some(p) ==> {
            &&& final(world).rig.anchor == crate::rig::anchor_for(p)
            &&& input.captured ==> final(world).rig.yaw == crate::rig::yaw_after(
                old(world).rig.yaw as int,
                input.motions@,
                input.dt as int,
                old(world).rig.sensitivity as int,
            ) && final(world).rig.pitch == crate::rig::pitch_after(
                old(world).rig.pitch as int,
                input.motions@,
                input.dt as int,
                old(world).rig.sensitivity as int,
            )
            &&& !input.captured ==> final(world).rig.yaw == old(world).rig.yaw
                && final(world).rig.pitch == old(world).rig.pitch
            &&& (out.spawned is Some <==> input.fire_held && p != aim_target(*ray, hits@))
        },
        final(world).rig.arm == old(world).rig.arm,
        final(world).rig.sensitivity == old(world).rig.sensitivity,
        out.spawned is None ==> final(world).next_entity == old(world).next_entity
            && final(world).live@ == survivors(old(world).live@, input.dt as int)
            && out.despawned@ == retired(old(world).live@, input.dt as int),
        out.spawned matches Some(s) ==> {
            let born = LiveProjectile { entity: old(world).next_entity, projectile: s.request.projectile };
            &&& old(world).player matches Some(p) && fired(s.request, p, aim_target(*ray, hits@))
            &&& s.entity == old(world).next_entity
            &&& final(world).next_entity == old(world).next_entity + 1
            &&& final(world).live@ == survivors(old(world).live@.push(born), input.dt as int)
            &&& out.despawned@ == retired(old(world).live@.push(born), input.dt as int)
        },
{
    let mut spawned: Option<Spawned> = None;
    match world.player {
        Some(p) => {
            update_camera(&mut world.rig, &p, input.motions.as_slice(), input.dt, input.captured);
            let shot = if input.fire_held {
                mouse_input(true, &p, ray, hits)
            } else {
                None
            };
            match shot {
                Some(request) => {
                    let entity = world.next_entity;
                    world.live.push(LiveProjectile { entity, projectile: request.projectile });
                    world.next_entity = entity + 1;
                    spawned = Some(Spawned { entity, request });
                },
                None => {},
            }
        },
        None => {},
    }
    proof {
        if spawned is Some {
            let n = world.live@.len() - 1;
            assert(world.live@[n].projectile.lifetime == PROJECTILE_LIFETIME);
            assert forall|i: int| 0 <= i < world.live@.len() implies #[trigger] world.live@[i].projectile.lifetime
                - input.dt >= i64::MIN by {
                if i < n {
                    assert(world.live@[i] == old(world).live@[i]);
                }
            }
        }
    }
    let despawned = update_projectiles(&mut world.live, input.dt);
    FrameOutput { spawned, despawned }
}

} // verus!
