//! The follow camera rig: its anchor tracks the player, and pointer motion turns it while
//! the cursor is captured. Angles are held in millionths of a degree.
use vstd::prelude::*;
use crate::geometry::{fits_i64, Vec3, UNIT};

verus! {

/// How far above the player the rig's anchor sits: one world unit.
pub const VERTICAL_OFFSET: i64 = 1000;

/// How fast pointer motion turns the camera.
pub const LOOK_SENSITIVITY: i64 = 20;

/// The rig's starting pitch: thirty degrees down.
pub const START_PITCH: i64 = -30000000;

/// Pointer motion reported since the last frame, in pointer units.
#[derive(Clone, Copy, Debug, PartialEq, Eq, Structural)]
pub struct PointerMotion {
    pub dx: i32,
    pub dy: i32,
}

/// The camera's follow structure: the anchor it orbits, its yaw and pitch (millionths of
/// a degree), the arm from the anchor to the camera, and the look sensitivity.
#[derive(Clone, Copy, Debug, PartialEq, Eq, Structural)]
pub struct CameraRig {
    pub anchor: Vec3,
    pub yaw: i64,
    pub pitch: i64,
    pub arm: Vec3,
    pub sensitivity: i64,
}

/// The anchor for a player at `p`: the player's position raised by the vertical offset.
pub open spec fn anchor_for(p: Vec3) -> Vec3 {
    Vec3 { x: p.x, y: (p.y + VERTICAL_OFFSET) as i64, z: p.z }
}

/// The yaw after turning by every motion of `ms` over a frame of `dt` microseconds.
pub open spec fn yaw_after(yaw: int, ms: Seq<PointerMotion>, dt: int, s: int) -> int
    decreases ms.len(),
{
    if ms.len() == 0 {
        yaw
    } else {
        yaw_after(yaw, ms.drop_last(), dt, s) - ms.last().dx * dt * s
    }
}

/// The pitch after turning by every motion of `ms` over a frame of `dt` microseconds.
pub open spec fn pitch_after(pitch: int, ms: Seq<PointerMotion>, dt: int, s: int) -> int
    decreases ms.len(),
{
    if ms.len() == 0 {
        pitch
    } else {
        pitch_after(pitch, ms.drop_last(), dt, s) - ms.last().dy * dt * s
    }
}

/// Whether turning by each prefix of `ms` keeps yaw and pitch in the range of `i64`.
pub open spec fn look_fits(rig: CameraRig, ms: Seq<PointerMotion>, dt: int) -> bool {
    forall|k: int|
        0 <= k <= ms.len() ==> fits_i64(#[trigger] yaw_after(rig.yaw as int, ms.take(k), dt, rig.sensitivity as int))
            && fits_i64(pitch_after(rig.pitch as int, ms.take(k), dt, rig.sensitivity as int))
}

impl CameraRig {
    /// A rig at the origin, looking thirty degrees down, with its arm ten units behind and
    /// one unit above the anchor.
    pub fn new() -> (r: CameraRig)
        ensures
            r.anchor == (Vec3 { x: 0, y: 0, z: 0 }),
            r.yaw == 0,
            r.pitch == START_PITCH,
            r.arm == (Vec3 { x: 0, y: UNIT, z: 10000 }),
            r.sensitivity == LOOK_SENSITIVITY,
    {
        CameraRig {
            anchor: Vec3 { x: 0, y: 0, z: 0 },
            yaw: 0,
            pitch: START_PITCH,
            arm: Vec3 { x: 0, y: UNIT, z: 10000 },
            sensitivity: LOOK_SENSITIVITY,
        }
    }
}

/// One motion's turn: `d * dt * s`, which `i128` always holds.
fn turn(d: i32, dt: u32, s: i64) -> (r: i128)
    ensures
        r == d * dt * s,
        -0x4000_0000_0000_0000_0000_0000_0000_0000 <= r <= 0x4000_0000_0000_0000_0000_0000_0000_0000,
{
    proof {
        assert(-0x8000_0000 * 0x1_0000_0000 <= d * dt <= 0x8000_0000 * 0x1_0000_0000) by (nonlinear_arith)
            requires -0x8000_0000 <= d < 0x8000_0000, 0 <= dt < 0x1_0000_0000;
        let a = d * dt;
        let aa = if a >= 0 { a } else { -a };
        let ss = if s >= 0 { s as int } else { -s };
        assert(0 <= aa * ss <= 0x8000_0000_0000_0000 * ss) by (nonlinear_arith)
            requires 0 <= aa <= 0x8000_0000_0000_0000, ss >= 0;
        assert(0x8000_0000_0000_0000 * ss <= 0x8000_0000_0000_0000 * 0x8000_0000_0000_0000) by (nonlinear_arith)
            requires 0 <= ss <= 0x8000_0000_0000_0000;
        assert(a * s == aa * ss || a * s == -(aa * ss)) by (nonlinear_arith)
            requires aa == a || aa == -a, ss == s || ss == -s;
    }
    d as i128 * dt as i128 * s as i128
}

/// One frame of the camera rig: the anchor moves to just above the player whatever the
/// input; while the cursor is captured each pointer motion turns the rig by
/// `-dx * dt * sensitivity` in yaw and `-dy * dt * sensitivity` in pitch, and while it is
/// free the motion is ignored.
pub fn update_camera(
    rig: &mut CameraRig,
    player: &Vec3,
    motions: &[PointerMotion],
    dt: u32,
    captured: bool,
)
    requires
        fits_i64(player.y + VERTICAL_OFFSET),
        captured ==> look_fits(*old(rig), motions@, dt as int),
    ensures
        final(rig).anchor == anchor_for(*player),
        final(rig).arm == old(rig).arm,
        final(rig).sensitivity == old(rig).sensitivity,
        captured ==> final(rig).yaw == yaw_after(
            old(rig).yaw as int,
            motions@,
            dt as int,
            old(rig).sensitivity as int,
        ),
        captured ==> final(rig).pitch == pitch_after(
            old(rig).pitch as int,
            motions@,
            dt as int,
            old(rig).sensitivity as int,
        ),
        !captured ==> final(rig).yaw == old(rig).yaw && final(rig).pitch == old(rig).pitch,
{
    rig.anchor = Vec3 { x: player.x, y: player.y + VERTICAL_OFFSET, z: player.z };
    if !captured {
        return;
    }
    let ghost y0 = rig.yaw as int;
    let ghost p0 = rig.pitch as int;
    let s = rig.sensitivity;
    let mut i: usize = 0;
    while i < motions.len()
        invariant
            0 <= i <= motions@.len(),
            s == old(rig).sensitivity,
            y0 == old(rig).yaw,
            p0 == old(rig).pitch,
            look_fits(*old(rig), motions@, dt as int),
            rig.anchor == anchor_for(*player),
            rig.arm == old(rig).arm,
            rig.sensitivity == s,
            rig.yaw == yaw_after(y0, motions@.take(i as int), dt as int, s as int),
            rig.pitch == pitch_after(p0, motions@.take(i as int), dt as int, s as int),
        decreases motions@.len() - i,
    {
        let m = motions[i];
        proof {
            let next = motions@.take(i as int + 1);
            assert(next.drop_last() =~= motions@.take(i as int));
            assert(next.last() == m);
            assert(fits_i64(yaw_after(y0, next, dt as int, s as int)));
        }
        let ny = rig.yaw as i128 - turn(m.dx, dt, s);
        let np = rig.pitch as i128 - turn(m.dy, dt, s);
        rig.yaw = ny as i64;
        rig.pitch = np as i64;
        i = i + 1;
    }
    assert(motions@.take(motions@.len() as int) =~= motions@);
}

/// Whether a captured frame with `motions` over `dt` microseconds keeps the rig's yaw and
/// pitch within `i64` at every step: the condition `update_camera` asks of such a frame.
pub fn look_in_range(rig: &CameraRig, motions: &[PointerMotion], dt: u32) -> (r: bool)
    ensures
        r == look_fits(*rig, motions@, dt as int),
{
    let s = rig.sensitivity;
    let mut yaw: i128 = rig.yaw as i128;
    let mut pitch: i128 = rig.pitch as i128;
    let mut i: usize = 0;
    assert(motions@.take(0) =~= Seq::<PointerMotion>::empty());
    while i < motions.len()
        invariant
            0 <= i <= motions@.len(),
            s == rig.sensitivity,
            yaw == yaw_after(rig.yaw as int, motions@.take(i as int), dt as int, s as int),
            pitch == pitch_after(rig.pitch as int, motions@.take(i as int), dt as int, s as int),
            forall|k: int|
                0 <= k <= i ==> fits_i64(#[trigger] yaw_after(rig.yaw as int, motions@.take(k), dt as int, s as int))
                    && fits_i64(pitch_after(rig.pitch as int, motions@.take(k), dt as int, s as int)),
        decreases motions@.len() - i,
    {
        let m = motions[i];
        proof {
            let next = motions@.take(i as int + 1);
            assert(next.drop_last() =~= motions@.take(i as int));
            assert(next.last() == m);
        }
        let ny = yaw - turn(m.dx, dt, s);
        let np = pitch - turn(m.dy, dt, s);
        if ny < i64::MIN as i128 || ny > i64::MAX as i128 || np < i64::MIN as i128 || np
            > i64::MAX as i128 {
            proof {
                let k = i as int + 1;
                let ys = yaw_after(rig.yaw as int, motions@.take(k), dt as int, rig.sensitivity as int);
                let ps = pitch_after(rig.pitch as int, motions@.take(k), dt as int, rig.sensitivity as int);
                assert(ys == ny && ps == np);
                assert(!(fits_i64(ys) && fits_i64(ps)));
                assert(0 <= k <= motions@.len());
                assert(!look_fits(*rig, motions@, dt as int));
            }
            return false;
        }
        yaw = ny;
        pitch = np;
        i = i + 1;
    }
    true
}

/// Cursor gating of one motion: with the cursor captured, a single motion `(dx, dy)` over
/// `dt` with sensitivity `s` turns yaw by exactly `-dx * dt * s` and pitch by exactly
/// `-dy * dt * s`; no motion at all leaves both as they were.
pub proof fn lemma_single_motion(yaw: int, pitch: int, m: PointerMotion, dt: int, s: int)
    ensures
        yaw_after(yaw, seq![m], dt, s) == yaw - m.dx * dt * s,
        pitch_after(pitch, seq![m], dt, s) == pitch - m.dy * dt * s,
        yaw_after(yaw, Seq::empty(), dt, s) == yaw,
        pitch_after(pitch, Seq::empty(), dt, s) == pitch,
{
    let one = seq![m];
    assert(one.drop_last() =~= Seq::<PointerMotion>::empty());
    assert(one.last() == m);
    assert(yaw_after(yaw, one.drop_last(), dt, s) == yaw);
    assert(pitch_after(pitch, one.drop_last(), dt, s) == pitch);
}

} // verus!
