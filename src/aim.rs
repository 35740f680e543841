//! Aim resolution: the point the camera looks at, from the camera's ray and the hits
//! that the physics world reported along it.
use vstd::prelude::*;
use crate::geometry::{div_floor, fits_i64, Vec3, DIR_ONE};

verus! {

/// How far the aim reaches when the ray hits nothing: a thousand world units.
pub const MAX_AIM_DISTANCE: i64 = 1000000;

/// A ray from the camera: its origin and its direction, in parts of `DIR_ONE`.
#[derive(Clone, Copy, Debug, PartialEq, Eq, Structural)]
pub struct AimRay {
    pub origin: Vec3,
    pub direction: Vec3,
}

/// One intersection of the ray with solid geometry, `time_of_impact` position units along it.
#[derive(Clone, Copy, Debug, PartialEq, Eq, Structural)]
pub struct RayHit {
    pub entity: u64,
    pub time_of_impact: i64,
}

/// Whether each direction coordinate of the ray is at most one unit long.
pub open spec fn unit_bounded(ray: AimRay) -> bool {
    -DIR_ONE <= ray.direction.x <= DIR_ONE && -DIR_ONE <= ray.direction.y <= DIR_ONE && -DIR_ONE
        <= ray.direction.z <= DIR_ONE
}

/// One coordinate of the point `dist` along a ray, rounded down.
pub open spec fn along_coord(o: int, d: int, dist: int) -> int {
    o + (d * dist) / (DIR_ONE as int)
}

/// Whether the point `dist` along `ray` can be held in `i64` coordinates.
pub open spec fn along_fits(ray: AimRay, dist: int) -> bool {
    fits_i64(along_coord(ray.origin.x as int, ray.direction.x as int, dist)) && fits_i64(
        along_coord(ray.origin.y as int, ray.direction.y as int, dist),
    ) && fits_i64(along_coord(ray.origin.z as int, ray.direction.z as int, dist))
}

/// The point `dist` along `ray`: `origin + direction * dist`.
pub open spec fn along(ray: AimRay, dist: int) -> Vec3 {
    Vec3 {
        x: along_coord(ray.origin.x as int, ray.direction.x as int, dist) as i64,
        y: along_coord(ray.origin.y as int, ray.direction.y as int, dist) as i64,
        z: along_coord(ray.origin.z as int, ray.direction.z as int, dist) as i64,
    }
}

/// The index of the nearest hit, the first one among equals; `-1` when there is none.
pub open spec fn nearest_index(hits: Seq<RayHit>) -> int
    decreases hits.len(),
{
    if hits.len() == 0 {
        -1
    } else {
        let k = nearest_index(hits.drop_last());
        if k < 0 || hits.last().time_of_impact < hits[k].time_of_impact {
            hits.len() - 1
        } else {
            k
        }
    }
}

/// Whether hit `i` is no farther than any other, and strictly nearer than every hit before it.
pub open spec fn is_first_nearest(hits: Seq<RayHit>, i: int) -> bool {
    &&& 0 <= i < hits.len()
    &&& forall|j: int| 0 <= j < hits.len() ==> hits[i].time_of_impact <= #[trigger] hits[j].time_of_impact
    &&& forall|j: int| 0 <= j < i ==> hits[i].time_of_impact < #[trigger] hits[j].time_of_impact
}

/// The target of the aim: the nearest hit along the ray, or the farthest aim point when
/// the ray hits nothing.
pub open spec fn aim_target(ray: AimRay, hits: Seq<RayHit>) -> Vec3 {
    if hits.len() == 0 {
        along(ray, MAX_AIM_DISTANCE as int)
    } else {
        along(ray, hits[nearest_index(hits)].time_of_impact as int)
    }
}

/// Whether every hit, and the farthest aim point, lie at points that `i64` can hold.
pub open spec fn aim_fits(ray: AimRay, hits: Seq<RayHit>) -> bool {
    &&& along_fits(ray, MAX_AIM_DISTANCE as int)
    &&& forall|i: int| 0 <= i < hits.len() ==> along_fits(ray, #[trigger] hits[i].time_of_impact as int)
}

/// The nearest hit is the first among the nearest ones.
pub proof fn lemma_nearest_index(hits: Seq<RayHit>)
    ensures
        hits.len() == 0 <==> nearest_index(hits) == -1,
        hits.len() > 0 ==> is_first_nearest(hits, nearest_index(hits)),
    decreases hits.len(),
{
    if hits.len() > 0 {
        let rest = hits.drop_last();
        lemma_nearest_index(rest);
        let k = nearest_index(rest);
        assert forall|j: int| 0 <= j < rest.len() implies rest[j] == #[trigger] hits[j] by {}
    }
}

/// The index of the nearest hit, the first one among equals; `None` when there is none.
pub fn nearest_hit(hits: &[RayHit]) -> (r: Option<usize>)
    ensures
        r is None <==> hits@.len() == 0,
        r matches Some(i) ==> i == nearest_index(hits@) && is_first_nearest(hits@, i as int),
{
    let mut best: Option<usize> = None;
    let mut i: usize = 0;
    while i < hits.len()
        invariant
            0 <= i <= hits@.len(),
            match best {
                None => nearest_index(hits@.subrange(0, i as int)) == -1,
                Some(k) => k < i && nearest_index(hits@.subrange(0, i as int)) == k,
            },
        decreases hits@.len() - i,
    {
        proof {
            let pre = hits@.subrange(0, i as int + 1);
            assert(pre.drop_last() =~= hits@.subrange(0, i as int));
        }
        match best {
            None => {
                best = Some(i);
            },
            Some(k) => {
                if hits[i].time_of_impact < hits[k].time_of_impact {
                    best = Some(i);
                }
            },
        }
        i = i + 1;
    }
    proof {
        assert(hits@.subrange(0, hits@.len() as int) =~= hits@);
        lemma_nearest_index(hits@);
    }
    best
}

/// A direction coordinate times a distance stays far inside `i128`.
proof fn lemma_scaled_bound(a: int, b: int)
    requires
        -DIR_ONE <= a <= DIR_ONE,
        i64::MIN <= b <= i64::MAX,
    ensures
        -0x10_0000_0000_0000_0000_0000 <= a * b <= 0x10_0000_0000_0000_0000_0000,
{
    let aa = if a >= 0 { a } else { -a };
    let bb = if b >= 0 { b } else { -b };
    assert(0 <= aa * bb <= 0x100000 * bb) by (nonlinear_arith)
        requires
            0 <= aa <= 0x100000,
            bb >= 0,
    ;
    assert(a * b == aa * bb || a * b == -(aa * bb)) by (nonlinear_arith)
        requires
            aa == a || aa == -a,
            bb == b || bb == -b,
    ;
}

/// The point `dist` along `ray`.
pub fn point_along(ray: &AimRay, dist: i64) -> (r: Vec3)
    requires
        unit_bounded(*ray),
        along_fits(*ray, dist as int),
    ensures
        r == along(*ray, dist as int),
{
    let d: i128 = dist as i128;
    proof {
        lemma_scaled_bound(ray.direction.x as int, d as int);
        lemma_scaled_bound(ray.direction.y as int, d as int);
        lemma_scaled_bound(ray.direction.z as int, d as int);
    }
    let x = ray.origin.x as i128 + div_floor(ray.direction.x as i128 * d, DIR_ONE as i128);
    let y = ray.origin.y as i128 + div_floor(ray.direction.y as i128 * d, DIR_ONE as i128);
    let z = ray.origin.z as i128 + div_floor(ray.direction.z as i128 * d, DIR_ONE as i128);
    Vec3 { x: x as i64, y: y as i64, z: z as i64 }
}

/// The point the camera aims at: where the ray first meets geometry, or the point
/// `MAX_AIM_DISTANCE` along it when it meets nothing. It reads nothing but its arguments.
pub fn resolve_aim(ray: &AimRay, hits: &[RayHit]) -> (r: Vec3)
    requires
        unit_bounded(*ray),
        aim_fits(*ray, hits@),
    ensures
        r == aim_target(*ray, hits@),
        hits@.len() == 0 ==> r == along(*ray, MAX_AIM_DISTANCE as int),
        hits@.len() > 0 ==> exists|i: int|
            is_first_nearest(hits@, i) && r == along(*ray, hits@[i].time_of_impact as int),
{
    match nearest_hit(hits) {
        Some(i) => {
            assert(along_fits(*ray, hits@[i as int].time_of_impact as int));
            point_along(ray, hits[i].time_of_impact)
        },
        None => point_along(ray, MAX_AIM_DISTANCE),
    }
}

/// Aim resolution is a function of the ray and the hits alone: the same ray and the same
/// hits give the same target, and with no hit the target is the point `MAX_AIM_DISTANCE`
/// along the ray.
pub proof fn lemma_aim_is_pure(ray: AimRay, a: Seq<RayHit>, b: Seq<RayHit>)
    requires
        a == b,
    ensures
        aim_target(ray, a) == aim_target(ray, b),
        a.len() == 0 ==> aim_target(ray, a) == along(ray, MAX_AIM_DISTANCE as int),
{
}

} // verus!
