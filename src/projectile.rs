//! Projectiles and their lifetime: each frame ages every live projectile and retires
//! those whose time has run out.
use vstd::prelude::*;
use vstd::seq_lib::lemma_seq_contains_after_push;
use crate::geometry::{is_isqrt, lemma_root_unique, norm_sq, unit_of, Vec3, DIR_ONE_SQ, UNIT};

verus! {

/// Microseconds in one second: lifetimes and frame times are held in microseconds.
pub const MICROS: i64 = 1000000;

/// The speed of a fired projectile: ten world units per second.
pub const PROJECTILE_SPEED: i64 = 10000;

/// How long a fired projectile lives: one second.
pub const PROJECTILE_LIFETIME: i64 = 1000000;

/// A moving projectile: its direction (in parts of `DIR_ONE`), its speed (position units
/// per second) and the time it has left (microseconds).
#[derive(Clone, Copy, Debug, PartialEq, Eq, Structural)]
pub struct Projectile {
    pub direction: Vec3,
    pub speed: i64,
    pub lifetime: i64,
}

/// A coordinate of the unit direction along `(1, 1, 1)`: `DIR_ONE / sqrt(3)`, rounded as
/// `normalize` rounds it.
pub const DIAGONAL: i64 = 605395;

impl Default for Projectile {
    /// A projectile heading along `(1, 1, 1)`, as a unit direction, at ten units per
    /// second with one second to live.
    fn default() -> (r: Projectile)
        ensures
            r.direction == unit_of(Vec3 { x: 1, y: 1, z: 1 }),
            r.direction == (Vec3 { x: DIAGONAL, y: DIAGONAL, z: DIAGONAL }),
            r.speed == 10 * UNIT,
            r.lifetime == MICROS,
    {
        proof {
            let n: int = norm_sq(Vec3 { x: 1, y: 1, z: 1 }) * DIR_ONE_SQ;
            assert(n == 3 * 0x100_0000_0000);
            assert(is_isqrt(n, 1816186));
            lemma_root_unique(n, 1816186);
            vstd::arithmetic::div_mod::lemma_fundamental_div_mod_converse(
                0x100_0000_0000,
                1816186,
                605395,
                0x100_0000_0000 - 605395 * 1816186,
            );
        }
        Projectile {
            direction: Vec3 { x: DIAGONAL, y: DIAGONAL, z: DIAGONAL },
            speed: PROJECTILE_SPEED,
            lifetime: PROJECTILE_LIFETIME,
        }
    }
}

/// A projectile in the world, with the entity that carries it.
#[derive(Clone, Copy, Debug, PartialEq, Eq, Structural)]
pub struct LiveProjectile {
    pub entity: u64,
    pub projectile: Projectile,
}

/// `p` after `t` more microseconds.
pub open spec fn aged(p: LiveProjectile, t: int) -> LiveProjectile {
    LiveProjectile {
        entity: p.entity,
        projectile: Projectile { lifetime: (p.projectile.lifetime - t) as i64, ..p.projectile },
    }
}

/// Whether a projectile still has time left.
pub open spec fn alive(p: LiveProjectile) -> bool {
    p.projectile.lifetime > 0
}

/// The projectiles of `s` after a frame of `t` microseconds, in order: each one aged, and
/// those with no time left gone.
pub open spec fn survivors(s: Seq<LiveProjectile>, t: int) -> Seq<LiveProjectile>
    decreases s.len(),
{
    if s.len() == 0 {
        s
    } else {
        let rest = survivors(s.drop_last(), t);
        let p = aged(s.last(), t);
        if alive(p) {
            rest.push(p)
        } else {
            rest
        }
    }
}

/// The entities of `s` that a frame of `t` microseconds retires, in order.
pub open spec fn retired(s: Seq<LiveProjectile>, t: int) -> Seq<u64>
    decreases s.len(),
{
    if s.len() == 0 {
        Seq::empty()
    } else {
        let rest = retired(s.drop_last(), t);
        let p = aged(s.last(), t);
        if alive(p) {
            rest
        } else {
            rest.push(p.entity)
        }
    }
}

/// Whether every projectile of `s` can age by `t` without leaving the range of `i64`.
pub open spec fn can_age(s: Seq<LiveProjectile>, t: int) -> bool {
    forall|i: int| 0 <= i < s.len() ==> #[trigger] s[i].projectile.lifetime - t >= i64::MIN
}

/// Whether every projectile of `live` can age by `elapsed` within `i64`: the condition
/// `update_projectiles` asks of a frame.
pub fn age_in_range(live: &[LiveProjectile], elapsed: u32) -> (r: bool)
    ensures
        r == can_age(live@, elapsed as int),
{
    let mut i: usize = 0;
    while i < live.len()
        invariant
            0 <= i <= live@.len(),
            forall|j: int| 0 <= j < i ==> #[trigger] live@[j].projectile.lifetime - elapsed >= i64::MIN,
        decreases live@.len() - i,
    {
        if live[i].projectile.lifetime < i64::MIN + elapsed as i64 {
            return false;
        }
        i = i + 1;
    }
    true
}

/// Ages every live projectile by `elapsed` microseconds and removes those whose lifetime
/// has reached zero or less; returns their entities, for despawning.
pub fn update_projectiles(live: &mut Vec<LiveProjectile>, elapsed: u32) -> (gone: Vec<u64>)
    requires
        can_age(old(live)@, elapsed as int),
    ensures
        final(live)@ == survivors(old(live)@, elapsed as int),
        gone@ == retired(old(live)@, elapsed as int),
{
    let ghost start = live@;
    let mut kept: Vec<LiveProjectile> = Vec::new();
    let mut gone: Vec<u64> = Vec::new();
    let mut i: usize = 0;
    while i < live.len()
        invariant
            live@ == start,
            0 <= i <= start.len(),
            can_age(start, elapsed as int),
            kept@ == survivors(start.subrange(0, i as int), elapsed as int),
            gone@ == retired(start.subrange(0, i as int), elapsed as int),
        decreases start.len() - i,
    {
        let mut p = live[i];
        assert(start[i as int].projectile.lifetime - elapsed >= i64::MIN);
        p.projectile.lifetime = p.projectile.lifetime - elapsed as i64;
        proof {
            let pre = start.subrange(0, i as int + 1);
            assert(pre.drop_last() =~= start.subrange(0, i as int));
            assert(pre.last() == start[i as int]);
        }
        if p.projectile.lifetime <= 0 {
            gone.push(p.entity);
        } else {
            kept.push(p);
        }
        i = i + 1;
    }
    assert(start.subrange(0, start.len() as int) =~= start);
    *live = kept;
    gone
}

/// The time of a run of frames, in microseconds.
pub open spec fn total(ts: Seq<u32>) -> int
    decreases ts.len(),
{
    if ts.len() == 0 {
        0
    } else {
        total(ts.drop_last()) + ts.last()
    }
}

/// The live projectiles after the frames `ts`, one after another, starting from `s`.
pub open spec fn after_frames(s: Seq<LiveProjectile>, ts: Seq<u32>) -> Seq<LiveProjectile>
    decreases ts.len(),
{
    if ts.len() == 0 {
        s
    } else {
        survivors(after_frames(s, ts.drop_last()), ts.last() as int)
    }
}

/// A frame keeps exactly the aged projectiles that still have time left.
pub proof fn lemma_survivors_contains(s: Seq<LiveProjectile>, t: int, q: LiveProjectile)
    ensures
        survivors(s, t).contains(q) <==> exists|i: int|
            0 <= i < s.len() && q == aged(#[trigger] s[i], t) && alive(q),
    decreases s.len(),
{
    if s.len() > 0 {
        let rest = s.drop_last();
        lemma_survivors_contains(rest, t, q);
        let p = aged(s.last(), t);
        if alive(p) {
            lemma_seq_contains_after_push(survivors(rest, t), p, q);
        }
        if survivors(s, t).contains(q) {
            if q == p && alive(p) {
                assert(q == aged(s[s.len() - 1], t));
            } else {
                let i = choose|i: int| 0 <= i < rest.len() && q == aged(#[trigger] rest[i], t) && alive(q);
                assert(s[i] == rest[i]);
            }
        } else {
            assert forall|i: int| 0 <= i < s.len() && q == aged(#[trigger] s[i], t) implies !alive(q) by {
                if i < rest.len() {
                    assert(s[i] == rest[i]);
                }
            }
        }
    }
}

/// A frame retires exactly the entities whose aged projectile has no time left.
pub proof fn lemma_retired_contains(s: Seq<LiveProjectile>, t: int, e: u64)
    ensures
        retired(s, t).contains(e) <==> exists|i: int|
            0 <= i < s.len() && (#[trigger] s[i]).entity == e && !alive(aged(s[i], t)),
    decreases s.len(),
{
    if s.len() > 0 {
        let rest = s.drop_last();
        lemma_retired_contains(rest, t, e);
        let p = aged(s.last(), t);
        if !alive(p) {
            lemma_seq_contains_after_push(retired(rest, t), p.entity, e);
        }
        if retired(s, t).contains(e) {
            if p.entity == e && !alive(p) {
                assert(s[s.len() - 1].entity == e);
            } else {
                let i = choose|i: int|
                    0 <= i < rest.len() && (#[trigger] rest[i]).entity == e && !alive(aged(rest[i], t));
                assert(s[i] == rest[i]);
            }
        } else {
            assert forall|i: int| 0 <= i < s.len() && (#[trigger] s[i]).entity == e implies alive(
                aged(s[i], t),
            ) by {
                if i < rest.len() {
                    assert(s[i] == rest[i]);
                }
            }
        }
    }
}

/// Whether no two projectiles of `s` share an entity.
pub open spec fn distinct_entities(s: Seq<LiveProjectile>) -> bool {
    forall|i: int, j: int|
        0 <= i < s.len() && 0 <= j < s.len() && i != j ==> (#[trigger] s[i]).entity != (
        #[trigger] s[j]).entity
}

/// A frame that retires an entity keeps no projectile of it: when entities are distinct,
/// what a frame retires and what it keeps are apart.
pub proof fn lemma_retired_not_kept(s: Seq<LiveProjectile>, t: int, q: LiveProjectile)
    requires
        distinct_entities(s),
        retired(s, t).contains(q.entity),
    ensures
        !survivors(s, t).contains(q),
{
    lemma_retired_contains(s, t, q.entity);
    lemma_survivors_contains(s, t, q);
    let j = choose|j: int| 0 <= j < s.len() && (#[trigger] s[j]).entity == q.entity && !alive(aged(s[j], t));
    if survivors(s, t).contains(q) {
        let i = choose|i: int| 0 <= i < s.len() && q == aged(#[trigger] s[i], t) && alive(q);
        assert(s[i].entity == s[j].entity);
    }
}

/// Lifetime over many frames: after one or more frames `ts`, applied one after another,
/// a projectile is live exactly when its starting lifetime minus the sum of the frame
/// times is still above zero, and then that difference is its lifetime. Once that value
/// reaches zero it stays there or below, so a retired projectile never comes back.
pub proof fn lemma_lifetime_over_frames(s: Seq<LiveProjectile>, ts: Seq<u32>, q: LiveProjectile)
    requires
        ts.len() > 0,
        forall|i: int| 0 <= i < s.len() ==> #[trigger] s[i].projectile.lifetime - total(ts) >= i64::MIN,
    ensures
        after_frames(s, ts).contains(q) <==> exists|i: int|
            0 <= i < s.len() && q == aged(#[trigger] s[i], total(ts)) && alive(q),
    decreases ts.len(),
{
    let pre = ts.drop_last();
    let t = ts.last() as int;
    let mid = after_frames(s, pre);
    assert(total(ts) == total(pre) + t);
    lemma_total_nonneg(pre);
    lemma_survivors_contains(mid, t, q);
    if pre.len() == 0 {
        assert(mid == s);
        assert(total(pre) == 0);
    } else {
        assert forall|i: int| 0 <= i < s.len() implies #[trigger] s[i].projectile.lifetime - total(pre)
            >= i64::MIN by {
            assert(s[i].projectile.lifetime - total(ts) >= i64::MIN);
        }
        if after_frames(s, ts).contains(q) {
            let j = choose|j: int| 0 <= j < mid.len() && q == aged(#[trigger] mid[j], t) && alive(q);
            let r = mid[j];
            assert(mid.contains(r));
            lemma_lifetime_over_frames(s, pre, r);
            let i = choose|i: int| 0 <= i < s.len() && r == aged(#[trigger] s[i], total(pre)) && alive(r);
            assert(s[i].projectile.lifetime - total(ts) >= i64::MIN);
            assert(q == aged(s[i], total(ts)));
        } else {
            assert forall|i: int| 0 <= i < s.len() && q == aged(#[trigger] s[i], total(ts)) implies !alive(q) by {
                if alive(q) {
                    assert(s[i].projectile.lifetime - total(ts) >= i64::MIN);
                    let r = aged(s[i], total(pre));
                    assert(alive(r));
                    lemma_lifetime_over_frames(s, pre, r);
                    assert(mid.contains(r));
                    let j = choose|j: int| 0 <= j < mid.len() && mid[j] == r;
                    assert(q == aged(mid[j], t));
                }
            }
        }
    }
}

/// The live set after the frames `ts`, for a start where every projectile has time left:
/// exactly the aged projectiles that still have time left. With no frame it is the start.
proof fn lemma_after_frames_contains(s: Seq<LiveProjectile>, ts: Seq<u32>, q: LiveProjectile)
    requires
        forall|i: int| 0 <= i < s.len() ==> alive(#[trigger] s[i]),
        forall|i: int| 0 <= i < s.len() ==> #[trigger] s[i].projectile.lifetime - total(ts) >= i64::MIN,
    ensures
        after_frames(s, ts).contains(q) <==> exists|i: int|
            0 <= i < s.len() && q == aged(#[trigger] s[i], total(ts)) && alive(q),
{
    if ts.len() == 0 {
        assert(total(ts) == 0);
        assert forall|i: int| 0 <= i < s.len() implies aged(#[trigger] s[i], 0) == s[i] by {}
        if s.contains(q) {
            let i = choose|i: int| 0 <= i < s.len() && s[i] == q;
            assert(q == aged(s[i], total(ts)));
        }
    } else {
        lemma_lifetime_over_frames(s, ts, q);
    }
}

/// Retirement on expiry: for live projectiles with distinct entities, a projectile is
/// retired by frame `k` (after the frames before it) exactly when its lifetime minus the
/// earlier frames' time was still above zero and minus frame `k`'s time too is at most
/// zero: on the first frame where its lifetime reaches zero, not before and not after.
pub proof fn lemma_retired_at_expiry(s: Seq<LiveProjectile>, ts: Seq<u32>, i: int)
    requires
        distinct_entities(s),
        forall|j: int| 0 <= j < s.len() ==> alive(#[trigger] s[j]),
        forall|j: int| 0 <= j < s.len() ==> #[trigger] s[j].projectile.lifetime - total(ts) >= i64::MIN,
        0 <= i < s.len(),
        ts.len() > 0,
    ensures
        retired(after_frames(s, ts.drop_last()), ts.last() as int).contains(s[i].entity) <==> (
        s[i].projectile.lifetime - total(ts.drop_last()) > 0 && s[i].projectile.lifetime - total(ts)
            <= 0),
{
    let pre = ts.drop_last();
    let t = ts.last() as int;
    let tp = total(pre);
    let mid = after_frames(s, pre);
    let e = s[i].entity;
    assert(total(ts) == tp + t);
    lemma_total_nonneg(pre);
    assert forall|j: int| 0 <= j < s.len() implies #[trigger] s[j].projectile.lifetime - tp >= i64::MIN by {
        assert(s[j].projectile.lifetime - total(ts) >= i64::MIN);
    }
    lemma_retired_contains(mid, t, e);
    let r = aged(s[i], tp);
    if retired(mid, t).contains(e) {
        let j = choose|j: int| 0 <= j < mid.len() && (#[trigger] mid[j]).entity == e && !alive(aged(mid[j], t));
        assert(mid.contains(mid[j]));
        lemma_after_frames_contains(s, pre, mid[j]);
        let k = choose|k: int| 0 <= k < s.len() && mid[j] == aged(#[trigger] s[k], tp) && alive(mid[j]);
        assert(s[k].entity == s[i].entity);
        assert(k == i);
        assert(s[i].projectile.lifetime - total(ts) >= i64::MIN);
    } else if s[i].projectile.lifetime - tp > 0 && s[i].projectile.lifetime - total(ts) <= 0 {
        assert(alive(r));
        lemma_after_frames_contains(s, pre, r);
        assert(mid.contains(r));
        let j = choose|j: int| 0 <= j < mid.len() && mid[j] == r;
        assert(!alive(aged(mid[j], t)));
    }
}

/// The time of a run of frames is never negative.
pub proof fn lemma_total_nonneg(ts: Seq<u32>)
    ensures
        total(ts) >= 0,
    decreases ts.len(),
{
    if ts.len() > 0 {
        lemma_total_nonneg(ts.drop_last());
    }
}

} // verus!
