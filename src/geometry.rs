//! Fixed-point world geometry: positions, directions and the integer arithmetic on them.
use vstd::prelude::*;

verus! {

/// Position units in one world unit: positions are held in thousandths.
pub const UNIT: i64 = 1000;

/// The length of a unit direction: directions are held in parts of `2^20`.
pub const DIR_ONE: i64 = 1048576;

/// The largest coordinate of a position in the world, `2^40` position units.
pub const WORLD_LIMIT: i64 = 1099511627776;

/// A vector of three fixed-point coordinates.
#[derive(Clone, Copy, Debug, PartialEq, Eq, Structural)]
pub struct Vec3 {
    pub x: i64,
    pub y: i64,
    pub z: i64,
}

/// Whether each coordinate of `v` lies within the world's bounds.
pub open spec fn in_world(v: Vec3) -> bool {
    -WORLD_LIMIT <= v.x <= WORLD_LIMIT && -WORLD_LIMIT <= v.y <= WORLD_LIMIT && -WORLD_LIMIT
        <= v.z <= WORLD_LIMIT
}

/// Whether `x` can be held in an `i64`.
pub open spec fn fits_i64(x: int) -> bool {
    i64::MIN <= x <= i64::MAX
}

/// The squared length of `v`.
pub open spec fn norm_sq(v: Vec3) -> int {
    v.x * v.x + v.y * v.y + v.z * v.z
}

impl Vec3 {
    pub fn new(x: i64, y: i64, z: i64) -> (r: Vec3)
        ensures
            r == (Vec3 { x, y, z }),
    {
        Vec3 { x, y, z }
    }

    /// The difference of two vectors.
    pub fn sub(&self, o: &Vec3) -> (r: Vec3)
        requires
            fits_i64(self.x - o.x),
            fits_i64(self.y - o.y),
            fits_i64(self.z - o.z),
        ensures
            r.x == self.x - o.x,
            r.y == self.y - o.y,
            r.z == self.z - o.z,
    {
        Vec3 { x: self.x - o.x, y: self.y - o.y, z: self.z - o.z }
    }
}

/// Division rounded down, for a positive divisor.
pub fn div_floor(a: i128, b: i128) -> (r: i128)
    requires
        b > 0,
        a > i128::MIN,
    ensures
        r == a / b,
{
    if a >= 0 {
        a / b
    } else {
        let m: i128 = -a - 1;
        let q: i128 = m / b;
        proof {
            let rem = m % b;
            assert(m == q * b + rem && 0 <= rem < b) by {
                vstd::arithmetic::div_mod::lemma_fundamental_div_mod(m as int, b as int);
            }
            assert(a == (-q - 1) * b + (b - rem - 1)) by (nonlinear_arith)
                requires
                    m == q * b + rem,
                    m == -a - 1,
            ;
            vstd::arithmetic::div_mod::lemma_fundamental_div_mod_converse(
                a as int,
                b as int,
                -q - 1,
                b - rem - 1,
            );
        }
        -q - 1
    }
}

/// Whether `r` is the integer square root of `n`: the largest number whose square is at
/// most `n`.
pub open spec fn is_isqrt(n: int, r: int) -> bool {
    0 <= r && r * r <= n < (r + 1) * (r + 1)
}

/// The integer square root of `n`, found by bisection.
pub fn isqrt(n: u128) -> (r: u64)
    requires
        n < 0x4000_0000_0000_0000_0000_0000_0000_0000,
    ensures
        is_isqrt(n as int, r as int),
{
    let mut lo: u128 = 0;
    let mut hi: u128 = 0x8000_0000_0000_0000;
    assert(hi * hi == 0x4000_0000_0000_0000_0000_0000_0000_0000);
    while hi - lo > 1
        invariant
            lo < hi <= 0x8000_0000_0000_0000,
            lo * lo <= n < hi * hi,
        decreases hi - lo,
    {
        let mid: u128 = lo + (hi - lo) / 2;
        assert(mid * mid < 0x4000_0000_0000_0000_0000_0000_0000_0000) by (nonlinear_arith)
            requires
                mid < 0x8000_0000_0000_0000u128,
        ;
        if mid * mid <= n {
            lo = mid;
        } else {
            hi = mid;
        }
    }
    lo as u64
}

/// The integer square root of `n`.
pub open spec fn root(n: int) -> int {
    choose|r: int| #[trigger] is_isqrt(n, r)
}

/// A number has one integer square root at most.
pub proof fn lemma_root_unique(n: int, r: int)
    requires
        is_isqrt(n, r),
    ensures
        root(n) == r,
{
    let s = root(n);
    assert(is_isqrt(n, s));
    if s < r {
        assert((s + 1) * (s + 1) <= r * r) by (nonlinear_arith)
            requires 0 <= s + 1 <= r;
    } else if r < s {
        assert((r + 1) * (r + 1) <= s * s) by (nonlinear_arith)
            requires 0 <= r + 1 <= s;
    }
}

/// Division that rounds toward zero, for a positive divisor.
pub open spec fn div_trunc(a: int, q: int) -> int {
    if a >= 0 {
        a / q
    } else {
        -((-a) / q)
    }
}

/// The scale of a squared unit length, `DIR_ONE * DIR_ONE`.
pub const DIR_ONE_SQ: i128 = 1099511627776;

/// The direction of `d` as a vector of length `DIR_ONE`: each coordinate is
/// `d * DIR_ONE / |d|`, rounded toward zero, where `DIR_ONE * |d|` is rounded down.
pub open spec fn unit_of(d: Vec3) -> Vec3 {
    let q = root(norm_sq(d) * DIR_ONE_SQ);
    Vec3 {
        x: div_trunc(d.x * DIR_ONE_SQ, q) as i64,
        y: div_trunc(d.y * DIR_ONE_SQ, q) as i64,
        z: div_trunc(d.z * DIR_ONE_SQ, q) as i64,
    }
}

/// Whether each coordinate of `d` is at most `2 * WORLD_LIMIT` long: the difference of
/// two positions in the world.
pub open spec fn span_bounded(d: Vec3) -> bool {
    -2 * WORLD_LIMIT <= d.x <= 2 * WORLD_LIMIT && -2 * WORLD_LIMIT <= d.y <= 2 * WORLD_LIMIT && -2
        * WORLD_LIMIT <= d.z <= 2 * WORLD_LIMIT
}

/// A coordinate no longer than the vector, scaled to `DIR_ONE`, stays within one unit.
proof fn lemma_coord_within_unit(c: int, n: int, q: int)
    requires
        c * c * DIR_ONE_SQ <= n,
        is_isqrt(n, q),
        q > 0,
    ensures
        -DIR_ONE <= div_trunc(c * DIR_ONE_SQ, q) <= DIR_ONE,
{
    let a = if c >= 0 { c } else { -c };
    let x = a * DIR_ONE;
    assert(x * x == c * c * DIR_ONE_SQ) by (nonlinear_arith)
        requires x == a * 0x100000, a == c || a == -c;
    assert(x <= q) by (nonlinear_arith)
        requires x * x < (q + 1) * (q + 1), x >= 0, q >= 0;
    assert(a * DIR_ONE_SQ <= q * DIR_ONE) by (nonlinear_arith)
        requires x == a * 0x100000, x <= q;
    vstd::arithmetic::div_mod::lemma_div_is_ordered(a * DIR_ONE_SQ, q * DIR_ONE, q);
    vstd::arithmetic::div_mod::lemma_div_by_multiple(DIR_ONE as int, q);
    assert(q * DIR_ONE == DIR_ONE * q) by (nonlinear_arith);
    assert(a * DIR_ONE_SQ >= 0) by (nonlinear_arith) requires a >= 0;
    vstd::arithmetic::div_mod::lemma_div_pos_is_pos(a * DIR_ONE_SQ, q);
    if c < 0 {
        assert(-(c * DIR_ONE_SQ) == a * DIR_ONE_SQ);
    }
}

/// Every natural number has an integer square root.
pub proof fn lemma_isqrt_exists(n: int)
    requires
        n >= 0,
    ensures
        exists|r: int| #[trigger] is_isqrt(n, r),
    decreases n,
{
    if n == 0 {
        assert(is_isqrt(0, 0));
    } else {
        lemma_isqrt_exists(n - 1);
        let r = choose|r: int| #[trigger] is_isqrt(n - 1, r);
        if (r + 1) * (r + 1) <= n {
            assert((r + 1) * (r + 1) < (r + 2) * (r + 2)) by (nonlinear_arith)
                requires r >= 0;
            assert(is_isqrt(n, r + 1));
        } else {
            assert(is_isqrt(n, r));
        }
    }
}

/// One coordinate of a normalized vector, against its exact value `c * DIR_ONE^2 / q`:
/// its magnitude `f` satisfies `f * q <= |c| * DIR_ONE^2 < (f + 1) * q`, squared.
proof fn lemma_coord_square_bounds(c: int, n: int, q: int)
    requires
        c * c * DIR_ONE_SQ <= n,
        is_isqrt(n, q),
        q >= DIR_ONE,
    ensures
        ({
            let u = div_trunc(c * DIR_ONE_SQ, q);
            let f = if u >= 0 { u } else { -u };
            &&& -DIR_ONE <= u <= DIR_ONE
            &&& 0 <= f <= DIR_ONE
            &&& u * u == f * f
            &&& f * f * (q * q) <= c * c * DIR_ONE_SQ * DIR_ONE_SQ
            &&& c * c * DIR_ONE_SQ * DIR_ONE_SQ < (f + 1) * (f + 1) * (q * q)
        }),
{
    lemma_coord_within_unit(c, n, q);
    let u = div_trunc(c * DIR_ONE_SQ, q);
    let a = if c >= 0 { c } else { -c };
    let ad = a * DIR_ONE_SQ;
    assert(ad >= 0) by (nonlinear_arith) requires a >= 0, ad == a * 0x100_0000_0000;
    let f = ad / q;
    if c >= 0 {
        assert(u == f);
    } else {
        assert(-(c * DIR_ONE_SQ) == ad);
        assert(u == -f);
    }
    let f2 = if u >= 0 { u } else { -u };
    vstd::arithmetic::div_mod::lemma_div_pos_is_pos(ad, q);
    assert(f2 == f);
    assert(u * u == f * f) by (nonlinear_arith) requires u == f || u == -f;
    vstd::arithmetic::div_mod::lemma_fundamental_div_mod(ad, q);
    let m = ad % q;
    assert(0 <= f * q <= ad < f * q + q) by (nonlinear_arith)
        requires ad == q * f + m, 0 <= m < q, f >= 0, q > 0;
    assert(ad * ad == c * c * DIR_ONE_SQ * DIR_ONE_SQ) by (nonlinear_arith)
        requires ad == a * 0x100_0000_0000, a == c || a == -c;
    assert((f + 1) * q == f * q + q) by (nonlinear_arith);
    assert(f * f * (q * q) <= ad * ad) by (nonlinear_arith)
        requires 0 <= f * q <= ad;
    assert(ad * ad < (f + 1) * (f + 1) * (q * q)) by (nonlinear_arith)
        requires 0 <= ad < (f + 1) * q;
}

/// A normalized direction has unit length, to within four parts in `DIR_ONE` (under four
/// millionths): `(DIR_ONE - 4)^2 <= |u|^2 <= (DIR_ONE + 1)^2` for every nonzero difference
/// of two world positions.
pub proof fn lemma_unit_length(d: Vec3)
    requires
        span_bounded(d),
        !(d.x == 0 && d.y == 0 && d.z == 0),
    ensures
        (DIR_ONE - 4) * (DIR_ONE - 4) <= norm_sq(unit_of(d)) <= (DIR_ONE + 1) * (DIR_ONE + 1),
{
    let x = d.x as int;
    let y = d.y as int;
    let z = d.z as int;
    let sq = x * x + y * y + z * z;
    assert(x * x >= 0 && y * y >= 0 && z * z >= 0) by (nonlinear_arith);
    assert(sq >= 1) by (nonlinear_arith)
        requires sq == x * x + y * y + z * z, x != 0 || y != 0 || z != 0;
    let n = sq * DIR_ONE_SQ;
    lemma_isqrt_exists(n);
    let q = root(n);
    assert(is_isqrt(n, q));
    assert(q >= DIR_ONE) by (nonlinear_arith)
        requires n < (q + 1) * (q + 1), n >= 0x100_0000_0000, q >= 0;
    assert(x * x * DIR_ONE_SQ <= n && y * y * DIR_ONE_SQ <= n && z * z * DIR_ONE_SQ <= n) by (nonlinear_arith)
        requires n == (x * x + y * y + z * z) * 0x100_0000_0000, x * x >= 0, y * y >= 0, z * z >= 0;
    lemma_coord_square_bounds(x, n, q);
    lemma_coord_square_bounds(y, n, q);
    lemma_coord_square_bounds(z, n, q);
    let u = unit_of(d);
    let ux = div_trunc(x * DIR_ONE_SQ, q);
    let uy = div_trunc(y * DIR_ONE_SQ, q);
    let uz = div_trunc(z * DIR_ONE_SQ, q);
    assert(u.x == ux && u.y == uy && u.z == uz);
    let fx = if ux >= 0 { ux } else { -ux };
    let fy = if uy >= 0 { uy } else { -uy };
    let fz = if uz >= 0 { uz } else { -uz };
    let s = fx * fx + fy * fy + fz * fz;
    assert(norm_sq(u) == s);
    let big = n * DIR_ONE_SQ;
    assert(big == x * x * DIR_ONE_SQ * DIR_ONE_SQ + y * y * DIR_ONE_SQ * DIR_ONE_SQ + z * z * DIR_ONE_SQ
        * DIR_ONE_SQ) by (nonlinear_arith)
        requires big == n * 0x100_0000_0000, n == (x * x + y * y + z * z) * 0x100_0000_0000;
    // Upper bound: q^2 * s <= DIR_ONE^2 * n < DIR_ONE^2 * (q + 1)^2 <= (DIR_ONE + 1)^2 * q^2.
    assert(s * (q * q) <= big) by (nonlinear_arith)
        requires
            fx * fx * (q * q) + fy * fy * (q * q) + fz * fz * (q * q) <= big,
            s == fx * fx + fy * fy + fz * fz;
    assert(big < 0x100_0000_0000 * ((q + 1) * (q + 1))) by (nonlinear_arith)
        requires big == n * 0x100_0000_0000, n < (q + 1) * (q + 1);
    assert(0x100_0000_0000 * ((q + 1) * (q + 1)) <= (0x100000 + 1) * (0x100000 + 1) * (q * q)) by (nonlinear_arith)
        requires q >= 0x100000;
    assert(s <= (DIR_ONE + 1) * (DIR_ONE + 1)) by (nonlinear_arith)
        requires s * (q * q) < (0x100000 + 1) * (0x100000 + 1) * (q * q), q > 0;
    // Lower bound: DIR_ONE^2 * q^2 <= DIR_ONE^2 * n < q^2 * sum (f + 1)^2.
    let t = (fx + 1) * (fx + 1) + (fy + 1) * (fy + 1) + (fz + 1) * (fz + 1);
    assert(big < t * (q * q)) by (nonlinear_arith)
        requires
            x * x * 0x100_0000_0000 * 0x100_0000_0000 < (fx + 1) * (fx + 1) * (q * q),
            y * y * 0x100_0000_0000 * 0x100_0000_0000 < (fy + 1) * (fy + 1) * (q * q),
            z * z * 0x100_0000_0000 * 0x100_0000_0000 < (fz + 1) * (fz + 1) * (q * q),
            big == x * x * 0x100_0000_0000 * 0x100_0000_0000 + y * y * 0x100_0000_0000 * 0x100_0000_0000 + z * z
                * 0x100_0000_0000 * 0x100_0000_0000,
            t == (fx + 1) * (fx + 1) + (fy + 1) * (fy + 1) + (fz + 1) * (fz + 1);
    assert(0x100_0000_0000 * (q * q) <= big) by (nonlinear_arith)
        requires big == n * 0x100_0000_0000, q * q <= n;
    assert(0x100_0000_0000 < t) by (nonlinear_arith)
        requires 0x100_0000_0000 * (q * q) < t * (q * q), q > 0;
    assert(t == s + 2 * (fx + fy + fz) + 3) by (nonlinear_arith)
        requires
            t == (fx + 1) * (fx + 1) + (fy + 1) * (fy + 1) + (fz + 1) * (fz + 1),
            s == fx * fx + fy * fy + fz * fz;
}

/// The direction of `d` as a vector of length `DIR_ONE`; `None` for the zero vector,
/// which has no direction.
pub fn normalize(d: &Vec3) -> (r: Option<Vec3>)
    requires
        span_bounded(*d),
    ensures
        r is None <==> (d.x == 0 && d.y == 0 && d.z == 0),
        r matches Some(u) ==> u == unit_of(*d),
        r matches Some(u) ==> -DIR_ONE <= u.x <= DIR_ONE && -DIR_ONE <= u.y <= DIR_ONE && -DIR_ONE
            <= u.z <= DIR_ONE,
        r matches Some(u) ==> (DIR_ONE - 4) * (DIR_ONE - 4) <= norm_sq(u) <= (DIR_ONE + 1) * (
        DIR_ONE + 1),
{
    if d.x == 0 && d.y == 0 && d.z == 0 {
        return None;
    }
    let x = d.x as i128;
    let y = d.y as i128;
    let z = d.z as i128;
    proof {
        assert(x * x <= 0x4_0000_0000_0000_0000_0000 && y * y <= 0x4_0000_0000_0000_0000_0000 && z
            * z <= 0x4_0000_0000_0000_0000_0000) by (nonlinear_arith)
            requires
                -0x200_0000_0000 <= x <= 0x200_0000_0000,
                -0x200_0000_0000 <= y <= 0x200_0000_0000,
                -0x200_0000_0000 <= z <= 0x200_0000_0000,
        ;
        assert(x * x >= 0 && y * y >= 0 && z * z >= 0) by (nonlinear_arith);
    }
    let sq: i128 = x * x + y * y + z * z;
    proof {
        assert(sq * 0x100_0000_0000 < 0x4000_0000_0000_0000_0000_0000_0000_0000) by (nonlinear_arith)
            requires 0 <= sq <= 0xc_0000_0000_0000_0000_0000;
        assert(sq >= 1) by (nonlinear_arith)
            requires sq == x * x + y * y + z * z, x != 0 || y != 0 || z != 0;
    }
    let n: u128 = (sq * DIR_ONE_SQ) as u128;
    let q: u64 = isqrt(n);
    let qi: i128 = q as i128;
    proof {
        assert(qi > 0) by (nonlinear_arith)
            requires qi * qi <= n < (qi + 1) * (qi + 1), n >= 0x100_0000_0000, qi >= 0;
        lemma_root_unique(n as int, qi as int);
        assert(x * x * DIR_ONE_SQ <= n) by (nonlinear_arith)
            requires n == (x * x + y * y + z * z) * 0x100_0000_0000, y * y >= 0, z * z >= 0;
        assert(y * y * DIR_ONE_SQ <= n) by (nonlinear_arith)
            requires n == (x * x + y * y + z * z) * 0x100_0000_0000, x * x >= 0, z * z >= 0;
        assert(z * z * DIR_ONE_SQ <= n) by (nonlinear_arith)
            requires n == (x * x + y * y + z * z) * 0x100_0000_0000, x * x >= 0, y * y >= 0;
        lemma_coord_within_unit(x as int, n as int, qi as int);
        lemma_coord_within_unit(y as int, n as int, qi as int);
        lemma_coord_within_unit(z as int, n as int, qi as int);
    }
    proof {
        lemma_unit_length(*d);
    }
    let ux = scale_toward_zero(x * DIR_ONE_SQ, qi);
    let uy = scale_toward_zero(y * DIR_ONE_SQ, qi);
    let uz = scale_toward_zero(z * DIR_ONE_SQ, qi);
    Some(Vec3 { x: ux as i64, y: uy as i64, z: uz as i64 })
}

/// `a / q` rounded toward zero, for a positive divisor.
fn scale_toward_zero(a: i128, q: i128) -> (r: i128)
    requires
        q > 0,
        a > i128::MIN,
    ensures
        r == div_trunc(a as int, q as int),
{
    if a >= 0 {
        a / q
    } else {
        -((-a) / q)
    }
}

} // verus!
