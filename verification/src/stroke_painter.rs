//! The stroke painter: the heat that a painted segment gives to a cell.
//!
//! A cell at distance `d` from the segment, `d` below the stroke radius,
//! receives the level `floor(35 * ((36 - d) / 36)^(1/8)) + 1`. Positions are
//! whole pixels, so the squared distance is a fraction of integers and every
//! comparison of the formula is decided exactly, in integer arithmetic.

use vstd::prelude::*;

use crate::wide_product::{lemma_swap_inner, product_le};

verus! {

/// Radius of a stroke, in cells.
pub const SIZE: u8 = 15;

/// A position on the surface, in whole pixels.
#[derive(Debug, Clone, Copy, PartialEq, Eq, Structural)]
pub struct Vector2 {
    pub x: u32,
    pub y: u32,
}

/// Dot product of `(ux, uy)` and `(vx, vy)`.
pub open spec fn dot(ux: int, uy: int, vx: int, vy: int) -> int {
    ux * vx + uy * vy
}

impl Vector2 {
    /// The position `(x, y)`.
    pub fn new(x: u32, y: u32) -> (v: Vector2)
        ensures
            v == (Vector2 { x, y }),
    {
        Vector2 { x, y }
    }

    /// Dot product with `other`.
    pub fn dot(self, other: Vector2) -> (d: u128)
        ensures
            d == dot(self.x as int, self.y as int, other.x as int, other.y as int),
    {
        proof {
            lemma_product_bound(self.x as int, other.x as int, 0xffff_ffff, 0xffff_ffff);
            lemma_product_bound(self.y as int, other.y as int, 0xffff_ffff, 0xffff_ffff);
            assert(0xffff_ffffint * 0xffff_ffff == 0xffff_fffe_0000_0001);
            assert(self.x * other.x >= 0 && self.y * other.y >= 0) by (nonlinear_arith);
        }
        self.x as u128 * other.x as u128 + self.y as u128 * other.y as u128
    }

    /// Squared distance from the origin.
    pub fn norm_squared(self) -> (n: u128)
        ensures
            n == dot(self.x as int, self.y as int, self.x as int, self.y as int),
    {
        self.dot(self)
    }
}

/// `v` limited to `lo..=hi`.
pub open spec fn clamped(v: int, lo: int, hi: int) -> int {
    if v < lo {
        lo
    } else if v > hi {
        hi
    } else {
        v
    }
}

/// Squared distance from the point `(px, py)` to the segment from `a` to `b`,
/// as a fraction: numerator, then positive denominator.
///
/// The point is projected onto the line through `a` and `b`, the projection is
/// clamped to the segment, and the distance to the clamped point is taken.
/// With `len2` the squared length of the segment, the clamped projection
/// parameter is `t / len2`. A segment of length zero is the point `a`.
pub open spec fn distance_squared(a: Vector2, b: Vector2, px: int, py: int) -> (int, int) {
    let bax = b.x - a.x;
    let bay = b.y - a.y;
    let pax = px - a.x;
    let pay = py - a.y;
    let len2 = dot(bax, bay, bax, bay);
    if len2 == 0 {
        (dot(pax, pay, pax, pay), 1)
    } else {
        let t = clamped(dot(pax, pay, bax, bay), 0, len2);
        let rx = len2 * pax - t * bax;
        let ry = len2 * pay - t * bay;
        (dot(rx, ry, rx, ry), len2 * len2)
    }
}

/// The distance whose square is `d2` is below the stroke radius.
pub open spec fn within_reach(d2: (int, int)) -> bool {
    d2.0 < SIZE * SIZE * d2.1
}

/// The eighth power of `k`.
pub open spec fn pow8(k: int) -> int {
    (k * k) * (k * k) * ((k * k) * (k * k))
}

/// `35 * ((36 - d) / 36)^(1/8) >= k`, for the distance `d` whose square is
/// `d2` and `0 <= k <= 35`.
///
/// Raised to the eighth power this reads `(36 - d) * 35^8 >= 36 * k^8`, that
/// is `d * 35^8 <= 36 * (35^8 - k^8)`; both sides are squared to reach `d2`.
pub open spec fn heat_reaches(d2: (int, int), k: int) -> bool {
    d2.0 * (pow8(35) * pow8(35)) <= (36 * (pow8(35) - pow8(k))) * (36 * (pow8(35) - pow8(k)))
        * d2.1
}

/// The greatest `j` in `0..=k` with `heat_reaches(d2, j)`: for `k == 35`,
/// `floor(35 * ((36 - d) / 36)^(1/8))`.
pub open spec fn top_reached(d2: (int, int), k: int) -> int
    decreases k,
{
    if k <= 0 {
        0
    } else if heat_reaches(d2, k) {
        k
    } else {
        top_reached(d2, k - 1)
    }
}

/// Level that a stroke gives at squared distance `d2`:
/// `floor(35 * ((36 - d) / 36)^(1/8)) + 1`.
pub open spec fn heat_level(d2: (int, int)) -> int {
    top_reached(d2, 35) + 1
}

/// Level that the stroke from `a` to `b` gives to the cell at `(px, py)`, if
/// the cell is within the stroke radius.
pub open spec fn stroke_heat(a: Vector2, b: Vector2, px: int, py: int) -> Option<u8> {
    let d2 = distance_squared(a, b, px, py);
    if within_reach(d2) {
        Some(heat_level(d2) as u8)
    } else {
        None
    }
}

/// `35^16`, the scale on the left of `heat_reaches`.
const SCALE: u128 = 5070942774902496337890625;

/// `(36 * (35^8 - 34^8))^2`: up to this bound a cell takes level 35.
const BOUND_35: u128 = 281532608935800231737227536;

/// `(36 * (35^8 - 33^8))^2`: up to this bound a cell takes level 34.
const BOUND_34: u128 = 926399025914222330696318976;

/// Two quantities in the same proportion to positive denominators have the
/// same sign.
proof fn lemma_same_sign(a: int, d1: int, b: int, d2: int)
    requires
        d1 > 0,
        d2 > 0,
        a * d2 == b * d1,
    ensures
        a <= 0 <==> b <= 0,
        a < 0 <==> b < 0,
{
    assert(a > 0 ==> a * d2 > 0) by (nonlinear_arith)
        requires d2 > 0;
    assert(a < 0 ==> a * d2 < 0) by (nonlinear_arith)
        requires d2 > 0;
    assert(b > 0 ==> b * d1 > 0) by (nonlinear_arith)
        requires d1 > 0;
    assert(b < 0 ==> b * d1 < 0) by (nonlinear_arith)
        requires d1 > 0;
}

/// Equal fractions compare alike with `q / p`.
proof fn lemma_fraction_compare(n1: int, d1: int, n2: int, d2: int, p: int, q: int)
    requires
        d1 > 0,
        d2 > 0,
        n1 * d2 == n2 * d1,
    ensures
        n1 * p <= q * d1 <==> n2 * p <= q * d2,
        n1 * p < q * d1 <==> n2 * p < q * d2,
{
    let left = n1 * p - q * d1;
    let right = n2 * p - q * d2;
    assert(left * d2 == (n1 * p) * d2 - (q * d1) * d2) by (nonlinear_arith)
        requires left == n1 * p - q * d1;
    assert(right * d1 == (n2 * p) * d1 - (q * d2) * d1) by (nonlinear_arith)
        requires right == n2 * p - q * d2;
    assert((n1 * p) * d2 == (n1 * d2) * p) by (nonlinear_arith);
    assert((n2 * p) * d1 == (n2 * d1) * p) by (nonlinear_arith);
    assert((q * d1) * d2 == (q * d2) * d1) by (nonlinear_arith);
    assert(left * d2 == right * d1);
    lemma_same_sign(left, d1, right, d2);
}

/// Equal fractions give the same reach and the same level.
proof fn lemma_fraction_heat(n1: int, d1: int, n2: int, d2: int)
    requires
        d1 > 0,
        d2 > 0,
        n1 * d2 == n2 * d1,
    ensures
        within_reach((n1, d1)) == within_reach((n2, d2)),
        forall|k: int| heat_reaches((n1, d1), k) == heat_reaches((n2, d2), k),
        forall|k: int| top_reached((n1, d1), k) == top_reached((n2, d2), k),
{
    lemma_fraction_compare(n1, d1, n2, d2, 1, SIZE * SIZE);
    assert forall|k: int| heat_reaches((n1, d1), k) == heat_reaches((n2, d2), k) by {
        lemma_fraction_compare(
            n1,
            d1,
            n2,
            d2,
            pow8(35) * pow8(35),
            (36 * (pow8(35) - pow8(k))) * (36 * (pow8(35) - pow8(k))),
        );
    }
    assert forall|k: int| top_reached((n1, d1), k) == top_reached((n2, d2), k) by {
        lemma_top_reached_same((n1, d1), (n2, d2), k);
    }
}

/// `top_reached` depends on the fraction only through `heat_reaches`.
proof fn lemma_top_reached_same(f1: (int, int), f2: (int, int), k: int)
    requires
        forall|j: int| heat_reaches(f1, j) == heat_reaches(f2, j),
    ensures
        top_reached(f1, k) == top_reached(f2, k),
    decreases k,
{
    if k > 0 {
        lemma_top_reached_same(f1, f2, k - 1);
    }
}

/// With `l` the squared length of `(bx, by)` and `p` its dot product with
/// `(ax, ay)`, the squared length of `l * (ax, ay) - p * (bx, by)` is
/// `l * (|(ax, ay)|^2 * l - p^2)`.
proof fn lemma_residual(l: int, p: int, ax: int, ay: int, bx: int, by: int)
    requires
        l == bx * bx + by * by,
        p == ax * bx + ay * by,
    ensures
        (l * ax - p * bx) * (l * ax - p * bx) + (l * ay - p * by) * (l * ay - p * by) == l * ((ax
            * ax + ay * ay) * l - p * p),
{
    let ux = l * ax;
    let uy = l * ay;
    let vx = p * bx;
    let vy = p * by;
    assert((ux - vx) * (ux - vx) == ux * ux - 2 * (ux * vx) + vx * vx) by (nonlinear_arith);
    assert((uy - vy) * (uy - vy) == uy * uy - 2 * (uy * vy) + vy * vy) by (nonlinear_arith);
    lemma_swap_inner(l, ax, l, ax);
    lemma_swap_inner(l, ay, l, ay);
    lemma_swap_inner(l, ax, p, bx);
    lemma_swap_inner(l, ay, p, by);
    lemma_swap_inner(p, bx, p, bx);
    lemma_swap_inner(p, by, p, by);
    let ll = l * l;
    let lp = l * p;
    let pp = p * p;
    assert(ll * (ax * ax) + ll * (ay * ay) == ll * (ax * ax + ay * ay)) by (nonlinear_arith);
    assert(lp * (ax * bx) + lp * (ay * by) == lp * (ax * bx + ay * by)) by (nonlinear_arith);
    assert(pp * (bx * bx) + pp * (by * by) == pp * (bx * bx + by * by)) by (nonlinear_arith);
    assert(lp * p == l * pp) by (nonlinear_arith)
        requires lp == l * p, pp == p * p;
    assert(ll * (ax * ax + ay * ay) - 2 * (l * pp) + pp * l == l * ((ax * ax + ay * ay) * l - pp))
        by (nonlinear_arith)
        requires ll == l * l;
}

/// The squared length of `l * (x, y)` is `l^2` times that of `(x, y)`.
proof fn lemma_scaled_square(l: int, x: int, y: int)
    ensures
        (l * x) * (l * x) + (l * y) * (l * y) == (x * x + y * y) * (l * l),
{
    lemma_swap_inner(l, x, l, x);
    lemma_swap_inner(l, y, l, y);
    let ll = l * l;
    assert(ll * (x * x) + ll * (y * y) == (x * x + y * y) * ll) by (nonlinear_arith);
}

/// Lagrange's identity: the squared lengths of two vectors, multiplied, less
/// the square of their dot product, is the square of their cross product.
proof fn lemma_cross_square(ax: int, ay: int, bx: int, by: int)
    ensures
        (ax * ax + ay * ay) * (bx * bx + by * by) - (ax * bx + ay * by) * (ax * bx + ay * by) == (ax
            * by - ay * bx) * (ax * by - ay * bx),
{
    let xx = ax * bx;
    let yy = ay * by;
    let xy = ax * by;
    let yx = ay * bx;
    assert((ax * ax + ay * ay) * (bx * bx + by * by) == (ax * ax) * (bx * bx) + (ax * ax) * (by
        * by) + (ay * ay) * (bx * bx) + (ay * ay) * (by * by)) by (nonlinear_arith);
    lemma_swap_inner(ax, ax, bx, bx);
    lemma_swap_inner(ax, ax, by, by);
    lemma_swap_inner(ay, ay, bx, bx);
    lemma_swap_inner(ay, ay, by, by);
    assert((xx + yy) * (xx + yy) == xx * xx + 2 * (xx * yy) + yy * yy) by (nonlinear_arith);
    assert((xy - yx) * (xy - yx) == xy * xy - 2 * (xy * yx) + yx * yx) by (nonlinear_arith);
    // Both mixed terms are the product of all four components.
    lemma_swap_inner(ax, bx, ay, by);
    lemma_swap_inner(ax, by, ay, bx);
    assert((ax * ay) * (bx * by) == (ax * ay) * (by * bx)) by (nonlinear_arith);
}

/// The squared distance in lowest form: to `a` before the segment, to `b`
/// past it, and to the line between them.
proof fn lemma_distance_reduced(a: Vector2, b: Vector2, px: int, py: int)
    ensures
        ({
            let bax = b.x - a.x;
            let bay = b.y - a.y;
            let pax = px - a.x;
            let pay = py - a.y;
            let pbx = px - b.x;
            let pby = py - b.y;
            let len2 = dot(bax, bay, bax, bay);
            let proj = dot(pax, pay, bax, bay);
            let d2 = distance_squared(a, b, px, py);
            &&& len2 >= 0
            &&& d2.1 > 0
            &&& d2.0 >= 0
            &&& len2 == 0 || proj <= 0 ==> d2.0 * 1 == dot(pax, pay, pax, pay) * d2.1
            &&& len2 > 0 && proj >= len2 ==> d2.0 * 1 == dot(pbx, pby, pbx, pby) * d2.1
            &&& len2 > 0 && 0 < proj < len2 ==> d2.0 * len2 == (dot(pax, pay, pax, pay) * len2
                - proj * proj) * d2.1
        }),
{
    let bax = b.x - a.x;
    let bay = b.y - a.y;
    let pax = px - a.x;
    let pay = py - a.y;
    let pbx = px - b.x;
    let pby = py - b.y;
    let len2 = dot(bax, bay, bax, bay);
    let proj = dot(pax, pay, bax, bay);
    let d2 = distance_squared(a, b, px, py);
    assert(bax * bax >= 0 && bay * bay >= 0) by (nonlinear_arith);
    if len2 == 0 {
        assert(pax * pax >= 0 && pay * pay >= 0) by (nonlinear_arith);
    } else {
        let t = clamped(proj, 0, len2);
        let rx = len2 * pax - t * bax;
        let ry = len2 * pay - t * bay;
        assert(rx * rx >= 0 && ry * ry >= 0) by (nonlinear_arith);
        assert(len2 * len2 > 0) by (nonlinear_arith)
            requires len2 > 0;
        if proj <= 0 {
            assert(rx == len2 * pax) by (nonlinear_arith)
                requires rx == len2 * pax - t * bax, t == 0;
            assert(ry == len2 * pay) by (nonlinear_arith)
                requires ry == len2 * pay - t * bay, t == 0;
            lemma_scaled_square(len2, pax, pay);
        } else if proj >= len2 {
            assert(rx == len2 * pbx) by (nonlinear_arith)
                requires rx == len2 * pax - t * bax, t == len2, pbx == pax - bax;
            assert(ry == len2 * pby) by (nonlinear_arith)
                requires ry == len2 * pay - t * bay, t == len2, pby == pay - bay;
            lemma_scaled_square(len2, pbx, pby);
        } else {
            lemma_residual(len2, proj, pax, pay, bax, bay);
            assert((rx * rx + ry * ry) * len2 == ((pax * pax + pay * pay) * len2 - proj * proj)
                * (len2 * len2)) by (nonlinear_arith)
                requires
                    rx * rx + ry * ry == len2 * ((pax * pax + pay * pay) * len2 - proj * proj);
        }
    }
}

/// Within the stroke radius the level is one of four, told apart by two
/// bounds on the squared distance.
proof fn lemma_heat_level(n: int, d: int)
    requires
        d > 0,
        0 <= n,
        within_reach((n, d)),
    ensures
        heat_level((n, d)) == if n == 0 {
            36int
        } else if n * SCALE <= BOUND_35 * d {
            35int
        } else if n * SCALE <= BOUND_34 * d {
            34int
        } else {
            33int
        },
{
    assert(pow8(35) == 2251875390625) by (nonlinear_arith);
    assert(pow8(34) == 1785793904896) by (nonlinear_arith);
    assert(pow8(33) == 1406408618241) by (nonlinear_arith);
    assert(pow8(32) == 1099511627776) by (nonlinear_arith);
    assert(pow8(35) * pow8(35) == SCALE) by (nonlinear_arith)
        requires pow8(35) == 2251875390625;
    assert((36 * (pow8(35) - pow8(35))) * (36 * (pow8(35) - pow8(35))) == 0) by (nonlinear_arith);
    assert((36 * (pow8(35) - pow8(34))) * (36 * (pow8(35) - pow8(34))) == BOUND_35)
        by (nonlinear_arith)
        requires pow8(35) == 2251875390625, pow8(34) == 1785793904896;
    assert((36 * (pow8(35) - pow8(33))) * (36 * (pow8(35) - pow8(33))) == BOUND_34)
        by (nonlinear_arith)
        requires pow8(35) == 2251875390625, pow8(33) == 1406408618241;
    // Level 33 is reached up to `(36 * (35^8 - 32^8))^2`, which lies beyond
    // the stroke radius.
    let bound_33: int = 1721013145538048181125454096;
    assert((36 * (pow8(35) - pow8(32))) * (36 * (pow8(35) - pow8(32))) == bound_33)
        by (nonlinear_arith)
        requires
            pow8(35) == 2251875390625,
            pow8(32) == 1099511627776,
            bound_33 == 1721013145538048181125454096;
    let f = (n, d);
    assert(heat_reaches(f, 35) <==> n == 0);
    assert(heat_reaches(f, 34) <==> n * SCALE <= BOUND_35 * d);
    assert(heat_reaches(f, 33) <==> n * SCALE <= BOUND_34 * d);
    assert(n < 225 * d);
    assert(225 * SCALE <= bound_33);
    assert(n * SCALE <= bound_33 * d);
    assert(heat_reaches(f, 32));
    reveal_with_fuel(top_reached, 5);
}

/// A stroke gives no level outside `33..=36`.
pub proof fn lemma_heat_range(a: Vector2, b: Vector2, px: int, py: int)
    ensures
        stroke_heat(a, b, px, py) matches Some(level) ==> 33 <= level <= 36,
{
    let exact = distance_squared(a, b, px, py);
    lemma_distance_reduced(a, b, px, py);
    if within_reach(exact) {
        lemma_heat_level(exact.0, exact.1);
    }
}

/// Heat of a stroke that is the single point `a`: the squared distance is
/// that between the cell and `a`.
pub open spec fn point_heat(a: Vector2, px: int, py: int) -> Option<u8> {
    let d2 = (dot(px - a.x, py - a.y, px - a.x, py - a.y), 1int);
    if within_reach(d2) {
        Some(heat_level(d2) as u8)
    } else {
        None
    }
}

/// A stroke that ends where it starts paints as the single point there.
pub proof fn lemma_point_stroke(a: Vector2, px: int, py: int)
    ensures
        stroke_heat(a, a, px, py) == point_heat(a, px, py),
{
}

/// A cell on the segment is at distance zero and takes the hottest level.
pub proof fn lemma_on_segment_is_hottest(a: Vector2, b: Vector2, px: int, py: int)
    requires
        distance_squared(a, b, px, py).0 == 0,
    ensures
        stroke_heat(a, b, px, py) == Some(36u8),
{
    let exact = distance_squared(a, b, px, py);
    lemma_distance_reduced(a, b, px, py);
    assert(SIZE * SIZE == 225);
    assert(within_reach(exact));
    lemma_heat_level(exact.0, exact.1);
}

/// A product of a value within `-m..=m` and one within `-n..=n` lies within
/// `-m * n..=m * n`.
proof fn lemma_product_bound(u: int, v: int, m: int, n: int)
    requires
        -m <= u <= m,
        -n <= v <= n,
    ensures
        -(m * n) <= u * v <= m * n,
{
    assert(-(m * n) <= u * v <= m * n) by (nonlinear_arith)
        requires -m <= u <= m, -n <= v <= n;
}

/// Dot product of two vectors of differences of coordinates.
fn dot_product(ux: i128, uy: i128, vx: i128, vy: i128) -> (d: i128)
    requires
        -0xffff_ffff <= ux <= 0xffff_ffff,
        -0xffff_ffff <= uy <= 0xffff_ffff,
        -0xffff_ffff <= vx <= 0xffff_ffff,
        -0xffff_ffff <= vy <= 0xffff_ffff,
    ensures
        d == dot(ux as int, uy as int, vx as int, vy as int),
        -0x1_ffff_fffc_0000_0002 <= d <= 0x1_ffff_fffc_0000_0002,
{
    proof {
        lemma_product_bound(ux as int, vx as int, 0xffff_ffff, 0xffff_ffff);
        lemma_product_bound(uy as int, vy as int, 0xffff_ffff, 0xffff_ffff);
        assert(0xffff_ffffint * 0xffff_ffff == 0xffff_fffe_0000_0001);
    }
    ux * vx + uy * vy
}

/// Cross product of two vectors of differences of coordinates, without its
/// sign.
fn cross_product(ux: i128, uy: i128, vx: i128, vy: i128) -> (c: u128)
    requires
        -0xffff_ffff <= ux <= 0xffff_ffff,
        -0xffff_ffff <= uy <= 0xffff_ffff,
        -0xffff_ffff <= vx <= 0xffff_ffff,
        -0xffff_ffff <= vy <= 0xffff_ffff,
    ensures
        c * c == (ux * vy - uy * vx) * (ux * vy - uy * vx),
        c <= 0x1_ffff_fffc_0000_0002,
{
    proof {
        lemma_product_bound(ux as int, vy as int, 0xffff_ffff, 0xffff_ffff);
        lemma_product_bound(uy as int, vx as int, 0xffff_ffff, 0xffff_ffff);
        assert(0xffff_ffffint * 0xffff_ffff == 0xffff_fffe_0000_0001);
    }
    let cross: i128 = ux * vy - uy * vx;
    if cross < 0 {
        assert((-cross) * (-cross) == cross * cross) by (nonlinear_arith);
        (-cross) as u128
    } else {
        cross as u128
    }
}

/// Level at the squared distance `num`, a whole number: that of a cell
/// nearest to an end of the stroke.
fn level_near_end(num: i128) -> (heat: Option<u8>)
    requires
        0 <= num,
    ensures
        heat == if within_reach((num as int, 1)) {
            Some(heat_level((num as int, 1)) as u8)
        } else {
            None
        },
        heat matches Some(level) ==> 33 <= level <= 36,
{
    if num < 225 {
        proof {
            lemma_heat_level(num as int, 1);
        }
        let n: u128 = num as u128;
        let level: u8 = if n == 0 {
            36
        } else if n * SCALE <= BOUND_35 {
            35
        } else if n * SCALE <= BOUND_34 {
            34
        } else {
            33
        };
        Some(level)
    } else {
        None
    }
}

/// Level that the stroke from `a` to `b` gives to the cell in column `x` of
/// row `y`, if the cell is within the stroke radius. A cell on the segment
/// receives 36; the level falls to 33 towards the edge of the stroke.
pub fn heat_at(a: Vector2, b: Vector2, x: u32, y: u32) -> (heat: Option<u8>)
    ensures
        heat == stroke_heat(a, b, x as int, y as int),
        heat matches Some(level) ==> 33 <= level <= 36,
{
    let bax: i128 = b.x as i128 - a.x as i128;
    let bay: i128 = b.y as i128 - a.y as i128;
    let pax: i128 = x as i128 - a.x as i128;
    let pay: i128 = y as i128 - a.y as i128;
    let len2: i128 = dot_product(bax, bay, bax, bay);
    let proj: i128 = dot_product(pax, pay, bax, bay);
    let ghost exact = distance_squared(a, b, x as int, y as int);
    proof {
        lemma_distance_reduced(a, b, x as int, y as int);
    }
    if len2 == 0 || proj <= 0 {
        let from_a: i128 = dot_product(pax, pay, pax, pay);
        proof {
            assert(from_a >= 0) by (nonlinear_arith)
                requires exact.0 * 1 == from_a * exact.1, exact.0 >= 0, exact.1 > 0;
            assert(from_a * exact.1 == exact.0 * 1);
            lemma_fraction_heat(from_a as int, 1, exact.0, exact.1);
            assert(heat_level(exact) == heat_level((from_a as int, 1int)));
        }
        level_near_end(from_a)
    } else if proj >= len2 {
        let pbx: i128 = x as i128 - b.x as i128;
        let pby: i128 = y as i128 - b.y as i128;
        let from_b: i128 = dot_product(pbx, pby, pbx, pby);
        proof {
            assert(from_b >= 0) by (nonlinear_arith)
                requires exact.0 * 1 == from_b * exact.1, exact.0 >= 0, exact.1 > 0;
            assert(from_b * exact.1 == exact.0 * 1);
            lemma_fraction_heat(from_b as int, 1, exact.0, exact.1);
            assert(heat_level(exact) == heat_level((from_b as int, 1int)));
        }
        level_near_end(from_b)
    } else {
        // Beside the segment the squared distance is the square of the cross
        // product over the squared length.
        let cross: u128 = cross_product(pax, pay, bax, bay);
        let den: u128 = len2 as u128;
        let ghost num: int = cross * cross;
        proof {
            lemma_cross_square(pax as int, pay as int, bax as int, bay as int);
            assert(num == dot(pax as int, pay as int, pax as int, pay as int) * len2 - proj * proj);
            assert(num * exact.1 == exact.0 * den);
            assert(num >= 0) by (nonlinear_arith)
                requires num == cross * cross;
            lemma_fraction_heat(num, den as int, exact.0, exact.1);
            assert(within_reach((num, den as int)) <==> num < 225 * den);
            assert(heat_level(exact) == heat_level((num, den as int)));
        }
        if product_le(225, den, cross, cross) {
            None
        } else {
            proof {
                lemma_heat_level(num, den as int);
            }
            let square: u128 = cross * cross;
            let level: u8 = if square == 0 {
                36
            } else if product_le(square, SCALE, BOUND_35, den) {
                35
            } else if product_le(square, SCALE, BOUND_34, den) {
                34
            } else {
                33
            };
            Some(level)
        }
    }
}

} // verus!
