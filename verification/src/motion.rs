//! Movement at a fixed speed along a heading.

use vstd::prelude::*;
use crate::config::UNIT;
use crate::direction::{is_unit, lemma_unit_components_bounded, magnitude, norm_squared, Direction};
use crate::geometry::Vec2;

verus! {

/// The way made along one axis in `dt` microseconds at `speed` field units a
/// second, in millionths of a unit, for the heading's component `h`: the
/// product `h * speed * dt / UNIT`, rounded towards zero.
pub open spec fn displacement(h: int, speed: int, dt: int) -> int {
    if h >= 0 {
        (h * speed * dt) / (UNIT as int)
    } else {
        -(((-h) * speed * dt) / (UNIT as int))
    }
}

/// The nearest value that a coordinate can hold.
pub open spec fn saturate(v: int) -> int {
    if v < i64::MIN {
        i64::MIN as int
    } else if v > i64::MAX {
        i64::MAX as int
    } else {
        v
    }
}

/// What `advance` returns.
pub open spec fn advanced(position: Vec2, heading: Direction, speed: u32, dt: u32) -> Vec2 {
    Vec2 {
        x: saturate(position.x + displacement(heading.x() as int, speed as int, dt as int)) as i64,
        y: saturate(position.y + displacement(heading.y() as int, speed as int, dt as int)) as i64,
    }
}

fn step_along(h: i64, speed: u32, dt: u32) -> (d: i128)
    requires
        -UNIT <= h <= UNIT,
    ensures
        d == displacement(h as int, speed as int, dt as int),
        -0x1_0000_0000_0000_0000 < d < 0x1_0000_0000_0000_0000,
{
    let a: u128 = if h < 0 { (-h) as u128 } else { h as u128 };
    proof {
        assert(a * speed <= 1_000_000 * 0xffff_ffff) by (nonlinear_arith)
            requires
                0 <= a <= 1_000_000,
                0 <= speed <= 0xffff_ffff,
        ;
        assert(a * speed * dt <= 1_000_000 * 0xffff_ffff * 0xffff_ffff) by (nonlinear_arith)
            requires
                0 <= a * speed <= 1_000_000 * 0xffff_ffff,
                0 <= dt <= 0xffff_ffff,
        ;
        assert(a * speed * dt >= 0) by (nonlinear_arith)
            requires
                0 <= a,
                0 <= speed,
                0 <= dt,
        ;
    }
    let n: u128 = a * (speed as u128) * (dt as u128);
    let q: u128 = n / 1_000_000;
    if h < 0 {
        -(q as i128)
    } else {
        q as i128
    }
}

fn shifted(x: i64, d: i128) -> (r: i64)
    requires
        -0x1_0000_0000_0000_0000 < d < 0x1_0000_0000_0000_0000,
    ensures
        r == saturate(x + d),
{
    let sum: i128 = (x as i128) + d;
    if sum < (i64::MIN as i128) {
        i64::MIN
    } else if sum > (i64::MAX as i128) {
        i64::MAX
    } else {
        sum as i64
    }
}

/// The position reached from `position` after `dt` microseconds along
/// `heading` at `speed` field units a second. A coordinate that would leave
/// the range of `i64` stops at its end.
pub fn advance(position: Vec2, heading: Direction, speed: u32, dt: u32) -> (p: Vec2)
    ensures
        p == advanced(position, heading, speed, dt),
{
    let dx = step_along(heading.x(), speed, dt);
    let dy = step_along(heading.y(), speed, dt);
    Vec2 { x: shifted(position.x, dx), y: shifted(position.y, dy) }
}

/// A mirrored heading makes the mirrored way.
pub proof fn lemma_displacement_mirrored(h: int, speed: int, dt: int)
    ensures
        displacement(-h, speed, dt) == -displacement(h, speed, dt),
{
    if h == 0 {
        assert(0 * speed * dt == 0) by (nonlinear_arith);
    }
}

/// Along an axis the way made is exactly `speed * dt`, and across it none.
pub proof fn lemma_displacement_on_axis(speed: int, dt: int)
    requires
        0 <= speed,
        0 <= dt,
    ensures
        displacement(UNIT as int, speed, dt) == speed * dt,
        displacement(-UNIT, speed, dt) == -(speed * dt),
        displacement(0, speed, dt) == 0,
{
    assert(UNIT * speed * dt == UNIT * (speed * dt)) by (nonlinear_arith);
    assert(0 * speed * dt == 0) by (nonlinear_arith);
    assert((-(-UNIT)) * speed * dt == UNIT * (speed * dt)) by (nonlinear_arith);
}

/// No time, no way.
pub proof fn lemma_displacement_no_time(h: int, speed: int)
    ensures
        displacement(h, speed, 0) == 0,
{
    assert(h * speed * 0 == 0) by (nonlinear_arith);
    assert((-h) * speed * 0 == 0) by (nonlinear_arith);
}

/// Speed is a rate by the second, not by the frame: the way made in two
/// spans of time, one after the other, is the way made in their sum, but
/// for the millionth that rounding each span on its own may lose.
pub proof fn lemma_displacement_adds(h: int, speed: int, first: int, second: int)
    requires
        0 <= speed,
        0 <= first,
        0 <= second,
    ensures
        ({
            let whole = displacement(h, speed, first + second);
            let parts = displacement(h, speed, first) + displacement(h, speed, second);
            if h >= 0 {
                parts <= whole <= parts + 1
            } else {
                parts - 1 <= whole <= parts
            }
        }),
{
    let a = magnitude(h);
    let n1 = a * speed * first;
    let n2 = a * speed * second;
    assert(a * speed * (first + second) == n1 + n2) by (nonlinear_arith)
        requires
            n1 == a * speed * first,
            n2 == a * speed * second,
    ;
    assert(n1 >= 0 && n2 >= 0) by (nonlinear_arith)
        requires
            n1 == a * speed * first,
            n2 == a * speed * second,
            0 <= a,
            0 <= speed,
            0 <= first,
            0 <= second,
    ;
    if h == 0 {
        assert(0 * speed * first == 0 && 0 * speed * second == 0 && 0 * speed * (first + second)
            == 0) by (nonlinear_arith);
    }
}

proof fn lemma_component_step(a: int, l: int, q: int)
    requires
        0 <= a,
        0 <= l,
        q == (a * l) / (UNIT as int),
    ensures
        0 <= q,
        UNIT * UNIT * (q * q) <= a * a * (l * l),
        UNIT * UNIT * ((q + 1) * (q + 1)) > a * a * (l * l),
{
    let n = a * l;
    assert(n >= 0) by (nonlinear_arith)
        requires
            n == a * l,
            0 <= a,
            0 <= l,
    ;
    let s = UNIT as int;
    assert(s * q <= n < s * (q + 1));
    assert((s * q) * (s * q) <= n * n) by (nonlinear_arith)
        requires
            0 <= s * q <= n,
    ;
    assert(n * n < (s * (q + 1)) * (s * (q + 1))) by (nonlinear_arith)
        requires
            0 <= n < s * (q + 1),
    ;
    assert((s * q) * (s * q) == s * s * (q * q)) by (nonlinear_arith);
    assert((s * (q + 1)) * (s * (q + 1)) == s * s * ((q + 1) * (q + 1))) by (nonlinear_arith);
    assert(n * n == a * a * (l * l)) by (nonlinear_arith)
        requires
            n == a * l,
    ;
}

/// Whatever the heading, the way made in `dt` microseconds is `speed * dt`
/// long: never longer, and shorter by no more than the heading's own
/// tolerance and one millionth of rounding on each axis.
pub proof fn lemma_step_length(hx: int, hy: int, speed: int, dt: int)
    requires
        is_unit(hx, hy),
        0 <= speed,
        0 <= dt,
    ensures
        ({
            let ex = displacement(hx, speed, dt);
            let ey = displacement(hy, speed, dt);
            let l = speed * dt;
            &&& norm_squared(ex, ey) <= l * l
            &&& UNIT * UNIT * norm_squared(magnitude(ex) + 1, magnitude(ey) + 1) > (UNIT * UNIT
                - 4 * UNIT - 2) * (l * l)
        }),
{
    let l = speed * dt;
    let a = magnitude(hx);
    let b = magnitude(hy);
    let s = UNIT * UNIT;
    assert(l >= 0) by (nonlinear_arith)
        requires
            l == speed * dt,
            0 <= speed,
            0 <= dt,
    ;
    assert(a * speed * dt == a * l) by (nonlinear_arith)
        requires
            l == speed * dt,
    ;
    assert(b * speed * dt == b * l) by (nonlinear_arith)
        requires
            l == speed * dt,
    ;
    let qx = (a * l) / (UNIT as int);
    let qy = (b * l) / (UNIT as int);
    lemma_component_step(a, l, qx);
    lemma_component_step(b, l, qy);
    let ex = displacement(hx, speed, dt);
    let ey = displacement(hy, speed, dt);
    assert(magnitude(ex) == qx);
    assert(magnitude(ey) == qy);
    assert(ex * ex == qx * qx) by (nonlinear_arith)
        requires
            ex == qx || ex == -qx,
    ;
    assert(ey * ey == qy * qy) by (nonlinear_arith)
        requires
            ey == qy || ey == -qy,
    ;
    assert(a * a == hx * hx) by (nonlinear_arith)
        requires
            a == hx || a == -hx,
    ;
    assert(b * b == hy * hy) by (nonlinear_arith)
        requires
            b == hy || b == -hy,
    ;
    let h2 = a * a + b * b;
    let l2 = l * l;
    assert(l2 >= 0) by (nonlinear_arith)
        requires
            l2 == l * l,
    ;
    assert(s * (qx * qx + qy * qy) <= h2 * l2) by (nonlinear_arith)
        requires
            s * (qx * qx) <= a * a * l2,
            s * (qy * qy) <= b * b * l2,
            h2 == a * a + b * b,
    ;
    assert(h2 * l2 <= s * l2) by (nonlinear_arith)
        requires
            h2 <= s,
            l2 >= 0,
    ;
    assert(qx * qx + qy * qy <= l2) by (nonlinear_arith)
        requires
            s * (qx * qx + qy * qy) <= s * l2,
            s > 0,
    ;
    assert(s * ((qx + 1) * (qx + 1) + (qy + 1) * (qy + 1)) > h2 * l2) by (nonlinear_arith)
        requires
            s * ((qx + 1) * (qx + 1)) > a * a * l2,
            s * ((qy + 1) * (qy + 1)) > b * b * l2,
            h2 == a * a + b * b,
    ;
    assert(h2 * l2 >= (s - 4 * UNIT - 2) * l2) by (nonlinear_arith)
        requires
            h2 > s - 4 * UNIT - 2,
            l2 >= 0,
    ;
}

} // verus!
