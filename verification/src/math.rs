//! Jump kinematics under constant vertical launch velocity against gravity,
//! with either constant horizontal velocity or constant horizontal
//! acceleration.
//!
//! Quantities are fixed-point integers: lengths in milli-units, velocities in
//! milli-units per second, accelerations in milli-units per second squared,
//! times in milliseconds.  Gravity `g` is negative; all divisions below are
//! by positive numbers on non-negative numerators, so truncating and floor
//! division agree.
use vstd::prelude::*;
use vstd::arithmetic::div_mod::lemma_div_is_ordered;
use vstd::arithmetic::div_mod::lemma_div_is_ordered_by_denominator;
use vstd::arithmetic::div_mod::lemma_div_pos_is_pos;

verus! {

/// Bounds under which every function of this module is free of overflow.
/// `uy` is the vertical launch velocity, `g` gravity (negative).
pub open spec fn vertical_params_ok(uy: int, g: int) -> bool {
    &&& 1_000 <= uy <= 30_000
    &&& -200_000 <= g <= -10_000
}

/// Bounds on a horizontal velocity (possibly grown far beyond the launch
/// velocity by constant acceleration) and a horizontal acceleration.
pub open spec fn horizontal_params_ok(ux: int, ax: int) -> bool {
    &&& 0 <= ux <= 3_000_000_000
    &&& 0 <= ax <= 2_000
}

/// The largest `r` with `r * r <= n`.
pub open spec fn sqrt_floor(n: nat) -> nat
    decreases n,
{
    if n == 0 {
        0
    } else {
        let r = sqrt_floor((n - 1) as nat);
        if (r + 1) * (r + 1) <= n {
            r + 1
        } else {
            r
        }
    }
}

pub proof fn lemma_sqrt_floor(n: nat)
    ensures
        sqrt_floor(n) * sqrt_floor(n) <= n,
        (sqrt_floor(n) + 1) * (sqrt_floor(n) + 1) > n,
    decreases n,
{
    if n == 0 {
        assert(sqrt_floor(0) == 0);
        assert((sqrt_floor(n) + 1) * (sqrt_floor(n) + 1) > n) by (nonlinear_arith)
            requires n == 0 && sqrt_floor(n) == 0;
    } else {
        lemma_sqrt_floor((n - 1) as nat);
        let p = sqrt_floor((n - 1) as nat);
        let r = sqrt_floor(n);
        if (p + 1) * (p + 1) <= n {
            assert(r == p + 1);
            assert(r * r <= n);
            assert((r + 1) * (r + 1) > n) by (nonlinear_arith)
                requires
                    r == p + 1,
                    p >= 0,
                    (p + 1) * (p + 1) > n - 1;
        } else {
            assert(r == p);
            assert(r * r <= n);
            assert((r + 1) * (r + 1) > n);
        }
    }
}

/// Any `r` that brackets `n` between consecutive squares is `sqrt_floor(n)`.
pub proof fn lemma_sqrt_floor_unique(n: nat, r: nat)
    requires
        r * r <= n,
        (r + 1) * (r + 1) > n,
    ensures
        r == sqrt_floor(n),
{
    lemma_sqrt_floor(n);
    let s = sqrt_floor(n);
    assert(r == s) by (nonlinear_arith)
        requires
            r * r <= n,
            (r + 1) * (r + 1) > n,
            s * s <= n,
            (s + 1) * (s + 1) > n;
}

/// Integer square root: the largest `r` with `r * r <= n`.
pub fn isqrt(n: u64) -> (r: u64)
    ensures
        r == sqrt_floor(n as nat),
        r * r <= n,
        (r + 1) * (r + 1) > n,
{
    let mut lo: u64 = 0;
    let mut hi: u64 = if n < 0xFFFF_FFFF { n + 1 } else { 0x1_0000_0000 };
    proof {
        assert(n < 0xFFFF_FFFF ==> (n + 1) * (n + 1) > n) by (nonlinear_arith);
        assert(0x1_0000_0000u64 * 0x1_0000_0000u64 > n) by (nonlinear_arith)
            requires n <= u64::MAX;
    }
    while lo + 1 < hi
        invariant
            lo < hi,
            lo * lo <= n,
            hi * hi > n,
            hi <= 0x1_0000_0000,
        decreases hi - lo,
    {
        let mid: u64 = lo + (hi - lo) / 2;
        proof {
            assert(mid * mid < 0x1_0000_0000u64 * 0x1_0000_0000u64) by (nonlinear_arith)
                requires mid < 0x1_0000_0000u64;
        }
        if mid * mid <= n {
            lo = mid;
        } else {
            hi = mid;
        }
    }
    proof {
        lemma_sqrt_floor_unique(n as nat, lo as nat);
    }
    lo
}

/// Total airborne time of a jump, in milliseconds: `t = -2*uy/g`.
pub open spec fn spec_jump_time(uy: int, g: int) -> int {
    2_000 * uy / (-g)
}

/// Horizontal displacement after `t` milliseconds under initial velocity
/// `ux` and constant acceleration `ax`: `s = ux*t + ax*t^2/2`.
pub open spec fn spec_displacement(ux: int, ax: int, t: int) -> int {
    ux * t / 1_000 + ax * t * t / 2_000_000
}

/// Height of the jump trajectory after `t` milliseconds:
/// `h = uy*t + g*t^2/2`.
pub open spec fn spec_height_at_t(t: int, uy: int, g: int) -> int {
    uy * t / 1_000 - (-g) * t * t / 2_000_000
}

/// Discriminant of `g*t^2/2 + uy*t - h = 0`; the height `h` is reachable
/// exactly when it is non-negative.
pub open spec fn spec_height_disc(h: int, uy: int, g: int) -> int {
    uy * uy + 2 * g * h
}

/// Time entering the target height: `t = (uy - sqrt(uy^2 + 2*g*h)) / -g`.
pub open spec fn spec_time_enter(h: int, uy: int, g: int) -> int {
    (uy - sqrt_floor(spec_height_disc(h, uy, g) as nat)) * 1_000 / (-g)
}

/// Time leaving the target height: `t = (uy + sqrt(uy^2 + 2*g*h)) / -g`.
pub open spec fn spec_time_exit(h: int, uy: int, g: int) -> int {
    (uy + sqrt_floor(spec_height_disc(h, uy, g) as nat)) * 1_000 / (-g)
}

/// The airborne time of any jump within `vertical_params_ok` lies between
/// 10 ms and 6 s.
pub proof fn lemma_jump_time_bounds(uy: int, g: int)
    requires
        vertical_params_ok(uy, g),
    ensures
        10 <= spec_jump_time(uy, g) <= 6_000,
{
    lemma_div_is_ordered(2_000int * 1_000, 2_000 * uy, -g);
    lemma_div_is_ordered_by_denominator(2_000int * 1_000, -g, 200_000);
    lemma_div_is_ordered(2_000 * uy, 2_000int * 30_000, -g);
    lemma_div_is_ordered_by_denominator(2_000int * 30_000, 10_000, -g);
}

/// Total airborne time of a jump launched at `uy` against gravity `g`.
pub fn jump_time(uy: i64, g: i64) -> (t: i64)
    requires
        vertical_params_ok(uy as int, g as int),
    ensures
        t == spec_jump_time(uy as int, g as int),
        10 <= t <= 6_000,
{
    proof {
        lemma_jump_time_bounds(uy as int, g as int);
    }
    2_000 * uy / (-g)
}

/// Both roots of the height equation are non-negative, ordered, and within
/// the airborne time.
pub proof fn lemma_time_window_bounds(h: int, uy: int, g: int)
    requires
        vertical_params_ok(uy, g),
        0 <= h,
        spec_height_disc(h, uy, g) >= 0,
    ensures
        0 <= spec_time_enter(h, uy, g) <= spec_time_exit(h, uy, g),
        spec_time_exit(h, uy, g) <= spec_jump_time(uy, g),
        sqrt_floor(spec_height_disc(h, uy, g) as nat) <= uy,
{
    let d = spec_height_disc(h, uy, g) as nat;
    let sq = sqrt_floor(d) as int;
    lemma_sqrt_floor(d);
    assert(spec_height_disc(h, uy, g) <= uy * uy) by (nonlinear_arith)
        requires g < 0 && h >= 0 && spec_height_disc(h, uy, g) == uy * uy + 2 * g * h;
    assert(sq <= uy) by (nonlinear_arith)
        requires sq >= 0 && uy >= 0 && sq * sq <= d as int && d as int <= uy * uy;
    lemma_div_pos_is_pos((uy - sq) * 1_000, -g);
    lemma_div_is_ordered((uy - sq) * 1_000, (uy + sq) * 1_000, -g);
    lemma_div_is_ordered((uy + sq) * 1_000, 2_000 * uy, -g);
}

/// Times at which the trajectory enters and leaves height `h`, or `None`
/// when `h` lies above the peak of the jump (negative discriminant).
pub fn jump_time_above_height(h: i64, uy: i64, g: i64) -> (r: Option<(i64, i64)>)
    requires
        vertical_params_ok(uy as int, g as int),
        0 <= h <= 1_000_000,
    ensures
        r is None <==> spec_height_disc(h as int, uy as int, g as int) < 0,
        r matches Some(t) ==> t.0 == spec_time_enter(h as int, uy as int, g as int),
        r matches Some(t) ==> t.1 == spec_time_exit(h as int, uy as int, g as int),
        r matches Some(t) ==> 0 <= t.0 <= t.1 <= spec_jump_time(uy as int, g as int),
{
    proof {
        assert(0 <= uy * uy <= 900_000_000) by (nonlinear_arith)
            requires 1_000 <= uy as int <= 30_000;
        assert(-400_000_000_000 <= 2 * (g as int) * (h as int) <= 0) by (nonlinear_arith)
            requires -200_000 <= g as int, (g as int) < 0, 0 <= h as int <= 1_000_000;
    }
    let disc: i64 = uy * uy + 2 * g * h;
    if disc < 0 {
        return None;
    }
    proof {
        lemma_time_window_bounds(h as int, uy as int, g as int);
        lemma_jump_time_bounds(uy as int, g as int);
    }
    let sq_u: u64 = isqrt(disc as u64);
    proof {
        assert(disc as u64 as nat == spec_height_disc(h as int, uy as int, g as int) as nat);
        assert(sq_u as int == sqrt_floor(spec_height_disc(h as int, uy as int, g as int) as nat));
    }
    let sq: i64 = sq_u as i64;
    let neg_g: i64 = -g;
    let t1: i64 = (uy - sq) * 1_000 / neg_g;
    let t2: i64 = (uy + sq) * 1_000 / neg_g;
    Some((t1, t2))
}

/// Horizontal window `[x_enter, x_exit]` during which the trajectory is at
/// or above height `h`, under constant horizontal velocity `ux`.
pub fn x_above_jump_height_c_v(ux: i64, h: i64, uy: i64, g: i64) -> (r: Option<(i64, i64)>)
    requires
        vertical_params_ok(uy as int, g as int),
        0 <= ux <= 3_000_000_000,
        0 <= h <= 1_000_000,
    ensures
        r is None <==> spec_height_disc(h as int, uy as int, g as int) < 0,
        r matches Some(x) ==> {
            let t1 = spec_time_enter(h as int, uy as int, g as int);
            let t2 = spec_time_exit(h as int, uy as int, g as int);
            x.0 == ux * t1 / 1_000 && x.1 == ux * t2 / 1_000 && 0 <= x.0 <= x.1
        },
{
    match jump_time_above_height(h, uy, g) {
        None => None,
        Some((t1, t2)) => {
            proof {
                lemma_jump_time_bounds(uy as int, g as int);
                assert(0 <= ux * t1 && ux * t1 <= ux * t2 && ux * t2 <= 3_000_000_000i64 * 6_000)
                    by (nonlinear_arith)
                    requires 0 <= ux <= 3_000_000_000i64 && 0 <= t1 && t1 <= t2 && t2 <= 6_000;
                lemma_div_pos_is_pos(ux as int * t1 as int, 1_000);
                lemma_div_is_ordered(ux as int * t1 as int, ux as int * t2 as int, 1_000);
            }
            Some((ux * t1 / 1_000, ux * t2 / 1_000))
        },
    }
}

/// Displacement is monotone in time and bounded, for any parameters within
/// `horizontal_params_ok` and times within a jump.
pub proof fn lemma_displacement_mono(ux: int, ax: int, t1: int, t2: int)
    requires
        horizontal_params_ok(ux, ax),
        0 <= t1 <= t2 <= 6_000,
    ensures
        0 <= spec_displacement(ux, ax, t1) <= spec_displacement(ux, ax, t2),
        spec_displacement(ux, ax, t2) <= 18_000_100_000,
{
    assert(0 <= ux * t1 && ux * t1 <= ux * t2 && ux * t2 <= 3_000_000_000 * 6_000)
        by (nonlinear_arith)
        requires 0 <= ux <= 3_000_000_000 && 0 <= t1 && t1 <= t2 && t2 <= 6_000;
    assert(0 <= ax * t1 * t1 && ax * t1 * t1 <= ax * t2 * t2 && ax * t2 * t2 <= 2_000 * 6_000 * 6_000)
        by (nonlinear_arith)
        requires 0 <= ax <= 2_000 && 0 <= t1 && t1 <= t2 && t2 <= 6_000;
    lemma_div_pos_is_pos(ux * t1, 1_000);
    lemma_div_is_ordered(ux * t1, ux * t2, 1_000);
    lemma_div_is_ordered(ux * t2, 3_000_000_000int * 6_000, 1_000);
    lemma_div_pos_is_pos(ax * t1 * t1, 2_000_000);
    lemma_div_is_ordered(ax * t1 * t1, ax * t2 * t2, 2_000_000);
    lemma_div_is_ordered(ax * t2 * t2, 2_000int * 6_000 * 6_000, 2_000_000);
}

/// With a launch velocity of at least one unit per second and an airborne
/// time of at least 10 ms, the jump carries at least 10 milli-units.
pub proof fn lemma_displacement_lower(ux: int, ax: int, t: int)
    requires
        horizontal_params_ok(ux, ax),
        ux >= 1_000,
        10 <= t <= 6_000,
    ensures
        spec_displacement(ux, ax, t) >= 10,
{
    assert(ux * t >= 10_000) by (nonlinear_arith)
        requires ux >= 1_000 && t >= 10;
    lemma_div_is_ordered(10_000, ux * t, 1_000);
    assert(ax * t * t >= 0) by (nonlinear_arith)
        requires ax >= 0 && t >= 0;
    lemma_div_pos_is_pos(ax * t * t, 2_000_000);
}

/// Evaluates the displacement formula in executable code.
fn displacement(ux: i64, ax: i64, t: i64) -> (s: i64)
    requires
        horizontal_params_ok(ux as int, ax as int),
        0 <= t <= 6_000,
    ensures
        s == spec_displacement(ux as int, ax as int, t as int),
        0 <= s <= 18_000_100_000,
{
    proof {
        lemma_displacement_mono(ux as int, ax as int, t as int, 6_000);
        assert(0 <= ux * t <= 3_000_000_000i64 * 6_000) by (nonlinear_arith)
            requires 0 <= ux <= 3_000_000_000i64 && 0 <= t <= 6_000;
        assert(0 <= ax * t <= 2_000i64 * 6_000) by (nonlinear_arith)
            requires 0 <= ax <= 2_000 && 0 <= t <= 6_000;
        assert(0 <= ax * t * t <= 2_000i64 * 6_000 * 6_000) by (nonlinear_arith)
            requires 0 <= ax <= 2_000 && 0 <= t <= 6_000;
    }
    ux * t / 1_000 + ax * t * t / 2_000_000
}

/// Horizontal window `[x_enter, x_exit]` during which the trajectory is at
/// or above height `h`, under constant horizontal acceleration `ax`.
pub fn x_above_jump_height_c_acc(ux: i64, ax: i64, h: i64, uy: i64, g: i64) -> (r: Option<(i64, i64)>)
    requires
        vertical_params_ok(uy as int, g as int),
        horizontal_params_ok(ux as int, ax as int),
        0 <= h <= 1_000_000,
    ensures
        r is None <==> spec_height_disc(h as int, uy as int, g as int) < 0,
        r matches Some(x) ==> {
            let t1 = spec_time_enter(h as int, uy as int, g as int);
            let t2 = spec_time_exit(h as int, uy as int, g as int);
            x.0 == spec_displacement(ux as int, ax as int, t1)
                && x.1 == spec_displacement(ux as int, ax as int, t2)
                && 0 <= x.0 <= x.1
        },
        r matches Some(x) ==> x.1 <= spec_displacement(
            ux as int, ax as int, spec_jump_time(uy as int, g as int)),
{
    match jump_time_above_height(h, uy, g) {
        None => None,
        Some((t1, t2)) => {
            proof {
                lemma_jump_time_bounds(uy as int, g as int);
                lemma_displacement_mono(ux as int, ax as int, t1 as int, t2 as int);
                lemma_displacement_mono(
                    ux as int, ax as int, t2 as int,
                    spec_jump_time(uy as int, g as int));
            }
            Some((displacement(ux, ax, t1), displacement(ux, ax, t2)))
        },
    }
}

/// Height of the trajectory `t` milliseconds after launch.
pub fn jump_height_at_t(t: i64, uy: i64, g: i64) -> (h: i64)
    requires
        vertical_params_ok(uy as int, g as int),
        0 <= t <= 6_000,
    ensures
        h == spec_height_at_t(t as int, uy as int, g as int),
{
    proof {
        assert(0 <= uy * t <= 30_000i64 * 6_000) by (nonlinear_arith)
            requires 0 <= uy <= 30_000i64 && 0 <= t <= 6_000;
        assert(0 <= (-g as int) * (t as int) <= 200_000int * 6_000) by (nonlinear_arith)
            requires 0 < (-g as int) <= 200_000 && 0 <= t as int <= 6_000;
        assert(0 <= (-g as int) * (t as int) * (t as int) <= 200_000int * 6_000 * 6_000)
            by (nonlinear_arith)
            requires 0 < (-g as int) <= 200_000 && 0 <= t as int <= 6_000;
        lemma_div_pos_is_pos(uy as int * t as int, 1_000);
        lemma_div_is_ordered(uy as int * t as int, 30_000int * 6_000, 1_000);
        lemma_div_pos_is_pos((-g as int) * (t as int) * (t as int), 2_000_000);
        lemma_div_is_ordered(
            (-g as int) * (t as int) * (t as int), 200_000int * 6_000 * 6_000, 2_000_000);
    }
    let neg_g: i64 = -g;
    uy * t / 1_000 - neg_g * t * t / 2_000_000
}

/// Peak height of the jump: the height at half of the airborne time.
pub fn jump_height(uy: i64, g: i64) -> (h: i64)
    requires
        vertical_params_ok(uy as int, g as int),
    ensures
        h == spec_height_at_t(
            spec_jump_time(uy as int, g as int) / 2, uy as int, g as int),
{
    let t = jump_time(uy, g) / 2;
    jump_height_at_t(t, uy, g)
}

/// Height of the trajectory at horizontal position `px`, under constant
/// horizontal acceleration: solves for the arrival time, then evaluates the
/// height there.
pub fn jump_height_at_x(px: i64, ux: i64, ax: i64, uy: i64, g: i64) -> (h: i64)
    requires
        vertical_params_ok(uy as int, g as int),
        0 <= ux <= 100_000,
        1 <= ax <= 2_000,
        0 <= px <= 1_000_000_000_000,
        // px small enough that the arrival time stays within the jump.
        (sqrt_floor((ux * ux + 2 * ax * px) as nat) - ux) * 1_000 / (ax as int) <= 6_000,
    ensures
        h == spec_height_at_t(
            (sqrt_floor((ux * ux + 2 * ax * px) as nat) - ux) * 1_000 / (ax as int),
            uy as int, g as int),
{
    proof {
        assert(0 <= ux * ux + 2 * ax * px <= 100_000i64 * 100_000 + 2 * 2_000i64 * 1_000_000_000_000)
            by (nonlinear_arith)
            requires 0 <= ux <= 100_000i64 && 1 <= ax <= 2_000i64 && 0 <= px <= 1_000_000_000_000i64;
    }
    let disc: i64 = ux * ux + 2 * ax * px;
    let sq_u: u64 = isqrt(disc as u64);
    proof {
        assert(disc as u64 as nat == (ux * ux + 2 * ax * px) as nat);
        assert(sq_u as int == sqrt_floor((ux * ux + 2 * ax * px) as nat));
        assert(sq_u as int >= ux as int) by (nonlinear_arith)
            requires sq_u as int >= 0 && ux as int >= 0
                && (sq_u as int + 1) * (sq_u as int + 1) > disc as int
                && disc as int >= (ux as int) * (ux as int);
        assert(sq_u as int <= 64_000_000) by (nonlinear_arith)
            requires
                (sq_u as int) * (sq_u as int) <= disc as int,
                disc as int <= 4_010_000_000_000_000,
                sq_u as int >= 0;
    }
    let sq: i64 = sq_u as i64;
    proof {
        lemma_div_pos_is_pos((sq - ux) as int * 1_000, ax as int);
    }
    let t: i64 = (sq - ux) * 1_000 / ax;
    jump_height_at_t(t, uy, g)
}

/// Height of the trajectory at horizontal position `px`, under constant
/// horizontal velocity `ux`.
pub fn jump_height_at_x_c_v(px: i64, ux: i64, uy: i64, g: i64) -> (h: i64)
    requires
        vertical_params_ok(uy as int, g as int),
        1 <= ux <= 3_000_000_000,
        0 <= px <= 1_000_000_000_000,
        px * 1_000 / (ux as int) <= 6_000,
    ensures
        h == spec_height_at_t(px as int * 1_000 / (ux as int), uy as int, g as int),
{
    proof {
        lemma_div_pos_is_pos(px as int * 1_000, ux as int);
    }
    let t: i64 = px * 1_000 / ux;
    jump_height_at_t(t, uy, g)
}

/// Horizontal distance covered by a whole jump at constant velocity.
pub fn jump_distance_c_v(ux: i64, uy: i64, g: i64) -> (d: i64)
    requires
        vertical_params_ok(uy as int, g as int),
        0 <= ux <= 3_000_000_000,
    ensures
        d == ux * spec_jump_time(uy as int, g as int) / 1_000,
        0 <= d <= 18_000_000_000,
{
    let t = jump_time(uy, g);
    proof {
        assert(0 <= ux * t <= 3_000_000_000i64 * 6_000) by (nonlinear_arith)
            requires 0 <= ux <= 3_000_000_000i64 && 0 <= t <= 6_000;
        lemma_div_pos_is_pos(ux as int * t as int, 1_000);
        lemma_div_is_ordered(ux as int * t as int, 3_000_000_000int * 6_000, 1_000);
    }
    ux * t / 1_000
}

/// Horizontal distance covered by a whole jump under constant acceleration.
pub fn jump_distance_c_acc(ux: i64, ax: i64, uy: i64, g: i64) -> (d: i64)
    requires
        vertical_params_ok(uy as int, g as int),
        horizontal_params_ok(ux as int, ax as int),
    ensures
        d == spec_displacement(
            ux as int, ax as int, spec_jump_time(uy as int, g as int)),
        0 <= d <= 18_000_100_000,
{
    let t = jump_time(uy, g);
    proof {
        lemma_displacement_mono(ux as int, ax as int, t as int, 6_000);
    }
    displacement(ux, ax, t)
}

/// A height strictly above the integer peak-height bound `uy^2 / (-2*g)`
/// makes the discriminant negative, so `jump_time_above_height` reports it
/// as unreachable.
pub proof fn lemma_unreachable_above_peak(h: int, uy: int, g: int)
    requires
        vertical_params_ok(uy, g),
        h > uy * uy / (2 * (-g)),
    ensures
        spec_height_disc(h, uy, g) < 0,
{
    let m = uy * uy / (2 * (-g));
    vstd::arithmetic::div_mod::lemma_fundamental_div_mod(uy * uy, 2 * (-g));
    vstd::arithmetic::div_mod::lemma_mod_bound(uy * uy, 2 * (-g));
    assert(uy * uy < (m + 1) * (2 * (-g))) by (nonlinear_arith)
        requires uy * uy == (2 * (-g)) * m + (uy * uy) % (2 * (-g))
            && (uy * uy) % (2 * (-g)) < 2 * (-g);
    assert(spec_height_disc(h, uy, g) < 0) by (nonlinear_arith)
        requires uy * uy < (m + 1) * (2 * (-g)) && h >= m + 1 && -g > 0
            && spec_height_disc(h, uy, g) == uy * uy + 2 * g * h;
}

/// Any height at or below the integer peak-height bound keeps the
/// discriminant non-negative, so the clearance window exists.
pub proof fn lemma_reachable_below_peak(h: int, uy: int, g: int)
    requires
        vertical_params_ok(uy, g),
        0 <= h <= uy * uy / (2 * (-g)),
    ensures
        spec_height_disc(h, uy, g) >= 0,
{
    let m = uy * uy / (2 * (-g));
    vstd::arithmetic::div_mod::lemma_fundamental_div_mod(uy * uy, 2 * (-g));
    vstd::arithmetic::div_mod::lemma_mod_bound(uy * uy, 2 * (-g));
    assert(spec_height_disc(h, uy, g) >= 0) by (nonlinear_arith)
        requires uy * uy == (2 * (-g)) * m + (uy * uy) % (2 * (-g))
            && (uy * uy) % (2 * (-g)) >= 0 && h <= m && -g > 0
            && spec_height_disc(h, uy, g) == uy * uy + 2 * g * h;
}

} // verus!
