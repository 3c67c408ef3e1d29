//! The spawner: bubbles fired from the ship toward the aim target, and
//! enemies on a fixed cadence.
use vstd::prelude::*;
use rand::rngs::StdRng;
use crate::entity::{Bounds, Bubble, Enemy, EnemyVariant, Ship, FULL_HEALTH};
use crate::fixed::{
    abs, ceil_root, ceil_sqrt, lemma_product_fits, mul_div, tdiv, Point, DT_LIMIT, ONE,
};
use crate::random::draw_between;

verus! {

/// Largest aim perturbation either way, in milliradians.
pub const MAX_SPREAD: i64 = 300;

pub const MIN_SHOT_SPEED: i64 = 100_000;

pub const MAX_SHOT_SPEED: i64 = 200_000;

pub const MIN_RADIUS: i64 = 5_000;

pub const MAX_RADIUS: i64 = 15_000;

pub const MIN_LIFETIME: i64 = 1_000_000;

pub const MAX_LIFETIME: i64 = 2_000_000;

/// Speed the ship loses, against the shot, for each bubble fired.
pub const RECOIL_SPEED: i64 = 5_000;

/// An enemy appears every three seconds.
pub const SPAWN_PERIOD: i64 = 3_000_000;

/// Largest enemy velocity component either way.
pub const ENEMY_MAX_SPEED: i64 = 50_000;

/// Pastel colours share these, in percent; only the hue varies.
pub const PASTEL_SATURATION: i64 = 70;

pub const PASTEL_LIGHTNESS: i64 = 80;

/// The random values that shape one shot.
#[derive(Clone, Copy, Debug, PartialEq, Eq, Structural)]
pub struct ShotDraws {
    pub spread: i64,
    pub speed: i64,
    pub hue: i64,
    pub radius: i64,
    pub lifetime: i64,
}

impl ShotDraws {
    pub open spec fn valid(self) -> bool {
        &&& -MAX_SPREAD <= self.spread <= MAX_SPREAD
        &&& MIN_SHOT_SPEED <= self.speed <= MAX_SHOT_SPEED
        &&& 0 <= self.hue <= 359
        &&& MIN_RADIUS <= self.radius <= MAX_RADIUS
        &&& MIN_LIFETIME <= self.lifetime <= MAX_LIFETIME
    }
}

/// The random values that place one enemy.
#[derive(Clone, Copy, Debug, PartialEq, Eq, Structural)]
pub struct EnemyDraws {
    pub x: i64,
    pub y: i64,
    pub vx: i64,
    pub vy: i64,
}

impl EnemyDraws {
    pub open spec fn valid(self, b: Bounds) -> bool {
        &&& -b.half_width <= self.x <= b.half_width
        &&& -b.half_height <= self.y <= b.half_height
        &&& -ENEMY_MAX_SPEED <= self.vx <= ENEMY_MAX_SPEED
        &&& -ENEMY_MAX_SPEED <= self.vy <= ENEMY_MAX_SPEED
    }
}

pub open spec fn sin_nonneg(a: int) -> int {
    a * 1000 - a * a * a / 6000 + a * a * a * a * a / 120_000_000_000
}

pub open spec fn cos_nonneg(a: int) -> int {
    1_000_000 - a * a / 2 + a * a * a * a / 24_000_000 - a * a * a * a * a * a
        / 720_000_000_000_000
}

/// The sine of `a` milliradians, scaled by `ONE` (its Taylor polynomial to
/// the fifth power).
pub open spec fn sin_milli(a: int) -> int {
    if a >= 0 { sin_nonneg(a) } else { -sin_nonneg(-a) }
}

/// The cosine of `a` milliradians, scaled by `ONE` (its Taylor polynomial to
/// the sixth power).
pub open spec fn cos_milli(a: int) -> int {
    cos_nonneg(abs(a))
}

/// The unit vector from `from` toward `to`, scaled by `ONE`.
///
/// A short difference is first scaled up by a whole factor, so that its
/// longer component reaches about `NORM_REACH`; the rounding of the root then
/// costs almost nothing.
pub open spec fn unit_toward(from: Point, to: Point) -> (int, int) {
    let dx = to.x - from.x;
    let dy = to.y - from.y;
    let m = if abs(dx) >= abs(dy) {
        abs(dx)
    } else {
        abs(dy)
    };
    let k = norm_scale(m);
    let sx = dx * k;
    let sy = dy * k;
    let l = ceil_root(sx * sx + sy * sy);
    (tdiv(sx * ONE, l), tdiv(sy * ONE, l))
}

/// The length that short differences are scaled up to before normalising.
pub const NORM_REACH: i64 = 1_000_000_000;

/// The whole factor that brings a longest component `m` (at least 1) up to
/// about `NORM_REACH`; 1 for components already that long.
pub open spec fn norm_scale(m: int) -> int {
    if m >= NORM_REACH {
        1
    } else {
        NORM_REACH as int / m
    }
}

/// The firing direction: the aim direction turned by `spread` milliradians.
pub open spec fn shot_direction(from: Point, to: Point, spread: int) -> (int, int) {
    let (ux, uy) = unit_toward(from, to);
    let c = cos_milli(spread);
    let s = sin_milli(spread);
    (tdiv(ux * c - uy * s, ONE as int), tdiv(ux * s + uy * c, ONE as int))
}

/// The bubble fired from `ship` toward `aim`, and the ship's recoil.
pub open spec fn shot(ship: Point, aim: Point, d: ShotDraws) -> (Bubble, Point) {
    let (rx, ry) = shot_direction(ship, aim, d.spread as int);
    (
        Bubble {
            pos: ship,
            vel: Point {
                x: tdiv(rx * d.speed, ONE as int) as i64,
                y: tdiv(ry * d.speed, ONE as int) as i64,
            },
            hue: d.hue,
            radius: d.radius,
            remaining: d.lifetime,
        },
        Point {
            x: tdiv(rx * RECOIL_SPEED, ONE as int) as i64,
            y: tdiv(ry * RECOIL_SPEED, ONE as int) as i64,
        },
    )
}

pub open spec fn placed_enemy(d: EnemyDraws) -> Enemy {
    Enemy {
        pos: Point { x: d.x, y: d.y },
        vel: Point { x: d.vx, y: d.vy },
        health: FULL_HEALTH,
        variant: EnemyVariant::Floater,
    }
}

/// Sine and cosine of `a` milliradians, scaled by `ONE`.
pub fn sin_cos(a: i64) -> (r: (i64, i64))
    requires
        -MAX_SPREAD <= a <= MAX_SPREAD,
    ensures
        r.0 as int == sin_milli(a as int),
        r.1 as int == cos_milli(a as int),
        abs(r.0 as int) <= 1_001_000,
        abs(r.1 as int) <= 1_001_000,
{
    let n: i64 = if a < 0 { -a } else { a };
    assert(0 <= n * n <= 90_000) by (nonlinear_arith)
        requires
            0 <= n <= 300,
    ;
    let n2 = n * n;
    assert(0 <= n2 * n <= 27_000_000) by (nonlinear_arith)
        requires
            0 <= n <= 300,
            0 <= n2 <= 90_000,
    ;
    let n3 = n2 * n;
    assert(0 <= n3 * n <= 8_100_000_000) by (nonlinear_arith)
        requires
            0 <= n <= 300,
            0 <= n3 <= 27_000_000,
    ;
    let n4 = n3 * n;
    assert(0 <= n4 * n <= 2_430_000_000_000) by (nonlinear_arith)
        requires
            0 <= n <= 300,
            0 <= n4 <= 8_100_000_000,
    ;
    let n5 = n4 * n;
    assert(0 <= n5 * n <= 729_000_000_000_000) by (nonlinear_arith)
        requires
            0 <= n <= 300,
            0 <= n5 <= 2_430_000_000_000,
    ;
    let n6 = n5 * n;
    let sp = n * 1000 - n3 / 6000 + n5 / 120_000_000_000;
    let c = 1_000_000 - n2 / 2 + n4 / 24_000_000 - n6 / 720_000_000_000_000;
    assert(n3 / 6000 <= 4500 && n5 / 120_000_000_000 <= 21 && n4 / 24_000_000 <= 338 && n6
        / 720_000_000_000_000 <= 2) by (nonlinear_arith)
        requires
            0 <= n3 <= 27_000_000,
            0 <= n4 <= 8_100_000_000,
            0 <= n5 <= 2_430_000_000_000,
            0 <= n6 <= 729_000_000_000_000,
    ;
    assert(n2 / 2 <= 45000 && n2 / 2 >= 0 && n3 / 6000 >= 0 && n5 / 120_000_000_000 >= 0 && n4
        / 24_000_000 >= 0 && n6 / 720_000_000_000_000 >= 0) by (nonlinear_arith)
        requires
            0 <= n2 <= 90_000,
            0 <= n3,
            0 <= n4,
            0 <= n5,
            0 <= n6,
    ;
    let s = if a < 0 { -sp } else { sp };
    (s, c)
}

/// The unit vector from `from` toward `to`, scaled by `ONE`; none where the
/// two points coincide.
pub fn unit_vector(from: Point, to: Point) -> (r: Option<(i64, i64)>)
    requires
        from.in_world(),
        to.in_world(),
    ensures
        r is None <==> from == to,
        r matches Some(u) ==> (u.0 as int, u.1 as int) == unit_toward(from, to),
        r matches Some(u) ==> abs(u.0 as int) <= ONE && abs(u.1 as int) <= ONE,
        r matches Some(u) ==> ONE * ONE - 5 * ONE <= u.0 * u.0 + u.1 * u.1,
{
    if from.x == to.x && from.y == to.y {
        return None;
    }
    let dx = to.x - from.x;
    let dy = to.y - from.y;
    let ax: i64 = if dx < 0 { -dx } else { dx };
    let ay: i64 = if dy < 0 { -dy } else { dy };
    let m: i64 = if ax >= ay { ax } else { ay };
    let k: i64 = if m >= NORM_REACH { 1 } else { NORM_REACH / m };
    assert(k >= 1) by (nonlinear_arith)
        requires
            1 <= m,
            m >= 1_000_000_000 ==> k == 1,
            m < 1_000_000_000 ==> k == 1_000_000_000int / (m as int),
    ;
    assert(m * k <= 2_000_000_000) by (nonlinear_arith)
        requires
            1 <= m <= 2_000_000_000,
            m >= 1_000_000_000 ==> k == 1,
            m < 1_000_000_000 ==> k == 1_000_000_000int / (m as int),
    ;
    assert(m * k > 500_000_000) by (nonlinear_arith)
        requires
            1 <= m,
            m >= 1_000_000_000 ==> k == 1,
            m < 1_000_000_000 ==> k == 1_000_000_000int / (m as int),
            k >= 1,
    ;
    assert(abs(dx * k) <= m * k && abs(dy * k) <= m * k) by (nonlinear_arith)
        requires
            abs(dx as int) <= m,
            abs(dy as int) <= m,
            k >= 1,
    ;
    let sx = dx * k;
    let sy = dy * k;
    assert(sx != 0 || sy != 0) by (nonlinear_arith)
        requires
            dx != 0 || dy != 0,
            k >= 1,
            sx == dx * k,
            sy == dy * k,
    ;
    assert(0 <= sx * sx <= 4_000_000_000_000_000_000) by (nonlinear_arith)
        requires
            abs(sx as int) <= 2_000_000_000,
    ;
    assert(0 <= sy * sy <= 4_000_000_000_000_000_000) by (nonlinear_arith)
        requires
            abs(sy as int) <= 2_000_000_000,
    ;
    let s: u64 = (sx as i128 * sx as i128 + sy as i128 * sy as i128) as u64;
    let l = ceil_sqrt(s);
    assert(l > 0) by (nonlinear_arith)
        requires
            sx != 0 || sy != 0,
            l * l >= sx * sx + sy * sy,
            l >= 0,
    ;
    proof {
        lemma_product_fits(sx as int, ONE as int, l as int, 2_000_000_000, 1_000_000);
        lemma_product_fits(sy as int, ONE as int, l as int, 2_000_000_000, 1_000_000);
    }
    let ux = mul_div(sx, ONE, l as i64);
    let uy = mul_div(sy, ONE, l as i64);
    proof {
        lemma_unit_bound(sx as int, sy as int, l as int, ux as int);
        lemma_unit_bound(sy as int, sx as int, l as int, uy as int);
        assert(abs(sx as int) == m * k || abs(sy as int) == m * k) by (nonlinear_arith)
            requires
                sx == dx * k,
                sy == dy * k,
                k >= 1,
                m == abs(dx as int) || m == abs(dy as int),
        ;
        assert(abs(sx as int) * abs(sx as int) == sx * sx) by (nonlinear_arith);
        assert(abs(sy as int) * abs(sy as int) == sy * sy) by (nonlinear_arith);
        assert(abs(sx as int) * ONE == abs(sx as int) * abs(ONE as int));
        lemma_unit_length(abs(sx as int), abs(sy as int), l as int, abs(ux as int), abs(uy as int));
        assert(ux * ux == abs(ux as int) * abs(ux as int)) by (nonlinear_arith);
        assert(uy * uy == abs(uy as int) * abs(uy as int)) by (nonlinear_arith);
    }
    Some((ux, uy))
}

/// The bubble that a shot with these draws fires, and the ship's recoil; none
/// where the aim target is the ship's own position.
pub fn bubble_from_draws(ship: Point, aim: Point, d: ShotDraws) -> (r: Option<(Bubble, Point)>)
    requires
        ship.in_world(),
        aim.in_world(),
        d.valid(),
    ensures
        r is None <==> ship == aim,
        r matches Some(out) ==> out == shot(ship, aim, d),
        r matches Some(out) ==> out.0.vel.is_velocity() && abs(out.1.x as int) <= 11_000 && abs(
            out.1.y as int,
        ) <= 11_000,
{
    let (ux, uy) = match unit_vector(ship, aim) {
        Some(u) => u,
        None => {
            return None;
        },
    };
    let (sn, cs) = sin_cos(d.spread);
    assert(abs(ux * cs) <= 1_001_000_000_000 && abs(uy * sn) <= 1_001_000_000_000 && abs(ux
        * sn) <= 1_001_000_000_000 && abs(uy * cs) <= 1_001_000_000_000) by (nonlinear_arith)
        requires
            abs(ux as int) <= 1_000_000,
            abs(uy as int) <= 1_000_000,
            abs(sn as int) <= 1_001_000,
            abs(cs as int) <= 1_001_000,
    ;
    let px = ux * cs - uy * sn;
    let py = ux * sn + uy * cs;
    proof {
        lemma_product_fits(px as int, 1, ONE as int, 2_002_000_000_000, 1);
        lemma_product_fits(py as int, 1, ONE as int, 2_002_000_000_000, 1);
    }
    let rx = mul_div(px, 1, ONE);
    let ry = mul_div(py, 1, ONE);
    assert(abs(rx as int) <= 2_002_001 && abs(ry as int) <= 2_002_001);
    proof {
        lemma_product_fits(rx as int, d.speed as int, ONE as int, 2_002_001, 200_000);
        lemma_product_fits(ry as int, d.speed as int, ONE as int, 2_002_001, 200_000);
        lemma_product_fits(rx as int, RECOIL_SPEED as int, ONE as int, 2_002_001, 5_000);
        lemma_product_fits(ry as int, RECOIL_SPEED as int, ONE as int, 2_002_001, 5_000);
    }
    let vx = mul_div(rx, d.speed, ONE);
    let vy = mul_div(ry, d.speed, ONE);
    let kx = mul_div(rx, RECOIL_SPEED, ONE);
    let ky = mul_div(ry, RECOIL_SPEED, ONE);
    proof {
        lemma_product_bound(rx as int, d.speed as int, 2_002_001, 200_000);
        lemma_product_bound(ry as int, d.speed as int, 2_002_001, 200_000);
        lemma_product_bound(rx as int, RECOIL_SPEED as int, 2_002_001, 5_000);
        lemma_product_bound(ry as int, RECOIL_SPEED as int, 2_002_001, 5_000);
    }
    let bubble = Bubble {
        pos: ship,
        vel: Point { x: vx, y: vy },
        hue: d.hue,
        radius: d.radius,
        remaining: d.lifetime,
    };
    Some((bubble, Point { x: kx, y: ky }))
}

proof fn lemma_product_bound(a: int, b: int, ma: int, mb: int)
    requires
        abs(a) <= ma,
        abs(b) <= mb,
    ensures
        abs(a) * abs(b) <= ma * mb,
{
    assert(abs(a) * abs(b) <= ma * mb) by (nonlinear_arith)
        requires
            0 <= abs(a) <= ma,
            0 <= abs(b) <= mb,
    ;
}

proof fn lemma_unit_length(ax: int, ay: int, l: int, qx: int, qy: int)
    requires
        ax >= 0,
        ay >= 0,
        ax > 500_000_000 || ay > 500_000_000,
        l > 0,
        l * l >= ax * ax + ay * ay,
        (l - 1) * (l - 1) < ax * ax + ay * ay,
        0 <= qx <= ONE,
        0 <= qy <= ONE,
        ax * ONE < (qx + 1) * l,
        ay * ONE < (qy + 1) * l,
    ensures
        ONE * ONE - 5 * ONE <= qx * qx + qy * qy,
{
    let s = ax * ax + ay * ay;
    let o = ONE as int;
    assert(l > 500_000_000) by (nonlinear_arith)
        requires
            ax > 500_000_000 || ay > 500_000_000,
            ax >= 0,
            ay >= 0,
            l > 0,
            l * l >= ax * ax + ay * ay,
    ;
    assert(ax * ax * (o * o) <= (qx + 1) * (qx + 1) * (l * l)) by (nonlinear_arith)
        requires
            0 <= ax * o < (qx + 1) * l,
            o > 0,
    ;
    assert(ay * ay * (o * o) <= (qy + 1) * (qy + 1) * (l * l)) by (nonlinear_arith)
        requires
            0 <= ay * o < (qy + 1) * l,
            o > 0,
    ;
    let t = (qx + 1) * (qx + 1) + (qy + 1) * (qy + 1);
    let xx = ax * ax;
    let yy = ay * ay;
    let oo = o * o;
    let ll = l * l;
    let tx = (qx + 1) * (qx + 1);
    let ty = (qy + 1) * (qy + 1);
    assert(ll - 2 * l < xx + yy) by (nonlinear_arith)
        requires
            (l - 1) * (l - 1) < xx + yy,
            ll == l * l,
    ;
    assert((ll - 2 * l) * oo <= (xx + yy) * oo) by (nonlinear_arith)
        requires
            ll - 2 * l < xx + yy,
            oo > 0,
    ;
    assert((xx + yy) * oo == xx * oo + yy * oo) by (nonlinear_arith);
    assert((tx + ty) * ll == tx * ll + ty * ll) by (nonlinear_arith);
    assert(t == tx + ty);
    assert((l * l - 2 * l) * (o * o) <= t * (l * l));
    assert((l - 2) * (o * o) <= t * l) by (nonlinear_arith)
        requires
            (l * l - 2 * l) * (o * o) <= t * (l * l),
            l > 0,
    ;
    assert(2 * (o * o) <= 4000 * l) by (nonlinear_arith)
        requires
            l > 500_000_000,
            o == 1_000_000,
    ;
    assert((o * o - 4000) * l <= t * l) by (nonlinear_arith)
        requires
            (l - 2) * (o * o) <= t * l,
            2 * (o * o) <= 4000 * l,
    ;
    assert(o * o - 4000 <= t) by (nonlinear_arith)
        requires
            (o * o - 4000) * l <= t * l,
            l > 0,
    ;
    assert(qx * qx + qy * qy == t - 2 * qx - 2 * qy - 2) by (nonlinear_arith)
        requires
            t == (qx + 1) * (qx + 1) + (qy + 1) * (qy + 1),
    ;
}

proof fn lemma_unit_bound(a: int, c: int, l: int, q: int)
    requires
        l > 0,
        l * l >= a * a + c * c,
        abs(q) * l <= abs(a) * abs(ONE as int),
    ensures
        abs(q) <= ONE,
{
    assert(abs(a) <= l) by (nonlinear_arith)
        requires
            l > 0,
            l * l >= a * a + c * c,
    ;
    assert(abs(q) <= ONE) by (nonlinear_arith)
        requires
            abs(q) * l <= abs(a) * 1_000_000,
            abs(a) <= l,
            l > 0,
            abs(q) >= 0,
    ;
}

/// Fires a bubble while the fire key is held: draws the shot's random values,
/// and applies the recoil to the ship. Nothing happens where the aim target is
/// the ship's own position.
pub fn try_spawn_bubble(fire: bool, ship: &mut Ship, aim: Point, rng: &mut StdRng) -> (r: Option<
    Bubble,
>)
    requires
        old(ship).valid(),
        aim.in_world(),
        abs(old(ship).vel.x as int) <= 1_000_000,
        abs(old(ship).vel.y as int) <= 1_000_000,
    ensures
        r is Some <==> fire && old(ship).pos != aim,
        r is None ==> *final(ship) == *old(ship),
        r matches Some(b) ==> exists|d: ShotDraws|
            {
                let (fired, recoil) = #[trigger] shot(old(ship).pos, aim, d);
                &&& d.valid()
                &&& b == fired
                &&& *final(ship) == (Ship {
                    vel: Point {
                        x: (old(ship).vel.x - recoil.x) as i64,
                        y: (old(ship).vel.y - recoil.y) as i64,
                    },
                    ..*old(ship)
                })
            },
        r matches Some(b) ==> b.valid(),
        final(ship).valid(),
{
    if !fire || (ship.pos.x == aim.x && ship.pos.y == aim.y) {
        return None;
    }
    let spread = draw_between(rng, -MAX_SPREAD, MAX_SPREAD);
    let speed = draw_between(rng, MIN_SHOT_SPEED, MAX_SHOT_SPEED);
    let hue = draw_between(rng, 0, 359);
    let radius = draw_between(rng, MIN_RADIUS, MAX_RADIUS);
    let lifetime = draw_between(rng, MIN_LIFETIME, MAX_LIFETIME);
    let d = ShotDraws { spread, speed, hue, radius, lifetime };
    match bubble_from_draws(ship.pos, aim, d) {
        Some((bubble, recoil)) => {
            ship.vel = Point { x: ship.vel.x - recoil.x, y: ship.vel.y - recoil.y };
            assert(shot(old(ship).pos, aim, d).0 == bubble);
            Some(bubble)
        },
        None => None,
    }
}

/// The spawn countdown after `dt`: it fires when it runs out, and the next
/// period starts where this one ended, so the overshoot is carried over. A
/// tick longer than a whole period still fires once, and leaves the countdown
/// due on the next tick.
pub open spec fn countdown(timer: int, dt: int) -> (int, bool) {
    if timer - dt <= 0 {
        if timer - dt + SPAWN_PERIOD > 0 {
            (timer - dt + SPAWN_PERIOD, true)
        } else {
            (1, true)
        }
    } else {
        (timer - dt, false)
    }
}

pub fn tick_spawn_timer(timer: i64, dt: i64) -> (r: (i64, bool))
    requires
        0 < timer <= SPAWN_PERIOD,
        0 <= dt <= DT_LIMIT,
    ensures
        (r.0 as int, r.1) == countdown(timer as int, dt as int),
        0 < r.0 <= SPAWN_PERIOD,
{
    let left = timer - dt;
    if left <= 0 {
        if left + SPAWN_PERIOD > 0 {
            (left + SPAWN_PERIOD, true)
        } else {
            (1, true)
        }
    } else {
        (left, false)
    }
}

/// A full-health floater placed and set moving by the draws.
pub fn enemy_from_draws(d: EnemyDraws) -> (r: Enemy)
    ensures
        r == placed_enemy(d),
{
    Enemy {
        pos: Point { x: d.x, y: d.y },
        vel: Point { x: d.vx, y: d.vy },
        health: FULL_HEALTH,
        variant: EnemyVariant::Floater,
    }
}

/// Advances the spawn countdown and, when it runs out, places a new enemy at
/// random inside the visible area.
pub fn try_spawn_enemy(timer: &mut i64, dt: i64, b: Bounds, rng: &mut StdRng) -> (r: Option<Enemy>)
    requires
        0 < *old(timer) <= SPAWN_PERIOD,
        0 <= dt <= DT_LIMIT,
        b.valid(),
    ensures
        (*final(timer) as int, r is Some) == countdown(*old(timer) as int, dt as int),
        0 < *final(timer) <= SPAWN_PERIOD,
        r matches Some(e) ==> exists|d: EnemyDraws| d.valid(b) && e == #[trigger] placed_enemy(d),
        r matches Some(e) ==> e.valid(),
{
    let (next, fire) = tick_spawn_timer(*timer, dt);
    *timer = next;
    if !fire {
        return None;
    }
    let x = draw_between(rng, -b.half_width, b.half_width);
    let y = draw_between(rng, -b.half_height, b.half_height);
    let vx = draw_between(rng, -ENEMY_MAX_SPEED, ENEMY_MAX_SPEED);
    let vy = draw_between(rng, -ENEMY_MAX_SPEED, ENEMY_MAX_SPEED);
    let d = EnemyDraws { x, y, vx, vy };
    let e = enemy_from_draws(d);
    assert(d.valid(b));
    Some(e)
}

} // verus!
