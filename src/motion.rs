//! Motion: the ship's thrust, friction, speed cap and screen wrap, the drift
//! of bubbles and enemies, and the border rule.
use vstd::prelude::*;
use crate::entity::{Bounds, Bubble, Controls, Enemy, Ship};
use crate::collision::{keep, lemma_keep_from, remove_flagged};
use crate::spawn::{unit_toward, unit_vector};
use crate::fixed::{
    ONE, abs, lemma_product_fits, ceil_root, ceil_sqrt, is_ceil_root, len_sq, mul_div, tdiv, Point, DT_LIMIT, POS_LIMIT,
    SECOND, VEL_LIMIT,
};

verus! {

/// Thrust along one axis, in milli-units per second squared.
pub const THRUST: i64 = 1_000_000;

/// Thrust along each axis when two keys push diagonally: THRUST / sqrt(2).
pub const DIAGONAL_THRUST: i64 = 707_107;

/// Velocity kept per tick by friction, in hundredths.
pub const FRICTION_PERCENT: i64 = 98;

/// The ship's top speed, in milli-units per second.
pub const MAX_SPEED: i64 = 300_000;

/// Width of the band along the edges where the ship takes damage.
pub const BORDER_WIDTH: i64 = 50_000;

/// Health the ship loses per tick spent moving outward in the border band.
pub const BORDER_DAMAGE: i64 = 10;

/// Speed of the push back toward the centre from the border band.
pub const BOUNCE_SPEED: i64 = 500_000;

pub open spec fn axis(plus: bool, minus: bool) -> int {
    (if plus { 1int } else { 0int }) - (if minus { 1int } else { 0int })
}

/// The ship's acceleration for the keys held.
pub open spec fn thrust_of(c: Controls) -> (int, int) {
    let ax = axis(c.right, c.left);
    let ay = axis(c.up, c.down);
    if ax != 0 && ay != 0 {
        (ax * DIAGONAL_THRUST, ay * DIAGONAL_THRUST)
    } else {
        (ax * THRUST, ay * THRUST)
    }
}

pub open spec fn accelerated(v: Point, c: Controls, dt: int) -> (int, int) {
    let (ax, ay) = thrust_of(c);
    (v.x + tdiv(ax * dt, SECOND as int), v.y + tdiv(ay * dt, SECOND as int))
}

pub open spec fn with_friction(vx: int, vy: int) -> (int, int) {
    (tdiv(vx * FRICTION_PERCENT, 100), tdiv(vy * FRICTION_PERCENT, 100))
}

/// Scales a velocity faster than `MAX_SPEED` back to (at most) that speed.
pub open spec fn capped(vx: int, vy: int) -> (int, int) {
    let s = len_sq(vx, vy);
    if s > MAX_SPEED * MAX_SPEED {
        let l = ceil_root(s);
        (tdiv(vx * MAX_SPEED, l), tdiv(vy * MAX_SPEED, l))
    } else {
        (vx, vy)
    }
}

/// The ship's velocity after thrust, friction and the speed cap.
pub open spec fn steered(v: Point, c: Controls, dt: int) -> (int, int) {
    let (ax, ay) = accelerated(v, c, dt);
    let (fx, fy) = with_friction(ax, ay);
    capped(fx, fy)
}

pub open spec fn wrap_coord(p: int, half: int) -> int {
    if p > half {
        -half
    } else if p < -half {
        half
    } else {
        p
    }
}

pub open spec fn displacement(v: int, dt: int) -> int {
    tdiv(v * dt, SECOND as int)
}

pub open spec fn moved_ship(s: Ship, c: Controls, dt: int, b: Bounds) -> Ship {
    let (vx, vy) = steered(s.vel, c, dt);
    Ship {
        pos: Point {
            x: wrap_coord(s.pos.x + displacement(vx, dt), b.half_width as int) as i64,
            y: wrap_coord(s.pos.y + displacement(vy, dt), b.half_height as int) as i64,
        },
        vel: Point { x: vx as i64, y: vy as i64 },
        health: s.health,
    }
}

proof fn lemma_scaled_square(v: int, m: int, l: int, q: int)
    requires
        m >= 0,
        l > 0,
        q == tdiv(v * m, l),
    ensures
        q * q * (l * l) <= v * v * (m * m),
{
    let a = abs(v) * m;
    assert(a >= 0) by (nonlinear_arith)
        requires
            a == abs(v) * m,
            m >= 0,
    ;
    assert(abs(v * m) == a) by (nonlinear_arith)
        requires
            a == abs(v) * m,
            m >= 0,
    ;
    let aq = a / l;
    assert(abs(q) == aq);
    assert(0 <= aq * l <= a) by (nonlinear_arith)
        requires
            aq == a / l,
            a >= 0,
            l > 0,
    ;
    assert(aq * l * (aq * l) <= a * a) by (nonlinear_arith)
        requires
            0 <= aq * l <= a,
    ;
    assert(q * q == aq * aq) by (nonlinear_arith)
        requires
            abs(q) == aq,
    ;
    assert(a * a == v * v * (m * m)) by (nonlinear_arith)
        requires
            a == abs(v) * m,
    ;
    assert(q * q * (l * l) == aq * l * (aq * l)) by (nonlinear_arith)
        requires
            q * q == aq * aq,
    ;
}

/// The cap leaves no velocity faster than `MAX_SPEED`.
pub proof fn lemma_capped_speed(vx: int, vy: int)
    ensures
        ({
            let (cx, cy) = capped(vx, vy);
            &&& len_sq(cx, cy) <= MAX_SPEED * MAX_SPEED
            &&& abs(cx) <= abs(vx)
            &&& abs(cy) <= abs(vy)
            &&& abs(cx) <= MAX_SPEED
            &&& abs(cy) <= MAX_SPEED
        }),
{
    let s = len_sq(vx, vy);
    let m = MAX_SPEED as int;
    if s > m * m {
        let l = ceil_root(s);
        assert(is_ceil_root(s, l)) by {
            ceil_root_exists(s);
        }
        assert(l > 0) by (nonlinear_arith)
            requires
                l >= 0,
                l * l >= s,
                s > m * m,
        ;
        let cx = tdiv(vx * m, l);
        let cy = tdiv(vy * m, l);
        lemma_scaled_square(vx, m, l, cx);
        lemma_scaled_square(vy, m, l, cy);
        assert((cx * cx + cy * cy) * (l * l) <= s * (m * m)) by (nonlinear_arith)
            requires
                cx * cx * (l * l) <= vx * vx * (m * m),
                cy * cy * (l * l) <= vy * vy * (m * m),
                s == vx * vx + vy * vy,
        ;
        assert(cx * cx + cy * cy <= m * m) by (nonlinear_arith)
            requires
                (cx * cx + cy * cy) * (l * l) <= s * (m * m),
                l * l >= s,
                s > m * m,
                l > 0,
                m > 0,
        ;
        assert(abs(cx) <= abs(vx) && abs(cy) <= abs(vy)) by (nonlinear_arith)
            requires
                cx * cx * (l * l) <= vx * vx * (m * m),
                cy * cy * (l * l) <= vy * vy * (m * m),
                l * l > m * m,
                m > 0,
        ;
    }
    lemma_component_bound(capped(vx, vy).0, capped(vx, vy).1, m);
    lemma_component_bound(capped(vx, vy).1, capped(vx, vy).0, m);
}

proof fn lemma_component_bound(a: int, b: int, m: int)
    requires
        m >= 0,
        len_sq(a, b) <= m * m,
    ensures
        abs(a) <= m,
{
    assert(abs(a) <= m) by (nonlinear_arith)
        requires
            a * a + b * b <= m * m,
            m >= 0,
    ;
}

proof fn ceil_root_exists(s: int)
    requires
        s >= 0,
    ensures
        is_ceil_root(s, ceil_root(s)),
{
    let w = least_root_from(s, 0);
    crate::fixed::lemma_ceil_root_unique(s, w);
}

/// The smallest root at or above `r`, where `r * r` does not reach `s` or `r == 0`.
proof fn least_root_from(s: int, r: int) -> (w: int)
    requires
        s >= 0,
        r >= 0,
        r == 0 || r * r < s,
    ensures
        is_ceil_root(s, w),
    decreases s - r,
{
    if r * r >= s {
        r
    } else {
        assert(r < s) by (nonlinear_arith)
            requires
                r >= 0,
                r * r < s,
        ;
        if (r + 1) * (r + 1) >= s {
            r + 1
        } else {
            least_root_from(s, r + 1)
        }
    }
}


pub open spec fn clamp_world(p: int) -> int {
    if p > POS_LIMIT {
        POS_LIMIT as int
    } else if p < -POS_LIMIT {
        -POS_LIMIT
    } else {
        p
    }
}

/// A point carried by its velocity for `dt`, held inside the world.
pub open spec fn drifted(p: Point, v: Point, dt: int) -> Point {
    Point {
        x: clamp_world(p.x + displacement(v.x as int, dt)) as i64,
        y: clamp_world(p.y + displacement(v.y as int, dt)) as i64,
    }
}

pub open spec fn in_border_band(p: Point, b: Bounds) -> bool {
    abs(p.x as int) > b.half_width - BORDER_WIDTH || abs(p.y as int) > b.half_height
        - BORDER_WIDTH
}

/// The ship moves away from the centre: its velocity points against the
/// direction back to the origin.
pub open spec fn moving_outward(p: Point, v: Point) -> bool {
    p.x * v.x + p.y * v.y > 0
}

/// The border rule: in the band and moving outward, the ship loses
/// `BORDER_DAMAGE` and is pushed toward the centre at `BOUNCE_SPEED`.
pub open spec fn bordered(s: Ship, b: Bounds) -> Ship {
    if in_border_band(s.pos, b) && moving_outward(s.pos, s.vel) {
        let u = unit_toward(s.pos, Point { x: 0, y: 0 });
        Ship {
            health: (s.health - BORDER_DAMAGE) as i64,
            vel: Point {
                x: (s.vel.x + tdiv(u.0 * BOUNCE_SPEED, ONE as int)) as i64,
                y: (s.vel.y + tdiv(u.1 * BOUNCE_SPEED, ONE as int)) as i64,
            },
            pos: s.pos,
        }
    } else {
        s
    }
}

/// The acceleration for the keys held.
pub fn thrust(c: Controls) -> (r: (i64, i64))
    ensures
        r.0 as int == thrust_of(c).0,
        r.1 as int == thrust_of(c).1,
{
    let ax: i64 = (if c.right { 1i64 } else { 0i64 }) - (if c.left { 1i64 } else { 0i64 });
    let ay: i64 = (if c.up { 1i64 } else { 0i64 }) - (if c.down { 1i64 } else { 0i64 });
    if ax != 0 && ay != 0 {
        (ax * DIAGONAL_THRUST, ay * DIAGONAL_THRUST)
    } else {
        (ax * THRUST, ay * THRUST)
    }
}

/// Scales the velocity back to `MAX_SPEED` where it is faster.
pub fn cap_speed(vx: i64, vy: i64) -> (r: (i64, i64))
    requires
        abs(vx as int) <= 2_100_000_000,
        abs(vy as int) <= 2_100_000_000,
    ensures
        (r.0 as int, r.1 as int) == capped(vx as int, vy as int),
        len_sq(r.0 as int, r.1 as int) <= MAX_SPEED * MAX_SPEED,
        abs(r.0 as int) <= MAX_SPEED,
        abs(r.1 as int) <= MAX_SPEED,
{
    proof {
        lemma_capped_speed(vx as int, vy as int);
    }
    assert(0 <= vx * vx <= 4_410_000_000_000_000_000) by (nonlinear_arith)
        requires
            abs(vx as int) <= 2_100_000_000,
    ;
    assert(0 <= vy * vy <= 4_410_000_000_000_000_000) by (nonlinear_arith)
        requires
            abs(vy as int) <= 2_100_000_000,
    ;
    let s: u64 = (vx as i128 * vx as i128 + vy as i128 * vy as i128) as u64;
    if s > (MAX_SPEED * MAX_SPEED) as u64 {
        let l = ceil_sqrt(s);
        assert(l > 0) by (nonlinear_arith)
            requires
                l * l >= s,
                s > 90_000_000_000,
        ;
        proof {
            lemma_product_fits(vx as int, MAX_SPEED as int, l as int, 2_100_000_000, 300_000);
            lemma_product_fits(vy as int, MAX_SPEED as int, l as int, 2_100_000_000, 300_000);
        }
        let cx = mul_div(vx, MAX_SPEED, l as i64);
        let cy = mul_div(vy, MAX_SPEED, l as i64);
        (cx, cy)
    } else {
        (vx, vy)
    }
}

/// One tick of ship motion: thrust, friction, the speed cap, then the move
/// and the wrap to the opposite edge.
pub fn move_ship(ship: &mut Ship, c: Controls, dt: i64, b: Bounds)
    requires
        old(ship).valid(),
        b.valid(),
        0 <= dt <= DT_LIMIT,
    ensures
        *final(ship) == moved_ship(*old(ship), c, dt as int, b),
        final(ship).vel.norm_sq() <= MAX_SPEED * MAX_SPEED,
        abs(final(ship).vel.x as int) <= MAX_SPEED,
        abs(final(ship).vel.y as int) <= MAX_SPEED,
        final(ship).valid(),
        b.contains(final(ship).pos),
{
    let (ax, ay) = thrust(c);
    assert(abs(ax as int) * abs(dt as int) <= 1_000_000_000_000_000) by (nonlinear_arith)
        requires
            abs(ax as int) <= 1_000_000,
            0 <= dt <= 1_000_000_000,
    ;
    assert(abs(ay as int) * abs(dt as int) <= 1_000_000_000_000_000) by (nonlinear_arith)
        requires
            abs(ay as int) <= 1_000_000,
            0 <= dt <= 1_000_000_000,
    ;
    proof {
        lemma_product_fits(ax as int, dt as int, SECOND as int, 1_000_000, 1_000_000_000);
        lemma_product_fits(ay as int, dt as int, SECOND as int, 1_000_000, 1_000_000_000);
    }
    let vx = ship.vel.x + mul_div(ax, dt, SECOND);
    let vy = ship.vel.y + mul_div(ay, dt, SECOND);
    proof {
        lemma_product_fits(vx as int, FRICTION_PERCENT as int, 100, 2_000_000_000, 98);
        lemma_product_fits(vy as int, FRICTION_PERCENT as int, 100, 2_000_000_000, 98);
    }
    let fx = mul_div(vx, FRICTION_PERCENT, 100);
    let fy = mul_div(vy, FRICTION_PERCENT, 100);
    let (cx, cy) = cap_speed(fx, fy);
    assert(abs(cx as int) * abs(dt as int) <= 300_000_000_000_000) by (nonlinear_arith)
        requires
            abs(cx as int) <= 300_000,
            0 <= dt <= 1_000_000_000,
    ;
    assert(abs(cy as int) * abs(dt as int) <= 300_000_000_000_000) by (nonlinear_arith)
        requires
            abs(cy as int) <= 300_000,
            0 <= dt <= 1_000_000_000,
    ;
    proof {
        lemma_product_fits(cx as int, dt as int, SECOND as int, 300_000, 1_000_000_000);
        lemma_product_fits(cy as int, dt as int, SECOND as int, 300_000, 1_000_000_000);
    }
    let px = ship.pos.x + mul_div(cx, dt, SECOND);
    let py = ship.pos.y + mul_div(cy, dt, SECOND);
    let wx = if px > b.half_width {
        -b.half_width
    } else if px < -b.half_width {
        b.half_width
    } else {
        px
    };
    let wy = if py > b.half_height {
        -b.half_height
    } else if py < -b.half_height {
        b.half_height
    } else {
        py
    };
    ship.pos = Point { x: wx, y: wy };
    ship.vel = Point { x: cx, y: cy };
}

/// Moves a point along its velocity for `dt`, held inside the world.
pub fn drift(p: Point, v: Point, dt: i64) -> (r: Point)
    requires
        p.in_world(),
        v.is_velocity(),
        0 <= dt <= DT_LIMIT,
    ensures
        r == drifted(p, v, dt as int),
        r.in_world(),
{
    assert(abs(v.x as int) * abs(dt as int) <= 1_000_000_000_000_000_000) by (nonlinear_arith)
        requires
            abs(v.x as int) <= 1_000_000_000,
            0 <= dt <= 1_000_000_000,
    ;
    assert(abs(v.y as int) * abs(dt as int) <= 1_000_000_000_000_000_000) by (nonlinear_arith)
        requires
            abs(v.y as int) <= 1_000_000_000,
            0 <= dt <= 1_000_000_000,
    ;
    proof {
        lemma_product_fits(v.x as int, dt as int, SECOND as int, 1_000_000_000, 1_000_000_000);
        lemma_product_fits(v.y as int, dt as int, SECOND as int, 1_000_000_000, 1_000_000_000);
    }
    let x = p.x + mul_div(v.x, dt, SECOND);
    let y = p.y + mul_div(v.y, dt, SECOND);
    let cx = if x > POS_LIMIT {
        POS_LIMIT
    } else if x < -POS_LIMIT {
        -POS_LIMIT
    } else {
        x
    };
    let cy = if y > POS_LIMIT {
        POS_LIMIT
    } else if y < -POS_LIMIT {
        -POS_LIMIT
    } else {
        y
    };
    Point { x: cx, y: cy }
}

pub open spec fn drift_bubbles(bs: Seq<Bubble>, dt: int) -> Seq<Bubble> {
    Seq::new(bs.len(), |i: int| Bubble { pos: drifted(bs[i].pos, bs[i].vel, dt), ..bs[i] })
}

pub open spec fn drift_enemies(es: Seq<Enemy>, dt: int) -> Seq<Enemy> {
    Seq::new(es.len(), |i: int| Enemy { pos: drifted(es[i].pos, es[i].vel, dt), ..es[i] })
}

/// The bubbles that lie in the visible area, in order.
pub open spec fn inside_only(bs: Seq<Bubble>, b: Bounds) -> Seq<Bubble> {
    keep(bs, Seq::new(bs.len(), |i: int| !b.contains(bs[i].pos)))
}

/// Carries every bubble along its velocity.
pub fn move_bubbles(bubbles: &mut Vec<Bubble>, dt: i64)
    requires
        forall|i: int| 0 <= i < old(bubbles)@.len() ==> (#[trigger] old(bubbles)@[i]).valid(),
        0 <= dt <= DT_LIMIT,
    ensures
        final(bubbles)@ == drift_bubbles(old(bubbles)@, dt as int),
        forall|i: int| 0 <= i < final(bubbles)@.len() ==> (#[trigger] final(bubbles)@[i]).valid(),
{
    let ghost start = bubbles@;
    let mut i: usize = 0;
    while i < bubbles.len()
        invariant
            i <= bubbles@.len(),
            bubbles@.len() == start.len(),
            0 <= dt <= DT_LIMIT,
            forall|j: int| 0 <= j < start.len() ==> (#[trigger] start[j]).valid(),
            forall|j: int|
                0 <= j < i ==> #[trigger] bubbles@[j] == (Bubble {
                    pos: drifted(start[j].pos, start[j].vel, dt as int),
                    ..start[j]
                }),
            forall|j: int| i <= j < start.len() ==> #[trigger] bubbles@[j] == start[j],
        decreases start.len() - i,
    {
        let old_b = bubbles[i];
        let pos = drift(old_b.pos, old_b.vel, dt);
        bubbles.set(i, Bubble { pos, ..old_b });
        i += 1;
    }
    proof {
        assert(bubbles@ =~= drift_bubbles(start, dt as int));
        assert forall|j: int| 0 <= j < bubbles@.len() implies (#[trigger] bubbles@[j]).valid() by {
            assert(start[j].valid());
            lemma_drifted_in_world(start[j].pos, start[j].vel, dt as int);
        }
    }
}

/// Carries every enemy along its velocity.
pub fn move_enemies(enemies: &mut Vec<Enemy>, dt: i64)
    requires
        forall|i: int| 0 <= i < old(enemies)@.len() ==> (#[trigger] old(enemies)@[i]).valid(),
        0 <= dt <= DT_LIMIT,
    ensures
        final(enemies)@ == drift_enemies(old(enemies)@, dt as int),
        forall|i: int| 0 <= i < final(enemies)@.len() ==> (#[trigger] final(enemies)@[i]).valid(),
{
    let ghost start = enemies@;
    let mut i: usize = 0;
    while i < enemies.len()
        invariant
            i <= enemies@.len(),
            enemies@.len() == start.len(),
            0 <= dt <= DT_LIMIT,
            forall|j: int| 0 <= j < start.len() ==> (#[trigger] start[j]).valid(),
            forall|j: int|
                0 <= j < i ==> #[trigger] enemies@[j] == (Enemy {
                    pos: drifted(start[j].pos, start[j].vel, dt as int),
                    ..start[j]
                }),
            forall|j: int| i <= j < start.len() ==> #[trigger] enemies@[j] == start[j],
        decreases start.len() - i,
    {
        let old_e = enemies[i];
        let pos = drift(old_e.pos, old_e.vel, dt);
        enemies.set(i, Enemy { pos, ..old_e });
        i += 1;
    }
    proof {
        assert(enemies@ =~= drift_enemies(start, dt as int));
        assert forall|j: int| 0 <= j < enemies@.len() implies (#[trigger] enemies@[j]).valid() by {
            assert(start[j].valid());
            lemma_drifted_in_world(start[j].pos, start[j].vel, dt as int);
        }
    }
}

proof fn lemma_drifted_in_world(p: Point, v: Point, dt: int)
    ensures
        drifted(p, v, dt).in_world(),
{
}

/// Removes the bubbles that have left the visible area.
pub fn despawn_outside(bubbles: &mut Vec<Bubble>, b: Bounds)
    requires
        b.valid(),
        forall|i: int| 0 <= i < old(bubbles)@.len() ==> (#[trigger] old(bubbles)@[i]).valid(),
    ensures
        final(bubbles)@ == inside_only(old(bubbles)@, b),
        forall|i: int|
            0 <= i < final(bubbles)@.len() ==> (#[trigger] final(bubbles)@[i]).valid() && b.contains(
                final(bubbles)@[i].pos,
            ),
        final(bubbles)@.len() <= old(bubbles)@.len(),
{
    let mut flags: Vec<bool> = Vec::new();
    let mut i: usize = 0;
    while i < bubbles.len()
        invariant
            i <= bubbles@.len(),
            b.valid(),
            flags@ == Seq::new(i as nat, |j: int| !b.contains(bubbles@[j].pos)),
        decreases bubbles@.len() - i,
    {
        let p = bubbles[i].pos;
        let outside = p.x < -b.half_width || p.x > b.half_width || p.y < -b.half_height || p.y
            > b.half_height;
        flags.push(outside);
        proof {
            assert(flags@ =~= Seq::new((i + 1) as nat, |j: int| !b.contains(bubbles@[j].pos)));
        }
        i += 1;
    }
    let kept = remove_flagged(bubbles, &flags);
    proof {
        lemma_keep_from(bubbles@, flags@);
        assert forall|j: int| 0 <= j < kept@.len() implies (#[trigger] kept@[j]).valid()
            && b.contains(kept@[j].pos) by {
            let i = choose|i: int| 0 <= i < bubbles@.len() && !flags@[i] && kept@[j] == bubbles@[i];
            assert(bubbles@[i].valid());
        }
    }
    *bubbles = kept;
}

/// The border rule for one tick.
pub fn apply_border(ship: &mut Ship, b: Bounds)
    requires
        old(ship).valid(),
        b.valid(),
        abs(old(ship).vel.x as int) <= VEL_LIMIT - BOUNCE_SPEED,
        abs(old(ship).vel.y as int) <= VEL_LIMIT - BOUNCE_SPEED,
    ensures
        *final(ship) == bordered(*old(ship), b),
        final(ship).vel.is_velocity(),
        abs(final(ship).vel.x as int) <= abs(old(ship).vel.x as int) + BOUNCE_SPEED,
        abs(final(ship).vel.y as int) <= abs(old(ship).vel.y as int) + BOUNCE_SPEED,
        final(ship).pos == old(ship).pos,
{
    let p = ship.pos;
    let v = ship.vel;
    let in_band = (if p.x < 0 { -p.x } else { p.x }) > b.half_width - BORDER_WIDTH || (if p.y
        < 0 {
        -p.y
    } else {
        p.y
    }) > b.half_height - BORDER_WIDTH;
    assert(abs(p.x * v.x) <= 1_000_000_000_000_000_000) by (nonlinear_arith)
        requires
            abs(p.x as int) <= 1_000_000_000,
            abs(v.x as int) <= 1_000_000_000,
    ;
    assert(abs(p.y * v.y) <= 1_000_000_000_000_000_000) by (nonlinear_arith)
        requires
            abs(p.y as int) <= 1_000_000_000,
            abs(v.y as int) <= 1_000_000_000,
    ;
    let dot: i128 = p.x as i128 * v.x as i128 + p.y as i128 * v.y as i128;
    if in_band && dot > 0 {
        let (ux, uy) = match unit_vector(p, Point::zero()) {
            Some(u) => u,
            None => {
                return;
            },
        };
        proof {
            lemma_product_fits(ux as int, BOUNCE_SPEED as int, ONE as int, ONE as int, BOUNCE_SPEED as int);
            lemma_product_fits(uy as int, BOUNCE_SPEED as int, ONE as int, ONE as int, BOUNCE_SPEED as int);
        }
        let ix = mul_div(ux, BOUNCE_SPEED, ONE);
        let iy = mul_div(uy, BOUNCE_SPEED, ONE);
        ship.health = ship.health - BORDER_DAMAGE;
        ship.vel = Point { x: v.x + ix, y: v.y + iy };
    }
}

/// A point carried by a fixed velocity through ticks of the given lengths.
pub open spec fn drift_through(p: Point, v: Point, dts: Seq<int>) -> Point
    decreases dts.len(),
{
    if dts.len() == 0 {
        p
    } else {
        drifted(drift_through(p, v, dts.drop_last()), v, dts.last())
    }
}

/// The total length of a run of ticks.
pub open spec fn elapsed(dts: Seq<int>) -> int
    decreases dts.len(),
{
    if dts.len() == 0 {
        0
    } else {
        elapsed(dts.drop_last()) + dts.last()
    }
}

proof fn lemma_step_bound(v: int, dt: int, r: int)
    requires
        abs(v) <= r,
        dt >= 0,
    ensures
        abs(displacement(v, dt)) * SECOND <= r * dt,
{
    let a = abs(v) * dt;
    assert(abs(v * dt) == a && a <= r * dt) by (nonlinear_arith)
        requires
            a == abs(v) * dt,
            abs(v) <= r,
            dt >= 0,
    ;
    assert((a / (SECOND as int)) * SECOND <= a) by (nonlinear_arith)
        requires
            a >= 0,
    ;
}

/// However a stretch of time is cut into ticks, a point moving at no more
/// than `r` per axis strays no further from where it started than `r` times
/// the time elapsed, on each axis.
pub proof fn lemma_drift_through_bound(p: Point, v: Point, dts: Seq<int>, r: int)
    requires
        p.in_world(),
        abs(v.x as int) <= r,
        abs(v.y as int) <= r,
        forall|i: int| 0 <= i < dts.len() ==> #[trigger] dts[i] >= 0,
    ensures
        abs(drift_through(p, v, dts).x - p.x) * SECOND <= r * elapsed(dts),
        abs(drift_through(p, v, dts).y - p.y) * SECOND <= r * elapsed(dts),
        drift_through(p, v, dts).in_world(),
    decreases dts.len(),
{
    if dts.len() > 0 {
        let rest = dts.drop_last();
        assert forall|i: int| 0 <= i < rest.len() implies #[trigger] rest[i] >= 0 by {
            assert(rest[i] == dts[i]);
        }
        lemma_drift_through_bound(p, v, rest, r);
        let q = drift_through(p, v, rest);
        let dt = dts.last();
        assert(dt >= 0) by {
            assert(dts[dts.len() - 1] >= 0);
        }
        lemma_step_bound(v.x as int, dt, r);
        lemma_step_bound(v.y as int, dt, r);
        assert(r * elapsed(dts) == r * elapsed(rest) + r * dt) by (nonlinear_arith)
            requires
                elapsed(dts) == elapsed(rest) + dt,
        ;
    }
}

/// A bubble fired from the origin, no faster than `MAX_SHOT_SPEED` on each
/// axis, stays in a visible area at least `MAX_SHOT_SPEED` units of one
/// second wide on each side for a whole second, however that second is cut
/// into ticks; so its removal in that time comes from its lifetime or a hit,
/// never from leaving the screen.
pub proof fn lemma_shot_stays_visible(v: Point, dts: Seq<int>, b: Bounds)
    requires
        abs(v.x as int) <= crate::spawn::MAX_SHOT_SPEED,
        abs(v.y as int) <= crate::spawn::MAX_SHOT_SPEED,
        forall|i: int| 0 <= i < dts.len() ==> #[trigger] dts[i] >= 0,
        elapsed(dts) <= SECOND,
        b.half_width >= crate::spawn::MAX_SHOT_SPEED,
        b.half_height >= crate::spawn::MAX_SHOT_SPEED,
    ensures
        b.contains(drift_through(Point { x: 0, y: 0 }, v, dts)),
{
    let o = Point { x: 0, y: 0 };
    let m = crate::spawn::MAX_SHOT_SPEED as int;
    lemma_drift_through_bound(o, v, dts, m);
    lemma_elapsed_nonneg(dts);
    let q = drift_through(o, v, dts);
    assert(m * elapsed(dts) <= m * SECOND) by (nonlinear_arith)
        requires
            elapsed(dts) <= SECOND,
            m >= 0,
    ;
}

proof fn lemma_elapsed_nonneg(dts: Seq<int>)
    requires
        forall|i: int| 0 <= i < dts.len() ==> #[trigger] dts[i] >= 0,
    ensures
        elapsed(dts) >= 0,
    decreases dts.len(),
{
    if dts.len() > 0 {
        let rest = dts.drop_last();
        assert forall|i: int| 0 <= i < rest.len() implies #[trigger] rest[i] >= 0 by {
            assert(rest[i] == dts[i]);
        }
        lemma_elapsed_nonneg(rest);
        assert(dts[dts.len() - 1] >= 0);
    }
}

} // verus!
