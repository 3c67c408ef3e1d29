//! Draw descriptors: what each entity looks like, as shapes for an outside
//! renderer. Colour channels and alpha are in thousandths.
use vstd::prelude::*;
use crate::entity::{Bounds, Bubble, Enemy, EnemyVariant, Ship, FULL_HEALTH};
use crate::fixed::{abs, mul_div, lemma_product_fits, tdiv, Point, ONE};
use crate::motion::BORDER_WIDTH;
use crate::spawn::{unit_toward, unit_vector};

verus! {

/// Radius of the ship's circle.
pub const SHIP_RADIUS: i64 = 15_000;

/// Length of the aim line drawn in front of the ship.
pub const AIM_LINE_LENGTH: i64 = 20_000;

/// Radius of a floater's circle.
pub const FLOATER_RADIUS: i64 = 20_000;

#[derive(Clone, Copy, Debug, PartialEq, Eq, Structural)]
pub enum Paint {
    /// A pastel of the given hue in degrees, at the fixed pastel saturation
    /// and lightness.
    Pastel { hue: i64, alpha: i64 },
    Rgba { r: i64, g: i64, b: i64, a: i64 },
}

#[derive(Clone, Copy, Debug, PartialEq, Eq, Structural)]
pub enum Shape {
    Circle { center: Point, radius: i64, paint: Paint },
    Segment { from: Point, to: Point, paint: Paint },
    /// An outlined rectangle centred on `center`.
    Rect { center: Point, width: i64, height: i64, paint: Paint },
    /// An open line through three points.
    Path { a: Point, b: Point, c: Point, paint: Paint },
}

pub open spec fn offset(p: Point, dx: int, dy: int) -> Point {
    Point { x: (p.x + dx) as i64, y: (p.y + dy) as i64 }
}

pub open spec fn white(alpha: int) -> Paint {
    Paint::Rgba { r: 1000, g: 1000, b: 1000, a: alpha as i64 }
}

/// A bubble: a faint glow, its outline, and two white highlights up and to
/// the left of its centre.
pub open spec fn bubble_shapes(b: Bubble) -> Seq<Shape> {
    let r = b.radius as int;
    seq![
        Shape::Circle { center: b.pos, radius: (r + 2000) as i64, paint: Paint::Pastel { hue: b.hue, alpha: 200 } },
        Shape::Circle { center: b.pos, radius: b.radius, paint: Paint::Pastel { hue: b.hue, alpha: 800 } },
        Shape::Circle { center: offset(b.pos, -(r / 5), r / 5), radius: (r * 2 / 5) as i64, paint: white(300) },
        Shape::Circle { center: offset(b.pos, -(r / 10), r / 10), radius: (r / 5) as i64, paint: white(500) },
    ]
}

/// A floater is a red circle, a seeker an orange triangle.
pub open spec fn enemy_shape(e: Enemy) -> Shape {
    match e.variant {
        EnemyVariant::Floater => Shape::Circle {
            center: e.pos,
            radius: FLOATER_RADIUS,
            paint: Paint::Rgba { r: 1000, g: 0, b: 0, a: 1000 },
        },
        EnemyVariant::Seeker => Shape::Path {
            a: offset(e.pos, 0, 20_000),
            b: offset(e.pos, -17_300, -10_000),
            c: offset(e.pos, 17_300, -10_000),
            paint: Paint::Rgba { r: 1000, g: 647, b: 0, a: 1000 },
        },
    }
}

/// Health held to [0, 100], for colouring.
pub open spec fn shade_of(health: int) -> int {
    if health < 0 {
        0
    } else if health > FULL_HEALTH {
        FULL_HEALTH as int
    } else {
        health
    }
}

/// The ship fades from white at full health to red at none.
pub open spec fn ship_paint(health: int) -> Paint {
    let g = shade_of(health) * 10;
    Paint::Rgba { r: 1000, g: g as i64, b: g as i64, a: 1000 }
}

pub open spec fn border_shape(bounds: Bounds) -> Shape {
    Shape::Rect {
        center: Point { x: 0, y: 0 },
        width: (2 * bounds.half_width - BORDER_WIDTH) as i64,
        height: (2 * bounds.half_height - BORDER_WIDTH) as i64,
        paint: Paint::Rgba { r: 1000, g: 0, b: 0, a: 200 },
    }
}

/// The aim line: a short segment along `u` whose middle is one ship radius
/// out from the ship's centre.
pub open spec fn aim_segment(pos: Point, u: (int, int), paint: Paint) -> Shape {
    let center = offset(pos, tdiv(u.0 * SHIP_RADIUS, ONE as int), tdiv(u.1 * SHIP_RADIUS, ONE as int));
    let hx = tdiv(u.0 * (AIM_LINE_LENGTH / 2), ONE as int);
    let hy = tdiv(u.1 * (AIM_LINE_LENGTH / 2), ONE as int);
    Shape::Segment { from: offset(center, -hx, -hy), to: offset(center, hx, hy), paint }
}

/// The ship's circle, and the aim line where the aim target is not the
/// ship's own position.
pub open spec fn ship_shapes(s: Ship, aim: Point) -> Seq<Shape> {
    let paint = ship_paint(s.health as int);
    let body = Shape::Circle { center: s.pos, radius: SHIP_RADIUS, paint };
    if s.pos == aim {
        seq![body]
    } else {
        seq![body, aim_segment(s.pos, unit_toward(s.pos, aim), paint)]
    }
}

pub fn bubble_sprites(b: &Bubble) -> (r: Vec<Shape>)
    requires
        b.pos.in_world(),
        0 <= b.radius <= 1_000_000_000,
    ensures
        r@ == bubble_shapes(*b),
{
    let r = b.radius;
    let mut out: Vec<Shape> = Vec::new();
    out.push(Shape::Circle { center: b.pos, radius: r + 2000, paint: Paint::Pastel { hue: b.hue, alpha: 200 } });
    out.push(Shape::Circle { center: b.pos, radius: r, paint: Paint::Pastel { hue: b.hue, alpha: 800 } });
    let highlight = Point { x: b.pos.x - r / 5, y: b.pos.y + r / 5 };
    out.push(Shape::Circle { center: highlight, radius: r * 2 / 5, paint: Paint::Rgba { r: 1000, g: 1000, b: 1000, a: 300 } });
    let shine = Point { x: b.pos.x - r / 10, y: b.pos.y + r / 10 };
    out.push(Shape::Circle { center: shine, radius: r / 5, paint: Paint::Rgba { r: 1000, g: 1000, b: 1000, a: 500 } });
    assert(out@ =~= bubble_shapes(*b));
    out
}

pub fn enemy_sprite(e: &Enemy) -> (r: Shape)
    requires
        e.pos.in_world(),
    ensures
        r == enemy_shape(*e),
{
    let p = e.pos;
    match e.variant {
        EnemyVariant::Floater => Shape::Circle {
            center: p,
            radius: FLOATER_RADIUS,
            paint: Paint::Rgba { r: 1000, g: 0, b: 0, a: 1000 },
        },
        EnemyVariant::Seeker => Shape::Path {
            a: Point { x: p.x, y: p.y + 20_000 },
            b: Point { x: p.x - 17_300, y: p.y - 10_000 },
            c: Point { x: p.x + 17_300, y: p.y - 10_000 },
            paint: Paint::Rgba { r: 1000, g: 647, b: 0, a: 1000 },
        },
    }
}

pub fn health_shade(health: i64) -> (r: i64)
    ensures
        r as int == shade_of(health as int),
{
    if health < 0 {
        0
    } else if health > FULL_HEALTH {
        FULL_HEALTH
    } else {
        health
    }
}

/// The danger border drawn around the visible area.
pub fn border_sprite(bounds: Bounds) -> (r: Shape)
    requires
        bounds.valid(),
    ensures
        r == border_shape(bounds),
{
    Shape::Rect {
        center: Point { x: 0, y: 0 },
        width: 2 * bounds.half_width - BORDER_WIDTH,
        height: 2 * bounds.half_height - BORDER_WIDTH,
        paint: Paint::Rgba { r: 1000, g: 0, b: 0, a: 200 },
    }
}

pub fn ship_sprites(s: &Ship, aim: Point) -> (r: Vec<Shape>)
    requires
        s.pos.in_world(),
        aim.in_world(),
    ensures
        r@ == ship_shapes(*s, aim),
{
    let g = health_shade(s.health) * 10;
    let paint = Paint::Rgba { r: 1000, g, b: g, a: 1000 };
    let mut out: Vec<Shape> = Vec::new();
    out.push(Shape::Circle { center: s.pos, radius: SHIP_RADIUS, paint });
    if let Some((ux, uy)) = unit_vector(s.pos, aim) {
        proof {
            lemma_product_fits(ux as int, SHIP_RADIUS as int, ONE as int, ONE as int, SHIP_RADIUS as int);
            lemma_product_fits(uy as int, SHIP_RADIUS as int, ONE as int, ONE as int, SHIP_RADIUS as int);
            lemma_product_fits(ux as int, AIM_LINE_LENGTH / 2, ONE as int, ONE as int, AIM_LINE_LENGTH / 2);
            lemma_product_fits(uy as int, AIM_LINE_LENGTH / 2, ONE as int, ONE as int, AIM_LINE_LENGTH / 2);
        }
        let cx = s.pos.x + mul_div(ux, SHIP_RADIUS, ONE);
        let cy = s.pos.y + mul_div(uy, SHIP_RADIUS, ONE);
        let hx = mul_div(ux, AIM_LINE_LENGTH / 2, ONE);
        let hy = mul_div(uy, AIM_LINE_LENGTH / 2, ONE);
        out.push(Shape::Segment {
            from: Point { x: cx - hx, y: cy - hy },
            to: Point { x: cx + hx, y: cy + hy },
            paint,
        });
    }
    assert(out@ =~= ship_shapes(*s, aim));
    out
}

/// Everything drawn in one frame: the border, the ship if there is one, the
/// bubbles and the enemies, in that order.
pub fn frame_sprites(ship: &Option<Ship>, aim: Point, bounds: Bounds, bubbles: &Vec<Bubble>, enemies: &Vec<Enemy>) -> (r: Vec<Shape>)
    requires
        bounds.valid(),
        aim.in_world(),
        ship matches Some(s) ==> s.pos.in_world(),
        forall|i: int| 0 <= i < bubbles@.len() ==> (#[trigger] bubbles@[i]).pos.in_world() && 0 <= bubbles@[i].radius <= 1_000_000_000,
        forall|i: int| 0 <= i < enemies@.len() ==> (#[trigger] enemies@[i]).pos.in_world(),
    ensures
        r@ == seq![border_shape(bounds)] + (match *ship {
            Some(s) => ship_shapes(s, aim),
            None => Seq::empty(),
        }) + bubbles@.map_values(|b: Bubble| bubble_shapes(b)).flatten() + enemies@.map_values(|e: Enemy| enemy_shape(e)),
{
    let mut out: Vec<Shape> = Vec::new();
    out.push(border_sprite(bounds));
    if let Some(s) = ship {
        let mut body = ship_sprites(s, aim);
        out.append(&mut body);
    }
    let ghost head = out@;
    let mut i: usize = 0;
    while i < bubbles.len()
        invariant
            i <= bubbles@.len(),
            forall|j: int| 0 <= j < bubbles@.len() ==> (#[trigger] bubbles@[j]).pos.in_world() && 0 <= bubbles@[j].radius <= 1_000_000_000,
            out@ == head + bubbles@.take(i as int).map_values(|b: Bubble| bubble_shapes(b)).flatten(),
        decreases bubbles@.len() - i,
    {
        let mut more = bubble_sprites(&bubbles[i]);
        proof {
            let f = |b: Bubble| bubble_shapes(b);
            assert(bubbles@.take(i + 1).map_values(f) =~= bubbles@.take(i as int).map_values(f).push(bubble_shapes(bubbles@[i as int])));
            lemma_flatten_push(bubbles@.take(i as int).map_values(f), bubble_shapes(bubbles@[i as int]));
        }
        out.append(&mut more);
        proof {
            assert(out@ =~= head + bubbles@.take(i + 1).map_values(|b: Bubble| bubble_shapes(b)).flatten());
        }
        i += 1;
    }
    assert(bubbles@.take(bubbles@.len() as int) =~= bubbles@);
    let ghost mid = out@;
    let mut k: usize = 0;
    while k < enemies.len()
        invariant
            k <= enemies@.len(),
            forall|j: int| 0 <= j < enemies@.len() ==> (#[trigger] enemies@[j]).pos.in_world(),
            out@ == mid + enemies@.take(k as int).map_values(|e: Enemy| enemy_shape(e)),
        decreases enemies@.len() - k,
    {
        out.push(enemy_sprite(&enemies[k]));
        proof {
            assert(out@ =~= mid + enemies@.take(k + 1).map_values(|e: Enemy| enemy_shape(e)));
        }
        k += 1;
    }
    assert(enemies@.take(enemies@.len() as int) =~= enemies@);
    out
}

proof fn lemma_flatten_push(ss: Seq<Seq<Shape>>, last: Seq<Shape>)
    ensures
        ss.push(last).flatten() == ss.flatten() + last,
{
    ss.lemma_flatten_push(last);
}

} // verus!
