//! The gameplay entities and the per-tick values handed in from outside.
use vstd::prelude::*;
use crate::fixed::Point;

verus! {

/// Health of a freshly created ship or enemy.
pub const FULL_HEALTH: i64 = 100;

/// The player's ship.
#[derive(Clone, Copy, Debug, PartialEq, Eq, Structural)]
pub struct Ship {
    pub pos: Point,
    pub vel: Point,
    pub health: i64,
}

/// A projectile fired by the ship.
#[derive(Clone, Copy, Debug, PartialEq, Eq, Structural)]
pub struct Bubble {
    pub pos: Point,
    pub vel: Point,
    /// Hue in whole degrees, in [0, 359]; saturation and lightness are fixed.
    pub hue: i64,
    /// Drawn radius; the hit test does not use it.
    pub radius: i64,
    /// Lifetime left, in microseconds.
    pub remaining: i64,
}

#[derive(Clone, Copy, Debug, PartialEq, Eq, Structural)]
pub enum EnemyVariant {
    Floater,
    Seeker,
}

#[derive(Clone, Copy, Debug, PartialEq, Eq, Structural)]
pub struct Enemy {
    pub pos: Point,
    pub vel: Point,
    pub health: i64,
    pub variant: EnemyVariant,
}

/// Half the width and half the height of the visible area, centred on the
/// origin.
#[derive(Clone, Copy, Debug, PartialEq, Eq, Structural)]
pub struct Bounds {
    pub half_width: i64,
    pub half_height: i64,
}

impl Bounds {
    pub open spec fn valid(self) -> bool {
        0 <= self.half_width <= crate::fixed::POS_LIMIT && 0 <= self.half_height
            <= crate::fixed::POS_LIMIT
    }

    /// The bounds of a visible area `width` by `height`, each half held to
    /// [0, POS_LIMIT].
    pub fn from_size(width: i64, height: i64) -> (r: Bounds)
        ensures
            r.valid(),
            r.half_width as int == half_extent(width as int),
            r.half_height as int == half_extent(height as int),
    {
        Bounds { half_width: half_of(width), half_height: half_of(height) }
    }

    /// `p` lies in the visible area, edges included.
    pub open spec fn contains(self, p: Point) -> bool {
        -self.half_width <= p.x <= self.half_width && -self.half_height <= p.y <= self.half_height
    }
}

/// Half of a length, held to [0, POS_LIMIT].
pub open spec fn half_extent(len: int) -> int {
    if len <= 0 {
        0
    } else if len / 2 > crate::fixed::POS_LIMIT {
        crate::fixed::POS_LIMIT as int
    } else {
        len / 2
    }
}

fn half_of(len: i64) -> (r: i64)
    ensures
        r as int == half_extent(len as int),
{
    if len <= 0 {
        0
    } else if len / 2 > crate::fixed::POS_LIMIT {
        crate::fixed::POS_LIMIT
    } else {
        len / 2
    }
}

/// The keys held during one tick.
#[derive(Clone, Copy, Debug, PartialEq, Eq, Structural)]
pub struct Controls {
    pub up: bool,
    pub down: bool,
    pub left: bool,
    pub right: bool,
    pub fire: bool,
}

impl Ship {
    pub open spec fn valid(self) -> bool {
        self.pos.in_world() && self.vel.is_velocity() && -1_000_000 <= self.health
            <= FULL_HEALTH
    }

    /// A ship at the origin, at rest, with full health.
    pub fn fresh() -> (r: Ship)
        ensures
            r.pos.x == 0 && r.pos.y == 0,
            r.vel.x == 0 && r.vel.y == 0,
            r.health == FULL_HEALTH,
    {
        Ship { pos: Point::zero(), vel: Point::zero(), health: FULL_HEALTH }
    }
}

impl Bubble {
    /// A live bubble: it has lifetime left, and its motion stays in range.
    pub open spec fn valid(self) -> bool {
        self.pos.in_world() && self.vel.is_velocity() && 0 < self.remaining
            && crate::spawn::MIN_RADIUS <= self.radius <= crate::spawn::MAX_RADIUS
    }
}

impl Enemy {
    /// A live enemy: it still has health, and its motion stays in range.
    pub open spec fn valid(self) -> bool {
        self.pos.in_world() && self.vel.is_velocity() && 0 < self.health <= FULL_HEALTH
    }
}

} // verus!
