//! The round: the entity store, the tick that runs every stage in order, and
//! the Playing / GameOver state machine.
use vstd::prelude::*;
use rand::rngs::StdRng;
use crate::collision::{collided, all_standing, keep, lemma_keep_from, remove_flagged, resolve_collisions};
use crate::entity::{Bounds, Bubble, Controls, Enemy, Ship};
use crate::fixed::{abs, Point, DT_LIMIT, POS_LIMIT};
use crate::motion::{bordered, drift_bubbles, drift_enemies, inside_only, moved_ship, clamp_world, apply_border, BORDER_DAMAGE, despawn_outside, move_bubbles, move_enemies, move_ship};
use crate::spawn::{placed_enemy, shot, EnemyDraws, ShotDraws, countdown, try_spawn_bubble, try_spawn_enemy, SPAWN_PERIOD};

verus! {

#[derive(Clone, Copy, Debug, PartialEq, Eq, Structural)]
pub enum GameState {
    Playing,
    GameOver,
}

/// A bubble after `dt` more of its lifetime has run.
pub open spec fn aged(b: Bubble, dt: int) -> Bubble {
    Bubble { remaining: (b.remaining - dt) as i64, ..b }
}

/// The bubbles that still have lifetime left after `dt`, aged by `dt`.
pub open spec fn age_all(bs: Seq<Bubble>, dt: int) -> Seq<Bubble> {
    keep(
        Seq::new(bs.len(), |i: int| aged(bs[i], dt)),
        Seq::new(bs.len(), |i: int| bs[i].remaining - dt <= 0),
    )
}

/// Runs `dt` off every bubble's lifetime and removes the bubbles whose
/// lifetime is used up.
pub fn expire_bubbles(bubbles: &mut Vec<Bubble>, dt: i64)
    requires
        forall|i: int| 0 <= i < old(bubbles)@.len() ==> (#[trigger] old(bubbles)@[i]).valid(),
        0 <= dt <= DT_LIMIT,
    ensures
        final(bubbles)@ == age_all(old(bubbles)@, dt as int),
        forall|i: int| 0 <= i < final(bubbles)@.len() ==> (#[trigger] final(bubbles)@[i]).valid(),
        final(bubbles)@.len() <= old(bubbles)@.len(),
{
    let ghost start = bubbles@;
    let mut flags: Vec<bool> = Vec::new();
    let mut i: usize = 0;
    while i < bubbles.len()
        invariant
            i <= bubbles@.len(),
            bubbles@.len() == start.len(),
            0 <= dt <= DT_LIMIT,
            forall|j: int| 0 <= j < start.len() ==> (#[trigger] start[j]).valid(),
            forall|j: int| 0 <= j < i ==> #[trigger] bubbles@[j] == aged(start[j], dt as int),
            forall|j: int| i <= j < start.len() ==> #[trigger] bubbles@[j] == start[j],
            flags@ == Seq::new(i as nat, |j: int| start[j].remaining - dt <= 0),
        decreases start.len() - i,
    {
        let b = bubbles[i];
        assert(start[i as int].valid());
        let left = b.remaining - dt;
        bubbles.set(i, Bubble { remaining: left, ..b });
        flags.push(left <= 0);
        proof {
            assert(flags@ =~= Seq::new((i + 1) as nat, |j: int| start[j].remaining - dt <= 0));
        }
        i += 1;
    }
    let kept = remove_flagged(bubbles, &flags);
    proof {
        assert(bubbles@ =~= Seq::new(start.len(), |i: int| aged(start[i], dt as int)));
        lemma_keep_from(bubbles@, flags@);
        assert forall|j: int| 0 <= j < kept@.len() implies #[trigger] kept@[j].valid() by {
            let i = choose|i: int| 0 <= i < bubbles@.len() && !flags@[i] && kept@[j] == bubbles@[i];
            assert(start[i].valid());
        }
    }
    *bubbles = kept;
}

/// The aim target: the cursor's world position where there is one, held
/// inside the world, else the origin.
pub fn aim_target(cursor: Option<(i64, i64)>) -> (r: Point)
    ensures
        r.in_world(),
        r == match cursor {
            Some(c) => Point { x: clamp_world(c.0 as int) as i64, y: clamp_world(c.1 as int) as i64 },
            None => Point { x: 0, y: 0 },
        },
{
    match cursor {
        Some((x, y)) => Point { x: clamp_coord(x), y: clamp_coord(y) },
        None => Point::zero(),
    }
}

fn clamp_coord(v: i64) -> (r: i64)
    ensures
        r as int == clamp_world(v as int),
{
    if v > POS_LIMIT {
        POS_LIMIT
    } else if v < -POS_LIMIT {
        -POS_LIMIT
    } else {
        v
    }
}

/// The ship after firing a shot with these draws: it recoils against it.
pub open spec fn recoiled(s: Ship, recoil: Point) -> Ship {
    Ship { vel: Point { x: (s.vel.x - recoil.x) as i64, y: (s.vel.y - recoil.y) as i64 }, ..s }
}

/// One tick of play from a round in progress, given the draws of the shot
/// fired (if any) and of the enemy placed (if any). The stages run in order:
/// the shot and its recoil, the enemy spawn, drift, removal of bubbles that
/// left the visible area, the ship's motion, collisions, lifetimes, the
/// border rule, and the end of the round once the ship's health is gone.
/// The result is the state, the ship, the bubbles and the enemies.
pub open spec fn ticked(
    ship: Ship,
    bubbles: Seq<Bubble>,
    enemies: Seq<Enemy>,
    controls: Controls,
    aim: Point,
    dt: int,
    bounds: Bounds,
    sd: Option<ShotDraws>,
    ed: Option<EnemyDraws>,
) -> (GameState, Option<Ship>, Seq<Bubble>, Seq<Enemy>) {
    let (ship1, bubbles1) = match sd {
        Some(d) => (recoiled(ship, shot(ship.pos, aim, d).1), bubbles.push(shot(ship.pos, aim, d).0)),
        None => (ship, bubbles),
    };
    let enemies1 = match ed {
        Some(d) => enemies.push(placed_enemy(d)),
        None => enemies,
    };
    let bubbles2 = inside_only(drift_bubbles(bubbles1, dt), bounds);
    let enemies2 = drift_enemies(enemies1, dt);
    let ship2 = moved_ship(ship1, controls, dt, bounds);
    let (bubbles3, enemies3) = collided(bubbles2, enemies2);
    let bubbles4 = age_all(bubbles3, dt);
    let ship3 = bordered(ship2, bounds);
    if ship3.health <= 0 {
        (GameState::GameOver, None, Seq::empty(), Seq::empty())
    } else {
        (GameState::Playing, Some(ship3), bubbles4, enemies3)
    }
}

/// Everything in play: the state of the round, the ship while playing, the
/// bubbles and enemies in creation order, and the enemy spawn countdown.
pub struct World {
    pub state: GameState,
    pub ship: Option<Ship>,
    pub bubbles: Vec<Bubble>,
    pub enemies: Vec<Enemy>,
    pub spawn_timer: i64,
}

impl World {
    /// One ship exactly while playing, none and no other gameplay entity
    /// after the game is over; every entity live and in range.
    pub open spec fn wf(&self) -> bool {
        &&& (self.state == GameState::Playing) == self.ship.is_some()
        &&& self.ship matches Some(s) ==> {
            &&& s.valid()
            &&& s.health > 0
            &&& abs(s.vel.x as int) <= 1_000_000
            &&& abs(s.vel.y as int) <= 1_000_000
        }
        &&& self.state == GameState::GameOver ==> self.bubbles@.len() == 0
            && self.enemies@.len() == 0
        &&& forall|i: int|
            0 <= i < self.bubbles@.len() ==> (#[trigger] self.bubbles@[i]).valid()
        &&& all_standing(self.enemies@)
        &&& 0 < self.spawn_timer <= SPAWN_PERIOD
    }

    /// A fresh round, the state on entry to Playing: a new ship at the
    /// origin, no bubbles, no enemies.
    pub open spec fn is_fresh_round(&self) -> bool {
        &&& self.state == GameState::Playing
        &&& self.ship == Some(Ship {
            pos: Point { x: 0, y: 0 },
            vel: Point { x: 0, y: 0 },
            health: crate::entity::FULL_HEALTH,
        })
        &&& self.bubbles@.len() == 0
        &&& self.enemies@.len() == 0
        &&& self.spawn_timer == SPAWN_PERIOD
    }

    pub open spec fn is_cleared(&self) -> bool {
        &&& self.state == GameState::GameOver
        &&& self.ship is None
        &&& self.bubbles@.len() == 0
        &&& self.enemies@.len() == 0
    }

    /// The game starts in a fresh round.
    pub fn new() -> (r: World)
        ensures
            r.wf(),
            r.is_fresh_round(),
    {
        World {
            state: GameState::Playing,
            ship: Some(Ship::fresh()),
            bubbles: Vec::new(),
            enemies: Vec::new(),
            spawn_timer: SPAWN_PERIOD,
        }
    }

    /// Ends the round when the ship's health is gone: the state turns to
    /// GameOver and every gameplay entity is removed.
    pub fn check_game_over(&mut self)
        requires
            old(self).ship matches Some(s) ==> s.valid() && abs(s.vel.x as int) <= 1_000_000 && abs(
                s.vel.y as int,
            ) <= 1_000_000,
            (old(self).state == GameState::Playing) == old(self).ship.is_some(),
            old(self).state == GameState::GameOver ==> old(self).bubbles@.len() == 0
                && old(self).enemies@.len() == 0,
            forall|i: int|
                0 <= i < old(self).bubbles@.len() ==> (#[trigger] old(self).bubbles@[i]).valid(),
            all_standing(old(self).enemies@),
            0 < old(self).spawn_timer <= SPAWN_PERIOD,
        ensures
            final(self).wf(),
            (old(self).ship matches Some(s) && s.health <= 0) ==> final(self).is_cleared(),
            !(old(self).ship matches Some(s) && s.health <= 0) ==> {
                &&& final(self).state == old(self).state
                &&& final(self).ship == old(self).ship
                &&& final(self).bubbles@ == old(self).bubbles@
                &&& final(self).enemies@ == old(self).enemies@
            },
            final(self).spawn_timer == old(self).spawn_timer,
    {
        let over = match self.ship {
            Some(s) => s.health <= 0,
            None => false,
        };
        if over {
            self.state = GameState::GameOver;
            self.ship = None;
            self.bubbles = Vec::new();
            self.enemies = Vec::new();
        }
    }

    /// The Replay action: from GameOver it starts a fresh round; while
    /// playing it does nothing.
    pub fn replay(&mut self)
        requires
            old(self).wf(),
        ensures
            final(self).wf(),
            old(self).state == GameState::GameOver ==> final(self).is_fresh_round(),
            old(self).state == GameState::Playing ==> {
                &&& final(self).state == old(self).state
                &&& final(self).ship == old(self).ship
                &&& final(self).bubbles@ == old(self).bubbles@
                &&& final(self).enemies@ == old(self).enemies@
                &&& final(self).spawn_timer == old(self).spawn_timer
            },
    {
        if self.state == GameState::GameOver {
            self.state = GameState::Playing;
            self.ship = Some(Ship::fresh());
            self.bubbles = Vec::new();
            self.enemies = Vec::new();
            self.spawn_timer = SPAWN_PERIOD;
        }
    }

    /// One tick of play, its stages in order: spawning, motion, collisions,
    /// lifetimes, the border rule, then the check for the end of the round.
    /// After the game is over a tick changes nothing.
    pub fn tick(&mut self, controls: Controls, aim: Point, dt: i64, bounds: Bounds, rng: &mut StdRng)
        requires
            old(self).wf(),
            aim.in_world(),
            bounds.valid(),
            0 <= dt <= DT_LIMIT,
        ensures
            final(self).wf(),
            old(self).state == GameState::GameOver ==> {
                &&& final(self).state == old(self).state
                &&& final(self).ship == old(self).ship
                &&& final(self).bubbles@ == old(self).bubbles@
                &&& final(self).enemies@ == old(self).enemies@
                &&& final(self).spawn_timer == old(self).spawn_timer
            },
            final(self).state == GameState::GameOver ==> final(self).is_cleared(),
            final(self).ship matches Some(s) ==> bounds.contains(s.pos),
            old(self).state == GameState::Playing ==> exists|
                sd: Option<ShotDraws>,
                ed: Option<EnemyDraws>,
            |
                #![trigger ticked(old(self).ship->Some_0, old(self).bubbles@, old(self).enemies@, controls, aim, dt as int, bounds, sd, ed)]
                {
                    let t = ticked(
                        old(self).ship->Some_0,
                        old(self).bubbles@,
                        old(self).enemies@,
                        controls,
                        aim,
                        dt as int,
                        bounds,
                        sd,
                        ed,
                    );
                    &&& (sd is Some <==> controls.fire && old(self).ship->Some_0.pos != aim)
                    &&& (sd matches Some(d) ==> d.valid())
                    &&& (ed is Some <==> countdown(old(self).spawn_timer as int, dt as int).1)
                    &&& (ed matches Some(d) ==> d.valid(bounds))
                    &&& final(self).state == t.0
                    &&& final(self).ship == t.1
                    &&& final(self).bubbles@ == t.2
                    &&& final(self).enemies@ == t.3
                },
            old(self).state == GameState::Playing ==> final(self).spawn_timer as int == countdown(
                old(self).spawn_timer as int,
                dt as int,
            ).0,
            old(self).ship is Some && final(self).ship is Some ==> {
                let h0 = old(self).ship->Some_0.health;
                let h1 = final(self).ship->Some_0.health;
                h1 == h0 || h1 == h0 - BORDER_DAMAGE
            },
            old(self).ship is Some && final(self).state == GameState::GameOver ==> old(
                self,
            ).ship->Some_0.health <= BORDER_DAMAGE,
            old(self).state == GameState::Playing ==> final(self).bubbles@.len() <= old(
                self,
            ).bubbles@.len() + 1 && final(self).enemies@.len() <= old(self).enemies@.len() + 1,
    {
        let mut ship = match self.ship {
            Some(s) => s,
            None => {
                return;
            },
        };
        let ghost ship0 = ship;
        let ghost bubbles0 = self.bubbles@;
        let ghost enemies0 = self.enemies@;
        let fired = try_spawn_bubble(controls.fire, &mut ship, aim, rng);
        let ghost sd: Option<ShotDraws> = match fired {
            Some(b) => Some(
                choose|d: ShotDraws|
                    {
                        let (out, recoil) = #[trigger] shot(ship0.pos, aim, d);
                        &&& d.valid()
                        &&& b == out
                        &&& ship == (Ship {
                            vel: Point {
                                x: (ship0.vel.x - recoil.x) as i64,
                                y: (ship0.vel.y - recoil.y) as i64,
                            },
                            ..ship0
                        })
                    },
            ),
            None => None,
        };
        if let Some(b) = fired {
            self.bubbles.push(b);
        }
        let placed = try_spawn_enemy(&mut self.spawn_timer, dt, bounds, rng);
        let ghost ed: Option<EnemyDraws> = match placed {
            Some(e) => Some(choose|d: EnemyDraws| d.valid(bounds) && e == #[trigger] placed_enemy(d)),
            None => None,
        };
        if let Some(e) = placed {
            self.enemies.push(e);
        }
        let ghost ship1 = ship;
        let ghost bubbles1 = self.bubbles@;
        let ghost enemies1 = self.enemies@;
        proof {
            match sd {
                Some(d) => {
                    assert(ship1 == recoiled(ship0, shot(ship0.pos, aim, d).1));
                    assert(bubbles1 == bubbles0.push(shot(ship0.pos, aim, d).0));
                },
                None => {},
            }
        }
        move_bubbles(&mut self.bubbles, dt);
        move_enemies(&mut self.enemies, dt);
        despawn_outside(&mut self.bubbles, bounds);
        move_ship(&mut ship, controls, dt, bounds);
        resolve_collisions(&mut self.bubbles, &mut self.enemies);
        expire_bubbles(&mut self.bubbles, dt);
        apply_border(&mut ship, bounds);
        self.ship = Some(ship);
        self.check_game_over();
        proof {
            let t = ticked(ship0, bubbles0, enemies0, controls, aim, dt as int, bounds, sd, ed);
            assert(self.state == t.0);
            assert(self.ship == t.1);
            assert(self.bubbles@ =~= t.2);
            assert(self.enemies@ =~= t.3);
        }
    }
}

} // verus!
