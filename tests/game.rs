use bubble_arcade::collision::{collision_pass, find_target, remove_flagged, resolve_collisions};
use bubble_arcade::entity::{Bounds, Bubble, Controls, Enemy, EnemyVariant, Ship};
use bubble_arcade::fixed::{ceil_sqrt, div_toward_zero, mul_div, Point};
use bubble_arcade::motion::{apply_border, cap_speed, despawn_outside, drift, move_ship, thrust};
use bubble_arcade::render::{
    border_sprite, bubble_sprites, enemy_sprite, frame_sprites, health_shade, ship_sprites, Paint,
    Shape,
};
use bubble_arcade::spawn::{
    bubble_from_draws, enemy_from_draws, sin_cos, tick_spawn_timer, try_spawn_bubble,
    try_spawn_enemy, unit_vector, EnemyDraws, ShotDraws,
};
use bubble_arcade::world::{aim_target, expire_bubbles, GameState, World};
use rand::rngs::StdRng;
use rand::SeedableRng;

fn pt(x: i64, y: i64) -> Point {
    Point { x, y }
}

fn bounds() -> Bounds {
    Bounds { half_width: 400_000, half_height: 300_000 }
}

fn no_keys() -> Controls {
    Controls { up: false, down: false, left: false, right: false, fire: false }
}

fn enemy_at(x: i64, y: i64) -> Enemy {
    Enemy { pos: pt(x, y), vel: pt(0, 0), health: 100, variant: EnemyVariant::Floater }
}

fn bubble_at(x: i64, y: i64) -> Bubble {
    Bubble { pos: pt(x, y), vel: pt(0, 0), hue: 120, radius: 10_000, remaining: 1_500_000 }
}

fn ship_at(x: i64, y: i64, vx: i64, vy: i64, health: i64) -> Ship {
    Ship { pos: pt(x, y), vel: pt(vx, vy), health }
}

#[test]
fn enemy_health_drops_by_a_quarter_per_hit() {
    let bubbles = vec![bubble_at(0, 0)];
    let mut enemies = vec![enemy_at(10_000, 0)];
    let (hit, dead) = collision_pass(&bubbles, &mut enemies);
    assert_eq!(enemies[0].health, 75);
    assert_eq!(hit, vec![true]);
    assert_eq!(dead, vec![false]);
}

#[test]
fn four_hits_destroy_an_enemy() {
    let bubbles = vec![bubble_at(0, 0), bubble_at(1_000, 0), bubble_at(2_000, 0), bubble_at(3_000, 0)];
    let mut enemies = vec![enemy_at(5_000, 5_000)];
    let (hit, dead) = collision_pass(&bubbles, &mut enemies);
    assert_eq!(enemies[0].health, 0);
    assert_eq!(hit, vec![true, true, true, true]);
    assert_eq!(dead, vec![true]);
}

#[test]
fn fallen_enemy_is_removed_and_extra_bubble_survives() {
    let mut bubbles = vec![
        bubble_at(0, 0),
        bubble_at(0, 1_000),
        bubble_at(0, 2_000),
        bubble_at(0, 3_000),
        bubble_at(0, 4_000),
    ];
    let mut enemies = vec![enemy_at(0, 10_000), enemy_at(200_000, 0)];
    resolve_collisions(&mut bubbles, &mut enemies);
    assert_eq!(enemies.len(), 1);
    assert_eq!(enemies[0].pos, pt(200_000, 0));
    assert_eq!(bubbles.len(), 1);
    assert_eq!(bubbles[0].pos, pt(0, 4_000));
}

#[test]
fn bubble_hits_only_the_first_enemy_in_range() {
    let mut bubbles = vec![bubble_at(0, 0)];
    let mut enemies = vec![enemy_at(10_000, 0), enemy_at(-10_000, 0)];
    resolve_collisions(&mut bubbles, &mut enemies);
    assert!(bubbles.is_empty());
    assert_eq!(enemies[0].health, 75);
    assert_eq!(enemies[1].health, 100);
}

#[test]
fn hit_radius_is_strict() {
    let enemies = vec![enemy_at(30_000, 0), enemy_at(29_999, 0)];
    let dead = vec![false, false];
    assert_eq!(find_target(pt(0, 0), &enemies, &dead), Some(1));
    assert_eq!(find_target(pt(0, 0), &enemies, &vec![false, true]), None);
}

#[test]
fn remove_flagged_keeps_order() {
    let v = vec![1u8, 2, 3, 4];
    assert_eq!(remove_flagged(&v, &vec![false, true, false, true]), vec![1, 3]);
}

#[test]
fn speed_never_exceeds_cap() {
    let mut ship = ship_at(0, 0, 900_000, -900_000, 100);
    let keys = Controls { up: false, down: true, left: false, right: true, fire: false };
    for _ in 0..50 {
        move_ship(&mut ship, keys, 16_667, bounds());
        let s = (ship.vel.x as i128).pow(2) + (ship.vel.y as i128).pow(2);
        assert!(s <= 300_000i128 * 300_000);
    }
}

#[test]
fn cap_speed_scales_to_the_cap() {
    assert_eq!(cap_speed(600_000, 0), (300_000, 0));
    assert_eq!(cap_speed(300_000, 400_000), (180_000, 240_000));
    assert_eq!(cap_speed(1_000, -2_000), (1_000, -2_000));
}

#[test]
fn thrust_one_tick_from_rest() {
    assert_eq!(thrust(Controls { up: true, down: false, left: false, right: true, fire: false }), (707_107, 707_107));
    let mut ship = ship_at(0, 0, 0, 0, 100);
    let keys = Controls { up: false, down: false, left: false, right: true, fire: false };
    move_ship(&mut ship, keys, 16_667, bounds());
    assert_eq!(ship.vel, pt(16_333, 0));
    assert_eq!(ship.pos, pt(272, 0));
}

#[test]
fn ship_wraps_to_the_opposite_edge() {
    let mut ship = ship_at(399_000, 0, 300_000, 0, 100);
    move_ship(&mut ship, no_keys(), 16_667, bounds());
    assert_eq!(ship.pos.x, -400_000);
}

#[test]
fn drift_integrates_velocity() {
    assert_eq!(drift(pt(1_000, 2_000), pt(-50_000, 100_000), 500_000), pt(-24_000, 52_000));
}

#[test]
fn border_damages_and_pushes_inward() {
    let mut ship = ship_at(380_000, 0, 100_000, 0, 100);
    apply_border(&mut ship, bounds());
    assert_eq!(ship.health, 90);
    assert_eq!(ship.vel, pt(-400_000, 0));
}

#[test]
fn border_spares_a_ship_moving_inward() {
    let mut ship = ship_at(380_000, 0, -100_000, 0, 100);
    apply_border(&mut ship, bounds());
    assert_eq!(ship.health, 100);
    assert_eq!(ship.vel, pt(-100_000, 0));
}

#[test]
fn fatal_border_hit_ends_the_round() {
    let mut world = World::new();
    world.ship = Some(ship_at(360_000, 0, 200_000, 0, 5));
    world.enemies.push(enemy_at(-200_000, -200_000));
    world.bubbles.push(bubble_at(-100_000, 0));
    let mut rng = StdRng::seed_from_u64(3);
    world.tick(no_keys(), pt(0, 0), 16_667, bounds(), &mut rng);
    assert_eq!(world.state, GameState::GameOver);
    assert!(world.ship.is_none());
    assert!(world.bubbles.is_empty());
    assert!(world.enemies.is_empty());
}

#[test]
fn game_over_check_after_border_event() {
    let mut world = World::new();
    let mut ship = ship_at(380_000, 0, 100_000, 0, 5);
    apply_border(&mut ship, bounds());
    assert!(ship.health <= 0);
    world.ship = Some(ship);
    world.enemies.push(enemy_at(0, 100_000));
    world.check_game_over();
    assert_eq!(world.state, GameState::GameOver);
    assert!(world.ship.is_none() && world.enemies.is_empty());
}

#[test]
fn firing_spawns_one_bubble_with_recoil() {
    let mut world = World::new();
    let mut rng = StdRng::seed_from_u64(42);
    let keys = Controls { up: false, down: false, left: false, right: false, fire: true };
    world.tick(keys, pt(100_000, 0), 16_667, bounds(), &mut rng);
    assert_eq!(world.bubbles.len(), 1);
    assert!(world.bubbles[0].vel.x > 0);
    assert!(world.ship.unwrap().vel.x < 0);
}

#[test]
fn bubble_from_draws_exact() {
    let d = ShotDraws { spread: 0, speed: 150_000, hue: 10, radius: 7_000, lifetime: 1_200_000 };
    let (b, recoil) = bubble_from_draws(pt(0, 0), pt(100_000, 0), d).unwrap();
    assert_eq!(b.vel, pt(150_000, 0));
    assert_eq!(recoil, pt(5_000, 0));
    assert_eq!((b.hue, b.radius, b.remaining), (10, 7_000, 1_200_000));
    assert!(bubble_from_draws(pt(5, 5), pt(5, 5), d).is_none());
}

#[test]
fn no_shot_when_aiming_at_the_ship() {
    let mut ship = ship_at(1_000, 1_000, 0, 0, 100);
    let mut rng = StdRng::seed_from_u64(1);
    assert!(try_spawn_bubble(true, &mut ship, pt(1_000, 1_000), &mut rng).is_none());
    assert!(try_spawn_bubble(false, &mut ship, pt(9_000, 1_000), &mut rng).is_none());
    assert_eq!(ship.vel, pt(0, 0));
}

#[test]
fn shots_vary_with_the_generator() {
    let mut rng = StdRng::seed_from_u64(9);
    let mut radii = Vec::new();
    for _ in 0..20 {
        let mut ship = ship_at(0, 0, 0, 0, 100);
        let b = try_spawn_bubble(true, &mut ship, pt(0, 100_000), &mut rng).unwrap();
        assert!(b.radius >= 5_000 && b.radius <= 15_000);
        assert!(b.remaining >= 1_000_000 && b.remaining <= 2_000_000);
        assert!(b.vel.y > 0);
        radii.push(b.radius);
    }
    assert!(radii.iter().any(|r| *r != radii[0]));
}

#[test]
fn lifetime_expiry_removes_bubble() {
    let mut world = World::new();
    world.bubbles.push(Bubble { pos: pt(0, 0), vel: pt(0, 0), hue: 0, radius: 5_000, remaining: 1_000_000 });
    let mut rng = StdRng::seed_from_u64(5);
    world.tick(no_keys(), pt(0, 0), 999_999, bounds(), &mut rng);
    assert_eq!(world.bubbles.len(), 1);
    assert_eq!(world.bubbles[0].remaining, 1);
    world.tick(no_keys(), pt(0, 0), 1, bounds(), &mut rng);
    assert!(world.bubbles.is_empty());
}

#[test]
fn expiry_after_one_second() {
    let mut bubbles = vec![Bubble { pos: pt(0, 0), vel: pt(0, 0), hue: 0, radius: 5_000, remaining: 1_000_000 }];
    despawn_outside(&mut bubbles, bounds());
    assert_eq!(bubbles.len(), 1);
    expire_bubbles(&mut bubbles, 1_000_000);
    assert!(bubbles.is_empty());
}

#[test]
fn bubbles_outside_are_removed() {
    let mut bubbles = vec![bubble_at(400_001, 0), bubble_at(400_000, 300_000), bubble_at(0, -300_001)];
    despawn_outside(&mut bubbles, bounds());
    assert_eq!(bubbles.len(), 1);
    assert_eq!(bubbles[0].pos, pt(400_000, 300_000));
}

#[test]
fn replay_while_playing_does_nothing() {
    let mut world = World::new();
    world.ship = Some(ship_at(1_000, 2_000, 3, 4, 40));
    world.enemies.push(enemy_at(5, 5));
    world.replay();
    assert_eq!(world.state, GameState::Playing);
    assert_eq!(world.ship, Some(ship_at(1_000, 2_000, 3, 4, 40)));
    assert_eq!(world.enemies.len(), 1);
}

#[test]
fn replay_after_game_over_starts_fresh() {
    let mut world = World::new();
    world.ship = Some(ship_at(0, 0, 0, 0, 0));
    world.check_game_over();
    assert_eq!(world.state, GameState::GameOver);
    world.replay();
    assert_eq!(world.state, GameState::Playing);
    assert_eq!(world.ship, Some(ship_at(0, 0, 0, 0, 100)));
    assert!(world.bubbles.is_empty() && world.enemies.is_empty());
}

#[test]
fn tick_after_game_over_changes_nothing() {
    let mut world = World::new();
    world.ship = Some(ship_at(0, 0, 0, 0, -1));
    world.check_game_over();
    let mut rng = StdRng::seed_from_u64(2);
    world.tick(no_keys(), pt(0, 0), 5_000_000 / 5, bounds(), &mut rng);
    assert_eq!(world.state, GameState::GameOver);
    assert!(world.ship.is_none() && world.enemies.is_empty());
}

#[test]
fn spawn_timer_counts_down_and_restarts() {
    assert_eq!(tick_spawn_timer(3_000_000, 16_667), (2_983_333, false));
    assert_eq!(tick_spawn_timer(10, 16_667), (2_983_343, true));
    assert_eq!(tick_spawn_timer(1_000_000, 7_000_000), (1, true));
    assert_eq!(tick_spawn_timer(16_667, 16_667), (3_000_000, true));
    assert_eq!(tick_spawn_timer(1_000_000, 2_000_000), (2_000_000, true));
}

#[test]
fn enemy_spawns_inside_bounds() {
    let mut rng = StdRng::seed_from_u64(11);
    let mut timer: i64 = 1;
    let e = try_spawn_enemy(&mut timer, 16_667, bounds(), &mut rng).unwrap();
    assert_eq!(timer, 2_983_334);
    assert_eq!(e.health, 100);
    assert_eq!(e.variant, EnemyVariant::Floater);
    assert!(e.pos.x.abs() <= 400_000 && e.pos.y.abs() <= 300_000);
    assert!(e.vel.x.abs() <= 50_000 && e.vel.y.abs() <= 50_000);
    assert!(try_spawn_enemy(&mut timer, 16_667, bounds(), &mut rng).is_none());
    assert_eq!(timer, 2_966_667);
}

#[test]
fn enemy_from_draws_exact() {
    let e = enemy_from_draws(EnemyDraws { x: 1, y: 2, vx: 3, vy: 4 });
    assert_eq!(e, Enemy { pos: pt(1, 2), vel: pt(3, 4), health: 100, variant: EnemyVariant::Floater });
}

#[test]
fn world_spawns_enemy_every_three_seconds() {
    let mut world = World::new();
    let mut rng = StdRng::seed_from_u64(8);
    world.tick(no_keys(), pt(0, 0), 2_999_999, bounds(), &mut rng);
    assert!(world.enemies.is_empty());
    world.tick(no_keys(), pt(0, 0), 1, bounds(), &mut rng);
    assert_eq!(world.enemies.len(), 1);
}

#[test]
fn sine_and_cosine_values() {
    assert_eq!(sin_cos(0), (0, 1_000_000));
    assert_eq!(sin_cos(300), (295_520, 955_336));
    assert_eq!(sin_cos(-300), (-295_520, 955_336));
}

#[test]
fn arithmetic_helpers() {
    assert_eq!(ceil_sqrt(0), 0);
    assert_eq!(ceil_sqrt(10), 4);
    assert_eq!(ceil_sqrt(16), 4);
    assert_eq!(div_toward_zero(-7, 2), -3);
    assert_eq!(mul_div(-7, 3, 4), -5);
    assert_eq!(unit_vector(pt(0, 0), pt(0, -3)), Some((0, -1_000_000)));
    assert_eq!(unit_vector(pt(1, 1), pt(1, 1)), None);
}

#[test]
fn bubble_drawing() {
    let shapes = bubble_sprites(&bubble_at(0, 0));
    assert_eq!(shapes.len(), 4);
    assert_eq!(shapes[0], Shape::Circle { center: pt(0, 0), radius: 12_000, paint: Paint::Pastel { hue: 120, alpha: 200 } });
    assert_eq!(shapes[2], Shape::Circle { center: pt(-2_000, 2_000), radius: 4_000, paint: Paint::Rgba { r: 1000, g: 1000, b: 1000, a: 300 } });
    assert_eq!(shapes[3], Shape::Circle { center: pt(-1_000, 1_000), radius: 2_000, paint: Paint::Rgba { r: 1000, g: 1000, b: 1000, a: 500 } });
}

#[test]
fn enemy_and_border_drawing() {
    let e = enemy_sprite(&enemy_at(5, 6));
    assert_eq!(e, Shape::Circle { center: pt(5, 6), radius: 20_000, paint: Paint::Rgba { r: 1000, g: 0, b: 0, a: 1000 } });
    let s = enemy_sprite(&Enemy { pos: pt(0, 0), vel: pt(0, 0), health: 100, variant: EnemyVariant::Seeker });
    assert!(matches!(s, Shape::Path { a, .. } if a == pt(0, 20_000)));
    let b = border_sprite(bounds());
    assert!(matches!(b, Shape::Rect { width: 750_000, height: 550_000, .. }));
}

#[test]
fn ship_drawing_and_shade() {
    assert_eq!(health_shade(-5), 0);
    assert_eq!(health_shade(150), 100);
    assert_eq!(health_shade(42), 42);
    let shapes = ship_sprites(&ship_at(0, 0, 0, 0, 50), pt(100_000, 0));
    let paint = Paint::Rgba { r: 1000, g: 500, b: 500, a: 1000 };
    assert_eq!(shapes[0], Shape::Circle { center: pt(0, 0), radius: 15_000, paint });
    assert_eq!(shapes[1], Shape::Segment { from: pt(5_000, 0), to: pt(25_000, 0), paint });
    assert_eq!(ship_sprites(&ship_at(0, 0, 0, 0, 50), pt(0, 0)).len(), 1);
}

#[test]
fn frame_lists_everything() {
    let ship = Some(ship_at(0, 0, 0, 0, 100));
    let shapes = frame_sprites(&ship, pt(0, 50_000), bounds(), &vec![bubble_at(1, 1)], &vec![enemy_at(2, 2)]);
    assert_eq!(shapes.len(), 1 + 2 + 4 + 1);
}

#[test]
fn aim_defaults_to_origin() {
    assert_eq!(aim_target(None), pt(0, 0));
    assert_eq!(aim_target(Some((5, -5))), pt(5, -5));
    assert_eq!(aim_target(Some((i64::MAX, i64::MIN))), pt(1_000_000_000, -1_000_000_000));
    assert_eq!(Bounds::from_size(800_000, 600_000), bounds());
    assert_eq!(Bounds::from_size(-3, 5), Bounds { half_width: 0, half_height: 2 });
}

#[test]
fn short_vectors_normalise_to_unit_length() {
    assert_eq!(unit_vector(pt(0, 0), pt(1, 1)), Some((707_106, 707_106)));
    assert_eq!(unit_vector(pt(0, 0), pt(-1, 0)), Some((-1_000_000, 0)));
}

#[test]
fn border_push_near_the_centre_has_full_strength() {
    let mut ship = ship_at(1, 1, 10, 10, 100);
    apply_border(&mut ship, Bounds { half_width: 10, half_height: 10 });
    assert_eq!(ship.health, 90);
    assert_eq!(ship.vel, pt(10 - 353_553, 10 - 353_553));
}

#[test]
fn damage_adds_up_over_two_passes() {
    let mut bubbles = vec![bubble_at(0, 0)];
    let mut enemies = vec![enemy_at(0, 5_000)];
    resolve_collisions(&mut bubbles, &mut enemies);
    assert_eq!(enemies[0].health, 75);
    let mut more = vec![bubble_at(1_000, 0), bubble_at(2_000, 0)];
    resolve_collisions(&mut more, &mut enemies);
    assert_eq!(enemies[0].health, 25);
    assert!(more.is_empty());
}
