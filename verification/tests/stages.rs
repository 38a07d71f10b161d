use rusty_ai::ai::{nearest_enemy, squared_distance, steer, wander, AI};
use rusty_ai::commands::CommandQueue;
use rusty_ai::components::{
    AIControlled, Counter, Direction, Enemy, Hero, Position, Rect, Telemetry, Velocity,
};
use rusty_ai::config::{Config, ConfigError, Settings};
use rusty_ai::enemy_collider_purger::EnemyColliderPurger;
use rusty_ai::enemy_oob_purger::EnemyOOBPurger;
use rusty_ai::enemy_spawner::{enemy_bundle, EnemySpawner};
use rusty_ai::physics::{step, Physics};
use rusty_ai::purge::{dooms, sweep, Purge};
use rusty_ai::world::{Anomaly, Bundle, Entity, World};

fn settings() -> Settings {
    Settings {
        arena_width: 600,
        arena_height: 600,
        spawn_extent: 200,
        max_enemies: 3,
        hero_speed: 3,
        enemy_speed: 8,
        hero_width: 26,
        hero_height: 36,
        enemy_width: 32,
        enemy_height: 36,
    }
}

fn config() -> Config {
    Config::new(settings()).unwrap()
}

fn still() -> Velocity {
    Velocity { speed: 0, direction: Direction::Right }
}

fn enemy_at(world: &mut World, x: i32, y: i32) -> Entity {
    let mut bundle = Bundle::new();
    bundle.enemy = Some(Enemy);
    bundle.position = Some(Position { x, y });
    world.create(bundle).unwrap()
}

fn wanderer_at(world: &mut World, x: i32, y: i32, velocity: Velocity) -> Entity {
    let mut bundle = Bundle::new();
    bundle.ai_controlled = Some(AIControlled);
    bundle.enemy = Some(Enemy);
    bundle.position = Some(Position { x, y });
    bundle.velocity = Some(velocity);
    world.create(bundle).unwrap()
}

fn hero_at(world: &mut World, x: i32, y: i32, velocity: Velocity) -> Entity {
    let mut bundle = Bundle::new();
    bundle.ai_controlled = Some(AIControlled);
    bundle.hero = Some(Hero);
    bundle.position = Some(Position { x, y });
    bundle.velocity = Some(velocity);
    world.create(bundle).unwrap()
}

fn counters(world: &mut World) -> Entity {
    let mut bundle = Bundle::new();
    bundle.telemetry = Some(Telemetry::new());
    world.create(bundle).unwrap()
}

#[test]
fn hero_pursues_the_nearest_enemy() {
    let mut world = World::new();
    let hero = hero_at(&mut world, 0, 0, still());
    enemy_at(&mut world, 5, 2);
    enemy_at(&mut world, -1, -1);
    AI.run(&mut world, &config());
    assert_eq!(
        world.get::<Velocity>(hero),
        Some(&Velocity { speed: 1, direction: Direction::Left })
    );
}

#[test]
fn hero_halts_on_a_colocated_enemy() {
    let mut world = World::new();
    let hero = hero_at(&mut world, 0, 0, Velocity { speed: 3, direction: Direction::Up });
    enemy_at(&mut world, 0, 0);
    AI.run(&mut world, &config());
    assert_eq!(
        world.get::<Velocity>(hero),
        Some(&Velocity { speed: 0, direction: Direction::Up })
    );
}

#[test]
fn hero_halts_without_enemies() {
    let mut world = World::new();
    let hero = hero_at(&mut world, 7, -3, Velocity { speed: 2, direction: Direction::Down });
    AI.run(&mut world, &config());
    assert_eq!(
        world.get::<Velocity>(hero),
        Some(&Velocity { speed: 0, direction: Direction::Down })
    );
}

#[test]
fn hero_speed_is_capped_and_follows_the_dominant_axis() {
    let origin = Position { x: 0, y: 0 };
    let right = steer(origin, Some(Position { x: 10, y: 3 }), still(), 3);
    assert_eq!(right, Velocity { speed: 3, direction: Direction::Right });
    let left = steer(origin, Some(Position { x: -2, y: 1 }), still(), 3);
    assert_eq!(left, Velocity { speed: 2, direction: Direction::Left });
    let up = steer(origin, Some(Position { x: 1, y: -5 }), still(), 3);
    assert_eq!(up, Velocity { speed: 3, direction: Direction::Up });
    let down = steer(origin, Some(Position { x: 0, y: 2 }), still(), 3);
    assert_eq!(down, Velocity { speed: 2, direction: Direction::Down });
    let tie = steer(origin, Some(Position { x: 4, y: -4 }), still(), 3);
    assert_eq!(tie, Velocity { speed: 3, direction: Direction::Right });
}

#[test]
fn steering_survives_the_widest_distances() {
    let far_left = Position { x: i32::MIN, y: i32::MIN };
    let far_right = Position { x: i32::MAX, y: i32::MAX };
    let v = steer(far_left, Some(far_right), still(), i32::MAX);
    assert_eq!(v, Velocity { speed: i32::MAX, direction: Direction::Right });
    assert_eq!(squared_distance(far_left, far_right), 2 * (u32::MAX as u128) * (u32::MAX as u128));
}

#[test]
fn squared_distance_is_exact() {
    let a = Position { x: 0, y: 0 };
    assert_eq!(squared_distance(a, Position { x: 5, y: 2 }), 29);
    assert_eq!(squared_distance(a, Position { x: -1, y: -1 }), 2);
    assert_eq!(squared_distance(a, a), 0);
}

#[test]
fn nearest_enemy_prefers_the_first_of_equals() {
    let mut world = World::new();
    hero_at(&mut world, 0, 0, still());
    enemy_at(&mut world, 3, 0);
    enemy_at(&mut world, 0, 3);
    enemy_at(&mut world, -3, 0);
    assert_eq!(nearest_enemy(&world, Position { x: 0, y: 0 }), Some(1));
    assert_eq!(nearest_enemy(&world, Position { x: -2, y: 0 }), Some(3));
    assert_eq!(nearest_enemy(&World::new(), Position { x: 0, y: 0 }), None);
}

#[test]
fn an_enemy_without_position_is_no_target() {
    let mut world = World::new();
    let mut bundle = Bundle::new();
    bundle.enemy = Some(Enemy);
    world.create(bundle).unwrap();
    assert_eq!(nearest_enemy(&world, Position { x: 0, y: 0 }), None);
}

#[test]
fn wander_follows_the_draws() {
    let momentum = Velocity { speed: 2, direction: Direction::Left };
    assert_eq!(wander(momentum, 0, 0, 8), Velocity { speed: 8, direction: Direction::Up });
    assert_eq!(wander(momentum, 0, 1, 8), Velocity { speed: 8, direction: Direction::Down });
    assert_eq!(wander(momentum, 0, 2, 8), Velocity { speed: 8, direction: Direction::Left });
    assert_eq!(wander(momentum, 0, 3, 8), Velocity { speed: 8, direction: Direction::Right });
    assert_eq!(wander(momentum, 1, 3, 8), momentum);
}

#[test]
fn wandering_enemies_keep_their_momentum_or_take_the_wandering_speed() {
    let momentum = Velocity { speed: 2, direction: Direction::Left };
    let mut resampled = 0;
    let mut kept = 0;
    for _ in 0..200 {
        let mut world = World::new();
        let enemy = wanderer_at(&mut world, 10, 10, momentum);
        AI.run(&mut world, &config());
        let after = *world.get::<Velocity>(enemy).unwrap();
        if after == momentum {
            kept += 1;
        } else {
            assert_eq!(after.speed, 8);
            resampled += 1;
        }
    }
    assert!(kept > 0);
    assert!(resampled > 0);
}

#[test]
fn the_ai_stage_leaves_other_rows_alone() {
    let mut world = World::new();
    let bystander = enemy_at(&mut world, 1, 1);
    let mut bundle = Bundle::new();
    bundle.hero = Some(Hero);
    bundle.position = Some(Position { x: 0, y: 0 });
    bundle.velocity = Some(Velocity { speed: 5, direction: Direction::Up });
    let uncontrolled = world.create(bundle).unwrap();
    AI.run(&mut world, &config());
    assert_eq!(world.len(), 2);
    assert_eq!(world.get::<Position>(bystander), Some(&Position { x: 1, y: 1 }));
    assert_eq!(world.get::<Velocity>(bystander), None);
    assert_eq!(
        world.get::<Velocity>(uncontrolled),
        Some(&Velocity { speed: 5, direction: Direction::Up })
    );
}

#[test]
fn out_of_bounds_enemies_are_queued_and_counted() {
    let mut world = World::new();
    counters(&mut world);
    let outside = enemy_at(&mut world, 301, 0);
    let border = enemy_at(&mut world, 300, 0);
    let mut queue = CommandQueue::new();
    EnemyOOBPurger.run(&mut world, &mut queue, &config());
    assert!(queue.is_queued(outside));
    assert!(!queue.is_queued(border));
    assert!(world.is_alive(outside));
    assert_eq!(world.telemetry().unwrap().enemy_oob, 1);
    queue.apply(&mut world);
    assert!(!world.is_alive(outside));
    assert!(world.is_alive(border));
    assert_eq!(
        world.telemetry(),
        Some(Telemetry { enemy_collisions: 0, enemy_oob: 1, enemy_spawned: 0 })
    );
}

#[test]
fn the_arena_border_is_inside_on_every_side() {
    let config = config();
    for (x, y, inside) in [
        (300, 300, true),
        (-300, -300, true),
        (-301, 0, false),
        (0, 301, false),
        (0, -301, false),
        (301, 0, false),
        (0, 0, true),
    ] {
        assert_eq!(config.in_bounds(Position { x, y }), inside);
    }
}

#[test]
fn odd_arena_sizes_round_the_half_down() {
    let mut odd = settings();
    odd.arena_width = 601;
    odd.arena_height = 401;
    let config = Config::new(odd).unwrap();
    assert!(config.in_bounds(Position { x: 300, y: 200 }));
    assert!(!config.in_bounds(Position { x: 301, y: 0 }));
    assert!(!config.in_bounds(Position { x: 0, y: -201 }));
}

#[test]
fn colliding_enemies_are_queued_and_counted() {
    let mut world = World::new();
    counters(&mut world);
    hero_at(&mut world, 0, 0, still());
    let first = enemy_at(&mut world, 10, 10);
    let second = enemy_at(&mut world, -5, -5);
    let far = enemy_at(&mut world, 100, 100);
    let mut queue = CommandQueue::new();
    EnemyColliderPurger.run(&mut world, &mut queue, &config());
    queue.apply(&mut world);
    assert!(!world.is_alive(first));
    assert!(!world.is_alive(second));
    assert!(world.is_alive(far));
    assert_eq!(
        world.telemetry(),
        Some(Telemetry { enemy_collisions: 2, enemy_oob: 0, enemy_spawned: 0 })
    );
}

#[test]
fn boxes_that_share_an_edge_collide() {
    let mut world = World::new();
    hero_at(&mut world, 0, 0, still());
    enemy_at(&mut world, 26, 0);
    enemy_at(&mut world, 27, 0);
    enemy_at(&mut world, -32, 0);
    enemy_at(&mut world, -33, 0);
    enemy_at(&mut world, 0, 36);
    enemy_at(&mut world, 0, 37);
    enemy_at(&mut world, 26, -36);
    enemy_at(&mut world, 26, -37);
    let config = config();
    let hits: Vec<bool> = (1..9).map(|i| EnemyColliderPurger::dooms(&world, i, &config)).collect();
    assert_eq!(hits, vec![true, false, true, false, true, false, true, false]);
    assert!(!EnemyColliderPurger::dooms(&world, 0, &config));
}

#[test]
fn rectangles_overlap_with_their_borders() {
    let a = Rect { x: 0, y: 0, width: 5, height: 5 };
    assert!(a.intersects(&a));
    assert!(a.intersects(&Rect { x: 2, y: 2, width: 5, height: 5 }));
    assert!(a.intersects(&Rect { x: 5, y: 0, width: 5, height: 5 }));
    assert!(a.intersects(&Rect { x: 5, y: 5, width: 1, height: 1 }));
    assert!(!a.intersects(&Rect { x: 6, y: 0, width: 5, height: 5 }));
    assert!(!a.intersects(&Rect { x: 0, y: -7, width: 5, height: 1 }));
    let wide = Rect { x: i32::MAX, y: i32::MAX, width: u32::MAX, height: u32::MAX };
    assert!(wide.intersects(&wide));
    assert!(!a.intersects(&wide));
    assert_eq!(Rect::at(Position { x: 3, y: -4 }, 7, 9), Rect { x: 3, y: -4, width: 7, height: 9 });
}

#[test]
fn there_is_no_collision_without_a_hero() {
    let mut world = World::new();
    counters(&mut world);
    let enemy = enemy_at(&mut world, 0, 0);
    let mut queue = CommandQueue::new();
    EnemyColliderPurger.run(&mut world, &mut queue, &config());
    assert!(!queue.is_queued(enemy));
    assert_eq!(world.telemetry(), Some(Telemetry::new()));
}

#[test]
fn an_enemy_that_meets_both_conditions_counts_once() {
    let mut world = World::new();
    counters(&mut world);
    hero_at(&mut world, 290, 0, still());
    let enemy = enemy_at(&mut world, 305, 0);
    let mut queue = CommandQueue::new();
    let config = config();
    EnemyOOBPurger.run(&mut world, &mut queue, &config);
    EnemyColliderPurger.run(&mut world, &mut queue, &config);
    assert!(queue.is_queued(enemy));
    assert_eq!(
        world.telemetry(),
        Some(Telemetry { enemy_collisions: 0, enemy_oob: 1, enemy_spawned: 0 })
    );
    queue.apply(&mut world);
    assert!(!world.is_alive(enemy));
    assert_eq!(world.len(), 2);
}

#[test]
fn a_sweep_counts_by_its_reason() {
    assert_eq!(Purge::OutOfBounds.counted_by(), Counter::EnemyOob);
    assert_eq!(Purge::Collision.counted_by(), Counter::EnemyCollisions);
    let mut world = World::new();
    counters(&mut world);
    hero_at(&mut world, 0, 0, still());
    enemy_at(&mut world, 1, 1);
    enemy_at(&mut world, 500, 0);
    let config = config();
    assert!(dooms(&world, 2, &config, Purge::Collision));
    assert!(!dooms(&world, 2, &config, Purge::OutOfBounds));
    assert!(dooms(&world, 3, &config, Purge::OutOfBounds));
    assert!(!dooms(&world, 3, &config, Purge::Collision));
    assert!(!dooms(&world, 1, &config, Purge::Collision));
    let mut queue = CommandQueue::new();
    sweep(&mut world, &mut queue, &config, Purge::Collision);
    sweep(&mut world, &mut queue, &config, Purge::Collision);
    assert_eq!(
        world.telemetry(),
        Some(Telemetry { enemy_collisions: 1, enemy_oob: 0, enemy_spawned: 0 })
    );
}

#[test]
fn purging_without_a_telemetry_row_logs_the_anomaly() {
    let mut world = World::new();
    let enemy = enemy_at(&mut world, 1000, 0);
    let mut queue = CommandQueue::new();
    EnemyOOBPurger.run(&mut world, &mut queue, &config());
    assert!(queue.is_queued(enemy));
    assert_eq!(world.telemetry(), None);
    assert_eq!(world.anomalies(), &vec![Anomaly::TelemetryMissing(Counter::EnemyOob)]);
    queue.apply(&mut world);
    assert_eq!(world.len(), 0);
    assert_eq!(world.telemetry(), None);
}

#[test]
fn the_spawner_stops_at_the_cap() {
    let mut world = World::new();
    counters(&mut world);
    enemy_at(&mut world, 0, 0);
    enemy_at(&mut world, 1, 0);
    let config = config();
    assert!(EnemySpawner::has_room(&world, &config));
    enemy_at(&mut world, 2, 0);
    assert!(!EnemySpawner::has_room(&world, &config));
    let mut queue = CommandQueue::new();
    EnemySpawner.run(&mut world, &mut queue, &config);
    queue.apply(&mut world);
    assert_eq!(world.enemy_count(), 3);
    assert_eq!(world.len(), 4);
    assert_eq!(world.telemetry(), Some(Telemetry::new()));
}

#[test]
fn the_spawner_queues_one_enemy_inside_the_spawn_region() {
    for _ in 0..100 {
        let mut world = World::new();
        counters(&mut world);
        let mut queue = CommandQueue::new();
        EnemySpawner.run(&mut world, &mut queue, &config());
        assert_eq!(world.len(), 1);
        assert_eq!(world.enemy_count(), 0);
        assert_eq!(world.telemetry().unwrap().enemy_spawned, 1);
        queue.apply(&mut world);
        assert_eq!(world.len(), 2);
        assert_eq!(world.enemy_count(), 1);
        let spawned = &world.row(1).components;
        let position = spawned.position.unwrap();
        assert!(-200 <= position.x && position.x < 200);
        assert!(-200 <= position.y && position.y < 200);
        assert_eq!(spawned.velocity, Some(still()));
        assert!(spawned.ai_controlled.is_some() && spawned.enemy.is_some());
        assert!(spawned.hero.is_none() && spawned.telemetry.is_none());
    }
}

#[test]
fn spawn_positions_vary() {
    let mut seen = Vec::new();
    for _ in 0..50 {
        let mut world = World::new();
        let mut queue = CommandQueue::new();
        EnemySpawner.run(&mut world, &mut queue, &config());
        queue.apply(&mut world);
        seen.push(world.row(0).components.position.unwrap());
    }
    assert!(seen.iter().any(|p| *p != seen[0]));
}

#[test]
fn spawning_without_a_telemetry_row_logs_the_anomaly() {
    let mut world = World::new();
    let mut queue = CommandQueue::new();
    EnemySpawner::spawn(&mut world, &mut queue, Position { x: 4, y: 5 });
    assert_eq!(world.anomalies(), &vec![Anomaly::TelemetryMissing(Counter::EnemySpawned)]);
    queue.apply(&mut world);
    assert_eq!(world.row(0).components.position, Some(Position { x: 4, y: 5 }));
    assert_eq!(world.telemetry(), None);
}

#[test]
fn a_new_enemy_carries_its_first_frame() {
    let bundle = enemy_bundle(Position { x: -7, y: 9 });
    assert_eq!(bundle.position, Some(Position { x: -7, y: 9 }));
    assert_eq!(bundle.velocity, Some(still()));
    assert!(bundle.keyboard_controlled.is_none());
    let sprite = bundle.sprite.unwrap();
    assert_eq!(sprite.spritesheet, 1);
    assert_eq!(sprite.region, Rect { x: 0, y: 72, width: 32, height: 36 });
    let animation = bundle.animation.unwrap();
    assert_eq!(animation.current_frame, 0);
    assert_eq!(animation.right_frames[0], sprite);
}

#[test]
fn settings_are_validated_in_order() {
    assert!(Config::new(settings()).is_ok());
    assert_eq!(Config::new(settings()).unwrap().settings(), settings());
    let mut s = settings();
    s.spawn_extent = 0;
    s.max_enemies = 0;
    assert_eq!(Config::new(s).err(), Some(ConfigError::InvalidBounds));
    let mut s = settings();
    s.spawn_extent = 301;
    assert_eq!(Config::new(s).err(), Some(ConfigError::InvalidBounds));
    let mut s = settings();
    s.arena_height = 399;
    assert_eq!(Config::new(s).err(), Some(ConfigError::InvalidBounds));
    let mut s = settings();
    s.spawn_extent = 300;
    assert!(Config::new(s).is_ok());
    let mut s = settings();
    s.max_enemies = 0;
    s.hero_speed = -1;
    assert_eq!(Config::new(s).err(), Some(ConfigError::NonPositiveCap));
    let mut s = settings();
    s.hero_speed = -1;
    assert_eq!(Config::new(s).err(), Some(ConfigError::NegativeSpeed));
    let mut s = settings();
    s.enemy_speed = -1;
    assert_eq!(Config::new(s).err(), Some(ConfigError::NegativeSpeed));
    let mut s = settings();
    s.arena_width = 0;
    assert_eq!(Config::new(s).err(), Some(ConfigError::InvalidBounds));
}

#[test]
fn the_standard_configuration() {
    let s = Config::standard().settings();
    assert_eq!((s.arena_width, s.arena_height), (800, 600));
    assert_eq!((rusty_ai::WORLD_WIDTH, rusty_ai::WORLD_HEIGHT), (800, 600));
    assert_eq!(s.spawn_extent, 200);
    assert_eq!(s.max_enemies, 50);
    assert_eq!((s.hero_speed, s.enemy_speed), (3, 8));
    assert_eq!((s.enemy_width, s.enemy_height), (32, 36));
    assert_eq!((s.hero_width, s.hero_height), (26, 36));
    assert!(Config::new(s).is_ok());
}

#[test]
fn a_step_moves_along_the_direction() {
    let at = Position { x: 10, y: -10 };
    let go = |direction| step(at, Velocity { speed: 3, direction });
    assert_eq!(go(Direction::Left), Position { x: 7, y: -10 });
    assert_eq!(go(Direction::Right), Position { x: 13, y: -10 });
    assert_eq!(go(Direction::Up), Position { x: 10, y: -13 });
    assert_eq!(go(Direction::Down), Position { x: 10, y: -7 });
    assert_eq!(step(at, still()), at);
}

#[test]
fn a_step_stops_at_the_last_coordinate() {
    let corner = Position { x: i32::MAX, y: i32::MIN };
    let fast = |direction| Velocity { speed: i32::MAX, direction };
    assert_eq!(step(corner, fast(Direction::Right)), corner);
    assert_eq!(step(corner, fast(Direction::Up)), corner);
    assert_eq!(step(corner, fast(Direction::Left)), Position { x: 0, y: i32::MIN });
    assert_eq!(step(corner, fast(Direction::Down)), Position { x: i32::MAX, y: -1 });
    let back = Velocity { speed: i32::MIN, direction: Direction::Left };
    assert_eq!(step(Position { x: 5, y: 0 }, back), Position { x: i32::MAX, y: 0 });
}

#[test]
fn physics_moves_what_has_a_position_and_a_velocity() {
    let mut world = World::new();
    let walker = wanderer_at(&mut world, 0, 0, Velocity { speed: 8, direction: Direction::Down });
    let statue = enemy_at(&mut world, 4, 4);
    let mut ghost = Bundle::new();
    ghost.velocity = Some(Velocity { speed: 8, direction: Direction::Down });
    let ghost = world.create(ghost).unwrap();
    Physics.run(&mut world);
    Physics.run(&mut world);
    assert_eq!(world.get::<Position>(walker), Some(&Position { x: 0, y: 16 }));
    assert_eq!(world.get::<Position>(statue), Some(&Position { x: 4, y: 4 }));
    assert_eq!(world.get::<Position>(ghost), None);
    assert_eq!(world.len(), 3);
}

#[test]
fn a_pursuing_hero_reaches_its_enemy_and_stays() {
    let mut world = World::new();
    let hero = hero_at(&mut world, 0, 0, still());
    enemy_at(&mut world, 7, -5);
    let config = config();
    let mut path = Vec::new();
    for _ in 0..6 {
        AI.run(&mut world, &config);
        Physics.run(&mut world);
        path.push(*world.get::<Position>(hero).unwrap());
    }
    let at = |x, y| Position { x, y };
    assert_eq!(path, vec![at(3, 0), at(3, -3), at(6, -3), at(6, -5), at(7, -5), at(7, -5)]);
    assert_eq!(world.get::<Velocity>(hero).unwrap().speed, 0);
}
