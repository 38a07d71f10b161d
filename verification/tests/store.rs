use rusty_ai::commands::CommandQueue;
use rusty_ai::components::{
    AIControlled, Counter, Direction, Enemy, Hero, KeyboardControlled, MovementAnimation,
    Position, Rect, Sprite, Telemetry, Velocity,
};
use rusty_ai::world::{Anomaly, Bundle, Entity, Signature, World};
use rusty_ai::MovementCommand;

fn enemy_at(world: &mut World, x: i32, y: i32) -> Entity {
    let mut bundle = Bundle::new();
    bundle.enemy = Some(Enemy);
    bundle.position = Some(Position { x, y });
    world.create(bundle).unwrap()
}

#[test]
fn a_new_store_is_empty() {
    let world = World::new();
    assert_eq!(world.len(), 0);
    assert_eq!(world.enemy_count(), 0);
    assert_eq!(world.telemetry(), None);
    assert_eq!(world.telemetry_index(), None);
    assert_eq!(world.movement_command(), None);
    assert!(world.anomalies().is_empty());
    assert!(!world.is_alive(Entity { id: 0 }));
}

#[test]
fn identifiers_are_never_reused() {
    let mut world = World::new();
    let a = world.create(Bundle::new()).unwrap();
    let b = world.create(Bundle::new()).unwrap();
    assert_eq!((a, b), (Entity { id: 0 }, Entity { id: 1 }));
    assert!(world.destroy(b));
    assert!(world.destroy(a));
    let c = world.create(Bundle::new()).unwrap();
    assert_eq!(c, Entity { id: 2 });
    assert_eq!(world.len(), 1);
    assert_eq!(world.entity_at(0), c);
    assert_eq!(world.find(c), Some(0));
    assert_eq!(world.find(a), None);
}

#[test]
fn destroying_twice_is_destroying_once() {
    let mut world = World::new();
    let a = enemy_at(&mut world, 0, 0);
    let b = enemy_at(&mut world, 1, 1);
    assert!(world.destroy(a));
    assert!(!world.destroy(a));
    assert_eq!(world.len(), 1);
    assert!(world.is_alive(b));
    assert_eq!(world.get::<Position>(b), Some(&Position { x: 1, y: 1 }));
}

#[test]
fn a_queue_destroys_an_entity_once() {
    let mut once = World::new();
    let mut twice = World::new();
    let mut queue_once = CommandQueue::new();
    let mut queue_twice = CommandQueue::new();
    for world in [&mut once, &mut twice] {
        enemy_at(world, 0, 0);
        enemy_at(world, 1, 1);
        enemy_at(world, 2, 2);
    }
    let doomed = Entity { id: 1 };
    assert!(queue_once.queue_destroy(doomed));
    assert!(queue_twice.queue_destroy(doomed));
    assert!(!queue_twice.queue_destroy(doomed));
    queue_once.apply(&mut once);
    queue_twice.apply(&mut twice);
    assert_eq!(once.len(), 2);
    assert_eq!(twice.len(), 2);
    for i in 0..2 {
        assert_eq!(once.entity_at(i), twice.entity_at(i));
        assert_eq!(once.row(i).components.position, twice.row(i).components.position);
    }
    assert!(!twice.is_alive(doomed));
}

#[test]
fn destroying_a_dead_entity_through_the_queue_changes_nothing() {
    let mut world = World::new();
    let a = enemy_at(&mut world, 0, 0);
    let mut queue = CommandQueue::new();
    assert!(queue.queue_destroy(Entity { id: 77 }));
    queue.apply(&mut world);
    assert_eq!(world.len(), 1);
    assert!(world.is_alive(a));
    assert!(world.anomalies().is_empty());
}

#[test]
fn a_queue_destroys_before_it_creates() {
    let mut world = World::new();
    let a = enemy_at(&mut world, 0, 0);
    let b = enemy_at(&mut world, 1, 1);
    let mut queue = CommandQueue::new();
    let mut first = Bundle::new();
    first.position = Some(Position { x: 10, y: 10 });
    let mut second = Bundle::new();
    second.position = Some(Position { x: 20, y: 20 });
    queue.queue_create(first);
    assert!(queue.queue_destroy(a));
    queue.queue_create(second);
    assert!(queue.is_queued(a));
    assert!(!queue.is_queued(b));
    queue.apply(&mut world);
    assert_eq!(world.len(), 3);
    assert_eq!(world.entity_at(0), b);
    assert_eq!(world.entity_at(1), Entity { id: 2 });
    assert_eq!(world.entity_at(2), Entity { id: 3 });
    assert_eq!(world.row(1).components.position, Some(Position { x: 10, y: 10 }));
    assert_eq!(world.row(2).components.position, Some(Position { x: 20, y: 20 }));
}

#[test]
fn components_are_read_attached_and_detached_by_type() {
    let mut world = World::new();
    let e = world.create(Bundle::new()).unwrap();
    assert_eq!(world.get::<Position>(e), None);
    assert!(world.insert(e, Position { x: 1, y: 2 }));
    assert!(world.insert(e, Velocity { speed: 4, direction: Direction::Down }));
    assert!(world.insert(e, Enemy));
    assert!(world.insert(e, Hero));
    assert!(world.insert(e, AIControlled));
    assert!(world.insert(e, KeyboardControlled));
    assert!(world.insert(e, Telemetry { enemy_collisions: 1, enemy_oob: 2, enemy_spawned: 3 }));
    let sprite = Sprite { spritesheet: 1, region: Rect { x: 0, y: 0, width: 2, height: 3 } };
    assert!(world.insert(e, sprite));
    assert!(world.insert(
        e,
        MovementAnimation {
            current_frame: 2,
            up_frames: vec![sprite],
            down_frames: vec![],
            left_frames: vec![],
            right_frames: vec![sprite, sprite],
        }
    ));
    assert_eq!(world.get::<Position>(e), Some(&Position { x: 1, y: 2 }));
    assert_eq!(
        world.get::<Velocity>(e),
        Some(&Velocity { speed: 4, direction: Direction::Down })
    );
    assert_eq!(world.get::<Enemy>(e), Some(&Enemy));
    assert_eq!(world.get::<Hero>(e), Some(&Hero));
    assert_eq!(world.get::<AIControlled>(e), Some(&AIControlled));
    assert_eq!(world.get::<KeyboardControlled>(e), Some(&KeyboardControlled));
    assert_eq!(world.get::<Sprite>(e), Some(&sprite));
    assert_eq!(world.get::<MovementAnimation>(e).unwrap().right_frames.len(), 2);
    assert_eq!(world.get::<MovementAnimation>(e).unwrap().current_frame, 2);
    assert_eq!(world.telemetry().unwrap().enemy_spawned, 3);
    assert!(world.insert(e, Position { x: 9, y: 9 }));
    assert_eq!(world.remove::<Position>(e), Some(Position { x: 9, y: 9 }));
    assert_eq!(world.remove::<Position>(e), None);
    assert_eq!(world.get::<Position>(e), None);
    assert_eq!(world.remove::<Enemy>(e), Some(Enemy));
    assert_eq!(world.enemy_count(), 0);
    assert_eq!(
        world.get::<Velocity>(e),
        Some(&Velocity { speed: 4, direction: Direction::Down })
    );
    assert!(world.remove::<MovementAnimation>(e).is_some());
    assert!(world.get::<MovementAnimation>(e).is_none());
}

#[test]
fn a_dead_entity_holds_no_components() {
    let mut world = World::new();
    let e = enemy_at(&mut world, 0, 0);
    world.destroy(e);
    assert!(!world.insert(e, Position { x: 1, y: 1 }));
    assert_eq!(world.get::<Position>(e), None);
    assert_eq!(world.remove::<Enemy>(e), None);
    assert_eq!(world.len(), 0);
}

#[test]
fn put_replaces_one_slot_of_one_row() {
    let mut world = World::new();
    enemy_at(&mut world, 0, 0);
    enemy_at(&mut world, 1, 1);
    let previous = world.put(1, Some(Position { x: 5, y: 5 }));
    assert_eq!(previous, Some(Position { x: 1, y: 1 }));
    assert_eq!(world.put::<Velocity>(1, None), None);
    assert_eq!(world.row(0).components.position, Some(Position { x: 0, y: 0 }));
    assert_eq!(world.row(1).components.position, Some(Position { x: 5, y: 5 }));
    assert!(world.row(1).components.enemy.is_some());
}

#[test]
fn a_join_yields_the_matching_entities_in_creation_order() {
    let mut world = World::new();
    let a = enemy_at(&mut world, 0, 0);
    let plain = world.create(Bundle::new()).unwrap();
    let b = enemy_at(&mut world, 1, 1);
    let mut marked = Bundle::new();
    marked.enemy = Some(Enemy);
    let c = world.create(marked).unwrap();
    let mut wanted = Signature::none();
    assert_eq!(world.join(&wanted), vec![a, plain, b, c]);
    wanted.enemy = true;
    assert_eq!(world.join(&wanted), vec![a, b, c]);
    wanted.position = true;
    assert_eq!(world.join(&wanted), vec![a, b]);
    wanted.velocity = true;
    assert_eq!(world.join(&wanted), Vec::<Entity>::new());
    world.destroy(a);
    let d = enemy_at(&mut world, 2, 2);
    let mut wanted = Signature::none();
    wanted.position = true;
    assert_eq!(world.join(&wanted), vec![b, d]);
    assert!(world.row(0).components.matches(&Signature::none()));
    assert!(!world.row(0).components.matches(&wanted));
}

#[test]
fn the_last_telemetry_row_is_the_singleton() {
    let mut world = World::new();
    let mut first = Bundle::new();
    first.telemetry = Some(Telemetry { enemy_collisions: 7, enemy_oob: 7, enemy_spawned: 7 });
    world.create(first);
    let mut second = Bundle::new();
    second.telemetry = Some(Telemetry::new());
    let last = world.create(second).unwrap();
    world.create(Bundle::new());
    assert_eq!(world.telemetry_index(), Some(1));
    world.record(Counter::EnemyOob);
    world.record(Counter::EnemyOob);
    world.record(Counter::EnemyCollisions);
    world.record(Counter::EnemySpawned);
    assert_eq!(
        world.telemetry(),
        Some(Telemetry { enemy_collisions: 1, enemy_oob: 2, enemy_spawned: 1 })
    );
    assert_eq!(world.row(0).components.telemetry.unwrap().enemy_oob, 7);
    world.destroy(last);
    assert_eq!(world.telemetry_index(), Some(0));
    assert!(world.anomalies().is_empty());
}

#[test]
fn counters_saturate() {
    let mut t = Telemetry { enemy_collisions: u32::MAX, enemy_oob: u32::MAX - 1, enemy_spawned: 0 };
    t.bump(Counter::EnemyCollisions);
    t.bump(Counter::EnemyOob);
    t.bump(Counter::EnemyOob);
    t.bump(Counter::EnemySpawned);
    assert_eq!(
        t,
        Telemetry { enemy_collisions: u32::MAX, enemy_oob: u32::MAX, enemy_spawned: 1 }
    );
}

#[test]
fn the_anomaly_log_is_kept_until_cleared() {
    let mut world = World::new();
    world.record(Counter::EnemySpawned);
    world.report(Anomaly::EntityIdsExhausted);
    assert_eq!(
        world.anomalies(),
        &vec![Anomaly::TelemetryMissing(Counter::EnemySpawned), Anomaly::EntityIdsExhausted]
    );
    world.clear_anomalies();
    assert!(world.anomalies().is_empty());
}

#[test]
fn the_intent_slot_holds_the_last_command() {
    let mut world = World::new();
    world.set_movement_command(Some(MovementCommand::Move(Direction::Left)));
    assert_eq!(world.movement_command(), Some(MovementCommand::Move(Direction::Left)));
    world.set_movement_command(Some(MovementCommand::Stop));
    assert_eq!(world.movement_command(), Some(MovementCommand::Stop));
    world.set_movement_command(None);
    assert_eq!(world.movement_command(), None);
}

#[test]
fn an_empty_bundle_matches_only_the_empty_signature() {
    let bundle = Bundle::new();
    assert!(bundle.matches(&Signature::none()));
    let all = Signature {
        position: true,
        velocity: true,
        ai_controlled: true,
        enemy: true,
        hero: true,
        keyboard_controlled: true,
        telemetry: true,
        sprite: true,
        animation: true,
    };
    assert!(!bundle.matches(&all));
    for one in [
        Signature { position: true, ..Signature::none() },
        Signature { velocity: true, ..Signature::none() },
        Signature { ai_controlled: true, ..Signature::none() },
        Signature { enemy: true, ..Signature::none() },
        Signature { hero: true, ..Signature::none() },
        Signature { keyboard_controlled: true, ..Signature::none() },
        Signature { telemetry: true, ..Signature::none() },
        Signature { sprite: true, ..Signature::none() },
        Signature { animation: true, ..Signature::none() },
    ] {
        assert!(!bundle.matches(&one));
    }
}

#[test]
fn a_component_can_be_rewritten_in_place() {
    let mut world = World::new();
    let a = enemy_at(&mut world, 0, 0);
    let b = enemy_at(&mut world, 1, 1);
    world.insert(b, Velocity { speed: 1, direction: Direction::Up });
    assert!(world.get_mut::<Velocity>(a).is_none());
    assert!(world.get_mut::<Velocity>(Entity { id: 9 }).is_none());
    let velocity = world.get_mut::<Velocity>(b).unwrap();
    velocity.speed = 6;
    velocity.direction = Direction::Left;
    let position = world.get_mut::<Position>(b).unwrap();
    position.x += 10;
    assert_eq!(
        world.get::<Velocity>(b),
        Some(&Velocity { speed: 6, direction: Direction::Left })
    );
    assert_eq!(world.get::<Position>(b), Some(&Position { x: 11, y: 1 }));
    assert_eq!(world.get::<Position>(a), Some(&Position { x: 0, y: 0 }));
    assert_eq!(world.len(), 2);
}

#[test]
fn a_store_runs_out_of_identifiers() {
    let mut world = World::starting_at(u64::MAX - 1);
    assert_eq!(world.create(Bundle::new()), Some(Entity { id: u64::MAX - 1 }));
    assert_eq!(world.create(Bundle::new()), None);
    assert_eq!(world.len(), 1);
    let mut queue = CommandQueue::new();
    queue.queue_create(Bundle::new().with(Enemy));
    queue.queue_create(Bundle::new());
    queue.apply(&mut world);
    assert_eq!(world.len(), 1);
    assert_eq!(
        world.anomalies(),
        &vec![Anomaly::EntityIdsExhausted, Anomaly::EntityIdsExhausted]
    );
}

#[test]
fn a_bundle_is_built_value_by_value() {
    let bundle = Bundle::new()
        .with(Enemy)
        .with(Position { x: 1, y: 2 })
        .with(Position { x: 3, y: 4 })
        .with(Velocity { speed: 0, direction: Direction::Right });
    assert_eq!(bundle.position, Some(Position { x: 3, y: 4 }));
    assert_eq!(bundle.velocity, Some(Velocity { speed: 0, direction: Direction::Right }));
    assert!(bundle.enemy.is_some());
    assert!(bundle.hero.is_none() && bundle.telemetry.is_none() && bundle.sprite.is_none());
    let wanted = Signature { enemy: true, position: true, velocity: true, ..Signature::none() };
    assert!(bundle.matches(&wanted));
}
