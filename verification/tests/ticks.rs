use rusty_ai::advance;
use rusty_ai::commands::CommandQueue;
use rusty_ai::components::{
    AIControlled, Counter, Direction, Enemy, Hero, Position, Telemetry, Velocity,
};
use rusty_ai::config::{Config, Settings};
use rusty_ai::initialize_player;
use rusty_ai::player_bundle;
use rusty_ai::scheduler::{ScheduleError, Scheduler, Stage, StageDecl};
use rusty_ai::world::{Anomaly, Bundle, Entity, World};

fn settings() -> Settings {
    Settings {
        arena_width: 600,
        arena_height: 600,
        spawn_extent: 200,
        max_enemies: 3,
        hero_speed: 3,
        enemy_speed: 8,
        hero_width: 26,
        hero_height: 36,
        enemy_width: 32,
        enemy_height: 36,
    }
}

fn config() -> Config {
    Config::new(settings()).unwrap()
}

fn only(stage: Stage) -> Scheduler {
    Scheduler::new(&vec![StageDecl { stage, after: vec![] }]).unwrap()
}

fn enemy_at(world: &mut World, x: i32, y: i32) -> Entity {
    let mut bundle = Bundle::new();
    bundle.enemy = Some(Enemy);
    bundle.position = Some(Position { x, y });
    world.create(bundle).unwrap()
}

fn hero_at(world: &mut World, x: i32, y: i32) -> Entity {
    let mut bundle = Bundle::new();
    bundle.ai_controlled = Some(AIControlled);
    bundle.hero = Some(Hero);
    bundle.position = Some(Position { x, y });
    bundle.velocity = Some(Velocity { speed: 0, direction: Direction::Right });
    bundle.telemetry = Some(Telemetry::new());
    world.create(bundle).unwrap()
}

fn position(schedule: &Scheduler, stage: Stage) -> usize {
    schedule.order().iter().position(|s| *s == stage).unwrap()
}

#[test]
fn the_standard_schedule() {
    assert_eq!(
        Scheduler::standard().order(),
        &vec![Stage::EnemySpawner, Stage::AI, Stage::EnemyOOBPurger, Stage::EnemyColliderPurger]
    );
}

#[test]
fn a_schedule_respects_the_declared_dependencies() {
    let decls = vec![
        StageDecl {
            stage: Stage::EnemyColliderPurger,
            after: vec![Stage::EnemySpawner, Stage::AI],
        },
        StageDecl { stage: Stage::EnemyOOBPurger, after: vec![Stage::EnemySpawner, Stage::AI] },
        StageDecl { stage: Stage::AI, after: vec![Stage::EnemySpawner] },
        StageDecl { stage: Stage::EnemySpawner, after: vec![] },
    ];
    let schedule = Scheduler::new(&decls).unwrap();
    assert_eq!(schedule.order().len(), 4);
    for decl in &decls {
        for dependency in &decl.after {
            assert!(position(&schedule, *dependency) < position(&schedule, decl.stage));
        }
    }
}

#[test]
fn among_the_ready_stages_the_first_declared_runs_first() {
    let decls = vec![
        StageDecl {
            stage: Stage::EnemyColliderPurger,
            after: vec![Stage::EnemySpawner, Stage::AI],
        },
        StageDecl { stage: Stage::EnemyOOBPurger, after: vec![Stage::EnemySpawner, Stage::AI] },
        StageDecl { stage: Stage::AI, after: vec![Stage::EnemySpawner] },
        StageDecl { stage: Stage::EnemySpawner, after: vec![] },
    ];
    assert_eq!(
        Scheduler::new(&decls).unwrap().order(),
        &vec![Stage::EnemySpawner, Stage::AI, Stage::EnemyColliderPurger, Stage::EnemyOOBPurger]
    );
    let free = vec![
        StageDecl { stage: Stage::EnemyOOBPurger, after: vec![] },
        StageDecl { stage: Stage::AI, after: vec![] },
        StageDecl { stage: Stage::EnemySpawner, after: vec![Stage::AI] },
    ];
    assert_eq!(
        Scheduler::new(&free).unwrap().order(),
        &vec![Stage::EnemyOOBPurger, Stage::AI, Stage::EnemySpawner]
    );
}

#[test]
fn the_order_of_the_purges_decides_which_counter_counts() {
    let decls = vec![
        StageDecl { stage: Stage::EnemyColliderPurger, after: vec![] },
        StageDecl { stage: Stage::EnemyOOBPurger, after: vec![Stage::EnemyColliderPurger] },
    ];
    let mut world = World::new();
    hero_at(&mut world, 290, 0);
    let enemy = enemy_at(&mut world, 305, 0);
    advance(&mut world, &Scheduler::new(&decls).unwrap(), &config());
    assert!(!world.is_alive(enemy));
    assert_eq!(
        world.telemetry(),
        Some(Telemetry { enemy_collisions: 1, enemy_oob: 0, enemy_spawned: 0 })
    );
}

#[test]
fn an_empty_schedule_runs_nothing() {
    let schedule = Scheduler::new(&vec![]).unwrap();
    assert!(schedule.order().is_empty());
    let mut world = World::new();
    let enemy = enemy_at(&mut world, 1000, 1000);
    advance(&mut world, &schedule, &config());
    assert!(world.is_alive(enemy));
    assert_eq!(world.len(), 1);
}

#[test]
fn a_stage_declared_twice_is_rejected() {
    let decls = vec![
        StageDecl { stage: Stage::AI, after: vec![] },
        StageDecl { stage: Stage::EnemySpawner, after: vec![] },
        StageDecl { stage: Stage::AI, after: vec![Stage::EnemySpawner] },
    ];
    assert_eq!(Scheduler::new(&decls).err(), Some(ScheduleError::DuplicateStage(Stage::AI)));
}

#[test]
fn a_dependency_on_an_undeclared_stage_is_rejected() {
    let decls = vec![
        StageDecl { stage: Stage::EnemySpawner, after: vec![] },
        StageDecl { stage: Stage::AI, after: vec![Stage::EnemySpawner, Stage::EnemyOOBPurger] },
    ];
    assert_eq!(
        Scheduler::new(&decls).err(),
        Some(ScheduleError::UnknownDependency(Stage::AI, Stage::EnemyOOBPurger))
    );
}

#[test]
fn a_cycle_is_rejected() {
    let decls = vec![
        StageDecl { stage: Stage::EnemySpawner, after: vec![Stage::EnemyColliderPurger] },
        StageDecl { stage: Stage::AI, after: vec![Stage::EnemySpawner] },
        StageDecl { stage: Stage::EnemyColliderPurger, after: vec![Stage::AI] },
    ];
    assert_eq!(Scheduler::new(&decls).err(), Some(ScheduleError::Cycle));
    let itself = vec![StageDecl { stage: Stage::AI, after: vec![Stage::AI] }];
    assert_eq!(Scheduler::new(&itself).err(), Some(ScheduleError::Cycle));
    let partly = vec![
        StageDecl { stage: Stage::EnemySpawner, after: vec![] },
        StageDecl { stage: Stage::AI, after: vec![Stage::EnemyOOBPurger] },
        StageDecl { stage: Stage::EnemyOOBPurger, after: vec![Stage::AI, Stage::EnemySpawner] },
    ];
    assert_eq!(Scheduler::new(&partly).err(), Some(ScheduleError::Cycle));
}

#[test]
fn a_tick_purges_what_left_the_arena() {
    let mut world = World::new();
    hero_at(&mut world, -200, -200);
    let outside = enemy_at(&mut world, 301, 0);
    let border = enemy_at(&mut world, 300, 0);
    advance(&mut world, &only(Stage::EnemyOOBPurger), &config());
    assert!(!world.is_alive(outside));
    assert!(world.is_alive(border));
    assert_eq!(
        world.telemetry(),
        Some(Telemetry { enemy_collisions: 0, enemy_oob: 1, enemy_spawned: 0 })
    );
}

#[test]
fn a_tick_purges_what_touches_the_hero() {
    let mut world = World::new();
    hero_at(&mut world, 0, 0);
    let first = enemy_at(&mut world, 10, 10);
    let second = enemy_at(&mut world, -5, -5);
    advance(&mut world, &only(Stage::EnemyColliderPurger), &config());
    assert!(!world.is_alive(first));
    assert!(!world.is_alive(second));
    assert_eq!(world.len(), 1);
    assert_eq!(
        world.telemetry(),
        Some(Telemetry { enemy_collisions: 2, enemy_oob: 0, enemy_spawned: 0 })
    );
}

#[test]
fn a_tick_without_a_telemetry_row_completes() {
    let mut world = World::new();
    let outside = enemy_at(&mut world, 1000, 0);
    advance(&mut world, &Scheduler::standard(), &config());
    assert!(!world.is_alive(outside));
    assert_eq!(world.telemetry(), None);
    assert_eq!(world.telemetry_index(), None);
    assert_eq!(
        world.anomalies(),
        &vec![
            Anomaly::TelemetryMissing(Counter::EnemySpawned),
            Anomaly::TelemetryMissing(Counter::EnemyOob),
        ]
    );
    assert_eq!(world.enemy_count(), 1);
}

#[test]
fn a_tick_starts_with_an_empty_anomaly_log() {
    let mut world = World::new();
    world.report(Anomaly::EntityIdsExhausted);
    advance(&mut world, &only(Stage::AI), &config());
    assert!(world.anomalies().is_empty());
}

#[test]
fn stages_see_neither_births_nor_deaths_of_their_tick() {
    let mut world = World::new();
    hero_at(&mut world, 0, 0);
    let outside = enemy_at(&mut world, 1000, 0);
    let touching = enemy_at(&mut world, 5, 5);
    let mut queue = CommandQueue::new();
    Scheduler::standard().run_stages(&mut world, &mut queue, &config());
    assert_eq!(world.len(), 3);
    assert!(world.is_alive(outside));
    assert!(world.is_alive(touching));
    assert_eq!(world.enemy_count(), 2);
    assert!(queue.is_queued(outside));
    assert!(queue.is_queued(touching));
    assert_eq!(
        world.telemetry(),
        Some(Telemetry { enemy_collisions: 1, enemy_oob: 1, enemy_spawned: 1 })
    );
    queue.apply(&mut world);
    assert_eq!(world.len(), 2);
    assert_eq!(world.enemy_count(), 1);
    assert_eq!(world.entity_at(1), Entity { id: 3 });
}

#[test]
fn a_single_stage_can_be_run_by_name() {
    let mut world = World::new();
    hero_at(&mut world, 0, 0);
    let mut queue = CommandQueue::new();
    Scheduler::run_stage(Stage::EnemySpawner, &mut world, &mut queue, &config());
    Scheduler::run_stage(Stage::AI, &mut world, &mut queue, &config());
    Scheduler::run_stage(Stage::EnemyOOBPurger, &mut world, &mut queue, &config());
    Scheduler::run_stage(Stage::EnemyColliderPurger, &mut world, &mut queue, &config());
    assert_eq!(world.telemetry().unwrap().enemy_spawned, 1);
    assert_eq!(world.len(), 1);
    queue.apply(&mut world);
    assert_eq!(world.len(), 2);
}

#[test]
fn the_population_never_exceeds_the_cap() {
    let mut world = World::new();
    let config = config();
    let schedule = Scheduler::standard();
    initialize_player(&mut world, &config, 0).unwrap();
    let mut most = 0;
    let mut before = world.telemetry().unwrap();
    for tick in 1..=300 {
        advance(&mut world, &schedule, &config);
        let enemies = world.enemy_count();
        assert!(enemies <= 3);
        let after = world.telemetry().unwrap();
        assert!(after.enemy_spawned >= before.enemy_spawned);
        assert!(after.enemy_oob >= before.enemy_oob);
        assert!(after.enemy_collisions >= before.enemy_collisions);
        before = after;
        if tick == 1 {
            assert_eq!(world.telemetry().unwrap().enemy_spawned, 1);
        }
        most = most.max(enemies);
    }
    assert!(most >= 1);
    let telemetry = world.telemetry().unwrap();
    assert_eq!(
        telemetry.enemy_spawned as usize,
        world.enemy_count() + (telemetry.enemy_collisions + telemetry.enemy_oob) as usize
    );
}

#[test]
fn a_population_above_the_cap_is_not_raised() {
    let mut world = World::new();
    for x in 0..5 {
        enemy_at(&mut world, x, 0);
    }
    advance(&mut world, &Scheduler::standard(), &config());
    assert_eq!(world.enemy_count(), 5);
    assert_eq!(world.len(), 5);
}

#[test]
fn the_player_starts_inside_the_spawn_region() {
    for _ in 0..50 {
        let mut world = World::new();
        world.create(Bundle::new());
        let player = initialize_player(&mut world, &config(), 0).unwrap();
        assert_eq!(player, Entity { id: 1 });
        assert_eq!(world.len(), 2);
        let row = world.row(1);
        assert_eq!(row.entity, player);
        let position = row.components.position.unwrap();
        assert!(-200 <= position.x && position.x < 200);
        assert!(-200 <= position.y && position.y < 200);
        assert!(row.components.hero.is_some() && row.components.ai_controlled.is_some());
        assert!(row.components.enemy.is_none());
        assert_eq!(world.telemetry(), Some(Telemetry::new()));
    }
}

#[test]
fn the_player_carries_its_first_frame() {
    let bundle = player_bundle(Position { x: 3, y: 4 }, 0);
    assert_eq!(bundle.position, Some(Position { x: 3, y: 4 }));
    assert_eq!(bundle.velocity, Some(Velocity { speed: 0, direction: Direction::Right }));
    assert_eq!(bundle.telemetry, Some(Telemetry::new()));
    let sprite = bundle.sprite.unwrap();
    assert_eq!(sprite.spritesheet, 0);
    assert_eq!((sprite.region.x, sprite.region.y), (0, 72));
    assert_eq!((sprite.region.width, sprite.region.height), (26, 36));
    assert_eq!(bundle.animation.unwrap().left_frames[2].region.x, 52);
}

#[test]
fn a_tick_on_a_full_store_logs_the_lost_spawn() {
    let mut world = World::starting_at(u64::MAX);
    advance(&mut world, &only(Stage::EnemySpawner), &config());
    assert_eq!(world.len(), 0);
    assert_eq!(
        world.anomalies(),
        &vec![Anomaly::TelemetryMissing(Counter::EnemySpawned), Anomaly::EntityIdsExhausted]
    );
    assert!(initialize_player(&mut world, &config(), 0).is_none());
}
