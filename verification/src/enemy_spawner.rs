//! The population controller: it spawns enemies up to the population cap.

use vstd::prelude::*;
use crate::commands::{CommandQueue, QueueView};
use crate::components::{AIControlled, Counter, Direction, Enemy, Position, Velocity};
use crate::config::{Config, Settings};
use crate::random::draw;
use crate::sprite::{animates, enemy_animation, enemy_frame, frame, ENEMY_SPRITESHEET};
use crate::world::{enemy_count, same_lookup, Bundle, Row, World, WorldView};

verus! {

/// The stage that keeps the arena populated.
pub struct EnemySpawner;

/// Whether `bundle` is what a new enemy at `position` carries: the markers
/// `AIControlled` and `Enemy`, the position, a velocity of zero, and the
/// first frame and the rest animation of the enemies' spritesheet.
pub open spec fn is_enemy_bundle(bundle: Bundle, position: Position) -> bool {
    &&& bundle.position == Some(position)
    &&& bundle.velocity == Some(Velocity { speed: 0, direction: Direction::Right })
    &&& bundle.ai_controlled is Some
    &&& bundle.enemy is Some
    &&& bundle.hero is None
    &&& bundle.keyboard_controlled is None
    &&& bundle.telemetry is None
    &&& bundle.sprite == Some(frame(ENEMY_SPRITESHEET, enemy_frame(), Direction::Right, 0))
    &&& bundle.animation is Some
    &&& animates(bundle.animation.unwrap(), ENEMY_SPRITESHEET, enemy_frame())
}

/// Whether the population is below the cap.
pub open spec fn has_room(rows: Seq<Row>, settings: Settings) -> bool {
    enemy_count(rows) < settings.max_enemies
}

/// What one run of the stage does. With the population at the cap, nothing.
/// Below the cap, the creation of one enemy inside the spawn region is
/// queued, and `enemy_spawned` is incremented. No entity is created before
/// the queue is applied.
pub open spec fn spawn_step(
    pre: WorldView,
    pre_queue: QueueView,
    post: WorldView,
    post_queue: QueueView,
    settings: Settings,
) -> bool {
    if has_room(pre.rows, settings) {
        &&& post_queue.destroys == pre_queue.destroys
        &&& post_queue.creates.len() == pre_queue.creates.len() + 1
        &&& post_queue.creates.drop_last() == pre_queue.creates
        &&& exists|position: Position|
            settings.in_spawn_region(position) && is_enemy_bundle(
                post_queue.creates.last(),
                position,
            )
        &&& post == pre.recorded(Counter::EnemySpawned)
    } else {
        post == pre && post_queue == pre_queue
    }
}

/// What a new enemy at `position` carries.
pub fn enemy_bundle(position: Position) -> (bundle: Bundle)
    ensures
        is_enemy_bundle(bundle, position),
{
    let enemy_animation = enemy_animation();
    let sprite = enemy_animation.right_frames[0];
    Bundle {
        position: Some(position),
        velocity: Some(Velocity { speed: 0, direction: Direction::Right }),
        ai_controlled: Some(AIControlled),
        enemy: Some(Enemy),
        hero: None,
        keyboard_controlled: None,
        telemetry: None,
        sprite: Some(sprite),
        animation: Some(enemy_animation),
    }
}

impl EnemySpawner {
    /// Tests `has_room`.
    pub fn has_room(world: &World, config: &Config) -> (room: bool)
        ensures
            room == has_room(world@.rows, config@),
    {
        world.enemy_count() < config.settings().max_enemies
    }

    /// Queues the creation of one enemy at `position` and counts it in
    /// `enemy_spawned`.
    pub fn spawn(world: &mut World, queue: &mut CommandQueue, position: Position)
        requires
            old(world).wf(),
        ensures
            final(world).wf(),
            final(world)@ == old(world)@.recorded(Counter::EnemySpawned),
            same_lookup(old(world)@.rows, final(world)@.rows),
            final(queue)@.destroys == old(queue)@.destroys,
            final(queue)@.creates.len() == old(queue)@.creates.len() + 1,
            final(queue)@.creates.drop_last() == old(queue)@.creates,
            is_enemy_bundle(final(queue)@.creates.last(), position),
    {
        queue.queue_create(enemy_bundle(position));
        world.record(Counter::EnemySpawned);
        assert(queue@.creates.drop_last() =~= old(queue)@.creates);
    }

    /// Runs the stage. With the population at the cap or above, it does
    /// nothing. Otherwise it draws a position from the spawn region and
    /// spawns one enemy there.
    pub fn run(&mut self, world: &mut World, queue: &mut CommandQueue, config: &Config)
        requires
            old(world).wf(),
            config.wf(),
        ensures
            final(world).wf(),
            spawn_step(old(world)@, old(queue)@, final(world)@, final(queue)@, config@),
            same_lookup(old(world)@.rows, final(world)@.rows),
    {
        if !Self::has_room(world, config) {
            return ;
        }
        let extent = config.settings().spawn_extent;
        let position = Position { x: draw(-extent, extent), y: draw(-extent, extent) };
        Self::spawn(world, queue, position);
        assert(config@.in_spawn_region(position));
    }
}

} // verus!
