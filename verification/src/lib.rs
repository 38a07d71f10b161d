//! An arena simulation built on a small entity-component engine.
//!
//! A hero pursues the nearest enemy, enemies wander and are spawned up to a
//! cap, and enemies are removed when they touch the hero or leave the arena.
//! Stages never create or destroy entities directly: they queue structural
//! commands, which are applied once all stages of a tick have run.

pub mod ai;
pub mod commands;
pub mod components;
pub mod config;
pub mod enemy_collider_purger;
pub mod enemy_oob_purger;
pub mod enemy_spawner;
pub mod guarantees;
pub mod physics;
pub mod purge;
mod random;
pub mod scheduler;
pub mod seq_facts;
pub mod sprite;
pub mod world;

use vstd::prelude::*;
use crate::components::{AIControlled, Direction, Hero, Position, Telemetry, Velocity};
use crate::config::Config;
use crate::random::draw;
use crate::sprite::{
    animates, character_animation, frame, hero_frame, HERO_FRAME_HEIGHT, HERO_FRAME_WIDTH,
};
use crate::world::{Bundle, Entity, World, WorldView};

pub use crate::scheduler::advance;

verus! {

/// The movement intent that the input collaborator leaves for a tick.
#[derive(Clone, Copy, Debug, PartialEq, Eq, Structural)]
pub enum MovementCommand {
    Stop,
    Move(Direction),
}

/// Default arena width, in world units.
pub const WORLD_WIDTH: u32 = 800;

/// Default arena height, in world units.
pub const WORLD_HEIGHT: u32 = 600;

/// Whether `bundle` is what the player at `position` carries: the markers
/// `AIControlled` and `Hero`, the position, a velocity of zero, the
/// counters at zero, and the first frame and the rest animation of the
/// player's spritesheet.
pub open spec fn is_player_bundle(bundle: Bundle, position: Position, spritesheet: usize) -> bool {
    &&& bundle.position == Some(position)
    &&& bundle.velocity == Some(Velocity { speed: 0, direction: Direction::Right })
    &&& bundle.ai_controlled is Some
    &&& bundle.enemy is None
    &&& bundle.hero is Some
    &&& bundle.keyboard_controlled is None
    &&& bundle.telemetry == Some(
        Telemetry { enemy_collisions: 0, enemy_oob: 0, enemy_spawned: 0 },
    )
    &&& bundle.sprite == Some(frame(spritesheet, hero_frame(), Direction::Right, 0))
    &&& bundle.animation is Some
    &&& animates(bundle.animation.unwrap(), spritesheet, hero_frame())
}

/// What the player at `position` carries.
pub fn player_bundle(position: Position, player_spritesheet: usize) -> (bundle: Bundle)
    ensures
        is_player_bundle(bundle, position, player_spritesheet),
{
    let player_top_left_frame = components::Rect {
        x: 0,
        y: 0,
        width: HERO_FRAME_WIDTH,
        height: HERO_FRAME_HEIGHT,
    };
    let player_animation = character_animation(player_spritesheet, player_top_left_frame);
    let sprite = player_animation.right_frames[0];
    Bundle {
        position: Some(position),
        velocity: Some(Velocity { speed: 0, direction: Direction::Right }),
        ai_controlled: Some(AIControlled),
        enemy: None,
        hero: Some(Hero),
        keyboard_controlled: None,
        telemetry: Some(Telemetry::new()),
        sprite: Some(sprite),
        animation: Some(player_animation),
    }
}

/// Creates the player at a position drawn from the spawn region. The
/// player's row also carries the session's counters. Returns `None`, and
/// changes nothing, once every identifier has been used.
pub fn initialize_player(world: &mut World, config: &Config, player_spritesheet: usize) -> (player:
    Option<Entity>)
    requires
        old(world).wf(),
        config.wf(),
    ensures
        final(world).wf(),
        player == old(world)@.next_entity(),
        match player {
            Some(entity) => {
                &&& final(world)@.rows.len() == old(world)@.rows.len() + 1
                &&& final(world)@.rows.drop_last() == old(world)@.rows
                &&& final(world)@.rows.last().entity == entity
                &&& exists|position: Position|
                    config@.in_spawn_region(position) && is_player_bundle(
                        final(world)@.rows.last().components,
                        position,
                        player_spritesheet,
                    )
                &&& final(world)@ == (WorldView {
                    rows: final(world)@.rows,
                    next_id: old(world)@.next_id + 1,
                    ..old(world)@
                })
            },
            None => final(world)@ == old(world)@,
        },
{
    let extent = config.settings().spawn_extent;
    let position = Position { x: draw(-extent, extent), y: draw(-extent, extent) };
    let player = world.create(player_bundle(position, player_spritesheet));
    proof {
        if player is Some {
            assert(config@.in_spawn_region(position));
            assert(world@.rows.drop_last() =~= old(world)@.rows);
        }
    }
    player
}

} // verus!
