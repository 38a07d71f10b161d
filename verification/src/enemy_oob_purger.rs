//! The stage that purges the enemies who leave the arena.

use vstd::prelude::*;
use crate::commands::CommandQueue;
use crate::config::{Config, Settings};
use crate::purge::{purge_step, sweep, Purge};
use crate::world::{same_lookup, Row, World};

verus! {

/// Purges all enemies who leave the game area.
pub struct EnemyOOBPurger;

/// Whether this row is an enemy outside the arena. A position on the border
/// of the arena is inside.
pub open spec fn out_of_bounds(row: Row, settings: Settings) -> bool {
    &&& row.components.enemy is Some
    &&& row.components.position is Some
    &&& !settings.in_bounds(row.components.position.unwrap())
}

impl EnemyOOBPurger {
    /// Tests `out_of_bounds` on row `i`.
    pub fn dooms(world: &World, i: usize, config: &Config) -> (hit: bool)
        requires
            i < world@.rows.len(),
        ensures
            hit == out_of_bounds(world@.rows[i as int], config@),
    {
        let row = world.row(i);
        match row.components.position {
            Some(position) => row.components.enemy.is_some() && !config.in_bounds(position),
            None => false,
        }
    }

    /// Runs the stage: every enemy outside the arena is queued for
    /// destruction, and each of them that was not queued before counts once
    /// in `enemy_oob`.
    pub fn run(&mut self, world: &mut World, queue: &mut CommandQueue, config: &Config)
        requires
            old(world).wf(),
            config.wf(),
        ensures
            final(world).wf(),
            purge_step(
                old(world)@,
                old(queue)@,
                final(world)@,
                final(queue)@,
                config@,
                Purge::OutOfBounds,
            ),
            same_lookup(old(world)@.rows, final(world)@.rows),
    {
        sweep(world, queue, config, Purge::OutOfBounds);
    }
}

} // verus!
