//! The stage that purges the enemies who collide with a hero.

use vstd::prelude::*;
use crate::commands::CommandQueue;
use crate::components::Rect;
use crate::config::{Config, Settings};
use crate::purge::{purge_step, sweep, Purge};
use crate::world::{same_lookup, Row, World};

verus! {

/// Purges all enemies who collide with a hero.
pub struct EnemyColliderPurger;

/// The bounding box of a hero: its top-left corner is the hero's position.
pub open spec fn hero_box(row: Row, settings: Settings) -> Rect {
    Rect {
        x: row.components.position.unwrap().x,
        y: row.components.position.unwrap().y,
        width: settings.hero_width,
        height: settings.hero_height,
    }
}

/// The bounding box of an enemy: its top-left corner is the enemy's
/// position.
pub open spec fn enemy_box(row: Row, settings: Settings) -> Rect {
    Rect {
        x: row.components.position.unwrap().x,
        y: row.components.position.unwrap().y,
        width: settings.enemy_width,
        height: settings.enemy_height,
    }
}

/// Whether `hero` is a hero with a position whose box touches or overlaps
/// the box of `enemy`.
pub open spec fn touches(hero: Row, enemy: Row, settings: Settings) -> bool {
    &&& hero.components.hero is Some
    &&& hero.components.position is Some
    &&& hero_box(hero, settings).overlaps(enemy_box(enemy, settings))
}

/// Whether `row` is an enemy that collides with one of the first `n` rows.
pub open spec fn collides_among(rows: Seq<Row>, n: int, row: Row, settings: Settings) -> bool {
    &&& row.components.enemy is Some
    &&& row.components.position is Some
    &&& exists|h: int| 0 <= h < n && h < rows.len() && touches(#[trigger] rows[h], row, settings)
}

/// Whether `row` is an enemy that collides with a hero in `rows`.
pub open spec fn collides(rows: Seq<Row>, row: Row, settings: Settings) -> bool {
    collides_among(rows, rows.len() as int, row, settings)
}

impl EnemyColliderPurger {
    /// Tests `collides` on row `i`.
    pub fn dooms(world: &World, i: usize, config: &Config) -> (hit: bool)
        requires
            i < world@.rows.len(),
        ensures
            hit == collides(world@.rows, world@.rows[i as int], config@),
    {
        let settings = config.settings();
        let row = world.row(i);
        if row.components.enemy.is_none() {
            return false;
        }
        match row.components.position {
            None => false,
            Some(position) => {
                let enemy_rect = Rect::at(position, settings.enemy_width, settings.enemy_height);
                let mut h: usize = 0;
                while h < world.len()
                    invariant
                        h <= world@.rows.len(),
                        i < world@.rows.len(),
                        settings == config@,
                        *row == world@.rows[i as int],
                        row.components.enemy is Some,
                        row.components.position == Some(position),
                        enemy_rect == enemy_box(*row, settings),
                        !collides_among(world@.rows, h as int, *row, settings),
                    decreases world@.rows.len() - h,
                {
                    let other = world.row(h);
                    if other.components.hero.is_some() {
                        if let Some(hero_position) = other.components.position {
                            let hero_rect = Rect::at(
                                hero_position,
                                settings.hero_width,
                                settings.hero_height,
                            );
                            if hero_rect.intersects(&enemy_rect) {
                                assert(touches(world@.rows[h as int], *row, settings));
                                return true;
                            }
                        }
                    }
                    h = h + 1;
                }
                false
            },
        }
    }

    /// Runs the stage: every enemy whose box touches or overlaps the box of
    /// a hero is queued for destruction, and each of them that was not
    /// queued before counts once in `enemy_collisions`.
    pub fn run(&mut self, world: &mut World, queue: &mut CommandQueue, config: &Config)
        requires
            old(world).wf(),
            config.wf(),
        ensures
            final(world).wf(),
            purge_step(
                old(world)@,
                old(queue)@,
                final(world)@,
                final(queue)@,
                config@,
                Purge::Collision,
            ),
            same_lookup(old(world)@.rows, final(world)@.rows),
    {
        sweep(world, queue, config, Purge::Collision);
    }
}

} // verus!
