//! The motion step: every entity moves by its velocity.
//!
//! The step is not a stage of the tick: it creates and destroys nothing and
//! queues nothing. The game loop runs it between two ticks.

use vstd::prelude::*;
use crate::components::{Direction, Position, Velocity};
use crate::world::{lemma_same_lookup, same_lookup, Bundle, Row, World, WorldView};

verus! {

/// The step that moves the entities.
pub struct Physics;

/// `value`, or the nearest coordinate if it is none.
pub open spec fn coordinate(value: int) -> i32 {
    if value < i32::MIN {
        i32::MIN
    } else if value > i32::MAX {
        i32::MAX
    } else {
        value as i32
    }
}

/// Where an entity at `position` stands after moving with `velocity` for
/// one step. `Up` leads to smaller `y`, `Left` to smaller `x`; a move stops
/// at the last coordinate.
pub open spec fn moved(position: Position, velocity: Velocity) -> Position {
    match velocity.direction {
        Direction::Left => Position { x: coordinate(position.x - velocity.speed), y: position.y },
        Direction::Right => Position { x: coordinate(position.x + velocity.speed), y: position.y },
        Direction::Up => Position { x: position.x, y: coordinate(position.y - velocity.speed) },
        Direction::Down => Position { x: position.x, y: coordinate(position.y + velocity.speed) },
    }
}

/// A row after the step: with a position and a velocity it has moved.
pub open spec fn moved_row(row: Row) -> Row {
    if row.components.position is Some && row.components.velocity is Some {
        Row {
            components: Bundle {
                position: Some(
                    moved(row.components.position.unwrap(), row.components.velocity.unwrap()),
                ),
                ..row.components
            },
            ..row
        }
    } else {
        row
    }
}

/// Computes `coordinate`.
fn clamp(value: i64) -> (c: i32)
    ensures
        c == coordinate(value as int),
{
    if value < i32::MIN as i64 {
        i32::MIN
    } else if value > i32::MAX as i64 {
        i32::MAX
    } else {
        value as i32
    }
}

/// Computes `moved`.
pub fn step(position: Position, velocity: Velocity) -> (next: Position)
    ensures
        next == moved(position, velocity),
{
    let x: i64 = position.x as i64;
    let y: i64 = position.y as i64;
    let speed: i64 = velocity.speed as i64;
    match velocity.direction {
        Direction::Left => Position { x: clamp(x - speed), y: position.y },
        Direction::Right => Position { x: clamp(x + speed), y: position.y },
        Direction::Up => Position { x: position.x, y: clamp(y - speed) },
        Direction::Down => Position { x: position.x, y: clamp(y + speed) },
    }
}

impl Physics {
    /// Moves every entity that has a position and a velocity; nothing else
    /// changes.
    pub fn run(&mut self, world: &mut World)
        requires
            old(world).wf(),
        ensures
            final(world).wf(),
            final(world)@ == (WorldView {
                rows: old(world)@.rows.map_values(|row: Row| moved_row(row)),
                ..old(world)@
            }),
            same_lookup(old(world)@.rows, final(world)@.rows),
    {
        let ghost pre = world@;
        let n = world.len();
        let mut i: usize = 0;
        while i < n
            invariant
                world.wf(),
                pre.wf(),
                i <= n,
                n == pre.rows.len(),
                world@.rows.len() == n,
                forall|j: int| 0 <= j < i ==> world@.rows[j] == moved_row(pre.rows[j]),
                forall|j: int| i <= j < n ==> world@.rows[j] == pre.rows[j],
                world@ == (WorldView { rows: world@.rows, ..pre }),
            decreases n - i,
        {
            let row = world.row(i);
            if let Some(position) = row.components.position {
                if let Some(velocity) = row.components.velocity {
                    world.put(i, Some(step(position, velocity)));
                }
            }
            i = i + 1;
        }
        assert(world@.rows =~= pre.rows.map_values(|row: Row| moved_row(row)));
        proof {
            lemma_same_lookup(pre.rows, world@.rows);
        }
    }
}

} // verus!
