//! The component types that can be attached to an entity.

use vstd::prelude::*;

verus! {

/// The four cardinal directions an entity can face or move in.
#[derive(Clone, Copy, Debug, PartialEq, Eq, Structural)]
pub enum Direction {
    Up,
    Down,
    Left,
    Right,
}

/// Marks an entity whose velocity follows the movement intent slot.
#[derive(Clone, Copy, Debug, Default, PartialEq, Eq, Structural)]
pub struct KeyboardControlled;

/// Marks an entity whose velocity is driven by the targeting stage.
#[derive(Clone, Copy, Debug, Default, PartialEq, Eq, Structural)]
pub struct AIControlled;

/// Marks an entity as an enemy.
#[derive(Clone, Copy, Debug, Default, PartialEq, Eq, Structural)]
pub struct Enemy;

/// Marks an entity as a hero.
#[derive(Clone, Copy, Debug, Default, PartialEq, Eq, Structural)]
pub struct Hero;

/// The current position of an entity, with the origin at the arena's center.
#[derive(Clone, Copy, Debug, PartialEq, Eq, Structural)]
pub struct Position {
    pub x: i32,
    pub y: i32,
}

/// The current speed and direction of an entity.
#[derive(Clone, Copy, Debug, PartialEq, Eq, Structural)]
pub struct Velocity {
    pub speed: i32,
    pub direction: Direction,
}

/// Session counters, kept in a table that is expected to hold one row.
#[derive(Clone, Copy, Debug, PartialEq, Eq, Structural)]
pub struct Telemetry {
    pub enemy_collisions: u32,
    pub enemy_oob: u32,
    pub enemy_spawned: u32,
}

/// The counters of a `Telemetry` row.
#[derive(Clone, Copy, Debug, PartialEq, Eq, Structural)]
pub enum Counter {
    EnemyCollisions,
    EnemyOob,
    EnemySpawned,
}

/// An axis-aligned rectangle: its top-left corner and its size.
#[derive(Clone, Copy, Debug, PartialEq, Eq, Structural)]
pub struct Rect {
    pub x: i32,
    pub y: i32,
    pub width: u32,
    pub height: u32,
}

/// What is drawn for an entity.
#[derive(Clone, Copy, Debug, PartialEq, Eq, Structural)]
pub struct Sprite {
    /// The spritesheet to render from.
    pub spritesheet: usize,
    /// The region of the spritesheet to be rendered.
    pub region: Rect,
}

/// The animation frames of an entity, one set for each direction.
#[derive(Debug)]
pub struct MovementAnimation {
    /// The current frame in the animation of the direction the entity moves in.
    pub current_frame: usize,
    pub up_frames: Vec<Sprite>,
    pub down_frames: Vec<Sprite>,
    pub left_frames: Vec<Sprite>,
    pub right_frames: Vec<Sprite>,
}

impl Rect {
    /// Whether two rectangles touch or overlap. Both are taken with their
    /// borders, so rectangles that only share an edge or a corner overlap.
    pub open spec fn overlaps(self, other: Rect) -> bool {
        &&& self.x <= other.x + other.width
        &&& other.x <= self.x + self.width
        &&& self.y <= other.y + other.height
        &&& other.y <= self.y + self.height
    }

    /// The rectangle of the given size whose top-left corner is `position`.
    pub fn at(position: Position, width: u32, height: u32) -> (rect: Rect)
        ensures
            rect == (Rect { x: position.x, y: position.y, width, height }),
    {
        Rect { x: position.x, y: position.y, width, height }
    }

    /// Tests `overlaps`.
    pub fn intersects(&self, other: &Rect) -> (r: bool)
        ensures
            r == self.overlaps(*other),
    {
        let left: i64 = self.x as i64;
        let right: i64 = self.x as i64 + self.width as i64;
        let top: i64 = self.y as i64;
        let bottom: i64 = self.y as i64 + self.height as i64;
        let other_left: i64 = other.x as i64;
        let other_right: i64 = other.x as i64 + other.width as i64;
        let other_top: i64 = other.y as i64;
        let other_bottom: i64 = other.y as i64 + other.height as i64;
        left <= other_right && other_left <= right && top <= other_bottom && other_top <= bottom
    }
}

impl Telemetry {
    /// A row with all counters at zero.
    pub fn new() -> (t: Telemetry)
        ensures
            t == (Telemetry { enemy_collisions: 0, enemy_oob: 0, enemy_spawned: 0 }),
    {
        Telemetry { enemy_collisions: 0, enemy_oob: 0, enemy_spawned: 0 }
    }

    /// The value of one counter.
    pub open spec fn value(self, counter: Counter) -> u32 {
        match counter {
            Counter::EnemyCollisions => self.enemy_collisions,
            Counter::EnemyOob => self.enemy_oob,
            Counter::EnemySpawned => self.enemy_spawned,
        }
    }

    /// This row after `times` increments of `counter`. A counter that has
    /// reached the largest value stays there, so counters never decrease.
    pub open spec fn bumped(self, counter: Counter, times: nat) -> Telemetry {
        let raised = if self.value(counter) + times > u32::MAX {
            u32::MAX
        } else {
            (self.value(counter) + times) as u32
        };
        match counter {
            Counter::EnemyCollisions => Telemetry { enemy_collisions: raised, ..self },
            Counter::EnemyOob => Telemetry { enemy_oob: raised, ..self },
            Counter::EnemySpawned => Telemetry { enemy_spawned: raised, ..self },
        }
    }

    /// Increments one counter, saturating at the largest value.
    pub fn bump(&mut self, counter: Counter)
        ensures
            *final(self) == old(self).bumped(counter, 1),
    {
        match counter {
            Counter::EnemyCollisions => {
                if self.enemy_collisions < u32::MAX {
                    self.enemy_collisions = self.enemy_collisions + 1;
                }
            },
            Counter::EnemyOob => {
                if self.enemy_oob < u32::MAX {
                    self.enemy_oob = self.enemy_oob + 1;
                }
            },
            Counter::EnemySpawned => {
                if self.enemy_spawned < u32::MAX {
                    self.enemy_spawned = self.enemy_spawned + 1;
                }
            },
        }
    }
}

} // verus!
