//! The configuration surface, read once at startup.

use vstd::prelude::*;
use crate::components::Position;
use crate::sprite::{ENEMY_FRAME_HEIGHT, ENEMY_FRAME_WIDTH, HERO_FRAME_HEIGHT, HERO_FRAME_WIDTH};
use crate::{WORLD_HEIGHT, WORLD_WIDTH};

verus! {

/// The values that configure a simulation. Anyone may fill one in; the
/// stages only accept it once `Config::new` has validated it.
#[derive(Clone, Copy, Debug, PartialEq, Eq, Structural)]
pub struct Settings {
    /// Width of the arena; it spans `-width / 2 ..= width / 2`.
    pub arena_width: u32,
    /// Height of the arena; it spans `-height / 2 ..= height / 2`.
    pub arena_height: u32,
    /// Enemies spawn in `-spawn_extent .. spawn_extent` on both axes.
    pub spawn_extent: i32,
    /// The population cap for enemies.
    pub max_enemies: usize,
    /// The largest speed at which a hero pursues.
    pub hero_speed: i32,
    /// The speed at which an enemy wanders.
    pub enemy_speed: i32,
    /// Width of a hero's bounding box.
    pub hero_width: u32,
    /// Height of a hero's bounding box.
    pub hero_height: u32,
    /// Width of an enemy's bounding box.
    pub enemy_width: u32,
    /// Height of an enemy's bounding box.
    pub enemy_height: u32,
}

/// Why a `Settings` value was rejected.
#[derive(Clone, Copy, Debug, PartialEq, Eq, Structural)]
pub enum ConfigError {
    /// The spawn region is empty or does not fit inside the arena.
    InvalidBounds,
    /// The population cap is zero.
    NonPositiveCap,
    /// A movement speed is negative.
    NegativeSpeed,
}

/// Validated settings.
#[derive(Clone, Copy, Debug)]
pub struct Config {
    settings: Settings,
}

impl Settings {
    /// The spawn region is not empty and lies inside the arena.
    pub open spec fn bounds_valid(self) -> bool {
        &&& 0 < self.spawn_extent
        &&& self.spawn_extent <= self.arena_width / 2
        &&& self.spawn_extent <= self.arena_height / 2
    }

    /// No movement speed is negative.
    pub open spec fn speeds_valid(self) -> bool {
        self.hero_speed >= 0 && self.enemy_speed >= 0
    }

    /// What `Config::new` accepts.
    pub open spec fn valid(self) -> bool {
        self.bounds_valid() && self.max_enemies > 0 && self.speeds_valid()
    }

    /// Whether `position` lies inside the arena; its border counts as inside.
    pub open spec fn in_bounds(self, position: Position) -> bool {
        &&& -(self.arena_width / 2) <= position.x <= self.arena_width / 2
        &&& -(self.arena_height / 2) <= position.y <= self.arena_height / 2
    }

    /// Whether `position` lies inside the spawn region.
    pub open spec fn in_spawn_region(self, position: Position) -> bool {
        &&& -self.spawn_extent <= position.x < self.spawn_extent
        &&& -self.spawn_extent <= position.y < self.spawn_extent
    }

    /// The settings of the standard game: an arena of `WORLD_WIDTH` by
    /// `WORLD_HEIGHT` with at most 50 enemies.
    pub open spec fn standard() -> Settings {
        Settings {
            arena_width: WORLD_WIDTH,
            arena_height: WORLD_HEIGHT,
            spawn_extent: 200,
            max_enemies: 50,
            hero_speed: 3,
            enemy_speed: 8,
            hero_width: HERO_FRAME_WIDTH,
            hero_height: HERO_FRAME_HEIGHT,
            enemy_width: ENEMY_FRAME_WIDTH,
            enemy_height: ENEMY_FRAME_HEIGHT,
        }
    }
}

impl View for Config {
    type V = Settings;

    closed spec fn view(&self) -> Settings {
        self.settings
    }
}

impl Config {
    /// A `Config` always holds valid settings.
    pub open spec fn wf(&self) -> bool {
        self@.valid()
    }

    /// Validates `settings`. The checks run in the order of the variants of
    /// `ConfigError`, and the first that fails is reported.
    pub fn new(settings: Settings) -> (r: Result<Config, ConfigError>)
        ensures
            match r {
                Ok(config) => settings.valid() && config@ == settings && config.wf(),
                Err(ConfigError::InvalidBounds) => !settings.bounds_valid(),
                Err(ConfigError::NonPositiveCap) => settings.bounds_valid() && settings.max_enemies
                    == 0,
                Err(ConfigError::NegativeSpeed) => settings.bounds_valid() && settings.max_enemies
                    > 0 && !settings.speeds_valid(),
            },
    {
        if settings.spawn_extent <= 0 || settings.arena_width / 2 < settings.spawn_extent as u32
            || settings.arena_height / 2 < settings.spawn_extent as u32 {
            return Err(ConfigError::InvalidBounds);
        }
        if settings.max_enemies == 0 {
            return Err(ConfigError::NonPositiveCap);
        }
        if settings.hero_speed < 0 || settings.enemy_speed < 0 {
            return Err(ConfigError::NegativeSpeed);
        }
        Ok(Config { settings })
    }

    /// The standard game's configuration.
    pub fn standard() -> (config: Config)
        ensures
            config.wf(),
            config@ == Settings::standard(),
    {
        Config {
            settings: Settings {
                arena_width: WORLD_WIDTH,
                arena_height: WORLD_HEIGHT,
                spawn_extent: 200,
                max_enemies: 50,
                hero_speed: 3,
                enemy_speed: 8,
                hero_width: HERO_FRAME_WIDTH,
                hero_height: HERO_FRAME_HEIGHT,
                enemy_width: ENEMY_FRAME_WIDTH,
                enemy_height: ENEMY_FRAME_HEIGHT,
            },
        }
    }

    /// The validated settings.
    pub fn settings(&self) -> (settings: Settings)
        ensures
            settings == self@,
    {
        self.settings
    }

    /// Tests `Settings::in_bounds`.
    pub fn in_bounds(&self, position: Position) -> (inside: bool)
        ensures
            inside == self@.in_bounds(position),
    {
        let half_width: i64 = (self.settings.arena_width / 2) as i64;
        let half_height: i64 = (self.settings.arena_height / 2) as i64;
        let x: i64 = position.x as i64;
        let y: i64 = position.y as i64;
        -half_width <= x && x <= half_width && -half_height <= y && y <= half_height
    }
}

} // verus!
