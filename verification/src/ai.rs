//! The targeting and motion stage: enemies wander, heroes pursue the
//! nearest enemy.

use vstd::prelude::*;
use crate::components::{Direction, Position, Velocity};
use crate::config::{Config, Settings};
use crate::random::draw;
use crate::world::{lemma_same_lookup, same_lookup, Bundle, Row, World, WorldView};

verus! {

/// The stage that steers every entity marked `AIControlled`.
pub struct AI;

/// Whether the stage lets this row wander: an AI-controlled enemy with a
/// velocity.
pub open spec fn wanders(row: Row) -> bool {
    &&& row.components.ai_controlled is Some
    &&& row.components.enemy is Some
    &&& row.components.velocity is Some
}

/// Whether the stage makes this row pursue: an AI-controlled hero with a
/// position and a velocity.
pub open spec fn pursues(row: Row) -> bool {
    &&& row.components.ai_controlled is Some
    &&& row.components.hero is Some
    &&& row.components.position is Some
    &&& row.components.velocity is Some
}

/// Whether a hero can target this row: an enemy with a position.
pub open spec fn targetable(row: Row) -> bool {
    row.components.enemy is Some && row.components.position is Some
}

/// The square of the Euclidean distance between two positions.
pub open spec fn distance_squared(a: Position, b: Position) -> int {
    (b.x - a.x) * (b.x - a.x) + (b.y - a.y) * (b.y - a.y)
}

/// The square of the distance from `from` to the position of `row`.
pub open spec fn reach(from: Position, row: Row) -> int {
    distance_squared(from, row.components.position.unwrap())
}

/// Whether row `j` is the nearest among the first `n` rows: a targetable row
/// at the least distance from `from`, and the first of those in row order.
pub open spec fn is_nearest_among(rows: Seq<Row>, n: int, from: Position, j: int) -> bool {
    &&& 0 <= j < n <= rows.len()
    &&& targetable(rows[j])
    &&& forall|k: int|
        0 <= k < j && targetable(rows[k]) ==> reach(from, rows[j]) < reach(from, rows[k])
    &&& forall|k: int|
        j < k < n && targetable(rows[k]) ==> reach(from, rows[j]) <= reach(from, rows[k])
}

/// Whether row `j` is the enemy that a hero at `from` selects.
pub open spec fn is_nearest(rows: Seq<Row>, from: Position, j: int) -> bool {
    is_nearest_among(rows, rows.len() as int, from, j)
}

/// The row of the enemy nearest to `from`; `None` when no enemy has a
/// position.
pub open spec fn nearest(rows: Seq<Row>, from: Position) -> Option<int> {
    if exists|j: int| is_nearest(rows, from, j) {
        Some(choose|j: int| is_nearest(rows, from, j))
    } else {
        None
    }
}

/// The position of the enemy nearest to `from`.
pub open spec fn target(rows: Seq<Row>, from: Position) -> Option<Position> {
    match nearest(rows, from) {
        Some(j) => rows[j].components.position,
        None => None,
    }
}

/// The direction that a draw from `0 .. 4` stands for.
pub open spec fn direction_of(pick: int) -> Direction {
    if pick == 0 {
        Direction::Up
    } else if pick == 1 {
        Direction::Down
    } else if pick == 2 {
        Direction::Left
    } else {
        Direction::Right
    }
}

/// The velocity of a wandering enemy after one tick: with `coin` at 0 it
/// takes the wandering speed and the drawn direction, otherwise it keeps its
/// momentum.
pub open spec fn wandered(velocity: Velocity, coin: int, pick: int, speed: i32) -> Velocity {
    if coin == 0 {
        Velocity { speed, direction: direction_of(pick) }
    } else {
        velocity
    }
}

/// The absolute value of a distance along one axis.
pub open spec fn magnitude(delta: int) -> int {
    if delta < 0 {
        -delta
    } else {
        delta
    }
}

/// The smaller of the distance left and the largest speed.
pub open spec fn capped(distance: int, max_speed: int) -> int {
    if distance <= max_speed {
        distance
    } else {
        max_speed
    }
}

/// The velocity of a hero at `hero` that pursues `target`. It moves along
/// one axis only, the one with the larger distance to cover (the X axis on a
/// tie), and never faster than the distance left. At the target, or without
/// one, it halts and keeps its direction.
pub open spec fn steered(
    hero: Position,
    target: Option<Position>,
    velocity: Velocity,
    max_speed: i32,
) -> Velocity {
    match target {
        None => Velocity { speed: 0, direction: velocity.direction },
        Some(enemy) => {
            let dx = enemy.x - hero.x;
            let dy = enemy.y - hero.y;
            if magnitude(dx) >= magnitude(dy) && magnitude(dx) > 0 {
                Velocity {
                    speed: capped(magnitude(dx), max_speed as int) as i32,
                    direction: if dx < 0 {
                        Direction::Left
                    } else {
                        Direction::Right
                    },
                }
            } else if magnitude(dy) > 0 {
                Velocity {
                    speed: capped(magnitude(dy), max_speed as int) as i32,
                    direction: if dy < 0 {
                        Direction::Up
                    } else {
                        Direction::Down
                    },
                }
            } else {
                Velocity { speed: 0, direction: velocity.direction }
            }
        },
    }
}

/// `row` with its velocity replaced.
pub open spec fn with_velocity(row: Row, velocity: Velocity) -> Row {
    Row { components: Bundle { velocity: Some(velocity), ..row.components }, ..row }
}

/// A row after the wandering pass, for given draws.
pub open spec fn wander_row(row: Row, coin: int, pick: int, settings: Settings) -> Row {
    if wanders(row) {
        with_velocity(
            row,
            wandered(row.components.velocity.unwrap(), coin, pick, settings.enemy_speed),
        )
    } else {
        row
    }
}

/// A row after the pursuit pass, with the enemies in `rows`.
pub open spec fn pursue_row(rows: Seq<Row>, row: Row, settings: Settings) -> Row {
    if pursues(row) {
        let position = row.components.position.unwrap();
        with_velocity(
            row,
            steered(
                position,
                target(rows, position),
                row.components.velocity.unwrap(),
                settings.hero_speed,
            ),
        )
    } else {
        row
    }
}

/// Row `i` after the stage, for given draws: it wanders, then it pursues.
pub open spec fn ai_row(rows: Seq<Row>, i: int, coin: int, pick: int, settings: Settings) -> Row {
    pursue_row(rows, wander_row(rows[i], coin, pick, settings), settings)
}

/// Whether `after` is what the wandering pass can make of `before`.
pub open spec fn wander_outcome(before: Row, after: Row, settings: Settings) -> bool {
    exists|coin: int, pick: int|
        0 <= coin < 2 && 0 <= pick < 4 && after == #[trigger] wander_row(
            before,
            coin,
            pick,
            settings,
        )
}

/// Whether `after` is what the stage can make of row `i`.
pub open spec fn ai_outcome(rows: Seq<Row>, i: int, after: Row, settings: Settings) -> bool {
    exists|coin: int, pick: int|
        0 <= coin < 2 && 0 <= pick < 4 && after == #[trigger] ai_row(rows, i, coin, pick, settings)
}

/// What one run of the stage does to the store: every row becomes one of
/// its outcomes, and nothing else changes.
pub open spec fn ai_step(pre: WorldView, post: WorldView, settings: Settings) -> bool {
    &&& post.rows.len() == pre.rows.len()
    &&& forall|i: int|
        0 <= i < pre.rows.len() ==> ai_outcome(pre.rows, i, #[trigger] post.rows[i], settings)
    &&& post.next_id == pre.next_id
    &&& post.command == pre.command
    &&& post.anomalies == pre.anomalies
}

/// The nearest enemy is unique, so `nearest` is the row that satisfies
/// `is_nearest`.
pub proof fn lemma_nearest(rows: Seq<Row>, from: Position, j: int)
    requires
        is_nearest(rows, from, j),
    ensures
        nearest(rows, from) == Some(j),
{
    let k = choose|k: int| is_nearest(rows, from, k);
    assert(is_nearest(rows, from, k));
}

/// Among the first `n` rows there is a nearest enemy as soon as one of them
/// is an enemy with a position.
pub proof fn lemma_nearest_among_exists(rows: Seq<Row>, n: int, from: Position) -> (j: int)
    requires
        0 <= n <= rows.len(),
        exists|k: int| 0 <= k < n && targetable(rows[k]),
    ensures
        is_nearest_among(rows, n, from, j),
    decreases n,
{
    let last = n - 1;
    if exists|k: int| 0 <= k < last && targetable(rows[k]) {
        let before = lemma_nearest_among_exists(rows, last, from);
        if targetable(rows[last]) && reach(from, rows[last]) < reach(from, rows[before]) {
            last
        } else {
            before
        }
    } else {
        let k = choose|k: int| 0 <= k < n && targetable(rows[k]);
        assert(k == last);
        last
    }
}

/// A hero is without a target exactly when no enemy has a position.
pub proof fn lemma_nearest_exists(rows: Seq<Row>, from: Position)
    ensures
        nearest(rows, from) is None <==> forall|k: int|
            0 <= k < rows.len() ==> !targetable(rows[k]),
{
    if exists|k: int| 0 <= k < rows.len() && targetable(rows[k]) {
        let j = lemma_nearest_among_exists(rows, rows.len() as int, from);
        lemma_nearest(rows, from, j);
    }
}

/// The selected enemy depends only on which rows are enemies and where
/// they stand.
pub proof fn lemma_target_frame(a: Seq<Row>, b: Seq<Row>, from: Position)
    requires
        a.len() == b.len(),
        forall|k: int|
            0 <= k < a.len() ==> a[k].components.enemy == b[k].components.enemy
                && a[k].components.position == b[k].components.position,
    ensures
        nearest(a, from) == nearest(b, from),
        target(a, from) == target(b, from),
{
    if exists|j: int| is_nearest(a, from, j) {
        let j = choose|j: int| is_nearest(a, from, j);
        assert(is_nearest(b, from, j));
        lemma_nearest(a, from, j);
        lemma_nearest(b, from, j);
    } else if exists|j: int| is_nearest(b, from, j) {
        let j = choose|j: int| is_nearest(b, from, j);
        assert(is_nearest(a, from, j));
    }
}

/// The square of the distance between two positions.
pub fn squared_distance(a: Position, b: Position) -> (d: u128)
    ensures
        d == distance_squared(a, b),
{
    let dx: i128 = b.x as i128 - a.x as i128;
    let dy: i128 = b.y as i128 - a.y as i128;
    assert(dx * dx <= 0x1_0000_0000 * 0x1_0000_0000 && dx * dx >= 0) by (nonlinear_arith)
        requires
            -0x1_0000_0000 <= dx <= 0x1_0000_0000,
    ;
    assert(dy * dy <= 0x1_0000_0000 * 0x1_0000_0000 && dy * dy >= 0) by (nonlinear_arith)
        requires
            -0x1_0000_0000 <= dy <= 0x1_0000_0000,
    ;
    let xx: i128 = dx * dx;
    let yy: i128 = dy * dy;
    (xx + yy) as u128
}

/// The velocity of a wandering enemy for given draws: `coin` from `0 .. 2`
/// and `pick` from `0 .. 4`.
pub fn wander(velocity: Velocity, coin: i32, pick: i32, speed: i32) -> (v: Velocity)
    ensures
        v == wandered(velocity, coin as int, pick as int, speed),
{
    if coin == 0 {
        let direction = if pick == 0 {
            Direction::Up
        } else if pick == 1 {
            Direction::Down
        } else if pick == 2 {
            Direction::Left
        } else {
            Direction::Right
        };
        Velocity { speed, direction }
    } else {
        velocity
    }
}

/// The velocity of a hero at `hero` that pursues `target`.
pub fn steer(hero: Position, target: Option<Position>, velocity: Velocity, max_speed: i32) -> (v:
    Velocity)
    ensures
        v == steered(hero, target, velocity, max_speed),
{
    match target {
        None => Velocity { speed: 0, direction: velocity.direction },
        Some(enemy) => {
            let dx: i64 = enemy.x as i64 - hero.x as i64;
            let dy: i64 = enemy.y as i64 - hero.y as i64;
            let x_distance: i64 = if dx < 0 {
                -dx
            } else {
                dx
            };
            let y_distance: i64 = if dy < 0 {
                -dy
            } else {
                dy
            };
            if x_distance >= y_distance && x_distance > 0 {
                let speed: i32 = if x_distance <= max_speed as i64 {
                    x_distance as i32
                } else {
                    max_speed
                };
                let direction = if dx < 0 {
                    Direction::Left
                } else {
                    Direction::Right
                };
                Velocity { speed, direction }
            } else if y_distance > 0 {
                let speed: i32 = if y_distance <= max_speed as i64 {
                    y_distance as i32
                } else {
                    max_speed
                };
                let direction = if dy < 0 {
                    Direction::Up
                } else {
                    Direction::Down
                };
                Velocity { speed, direction }
            } else {
                Velocity { speed: 0, direction: velocity.direction }
            }
        },
    }
}

/// The row of the enemy nearest to `from`: the first in row order among
/// those at the least distance.
pub fn nearest_enemy(world: &World, from: Position) -> (r: Option<usize>)
    ensures
        match r {
            Some(j) => nearest(world@.rows, from) == Some(j as int),
            None => nearest(world@.rows, from) is None,
        },
{
    let mut best: Option<usize> = None;
    let mut best_distance: u128 = 0;
    let mut k: usize = 0;
    while k < world.len()
        invariant
            k <= world@.rows.len(),
            match best {
                Some(j) => is_nearest_among(world@.rows, k as int, from, j as int)
                    && best_distance == reach(from, world@.rows[j as int]),
                None => forall|i: int| 0 <= i < k ==> !targetable(world@.rows[i]),
            },
        decreases world@.rows.len() - k,
    {
        let row = world.row(k);
        if row.components.enemy.is_some() {
            if let Some(position) = row.components.position {
                let distance = squared_distance(from, position);
                if best.is_none() || distance < best_distance {
                    best = Some(k);
                    best_distance = distance;
                }
            }
        }
        k = k + 1;
    }
    proof {
        match best {
            Some(j) => {
                lemma_nearest(world@.rows, from, j as int);
            },
            None => {
                lemma_nearest_exists(world@.rows, from);
            },
        }
    }
    best
}

impl AI {
    /// Runs the stage. Every AI-controlled enemy with a velocity wanders: a
    /// fair coin decides whether it takes the wandering speed and a freshly
    /// drawn direction, or keeps its momentum. Then every AI-controlled hero
    /// with a position and a velocity pursues the nearest enemy.
    pub fn run(&mut self, world: &mut World, config: &Config)
        requires
            old(world).wf(),
            config.wf(),
        ensures
            final(world).wf(),
            ai_step(old(world)@, final(world)@, config@),
            same_lookup(old(world)@.rows, final(world)@.rows),
    {
        let settings = config.settings();
        let ghost pre = world@;
        let n = world.len();
        let mut i: usize = 0;
        while i < n
            invariant
                world.wf(),
                pre.wf(),
                i <= n,
                n == pre.rows.len(),
                world@.rows.len() == n,
                settings == config@,
                forall|j: int|
                    0 <= j < i ==> wander_outcome(pre.rows[j], #[trigger] world@.rows[j], settings),
                forall|j: int| i <= j < n ==> world@.rows[j] == pre.rows[j],
                world@.next_id == pre.next_id,
                world@.command == pre.command,
                world@.anomalies == pre.anomalies,
            decreases n - i,
        {
            let row = world.row(i);
            let mut coin: i32 = 1;
            let mut pick: i32 = 0;
            if row.components.ai_controlled.is_some() && row.components.enemy.is_some() {
                if let Some(velocity) = row.components.velocity {
                    coin = draw(0, 2);
                    if coin == 0 {
                        pick = draw(0, 4);
                    }
                    let next = wander(velocity, coin, pick, settings.enemy_speed);
                    world.put(i, Some(next));
                }
            }
            proof {
                assert(world@.rows[i as int] == wander_row(
                    pre.rows[i as int],
                    coin as int,
                    pick as int,
                    settings,
                ));
            }
            i = i + 1;
        }
        let ghost mid = world@;
        let mut i: usize = 0;
        while i < n
            invariant
                world.wf(),
                pre.wf(),
                i <= n,
                n == pre.rows.len(),
                world@.rows.len() == n,
                mid.rows.len() == n,
                settings == config@,
                forall|j: int|
                    0 <= j < n ==> wander_outcome(pre.rows[j], #[trigger] mid.rows[j], settings),
                forall|j: int|
                    0 <= j < i ==> ai_outcome(pre.rows, j, #[trigger] world@.rows[j], settings),
                forall|j: int| i <= j < n ==> world@.rows[j] == mid.rows[j],
                forall|j: int|
                    0 <= j < n ==> (#[trigger] world@.rows[j]).components.enemy
                        == pre.rows[j].components.enemy && world@.rows[j].components.position
                        == pre.rows[j].components.position,
                world@.next_id == pre.next_id,
                world@.command == pre.command,
                world@.anomalies == pre.anomalies,
            decreases n - i,
        {
            let row = world.row(i);
            let ghost before = world@;
            proof {
                assert(wander_outcome(pre.rows[i as int], mid.rows[i as int], settings));
            }
            if row.components.ai_controlled.is_some() && row.components.hero.is_some() {
                if let Some(position) = row.components.position {
                    if let Some(velocity) = row.components.velocity {
                        let chosen = nearest_enemy(world, position);
                        let aim = match chosen {
                            Some(j) => world.row(j).components.position,
                            None => None,
                        };
                        proof {
                            lemma_target_frame(before.rows, pre.rows, position);
                        }
                        let next = steer(position, aim, velocity, settings.hero_speed);
                        world.put(i, Some(next));
                    }
                }
            }
            proof {
                let (coin, pick) = choose|coin: int, pick: int|
                    0 <= coin < 2 && 0 <= pick < 4 && mid.rows[i as int] == #[trigger] wander_row(
                        pre.rows[i as int],
                        coin,
                        pick,
                        settings,
                    );
                assert(world@.rows[i as int] == ai_row(pre.rows, i as int, coin, pick, settings));
            }
            i = i + 1;
        }
        proof {
            assert forall|j: int| 0 <= j < n implies (#[trigger] world@.rows[j]).entity
                == pre.rows[j].entity by {
                assert(ai_outcome(pre.rows, j, world@.rows[j], settings));
            }
            lemma_same_lookup(pre.rows, world@.rows);
        }
    }
}

} // verus!
