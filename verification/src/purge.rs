//! What the purge stages share: a sweep over the rows that queues every
//! doomed enemy for destruction and counts it once.

use vstd::prelude::*;
use crate::commands::{CommandQueue, QueueView};
use crate::components::Counter;
use crate::config::{Config, Settings};
use crate::enemy_collider_purger::{collides, touches, EnemyColliderPurger};
use crate::enemy_oob_purger::{out_of_bounds, EnemyOOBPurger};
use crate::seq_facts::lemma_filter_step;
use crate::world::{
    entities, lemma_filter_ordered, lemma_recorded_again, lemma_same_lookup, same_lookup, Entity,
    Row, World, WorldView,
};

verus! {

/// The reasons for which an enemy is purged.
#[derive(Clone, Copy, Debug, PartialEq, Eq, Structural)]
pub enum Purge {
    /// The enemy has left the arena.
    OutOfBounds,
    /// The enemy touches a hero.
    Collision,
}

impl Purge {
    /// The counter that counts the enemies purged for this reason.
    pub open spec fn counter(self) -> Counter {
        match self {
            Purge::OutOfBounds => Counter::EnemyOob,
            Purge::Collision => Counter::EnemyCollisions,
        }
    }

    /// Computes `counter`.
    pub fn counted_by(self) -> (counter: Counter)
        ensures
            counter == self.counter(),
    {
        match self {
            Purge::OutOfBounds => Counter::EnemyOob,
            Purge::Collision => Counter::EnemyCollisions,
        }
    }
}

/// Whether `row` is to be purged for the reason `purge`.
pub open spec fn is_doomed(rows: Seq<Row>, row: Row, settings: Settings, purge: Purge) -> bool {
    match purge {
        Purge::OutOfBounds => out_of_bounds(row, settings),
        Purge::Collision => collides(rows, row, settings),
    }
}

/// The test for rows that a sweep queues: doomed, and not queued before.
pub open spec fn fresh(rows: Seq<Row>, settings: Settings, purge: Purge, queued: Seq<Entity>)
    -> spec_fn(Row) -> bool {
    |row: Row| is_doomed(rows, row, settings, purge) && !queued.contains(row.entity)
}

/// The entities that a sweep queues, in row order.
pub open spec fn kills(rows: Seq<Row>, settings: Settings, purge: Purge, queued: Seq<Entity>)
    -> Seq<Entity> {
    entities(rows.filter(fresh(rows, settings, purge, queued)))
}

/// What one sweep does: the doomed enemies that were not queued before are
/// appended to the queued destructions, and the reason's counter is
/// incremented once for each of them. No entity is created or destroyed.
pub open spec fn purge_step(
    pre: WorldView,
    pre_queue: QueueView,
    post: WorldView,
    post_queue: QueueView,
    settings: Settings,
    purge: Purge,
) -> bool {
    let killed = kills(pre.rows, settings, purge, pre_queue.destroys);
    &&& post_queue == (QueueView { destroys: pre_queue.destroys + killed, ..pre_queue })
    &&& post == pre.recorded_times(purge.counter(), killed.len())
}

/// Whether a row is doomed depends only on which rows are enemies and
/// heroes, and where they stand.
pub proof fn lemma_doomed_frame(a: Seq<Row>, b: Seq<Row>, settings: Settings, purge: Purge, i: int)
    requires
        a.len() == b.len(),
        0 <= i < a.len(),
        forall|k: int|
            0 <= k < a.len() ==> (#[trigger] a[k]).components.enemy == b[k].components.enemy
                && a[k].components.hero == b[k].components.hero && a[k].components.position
                == b[k].components.position,
    ensures
        is_doomed(a, a[i], settings, purge) == is_doomed(b, b[i], settings, purge),
{
    if collides(a, a[i], settings) {
        let h = choose|h: int| 0 <= h < a.len() && touches(#[trigger] a[h], a[i], settings);
        assert(touches(b[h], b[i], settings));
    }
    if collides(b, b[i], settings) {
        let h = choose|h: int| 0 <= h < b.len() && touches(#[trigger] b[h], b[i], settings);
        assert(touches(a[h], a[i], settings));
    }
}

/// Tests `is_doomed` on row `i`.
pub fn dooms(world: &World, i: usize, config: &Config, purge: Purge) -> (hit: bool)
    requires
        i < world@.rows.len(),
    ensures
        hit == is_doomed(world@.rows, world@.rows[i as int], config@, purge),
{
    match purge {
        Purge::OutOfBounds => EnemyOOBPurger::dooms(world, i, config),
        Purge::Collision => EnemyColliderPurger::dooms(world, i, config),
    }
}

/// Sweeps the rows in order. Every row that is doomed for the reason
/// `purge` is queued for destruction; if it was not queued before, the
/// reason's counter is incremented.
pub fn sweep(world: &mut World, queue: &mut CommandQueue, config: &Config, purge: Purge)
    requires
        old(world).wf(),
        config.wf(),
    ensures
        final(world).wf(),
        purge_step(old(world)@, old(queue)@, final(world)@, final(queue)@, config@, purge),
        same_lookup(old(world)@.rows, final(world)@.rows),
{
    let ghost pre = world@;
    let ghost pre_queue = queue@;
    let ghost test = fresh(pre.rows, config@, purge, pre_queue.destroys);
    let counter = purge.counted_by();
    let n = world.len();
    let mut i: usize = 0;
    proof {
        lemma_recorded_again(pre, counter, 0);
        assert(pre_queue.destroys + entities(pre.rows.take(0).filter(test))
            =~= pre_queue.destroys) by {
            reveal(Seq::filter);
        }
    }
    while i < n
        invariant
            world.wf(),
            pre.wf(),
            i <= n,
            n == pre.rows.len(),
            counter == purge.counter(),
            test == fresh(pre.rows, config@, purge, pre_queue.destroys),
            queue@ == (QueueView {
                destroys: pre_queue.destroys + entities(pre.rows.take(i as int).filter(test)),
                ..pre_queue
            }),
            world@ == pre.recorded_times(counter, pre.rows.take(i as int).filter(test).len()),
        decreases n - i,
    {
        let ghost kept = pre.rows.take(i as int).filter(test);
        proof {
            lemma_doomed_frame(world@.rows, pre.rows, config@, purge, i as int);
            lemma_filter_step(pre.rows, test, i as int);
            lemma_filter_ordered(pre.rows.take(i as int), test);
            lemma_recorded_again(pre, counter, kept.len());
            assert(world@.rows[i as int].entity == pre.rows[i as int].entity);
            assert(!entities(kept).contains(pre.rows[i as int].entity)) by {
                if entities(kept).contains(pre.rows[i as int].entity) {
                    let k = choose|k: int|
                        0 <= k < kept.len() && entities(kept)[k] == pre.rows[i as int].entity;
                    let j = choose|j: int| 0 <= j < i && pre.rows.take(i as int)[j] == kept[k];
                    assert(pre.rows[j].entity.id < pre.rows[i as int].entity.id);
                }
            }
            assert(entities(kept.push(pre.rows[i as int])) =~= entities(kept).push(
                pre.rows[i as int].entity,
            ));
            assert((pre_queue.destroys + entities(kept)).contains(pre.rows[i as int].entity)
                == pre_queue.destroys.contains(pre.rows[i as int].entity)) by {
                let e = pre.rows[i as int].entity;
                let all = pre_queue.destroys + entities(kept);
                if pre_queue.destroys.contains(e) {
                    let k = choose|k: int|
                        0 <= k < pre_queue.destroys.len() && pre_queue.destroys[k] == e;
                    assert(all[k] == e);
                }
                if all.contains(e) {
                    let k = choose|k: int| 0 <= k < all.len() && all[k] == e;
                    if k >= pre_queue.destroys.len() {
                        assert(entities(kept)[k - pre_queue.destroys.len()] == e);
                    }
                }
            }
            assert((pre_queue.destroys + entities(kept)).push(pre.rows[i as int].entity)
                =~= pre_queue.destroys + entities(kept).push(pre.rows[i as int].entity));
        }
        if dooms(world, i, config, purge) {
            let entity = world.entity_at(i);
            if queue.queue_destroy(entity) {
                world.record(counter);
            }
        }
        i = i + 1;
    }
    assert(pre.rows.take(i as int) =~= pre.rows);
    proof {
        lemma_same_lookup(pre.rows, world@.rows);
    }
}

} // verus!
