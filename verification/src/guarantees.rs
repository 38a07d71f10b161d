//! What holds of every tick, whatever the stages draw.

use vstd::prelude::*;
use crate::ai::{ai_outcome, magnitude, steered};
use crate::commands::{applied, lemma_survivors, spared, spawned, survivors, QueueView};
use crate::components::{Counter, Position, Velocity};
use crate::config::Settings;
use crate::enemy_spawner::{has_room, is_enemy_bundle};
use crate::physics::moved;
use crate::purge::{fresh, is_doomed, kills, lemma_doomed_frame, purge_step, Purge};
use crate::scheduler::{cleared, stage_step, stages_step, tick, Stage};
use crate::seq_facts::lemma_filter_same;
use crate::world::{
    enemy_count, entities, find, is_telemetry_row, lemma_enemy_count_filter,
    lemma_enemy_count_frame, lemma_enemy_count_push, lemma_find, lemma_find_none, ordered,
    Bundle, Entity, Row, WorldView,
};

verus! {

/// Whether two rows belong to the same entity and differ at most in the
/// value of the velocity and in the value of the counters.
pub open spec fn same_shape(before: Row, after: Row) -> bool {
    &&& after.entity == before.entity
    &&& after.components.position == before.components.position
    &&& after.components.velocity is Some <==> before.components.velocity is Some
    &&& after.components.ai_controlled == before.components.ai_controlled
    &&& after.components.enemy == before.components.enemy
    &&& after.components.hero == before.components.hero
    &&& after.components.keyboard_controlled == before.components.keyboard_controlled
    &&& after.components.telemetry is Some <==> before.components.telemetry is Some
    &&& after.components.sprite == before.components.sprite
    &&& after.components.animation == before.components.animation
}

/// Whether no counter of `after` lies below its value in `before`.
pub open spec fn counters_kept(before: Row, after: Row) -> bool {
    before.components.telemetry is Some ==> {
        &&& after.components.telemetry is Some
        &&& forall|counter: Counter|
            before.components.telemetry.unwrap().value(counter)
                <= #[trigger] after.components.telemetry.unwrap().value(counter)
    }
}

/// Whether two stores hold the same entities in the same order, with rows
/// of the same shape, and hand out the same identifier next.
pub open spec fn same_structure(pre: WorldView, post: WorldView) -> bool {
    &&& post.rows.len() == pre.rows.len()
    &&& forall|i: int| 0 <= i < pre.rows.len() ==> same_shape(pre.rows[i], #[trigger] post.rows[i])
    &&& post.next_id == pre.next_id
    &&& post.command == pre.command
}

/// Whether the queue holds no more creations than it did, but for one if
/// `spawns`.
pub open spec fn creations_bounded(
    pre_queue: QueueView,
    post_queue: QueueView,
    spawns: bool,
) -> bool {
    post_queue.creates.len() <= pre_queue.creates.len() + if spawns {
        1nat
    } else {
        0nat
    }
}

/// Whether `bundle` is what a new enemy carries, at some position of the
/// spawn region.
pub open spec fn is_spawn(bundle: Bundle, settings: Settings) -> bool {
    exists|position: Position|
        settings.in_spawn_region(position) && is_enemy_bundle(bundle, position)
}

/// Whether every queued bundle is that of a new enemy.
pub open spec fn creates_are_spawns(queue: QueueView, settings: Settings) -> bool {
    forall|k: int| 0 <= k < queue.creates.len() ==> is_spawn(#[trigger] queue.creates[k], settings)
}

/// Whether a row that is an AI-controlled enemy has a position and a
/// velocity.
pub open spec fn is_complete(row: Row) -> bool {
    row.components.ai_controlled is Some && row.components.enemy is Some ==> row.components.position
        is Some && row.components.velocity is Some
}

/// A stage writes velocities and counters only: it neither creates nor
/// destroys an entity, and it neither attaches nor detaches a component.
pub proof fn lemma_stage_keeps_structure(
    stage: Stage,
    pre: WorldView,
    pre_queue: QueueView,
    post: WorldView,
    post_queue: QueueView,
    settings: Settings,
)
    requires
        stage_step(stage, pre, pre_queue, post, post_queue, settings),
    ensures
        same_structure(pre, post),
{
    match stage {
        Stage::AI => {
            assert forall|i: int| 0 <= i < pre.rows.len() implies same_shape(
                pre.rows[i],
                #[trigger] post.rows[i],
            ) by {
                assert(ai_outcome(pre.rows, i, post.rows[i], settings));
            }
        },
        _ => {},
    }
}

/// While the stages of a tick run, the store holds
/// exactly the entities that it held when the tick began, in the same
/// order: no stage observes an entity that another stage of the same tick
/// created or destroyed. This holds of every prefix of the tick's stages,
/// so of the store that each single stage reads.
pub proof fn lemma_stages_keep_structure(
    order: Seq<Stage>,
    pre: WorldView,
    pre_queue: QueueView,
    post: WorldView,
    post_queue: QueueView,
    settings: Settings,
)
    requires
        stages_step(order, pre, pre_queue, post, post_queue, settings),
    ensures
        same_structure(pre, post),
        entities(post.rows) == entities(pre.rows),
    decreases order.len(),
{
    if order.len() > 0 {
        let (mid, mid_queue) = choose|mid: WorldView, mid_queue: QueueView|
            stages_step(order.drop_last(), pre, pre_queue, mid, mid_queue, settings)
                && #[trigger] stage_step(order.last(), mid, mid_queue, post, post_queue, settings);
        lemma_stages_keep_structure(order.drop_last(), pre, pre_queue, mid, mid_queue, settings);
        lemma_stage_keeps_structure(order.last(), mid, mid_queue, post, post_queue, settings);
        assert forall|i: int| 0 <= i < pre.rows.len() implies same_shape(
            pre.rows[i],
            #[trigger] post.rows[i],
        ) by {
            assert(same_shape(pre.rows[i], mid.rows[i]));
            assert(same_shape(mid.rows[i], post.rows[i]));
        }
    }
    assert(entities(post.rows) =~= entities(pre.rows));
}

/// No stage lowers a counter.
pub proof fn lemma_stages_keep_counters(
    order: Seq<Stage>,
    pre: WorldView,
    pre_queue: QueueView,
    post: WorldView,
    post_queue: QueueView,
    settings: Settings,
)
    requires
        stages_step(order, pre, pre_queue, post, post_queue, settings),
    ensures
        post.rows.len() == pre.rows.len(),
        forall|i: int|
            0 <= i < pre.rows.len() ==> counters_kept(pre.rows[i], #[trigger] post.rows[i]),
    decreases order.len(),
{
    if order.len() > 0 {
        let (mid, mid_queue) = choose|mid: WorldView, mid_queue: QueueView|
            stages_step(order.drop_last(), pre, pre_queue, mid, mid_queue, settings)
                && #[trigger] stage_step(order.last(), mid, mid_queue, post, post_queue, settings);
        lemma_stages_keep_counters(order.drop_last(), pre, pre_queue, mid, mid_queue, settings);
        lemma_stage_keeps_structure(order.last(), mid, mid_queue, post, post_queue, settings);
        assert forall|i: int| 0 <= i < pre.rows.len() implies counters_kept(
            pre.rows[i],
            #[trigger] post.rows[i],
        ) by {
            assert(counters_kept(pre.rows[i], mid.rows[i]));
            assert(counters_kept(mid.rows[i], post.rows[i])) by {
                match order.last() {
                    Stage::AI => {
                        assert(ai_outcome(mid.rows, i, post.rows[i], settings));
                    },
                    _ => {},
                }
            }
        }
    }
}

/// Creations keep the rows that the store holds, and every entity that they
/// add has an identifier that was not in use.
pub proof fn lemma_spawned_extends(world: WorldView, creates: Seq<Bundle>)
    ensures
        spawned(world, creates).rows.len() >= world.rows.len(),
        spawned(world, creates).next_id >= world.next_id,
        forall|i: int|
            0 <= i < world.rows.len() ==> #[trigger] spawned(world, creates).rows[i]
                == world.rows[i],
        forall|i: int|
            world.rows.len() <= i < spawned(world, creates).rows.len() ==> (#[trigger] spawned(
                world,
                creates,
            ).rows[i]).entity.id >= world.next_id,
    decreases creates.len(),
{
    if creates.len() > 0 {
        lemma_spawned_extends(world, creates.drop_last());
    }
}

/// Creations keep a store well-formed.
pub proof fn lemma_spawned_wf(world: WorldView, creates: Seq<Bundle>)
    requires
        world.wf(),
    ensures
        spawned(world, creates).wf(),
    decreases creates.len(),
{
    if creates.len() > 0 {
        lemma_spawned_wf(world, creates.drop_last());
    }
}

/// A tick keeps the store well-formed, and every entity
/// that is alive after it was alive before it or has an identifier that no
/// entity had before: an identifier is never handed out twice.
pub proof fn lemma_tick_keeps_wf(
    order: Seq<Stage>,
    pre: WorldView,
    post: WorldView,
    settings: Settings,
)
    requires
        pre.wf(),
        tick(order, pre, post, settings),
    ensures
        post.wf(),
        post.next_id >= pre.next_id,
        forall|j: int|
            0 <= j < post.rows.len() ==> (#[trigger] post.rows[j]).entity.id >= pre.next_id
                || find(pre.rows, post.rows[j].entity) is Some,
{
    let (mid, queue) = choose|mid: WorldView, queue: QueueView|
        stages_step(order, cleared(pre), QueueView::empty(), mid, queue, settings) && post
            == #[trigger] applied(mid, queue);
    lemma_stages_keep_structure(order, cleared(pre), QueueView::empty(), mid, queue, settings);
    assert(mid.wf()) by {
        assert forall|a: int, b: int| 0 <= a < b < mid.rows.len() implies mid.rows[a].entity.id
            < mid.rows[b].entity.id by {
            assert(same_shape(pre.rows[a], mid.rows[a]));
            assert(same_shape(pre.rows[b], mid.rows[b]));
        }
        assert forall|a: int| 0 <= a < mid.rows.len() implies mid.rows[a].entity.id
            < mid.next_id by {
            assert(same_shape(pre.rows[a], mid.rows[a]));
        }
    }
    let kept = survivors(mid.rows, queue.destroys);
    let cleared_out = WorldView { rows: kept, ..mid };
    lemma_survivors(mid.rows, queue.destroys);
    assert(cleared_out.wf()) by {
        assert forall|k: int| 0 <= k < kept.len() implies kept[k].entity.id < mid.next_id by {
            let a = choose|a: int| 0 <= a < mid.rows.len() && mid.rows[a] == kept[k];
        }
    }
    lemma_spawned_wf(cleared_out, queue.creates);
    lemma_spawned_extends(cleared_out, queue.creates);
    assert forall|j: int| 0 <= j < post.rows.len() implies (#[trigger] post.rows[j]).entity.id
        >= pre.next_id || find(pre.rows, post.rows[j].entity) is Some by {
        if j < kept.len() {
            let a = choose|a: int| 0 <= a < mid.rows.len() && mid.rows[a] == kept[j];
            assert(same_shape(pre.rows[a], mid.rows[a]));
            lemma_find(pre.rows, post.rows[j].entity, a);
        }
    }
}

/// A tick lowers no counter of an entity that it leaves
/// alive.
pub proof fn lemma_counters_never_decrease(
    order: Seq<Stage>,
    pre: WorldView,
    post: WorldView,
    settings: Settings,
    i: int,
    j: int,
)
    requires
        pre.wf(),
        tick(order, pre, post, settings),
        0 <= i < pre.rows.len(),
        0 <= j < post.rows.len(),
        post.rows[j].entity == pre.rows[i].entity,
    ensures
        counters_kept(pre.rows[i], post.rows[j]),
{
    let (mid, queue) = choose|mid: WorldView, queue: QueueView|
        stages_step(order, cleared(pre), QueueView::empty(), mid, queue, settings) && post
            == #[trigger] applied(mid, queue);
    lemma_stages_keep_structure(order, cleared(pre), QueueView::empty(), mid, queue, settings);
    lemma_stages_keep_counters(order, cleared(pre), QueueView::empty(), mid, queue, settings);
    let kept = survivors(mid.rows, queue.destroys);
    lemma_spawned_extends(WorldView { rows: kept, ..mid }, queue.creates);
    assert(pre.rows[i].entity.id < mid.next_id);
    assert(j < kept.len());
    mid.rows.lemma_filter_contains_rev(spared(queue.destroys), kept[j]);
    let k = choose|k: int| 0 <= k < mid.rows.len() && mid.rows[k] == kept[j];
    assert(same_shape(pre.rows[k], mid.rows[k]));
    if k < i {
        assert(pre.rows[k].entity.id < pre.rows[i].entity.id);
    } else if i < k {
        assert(pre.rows[i].entity.id < pre.rows[k].entity.id);
    }
    assert(counters_kept(pre.rows[i], mid.rows[i]));
}

/// The stages of a tick queue at most one creation, and only while the
/// population is below the cap; what they queue is a new enemy.
pub proof fn lemma_stages_bound_creations(
    order: Seq<Stage>,
    pre: WorldView,
    pre_queue: QueueView,
    post: WorldView,
    post_queue: QueueView,
    settings: Settings,
)
    requires
        stages_step(order, pre, pre_queue, post, post_queue, settings),
        order.no_duplicates(),
    ensures
        creations_bounded(
            pre_queue,
            post_queue,
            order.contains(Stage::EnemySpawner) && has_room(pre.rows, settings),
        ),
        creates_are_spawns(pre_queue, settings) ==> creates_are_spawns(post_queue, settings),
    decreases order.len(),
{
    if order.len() > 0 {
        let init = order.drop_last();
        let (mid, mid_queue) = choose|mid: WorldView, mid_queue: QueueView|
            stages_step(init, pre, pre_queue, mid, mid_queue, settings) && #[trigger] stage_step(
                order.last(),
                mid,
                mid_queue,
                post,
                post_queue,
                settings,
            );
        assert(init.no_duplicates()) by {
            assert forall|a: int, b: int| 0 <= a < init.len() && 0 <= b < init.len() && a
                != b implies init[a] != init[b] by {
                assert(order[a] != order[b]);
            }
        }
        lemma_stages_bound_creations(init, pre, pre_queue, mid, mid_queue, settings);
        lemma_stages_keep_structure(init, pre, pre_queue, mid, mid_queue, settings);
        lemma_enemy_count_frame(pre.rows, mid.rows);
        if order.last() == Stage::EnemySpawner {
            assert(!init.contains(Stage::EnemySpawner)) by {
                if init.contains(Stage::EnemySpawner) {
                    let a = choose|a: int| 0 <= a < init.len() && init[a] == Stage::EnemySpawner;
                    assert(order[a] == order[order.len() - 1]);
                }
            }
            assert(order[order.len() - 1] == Stage::EnemySpawner);
            if creates_are_spawns(pre_queue, settings) && has_room(mid.rows, settings) {
                assert forall|k: int| 0 <= k < post_queue.creates.len() implies is_spawn(
                    #[trigger] post_queue.creates[k],
                    settings,
                ) by {
                    if k < mid_queue.creates.len() {
                        assert(post_queue.creates.drop_last()[k] == mid_queue.creates[k]);
                    }
                }
            }
        } else {
            if init.contains(Stage::EnemySpawner) {
                let a = choose|a: int| 0 <= a < init.len() && init[a] == Stage::EnemySpawner;
                assert(order[a] == Stage::EnemySpawner);
            }
            if order.contains(Stage::EnemySpawner) {
                let a = choose|a: int| 0 <= a < order.len() && order[a] == Stage::EnemySpawner;
                assert(init[a] == Stage::EnemySpawner);
            }
        }
    }
}

/// Creations add at most one enemy each.
pub proof fn lemma_spawned_enemy_count(world: WorldView, creates: Seq<Bundle>)
    ensures
        enemy_count(spawned(world, creates).rows) <= enemy_count(world.rows) + creates.len(),
    decreases creates.len(),
{
    if creates.len() > 0 {
        let before = spawned(world, creates.drop_last());
        lemma_spawned_enemy_count(world, creates.drop_last());
        if before.next_entity() is Some {
            lemma_enemy_count_push(
                before.rows,
                Row { entity: before.next_entity().unwrap(), components: creates.last() },
            );
        }
    }
}

/// A tick never raises the number of enemies above the
/// cap: where it was at most the cap before the tick, it is at most the cap
/// after it, and in any case the tick adds no enemy to a population that
/// is at the cap or above.
pub proof fn lemma_population_cap(
    order: Seq<Stage>,
    pre: WorldView,
    post: WorldView,
    settings: Settings,
)
    requires
        order.no_duplicates(),
        tick(order, pre, post, settings),
    ensures
        enemy_count(pre.rows) <= settings.max_enemies ==> enemy_count(post.rows)
            <= settings.max_enemies,
        enemy_count(pre.rows) >= settings.max_enemies ==> enemy_count(post.rows) <= enemy_count(
            pre.rows,
        ),
{
    let (mid, queue) = choose|mid: WorldView, queue: QueueView|
        stages_step(order, cleared(pre), QueueView::empty(), mid, queue, settings) && post
            == #[trigger] applied(mid, queue);
    lemma_stages_keep_structure(order, cleared(pre), QueueView::empty(), mid, queue, settings);
    lemma_stages_bound_creations(order, cleared(pre), QueueView::empty(), mid, queue, settings);
    lemma_enemy_count_frame(pre.rows, mid.rows);
    lemma_enemy_count_filter(mid.rows, spared(queue.destroys));
    lemma_spawned_enemy_count(
        WorldView { rows: survivors(mid.rows, queue.destroys), ..mid },
        queue.creates,
    );
}

/// Whether each store of `worlds` but the first is what a tick makes of the
/// store before it.
pub open spec fn ticks(order: Seq<Stage>, worlds: Seq<WorldView>, settings: Settings) -> bool {
    forall|k: int|
        0 < k < worlds.len() ==> tick(order, worlds[k - 1], #[trigger] worlds[k], settings)
}

/// In any sequence of ticks that starts with the
/// number of enemies at most the cap, that number is at most the cap after
/// every tick.
pub proof fn lemma_population_cap_always(
    order: Seq<Stage>,
    worlds: Seq<WorldView>,
    settings: Settings,
    k: int,
)
    requires
        order.no_duplicates(),
        ticks(order, worlds, settings),
        0 <= k < worlds.len(),
        enemy_count(worlds[0].rows) <= settings.max_enemies,
    ensures
        enemy_count(worlds[k].rows) <= settings.max_enemies,
    decreases k,
{
    if k > 0 {
        lemma_population_cap_always(order, worlds, settings, k - 1);
        lemma_population_cap(order, worlds[k - 1], worlds[k], settings);
    }
}

/// The stage that purges for the reason `purge`.
pub open spec fn purger(purge: Purge) -> Stage {
    match purge {
        Purge::OutOfBounds => Stage::EnemyOOBPurger,
        Purge::Collision => Stage::EnemyColliderPurger,
    }
}

/// A purge queues every doomed enemy, and no stage takes an entity out of
/// the queue.
pub proof fn lemma_stages_queue_doomed(
    order: Seq<Stage>,
    pre: WorldView,
    pre_queue: QueueView,
    post: WorldView,
    post_queue: QueueView,
    settings: Settings,
    purge: Purge,
    i: int,
)
    requires
        stages_step(order, pre, pre_queue, post, post_queue, settings),
        0 <= i < pre.rows.len(),
        is_doomed(pre.rows, pre.rows[i], settings, purge),
    ensures
        forall|entity: Entity|
            pre_queue.destroys.contains(entity) ==> post_queue.destroys.contains(entity),
        order.contains(purger(purge)) ==> post_queue.destroys.contains(pre.rows[i].entity),
    decreases order.len(),
{
    if order.len() > 0 {
        let init = order.drop_last();
        let (mid, mid_queue) = choose|mid: WorldView, mid_queue: QueueView|
            stages_step(init, pre, pre_queue, mid, mid_queue, settings) && #[trigger] stage_step(
                order.last(),
                mid,
                mid_queue,
                post,
                post_queue,
                settings,
            );
        lemma_stages_queue_doomed(init, pre, pre_queue, mid, mid_queue, settings, purge, i);
        lemma_stages_keep_structure(init, pre, pre_queue, mid, mid_queue, settings);
        assert forall|entity: Entity|
            mid_queue.destroys.contains(entity) implies post_queue.destroys.contains(entity) by {
            let k = choose|k: int|
                0 <= k < mid_queue.destroys.len() && mid_queue.destroys[k] == entity;
            match order.last() {
                Stage::EnemyOOBPurger | Stage::EnemyColliderPurger => {
                    assert(post_queue.destroys[k] == entity);
                },
                _ => {},
            }
        }
        if order.contains(purger(purge)) {
            let at = choose|at: int| 0 <= at < order.len() && order[at] == purger(purge);
            if at < init.len() {
                assert(init[at] == purger(purge));
            } else {
                let entity = pre.rows[i].entity;
                lemma_doomed_frame(mid.rows, pre.rows, settings, purge, i);
                assert(purge_step(mid, mid_queue, post, post_queue, settings, purge));
                if !mid_queue.destroys.contains(entity) {
                    let test = fresh(mid.rows, settings, purge, mid_queue.destroys);
                    mid.rows.lemma_filter_contains(test, i);
                    let kept = mid.rows.filter(test);
                    let k = choose|k: int| 0 <= k < kept.len() && kept[k] == mid.rows[i];
                    let killed = kills(mid.rows, settings, purge, mid_queue.destroys);
                    assert(killed[k] == entity);
                    assert(post_queue.destroys[mid_queue.destroys.len() + k] == entity);
                }
            }
        }
    }
}

/// After a tick whose schedule holds a purge, no enemy is alive that
/// was doomed for that purge's reason when the tick began: an enemy outside
/// the arena, or one that touches a hero.
pub proof fn lemma_doomed_enemies_are_gone(
    order: Seq<Stage>,
    pre: WorldView,
    post: WorldView,
    settings: Settings,
    purge: Purge,
    i: int,
)
    requires
        pre.wf(),
        tick(order, pre, post, settings),
        order.contains(purger(purge)),
        0 <= i < pre.rows.len(),
        is_doomed(pre.rows, pre.rows[i], settings, purge),
    ensures
        find(post.rows, pre.rows[i].entity) is None,
{
    let entity = pre.rows[i].entity;
    let (mid, queue) = choose|mid: WorldView, queue: QueueView|
        stages_step(order, cleared(pre), QueueView::empty(), mid, queue, settings) && post
            == #[trigger] applied(mid, queue);
    lemma_stages_keep_structure(order, cleared(pre), QueueView::empty(), mid, queue, settings);
    lemma_stages_queue_doomed(
        order,
        cleared(pre),
        QueueView::empty(),
        mid,
        queue,
        settings,
        purge,
        i,
    );
    let kept = survivors(mid.rows, queue.destroys);
    assert(ordered(mid.rows)) by {
        assert forall|a: int, b: int| 0 <= a < b < mid.rows.len() implies mid.rows[a].entity.id
            < mid.rows[b].entity.id by {
            assert(same_shape(pre.rows[a], mid.rows[a]));
            assert(same_shape(pre.rows[b], mid.rows[b]));
        }
    }
    lemma_survivors(mid.rows, queue.destroys);
    lemma_spawned_extends(WorldView { rows: kept, ..mid }, queue.creates);
    assert forall|j: int| 0 <= j < post.rows.len() implies post.rows[j].entity != entity by {
        if j >= kept.len() {
            assert(post.rows[j].entity.id >= mid.next_id);
        }
    }
    lemma_find_none(post.rows, entity);
}

/// Only a purge queues a destruction, and only for a doomed enemy.
pub proof fn lemma_stages_queue_only_doomed(
    order: Seq<Stage>,
    pre: WorldView,
    pre_queue: QueueView,
    post: WorldView,
    post_queue: QueueView,
    settings: Settings,
    entity: Entity,
)
    requires
        stages_step(order, pre, pre_queue, post, post_queue, settings),
        post_queue.destroys.contains(entity),
        !pre_queue.destroys.contains(entity),
    ensures
        exists|i: int, purge: Purge|
            0 <= i < pre.rows.len() && pre.rows[i].entity == entity && order.contains(
                purger(purge),
            ) && #[trigger] is_doomed(pre.rows, pre.rows[i], settings, purge),
    decreases order.len(),
{
    if order.len() > 0 {
        let init = order.drop_last();
        let (mid, mid_queue) = choose|mid: WorldView, mid_queue: QueueView|
            stages_step(init, pre, pre_queue, mid, mid_queue, settings) && #[trigger] stage_step(
                order.last(),
                mid,
                mid_queue,
                post,
                post_queue,
                settings,
            );
        lemma_stages_keep_structure(init, pre, pre_queue, mid, mid_queue, settings);
        if mid_queue.destroys.contains(entity) {
            lemma_stages_queue_only_doomed(init, pre, pre_queue, mid, mid_queue, settings, entity);
            let (i, purge) = choose|i: int, purge: Purge|
                0 <= i < pre.rows.len() && pre.rows[i].entity == entity && init.contains(
                    purger(purge),
                ) && #[trigger] is_doomed(pre.rows, pre.rows[i], settings, purge);
            let at = choose|at: int| 0 <= at < init.len() && init[at] == purger(purge);
            assert(order[at] == purger(purge));
            assert(is_doomed(pre.rows, pre.rows[i], settings, purge));
        } else {
            let purge = match order.last() {
                Stage::EnemyOOBPurger => Purge::OutOfBounds,
                _ => Purge::Collision,
            };
            assert(order[order.len() - 1] == purger(purge));
            let test = fresh(mid.rows, settings, purge, mid_queue.destroys);
            let kept = mid.rows.filter(test);
            let at = choose|at: int|
                0 <= at < post_queue.destroys.len() && post_queue.destroys[at] == entity;
            if at < mid_queue.destroys.len() {
                assert(mid_queue.destroys[at] == entity);
            }
            let k = at - mid_queue.destroys.len();
            assert(kept[k].entity == entity);
            mid.rows.lemma_filter_pred(test, k);
            mid.rows.lemma_filter_contains_rev(test, kept[k]);
            let i = choose|i: int| 0 <= i < mid.rows.len() && mid.rows[i] == kept[k];
            lemma_doomed_frame(mid.rows, pre.rows, settings, purge, i);
            assert(same_shape(pre.rows[i], mid.rows[i]));
            assert(is_doomed(pre.rows, pre.rows[i], settings, purge));
        }
    }
}

/// A tick leaves every entity alive that no scheduled purge dooms
/// when the tick begins, with all of its components; of these only the
/// values of its velocity and of its counters may have changed.
pub proof fn lemma_spared_entities_survive(
    order: Seq<Stage>,
    pre: WorldView,
    post: WorldView,
    settings: Settings,
    i: int,
)
    requires
        pre.wf(),
        tick(order, pre, post, settings),
        0 <= i < pre.rows.len(),
        forall|purge: Purge|
            order.contains(purger(purge)) ==> !#[trigger] is_doomed(
                pre.rows,
                pre.rows[i],
                settings,
                purge,
            ),
    ensures
        exists|j: int| 0 <= j < post.rows.len() && same_shape(pre.rows[i], #[trigger] post.rows[j]),
{
    let entity = pre.rows[i].entity;
    let (mid, queue) = choose|mid: WorldView, queue: QueueView|
        stages_step(order, cleared(pre), QueueView::empty(), mid, queue, settings) && post
            == #[trigger] applied(mid, queue);
    lemma_stages_keep_structure(order, cleared(pre), QueueView::empty(), mid, queue, settings);
    if queue.destroys.contains(entity) {
        lemma_stages_queue_only_doomed(
            order,
            cleared(pre),
            QueueView::empty(),
            mid,
            queue,
            settings,
            entity,
        );
        let (k, purge) = choose|k: int, purge: Purge|
            0 <= k < pre.rows.len() && pre.rows[k].entity == entity && order.contains(
                purger(purge),
            ) && #[trigger] is_doomed(pre.rows, pre.rows[k], settings, purge);
        if k < i {
            assert(pre.rows[k].entity.id < pre.rows[i].entity.id);
        } else if i < k {
            assert(pre.rows[i].entity.id < pre.rows[k].entity.id);
        }
    }
    let kept = survivors(mid.rows, queue.destroys);
    assert(same_shape(pre.rows[i], mid.rows[i]));
    mid.rows.lemma_filter_contains(spared(queue.destroys), i);
    let j = choose|j: int| 0 <= j < kept.len() && kept[j] == mid.rows[i];
    lemma_spawned_extends(WorldView { rows: kept, ..mid }, queue.creates);
    assert(same_shape(pre.rows[i], post.rows[j]));
}

/// Destroying an entity a second time
/// changes nothing.
pub proof fn lemma_destroy_twice(world: WorldView, entity: Entity)
    requires
        ordered(world.rows),
    ensures
        world.destroyed(entity).destroyed(entity) == world.destroyed(entity),
{
    let once = world.destroyed(entity);
    match find(world.rows, entity) {
        Some(i) => {
            lemma_find_none(world.rows, entity);
            assert forall|j: int| 0 <= j < once.rows.len() implies once.rows[j].entity
                != entity by {
                if j < i {
                    assert(world.rows[j].entity.id < world.rows[i].entity.id);
                } else {
                    assert(world.rows[i].entity.id < world.rows[j + 1].entity.id);
                }
            }
            lemma_find_none(once.rows, entity);
        },
        None => {},
    }
}

/// Queueing an entity that is queued already does not change which rows
/// survive.
pub proof fn lemma_survivors_again(rows: Seq<Row>, doomed: Seq<Entity>, entity: Entity)
    requires
        doomed.contains(entity),
    ensures
        survivors(rows, doomed.push(entity)) == survivors(rows, doomed),
{
    assert forall|i: int| 0 <= i < rows.len() implies spared(doomed.push(entity))(
        #[trigger] rows[i],
    ) == spared(doomed)(rows[i]) by {
        let e = rows[i].entity;
        if doomed.contains(e) {
            let k = choose|k: int| 0 <= k < doomed.len() && doomed[k] == e;
            assert(doomed.push(entity)[k] == e);
        }
        if doomed.push(entity).contains(e) {
            let k = choose|k: int|
                0 <= k < doomed.push(entity).len() && doomed.push(entity)[k] == e;
            if k < doomed.len() {
                assert(doomed[k] == e);
            }
        }
    }
    lemma_filter_same(rows, spared(doomed.push(entity)), spared(doomed));
}

/// A queue that destroys an entity twice
/// leaves the store as the queue that destroys it once does.
pub proof fn lemma_queue_destroy_twice(world: WorldView, queue: QueueView, entity: Entity)
    ensures
        applied(
            world,
            QueueView { destroys: queue.destroys.push(entity).push(entity), ..queue },
        ) == applied(world, QueueView { destroys: queue.destroys.push(entity), ..queue }),
{
    let once = queue.destroys.push(entity);
    assert(once[once.len() - 1] == entity);
    lemma_survivors_again(world.rows, once, entity);
}

/// What holds of the components of every row and of every queued bundle
/// holds of the components of every row once the bundles are created.
pub proof fn lemma_spawned_all(
    world: WorldView,
    creates: Seq<Bundle>,
    good: spec_fn(Bundle) -> bool,
)
    requires
        forall|i: int| 0 <= i < world.rows.len() ==> good((#[trigger] world.rows[i]).components),
        forall|k: int| 0 <= k < creates.len() ==> good(#[trigger] creates[k]),
    ensures
        forall|i: int|
            0 <= i < spawned(world, creates).rows.len() ==> good(
                (#[trigger] spawned(world, creates).rows[i]).components,
            ),
    decreases creates.len(),
{
    if creates.len() > 0 {
        let init = creates.drop_last();
        assert forall|k: int| 0 <= k < init.len() implies good(#[trigger] init[k]) by {
            assert(good(creates[k]));
        }
        lemma_spawned_all(world, init, good);
        assert(good(creates[creates.len() - 1]));
    }
}

/// A tick on a store without a telemetry row completes,
/// and no counter exists afterwards.
pub proof fn lemma_no_telemetry_row(
    order: Seq<Stage>,
    pre: WorldView,
    post: WorldView,
    settings: Settings,
)
    requires
        order.no_duplicates(),
        tick(order, pre, post, settings),
        forall|i: int| 0 <= i < pre.rows.len() ==> !(#[trigger] pre.rows[i]).has_telemetry(),
    ensures
        forall|i: int| 0 <= i < post.rows.len() ==> !(#[trigger] post.rows[i]).has_telemetry(),
        post.telemetry() is None,
{
    let (mid, queue) = choose|mid: WorldView, queue: QueueView|
        stages_step(order, cleared(pre), QueueView::empty(), mid, queue, settings) && post
            == #[trigger] applied(mid, queue);
    lemma_stages_keep_structure(order, cleared(pre), QueueView::empty(), mid, queue, settings);
    lemma_stages_bound_creations(order, cleared(pre), QueueView::empty(), mid, queue, settings);
    let kept = survivors(mid.rows, queue.destroys);
    assert forall|i: int| 0 <= i < kept.len() implies !(#[trigger] kept[i]).has_telemetry() by {
        mid.rows.lemma_filter_contains_rev(spared(queue.destroys), kept[i]);
        let j = choose|j: int| 0 <= j < mid.rows.len() && mid.rows[j] == kept[i];
        assert(same_shape(pre.rows[j], mid.rows[j]));
    }
    let uncounted = |bundle: Bundle| bundle.telemetry is None;
    assert forall|k: int| 0 <= k < queue.creates.len() implies uncounted(
        #[trigger] queue.creates[k],
    ) by {
        assert(is_spawn(queue.creates[k], settings));
    }
    lemma_spawned_all(WorldView { rows: kept, ..mid }, queue.creates, uncounted);
    assert forall|i: int| 0 <= i < post.rows.len() implies !(
    #[trigger] post.rows[i]).has_telemetry() by {
        assert(uncounted(post.rows[i].components));
    }
    if exists|i: int| is_telemetry_row(post.rows, i) {
        let i = choose|i: int| is_telemetry_row(post.rows, i);
        assert(post.rows[i].has_telemetry());
    }
}

/// A hero that pursues an enemy and then moves comes closer
/// by exactly its speed, along one axis, and never passes the enemy: its
/// speed is at most the distance that was left on that axis.
pub proof fn lemma_pursuit_never_overshoots(
    hero: Position,
    enemy: Position,
    velocity: Velocity,
    max_speed: i32,
)
    requires
        max_speed >= 0,
    ensures
        ({
            let pursuit = steered(hero, Some(enemy), velocity, max_speed);
            let next = moved(hero, pursuit);
            &&& 0 <= pursuit.speed <= max_speed
            &&& magnitude(enemy.x - next.x) + magnitude(enemy.y - next.y) == magnitude(
                enemy.x - hero.x,
            ) + magnitude(enemy.y - hero.y) - pursuit.speed
            &&& next.x == hero.x || next.y == hero.y
            &&& pursuit.speed == 0 <==> hero == enemy || max_speed == 0
        }),
{
}

/// A tick keeps the enemies complete: where every AI-controlled enemy has a
/// position and a velocity before the tick, every one has them after it.
pub proof fn lemma_enemies_stay_complete(
    order: Seq<Stage>,
    pre: WorldView,
    post: WorldView,
    settings: Settings,
)
    requires
        order.no_duplicates(),
        tick(order, pre, post, settings),
        forall|i: int| 0 <= i < pre.rows.len() ==> is_complete(#[trigger] pre.rows[i]),
    ensures
        forall|i: int| 0 <= i < post.rows.len() ==> is_complete(#[trigger] post.rows[i]),
{
    let (mid, queue) = choose|mid: WorldView, queue: QueueView|
        stages_step(order, cleared(pre), QueueView::empty(), mid, queue, settings) && post
            == #[trigger] applied(mid, queue);
    lemma_stages_keep_structure(order, cleared(pre), QueueView::empty(), mid, queue, settings);
    lemma_stages_bound_creations(order, cleared(pre), QueueView::empty(), mid, queue, settings);
    let kept = survivors(mid.rows, queue.destroys);
    let complete = |bundle: Bundle|
        bundle.ai_controlled is Some && bundle.enemy is Some ==> bundle.position is Some
            && bundle.velocity is Some;
    assert forall|i: int| 0 <= i < kept.len() implies complete((#[trigger] kept[i]).components) by {
        mid.rows.lemma_filter_contains_rev(spared(queue.destroys), kept[i]);
        let j = choose|j: int| 0 <= j < mid.rows.len() && mid.rows[j] == kept[i];
        assert(same_shape(pre.rows[j], mid.rows[j]));
        assert(is_complete(pre.rows[j]));
    }
    assert forall|k: int| 0 <= k < queue.creates.len() implies complete(
        #[trigger] queue.creates[k],
    ) by {
        assert(is_spawn(queue.creates[k], settings));
    }
    lemma_spawned_all(WorldView { rows: kept, ..mid }, queue.creates, complete);
    assert forall|i: int| 0 <= i < post.rows.len() implies is_complete(#[trigger] post.rows[i]) by {
        assert(complete(post.rows[i].components));
    }
}

/// Every position of the spawn region lies inside the arena, so a new
/// enemy is never out of bounds when it appears.
pub proof fn lemma_spawns_are_in_bounds(settings: Settings, position: Position)
    requires
        settings.valid(),
        settings.in_spawn_region(position),
    ensures
        settings.in_bounds(position),
{
}

} // verus!
