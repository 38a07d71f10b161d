//! The deferred mutation queue. Stages never create or destroy entities
//! while a tick runs; they queue commands, which are applied to the store
//! once every stage has run: first the destructions, then the creations.

use vstd::prelude::*;
use crate::seq_facts::{lemma_filter_all, lemma_filter_same, lemma_filter_twice};
use crate::world::{
    find, lemma_destroyed, lemma_filter_ordered, ordered, other_than, Anomaly, Bundle, Entity, Row,
    World, WorldView,
};

verus! {

/// The structural commands queued during one tick.
pub struct CommandQueue {
    creates: Vec<Bundle>,
    destroys: Vec<Entity>,
}

/// The mathematical content of a `CommandQueue`.
pub struct QueueView {
    /// The bundles of the entities to create, in queueing order.
    pub creates: Seq<Bundle>,
    /// The entities to destroy, in queueing order.
    pub destroys: Seq<Entity>,
}

impl QueueView {
    /// The queue without commands.
    pub open spec fn empty() -> QueueView {
        QueueView { creates: Seq::empty(), destroys: Seq::empty() }
    }
}

/// The test for rows whose entity is not in `doomed`.
pub open spec fn spared(doomed: Seq<Entity>) -> spec_fn(Row) -> bool {
    |row: Row| !doomed.contains(row.entity)
}

/// The rows that are left once every entity in `doomed` is destroyed.
pub open spec fn survivors(rows: Seq<Row>, doomed: Seq<Entity>) -> Seq<Row> {
    rows.filter(spared(doomed))
}

/// The store after a queued creation: the entity is created, or, once every
/// identifier has been used, the anomaly is logged.
pub open spec fn born(world: WorldView, bundle: Bundle) -> WorldView {
    match world.next_entity() {
        Some(_) => world.created(bundle),
        None => WorldView {
            anomalies: world.anomalies.push(Anomaly::EntityIdsExhausted),
            ..world
        },
    }
}

/// The store after the queued creations, in queueing order.
pub open spec fn spawned(world: WorldView, creates: Seq<Bundle>) -> WorldView
    decreases creates.len(),
{
    if creates.len() == 0 {
        world
    } else {
        born(spawned(world, creates.drop_last()), creates.last())
    }
}

/// The store after the queue is applied: destructions first, then
/// creations.
pub open spec fn applied(world: WorldView, queue: QueueView) -> WorldView {
    spawned(WorldView { rows: survivors(world.rows, queue.destroys), ..world }, queue.creates)
}

/// Destroying one more entity removes its row from the survivors.
pub proof fn lemma_survivors_push(rows: Seq<Row>, doomed: Seq<Entity>, entity: Entity)
    requires
        ordered(rows),
    ensures
        ordered(survivors(rows, doomed)),
        survivors(rows, doomed.push(entity)) == match find(survivors(rows, doomed), entity) {
            Some(i) => survivors(rows, doomed).remove(i),
            None => survivors(rows, doomed),
        },
{
    let both = |row: Row| spared(doomed)(row) && other_than(entity)(row);
    lemma_filter_ordered(rows, spared(doomed));
    lemma_destroyed(survivors(rows, doomed), entity);
    lemma_filter_twice(rows, spared(doomed), other_than(entity));
    assert forall|i: int| 0 <= i < rows.len() implies both(#[trigger] rows[i]) == spared(
        doomed.push(entity),
    )(rows[i]) by {
        let e = rows[i].entity;
        if doomed.contains(e) {
            let k = choose|k: int| 0 <= k < doomed.len() && doomed[k] == e;
            assert(doomed.push(entity)[k] == e);
        }
        if e == entity {
            assert(doomed.push(entity)[doomed.len() as int] == e);
        }
    }
    lemma_filter_same(rows, both, spared(doomed.push(entity)));
}

/// The rows survive in order, and none of them belongs to a doomed entity.
pub proof fn lemma_survivors(rows: Seq<Row>, doomed: Seq<Entity>)
    requires
        ordered(rows),
    ensures
        ordered(survivors(rows, doomed)),
        forall|k: int|
            0 <= k < survivors(rows, doomed).len() ==> !doomed.contains(
                (#[trigger] survivors(rows, doomed)[k]).entity,
            ) && exists|i: int| 0 <= i < rows.len() && rows[i] == survivors(rows, doomed)[k],
        forall|i: int|
            0 <= i < rows.len() && !doomed.contains(rows[i].entity) ==> survivors(
                rows,
                doomed,
            ).contains(#[trigger] rows[i]),
{
    lemma_filter_ordered(rows, spared(doomed));
    assert forall|k: int| 0 <= k < survivors(rows, doomed).len() implies !doomed.contains(
        (#[trigger] survivors(rows, doomed)[k]).entity,
    ) by {
        rows.lemma_filter_pred(spared(doomed), k);
    }
    assert forall|i: int|
        0 <= i < rows.len() && !doomed.contains(rows[i].entity) implies survivors(
        rows,
        doomed,
    ).contains(#[trigger] rows[i]) by {
        rows.lemma_filter_contains(spared(doomed), i);
    }
}

/// Without doomed entities every row survives.
pub proof fn lemma_survivors_of_none(rows: Seq<Row>)
    ensures
        survivors(rows, Seq::empty()) == rows,
{
    lemma_filter_all(rows, spared(Seq::empty()));
}

impl View for CommandQueue {
    type V = QueueView;

    closed spec fn view(&self) -> QueueView {
        QueueView { creates: self.creates@, destroys: self.destroys@ }
    }
}

impl CommandQueue {
    /// An empty queue.
    pub fn new() -> (queue: CommandQueue)
        ensures
            queue@ == QueueView::empty(),
    {
        CommandQueue { creates: Vec::new(), destroys: Vec::new() }
    }

    /// Queues the creation of an entity that carries `bundle`.
    pub fn queue_create(&mut self, bundle: Bundle)
        ensures
            final(self)@ == (QueueView {
                creates: old(self)@.creates.push(bundle),
                ..old(self)@
            }),
    {
        self.creates.push(bundle);
    }

    /// Whether the destruction of `entity` is queued.
    pub fn is_queued(&self, entity: Entity) -> (queued: bool)
        ensures
            queued == self@.destroys.contains(entity),
    {
        let mut k: usize = 0;
        while k < self.destroys.len()
            invariant
                k <= self.destroys.len(),
                forall|j: int| 0 <= j < k ==> self.destroys@[j] != entity,
            decreases self.destroys.len() - k,
        {
            if self.destroys[k].id == entity.id {
                return true;
            }
            k = k + 1;
        }
        false
    }

    /// Queues the destruction of `entity`. Returns whether it was not queued
    /// before; queueing it again changes nothing.
    pub fn queue_destroy(&mut self, entity: Entity) -> (fresh: bool)
        ensures
            fresh == !old(self)@.destroys.contains(entity),
            final(self)@ == (QueueView {
                destroys: if fresh {
                    old(self)@.destroys.push(entity)
                } else {
                    old(self)@.destroys
                },
                ..old(self)@
            }),
    {
        if self.is_queued(entity) {
            false
        } else {
            self.destroys.push(entity);
            true
        }
    }

    /// Applies the queue to the store: every queued entity is destroyed,
    /// then every queued bundle becomes a new entity.
    pub fn apply(self, world: &mut World)
        requires
            old(world).wf(),
        ensures
            final(world).wf(),
            final(world)@ == applied(old(world)@, self@),
    {
        let ghost start = world@;
        let ghost queue = self@;
        let CommandQueue { creates, destroys } = self;
        proof {
            lemma_survivors_of_none(start.rows);
            assert(queue.destroys.take(0) =~= Seq::empty());
        }
        let mut k: usize = 0;
        while k < destroys.len()
            invariant
                world.wf(),
                start.wf(),
                k <= destroys.len(),
                destroys@ == queue.destroys,
                world@ == (WorldView {
                    rows: survivors(start.rows, queue.destroys.take(k as int)),
                    ..start
                }),
            decreases destroys.len() - k,
        {
            proof {
                lemma_survivors_push(
                    start.rows,
                    queue.destroys.take(k as int),
                    destroys@[k as int],
                );
                assert(queue.destroys.take(k as int).push(destroys@[k as int])
                    =~= queue.destroys.take(k + 1));
            }
            world.destroy(destroys[k]);
            k = k + 1;
        }
        assert(queue.destroys.take(k as int) =~= queue.destroys);
        let ghost cleared = world@;
        let mut creates = creates;
        let ghost mut done: int = 0;
        while creates.len() > 0
            invariant
                world.wf(),
                0 <= done <= queue.creates.len(),
                creates@ == queue.creates.skip(done),
                world@ == spawned(cleared, queue.creates.take(done)),
            decreases creates.len(),
        {
            proof {
                assert(queue.creates.take(done + 1).drop_last() =~= queue.creates.take(done));
                assert(creates@.remove(0) =~= queue.creates.skip(done + 1));
            }
            let bundle = creates.remove(0);
            if world.create(bundle).is_none() {
                world.report(Anomaly::EntityIdsExhausted);
            }
            proof {
                done = done + 1;
            }
        }
        assert(queue.creates.take(done) =~= queue.creates);
    }
}

} // verus!
