//! The component store: entities, their component rows, and the shared
//! resource slots of the simulation.
//!
//! Rows are kept in the order in which their entities were created, and
//! entity identifiers grow with every creation, so an identifier is never
//! handed out twice.

use vstd::prelude::*;
use crate::components::{
    AIControlled, Counter, Enemy, Hero, KeyboardControlled, MovementAnimation, Position, Sprite,
    Telemetry, Velocity,
};
use crate::seq_facts::{lemma_filter_push, lemma_filter_same, lemma_filter_step, lemma_filter_twice};
use crate::MovementCommand;

verus! {

/// An opaque identifier that joins the component rows of one entity.
#[derive(Clone, Copy, Debug, PartialEq, Eq, Structural)]
pub struct Entity {
    pub id: u64,
}

/// At most one value of each component type.
#[derive(Debug)]
pub struct Bundle {
    pub position: Option<Position>,
    pub velocity: Option<Velocity>,
    pub ai_controlled: Option<AIControlled>,
    pub enemy: Option<Enemy>,
    pub hero: Option<Hero>,
    pub keyboard_controlled: Option<KeyboardControlled>,
    pub telemetry: Option<Telemetry>,
    pub sprite: Option<Sprite>,
    pub animation: Option<MovementAnimation>,
}

/// An entity together with the components attached to it.
#[derive(Debug)]
pub struct Row {
    pub entity: Entity,
    pub components: Bundle,
}

/// A set of component types, used to select rows.
#[derive(Clone, Copy, Debug, PartialEq, Eq, Structural)]
pub struct Signature {
    pub position: bool,
    pub velocity: bool,
    pub ai_controlled: bool,
    pub enemy: bool,
    pub hero: bool,
    pub keyboard_controlled: bool,
    pub telemetry: bool,
    pub sprite: bool,
    pub animation: bool,
}

/// A condition that a tick survived without doing all of its work.
#[derive(Clone, Copy, Debug, PartialEq, Eq, Structural)]
pub enum Anomaly {
    /// A counter was to be incremented, but no row carries `Telemetry`.
    TelemetryMissing(Counter),
    /// An entity was to be created, but every identifier has been used.
    EntityIdsExhausted,
}

/// The component store and the resource slots shared by the stages.
pub struct World {
    rows: Vec<Row>,
    next_id: u64,
    command: Option<MovementCommand>,
    anomalies: Vec<Anomaly>,
}

/// The mathematical content of a `World`.
pub struct WorldView {
    /// The live entities with their components, in creation order.
    pub rows: Seq<Row>,
    /// The identifier that the next created entity receives.
    pub next_id: nat,
    /// The movement intent left for the current tick.
    pub command: Option<MovementCommand>,
    /// The anomalies reported since the log was last cleared.
    pub anomalies: Seq<Anomaly>,
}

impl Bundle {
    /// Whether every component type of `signature` is present.
    pub open spec fn has_all(self, signature: Signature) -> bool {
        &&& signature.position ==> self.position is Some
        &&& signature.velocity ==> self.velocity is Some
        &&& signature.ai_controlled ==> self.ai_controlled is Some
        &&& signature.enemy ==> self.enemy is Some
        &&& signature.hero ==> self.hero is Some
        &&& signature.keyboard_controlled ==> self.keyboard_controlled is Some
        &&& signature.telemetry ==> self.telemetry is Some
        &&& signature.sprite ==> self.sprite is Some
        &&& signature.animation ==> self.animation is Some
    }

    /// Whether no component is present.
    pub open spec fn is_empty(self) -> bool {
        &&& self.position is None
        &&& self.velocity is None
        &&& self.ai_controlled is None
        &&& self.enemy is None
        &&& self.hero is None
        &&& self.keyboard_controlled is None
        &&& self.telemetry is None
        &&& self.sprite is None
        &&& self.animation is None
    }

    /// A bundle without components.
    pub fn new() -> (bundle: Bundle)
        ensures
            bundle.is_empty(),
    {
        Bundle {
            position: None,
            velocity: None,
            ai_controlled: None,
            enemy: None,
            hero: None,
            keyboard_controlled: None,
            telemetry: None,
            sprite: None,
            animation: None,
        }
    }

    /// This bundle with `value` in the slot of its type.
    pub fn with<T: Component>(self, value: T) -> (bundle: Bundle)
        ensures
            bundle == T::filled(self, Some(value)),
    {
        let mut bundle = self;
        T::write(&mut bundle, Some(value));
        bundle
    }

    /// Tests `has_all`.
    pub fn matches(&self, signature: &Signature) -> (r: bool)
        ensures
            r == self.has_all(*signature),
    {
        (!signature.position || self.position.is_some())
            && (!signature.velocity || self.velocity.is_some())
            && (!signature.ai_controlled || self.ai_controlled.is_some())
            && (!signature.enemy || self.enemy.is_some())
            && (!signature.hero || self.hero.is_some())
            && (!signature.keyboard_controlled || self.keyboard_controlled.is_some())
            && (!signature.telemetry || self.telemetry.is_some())
            && (!signature.sprite || self.sprite.is_some())
            && (!signature.animation || self.animation.is_some())
    }
}

/// A type of component: it names its slot in a bundle.
pub trait Component: Sized {
    /// The value of this type in `bundle`.
    spec fn slot(bundle: Bundle) -> Option<Self>;

    /// `bundle` with the value of this type replaced; all other slots are
    /// kept.
    spec fn filled(bundle: Bundle, value: Option<Self>) -> Bundle;

    /// Reads the slot.
    fn read(bundle: &Bundle) -> (r: Option<&Self>)
        ensures
            match r {
                Some(value) => Self::slot(*bundle) == Some(*value),
                None => Self::slot(*bundle) is None,
            },
    ;

    /// Replaces the slot and returns what it held.
    fn write(bundle: &mut Bundle, value: Option<Self>) -> (previous: Option<Self>)
        ensures
            *final(bundle) == Self::filled(*old(bundle), value),
            previous == Self::slot(*old(bundle)),
    ;

    /// Borrows the value in the slot for writing. What is written through
    /// the borrow is what the slot holds afterwards.
    fn edit(bundle: &mut Bundle) -> (r: Option<&mut Self>)
        ensures
            match r {
                Some(value) => Self::slot(*old(bundle)) == Some(*value) && *final(bundle)
                    == Self::filled(*old(bundle), Some(*final(value))),
                None => Self::slot(*old(bundle)) is None && *final(bundle) == *old(bundle),
            },
    ;
}

impl Component for Position {
    open spec fn slot(bundle: Bundle) -> Option<Position> {
        bundle.position
    }

    open spec fn filled(bundle: Bundle, value: Option<Position>) -> Bundle {
        Bundle { position: value, ..bundle }
    }

    fn read(bundle: &Bundle) -> (r: Option<&Position>) {
        bundle.position.as_ref()
    }

    fn write(bundle: &mut Bundle, value: Option<Position>) -> (previous: Option<Position>) {
        let previous = bundle.position.take();
        bundle.position = value;
        previous
    }

    fn edit(bundle: &mut Bundle) -> (r: Option<&mut Position>) {
        bundle.position.as_mut()
    }
}

impl Component for Velocity {
    open spec fn slot(bundle: Bundle) -> Option<Velocity> {
        bundle.velocity
    }

    open spec fn filled(bundle: Bundle, value: Option<Velocity>) -> Bundle {
        Bundle { velocity: value, ..bundle }
    }

    fn read(bundle: &Bundle) -> (r: Option<&Velocity>) {
        bundle.velocity.as_ref()
    }

    fn write(bundle: &mut Bundle, value: Option<Velocity>) -> (previous: Option<Velocity>) {
        let previous = bundle.velocity.take();
        bundle.velocity = value;
        previous
    }

    fn edit(bundle: &mut Bundle) -> (r: Option<&mut Velocity>) {
        bundle.velocity.as_mut()
    }
}

impl Component for AIControlled {
    open spec fn slot(bundle: Bundle) -> Option<AIControlled> {
        bundle.ai_controlled
    }

    open spec fn filled(bundle: Bundle, value: Option<AIControlled>) -> Bundle {
        Bundle { ai_controlled: value, ..bundle }
    }

    fn read(bundle: &Bundle) -> (r: Option<&AIControlled>) {
        bundle.ai_controlled.as_ref()
    }

    fn write(bundle: &mut Bundle, value: Option<AIControlled>) -> (previous: Option<AIControlled>) {
        let previous = bundle.ai_controlled.take();
        bundle.ai_controlled = value;
        previous
    }

    fn edit(bundle: &mut Bundle) -> (r: Option<&mut AIControlled>) {
        bundle.ai_controlled.as_mut()
    }
}

impl Component for Enemy {
    open spec fn slot(bundle: Bundle) -> Option<Enemy> {
        bundle.enemy
    }

    open spec fn filled(bundle: Bundle, value: Option<Enemy>) -> Bundle {
        Bundle { enemy: value, ..bundle }
    }

    fn read(bundle: &Bundle) -> (r: Option<&Enemy>) {
        bundle.enemy.as_ref()
    }

    fn write(bundle: &mut Bundle, value: Option<Enemy>) -> (previous: Option<Enemy>) {
        let previous = bundle.enemy.take();
        bundle.enemy = value;
        previous
    }

    fn edit(bundle: &mut Bundle) -> (r: Option<&mut Enemy>) {
        bundle.enemy.as_mut()
    }
}

impl Component for Hero {
    open spec fn slot(bundle: Bundle) -> Option<Hero> {
        bundle.hero
    }

    open spec fn filled(bundle: Bundle, value: Option<Hero>) -> Bundle {
        Bundle { hero: value, ..bundle }
    }

    fn read(bundle: &Bundle) -> (r: Option<&Hero>) {
        bundle.hero.as_ref()
    }

    fn write(bundle: &mut Bundle, value: Option<Hero>) -> (previous: Option<Hero>) {
        let previous = bundle.hero.take();
        bundle.hero = value;
        previous
    }

    fn edit(bundle: &mut Bundle) -> (r: Option<&mut Hero>) {
        bundle.hero.as_mut()
    }
}

impl Component for KeyboardControlled {
    open spec fn slot(bundle: Bundle) -> Option<KeyboardControlled> {
        bundle.keyboard_controlled
    }

    open spec fn filled(bundle: Bundle, value: Option<KeyboardControlled>) -> Bundle {
        Bundle { keyboard_controlled: value, ..bundle }
    }

    fn read(bundle: &Bundle) -> (r: Option<&KeyboardControlled>) {
        bundle.keyboard_controlled.as_ref()
    }

    fn write(bundle: &mut Bundle, value: Option<KeyboardControlled>) -> (previous: Option<
        KeyboardControlled,
    >) {
        let previous = bundle.keyboard_controlled.take();
        bundle.keyboard_controlled = value;
        previous
    }

    fn edit(bundle: &mut Bundle) -> (r: Option<&mut KeyboardControlled>) {
        bundle.keyboard_controlled.as_mut()
    }
}

impl Component for Telemetry {
    open spec fn slot(bundle: Bundle) -> Option<Telemetry> {
        bundle.telemetry
    }

    open spec fn filled(bundle: Bundle, value: Option<Telemetry>) -> Bundle {
        Bundle { telemetry: value, ..bundle }
    }

    fn read(bundle: &Bundle) -> (r: Option<&Telemetry>) {
        bundle.telemetry.as_ref()
    }

    fn write(bundle: &mut Bundle, value: Option<Telemetry>) -> (previous: Option<Telemetry>) {
        let previous = bundle.telemetry.take();
        bundle.telemetry = value;
        previous
    }

    fn edit(bundle: &mut Bundle) -> (r: Option<&mut Telemetry>) {
        bundle.telemetry.as_mut()
    }
}

impl Component for Sprite {
    open spec fn slot(bundle: Bundle) -> Option<Sprite> {
        bundle.sprite
    }

    open spec fn filled(bundle: Bundle, value: Option<Sprite>) -> Bundle {
        Bundle { sprite: value, ..bundle }
    }

    fn read(bundle: &Bundle) -> (r: Option<&Sprite>) {
        bundle.sprite.as_ref()
    }

    fn write(bundle: &mut Bundle, value: Option<Sprite>) -> (previous: Option<Sprite>) {
        let previous = bundle.sprite.take();
        bundle.sprite = value;
        previous
    }

    fn edit(bundle: &mut Bundle) -> (r: Option<&mut Sprite>) {
        bundle.sprite.as_mut()
    }
}

impl Component for MovementAnimation {
    open spec fn slot(bundle: Bundle) -> Option<MovementAnimation> {
        bundle.animation
    }

    open spec fn filled(bundle: Bundle, value: Option<MovementAnimation>) -> Bundle {
        Bundle { animation: value, ..bundle }
    }

    fn read(bundle: &Bundle) -> (r: Option<&MovementAnimation>) {
        bundle.animation.as_ref()
    }

    fn write(bundle: &mut Bundle, value: Option<MovementAnimation>) -> (previous: Option<
        MovementAnimation,
    >) {
        let previous = bundle.animation.take();
        bundle.animation = value;
        previous
    }

    fn edit(bundle: &mut Bundle) -> (r: Option<&mut MovementAnimation>) {
        bundle.animation.as_mut()
    }
}

impl Signature {
    /// The signature that asks for nothing; every row matches it.
    pub fn none() -> (signature: Signature)
        ensures
            signature == (Signature {
                position: false,
                velocity: false,
                ai_controlled: false,
                enemy: false,
                hero: false,
                keyboard_controlled: false,
                telemetry: false,
                sprite: false,
                animation: false,
            }),
    {
        Signature {
            position: false,
            velocity: false,
            ai_controlled: false,
            enemy: false,
            hero: false,
            keyboard_controlled: false,
            telemetry: false,
            sprite: false,
            animation: false,
        }
    }
}

impl Row {
    /// Whether the row carries `Enemy`.
    pub open spec fn is_enemy(self) -> bool {
        self.components.enemy is Some
    }

    /// Whether the row carries `Telemetry`.
    pub open spec fn has_telemetry(self) -> bool {
        self.components.telemetry is Some
    }
}

/// Identifiers grow along the rows, so no entity has two rows.
pub open spec fn ordered(rows: Seq<Row>) -> bool {
    forall|i: int, j: int| 0 <= i < j < rows.len() ==> rows[i].entity.id < rows[j].entity.id
}

/// The entities of the rows, in row order.
pub open spec fn entities(rows: Seq<Row>) -> Seq<Entity> {
    rows.map_values(|row: Row| row.entity)
}

/// Whether row `i` belongs to `entity`.
pub open spec fn holds(rows: Seq<Row>, entity: Entity, i: int) -> bool {
    0 <= i < rows.len() && rows[i].entity == entity
}

/// The index of the row of `entity`, if it is alive.
pub open spec fn find(rows: Seq<Row>, entity: Entity) -> Option<int> {
    if exists|i: int| holds(rows, entity, i) {
        Some(choose|i: int| holds(rows, entity, i))
    } else {
        None
    }
}

/// Whether row `i` is the last one that carries `Telemetry`.
pub open spec fn is_telemetry_row(rows: Seq<Row>, i: int) -> bool {
    &&& 0 <= i < rows.len()
    &&& rows[i].has_telemetry()
    &&& forall|j: int| i < j < rows.len() ==> !rows[j].has_telemetry()
}

/// The index of the row that stages treat as the telemetry singleton: the
/// last row that carries `Telemetry`.
pub open spec fn telemetry_index(rows: Seq<Row>) -> Option<int> {
    if exists|i: int| is_telemetry_row(rows, i) {
        Some(choose|i: int| is_telemetry_row(rows, i))
    } else {
        None
    }
}

/// The test for rows that carry `Enemy`.
pub open spec fn enemy_rows() -> spec_fn(Row) -> bool {
    |row: Row| row.is_enemy()
}

/// The test for rows that carry every component type of `signature`.
pub open spec fn matching(signature: Signature) -> spec_fn(Row) -> bool {
    |row: Row| row.components.has_all(signature)
}

/// The test for rows of other entities than `entity`.
pub open spec fn other_than(entity: Entity) -> spec_fn(Row) -> bool {
    |row: Row| row.entity != entity
}

/// The number of rows that carry `Enemy`.
pub open spec fn enemy_count(rows: Seq<Row>) -> nat {
    rows.filter(enemy_rows()).len()
}

/// The entities that carry every component type of `signature`, in row
/// order.
pub open spec fn joined(rows: Seq<Row>, signature: Signature) -> Seq<Entity> {
    entities(rows.filter(matching(signature)))
}

/// `row` with its `Telemetry` replaced.
pub open spec fn with_telemetry(row: Row, telemetry: Telemetry) -> Row {
    Row { components: Bundle { telemetry: Some(telemetry), ..row.components }, ..row }
}

/// In ordered rows an entity has at most one row, so `find` is that row.
pub proof fn lemma_find(rows: Seq<Row>, entity: Entity, i: int)
    requires
        ordered(rows),
        holds(rows, entity, i),
    ensures
        find(rows, entity) == Some(i),
{
    let j = choose|j: int| holds(rows, entity, j);
    assert(holds(rows, entity, j));
    if j < i {
        assert(rows[j].entity.id < rows[i].entity.id);
    } else if i < j {
        assert(rows[i].entity.id < rows[j].entity.id);
    }
}

/// `find` fails exactly for the entities without a row.
pub proof fn lemma_find_none(rows: Seq<Row>, entity: Entity)
    ensures
        find(rows, entity) is None <==> forall|i: int|
            0 <= i < rows.len() ==> rows[i].entity != entity,
{
    if find(rows, entity) is None {
        assert forall|i: int| 0 <= i < rows.len() implies rows[i].entity != entity by {
            assert(!holds(rows, entity, i));
        }
    } else {
        let j = choose|j: int| holds(rows, entity, j);
        assert(holds(rows, entity, j));
    }
}

/// Whether every entity is found in `after` where it is found in `before`.
pub open spec fn same_lookup(before: Seq<Row>, after: Seq<Row>) -> bool {
    forall|entity: Entity| #[trigger] find(after, entity) == find(before, entity)
}

/// Rows that belong to the same entities, one by one, are found alike.
pub proof fn lemma_same_lookup(before: Seq<Row>, after: Seq<Row>)
    requires
        ordered(before),
        after.len() == before.len(),
        forall|i: int| 0 <= i < before.len() ==> (#[trigger] after[i]).entity == before[i].entity,
    ensures
        same_lookup(before, after),
        ordered(after),
{
    assert forall|entity: Entity| #[trigger] find(after, entity) == find(before, entity) by {
        lemma_find_none(before, entity);
        lemma_find_none(after, entity);
        match find(before, entity) {
            Some(i) => {
                assert(holds(before, entity, i));
                assert(after[i].entity == entity);
                lemma_find(after, entity, i);
            },
            None => {
                assert forall|i: int| 0 <= i < after.len() implies after[i].entity != entity by {
                    assert(after[i].entity == before[i].entity);
                }
            },
        }
    }
}

/// After a creation the new entity is found in the last row, and every other
/// entity where it was.
pub proof fn lemma_find_created(rows: Seq<Row>, row: Row)
    requires
        ordered(rows.push(row)),
    ensures
        forall|entity: Entity| #[trigger]
            find(rows.push(row), entity) == if entity == row.entity {
                Some(rows.len() as int)
            } else {
                find(rows, entity)
            },
{
    let longer = rows.push(row);
    assert forall|entity: Entity| #[trigger]
        find(longer, entity) == if entity == row.entity {
            Some(rows.len() as int)
        } else {
            find(rows, entity)
        } by {
        lemma_find_none(rows, entity);
        lemma_find_none(longer, entity);
        if entity == row.entity {
            lemma_find(longer, entity, rows.len() as int);
        } else {
            match find(rows, entity) {
                Some(i) => {
                    assert(holds(rows, entity, i));
                    lemma_find(longer, entity, i);
                },
                None => {
                    assert forall|i: int| 0 <= i < longer.len() implies longer[i].entity
                        != entity by {
                        if i < rows.len() {
                            assert(longer[i] == rows[i]);
                        }
                    }
                },
            }
        }
    }
}

/// After the destruction of the entity of row `i`, that entity is not found
/// any more; the entities before it are found where they were, those after
/// it one row earlier.
pub proof fn lemma_find_removed(rows: Seq<Row>, i: int)
    requires
        ordered(rows),
        0 <= i < rows.len(),
    ensures
        ordered(rows.remove(i)),
        forall|entity: Entity| #[trigger]
            find(rows.remove(i), entity) == match find(rows, entity) {
                Some(j) => if j < i {
                    Some(j)
                } else if j == i {
                    None
                } else {
                    Some(j - 1)
                },
                None => None,
            },
{
    let shorter = rows.remove(i);
    assert forall|entity: Entity| #[trigger]
        find(shorter, entity) == match find(rows, entity) {
            Some(j) => if j < i {
                Some(j)
            } else if j == i {
                None
            } else {
                Some(j - 1)
            },
            None => None,
        } by {
        lemma_find_none(rows, entity);
        lemma_find_none(shorter, entity);
        match find(rows, entity) {
            Some(j) => {
                assert(holds(rows, entity, j));
                if j < i {
                    lemma_find(shorter, entity, j);
                } else if j > i {
                    lemma_find(shorter, entity, j - 1);
                } else {
                    assert forall|k: int| 0 <= k < shorter.len() implies shorter[k].entity
                        != entity by {
                        if k < i {
                            assert(rows[k].entity.id < rows[i].entity.id);
                        } else {
                            assert(rows[i].entity.id < rows[k + 1].entity.id);
                        }
                    }
                }
            },
            None => {
                assert forall|k: int| 0 <= k < shorter.len() implies shorter[k].entity
                    != entity by {
                    if k < i {
                        assert(shorter[k] == rows[k]);
                    } else {
                        assert(shorter[k] == rows[k + 1]);
                    }
                }
            },
        }
    }
}

/// The telemetry singleton is the only row that satisfies `is_telemetry_row`.
pub proof fn lemma_telemetry_index(rows: Seq<Row>, i: int)
    requires
        is_telemetry_row(rows, i),
    ensures
        telemetry_index(rows) == Some(i),
{
    let j = choose|j: int| is_telemetry_row(rows, j);
    assert(is_telemetry_row(rows, j));
}

/// A filter keeps rows in order, and keeps only rows that it was given.
pub proof fn lemma_filter_ordered(rows: Seq<Row>, pred: spec_fn(Row) -> bool)
    requires
        ordered(rows),
    ensures
        ordered(rows.filter(pred)),
        forall|k: int|
            0 <= k < rows.filter(pred).len() ==> exists|i: int|
                0 <= i < rows.len() && rows[i] == #[trigger] rows.filter(pred)[k],
    decreases rows.len(),
{
    reveal(Seq::filter);
    if rows.len() > 0 {
        let init = rows.drop_last();
        let kept = init.filter(pred);
        lemma_filter_ordered(init, pred);
        assert forall|k: int| 0 <= k < rows.filter(pred).len() implies exists|i: int|
            0 <= i < rows.len() && rows[i] == #[trigger] rows.filter(pred)[k] by {
            if k < kept.len() {
                let i = choose|i: int| 0 <= i < init.len() && init[i] == kept[k];
                assert(rows[i] == rows.filter(pred)[k]);
            } else {
                assert(rows[rows.len() - 1] == rows.filter(pred)[k]);
            }
        }
        assert forall|a: int, b: int| 0 <= a < b < rows.filter(pred).len() implies rows.filter(
            pred,
        )[a].entity.id < rows.filter(pred)[b].entity.id by {
            if b == kept.len() {
                let i = choose|i: int| 0 <= i < init.len() && init[i] == kept[a];
                assert(rows[i].entity.id < rows[rows.len() - 1].entity.id);
            }
        }
    }
}

/// Destroying an entity keeps exactly the rows of the other entities.
pub proof fn lemma_destroyed(rows: Seq<Row>, entity: Entity)
    requires
        ordered(rows),
    ensures
        rows.filter(other_than(entity)) == match find(rows, entity) {
            Some(i) => rows.remove(i),
            None => rows,
        },
    decreases rows.len(),
{
    reveal(Seq::filter);
    if rows.len() == 0 {
        lemma_find_none(rows, entity);
    } else {
        let init = rows.drop_last();
        let last = rows.len() - 1;
        lemma_destroyed(init, entity);
        if rows[last].entity == entity {
            lemma_find(rows, entity, last);
            lemma_find_none(init, entity);
            assert(rows.remove(last) =~= init);
        } else {
            match find(init, entity) {
                Some(i) => {
                    assert(holds(init, entity, i));
                    lemma_find(rows, entity, i);
                    assert(rows.remove(i) =~= init.remove(i).push(rows[last]));
                },
                None => {
                    lemma_find_none(init, entity);
                    lemma_find_none(rows, entity);
                    assert(rows =~= init.push(rows[last]));
                },
            }
        }
    }
}

/// The number of enemies depends only on which rows carry `Enemy`.
pub proof fn lemma_enemy_count_frame(a: Seq<Row>, b: Seq<Row>)
    requires
        a.len() == b.len(),
        forall|i: int| 0 <= i < a.len() ==> a[i].is_enemy() == b[i].is_enemy(),
    ensures
        enemy_count(a) == enemy_count(b),
    decreases a.len(),
{
    reveal(Seq::filter);
    if a.len() > 0 {
        lemma_enemy_count_frame(a.drop_last(), b.drop_last());
    }
}

/// A filter never raises the number of enemies.
pub proof fn lemma_enemy_count_filter(rows: Seq<Row>, pred: spec_fn(Row) -> bool)
    ensures
        enemy_count(rows.filter(pred)) <= enemy_count(rows),
{
    let first = |row: Row| pred(row) && enemy_rows()(row);
    let second = |row: Row| enemy_rows()(row) && pred(row);
    lemma_filter_twice(rows, pred, enemy_rows());
    lemma_filter_twice(rows, enemy_rows(), pred);
    lemma_filter_same(rows, first, second);
    rows.filter(enemy_rows()).lemma_filter_len(pred);
}

/// One more row raises the number of enemies by one if it carries `Enemy`.
pub proof fn lemma_enemy_count_push(rows: Seq<Row>, row: Row)
    ensures
        enemy_count(rows.push(row)) == enemy_count(rows) + if row.is_enemy() {
            1nat
        } else {
            0nat
        },
{
    lemma_filter_push(rows, enemy_rows(), row);
}

/// The telemetry singleton depends only on which rows carry `Telemetry`.
pub proof fn lemma_telemetry_index_frame(a: Seq<Row>, b: Seq<Row>)
    requires
        a.len() == b.len(),
        forall|i: int| 0 <= i < a.len() ==> a[i].has_telemetry() == b[i].has_telemetry(),
    ensures
        telemetry_index(a) == telemetry_index(b),
{
    if exists|i: int| is_telemetry_row(a, i) {
        let i = choose|i: int| is_telemetry_row(a, i);
        assert(is_telemetry_row(b, i));
        lemma_telemetry_index(a, i);
        lemma_telemetry_index(b, i);
    } else if exists|i: int| is_telemetry_row(b, i) {
        let i = choose|i: int| is_telemetry_row(b, i);
        assert(is_telemetry_row(a, i));
    }
}

/// Increments of one counter add up.
pub proof fn lemma_recorded_again(world: WorldView, counter: Counter, times: nat)
    ensures
        world.recorded_times(counter, times).recorded(counter) == world.recorded_times(
            counter,
            times + 1,
        ),
        world.recorded_times(counter, 0) == world,
{
    let once = world.recorded_times(counter, times);
    lemma_telemetry_index_frame(world.rows, once.rows);
    match telemetry_index(world.rows) {
        Some(i) => {
            assert(is_telemetry_row(world.rows, i));
            assert(once.recorded(counter).rows =~= world.recorded_times(counter, times + 1).rows);
            assert(world.recorded_times(counter, 0).rows =~= world.rows);
        },
        None => {
            assert(once.recorded(counter).anomalies =~= world.recorded_times(
                counter,
                times + 1,
            ).anomalies);
            assert(world.recorded_times(counter, 0).anomalies =~= world.anomalies);
        },
    }
}

impl WorldView {
    /// Well-formedness: rows are ordered by identifier, and every identifier
    /// in use lies below the next one to be handed out.
    pub open spec fn wf(self) -> bool {
        &&& ordered(self.rows)
        &&& forall|i: int| 0 <= i < self.rows.len() ==> self.rows[i].entity.id < self.next_id
        &&& self.next_id <= u64::MAX
    }

    /// The entity that the next creation returns, unless identifiers have
    /// run out.
    pub open spec fn next_entity(self) -> Option<Entity> {
        if self.next_id < u64::MAX {
            Some(Entity { id: self.next_id as u64 })
        } else {
            None
        }
    }

    /// The store after creating an entity with `bundle`.
    pub open spec fn created(self, bundle: Bundle) -> WorldView {
        match self.next_entity() {
            Some(entity) => WorldView {
                rows: self.rows.push(Row { entity, components: bundle }),
                next_id: self.next_id + 1,
                ..self
            },
            None => self,
        }
    }

    /// The store after destroying `entity`; destroying a dead entity changes
    /// nothing.
    pub open spec fn destroyed(self, entity: Entity) -> WorldView {
        match find(self.rows, entity) {
            Some(i) => WorldView { rows: self.rows.remove(i), ..self },
            None => self,
        }
    }

    /// The store with the slot of type `T` in row `i` replaced.
    pub open spec fn with_slot<T: Component>(self, i: int, value: Option<T>) -> WorldView {
        WorldView {
            rows: self.rows.update(
                i,
                Row { components: T::filled(self.rows[i].components, value), ..self.rows[i] },
            ),
            ..self
        }
    }

    /// The component of type `T` attached to `entity`.
    pub open spec fn component<T: Component>(self, entity: Entity) -> Option<T> {
        match find(self.rows, entity) {
            Some(i) => T::slot(self.rows[i].components),
            None => None,
        }
    }

    /// The store with the component of type `T` of `entity` replaced; a dead
    /// entity leaves the store as it is.
    pub open spec fn with_component<T: Component>(
        self,
        entity: Entity,
        value: Option<T>,
    ) -> WorldView {
        match find(self.rows, entity) {
            Some(i) => self.with_slot(i, value),
            None => self,
        }
    }

    /// The counters that presentation shows: those of the telemetry
    /// singleton.
    pub open spec fn telemetry(self) -> Option<Telemetry> {
        match telemetry_index(self.rows) {
            Some(i) => self.rows[i].components.telemetry,
            None => None,
        }
    }

    /// The store after one increment of `counter`: the telemetry singleton is
    /// updated, or, without one, the anomaly is logged.
    pub open spec fn recorded(self, counter: Counter) -> WorldView {
        self.recorded_times(counter, 1)
    }

    /// The store after `times` increments of `counter`.
    pub open spec fn recorded_times(self, counter: Counter, times: nat) -> WorldView {
        match telemetry_index(self.rows) {
            Some(i) => WorldView {
                rows: self.rows.update(
                    i,
                    with_telemetry(
                        self.rows[i],
                        self.rows[i].components.telemetry.unwrap().bumped(counter, times),
                    ),
                ),
                ..self
            },
            None => WorldView {
                anomalies: self.anomalies + Seq::new(
                    times,
                    |k: int| Anomaly::TelemetryMissing(counter),
                ),
                ..self
            },
        }
    }
}

impl View for World {
    type V = WorldView;

    closed spec fn view(&self) -> WorldView {
        WorldView {
            rows: self.rows@,
            next_id: self.next_id as nat,
            command: self.command,
            anomalies: self.anomalies@,
        }
    }
}

impl World {
    /// Well-formedness of the store; every operation preserves it.
    pub open spec fn wf(&self) -> bool {
        self@.wf()
    }

    /// An empty store.
    pub fn new() -> (world: World)
        ensures
            world.wf(),
            world@.rows.len() == 0,
            world@.next_id == 0,
            world@.command is None,
            world@.anomalies.len() == 0,
    {
        World { rows: Vec::new(), next_id: 0, command: None, anomalies: Vec::new() }
    }

    /// An empty store whose first entity receives the identifier `first`.
    pub fn starting_at(first: u64) -> (world: World)
        ensures
            world.wf(),
            world@.rows.len() == 0,
            world@.next_id == first,
            world@.command is None,
            world@.anomalies.len() == 0,
    {
        World { rows: Vec::new(), next_id: first, command: None, anomalies: Vec::new() }
    }

    /// The number of live entities.
    pub fn len(&self) -> (n: usize)
        ensures
            n == self@.rows.len(),
    {
        self.rows.len()
    }

    /// Row `i` in creation order.
    pub fn row(&self, i: usize) -> (row: &Row)
        requires
            i < self@.rows.len(),
        ensures
            *row == self@.rows[i as int],
    {
        &self.rows[i]
    }

    /// The index of the row of `entity`, if it is alive.
    pub fn find(&self, entity: Entity) -> (r: Option<usize>)
        requires
            self.wf(),
        ensures
            match r {
                Some(i) => find(self@.rows, entity) == Some(i as int) && holds(
                    self@.rows,
                    entity,
                    i as int,
                ),
                None => find(self@.rows, entity) is None,
            },
    {
        let mut i: usize = 0;
        while i < self.rows.len()
            invariant
                self.wf(),
                i <= self.rows.len(),
                forall|j: int| 0 <= j < i ==> self.rows@[j].entity != entity,
            decreases self.rows.len() - i,
        {
            if self.rows[i].entity.id == entity.id {
                proof {
                    lemma_find(self@.rows, entity, i as int);
                }
                return Some(i);
            }
            i = i + 1;
        }
        proof {
            lemma_find_none(self@.rows, entity);
        }
        None
    }

    /// Whether `entity` is alive.
    pub fn is_alive(&self, entity: Entity) -> (alive: bool)
        requires
            self.wf(),
        ensures
            alive == (find(self@.rows, entity) is Some),
    {
        self.find(entity).is_some()
    }

    /// Creates an entity that carries `bundle`. Returns `None`, and changes
    /// nothing, once every identifier has been used.
    pub fn create(&mut self, bundle: Bundle) -> (entity: Option<Entity>)
        requires
            old(self).wf(),
        ensures
            final(self).wf(),
            final(self)@ == old(self)@.created(bundle),
            entity == old(self)@.next_entity(),
            forall|other: Entity| #[trigger]
                find(final(self)@.rows, other) == if Some(other) == entity {
                    Some(old(self)@.rows.len() as int)
                } else {
                    find(old(self)@.rows, other)
                },
    {
        if self.next_id == u64::MAX {
            return None;
        }
        let entity = Entity { id: self.next_id };
        self.next_id = self.next_id + 1;
        self.rows.push(Row { entity, components: bundle });
        proof {
            lemma_find_created(old(self)@.rows, Row { entity, components: bundle });
        }
        Some(entity)
    }

    /// Destroys `entity` with all of its components. Returns whether it was
    /// alive; destroying a dead entity changes nothing.
    pub fn destroy(&mut self, entity: Entity) -> (was_alive: bool)
        requires
            old(self).wf(),
        ensures
            final(self).wf(),
            final(self)@ == old(self)@.destroyed(entity),
            was_alive == (find(old(self)@.rows, entity) is Some),
            find(final(self)@.rows, entity) is None,
            forall|other: Entity|
                find(old(self)@.rows, other) is None ==> #[trigger] find(final(self)@.rows, other)
                    is None,
            forall|other: Entity|
                other != entity && find(old(self)@.rows, other) is Some ==> #[trigger] find(
                    final(self)@.rows,
                    other,
                ) is Some,
    {
        match self.find(entity) {
            Some(i) => {
                self.rows.remove(i);
                proof {
                    lemma_find_removed(old(self)@.rows, i as int);
                    lemma_find(old(self)@.rows, entity, i as int);
                    assert forall|other: Entity|
                        other != entity && find(old(self)@.rows, other)
                            is Some implies #[trigger] find(self@.rows, other) is Some by {
                        let j = find(old(self)@.rows, other).unwrap();
                        assert(holds(old(self)@.rows, other, j));
                    }
                }
                true
            },
            None => false,
        }
    }

    /// Replaces the component of type `T` in row `i` and returns what the
    /// row held.
    pub fn put<T: Component>(&mut self, i: usize, value: Option<T>) -> (previous: Option<T>)
        requires
            old(self).wf(),
            i < old(self)@.rows.len(),
        ensures
            final(self).wf(),
            final(self)@ == old(self)@.with_slot(i as int, value),
            previous == T::slot(old(self)@.rows[i as int].components),
            same_lookup(old(self)@.rows, final(self)@.rows),
    {
        let previous = T::write(&mut self.rows[i].components, value);
        proof {
            lemma_same_lookup(old(self)@.rows, self@.rows);
        }
        previous
    }

    /// The component of type `T` attached to `entity`.
    pub fn get<T: Component>(&self, entity: Entity) -> (r: Option<&T>)
        requires
            self.wf(),
        ensures
            match r {
                Some(value) => self@.component::<T>(entity) == Some(*value),
                None => self@.component::<T>(entity) is None,
            },
    {
        match self.find(entity) {
            Some(i) => T::read(&self.rows[i].components),
            None => None,
        }
    }

    /// Borrows the component of type `T` attached to `entity` for writing.
    /// What is written through the borrow is the entity's component
    /// afterwards; nothing else in the store changes.
    pub fn get_mut<T: Component>(&mut self, entity: Entity) -> (r: Option<&mut T>)
        requires
            old(self).wf(),
        ensures
            final(self).wf(),
            match r {
                Some(value) => old(self)@.component::<T>(entity) == Some(*value) && final(self)@
                    == old(self)@.with_component(entity, Some(*final(value))),
                None => old(self)@.component::<T>(entity) is None && final(self)@ == old(self)@,
            },
    {
        match self.find(entity) {
            Some(i) => {
                if T::read(&self.rows[i].components).is_none() {
                    return None;
                }
                T::edit(&mut self.rows[i].components)
            },
            None => None,
        }
    }

    /// Attaches `value` to `entity`, in place of any value of that type.
    /// Returns whether the entity is alive; on a dead entity nothing changes.
    pub fn insert<T: Component>(&mut self, entity: Entity, value: T) -> (stored: bool)
        requires
            old(self).wf(),
        ensures
            final(self).wf(),
            final(self)@ == old(self)@.with_component(entity, Some(value)),
            stored == (find(old(self)@.rows, entity) is Some),
            same_lookup(old(self)@.rows, final(self)@.rows),
    {
        match self.find(entity) {
            Some(i) => {
                self.put(i, Some(value));
                true
            },
            None => false,
        }
    }

    /// Detaches the component of type `T` from `entity` and returns it.
    pub fn remove<T: Component>(&mut self, entity: Entity) -> (removed: Option<T>)
        requires
            old(self).wf(),
        ensures
            final(self).wf(),
            final(self)@ == old(self)@.with_component::<T>(entity, None),
            removed == old(self)@.component::<T>(entity),
            same_lookup(old(self)@.rows, final(self)@.rows),
    {
        match self.find(entity) {
            Some(i) => self.put(i, None),
            None => None,
        }
    }

    /// The entity of row `i`.
    pub fn entity_at(&self, i: usize) -> (entity: Entity)
        requires
            i < self@.rows.len(),
        ensures
            entity == self@.rows[i as int].entity,
    {
        self.rows[i].entity
    }

    /// The entities that carry every component type of `signature`, in the
    /// order in which they were created.
    pub fn join(&self, signature: &Signature) -> (found: Vec<Entity>)
        ensures
            found@ == joined(self@.rows, *signature),
    {
        let mut found: Vec<Entity> = Vec::new();
        let mut i: usize = 0;
        while i < self.rows.len()
            invariant
                i <= self.rows.len(),
                found@ == joined(self@.rows.take(i as int), *signature),
            decreases self.rows.len() - i,
        {
            proof {
                lemma_filter_step(self@.rows, matching(*signature), i as int);
                let kept = self@.rows.take(i as int).filter(matching(*signature));
                assert(entities(kept.push(self@.rows[i as int])) =~= entities(kept).push(
                    self@.rows[i as int].entity,
                ));
            }
            if self.rows[i].components.matches(signature) {
                found.push(self.rows[i].entity);
            }
            i = i + 1;
        }
        assert(self@.rows.take(i as int) =~= self@.rows);
        found
    }

    /// The number of live entities that carry `Enemy`.
    pub fn enemy_count(&self) -> (n: usize)
        ensures
            n == enemy_count(self@.rows),
    {
        let mut n: usize = 0;
        let mut i: usize = 0;
        while i < self.rows.len()
            invariant
                i <= self.rows.len(),
                n <= i,
                n == enemy_count(self@.rows.take(i as int)),
            decreases self.rows.len() - i,
        {
            proof {
                lemma_filter_step(self@.rows, enemy_rows(), i as int);
            }
            if self.rows[i].components.enemy.is_some() {
                n = n + 1;
            }
            i = i + 1;
        }
        assert(self@.rows.take(i as int) =~= self@.rows);
        n
    }

    /// The index of the telemetry singleton: the last row that carries
    /// `Telemetry`.
    pub fn telemetry_index(&self) -> (r: Option<usize>)
        ensures
            match r {
                Some(i) => telemetry_index(self@.rows) == Some(i as int) && is_telemetry_row(
                    self@.rows,
                    i as int,
                ),
                None => telemetry_index(self@.rows) is None,
            },
    {
        let mut i: usize = self.rows.len();
        while i > 0
            invariant
                i <= self.rows.len(),
                forall|j: int| i <= j < self.rows.len() ==> !self@.rows[j].has_telemetry(),
            decreases i,
        {
            i = i - 1;
            if self.rows[i].components.telemetry.is_some() {
                proof {
                    lemma_telemetry_index(self@.rows, i as int);
                }
                return Some(i);
            }
        }
        None
    }

    /// The counters of the telemetry singleton, for presentation.
    pub fn telemetry(&self) -> (r: Option<Telemetry>)
        ensures
            r == self@.telemetry(),
    {
        match self.telemetry_index() {
            Some(i) => self.rows[i].components.telemetry,
            None => None,
        }
    }

    /// Increments `counter` in the telemetry singleton. Without such a row
    /// the anomaly is logged and nothing is counted.
    pub fn record(&mut self, counter: Counter)
        requires
            old(self).wf(),
        ensures
            final(self).wf(),
            final(self)@ == old(self)@.recorded(counter),
            same_lookup(old(self)@.rows, final(self)@.rows),
    {
        match self.telemetry_index() {
            Some(i) => {
                let mut telemetry = self.rows[i].components.telemetry.unwrap();
                telemetry.bump(counter);
                self.rows[i].components.telemetry = Some(telemetry);
                assert(self@.rows =~= old(self)@.recorded(counter).rows);
                proof {
                    lemma_same_lookup(old(self)@.rows, self@.rows);
                }
            },
            None => {
                self.anomalies.push(Anomaly::TelemetryMissing(counter));
                assert(self@.anomalies =~= old(self)@.recorded(counter).anomalies);
            },
        }
    }

    /// Logs an anomaly.
    pub fn report(&mut self, anomaly: Anomaly)
        ensures
            final(self)@ == (WorldView {
                anomalies: old(self)@.anomalies.push(anomaly),
                ..old(self)@
            }),
    {
        self.anomalies.push(anomaly);
    }

    /// The anomalies logged since the log was last cleared.
    pub fn anomalies(&self) -> (log: &Vec<Anomaly>)
        ensures
            log@ == self@.anomalies,
    {
        &self.anomalies
    }

    /// Empties the anomaly log.
    pub fn clear_anomalies(&mut self)
        ensures
            final(self)@ == (WorldView { anomalies: Seq::empty(), ..old(self)@ }),
    {
        self.anomalies.clear();
    }

    /// The movement intent left for the current tick.
    pub fn movement_command(&self) -> (command: Option<MovementCommand>)
        ensures
            command == self@.command,
    {
        self.command
    }

    /// Leaves a movement intent for the next tick.
    pub fn set_movement_command(&mut self, command: Option<MovementCommand>)
        ensures
            final(self)@ == (WorldView { command, ..old(self)@ }),
    {
        self.command = command;
    }
}

} // verus!
