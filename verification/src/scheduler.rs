//! The scheduler: it orders the stages by their declared dependencies once,
//! at startup, and runs them in that order on every tick.

use vstd::prelude::*;
use crate::ai::{ai_step, AI};
use crate::commands::{applied, CommandQueue, QueueView};
use crate::config::{Config, Settings};
use crate::enemy_collider_purger::EnemyColliderPurger;
use crate::enemy_oob_purger::EnemyOOBPurger;
use crate::enemy_spawner::{spawn_step, EnemySpawner};
use crate::guarantees::{lemma_stages_keep_structure, same_shape};
use crate::purge::{purge_step, Purge};
use crate::world::{entities, lemma_same_lookup, same_lookup, World, WorldView};

verus! {

/// The stages of the simulation.
#[derive(Clone, Copy, Debug, PartialEq, Eq, Structural)]
pub enum Stage {
    EnemySpawner,
    AI,
    EnemyOOBPurger,
    EnemyColliderPurger,
}

/// The declaration of a stage: the stage, and the stages that must have run
/// before it in the same tick.
#[derive(Debug)]
pub struct StageDecl {
    pub stage: Stage,
    pub after: Vec<Stage>,
}

/// Why a set of declarations cannot be scheduled.
#[derive(Clone, Copy, Debug, PartialEq, Eq, Structural)]
pub enum ScheduleError {
    /// The stage is declared twice.
    DuplicateStage(Stage),
    /// The first stage depends on the second, which is not declared.
    UnknownDependency(Stage, Stage),
    /// The dependencies form a cycle.
    Cycle,
}

/// An order of the stages that is consistent with their dependencies.
#[derive(Debug)]
pub struct Scheduler {
    order: Vec<Stage>,
}

/// Whether `stage` is declared.
pub open spec fn declares(decls: Seq<StageDecl>, stage: Stage) -> bool {
    exists|i: int| 0 <= i < decls.len() && (#[trigger] decls[i]).stage == stage
}

/// Whether no stage is declared twice.
pub open spec fn distinct(decls: Seq<StageDecl>) -> bool {
    forall|i: int, j: int|
        0 <= i < j < decls.len() ==> (#[trigger] decls[i]).stage != (#[trigger] decls[j]).stage
}

/// Whether the first `n` dependencies of `decl` are declared.
pub open spec fn dependencies_declared(decls: Seq<StageDecl>, decl: StageDecl, n: int) -> bool {
    forall|k: int|
        0 <= k < n && k < decl.after@.len() ==> declares(decls, #[trigger] decl.after@[k])
}

/// Whether every dependency is on a declared stage.
pub open spec fn closed(decls: Seq<StageDecl>) -> bool {
    forall|i: int|
        0 <= i < decls.len() ==> #[trigger] dependencies_declared(
            decls,
            decls[i],
            decls[i].after@.len() as int,
        )
}

/// Whether `first` stands before `second` in `order`.
pub open spec fn precedes(order: Seq<Stage>, first: Stage, second: Stage) -> bool {
    exists|a: int, b: int|
        0 <= a < b < order.len() && #[trigger] order[a] == first && #[trigger] order[b] == second
}

/// Whether the first `n` dependencies of `decl` stand in `order`.
pub open spec fn ready(order: Seq<Stage>, decl: StageDecl, n: int) -> bool {
    forall|k: int| 0 <= k < n && k < decl.after@.len() ==> order.contains(#[trigger] decl.after@[k])
}

/// Whether every dependency of `decl` stands before it in `order`.
pub open spec fn follows(order: Seq<Stage>, decl: StageDecl) -> bool {
    forall|k: int|
        0 <= k < decl.after@.len() ==> precedes(order, #[trigger] decl.after@[k], decl.stage)
}

/// Whether `order` is a schedule for the declarations: it holds every
/// declared stage, no stage twice, and as many stages as there are
/// declarations, and every stage stands after the stages that it depends
/// on.
pub open spec fn is_schedule(order: Seq<Stage>, decls: Seq<StageDecl>) -> bool {
    &&& order.len() == decls.len()
    &&& order.no_duplicates()
    &&& forall|i: int| 0 <= i < decls.len() ==> #[trigger] order.contains(decls[i].stage)
    &&& forall|i: int| 0 <= i < decls.len() ==> #[trigger] follows(order, decls[i])
}

/// Whether no stage that is missing from `order` can run next.
pub open spec fn stuck(decls: Seq<StageDecl>, order: Seq<Stage>) -> bool {
    forall|i: int|
        0 <= i < decls.len() && !order.contains(decls[i].stage) ==> !#[trigger] ready(
            order,
            decls[i],
            decls[i].after@.len() as int,
        )
}

/// Whether `stage` is the stage that runs next once the stages in `placed`
/// have run: the first in declaration order among the stages that have not
/// run and whose dependencies all have.
pub open spec fn is_next(decls: Seq<StageDecl>, placed: Seq<Stage>, stage: Stage) -> bool {
    exists|x: int|
        0 <= x < decls.len() && (#[trigger] decls[x]).stage == stage && !placed.contains(stage)
            && ready(placed, decls[x], decls[x].after@.len() as int) && forall|a: int|
            0 <= a < x ==> placed.contains((#[trigger] decls[a]).stage) || !ready(
                placed,
                decls[a],
                decls[a].after@.len() as int,
            )
}

/// Whether `order` runs, at every step, the first declared stage that can
/// run. Among the schedules of the declarations this singles out one.
pub open spec fn in_declaration_order(order: Seq<Stage>, decls: Seq<StageDecl>) -> bool {
    forall|k: int| 0 <= k < order.len() ==> #[trigger] is_step(decls, order, k)
}

/// Whether the stage at position `k` of `order` is the one that runs next
/// once the stages before it have run.
pub open spec fn is_step(decls: Seq<StageDecl>, order: Seq<Stage>, k: int) -> bool {
    is_next(decls, order.take(k), order[k])
}

/// Whether the declarations have a schedule, that is, whether their
/// dependencies are free of cycles.
pub open spec fn schedulable(decls: Seq<StageDecl>) -> bool {
    exists|order: Seq<Stage>| is_schedule(order, decls)
}

/// What one run of `stage` does to the store and to the queue.
pub open spec fn stage_step(
    stage: Stage,
    pre: WorldView,
    pre_queue: QueueView,
    post: WorldView,
    post_queue: QueueView,
    settings: Settings,
) -> bool {
    match stage {
        Stage::EnemySpawner => spawn_step(pre, pre_queue, post, post_queue, settings),
        Stage::AI => ai_step(pre, post, settings) && post_queue == pre_queue,
        Stage::EnemyOOBPurger => purge_step(
            pre,
            pre_queue,
            post,
            post_queue,
            settings,
            Purge::OutOfBounds,
        ),
        Stage::EnemyColliderPurger => purge_step(
            pre,
            pre_queue,
            post,
            post_queue,
            settings,
            Purge::Collision,
        ),
    }
}

/// What running the stages of `order`, one after the other, does to the
/// store and to the queue.
pub open spec fn stages_step(
    order: Seq<Stage>,
    pre: WorldView,
    pre_queue: QueueView,
    post: WorldView,
    post_queue: QueueView,
    settings: Settings,
) -> bool
    decreases order.len(),
{
    if order.len() == 0 {
        post == pre && post_queue == pre_queue
    } else {
        exists|mid: WorldView, mid_queue: QueueView|
            stages_step(order.drop_last(), pre, pre_queue, mid, mid_queue, settings)
                && #[trigger] stage_step(order.last(), mid, mid_queue, post, post_queue, settings)
    }
}

/// The store at the start of a tick: the anomaly log is empty.
pub open spec fn cleared(world: WorldView) -> WorldView {
    WorldView { anomalies: Seq::empty(), ..world }
}

/// What one tick does to the store: the stages run in order on an empty
/// queue, and then the queue is applied.
pub open spec fn tick(
    order: Seq<Stage>,
    pre: WorldView,
    post: WorldView,
    settings: Settings,
) -> bool {
    exists|mid: WorldView, queue: QueueView|
        stages_step(order, cleared(pre), QueueView::empty(), mid, queue, settings) && post
            == #[trigger] applied(mid, queue)
}

/// The declarations have at most one schedule in declaration order.
pub proof fn lemma_schedule_unique(decls: Seq<StageDecl>, a: Seq<Stage>, b: Seq<Stage>, n: int)
    requires
        in_declaration_order(a, decls),
        in_declaration_order(b, decls),
        0 <= n <= a.len(),
        n <= b.len(),
    ensures
        a.take(n) == b.take(n),
    decreases n,
{
    if n == 0 {
        assert(a.take(0) =~= b.take(0));
    } else {
        let k = n - 1;
        lemma_schedule_unique(decls, a, b, k);
        assert(is_step(decls, a, k));
        assert(is_step(decls, b, k));
        let placed = a.take(k);
        let x = choose|x: int|
            0 <= x < decls.len() && (#[trigger] decls[x]).stage == a[k] && !placed.contains(a[k])
                && ready(placed, decls[x], decls[x].after@.len() as int) && forall|i: int|
                0 <= i < x ==> placed.contains((#[trigger] decls[i]).stage) || !ready(
                    placed,
                    decls[i],
                    decls[i].after@.len() as int,
                );
        let y = choose|y: int|
            0 <= y < decls.len() && (#[trigger] decls[y]).stage == b[k] && !placed.contains(b[k])
                && ready(placed, decls[y], decls[y].after@.len() as int) && forall|i: int|
                0 <= i < y ==> placed.contains((#[trigger] decls[i]).stage) || !ready(
                    placed,
                    decls[i],
                    decls[i].after@.len() as int,
                );
        assert(x == y);
        assert(a.take(n) =~= a.take(k).push(a[k]));
        assert(b.take(n) =~= b.take(k).push(b[k]));
    }
}

/// The number of entries that are set.
pub open spec fn count_set(flags: Seq<bool>) -> nat
    decreases flags.len(),
{
    if flags.len() == 0 {
        0
    } else {
        count_set(flags.drop_last()) + if flags.last() {
            1nat
        } else {
            0nat
        }
    }
}

/// At most every entry is set, and exactly then the count equals the
/// length.
proof fn lemma_count_set(flags: Seq<bool>)
    ensures
        count_set(flags) <= flags.len(),
        count_set(flags) == flags.len() <==> forall|i: int| 0 <= i < flags.len() ==> flags[i],
    decreases flags.len(),
{
    if flags.len() > 0 {
        let init = flags.drop_last();
        lemma_count_set(init);
        if count_set(flags) == flags.len() {
            assert forall|i: int| 0 <= i < flags.len() implies flags[i] by {
                if i < flags.len() - 1 {
                    assert(init[i]);
                }
            }
        }
        if forall|i: int| 0 <= i < flags.len() ==> flags[i] {
            assert forall|i: int| 0 <= i < init.len() implies init[i] by {
                assert(flags[i]);
            }
            assert(flags[flags.len() - 1]);
        }
    }
}

/// Setting an entry that was not set raises the count by one.
proof fn lemma_count_set_update(flags: Seq<bool>, i: int)
    requires
        0 <= i < flags.len(),
        !flags[i],
    ensures
        count_set(flags.update(i, true)) == count_set(flags) + 1,
    decreases flags.len(),
{
    if i == flags.len() - 1 {
        assert(flags.update(i, true).drop_last() =~= flags.drop_last());
    } else {
        lemma_count_set_update(flags.drop_last(), i);
        assert(flags.update(i, true).drop_last() =~= flags.drop_last().update(i, true));
    }
}

/// In a state in which no missing stage can run next, every declared stage
/// of a schedule is placed: the first missing one would depend on a missing
/// stage that stands before it.
proof fn lemma_all_placed(decls: Seq<StageDecl>, order: Seq<Stage>, schedule: Seq<Stage>, b: int)
    requires
        closed(decls),
        is_schedule(schedule, decls),
        stuck(decls, order),
        0 <= b < schedule.len(),
        declares(decls, schedule[b]),
    ensures
        order.contains(schedule[b]),
    decreases b,
{
    if !order.contains(schedule[b]) {
        let i = choose|i: int| 0 <= i < decls.len() && (#[trigger] decls[i]).stage == schedule[b];
        let decl = decls[i];
        assert(!ready(order, decls[i], decls[i].after@.len() as int));
        let k = choose|k: int|
            0 <= k < decl.after@.len() && !order.contains(#[trigger] decl.after@[k]);
        let dependency = decl.after@[k];
        assert(follows(schedule, decls[i]));
        assert(precedes(schedule, dependency, decl.stage));
        let (a, b2) = choose|a: int, b2: int|
            0 <= a < b2 < schedule.len() && #[trigger] schedule[a] == dependency
                && #[trigger] schedule[b2] == decl.stage;
        assert(b2 == b);
        assert(dependencies_declared(decls, decls[i], decls[i].after@.len() as int));
        assert(declares(decls, dependency));
        lemma_all_placed(decls, order, schedule, a);
    }
}

/// Placing the first ready stage keeps the order in declaration order.
proof fn lemma_placed_next(decls: Seq<StageDecl>, before: Seq<Stage>, x: int)
    requires
        0 <= x < decls.len(),
        !before.contains(decls[x].stage),
        in_declaration_order(before, decls),
        ready(before, decls[x], decls[x].after@.len() as int),
        forall|a: int|
            0 <= a < x && !before.contains((#[trigger] decls[a]).stage) ==> !ready(
                before,
                decls[a],
                decls[a].after@.len() as int,
            ),
    ensures
        in_declaration_order(before.push(decls[x].stage), decls),
{
    let order = before.push(decls[x].stage);
    assert forall|k: int| 0 <= k < order.len() implies #[trigger] is_step(decls, order, k) by {
        if k < before.len() {
            assert(order.take(k) =~= before.take(k));
            assert(is_step(decls, before, k));
        } else {
            assert(order.take(k) =~= before);
        }
    }
}

/// Placing a stage marks exactly the stages that stand in the order.
proof fn lemma_placed_marks(decls: Seq<StageDecl>, before: Seq<Stage>, flags: Seq<bool>, x: int)
    requires
        distinct(decls),
        flags.len() == decls.len(),
        0 <= x < decls.len(),
        !flags[x],
        before.no_duplicates(),
        forall|a: int|
            0 <= a < decls.len() ==> flags[a] == before.contains((#[trigger] decls[a]).stage),
    ensures
        before.push(decls[x].stage).no_duplicates(),
        forall|a: int|
            0 <= a < decls.len() ==> flags.update(x, true)[a] == before.push(
                decls[x].stage,
            ).contains((#[trigger] decls[a]).stage),
{
    let stage = decls[x].stage;
    let order = before.push(stage);
    assert forall|a: int| 0 <= a < decls.len() implies flags.update(x, true)[a] == order.contains(
        (#[trigger] decls[a]).stage,
    ) by {
        if before.contains(decls[a].stage) {
            let p = choose|p: int| 0 <= p < before.len() && before[p] == decls[a].stage;
            assert(order[p] == decls[a].stage);
        }
        if a == x {
            assert(order[before.len() as int] == stage);
        }
        if order.contains(decls[a].stage) && a != x {
            let p = choose|p: int| 0 <= p < order.len() && order[p] == decls[a].stage;
            if p == before.len() {
                if a < x {
                    assert(decls[a].stage != decls[x].stage);
                } else {
                    assert(decls[x].stage != decls[a].stage);
                }
            } else {
                assert(before[p] == decls[a].stage);
            }
        }
    }
}

/// Placing a ready stage keeps every placed stage behind its dependencies.
proof fn lemma_placed_follows(decls: Seq<StageDecl>, before: Seq<Stage>, x: int, a: int)
    requires
        0 <= x < decls.len(),
        0 <= a < decls.len(),
        ready(before, decls[x], decls[x].after@.len() as int),
        a != x ==> follows(before, decls[a]),
    ensures
        follows(before.push(decls[x].stage), decls[a]),
{
    let order = before.push(decls[x].stage);
    let decl = decls[a];
    assert forall|k: int| 0 <= k < decl.after@.len() implies precedes(
        order,
        #[trigger] decl.after@[k],
        decl.stage,
    ) by {
        let dependency = decl.after@[k];
        if a == x {
            assert(before.contains(dependency));
            let p = choose|p: int| 0 <= p < before.len() && before[p] == dependency;
            assert(order[p] == dependency && order[before.len() as int] == decl.stage);
        } else {
            assert(precedes(before, dependency, decl.stage));
            let (p, q) = choose|p: int, q: int|
                0 <= p < q < before.len() && #[trigger] before[p] == dependency
                    && #[trigger] before[q] == decl.stage;
            assert(order[p] == dependency && order[q] == decl.stage);
        }
    }
}

impl View for Scheduler {
    type V = Seq<Stage>;

    closed spec fn view(&self) -> Seq<Stage> {
        self.order@
    }
}

/// Tests whether `stage` stands in `order`.
fn placed(order: &Vec<Stage>, stage: Stage) -> (r: bool)
    ensures
        r == order@.contains(stage),
{
    let mut p: usize = 0;
    while p < order.len()
        invariant
            p <= order.len(),
            forall|q: int| 0 <= q < p ==> order@[q] != stage,
        decreases order.len() - p,
    {
        if order[p] == stage {
            return true;
        }
        p = p + 1;
    }
    false
}

/// Tests whether `stage` is declared.
fn declared(decls: &Vec<StageDecl>, stage: Stage) -> (r: bool)
    ensures
        r == declares(decls@, stage),
{
    let mut i: usize = 0;
    while i < decls.len()
        invariant
            i <= decls.len(),
            forall|j: int| 0 <= j < i ==> (#[trigger] decls@[j]).stage != stage,
        decreases decls.len() - i,
    {
        if decls[i].stage == stage {
            return true;
        }
        i = i + 1;
    }
    false
}

/// Tests whether every dependency of `decl` stands in `order`.
fn is_ready(order: &Vec<Stage>, decl: &StageDecl) -> (r: bool)
    ensures
        r == ready(order@, *decl, decl.after@.len() as int),
{
    let mut k: usize = 0;
    while k < decl.after.len()
        invariant
            k <= decl.after.len(),
            ready(order@, *decl, k as int),
        decreases decl.after.len() - k,
    {
        if !placed(order, decl.after[k]) {
            return false;
        }
        k = k + 1;
    }
    true
}

impl Scheduler {
    /// A scheduler never runs a stage twice in a tick.
    pub open spec fn wf(&self) -> bool {
        self@.no_duplicates()
    }

    /// Orders the declared stages. The declarations are rejected if a stage
    /// is declared twice, if a stage depends on an undeclared one, or if the
    /// dependencies form a cycle; each check is made only once the one
    /// before it has passed.
    pub fn new(decls: &Vec<StageDecl>) -> (r: Result<Scheduler, ScheduleError>)
        ensures
            match r {
                Ok(scheduler) => distinct(decls@) && closed(decls@) && is_schedule(
                    scheduler@,
                    decls@,
                ) && in_declaration_order(scheduler@, decls@) && scheduler.wf(),
                Err(ScheduleError::DuplicateStage(stage)) => !distinct(decls@) && exists|
                    i: int,
                    j: int,
                |
                    0 <= i < j < decls@.len() && (#[trigger] decls@[i]).stage == stage
                        && (#[trigger] decls@[j]).stage == stage,
                Err(ScheduleError::UnknownDependency(stage, dependency)) => distinct(decls@)
                    && !closed(decls@) && !declares(decls@, dependency) && exists|i: int, k: int|
                    0 <= i < decls@.len() && 0 <= k < decls@[i].after@.len() && (
                    #[trigger] decls@[i]).stage == stage && #[trigger] decls@[i].after@[k]
                        == dependency,
                Err(ScheduleError::Cycle) => distinct(decls@) && closed(decls@) && !schedulable(
                    decls@,
                ),
            },
    {
        let n = decls.len();
        let mut j: usize = 0;
        while j < n
            invariant
                j <= n,
                n == decls@.len(),
                forall|a: int, b: int|
                    0 <= a < b < j ==> (#[trigger] decls@[a]).stage != (#[trigger] decls@[b]).stage,
            decreases n - j,
        {
            let mut i: usize = 0;
            while i < j
                invariant
                    i <= j < n,
                    n == decls@.len(),
                    forall|a: int|
                        0 <= a < i ==> (#[trigger] decls@[a]).stage != decls@[j as int].stage,
                decreases j - i,
            {
                if decls[i].stage == decls[j].stage {
                    return Err(ScheduleError::DuplicateStage(decls[j].stage));
                }
                i = i + 1;
            }
            j = j + 1;
        }
        let mut i: usize = 0;
        while i < n
            invariant
                i <= n,
                n == decls@.len(),
                distinct(decls@),
                forall|a: int|
                    0 <= a < i ==> dependencies_declared(
                        decls@,
                        #[trigger] decls@[a],
                        decls@[a].after@.len() as int,
                    ),
            decreases n - i,
        {
            let mut k: usize = 0;
            while k < decls[i].after.len()
                invariant
                    i < n,
                    n == decls@.len(),
                    k <= decls@[i as int].after@.len(),
                    distinct(decls@),
                    dependencies_declared(decls@, decls@[i as int], k as int),
                decreases decls@[i as int].after@.len() - k,
            {
                if !declared(decls, decls[i].after[k]) {
                    assert(!dependencies_declared(
                        decls@,
                        decls@[i as int],
                        decls@[i as int].after@.len() as int,
                    ));
                    return Err(ScheduleError::UnknownDependency(decls[i].stage, decls[i].after[k]));
                }
                k = k + 1;
            }
            i = i + 1;
        }
        let mut order: Vec<Stage> = Vec::new();
        let mut done: Vec<bool> = Vec::new();
        while done.len() < n
            invariant
                done.len() <= n,
                forall|a: int| 0 <= a < done.len() ==> !done@[a],
                count_set(done@) == 0,
            decreases n - done.len(),
        {
            let ghost flags = done@;
            done.push(false);
            assert(done@.drop_last() =~= flags);
        }
        while order.len() < n
            invariant
                n == decls@.len(),
                done@.len() == n,
                distinct(decls@),
                closed(decls@),
                order@.len() == count_set(done@),
                order@.no_duplicates(),
                in_declaration_order(order@, decls@),
                forall|a: int|
                    0 <= a < n ==> done@[a] == order@.contains((#[trigger] decls@[a]).stage),
                forall|a: int| 0 <= a < n && done@[a] ==> follows(order@, #[trigger] decls@[a]),
            decreases n - order.len(),
        {
            let mut found: Option<usize> = None;
            let mut i: usize = 0;
            while i < n && found.is_none()
                invariant
                    i <= n,
                    n == decls@.len(),
                    done@.len() == n,
                    forall|a: int|
                        0 <= a < n ==> done@[a] == order@.contains((#[trigger] decls@[a]).stage),
                    forall|a: int|
                        0 <= a < i && !order@.contains((#[trigger] decls@[a]).stage) ==> !ready(
                            order@,
                            decls@[a],
                            decls@[a].after@.len() as int,
                        ),
                    match found {
                        Some(x) => x == i && x < n && !done@[x as int] && ready(
                            order@,
                            decls@[x as int],
                            decls@[x as int].after@.len() as int,
                        ),
                        None => true,
                    },
                decreases n - i, found.is_none() as int,
            {
                if !done[i] && is_ready(&order, &decls[i]) {
                    found = Some(i);
                } else {
                    i = i + 1;
                }
            }
            match found {
                None => {
                    proof {
                        lemma_count_set(done@);
                        if schedulable(decls@) {
                            let schedule = choose|schedule: Seq<Stage>|
                                is_schedule(schedule, decls@);
                            let u = choose|u: int| 0 <= u < n && !done@[u];
                            let stage = decls@[u].stage;
                            assert(schedule.contains(decls@[u].stage));
                            let b = choose|b: int| 0 <= b < schedule.len() && schedule[b] == stage;
                            lemma_all_placed(decls@, order@, schedule, b);
                        }
                    }
                    return Err(ScheduleError::Cycle);
                },
                Some(x) => {
                    let ghost before = order@;
                    let ghost flags = done@;
                    let stage = decls[x].stage;
                    order.push(stage);
                    done.set(x, true);
                    proof {
                        lemma_count_set_update(flags, x as int);
                        lemma_placed_next(decls@, before, x as int);
                        lemma_placed_marks(decls@, before, flags, x as int);
                        assert forall|a: int| 0 <= a < n && done@[a] implies follows(
                            order@,
                            #[trigger] decls@[a],
                        ) by {
                            lemma_placed_follows(decls@, before, x as int, a);
                        }
                    }
                },
            }
        }
        proof {
            lemma_count_set(done@);
        }
        Ok(Scheduler { order })
    }

    /// The scheduler of the standard game: the spawner runs first, then the
    /// targeting stage, then the two purges.
    pub fn standard() -> (scheduler: Scheduler)
        ensures
            scheduler.wf(),
            scheduler@ == seq![
                Stage::EnemySpawner,
                Stage::AI,
                Stage::EnemyOOBPurger,
                Stage::EnemyColliderPurger,
            ],
    {
        let mut order: Vec<Stage> = Vec::new();
        order.push(Stage::EnemySpawner);
        order.push(Stage::AI);
        order.push(Stage::EnemyOOBPurger);
        order.push(Stage::EnemyColliderPurger);
        assert(order@ =~= seq![
            Stage::EnemySpawner,
            Stage::AI,
            Stage::EnemyOOBPurger,
            Stage::EnemyColliderPurger,
        ]);
        Scheduler { order }
    }

    /// Runs one stage.
    pub fn run_stage(stage: Stage, world: &mut World, queue: &mut CommandQueue, config: &Config)
        requires
            old(world).wf(),
            config.wf(),
        ensures
            final(world).wf(),
            stage_step(stage, old(world)@, old(queue)@, final(world)@, final(queue)@, config@),
            same_lookup(old(world)@.rows, final(world)@.rows),
    {
        match stage {
            Stage::EnemySpawner => {
                let mut spawner = EnemySpawner;
                spawner.run(world, queue, config);
            },
            Stage::AI => {
                let mut ai = AI;
                ai.run(world, config);
            },
            Stage::EnemyOOBPurger => {
                let mut purger = EnemyOOBPurger;
                purger.run(world, queue, config);
            },
            Stage::EnemyColliderPurger => {
                let mut purger = EnemyColliderPurger;
                purger.run(world, queue, config);
            },
        }
    }

    /// Runs the stages in order. They write component values in place and
    /// queue their structural commands; no entity is created or destroyed.
    pub fn run_stages(&self, world: &mut World, queue: &mut CommandQueue, config: &Config)
        requires
            old(world).wf(),
            config.wf(),
        ensures
            final(world).wf(),
            stages_step(self@, old(world)@, old(queue)@, final(world)@, final(queue)@, config@),
            entities(final(world)@.rows) == entities(old(world)@.rows),
            same_lookup(old(world)@.rows, final(world)@.rows),
    {
        let ghost pre = world@;
        let ghost pre_queue = queue@;
        let mut k: usize = 0;
        while k < self.order.len()
            invariant
                world.wf(),
                config.wf(),
                k <= self.order@.len(),
                stages_step(self@.take(k as int), pre, pre_queue, world@, queue@, config@),
            decreases self.order@.len() - k,
        {
            let ghost mid = world@;
            let ghost mid_queue = queue@;
            Self::run_stage(self.order[k], world, queue, config);
            proof {
                let next = self@.take(k + 1);
                assert(next.drop_last() =~= self@.take(k as int));
                assert(next.last() == self@[k as int]);
                assert(stages_step(next.drop_last(), pre, pre_queue, mid, mid_queue, config@)
                    && stage_step(next.last(), mid, mid_queue, world@, queue@, config@));
                assert(stages_step(next, pre, pre_queue, world@, queue@, config@));
            }
            k = k + 1;
        }
        assert(self@.take(k as int) =~= self@);
        proof {
            lemma_stages_keep_structure(self@, pre, pre_queue, world@, queue@, config@);
            assert forall|i: int| 0 <= i < pre.rows.len() implies (#[trigger] world@.rows[i]).entity
                == pre.rows[i].entity by {
                assert(same_shape(pre.rows[i], world@.rows[i]));
            }
            lemma_same_lookup(pre.rows, world@.rows);
        }
    }

    /// The stages in the order in which they run.
    pub fn order(&self) -> (order: &Vec<Stage>)
        ensures
            order@ == self@,
    {
        &self.order
    }
}

/// Advances the simulation by one tick. The anomaly log is emptied, the
/// stages run in the scheduler's order, and then the structural commands
/// that they queued are applied: destructions first, then creations.
pub fn advance(world: &mut World, scheduler: &Scheduler, config: &Config)
    requires
        old(world).wf(),
        config.wf(),
    ensures
        final(world).wf(),
        tick(scheduler@, old(world)@, final(world)@, config@),
{
    world.clear_anomalies();
    let mut queue = CommandQueue::new();
    scheduler.run_stages(world, &mut queue, config);
    let ghost mid = world@;
    let ghost queued = queue@;
    queue.apply(world);
    assert(stages_step(
        scheduler@,
        cleared(old(world)@),
        QueueView::empty(),
        mid,
        queued,
        config@,
    ));
}

} // verus!
