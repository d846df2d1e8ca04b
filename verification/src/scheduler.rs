//! The recurring-task scheduler: the tick, the food spawn and the delayed
//! respawns, fired by the system alone.
//!
//! Times are microseconds since the Unix epoch.

use vstd::prelude::*;

verus! {

/// The period of the physics tick.
pub const TICK_PERIOD_MICROS: i64 = 16_666;

/// The period of the food spawn.
pub const FOOD_SPAWN_PERIOD_MICROS: i64 = 200_000;

/// The delay between a ball's death and its respawn.
pub const RESPAWN_MICROS: i64 = 2_000_000;

/// The stable 256-bit key of a connection, and of the ball that it owns.
#[derive(Clone, Copy, Debug, PartialEq, Eq, Structural)]
pub struct Identity {
    pub hi: u128,
    pub lo: u128,
}

/// Whether a handler was invoked by the system itself. A scheduled-task
/// handler that any other caller invokes must change nothing.
pub fn is_system_call(caller: Identity, system: Identity) -> (authorized: bool)
    ensures
        authorized == (caller == system),
{
    caller == system
}

/// The time at which a ball that dies at `now` respawns.
pub fn respawn_time(now: i64) -> (due: i64)
    requires
        now + RESPAWN_MICROS <= i64::MAX,
    ensures
        due == now + RESPAWN_MICROS,
{
    now + RESPAWN_MICROS
}

/// What a scheduled task does when it fires.
#[derive(Clone, Copy, Debug, PartialEq, Eq, Structural)]
pub enum TaskKind {
    /// Run one physics tick; recurring.
    Tick,
    /// Spawn one batch of food; recurring.
    FoodSpawn,
    /// Respawn the ball of this identity; one-shot.
    Respawn(Identity),
}

/// A stored request to run a task at or after a given time.
#[derive(Clone, Copy, Debug, PartialEq, Eq, Structural)]
pub struct ScheduledTask {
    pub id: u64,
    pub fire_at: i64,
    pub kind: TaskKind,
}

/// A task could not be stored: one of its kind is pending already, or no
/// id is left to give it.
#[derive(Clone, Copy, Debug, PartialEq, Eq, Structural)]
pub struct Conflict;

/// The outcome of an attempt to fire a task.
#[derive(Clone, Copy, Debug, PartialEq, Eq, Structural)]
pub enum Firing {
    /// The caller is not the system: nothing fired, nothing changed.
    Unauthorized,
    /// No pending task of that id is due: nothing fired, nothing changed.
    NotDue,
    /// The tick fired and is scheduled again; run one physics tick.
    Tick,
    /// The food spawn fired and is scheduled again; spawn one batch.
    FoodSpawn,
    /// A respawn fired and is gone; respawn this identity's ball, if the
    /// identity is still in the world.
    Respawn(Identity),
}

/// Whether the task at position `i` of `tasks` has the given id and is due
/// at `now`.
pub open spec fn due_at(tasks: Seq<ScheduledTask>, i: int, id: u64, now: int) -> bool {
    0 <= i < tasks.len() && tasks[i].id == id && tasks[i].fire_at <= now
}

/// Whether a task of the given kind is among `tasks`.
pub open spec fn has_kind(tasks: Seq<ScheduledTask>, kind: TaskKind) -> bool {
    exists|i: int| 0 <= i < tasks.len() && tasks[i].kind == kind
}

/// The time at which a recurring task that fires at `now` is due again.
pub open spec fn next_occurrence(kind: TaskKind, now: int) -> int {
    match kind {
        TaskKind::Tick => now + TICK_PERIOD_MICROS,
        TaskKind::FoodSpawn => now + FOOD_SPAWN_PERIOD_MICROS,
        TaskKind::Respawn(_) => now,
    }
}

/// The pending tasks after the task at position `i` fired at `now`: a
/// recurring task stays, due one period after `now`; a respawn is removed.
pub open spec fn after_firing(tasks: Seq<ScheduledTask>, i: int, now: int) -> Seq<ScheduledTask> {
    match tasks[i].kind {
        TaskKind::Respawn(_) => tasks.remove(i),
        kind => tasks.update(
            i,
            ScheduledTask { fire_at: next_occurrence(kind, now) as i64, ..tasks[i] },
        ),
    }
}

/// What firing a task of the given kind reports.
pub open spec fn firing_of(kind: TaskKind) -> Firing {
    match kind {
        TaskKind::Tick => Firing::Tick,
        TaskKind::FoodSpawn => Firing::FoodSpawn,
        TaskKind::Respawn(who) => Firing::Respawn(who),
    }
}

/// Whether the task at position `k` is the first of those that are due
/// the earliest.
pub open spec fn is_earliest(tasks: Seq<ScheduledTask>, k: int) -> bool {
    &&& 0 <= k < tasks.len()
    &&& forall|j: int| 0 <= j < k ==> (#[trigger] tasks[j]).fire_at > tasks[k].fire_at
    &&& forall|j: int| k <= j < tasks.len() ==> (#[trigger] tasks[j]).fire_at >= tasks[k].fire_at
}

/// The task store. It always holds exactly one tick and one food spawn,
/// and at most one respawn for any identity.
pub struct Scheduler {
    tasks: Vec<ScheduledTask>,
    next_id: u64,
}

impl Scheduler {
    /// The pending tasks: the tick, the food spawn, then the respawns in
    /// the order in which they were scheduled.
    pub closed spec fn pending(&self) -> Seq<ScheduledTask> {
        self.tasks@
    }

    /// The id that the next task to be stored receives.
    pub closed spec fn next_id(&self) -> u64 {
        self.next_id
    }

    /// The store's invariant: the first pending task is the one tick, the
    /// second the one food spawn, the others are respawns of distinct
    /// identities, and every id occurs once and lies below the next id.
    pub open spec fn wf(&self) -> bool {
        let tasks = self.pending();
        &&& tasks.len() >= 2
        &&& tasks[0].kind == TaskKind::Tick
        &&& tasks[1].kind == TaskKind::FoodSpawn
        &&& forall|i: int| 2 <= i < tasks.len() ==> (#[trigger] tasks[i]).kind is Respawn
        &&& forall|i: int, j: int|
            0 <= i < j < tasks.len() ==> (#[trigger] tasks[i]).kind != (#[trigger] tasks[j]).kind
        &&& forall|i: int, j: int|
            0 <= i < j < tasks.len() ==> (#[trigger] tasks[i]).id != (#[trigger] tasks[j]).id
        &&& forall|i: int| 0 <= i < tasks.len() ==> (#[trigger] tasks[i]).id < self.next_id()
    }

    /// A store with the two recurring tasks, each due one period after
    /// `now`, and no respawn.
    pub fn init(now: i64) -> (scheduler: Self)
        requires
            now + FOOD_SPAWN_PERIOD_MICROS <= i64::MAX,
        ensures
            scheduler.wf(),
            scheduler.next_id() == 3,
            scheduler.pending() == seq![
                ScheduledTask { id: 1, fire_at: (now + TICK_PERIOD_MICROS) as i64, kind: TaskKind::Tick },
                ScheduledTask {
                    id: 2,
                    fire_at: (now + FOOD_SPAWN_PERIOD_MICROS) as i64,
                    kind: TaskKind::FoodSpawn,
                },
            ],
    {
        let mut tasks: Vec<ScheduledTask> = Vec::new();
        tasks.push(ScheduledTask { id: 1, fire_at: now + TICK_PERIOD_MICROS, kind: TaskKind::Tick });
        tasks.push(
            ScheduledTask {
                id: 2,
                fire_at: now + FOOD_SPAWN_PERIOD_MICROS,
                kind: TaskKind::FoodSpawn,
            },
        );
        let scheduler = Scheduler { tasks, next_id: 3 };
        assert(scheduler.pending() =~= seq![
            ScheduledTask { id: 1, fire_at: (now + TICK_PERIOD_MICROS) as i64, kind: TaskKind::Tick },
            ScheduledTask {
                id: 2,
                fire_at: (now + FOOD_SPAWN_PERIOD_MICROS) as i64,
                kind: TaskKind::FoodSpawn,
            },
        ]);
        scheduler
    }

    /// The number of pending tasks.
    pub fn len(&self) -> (count: usize)
        ensures
            count == self.pending().len(),
    {
        self.tasks.len()
    }

    /// The pending task at position `index`, if there is one.
    pub fn task_at(&self, index: usize) -> (task: Option<ScheduledTask>)
        ensures
            task == if index < self.pending().len() {
                Some(self.pending()[index as int])
            } else {
                None
            },
    {
        if index < self.tasks.len() {
            Some(self.tasks[index])
        } else {
            None
        }
    }

    /// Stores a task of the given kind, due at `fire_at`, under a fresh id,
    /// and returns the id. The task is refused, and nothing changes, where
    /// a task of the same kind (for a respawn: of the same identity) is
    /// pending or no id is left.
    pub fn schedule(&mut self, kind: TaskKind, fire_at: i64) -> (stored: Result<u64, Conflict>)
        requires
            old(self).wf(),
        ensures
            final(self).wf(),
            match stored {
                Ok(id) => {
                    &&& !has_kind(old(self).pending(), kind)
                    &&& old(self).next_id() < u64::MAX
                    &&& id == old(self).next_id()
                    &&& final(self).next_id() == id + 1
                    &&& final(self).pending() == old(self).pending().push(
                        ScheduledTask { id, fire_at, kind },
                    )
                },
                Err(_) => {
                    &&& has_kind(old(self).pending(), kind) || old(self).next_id() == u64::MAX
                    &&& final(self).pending() == old(self).pending()
                    &&& final(self).next_id() == old(self).next_id()
                },
            },
    {
        let mut i: usize = 0;
        while i < self.tasks.len()
            invariant
                i <= self.tasks.len(),
                self.wf(),
                *self == *old(self),
                forall|j: int| 0 <= j < i ==> (#[trigger] self.tasks@[j]).kind != kind,
            decreases self.tasks.len() - i,
        {
            if self.tasks[i].kind == kind {
                return Err(Conflict);
            }
            i = i + 1;
        }
        if self.next_id == u64::MAX {
            return Err(Conflict);
        }
        let id: u64 = self.next_id;
        self.tasks.push(ScheduledTask { id, fire_at, kind });
        self.next_id = id + 1;
        Ok(id)
    }

    /// Stores the respawn of `identity`, due one respawn delay after `now`.
    /// It is refused where a respawn of that identity is pending already,
    /// or no id is left. Either way, unless no id was left, exactly one
    /// respawn of that identity is pending afterwards.
    pub fn schedule_respawn(&mut self, identity: Identity, now: i64) -> (stored: Result<
        u64,
        Conflict,
    >)
        requires
            old(self).wf(),
            now + RESPAWN_MICROS <= i64::MAX,
        ensures
            final(self).wf(),
            has_kind(final(self).pending(), TaskKind::Respawn(identity)) || old(self).next_id()
                == u64::MAX,
            match stored {
                Ok(id) => {
                    &&& !has_kind(old(self).pending(), TaskKind::Respawn(identity))
                    &&& old(self).next_id() < u64::MAX
                    &&& id == old(self).next_id()
                    &&& final(self).next_id() == id + 1
                    &&& final(self).pending() == old(self).pending().push(
                        ScheduledTask {
                            id,
                            fire_at: (now + RESPAWN_MICROS) as i64,
                            kind: TaskKind::Respawn(identity),
                        },
                    )
                },
                Err(_) => {
                    &&& has_kind(old(self).pending(), TaskKind::Respawn(identity)) || old(
                        self,
                    ).next_id() == u64::MAX
                    &&& final(self).pending() == old(self).pending()
                    &&& final(self).next_id() == old(self).next_id()
                },
            },
    {
        let stored = self.schedule(TaskKind::Respawn(identity), respawn_time(now));
        proof {
            if stored is Ok {
                let last = self.pending().len() - 1;
                assert(self.pending()[last].kind == TaskKind::Respawn(identity));
            }
        }
        stored
    }

    /// The task to fire next at time `now`: of the pending tasks that are
    /// due, the one due the earliest, and of several such the first.
    pub fn next_due(&self, now: i64) -> (due: Option<ScheduledTask>)
        requires
            self.wf(),
        ensures
            match due {
                Some(task) => task.fire_at <= now && exists|k: int|
                    is_earliest(self.pending(), k) && self.pending()[k] == task,
                None => forall|j: int|
                    0 <= j < self.pending().len() ==> (#[trigger] self.pending()[j]).fire_at > now,
            },
    {
        let mut best: usize = 0;
        let mut i: usize = 1;
        while i < self.tasks.len()
            invariant
                1 <= i <= self.tasks.len(),
                best < i,
                forall|j: int| 0 <= j < best ==> (#[trigger] self.tasks@[j]).fire_at > self.tasks@[best as int].fire_at,
                forall|j: int| best <= j < i ==> (#[trigger] self.tasks@[j]).fire_at >= self.tasks@[best as int].fire_at,
            decreases self.tasks.len() - i,
        {
            if self.tasks[i].fire_at < self.tasks[best].fire_at {
                best = i;
            }
            i = i + 1;
        }
        let task = self.tasks[best];
        if task.fire_at <= now {
            assert(is_earliest(self.pending(), best as int));
            Some(task)
        } else {
            None
        }
    }

    /// Fires the pending task of the given id at time `now`, on behalf of
    /// `caller`. Only the system may fire a task, and only a task that is
    /// due fires. A recurring task stays pending, due one period after
    /// `now`; a respawn is removed.
    pub fn fire(&mut self, id: u64, now: i64, caller: Identity, system: Identity) -> (firing: Firing)
        requires
            old(self).wf(),
            now + FOOD_SPAWN_PERIOD_MICROS <= i64::MAX,
        ensures
            final(self).wf(),
            final(self).next_id() == old(self).next_id(),
            caller != system ==> firing == Firing::Unauthorized && final(self).pending() == old(
                self,
            ).pending(),
            caller == system ==> forall|i: int| #[trigger]
                due_at(old(self).pending(), i, id, now as int) ==> {
                    &&& firing == firing_of(old(self).pending()[i].kind)
                    &&& final(self).pending() == after_firing(old(self).pending(), i, now as int)
                },
            caller == system && !(exists|i: int| due_at(old(self).pending(), i, id, now as int))
                ==> firing == Firing::NotDue && final(self).pending() == old(self).pending(),
    {
        if !is_system_call(caller, system) {
            return Firing::Unauthorized;
        }
        let mut i: usize = 0;
        while i < self.tasks.len() && self.tasks[i].id != id
            invariant
                i <= self.tasks.len(),
                forall|j: int| 0 <= j < i ==> (#[trigger] self.tasks@[j]).id != id,
            decreases self.tasks.len() - i,
        {
            i = i + 1;
        }
        if i >= self.tasks.len() {
            return Firing::NotDue;
        }
        assert forall|k: int| #[trigger] due_at(self.pending(), k, id, now as int) implies k == i by {
            if k < i {
                assert(self.tasks@[k].id != self.tasks@[i as int].id);
            } else if i < k {
                assert(self.tasks@[i as int].id != self.tasks@[k].id);
            }
        }
        let task = self.tasks[i];
        if task.fire_at > now {
            return Firing::NotDue;
        }
        assert(due_at(self.pending(), i as int, id, now as int));
        let ghost before = self.tasks@;
        match task.kind {
            TaskKind::Tick => {
                self.tasks.set(i, ScheduledTask { fire_at: now + TICK_PERIOD_MICROS, ..task });
                assert(self.tasks@ =~= after_firing(before, i as int, now as int));
                Firing::Tick
            },
            TaskKind::FoodSpawn => {
                self.tasks.set(i, ScheduledTask { fire_at: now + FOOD_SPAWN_PERIOD_MICROS, ..task });
                assert(self.tasks@ =~= after_firing(before, i as int, now as int));
                Firing::FoodSpawn
            },
            TaskKind::Respawn(who) => {
                self.tasks.remove(i);
                assert(self.tasks@ =~= after_firing(before, i as int, now as int));
                Firing::Respawn(who)
            },
        }
    }
}

/// The store never holds none or several of a recurring kind: the one
/// tick is the first pending task and the one food spawn the second.
pub proof fn lemma_one_of_each_recurring_kind(scheduler: Scheduler)
    requires
        scheduler.wf(),
    ensures
        forall|i: int|
            0 <= i < scheduler.pending().len() ==> (scheduler.pending()[i].kind == TaskKind::Tick
                <==> i == 0),
        forall|i: int|
            0 <= i < scheduler.pending().len() ==> (scheduler.pending()[i].kind
                == TaskKind::FoodSpawn <==> i == 1),
{
    let tasks = scheduler.pending();
    assert forall|i: int| 0 <= i < tasks.len() implies (tasks[i].kind == TaskKind::Tick <==> i
        == 0) by {
        if i > 0 {
            assert(tasks[0].kind != tasks[i].kind);
        }
    }
    assert forall|i: int| 0 <= i < tasks.len() implies (tasks[i].kind == TaskKind::FoodSpawn <==> i
        == 1) by {
        if i > 1 {
            assert(tasks[1].kind != tasks[i].kind);
        } else if i == 0 {
            assert(tasks[0].kind != tasks[1].kind);
        }
    }
}

/// Firing a recurring task leaves it pending, under its id, and due
/// strictly after the time of firing; no other task changes.
pub proof fn lemma_recurring_task_is_due_again(tasks: Seq<ScheduledTask>, i: int, now: int)
    requires
        0 <= i < tasks.len(),
        !(tasks[i].kind is Respawn),
        i64::MIN <= now,
        now + FOOD_SPAWN_PERIOD_MICROS <= i64::MAX,
    ensures
        after_firing(tasks, i, now).len() == tasks.len(),
        after_firing(tasks, i, now)[i].id == tasks[i].id,
        after_firing(tasks, i, now)[i].kind == tasks[i].kind,
        after_firing(tasks, i, now)[i].fire_at > now,
        forall|j: int| 0 <= j < tasks.len() && j != i ==> after_firing(tasks, i, now)[j] == tasks[j],
{
}

/// A task that is due fires once: after it has fired at `now`, no pending
/// task of its id is due at `now`.
pub proof fn lemma_fired_task_is_no_longer_due(
    tasks: Seq<ScheduledTask>,
    i: int,
    id: u64,
    now: int,
)
    requires
        forall|a: int, b: int|
            0 <= a < b < tasks.len() ==> (#[trigger] tasks[a]).id != (#[trigger] tasks[b]).id,
        due_at(tasks, i, id, now),
        i64::MIN <= now,
        now + FOOD_SPAWN_PERIOD_MICROS <= i64::MAX,
    ensures
        forall|k: int| !due_at(after_firing(tasks, i, now), k, id, now),
{
    let after = after_firing(tasks, i, now);
    assert forall|k: int| !due_at(after, k, id, now) by {
        if 0 <= k < after.len() && after[k].id == id {
            if tasks[i].kind is Respawn {
                let origin = if k < i {
                    k
                } else {
                    k + 1
                };
                assert(after[k] == tasks[origin]);
                if origin < i {
                    assert(tasks[origin].id != tasks[i].id);
                } else {
                    assert(tasks[i].id != tasks[origin].id);
                }
            } else if k != i {
                assert(after[k] == tasks[k]);
                if k < i {
                    assert(tasks[k].id != tasks[i].id);
                } else {
                    assert(tasks[i].id != tasks[k].id);
                }
            }
        }
    }
}

} // verus!
