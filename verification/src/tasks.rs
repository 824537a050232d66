use vstd::prelude::*;
use crate::entity::EntityId;

verus! {

/// Marker of task entities.
#[derive(Debug, Clone, Copy, PartialEq, Eq, Structural)]
pub struct Task;

/// The worker a task is assigned to, if any.
#[derive(Debug, Clone, Copy, PartialEq, Eq, Structural)]
pub struct TaskAssignment {
    pub worker: Option<EntityId>,
}

impl TaskAssignment {
    pub fn unassigned() -> (r: Self)
        ensures
            r.worker is None,
    {
        Self { worker: None }
    }

    pub fn worker(self) -> (r: Option<EntityId>)
        ensures
            r == self.worker,
    {
        self.worker
    }

    pub fn assign(&mut self, worker: EntityId)
        ensures
            final(self).worker == Some(worker),
    {
        self.worker = Some(worker);
    }

    pub fn clear(&mut self)
        ensures
            final(self).worker is None,
    {
        self.worker = None;
    }
}

/// The task of building a blueprint.
#[derive(Debug, Clone, Copy, PartialEq, Eq, Structural)]
pub struct ProgressBuildingConstruction {
    pub blueprint: EntityId,
}

impl ProgressBuildingConstruction {
    pub fn new(blueprint: EntityId) -> (r: Self)
        ensures
            r.blueprint == blueprint,
    {
        Self { blueprint }
    }

    pub fn blueprint(self) -> (r: EntityId)
        ensures
            r == self.blueprint,
    {
        self.blueprint
    }

    pub fn label() -> (r: &'static str)
        ensures
            r@ == "ProgressBuildingConstruction"@,
    {
        "ProgressBuildingConstruction"
    }
}

/// The components of a construction task.
#[derive(Debug, Clone, Copy, PartialEq, Eq, Structural)]
pub struct ProgressBuildingConstructionTaskBundle {
    pub task: Task,
    pub construction: ProgressBuildingConstruction,
}

impl ProgressBuildingConstructionTaskBundle {
    pub fn new(blueprint: EntityId) -> (r: Self)
        ensures
            r.construction.blueprint == blueprint,
    {
        Self { task: Task, construction: ProgressBuildingConstruction::new(blueprint) }
    }
}

/// A worker's labor on a construction site.
#[derive(Debug, Clone, Copy, PartialEq, Eq, Structural)]
pub struct AiConstructionLabor {
    pub site: EntityId,
}

impl AiConstructionLabor {
    pub fn new(site: EntityId) -> (r: Self)
        ensures
            r.site == site,
    {
        Self { site }
    }

    pub fn site(self) -> (r: EntityId)
        ensures
            r == self.site,
    {
        self.site
    }
}

/// A task entity and the entity it works on (a blueprint to build, a field
/// or tree plot to tend).
#[derive(Debug, Clone, Copy, PartialEq, Eq, Structural)]
pub struct TaskRecord {
    pub task: EntityId,
    pub target: EntityId,
}

/// Whether the task at position `i` is kept: its target still needs work
/// and no earlier task works on it.
pub open spec fn task_kept(targets: Seq<EntityId>, tasks: Seq<TaskRecord>, i: int) -> bool {
    &&& targets.contains(tasks[i].target)
    &&& forall|j: int| 0 <= j < i ==> (#[trigger] tasks[j]).target != tasks[i].target
}

/// Whether some task works on the target.
pub open spec fn represented(tasks: Seq<TaskRecord>, target: EntityId) -> bool {
    exists|j: int| 0 <= j < tasks.len() && (#[trigger] tasks[j]).target == target
}

/// Tasks to remove (in task order) and targets needing a new task (in
/// target order), so that every target has exactly one task.
pub struct TaskMaintenance {
    pub despawn: Vec<EntityId>,
    pub spawn_for: Vec<EntityId>,
}

/// Keeps one construction task per existing blueprint: a task whose
/// blueprint is gone, or that repeats an earlier task's blueprint, is
/// removed; a blueprint without any task gets one.
pub fn maintain_construction_tasks(blueprints: &[EntityId], tasks: &[TaskRecord]) -> (r: TaskMaintenance)
    ensures
        r.despawn@ == despawned_tasks(blueprints@, tasks@, tasks@.len() as int),
        r.spawn_for@ == unrepresented(blueprints@, tasks@, blueprints@.len() as int),
{
    maintain_tasks(blueprints, tasks)
}

/// Keeps one task per target that needs work: a task whose target no
/// longer needs work, or that repeats an earlier task's target, is removed;
/// a target without any task gets one.
pub fn maintain_tasks(targets: &[EntityId], tasks: &[TaskRecord]) -> (r: TaskMaintenance)
    ensures
        r.despawn@ == despawned_tasks(targets@, tasks@, tasks@.len() as int),
        r.spawn_for@ == unrepresented(targets@, tasks@, targets@.len() as int),
{
    let mut despawn: Vec<EntityId> = Vec::new();
    let mut i: usize = 0;
    while i < tasks.len()
        invariant
            0 <= i <= tasks@.len(),
            despawn@ == despawned_tasks(targets@, tasks@, i as int),
        decreases tasks@.len() - i,
    {
        let t = tasks[i];
        let live = contains_entity(targets, t.target);
        let mut earlier = false;
        let mut j: usize = 0;
        while j < i
            invariant
                0 <= j <= i < tasks@.len(),
                earlier == exists|k: int| 0 <= k < j && (#[trigger] tasks@[k]).target == t.target,
            decreases i - j,
        {
            if tasks[j].target == t.target {
                earlier = true;
            }
            j = j + 1;
        }
        proof {
            assert(task_kept(targets@, tasks@, i as int) == (live && !earlier));
        }
        if !live || earlier {
            despawn.push(t.task);
        }
        i = i + 1;
    }
    let mut spawn_for: Vec<EntityId> = Vec::new();
    let mut k: usize = 0;
    while k < targets.len()
        invariant
            0 <= k <= targets@.len(),
            spawn_for@ == unrepresented(targets@, tasks@, k as int),
        decreases targets@.len() - k,
    {
        let b = targets[k];
        let mut found = false;
        let mut j: usize = 0;
        while j < tasks.len()
            invariant
                0 <= j <= tasks@.len(),
                found == exists|m: int| 0 <= m < j && (#[trigger] tasks@[m]).target == b,
            decreases tasks@.len() - j,
        {
            if tasks[j].target == b {
                found = true;
            }
            j = j + 1;
        }
        if !found {
            spawn_for.push(b);
        }
        k = k + 1;
    }
    TaskMaintenance { despawn, spawn_for }
}

/// The task entities among the first `n` tasks that are not kept.
pub open spec fn despawned_tasks(targets: Seq<EntityId>, tasks: Seq<TaskRecord>, n: int) -> Seq<EntityId>
    decreases n,
{
    if n <= 0 {
        seq![]
    } else {
        despawned_tasks(targets, tasks, n - 1) + if task_kept(targets, tasks, n - 1) {
            seq![]
        } else {
            seq![tasks[n - 1].task]
        }
    }
}

/// Among the first `n` targets, those no task works on.
pub open spec fn unrepresented(targets: Seq<EntityId>, tasks: Seq<TaskRecord>, n: int) -> Seq<EntityId>
    decreases n,
{
    if n <= 0 {
        seq![]
    } else {
        unrepresented(targets, tasks, n - 1) + if represented(tasks, targets[n - 1]) {
            seq![]
        } else {
            seq![targets[n - 1]]
        }
    }
}

fn contains_entity(s: &[EntityId], e: EntityId) -> (r: bool)
    ensures
        r == s@.contains(e),
{
    let mut i: usize = 0;
    while i < s.len()
        invariant
            0 <= i <= s@.len(),
            forall|j: int| 0 <= j < i ==> s@[j] != e,
        decreases s@.len() - i,
    {
        if s[i] == e {
            return true;
        }
        i = i + 1;
    }
    false
}


/// How many of the first `n` tasks are kept and work on `t`.
pub open spec fn kept_for(targets: Seq<EntityId>, tasks: Seq<TaskRecord>, t: EntityId, n: int) -> nat
    decreases n,
{
    if n <= 0 {
        0
    } else {
        kept_for(targets, tasks, t, n - 1) + if task_kept(targets, tasks, n - 1) && tasks[n - 1].target == t {
            1nat
        } else {
            0nat
        }
    }
}

/// How often an entity occurs in a sequence.
pub open spec fn occurrences(s: Seq<EntityId>, t: EntityId) -> nat
    decreases s.len(),
{
    if s.len() == 0 {
        0
    } else {
        occurrences(s.drop_last(), t) + if s.last() == t { 1nat } else { 0nat }
    }
}

proof fn lemma_kept_for(targets: Seq<EntityId>, tasks: Seq<TaskRecord>, t: EntityId, n: int)
    requires
        0 <= n <= tasks.len(),
    ensures
        kept_for(targets, tasks, t, n) == if targets.contains(t) && exists|i: int| 0 <= i < n && (#[trigger] tasks[i]).target == t {
            1nat
        } else {
            0nat
        },
    decreases n,
{
    if n > 0 {
        lemma_kept_for(targets, tasks, t, n - 1);
        if tasks[n - 1].target == t && !(exists|i: int| 0 <= i < n - 1 && (#[trigger] tasks[i]).target == t) {
            assert(forall|j: int| 0 <= j < n - 1 ==> (#[trigger] tasks[j]).target != tasks[n - 1].target);
        }
        if exists|i: int| 0 <= i < n - 1 && (#[trigger] tasks[i]).target == t {
            let i = choose|i: int| 0 <= i < n - 1 && (#[trigger] tasks[i]).target == t;
            assert(tasks[i].target == t);
        }
    }
}

proof fn lemma_unrepresented_occurrences(targets: Seq<EntityId>, tasks: Seq<TaskRecord>, t: EntityId, m: int)
    requires
        0 <= m <= targets.len(),
        targets.no_duplicates(),
    ensures
        occurrences(unrepresented(targets, tasks, m), t) == if (exists|k: int| 0 <= k < m && targets[k] == t)
            && !represented(tasks, t) {
            1nat
        } else {
            0nat
        },
    decreases m,
{
    if m > 0 {
        lemma_unrepresented_occurrences(targets, tasks, t, m - 1);
        let prev = unrepresented(targets, tasks, m - 1);
        if represented(tasks, targets[m - 1]) {
            assert(unrepresented(targets, tasks, m) =~= prev);
        } else {
            assert(unrepresented(targets, tasks, m).drop_last() =~= prev);
        }
        if targets[m - 1] == t {
            assert(!(exists|k: int| 0 <= k < m - 1 && targets[k] == t));
        }
    }
}

/// After task maintenance, every target that needs work has exactly one
/// task, kept or newly spawned, and nothing else has one: for distinct
/// targets, the kept tasks on `t` and the spawns for `t` number one when `t`
/// needs work and zero otherwise.
pub proof fn lemma_one_task_per_target(targets: Seq<EntityId>, tasks: Seq<TaskRecord>, t: EntityId)
    requires
        targets.no_duplicates(),
    ensures
        kept_for(targets, tasks, t, tasks.len() as int) + occurrences(unrepresented(targets, tasks, targets.len() as int), t)
            == if targets.contains(t) { 1nat } else { 0nat },
{
    lemma_kept_for(targets, tasks, t, tasks.len() as int);
    lemma_unrepresented_occurrences(targets, tasks, t, targets.len() as int);
    if targets.contains(t) {
        let k = choose|k: int| 0 <= k < targets.len() && targets[k] == t;
        assert(targets[k] == t);
    }
    if represented(tasks, t) {
        let j = choose|j: int| 0 <= j < tasks.len() && (#[trigger] tasks[j]).target == t;
        assert(tasks[j].target == t);
    }
}

} // verus!
