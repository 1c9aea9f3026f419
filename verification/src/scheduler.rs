//! Periodic background tasks: their registry, enabling and disabling, manual
//! runs through a handler, and the history of runs.

use vstd::prelude::*;
use std::sync::Arc;
use std::time::{Duration, Instant};
use crate::clock::{monotonic_now, instant_after, duration_between, instant_gap};
use crate::keyed::{keyed, keys_unique, lemma_keyed_facts, lemma_keyed_update, lemma_keyed_push, lemma_keyed_remove, lemma_keyed_absent};

verus! {

/// How urgent a task is.
#[derive(Debug, Clone, PartialEq, Eq, Structural)]
pub enum TaskPriority {
    High,
    Medium,
    Low,
}

impl TaskPriority {
    /// The rank of the priority, most urgent first.
    fn as_usize(&self) -> (r: usize)
        ensures
            r == match *self { TaskPriority::High => 0usize, TaskPriority::Medium => 1usize, TaskPriority::Low => 2usize },
    {
        match self {
            TaskPriority::High => 0,
            TaskPriority::Medium => 1,
            TaskPriority::Low => 2,
        }
    }
}

/// The identifier of a task.
#[derive(Debug, Clone, Copy, PartialEq, Eq, Structural)]
pub struct TaskId(pub u64);

impl TaskId {
    /// The identifier with the given number.
    pub fn new(id: u64) -> (r: Self)
        ensures
            r.0 == id,
    {
        TaskId(id)
    }
}

/// A task that runs every `interval` while enabled.
#[derive(Debug, Clone)]
pub struct ScheduledTask {
    pub id: TaskId,
    pub name: String,
    pub priority: TaskPriority,
    pub interval: Duration,
    pub enabled: bool,
}

/// The abstract value of a task.
pub struct ScheduledTaskView {
    pub id: u64,
    pub name: Seq<char>,
    pub priority: TaskPriority,
    pub interval: Duration,
    pub enabled: bool,
}

impl View for ScheduledTask {
    type V = ScheduledTaskView;

    open spec fn view(&self) -> ScheduledTaskView {
        ScheduledTaskView {
            id: self.id.0,
            name: self.name@,
            priority: self.priority,
            interval: self.interval,
            enabled: self.enabled,
        }
    }
}

impl ScheduledTask {
    /// An enabled task of medium priority. Its identifier is given when a
    /// scheduler takes it.
    pub fn new(name: String, interval: Duration) -> (r: Self)
        ensures
            r.id.0 == 0,
            r.name == name,
            r.priority == TaskPriority::Medium,
            r.interval == interval,
            r.enabled,
    {
        ScheduledTask { id: TaskId(0), name, priority: TaskPriority::Medium, interval, enabled: true }
    }

    /// A copy with the same abstract value.
    pub fn duplicate(&self) -> (r: Self)
        ensures
            r@ == self@,
    {
        ScheduledTask {
            id: self.id,
            name: self.name.clone(),
            priority: match self.priority {
                TaskPriority::High => TaskPriority::High,
                TaskPriority::Medium => TaskPriority::Medium,
                TaskPriority::Low => TaskPriority::Low,
            },
            interval: self.interval,
            enabled: self.enabled,
        }
    }

    /// The same task at another priority.
    pub fn with_priority(self, priority: TaskPriority) -> (r: Self)
        ensures
            r == (ScheduledTask { priority, ..self }),
    {
        ScheduledTask { priority, ..self }
    }

    /// Enables the task.
    pub fn enable(&mut self)
        ensures
            *final(self) == (ScheduledTask { enabled: true, ..*old(self) }),
    {
        self.enabled = true;
    }

    /// Disables the task.
    pub fn disable(&mut self)
        ensures
            *final(self) == (ScheduledTask { enabled: false, ..*old(self) }),
    {
        self.enabled = false;
    }
}

/// One run of a task: when it started and ended, and how it went.
#[derive(Clone)]
pub struct TaskExecution {
    pub task_id: TaskId,
    pub started_at: Instant,
    pub completed_at: Option<Instant>,
    pub success: bool,
    pub error: Option<String>,
}

/// The abstract value of a run.
pub struct TaskExecutionView {
    pub task_id: u64,
    pub started_at: Instant,
    pub completed_at: Option<Instant>,
    pub success: bool,
    pub error: Option<Seq<char>>,
}

impl View for TaskExecution {
    type V = TaskExecutionView;

    open spec fn view(&self) -> TaskExecutionView {
        TaskExecutionView {
            task_id: self.task_id.0,
            started_at: self.started_at,
            completed_at: self.completed_at,
            success: self.success,
            error: match self.error {
                Some(e) => Some(e@),
                None => None,
            },
        }
    }
}

/// The error message of an outcome: `None` for `Ok`, the message for `Err`.
pub open spec fn outcome_error(outcome: Result<(), String>) -> Option<String> {
    match outcome {
        Ok(_) => None,
        Err(e) => Some(e),
    }
}

/// Whether a finished run records the outcome: a success exactly for `Ok`,
/// with the `Err` message as its error.
pub open spec fn records_outcome(e: TaskExecution, outcome: Result<(), String>) -> bool {
    e.completed_at is Some && e.success == outcome is Ok && e.error == outcome_error(outcome)
}

impl TaskExecution {
    /// A run of the task that starts now and has not finished.
    pub fn new(task_id: TaskId) -> (r: Self)
        ensures
            r.task_id == task_id,
            r.completed_at is None,
            r.success,
            r.error is None,
    {
        TaskExecution { task_id, started_at: monotonic_now(), completed_at: None, success: true, error: None }
    }

    /// A copy with the same abstract value.
    pub fn duplicate(&self) -> (r: Self)
        ensures
            r@ == self@,
    {
        TaskExecution {
            task_id: self.task_id,
            started_at: self.started_at,
            completed_at: self.completed_at,
            success: self.success,
            error: match &self.error {
                Some(e) => Some(e.clone()),
                None => None,
            },
        }
    }

    /// Finishes the run now with the given outcome.
    pub fn finish(&mut self, success: bool, error: Option<String>)
        ensures
            final(self).task_id == old(self).task_id,
            final(self).started_at == old(self).started_at,
            final(self).completed_at is Some,
            final(self).success == success,
            final(self).error == error,
    {
        self.completed_at = Some(monotonic_now());
        self.success = success;
        self.error = error;
    }

    /// Finishes the run now with what the task's work gave back: a success
    /// for `Ok`, a failure with its message for `Err`.
    pub fn finish_with(&mut self, outcome: Result<(), String>)
        ensures
            final(self).task_id == old(self).task_id,
            final(self).started_at == old(self).started_at,
            final(self).completed_at is Some,
            final(self).success == outcome is Ok,
            final(self).error == outcome_error(outcome),
    {
        match outcome {
            Ok(()) => { self.finish(true, None); },
            Err(e) => { self.finish(false, Some(e)); },
        }
    }

    /// How long the run took, or has taken so far when it has not finished.
    pub fn duration(&self) -> (r: Duration)
        ensures
            self.completed_at matches Some(t) ==> r == instant_gap(t, self.started_at),
    {
        let end = match self.completed_at {
            Some(t) => t,
            None => monotonic_now(),
        };
        duration_between(&end, &self.started_at)
    }
}

/// The work behind a task, supplied by the user of the scheduler.
pub trait TaskHandler: Send + Sync {
    /// The handler's name.
    fn name(&self) -> &str;

    /// Does the work once; an error message when it fails.
    fn execute(&self) -> Result<(), String>;
}

struct TaskWrapper<H: TaskHandler + ?Sized> {
    task: ScheduledTask,
    handler: Arc<H>,
    last_run: Option<Instant>,
    next_run: Option<Instant>,
}

impl<H: TaskHandler + ?Sized> TaskWrapper<H> {
    fn new(task: ScheduledTask, handler: Arc<H>) -> (r: Self)
        ensures
            r.task == task,
            r.last_run is None,
            r.next_run is Some,
    {
        TaskWrapper { task, handler, last_run: None, next_run: Some(monotonic_now()) }
    }

    fn run(&mut self) -> (r: TaskExecution)
        ensures
            final(self).task == old(self).task,
            final(self).last_run is Some,
            r.task_id == old(self).task.id,
            r.completed_at is Some,
            exists|outcome: Result<(), String>| records_outcome(r, outcome),
    {
        let mut execution = TaskExecution::new(self.task.id);
        let outcome = self.handler.execute();
        execution.finish_with(outcome);
        assert(records_outcome(execution, outcome));
        let now = monotonic_now();
        self.last_run = Some(now);
        self.next_run = instant_after(&now, self.task.interval);
        execution
    }
}

/// The id under which a task is kept.
spec fn task_key<H: TaskHandler + ?Sized>() -> spec_fn(TaskWrapper<H>) -> u64 {
    |w: TaskWrapper<H>| w.task.id.0
}

/// The value of a kept task.
spec fn task_val<H: TaskHandler + ?Sized>() -> spec_fn(TaskWrapper<H>) -> ScheduledTaskView {
    |w: TaskWrapper<H>| w.task@
}

/// Runs periodic tasks and records their runs. Its handlers are of type
/// `H`, by default any handler behind a trait object.
pub struct Scheduler<H: TaskHandler + ?Sized = dyn TaskHandler> {
    tasks: Vec<TaskWrapper<H>>,
    executions: Vec<TaskExecution>,
    max_execution_history: usize,
    running: bool,
    next_id: u64,
}

impl<H: TaskHandler + ?Sized> Scheduler<H> {
    #[verifier::type_invariant]
    closed spec fn inv(&self) -> bool {
        keys_unique(self.tasks@, task_key())
    }

    /// The tasks by id.
    pub closed spec fn tasks(&self) -> Map<u64, ScheduledTaskView> {
        keyed(self.tasks@, task_key(), task_val())
    }

    /// The tasks in the order the scheduler keeps them.
    pub closed spec fn stored(&self) -> Seq<ScheduledTaskView> {
        self.tasks@.map_values(|w: TaskWrapper<H>| w.task@)
    }

    /// The runs so far, oldest first.
    pub closed spec fn history(&self) -> Seq<TaskExecutionView> {
        self.executions@.map_values(|e: TaskExecution| e@)
    }

    /// Whether the scheduler is marked as running.
    pub closed spec fn spec_running(&self) -> bool {
        self.running
    }

    /// The id the next added task gets.
    pub closed spec fn spec_next_id(&self) -> u64 {
        self.next_id
    }

    /// A scheduler with no tasks and no runs, not running.
    pub fn with_handlers() -> (r: Self)
        ensures
            r.tasks() == Map::<u64, ScheduledTaskView>::empty(),
            r.history().len() == 0,
            !r.spec_running(),
            r.spec_next_id() == 0,
    {
        let r = Scheduler { tasks: Vec::new(), executions: Vec::new(), max_execution_history: 1000, running: false, next_id: 0 };
        assert(r.tasks() =~= Map::<u64, ScheduledTaskView>::empty());
        r
    }

    /// Marks the scheduler as running.
    pub fn start_running(&mut self)
        requires
            !old(self).spec_running(),
        ensures
            final(self).spec_running(),
            final(self).tasks() == old(self).tasks(),
            final(self).history() == old(self).history(),
            final(self).spec_next_id() == old(self).spec_next_id(),
    {
        proof { use_type_invariant(&*self); }
        self.running = true;
    }

    /// Marks the scheduler as stopped.
    pub fn stop(&mut self)
        ensures
            !final(self).spec_running(),
            final(self).tasks() == old(self).tasks(),
            final(self).history() == old(self).history(),
            final(self).spec_next_id() == old(self).spec_next_id(),
    {
        proof { use_type_invariant(&*self); }
        self.running = false;
    }

    fn find(&self, id: u64) -> (r: Option<usize>)
        ensures
            match r {
                Some(i) => i < self.tasks@.len() && self.tasks@[i as int].task.id.0 == id
                    && self.tasks().contains_key(id) && self.tasks()[id] == self.tasks@[i as int].task@,
                None => !self.tasks().contains_key(id),
            },
    {
        proof { use_type_invariant(self); }
        let mut i: usize = 0;
        while i < self.tasks.len()
            invariant
                i <= self.tasks@.len(),
                keys_unique(self.tasks@, task_key()),
                forall|j: int| 0 <= j < i ==> self.tasks@[j].task.id.0 != id,
            decreases self.tasks@.len() - i,
        {
            if self.tasks[i].task.id.0 == id {
                proof {
                    lemma_keyed_facts(self.tasks@, task_key(), task_val());
                    assert(task_key()(self.tasks@[i as int]) == id);
                }
                return Some(i);
            }
            i = i + 1;
        }
        proof { lemma_keyed_absent(self.tasks@, task_key(), task_val(), id); }
        None
    }

    /// Takes a task under the next id, replacing any task with that id.
    pub fn add_task(&mut self, task: ScheduledTask, handler: Arc<H>)
        ensures
            final(self).tasks() == old(self).tasks().insert(old(self).spec_next_id(),
                ScheduledTaskView { id: old(self).spec_next_id(), ..task@ }),
            final(self).spec_next_id() == old(self).spec_next_id().wrapping_add(1),
            final(self).history() == old(self).history(),
            final(self).spec_running() == old(self).spec_running(),
    {
        proof { use_type_invariant(&*self); }
        let id = self.next_id;
        self.next_id = self.next_id.wrapping_add(1);
        let mut task = task;
        task.id = TaskId(id);
        let wrapper = TaskWrapper::new(task, handler);
        self.remove_task(TaskId(id));
        proof {
            use_type_invariant(&*self);
            lemma_keyed_push(self.tasks@, task_key(), task_val(), wrapper);
        }
        let mut tasks: Vec<TaskWrapper<H>> = Vec::new();
        std::mem::swap(&mut tasks, &mut self.tasks);
        tasks.push(wrapper);
        self.tasks = tasks;
        proof {
            assert(old(self).tasks().remove(id).insert(id, wrapper.task@) =~= old(self).tasks().insert(id, wrapper.task@));
        }
    }

    /// Drops a task; whether there was one.
    pub fn remove_task(&mut self, task_id: TaskId) -> (r: bool)
        ensures
            r == old(self).tasks().contains_key(task_id.0),
            final(self).tasks() == old(self).tasks().remove(task_id.0),
            final(self).history() == old(self).history(),
            final(self).spec_running() == old(self).spec_running(),
            final(self).spec_next_id() == old(self).spec_next_id(),
    {
        match self.find(task_id.0) {
            Some(i) => {
                proof {
                    use_type_invariant(&*self);
                    lemma_keyed_remove(self.tasks@, task_key(), task_val(), i as int);
                }
                let mut tasks: Vec<TaskWrapper<H>> = Vec::new();
                std::mem::swap(&mut tasks, &mut self.tasks);
                tasks.remove(i);
                self.tasks = tasks;
                true
            },
            None => {
                proof { assert(old(self).tasks().remove(task_id.0) =~= old(self).tasks()); }
                false
            },
        }
    }

    /// A copy of a task.
    pub fn get_task(&self, task_id: TaskId) -> (r: Option<ScheduledTask>)
        ensures
            match r {
                Some(t) => self.tasks().contains_key(task_id.0) && self.tasks()[task_id.0] == t@,
                None => !self.tasks().contains_key(task_id.0),
            },
    {
        match self.find(task_id.0) {
            Some(i) => Some(self.tasks[i].task.duplicate()),
            None => None,
        }
    }

    /// Copies of all tasks, in the order the scheduler keeps them.
    pub fn list_tasks(&self) -> (r: Vec<ScheduledTask>)
        ensures
            r@.map_values(|t: ScheduledTask| t@) == self.stored(),
    {
        let mut r: Vec<ScheduledTask> = Vec::new();
        let mut i: usize = 0;
        while i < self.tasks.len()
            invariant
                i <= self.tasks@.len(),
                r@.len() == i,
                forall|j: int| 0 <= j < i ==> (#[trigger] r@[j])@ == self.tasks@[j].task@,
            decreases self.tasks@.len() - i,
        {
            r.push(self.tasks[i].task.duplicate());
            i = i + 1;
        }
        proof { assert(r@.map_values(|t: ScheduledTask| t@) =~= self.stored()); }
        r
    }

    fn set_enabled(&mut self, task_id: TaskId, enabled: bool) -> (r: bool)
        ensures
            r == old(self).tasks().contains_key(task_id.0),
            r ==> final(self).tasks() == old(self).tasks().insert(task_id.0,
                ScheduledTaskView { enabled, ..old(self).tasks()[task_id.0] }),
            !r ==> final(self).tasks() == old(self).tasks(),
            final(self).history() == old(self).history(),
            final(self).spec_running() == old(self).spec_running(),
            final(self).spec_next_id() == old(self).spec_next_id(),
    {
        match self.find(task_id.0) {
            Some(i) => {
                proof { use_type_invariant(&*self); }
                let ghost before = self.tasks@;
                let mut tasks: Vec<TaskWrapper<H>> = Vec::new();
                std::mem::swap(&mut tasks, &mut self.tasks);
                let mut w = tasks.remove(i);
                if enabled { w.task.enable(); } else { w.task.disable(); }
                tasks.insert(i, w);
                proof {
                    assert(tasks@ == before.update(i as int, w));
                    lemma_keyed_update(before, task_key(), task_val(), i as int, w);
                }
                self.tasks = tasks;
                true
            },
            None => false,
        }
    }

    /// Enables a task; whether there was one.
    pub fn enable_task(&mut self, task_id: TaskId) -> (r: bool)
        ensures
            r == old(self).tasks().contains_key(task_id.0),
            r ==> final(self).tasks() == old(self).tasks().insert(task_id.0,
                ScheduledTaskView { enabled: true, ..old(self).tasks()[task_id.0] }),
            !r ==> final(self).tasks() == old(self).tasks(),
            final(self).history() == old(self).history(),
            final(self).spec_running() == old(self).spec_running(),
            final(self).spec_next_id() == old(self).spec_next_id(),
    {
        self.set_enabled(task_id, true)
    }

    /// Disables a task; whether there was one.
    pub fn disable_task(&mut self, task_id: TaskId) -> (r: bool)
        ensures
            r == old(self).tasks().contains_key(task_id.0),
            r ==> final(self).tasks() == old(self).tasks().insert(task_id.0,
                ScheduledTaskView { enabled: false, ..old(self).tasks()[task_id.0] }),
            !r ==> final(self).tasks() == old(self).tasks(),
            final(self).history() == old(self).history(),
            final(self).spec_running() == old(self).spec_running(),
            final(self).spec_next_id() == old(self).spec_next_id(),
    {
        self.set_enabled(task_id, false)
    }

    /// Runs a task once through its handler, now, and records the run;
    /// `None` when there is no such task.
    pub fn trigger_task(&mut self, task_id: TaskId) -> (r: Option<TaskExecution>)
        ensures
            final(self).tasks() == old(self).tasks(),
            final(self).spec_running() == old(self).spec_running(),
            final(self).spec_next_id() == old(self).spec_next_id(),
            !old(self).tasks().contains_key(task_id.0) ==> (r is None && final(self).history() == old(self).history()),
            old(self).tasks().contains_key(task_id.0) ==> (r matches Some(e)
                && e.task_id == task_id
                && e.completed_at is Some
                && (exists|outcome: Result<(), String>| records_outcome(e, outcome))
                && final(self).history() == old(self).history().push(e@)),
    {
        match self.find(task_id.0) {
            Some(i) => {
                proof { use_type_invariant(&*self); }
                let ghost before = self.tasks@;
                let mut tasks: Vec<TaskWrapper<H>> = Vec::new();
                std::mem::swap(&mut tasks, &mut self.tasks);
                let mut w = tasks.remove(i);
                let execution = w.run();
                tasks.insert(i, w);
                proof {
                    assert(tasks@ == before.update(i as int, w));
                    lemma_keyed_update(before, task_key(), task_val(), i as int, w);
                    assert(old(self).tasks().insert(task_id.0, w.task@) =~= old(self).tasks());
                }
                self.tasks = tasks;
                let mut executions: Vec<TaskExecution> = Vec::new();
                std::mem::swap(&mut executions, &mut self.executions);
                executions.push(execution.duplicate());
                self.executions = executions;
                proof {
                    assert(self.history() =~= old(self).history().push(execution@));
                }
                Some(execution)
            },
            None => None,
        }
    }

    /// Copies of the recorded runs, oldest first; only those of one task
    /// when an id is given.
    pub fn get_executions(&self, task_id: Option<TaskId>) -> (r: Vec<TaskExecution>)
        ensures
            r@.map_values(|e: TaskExecution| e@) == match task_id {
                Some(id) => self.history().filter(|e: TaskExecutionView| e.task_id == id.0),
                None => self.history(),
            },
    {
        let ghost want = |e: TaskExecutionView| match task_id { Some(id) => e.task_id == id.0, None => true };
        let mut r: Vec<TaskExecution> = Vec::new();
        let mut i: usize = 0;
        while i < self.executions.len()
            invariant
                i <= self.executions@.len(),
                want == |e: TaskExecutionView| match task_id { Some(id) => e.task_id == id.0, None => true },
                r@.map_values(|e: TaskExecution| e@) == self.history().take(i as int).filter(want),
            decreases self.executions@.len() - i,
        {
            let ghost x = self.executions@[i as int]@;
            proof {
                let h = self.history();
                reveal(Seq::filter);
                assert(h.take(i + 1).drop_last() =~= h.take(i as int));
                assert(h.take(i + 1).last() == x);
                assert(h.take(i + 1).filter(want) == if want(x) { h.take(i as int).filter(want).push(x) } else { h.take(i as int).filter(want) });
            }
            let keep = match task_id {
                Some(id) => self.executions[i].task_id.0 == id.0,
                None => true,
            };
            proof { assert(keep == want(x)); }
            if keep {
                let ghost before = r@;
                r.push(self.executions[i].duplicate());
                proof {
                    assert(r@.map_values(|e: TaskExecution| e@) =~= before.map_values(|e: TaskExecution| e@).push(self.executions@[i as int]@));
                }
            }
            i = i + 1;
        }
        proof {
            assert(self.history().take(self.executions@.len() as int) =~= self.history());
            match task_id {
                Some(id) => {
                    assert(want == |e: TaskExecutionView| e.task_id == id.0);
                },
                None => {
                    lemma_filter_everything(self.history(), want);
                },
            }
        }
        r
    }

    /// The number of tasks.
    pub fn task_count(&self) -> (r: usize)
        ensures
            r == self.tasks().len(),
    {
        proof {
            use_type_invariant(self);
            lemma_keyed_facts(self.tasks@, task_key(), task_val());
        }
        self.tasks.len()
    }

    /// Whether the scheduler is marked as running.
    pub fn is_running(&self) -> (r: bool)
        ensures
            r == self.spec_running(),
    {
        self.running
    }
}

impl Scheduler<dyn TaskHandler> {
    /// A scheduler over handlers behind trait objects, with no tasks and no
    /// runs, not running.
    pub fn new() -> (r: Self)
        ensures
            r.tasks() == Map::<u64, ScheduledTaskView>::empty(),
            r.history().len() == 0,
            !r.spec_running(),
            r.spec_next_id() == 0,
    {
        Self::with_handlers()
    }
}

impl Default for Scheduler<dyn TaskHandler> {
    fn default() -> (r: Self)
        ensures
            r.tasks() == Map::<u64, ScheduledTaskView>::empty(),
            r.history().len() == 0,
            !r.spec_running(),
    {
        Self::new()
    }
}

proof fn lemma_filter_everything<A>(s: Seq<A>, p: spec_fn(A) -> bool)
    requires
        forall|a: A| #[trigger] p(a),
    ensures
        s.filter(p) == s,
    decreases s.len(),
{
    reveal(Seq::filter);
    if s.len() > 0 {
        lemma_filter_everything(s.drop_last(), p);
        reveal(Seq::filter);
        assert(p(s.last()));
        assert(s.drop_last().push(s.last()) =~= s);
    }
}

/// Two tasks added one after the other get different ids, unless the id
/// counter wraps all the way round in between.
pub proof fn law_added_tasks_get_distinct_ids(next: u64)
    ensures
        next.wrapping_add(1) != next,
{
}

} // verus!
