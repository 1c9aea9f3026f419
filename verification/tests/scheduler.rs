use opengemini_engine::scheduler::{ScheduledTask, Scheduler, TaskHandler, TaskId, TaskPriority};
use std::sync::atomic::{AtomicBool, AtomicUsize, Ordering};
use std::sync::Arc as StdArc;
use std::time::Duration;

struct TestHandler {
    name: String,
    call_count: AtomicUsize,
    should_fail: AtomicBool,
}

impl TestHandler {
    fn new(name: &str) -> Self {
        Self {
            name: name.to_string(),
            call_count: AtomicUsize::new(0),
            should_fail: AtomicBool::new(false),
        }
    }

    fn set_should_fail(&self, fail: bool) {
        self.should_fail.store(fail, Ordering::SeqCst);
    }

    fn call_count(&self) -> usize {
        self.call_count.load(Ordering::SeqCst)
    }
}

impl TaskHandler for TestHandler {
    fn name(&self) -> &str {
        &self.name
    }

    fn execute(&self) -> Result<(), String> {
        self.call_count.fetch_add(1, Ordering::SeqCst);
        if self.should_fail.load(Ordering::SeqCst) {
            Err("Test error".to_string())
        } else {
            Ok(())
        }
    }
}

#[test]
fn test_scheduler_creation() {
    let scheduler = Scheduler::new();
    assert_eq!(scheduler.task_count(), 0);
    assert!(!scheduler.is_running());
}

#[test]
fn test_add_task() {
    let mut scheduler = Scheduler::new();
    let handler = StdArc::new(TestHandler::new("test_task"));
    let task = ScheduledTask::new("test_task".to_string(), Duration::from_secs(60));

    scheduler.add_task(task, handler);

    assert_eq!(scheduler.task_count(), 1);
}

#[test]
fn test_remove_task() {
    let mut scheduler = Scheduler::new();
    let handler = StdArc::new(TestHandler::new("test_task"));
    let task = ScheduledTask::new("test_task".to_string(), Duration::from_secs(60));

    scheduler.add_task(task, handler.clone());
    assert_eq!(scheduler.task_count(), 1);

    let tasks = scheduler.list_tasks();
    let task_id = tasks[0].id.clone();

    assert!(scheduler.remove_task(task_id));
    assert_eq!(scheduler.task_count(), 0);
}

#[test]
fn test_enable_disable_task() {
    let mut scheduler = Scheduler::new();
    let handler = StdArc::new(TestHandler::new("test_task"));
    let task = ScheduledTask::new("test_task".to_string(), Duration::from_secs(60));

    scheduler.add_task(task, handler);

    let tasks = scheduler.list_tasks();
    let task_id = tasks[0].id.clone();

    assert!(scheduler.disable_task(task_id.clone()));

    let task = scheduler.get_task(task_id.clone()).unwrap();
    assert!(!task.enabled);

    assert!(scheduler.enable_task(task_id.clone()));

    let task = scheduler.get_task(task_id).unwrap();
    assert!(task.enabled);
}

#[test]
fn test_trigger_task() {
    let mut scheduler = Scheduler::new();
    let handler = StdArc::new(TestHandler::new("test_task"));
    let task = ScheduledTask::new("test_task".to_string(), Duration::from_secs(60));

    scheduler.add_task(task, handler.clone());

    let tasks = scheduler.list_tasks();
    let task_id = tasks[0].id.clone();

    assert_eq!(handler.call_count(), 0);

    let execution = scheduler.trigger_task(task_id);
    assert!(execution.is_some());
    assert!(execution.unwrap().success);

    assert_eq!(handler.call_count(), 1);
}

#[test]
fn test_task_with_priority() {
    let mut scheduler = Scheduler::new();
    let handler = StdArc::new(TestHandler::new("test_task"));
    let task = ScheduledTask::new("test_task".to_string(), Duration::from_secs(60))
        .with_priority(TaskPriority::High);

    scheduler.add_task(task, handler);

    let tasks = scheduler.list_tasks();
    assert_eq!(tasks[0].priority, TaskPriority::High);
}

#[test]
fn test_failed_task_execution() {
    let mut scheduler = Scheduler::new();
    let handler = StdArc::new(TestHandler::new("test_task"));
    handler.set_should_fail(true);

    let task = ScheduledTask::new("test_task".to_string(), Duration::from_secs(60));
    scheduler.add_task(task, handler.clone());

    let tasks = scheduler.list_tasks();
    let task_id = tasks[0].id.clone();

    let execution = scheduler.trigger_task(task_id).unwrap();
    assert!(!execution.success);
    assert!(execution.error.is_some());
}

#[test]
fn test_get_task_executions() {
    let mut scheduler = Scheduler::new();
    let handler = StdArc::new(TestHandler::new("test_task"));
    let task = ScheduledTask::new("test_task".to_string(), Duration::from_secs(60));

    scheduler.add_task(task, handler.clone());

    let tasks = scheduler.list_tasks();
    let task_id = tasks[0].id.clone();

    scheduler.trigger_task(task_id.clone()).unwrap();
    scheduler.trigger_task(task_id.clone()).unwrap();

    let executions = scheduler.get_executions(Some(task_id));
    assert_eq!(executions.len(), 2);
}

#[test]
fn test_list_tasks() {
    let mut scheduler = Scheduler::new();

    let handler1 = StdArc::new(TestHandler::new("task1"));
    let handler2 = StdArc::new(TestHandler::new("task2"));

    scheduler.add_task(ScheduledTask::new("task1".to_string(), Duration::from_secs(60)), handler1);
    scheduler.add_task(ScheduledTask::new("task2".to_string(), Duration::from_secs(120)), handler2);

    let tasks = scheduler.list_tasks();
    assert_eq!(tasks.len(), 2);

    let names: Vec<&str> = tasks.iter().map(|t| t.name.as_str()).collect();
    assert!(names.contains(&"task1"));
    assert!(names.contains(&"task2"));
}

#[test]
fn test_task_id_uniqueness() {
    let mut scheduler = Scheduler::new();
    let handler = StdArc::new(TestHandler::new("test"));

    let task1 = ScheduledTask::new("task".to_string(), Duration::from_secs(60));
    let task2 = ScheduledTask::new("task".to_string(), Duration::from_secs(60));

    scheduler.add_task(task1, handler.clone());
    scheduler.add_task(task2, handler);

    let tasks = scheduler.list_tasks();
    assert_eq!(tasks.len(), 2);
    assert_ne!(tasks[0].id.0, tasks[1].id.0);
}

#[test]
fn unknown_task_ids_change_nothing() {
    let mut scheduler = Scheduler::new();
    let handler = StdArc::new(TestHandler::new("t"));
    scheduler.add_task(ScheduledTask::new("t".to_string(), Duration::from_secs(1)), handler.clone());
    let missing = TaskId::new(99);
    assert!(scheduler.trigger_task(missing).is_none());
    assert!(!scheduler.enable_task(missing));
    assert!(!scheduler.disable_task(missing));
    assert!(!scheduler.remove_task(missing));
    assert!(scheduler.get_task(missing).is_none());
    assert_eq!(handler.call_count(), 0);
    assert_eq!(scheduler.get_executions(None).len(), 0);
}

#[test]
fn history_filters_by_task() {
    let mut scheduler = Scheduler::new();
    let a = StdArc::new(TestHandler::new("a"));
    let b = StdArc::new(TestHandler::new("b"));
    scheduler.add_task(ScheduledTask::new("a".to_string(), Duration::from_secs(1)), a);
    scheduler.add_task(ScheduledTask::new("b".to_string(), Duration::from_secs(1)), b);
    let ids: Vec<TaskId> = scheduler.list_tasks().iter().map(|t| t.id).collect();
    scheduler.trigger_task(ids[0]).unwrap();
    scheduler.trigger_task(ids[1]).unwrap();
    scheduler.trigger_task(ids[0]).unwrap();
    assert_eq!(scheduler.get_executions(Some(ids[0])).len(), 2);
    assert_eq!(scheduler.get_executions(Some(ids[1])).len(), 1);
    assert_eq!(scheduler.get_executions(None).len(), 3);
    let e = &scheduler.get_executions(Some(ids[1]))[0];
    assert_eq!(e.task_id, ids[1]);
    assert!(e.completed_at.is_some());
}

#[test]
fn running_flag_follows_start_and_stop() {
    let mut scheduler = Scheduler::new();
    scheduler.start_running();
    assert!(scheduler.is_running());
    scheduler.stop();
    assert!(!scheduler.is_running());
}
