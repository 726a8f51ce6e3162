use std::cell::Cell;
use std::cell::RefCell;
use std::rc::Rc;

use misty_vm::async_task::AsyncTaskEntry;
use misty_vm::async_task::IAsyncTaskRuntimeAdapter;
use misty_vm::async_task::MistyAsyncTaskId;
use misty_vm::async_task::MistyAsyncTaskPools;

#[derive(Default)]
struct Log {
    spawned: RefCell<Vec<(u64, String)>>,
    aborted: RefCell<Vec<u64>>,
    next: Cell<u64>,
}

#[derive(Clone)]
struct Backend {
    log: Rc<Log>,
}

impl Backend {
    fn new() -> Self {
        let log = Rc::new(Log::default());
        log.next.set(100);
        Backend { log }
    }

    fn launch(&self, job: String) -> u64 {
        let handle = self.log.next.get();
        self.log.next.set(handle + 1);
        self.log.spawned.borrow_mut().push((handle, job));
        handle
    }
}

impl IAsyncTaskRuntimeAdapter for Backend {
    type Job = String;
    type LocalJob = String;

    fn spawn(&self, job: String) -> u64 {
        self.launch(job)
    }

    fn spawn_local(&self, job: String) -> u64 {
        self.launch(format!("local {}", job))
    }

    fn try_abort(&self, handle: u64) {
        self.log.aborted.borrow_mut().push(handle);
    }
}

const TIMER: MistyAsyncTaskId = MistyAsyncTaskId(1);
const FETCH: MistyAsyncTaskId = MistyAsyncTaskId(2);

fn job(task_id: u64) -> String {
    format!("job {}", task_id)
}

#[test]
fn a_spawn_launches_the_job_and_tracks_the_handle() {
    let rt = Backend::new();
    let mut pools = MistyAsyncTaskPools::new();
    assert_eq!(pools.next_task_id(), 0);
    let first = pools.spawn(&rt, TIMER, job);
    let second = pools.spawn_local(&rt, FETCH, job);
    assert_eq!(first, AsyncTaskEntry { task_id: 0, kind: TIMER, handle: 100 });
    assert_eq!(second, AsyncTaskEntry { task_id: 1, kind: FETCH, handle: 101 });
    assert_eq!(
        *rt.log.spawned.borrow(),
        vec![(100, "job 0".to_string()), (101, "local job 1".to_string())]
    );
    assert_eq!(pools.len(), 2);
    assert_eq!(pools.live(TIMER), vec![first]);
    assert_eq!(pools.live(FETCH), vec![second]);
    assert!(pools.has_free_id());
    assert!(rt.log.aborted.borrow().is_empty());
}

#[test]
fn spawn_once_twice_leaves_exactly_one_live_task() {
    let rt = Backend::new();
    let mut pools = MistyAsyncTaskPools::new();
    let (first, aborted_first) = pools.spawn_once(&rt, TIMER, job);
    assert!(aborted_first.is_empty());
    let (second, aborted_second) = pools.spawn_once(&rt, TIMER, job);
    assert_eq!(aborted_second, vec![first.handle]);
    assert_eq!(pools.live(TIMER), vec![second]);
    assert_eq!(second.task_id, 1);
    assert_eq!(*rt.log.aborted.borrow(), vec![first.handle]);
    assert_eq!(pools.len(), 1);
}

#[test]
fn spawn_once_cancels_every_job_of_its_kind_and_no_other() {
    let rt = Backend::new();
    let mut pools = MistyAsyncTaskPools::new();
    let a = pools.spawn(&rt, TIMER, job);
    let other = pools.spawn(&rt, FETCH, job);
    let b = pools.spawn(&rt, TIMER, job);
    let (only, aborted) = pools.spawn_once(&rt, TIMER, job);
    assert_eq!(aborted, vec![a.handle, b.handle]);
    assert_eq!(pools.live(TIMER), vec![only]);
    assert_eq!(pools.live(FETCH), vec![other]);
}

#[test]
fn wait_all_without_tasks_has_no_side_effects() {
    let rt = Backend::new();
    let mut pools = MistyAsyncTaskPools::new();
    let other = pools.spawn(&rt, FETCH, job);
    let aborted = pools.wait_all(&rt, TIMER);
    assert!(aborted.is_empty());
    assert!(rt.log.aborted.borrow().is_empty());
    assert_eq!(pools.len(), 1);
    assert_eq!(pools.live(FETCH), vec![other]);
    assert_eq!(pools.next_task_id(), 1);
}

#[test]
fn wait_all_aborts_the_jobs_of_the_kind_in_the_order_of_launch() {
    let rt = Backend::new();
    let mut pools = MistyAsyncTaskPools::new();
    let a = pools.spawn(&rt, TIMER, job);
    let other = pools.spawn(&rt, FETCH, job);
    let b = pools.spawn(&rt, TIMER, job);
    let aborted = pools.wait_all(&rt, TIMER);
    assert_eq!(aborted, vec![a.handle, b.handle]);
    assert_eq!(*rt.log.aborted.borrow(), vec![a.handle, b.handle]);
    assert!(pools.live(TIMER).is_empty());
    assert_eq!(pools.live(FETCH), vec![other]);
}

#[test]
fn cancel_all_is_scoped_to_its_kind() {
    let rt = Backend::new();
    let mut pools = MistyAsyncTaskPools::new();
    let a = pools.spawn(&rt, TIMER, job);
    let b = pools.spawn(&rt, FETCH, job);
    assert_eq!(pools.cancel_all(&rt, FETCH), vec![b.handle]);
    assert_eq!(pools.live(TIMER), vec![a]);
    assert!(pools.live(FETCH).is_empty());
    assert_eq!(pools.cancel_all(&rt, FETCH), Vec::<u64>::new());
    assert_eq!(*rt.log.aborted.borrow(), vec![b.handle]);
}

#[test]
fn a_job_that_ends_is_no_longer_tracked() {
    let rt = Backend::new();
    let mut pools = MistyAsyncTaskPools::new();
    let a = pools.spawn(&rt, TIMER, job);
    let b = pools.spawn(&rt, TIMER, job);
    assert!(pools.finish(a.task_id));
    assert!(!pools.finish(a.task_id));
    assert!(!pools.finish(77));
    assert_eq!(pools.live(TIMER), vec![b]);
    assert!(rt.log.aborted.borrow().is_empty());
    let c = pools.spawn(&rt, TIMER, job);
    assert_eq!(c.task_id, 2);
}

#[test]
fn reset_aborts_every_job_of_every_kind() {
    let rt = Backend::new();
    let mut pools = MistyAsyncTaskPools::new();
    let a = pools.spawn(&rt, TIMER, job);
    let b = pools.spawn(&rt, FETCH, job);
    let c = pools.register(TIMER, 555);
    assert_eq!(c, AsyncTaskEntry { task_id: 2, kind: TIMER, handle: 555 });
    assert_eq!(pools.take_kind(MistyAsyncTaskId::new(9)), vec![]);
    let aborted = pools.reset(&rt);
    assert_eq!(aborted, vec![a.handle, b.handle, 555]);
    assert_eq!(*rt.log.aborted.borrow(), vec![a.handle, b.handle, 555]);
    assert_eq!(pools.len(), 0);
    assert_eq!(pools.next_task_id(), 3);
}
