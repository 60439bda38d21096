use reductionist::app::init;
use reductionist::app::resource_manager;
use reductionist::app::CommandLineArgs;
use reductionist::error::ActiveStorageError;
use reductionist::handler::Event;
use reductionist::handler::Phase;
use reductionist::handler::RequestFlow;
use reductionist::handler::Resource;
use reductionist::handler::Step;
use reductionist::resource_manager::default_task_limit;
use reductionist::resource_manager::task_limit;
use reductionist::resource_manager::worker_threads;
use reductionist::resource_manager::Admission;
use reductionist::resource_manager::Grant;
use reductionist::resource_manager::PermitPool;
use reductionist::resource_manager::ResourceManager;

#[test]
fn two_requests_for_sixty_percent() {
    let mut pool = PermitPool::new(Resource::Memory, Some(100));
    assert_eq!(pool.request(60), Ok(Admission::Granted(0)));
    assert_eq!(pool.request(60), Ok(Admission::Queued(1)));
    assert_eq!(pool.outstanding(), 60);
    assert_eq!(pool.release(0), vec![1]);
    assert_eq!(pool.outstanding(), 60);
    assert_eq!(pool.held, vec![Grant { ticket: 1, amount: 60 }]);
    assert_eq!(pool.release(1), Vec::<u64>::new());
    assert_eq!(pool.outstanding(), 0);
}

#[test]
fn demand_beyond_capacity_is_refused() {
    let mut pool = PermitPool::new(Resource::Memory, Some(100));
    assert_eq!(pool.request(101), Err(ActiveStorageError::MemoryLimitExceeded));
    assert_eq!(pool.request(100), Ok(Admission::Granted(0)));
    assert_eq!(pool.request(0), Ok(Admission::Granted(1)));
}

#[test]
fn waiters_are_served_in_order() {
    let mut pool = PermitPool::new(Resource::Memory, Some(10));
    assert_eq!(pool.request(8), Ok(Admission::Granted(0)));
    assert_eq!(pool.request(5), Ok(Admission::Queued(1)));
    // Fits beside what is held, but may not pass the one who waits.
    assert_eq!(pool.request(1), Ok(Admission::Queued(2)));
    assert_eq!(pool.request(9), Ok(Admission::Queued(3)));
    assert_eq!(pool.release(7), Vec::<u64>::new());
    assert_eq!(pool.release(0), vec![1, 2]);
    assert_eq!(pool.outstanding(), 6);
    assert_eq!(pool.cancel(3), Vec::<u64>::new());
    assert_eq!(pool.waiting, Vec::<Grant>::new());
    assert_eq!(pool.request(4), Ok(Admission::Granted(4)));
    assert_eq!(pool.outstanding(), 10);
}

#[test]
fn cancelling_the_head_lets_the_next_in() {
    let mut pool = PermitPool::new(Resource::Memory, Some(10));
    assert_eq!(pool.request(6), Ok(Admission::Granted(0)));
    assert_eq!(pool.request(7), Ok(Admission::Queued(1)));
    assert_eq!(pool.request(3), Ok(Admission::Queued(2)));
    assert_eq!(pool.cancel(1), vec![2]);
    assert_eq!(pool.outstanding(), 9);
}

#[test]
fn unlimited_pool_grants_everything() {
    let mut pool = PermitPool::new(Resource::Memory, None);
    assert_eq!(pool.request(usize::MAX), Ok(Admission::Granted(0)));
    assert_eq!(pool.request(usize::MAX), Ok(Admission::Granted(1)));
    assert_eq!(pool.outstanding(), 0);
    assert_eq!(pool.release(0), Vec::<u64>::new());
}

#[test]
fn nothing_is_granted_at_once() {
    let mut pool = PermitPool::new(Resource::Memory, Some(10));
    assert_eq!(pool.request(10), Ok(Admission::Granted(0)));
    assert_eq!(pool.request(1), Ok(Admission::Queued(1)));
    let held = pool.held.clone();
    let waiting = pool.waiting.clone();
    assert_eq!(pool.request(0), Ok(Admission::Granted(2)));
    assert_eq!(pool.held, held);
    assert_eq!(pool.waiting, waiting);
    assert_eq!(pool.outstanding(), 10);
    assert_eq!(pool.release(2), Vec::<u64>::new());
    assert_eq!(pool.release(0), vec![1]);
}

#[test]
fn refusal_fits_the_pool() {
    let mut memory = PermitPool::new(Resource::Memory, Some(0));
    assert_eq!(memory.request(1), Err(ActiveStorageError::MemoryLimitExceeded));
    let mut tasks = PermitPool::new(Resource::Task, Some(0));
    assert_eq!(tasks.request(1), Err(ActiveStorageError::InternalError));
    assert_eq!(tasks.request(0), Ok(Admission::Granted(0)));
    let mut connections = PermitPool::new(Resource::Connection, Some(2));
    assert_eq!(connections.request(3), Err(ActiveStorageError::InternalError));
    assert_eq!(connections.request(2), Ok(Admission::Granted(0)));
}

#[test]
fn pool_knows_what_is_held() {
    let mut pool = PermitPool::new(Resource::Connection, Some(1));
    assert_eq!(pool.request(1), Ok(Admission::Granted(0)));
    assert_eq!(pool.request(1), Ok(Admission::Queued(1)));
    assert!(pool.holds(0));
    assert!(!pool.holds(1));
    assert!(!pool.holds(9));
    assert_eq!(pool.release(0), vec![1]);
    assert!(pool.holds(1));
    assert!(!pool.holds(0));
    assert!(pool.is_valid());
}

#[test]
fn task_limits() {
    assert_eq!(task_limit(Some(3), 8), Some(3));
    assert_eq!(task_limit(None, 8), Some(7));
    assert_eq!(task_limit(None, 1), Some(0));
    assert_eq!(worker_threads(8), 7);
    assert_eq!(default_task_limit(Some(5)), Some(5));
    assert_eq!(default_task_limit(None), Some(num_cpus::get() - 1));
}

#[test]
fn managers() {
    let manager = ResourceManager::new(Some(4), None, Some(2));
    assert_eq!(manager.s3_connections.capacity, Some(4));
    assert_eq!(manager.memory.capacity, None);
    assert_eq!(manager.tasks.capacity, Some(2));
    let args = CommandLineArgs {
        use_rayon: false,
        memory_limit: Some(1 << 20),
        s3_connection_limit: None,
        thread_limit: None,
    };
    let manager = resource_manager(&args);
    assert_eq!(manager.memory.capacity, Some(1 << 20));
    assert_eq!(manager.s3_connections.capacity, None);
    assert_eq!(manager.tasks.capacity, Some(num_cpus::get() - 1));
    assert_eq!(manager.memory, PermitPool::new(Resource::Memory, Some(1 << 20)));
    assert_eq!(manager.s3_connections, PermitPool::new(Resource::Connection, None));
    assert_eq!(manager.tasks, PermitPool::new(Resource::Task, Some(num_cpus::get() - 1)));
    for pool in [&manager.memory, &manager.s3_connections, &manager.tasks] {
        assert!(pool.held.is_empty());
        assert!(pool.waiting.is_empty());
        assert_eq!(pool.next_ticket, 0);
        assert_eq!(pool.in_use, 0);
    }
}

#[test]
fn init_without_pool_does_nothing() {
    let args = CommandLineArgs {
        use_rayon: false,
        memory_limit: None,
        s3_connection_limit: None,
        thread_limit: None,
    };
    assert_eq!(init(&args), Ok(()));
    assert_eq!(init(&args), Ok(()));
}

#[test]
fn init_builds_the_pool_once() {
    let args = CommandLineArgs {
        use_rayon: true,
        memory_limit: None,
        s3_connection_limit: None,
        thread_limit: None,
    };
    assert_eq!(init(&args), Ok(()));
    let expected = if num_cpus::get() > 1 { num_cpus::get() - 1 } else { rayon::current_num_threads() };
    assert_eq!(rayon::current_num_threads(), expected);
    assert_eq!(init(&args), Err(ActiveStorageError::InternalError));
}

#[test]
fn flow_on_the_runtime() {
    let mut flow = RequestFlow::new(Some(128), false);
    assert_eq!(flow.advance(Event::Start), vec![Step::Acquire(Resource::Memory, 128)]);
    assert_eq!(
        flow.advance(Event::Acquired),
        vec![Step::ResolveClient, Step::Acquire(Resource::Connection, 1)]
    );
    assert_eq!(flow.advance(Event::Acquired), vec![Step::Fetch]);
    assert_eq!(flow.held, vec![Resource::Memory, Resource::Connection]);
    assert_eq!(
        flow.advance(Event::Fetched),
        vec![Step::Release(Resource::Connection), Step::Acquire(Resource::Task, 1)]
    );
    assert_eq!(flow.advance(Event::Acquired), vec![Step::Reduce { in_pool: false }]);
    assert_eq!(flow.phase, Phase::Running);
    assert_eq!(
        flow.advance(Event::Reduced),
        vec![Step::Release(Resource::Task), Step::Release(Resource::Memory), Step::Respond]
    );
    assert_eq!(flow.phase, Phase::Finished);
    assert_eq!(flow.held, Vec::<Resource>::new());
    assert_eq!(flow.advance(Event::Start), Vec::<Step>::new());
}

#[test]
fn flow_in_the_worker_pool() {
    let mut flow = RequestFlow::new(None, true);
    assert_eq!(flow.advance(Event::Start), vec![Step::Acquire(Resource::Memory, 0)]);
    flow.advance(Event::Acquired);
    flow.advance(Event::Acquired);
    assert_eq!(
        flow.advance(Event::Fetched),
        vec![Step::Release(Resource::Connection), Step::Reduce { in_pool: true }]
    );
    assert_eq!(
        flow.advance(Event::Reduced),
        vec![Step::Release(Resource::Memory), Step::Respond]
    );
}

#[test]
fn flow_gives_back_on_failure() {
    let mut flow = RequestFlow::new(Some(8), false);
    flow.advance(Event::Start);
    assert_eq!(
        flow.advance(Event::Failed(ActiveStorageError::MemoryLimitExceeded)),
        vec![Step::Fail(ActiveStorageError::MemoryLimitExceeded)]
    );
    let mut flow = RequestFlow::new(Some(8), false);
    flow.advance(Event::Start);
    flow.advance(Event::Acquired);
    flow.advance(Event::Acquired);
    assert_eq!(
        flow.advance(Event::Failed(ActiveStorageError::S3NotFound)),
        vec![
            Step::Release(Resource::Connection),
            Step::Release(Resource::Memory),
            Step::Fail(ActiveStorageError::S3NotFound)
        ]
    );
    assert_eq!(flow.phase, Phase::Finished);
    let mut flow = RequestFlow::new(Some(8), false);
    flow.advance(Event::Start);
    flow.advance(Event::Acquired);
    assert_eq!(flow.advance(Event::Cancelled), vec![Step::Release(Resource::Memory)]);
    let mut flow = RequestFlow::new(Some(8), false);
    flow.advance(Event::Start);
    assert_eq!(
        flow.advance(Event::Fetched),
        vec![Step::Fail(ActiveStorageError::InternalError)]
    );
}
