//! What a server sets up before it takes requests.

use vstd::prelude::*;

use crate::error::ActiveStorageError;
use crate::handler::Resource;
use crate::resource_manager::default_task_limit;
use crate::resource_manager::task_limit_for;
use crate::resource_manager::worker_threads;
use crate::resource_manager::ResourceManager;

verus! {

/// The settings of a server that bear on how requests are run.
#[derive(Debug, Clone, PartialEq, Eq)]
pub struct CommandLineArgs {
    /// Whether reductions run in the worker pool.
    pub use_rayon: bool,
    /// Most bytes of memory that requests may hold together.
    pub memory_limit: Option<usize>,
    /// Most requests to the object store in flight.
    pub s3_connection_limit: Option<usize>,
    /// Most reductions at the same time.
    pub thread_limit: Option<usize>,
}

/// The number of processors that this process may use.
///
/// Calls `num_cpus::get`, which is documented to return at least 1. The
/// number depends on the machine, so nothing more is said of it.
#[verifier::external_body]
pub(crate) fn available_cpus() -> (n: usize)
    ensures
        n >= 1,
{
    num_cpus::get()
}

/// Sets up the process-wide worker pool with `threads` threads.
///
/// Calls `rayon::ThreadPoolBuilder::build_global` on a builder with
/// `num_threads(threads)`, and says whether it succeeded. It fails when the
/// pool was set up before, or when the threads cannot be started; neither can
/// be told from the arguments, so nothing is promised.
#[verifier::external_body]
fn build_worker_pool(threads: usize) -> (built: bool) {
    rayon::ThreadPoolBuilder::new().num_threads(threads).build_global().is_ok()
}

/// What `init` gives once the worker pool has been asked for.
pub fn pool_outcome(built: bool) -> (result: Result<(), ActiveStorageError>)
    ensures
        built ==> result is Ok,
        !built ==> result == Err::<(), ActiveStorageError>(ActiveStorageError::InternalError),
{
    if built {
        Ok(())
    } else {
        Err(ActiveStorageError::InternalError)
    }
}

/// Prepares the process: with `use_rayon`, sets up the worker pool with one
/// thread less than there are processors. Without it there is nothing to do.
///
/// Fails with `InternalError` when the worker pool cannot be set up.
pub fn init(args: &CommandLineArgs) -> (result: Result<(), ActiveStorageError>)
    ensures
        !args.use_rayon ==> result is Ok,
        result is Err ==> result->Err_0 == ActiveStorageError::InternalError,
{
    if args.use_rayon {
        let threads = worker_threads(available_cpus());
        pool_outcome(build_worker_pool(threads))
    } else {
        Ok(())
    }
}

/// The ledgers of a server with these settings, all of them new. Without a
/// thread limit the limit on reductions is one less than the number of
/// processors.
pub fn resource_manager(args: &CommandLineArgs) -> (manager: ResourceManager)
    ensures
        manager.wf(),
        manager.s3_connections.is_fresh(Resource::Connection, args.s3_connection_limit),
        manager.memory.is_fresh(Resource::Memory, args.memory_limit),
        exists|cpus: usize|
            cpus >= 1 && manager.tasks.is_fresh(
                Resource::Task,
                task_limit_for(args.thread_limit, cpus),
            ),
        args.thread_limit is Some ==> manager.tasks.is_fresh(Resource::Task, args.thread_limit),
{
    let task_limit = default_task_limit(args.thread_limit);
    ResourceManager::new(args.s3_connection_limit, args.memory_limit, task_limit)
}

} // verus!
