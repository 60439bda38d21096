//! The order of the steps of one request: which permit to ask for, when to
//! fetch, when to reduce, and what to give back on the way out.
//!
//! The caller does what a step says and reports what came of it; the flow
//! decides what comes next. Whatever happens, the permits that are held go
//! back in the reverse of the order in which they were taken.

use vstd::prelude::*;

use crate::error::ActiveStorageError;

verus! {

/// The resources that a request takes permits of.
#[derive(Debug, Clone, Copy, PartialEq, Eq, Structural)]
pub enum Resource {
    Memory,
    Connection,
    Task,
}

/// Where a request stands.
#[derive(Debug, Clone, Copy, PartialEq, Eq, Structural)]
pub enum Phase {
    /// Nothing has happened yet.
    Fresh,
    /// Waits for its memory.
    AwaitMemory,
    /// Waits for a connection to the object store.
    AwaitConnection,
    /// The object is being fetched.
    Fetching,
    /// Waits for its turn to reduce.
    AwaitTask,
    /// The reduction runs.
    Running,
    /// Over, one way or the other.
    Finished,
}

/// What the caller reports.
#[derive(Debug, Clone, PartialEq, Eq)]
pub enum Event {
    /// The request has arrived.
    Start,
    /// The permit that was asked for is held.
    Acquired,
    /// The object is there.
    Fetched,
    /// The reduction has given its result.
    Reduced,
    /// The last step failed.
    Failed(ActiveStorageError),
    /// The client has gone away.
    Cancelled,
}

/// What the caller is to do next.
#[derive(Debug, Clone, PartialEq, Eq)]
pub enum Step {
    /// Take that many permits of a resource, and report `Acquired` or `Failed`.
    Acquire(Resource, usize),
    /// Find or make the client for the object store.
    ResolveClient,
    /// Fetch the object, and report `Fetched` or `Failed`.
    Fetch,
    /// Give back the permits of a resource.
    Release(Resource),
    /// Run the reduction, in the worker pool or where the caller stands, and
    /// report `Reduced` or `Failed`.
    Reduce { in_pool: bool },
    /// Send the result.
    Respond,
    /// Send the failure.
    Fail(ActiveStorageError),
}

/// One request on its way through the server.
#[derive(Debug, Clone, PartialEq, Eq)]
pub struct RequestFlow {
    pub phase: Phase,
    /// The permits that are held, in the order in which they were taken.
    pub held: Vec<Resource>,
    /// Bytes of memory that the request needs: its size, or 0 when it names none.
    pub memory: usize,
    /// Whether reductions run in the worker pool.
    pub use_pool: bool,
}

/// The steps that give back `held`, the last taken first.
pub open spec fn releases(held: Seq<Resource>) -> Seq<Step> {
    Seq::new(held.len(), |i: int| Step::Release(held[held.len() - 1 - i]))
}

/// What is held in each phase.
pub open spec fn held_in(phase: Phase, use_pool: bool) -> Seq<Resource> {
    match phase {
        Phase::Fresh | Phase::AwaitMemory | Phase::Finished => Seq::empty(),
        Phase::AwaitConnection | Phase::AwaitTask => seq![Resource::Memory],
        Phase::Fetching => seq![Resource::Memory, Resource::Connection],
        Phase::Running => if use_pool {
            seq![Resource::Memory]
        } else {
            seq![Resource::Memory, Resource::Task]
        },
    }
}

/// The phase after `event` in `phase`, and the steps to take. An event that
/// does not belong to the phase ends the request as an internal error does.
pub open spec fn next(phase: Phase, memory: usize, use_pool: bool, event: Event) -> (
    Phase,
    Seq<Step>,
) {
    let held = held_in(phase, use_pool);
    match (phase, event) {
        (Phase::Finished, _) => (Phase::Finished, Seq::empty()),
        (_, Event::Failed(e)) => (Phase::Finished, releases(held).push(Step::Fail(e))),
        (_, Event::Cancelled) => (Phase::Finished, releases(held)),
        (Phase::Fresh, Event::Start) => (
            Phase::AwaitMemory,
            seq![Step::Acquire(Resource::Memory, memory)],
        ),
        (Phase::AwaitMemory, Event::Acquired) => (
            Phase::AwaitConnection,
            seq![Step::ResolveClient, Step::Acquire(Resource::Connection, 1)],
        ),
        (Phase::AwaitConnection, Event::Acquired) => (Phase::Fetching, seq![Step::Fetch]),
        (Phase::Fetching, Event::Fetched) => if use_pool {
            (
                Phase::Running,
                seq![Step::Release(Resource::Connection), Step::Reduce { in_pool: true }],
            )
        } else {
            (
                Phase::AwaitTask,
                seq![Step::Release(Resource::Connection), Step::Acquire(Resource::Task, 1)],
            )
        },
        (Phase::AwaitTask, Event::Acquired) => (
            Phase::Running,
            seq![Step::Reduce { in_pool: false }],
        ),
        (Phase::Running, Event::Reduced) => (
            Phase::Finished,
            releases(held).push(Step::Respond),
        ),
        _ => (
            Phase::Finished,
            releases(held).push(Step::Fail(ActiveStorageError::InternalError)),
        ),
    }
}

impl RequestFlow {
    /// The permits that are held are those of the phase, and nobody waits for
    /// a task permit where reductions run in the worker pool.
    pub open spec fn wf(&self) -> bool {
        &&& self.held@ == held_in(self.phase, self.use_pool)
        &&& self.phase == Phase::AwaitTask ==> !self.use_pool
    }

    /// Checks that the permits that are held are those of the phase.
    pub fn is_valid(&self) -> (valid: bool)
        ensures
            valid == self.wf(),
    {
        let n = self.held.len();
        let held_fits = match self.phase {
            Phase::Fresh | Phase::AwaitMemory | Phase::Finished => n == 0,
            Phase::AwaitConnection | Phase::AwaitTask => n == 1 && is_memory(self.held[0]),
            Phase::Fetching => n == 2 && is_memory(self.held[0]) && is_connection(self.held[1]),
            Phase::Running => if self.use_pool {
                n == 1 && is_memory(self.held[0])
            } else {
                n == 2 && is_memory(self.held[0]) && is_task(self.held[1])
            },
        };
        let waits_for_task = match self.phase {
            Phase::AwaitTask => true,
            _ => false,
        };
        proof {
            let expected = held_in(self.phase, self.use_pool);
            if held_fits {
                assert(self.held@ =~= expected);
            } else if self.held@ == expected {
                assert(self.held@.len() == expected.len());
                if expected.len() > 0 {
                    assert(self.held@[0] == expected[0]);
                }
                if expected.len() > 1 {
                    assert(self.held@[1] == expected[1]);
                }
            }
        }
        held_fits && !(waits_for_task && self.use_pool)
    }

    /// The flow of a request that reads `size` bytes, or an unknown number.
    pub fn new(size: Option<usize>, use_pool: bool) -> (flow: RequestFlow)
        ensures
            flow.wf(),
            flow.phase == Phase::Fresh,
            flow.use_pool == use_pool,
            flow.memory == match size {
                Some(size) => size,
                None => 0,
            },
    {
        let memory = match size {
            Some(size) => size,
            None => 0,
        };
        RequestFlow { phase: Phase::Fresh, held: Vec::new(), memory, use_pool }
    }

    /// Gives back all that is held, the last taken first.
    fn unwind(&mut self) -> (steps: Vec<Step>)
        ensures
            steps@ == releases(old(self).held@),
            final(self).held@.len() == 0,
            final(self).phase == old(self).phase,
            final(self).memory == old(self).memory,
            final(self).use_pool == old(self).use_pool,
    {
        let ghost before = self.held@;
        let mut steps: Vec<Step> = Vec::new();
        while self.held.len() > 0
            invariant
                self.held@.len() <= before.len(),
                self.held@ == before.take(self.held@.len() as int),
                steps@ == releases(before).take(before.len() - self.held@.len()),
                self.phase == old(self).phase,
                self.memory == old(self).memory,
                self.use_pool == old(self).use_pool,
            decreases self.held@.len(),
        {
            let ghost n = self.held@.len();
            let ghost done = before.len() - n;
            match self.held.pop() {
                Some(resource) => {
                    steps.push(Step::Release(resource));
                    proof {
                        assert(resource == before[n - 1]);
                        assert(self.held@ =~= before.take(n - 1));
                        assert(releases(before).take(done + 1) =~= releases(before).take(
                            done,
                        ).push(Step::Release(resource)));
                    }
                },
                None => {},
            }
        }
        assert(steps@ =~= releases(before));
        steps
    }

    /// Takes in what the caller reports and says what to do next.
    pub fn advance(&mut self, event: Event) -> (steps: Vec<Step>)
        requires
            old(self).wf(),
        ensures
            final(self).wf(),
            final(self).memory == old(self).memory,
            final(self).use_pool == old(self).use_pool,
            (final(self).phase, steps@) == next(
                old(self).phase,
                old(self).memory,
                old(self).use_pool,
                event,
            ),
    {
        let mut steps: Vec<Step> = Vec::new();
        match (self.phase, event) {
            (Phase::Finished, _) => {},
            (_, Event::Failed(e)) => {
                steps = self.unwind();
                steps.push(Step::Fail(e));
                self.phase = Phase::Finished;
            },
            (_, Event::Cancelled) => {
                steps = self.unwind();
                self.phase = Phase::Finished;
            },
            (Phase::Fresh, Event::Start) => {
                steps.push(Step::Acquire(Resource::Memory, self.memory));
                self.phase = Phase::AwaitMemory;
            },
            (Phase::AwaitMemory, Event::Acquired) => {
                self.held.push(Resource::Memory);
                steps.push(Step::ResolveClient);
                steps.push(Step::Acquire(Resource::Connection, 1));
                self.phase = Phase::AwaitConnection;
            },
            (Phase::AwaitConnection, Event::Acquired) => {
                self.held.push(Resource::Connection);
                steps.push(Step::Fetch);
                self.phase = Phase::Fetching;
            },
            (Phase::Fetching, Event::Fetched) => {
                let _ = self.held.pop();
                steps.push(Step::Release(Resource::Connection));
                if self.use_pool {
                    steps.push(Step::Reduce { in_pool: true });
                    self.phase = Phase::Running;
                } else {
                    steps.push(Step::Acquire(Resource::Task, 1));
                    self.phase = Phase::AwaitTask;
                }
            },
            (Phase::AwaitTask, Event::Acquired) => {
                self.held.push(Resource::Task);
                steps.push(Step::Reduce { in_pool: false });
                self.phase = Phase::Running;
            },
            (Phase::Running, Event::Reduced) => {
                steps = self.unwind();
                steps.push(Step::Respond);
                self.phase = Phase::Finished;
            },
            _ => {
                steps = self.unwind();
                steps.push(Step::Fail(ActiveStorageError::InternalError));
                self.phase = Phase::Finished;
            },
        }
        assert(self.held@ =~= held_in(self.phase, self.use_pool));
        assert(steps@ =~= next(old(self).phase, old(self).memory, old(self).use_pool, event).1);
        steps
    }
}

fn is_memory(resource: Resource) -> (yes: bool)
    ensures
        yes == (resource == Resource::Memory),
{
    match resource {
        Resource::Memory => true,
        _ => false,
    }
}

fn is_connection(resource: Resource) -> (yes: bool)
    ensures
        yes == (resource == Resource::Connection),
{
    match resource {
        Resource::Connection => true,
        _ => false,
    }
}

fn is_task(resource: Resource) -> (yes: bool)
    ensures
        yes == (resource == Resource::Task),
{
    match resource {
        Resource::Task => true,
        _ => false,
    }
}

/// A request that is over holds nothing, and none holds a connection while it
/// reduces.
pub proof fn lemma_nothing_left(flow: RequestFlow)
    requires
        flow.wf(),
    ensures
        flow.phase == Phase::Finished ==> flow.held@.len() == 0,
        flow.phase == Phase::Running ==> !flow.held@.contains(Resource::Connection),
{
    if flow.phase == Phase::Running {
        assert forall|i: int| 0 <= i < flow.held@.len() implies flow.held@[i]
            != Resource::Connection by {}
    }
}

} // verus!
