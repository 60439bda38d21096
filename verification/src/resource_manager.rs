//! Admission to the shared resources: memory, connections to the object store
//! and reduction tasks.
//!
//! A pool is a ledger of who holds how much and who waits, in order of
//! arrival. It decides; it does not block. The caller that is told to wait
//! holds its ticket until a release hands that ticket out.

use vstd::prelude::*;

use crate::error::ActiveStorageError;
use crate::handler::Resource;

verus! {

/// An amount of a resource, and the ticket of the request that asked for it.
#[derive(Debug, Clone, Copy, PartialEq, Eq, Structural)]
pub struct Grant {
    pub ticket: u64,
    pub amount: usize,
}

/// What a request is told.
#[derive(Debug, Clone, Copy, PartialEq, Eq, Structural)]
pub enum Admission {
    /// The permits are held under this ticket.
    Granted(u64),
    /// The request waits under this ticket until a release names it.
    Queued(u64),
}

/// The ledger of one resource.
#[derive(Debug, Clone, PartialEq, Eq)]
pub struct PermitPool {
    /// What the permits are of.
    pub resource: Resource,
    /// How much there is in all; `None` when the resource is not limited.
    pub capacity: Option<usize>,
    /// What is held, oldest first.
    pub held: Vec<Grant>,
    /// Who waits, first come first.
    pub waiting: Vec<Grant>,
    /// Sum of what is held.
    pub in_use: usize,
    /// The next ticket to hand out.
    pub next_ticket: u64,
}

/// The failure of a request that asks for more than a pool will ever have:
/// for memory that is `MemoryLimitExceeded`; a server whose limit on
/// connections or tasks is below what one request needs cannot serve at all,
/// which is an `InternalError`.
pub open spec fn over_capacity(resource: Resource) -> ActiveStorageError {
    match resource {
        Resource::Memory => ActiveStorageError::MemoryLimitExceeded,
        Resource::Connection | Resource::Task => ActiveStorageError::InternalError,
    }
}

/// Sum of the amounts of `grants`.
pub open spec fn total(grants: Seq<Grant>) -> int
    decreases grants.len(),
{
    if grants.len() == 0 {
        0
    } else {
        total(grants.drop_last()) + grants.last().amount
    }
}

/// The tickets of `grants`, in their order.
pub open spec fn tickets(grants: Seq<Grant>) -> Seq<u64> {
    Seq::new(grants.len(), |i: int| grants[i].ticket)
}

/// Who holds what and who still waits once the head of the queue has been let
/// in as long as it fits into `capacity`.
pub open spec fn promoted(held: Seq<Grant>, waiting: Seq<Grant>, capacity: int) -> (
    Seq<Grant>,
    Seq<Grant>,
)
    decreases waiting.len(),
{
    if waiting.len() > 0 && total(held) + waiting[0].amount <= capacity {
        promoted(held.push(waiting[0]), waiting.skip(1), capacity)
    } else {
        (held, waiting)
    }
}

/// Place of the first grant with `ticket`, or the length when there is none.
pub open spec fn position(grants: Seq<Grant>, ticket: u64) -> int
    decreases grants.len(),
{
    if grants.len() == 0 {
        0
    } else if grants[0].ticket == ticket {
        0
    } else {
        1 + position(grants.skip(1), ticket)
    }
}

pub proof fn lemma_total_push(grants: Seq<Grant>, grant: Grant)
    ensures
        total(grants.push(grant)) == total(grants) + grant.amount,
{
    assert(grants.push(grant).drop_last() =~= grants);
}

pub proof fn lemma_total_nonnegative(grants: Seq<Grant>)
    ensures
        total(grants) >= 0,
    decreases grants.len(),
{
    if grants.len() > 0 {
        lemma_total_nonnegative(grants.drop_last());
    }
}

/// What the first `n` grants add up to is no more than what all add up to.
pub proof fn lemma_total_prefix(grants: Seq<Grant>, n: int)
    requires
        0 <= n <= grants.len(),
    ensures
        0 <= total(grants.take(n)) <= total(grants),
    decreases grants.len() - n,
{
    lemma_total_nonnegative(grants.take(n));
    if n == grants.len() {
        assert(grants.take(n) =~= grants);
    } else {
        lemma_total_prefix(grants, n + 1);
        assert(grants.take(n + 1).drop_last() =~= grants.take(n));
    }
}

pub proof fn lemma_total_remove(grants: Seq<Grant>, i: int)
    requires
        0 <= i < grants.len(),
    ensures
        total(grants.remove(i)) == total(grants) - grants[i].amount,
    decreases grants.len(),
{
    if i == grants.len() - 1 {
        assert(grants.remove(i) =~= grants.drop_last());
    } else {
        lemma_total_remove(grants.drop_last(), i);
        assert(grants.remove(i).drop_last() =~= grants.drop_last().remove(i));
        assert(grants.remove(i).last() == grants.last());
    }
}

impl PermitPool {
    /// The ledger adds up, nothing beyond the capacity is held, nobody waits
    /// for more than there is, and the first in the queue waits because it
    /// does not fit; nobody waits for what is not limited.
    pub open spec fn wf(&self) -> bool {
        &&& self.in_use == total(self.held@)
        &&& match self.capacity {
            Some(capacity) => {
                &&& self.in_use <= capacity
                &&& forall|i: int|
                    0 <= i < self.waiting@.len() ==> (#[trigger] self.waiting@[i]).amount
                        <= capacity
                &&& self.waiting@.len() > 0 ==> self.in_use + self.waiting@[0].amount > capacity
            },
            None => self.held@.len() == 0 && self.waiting@.len() == 0,
        }
    }

    /// The ledger while the head of the queue may still have to be let in.
    pub open spec fn unsettled(&self) -> bool {
        &&& self.in_use == total(self.held@)
        &&& self.capacity matches Some(capacity) && self.in_use <= capacity && forall|i: int|
            0 <= i < self.waiting@.len() ==> (#[trigger] self.waiting@[i]).amount <= capacity
    }

    /// Whether this is a new pool of `capacity` units of `resource`: nothing is
    /// held, nobody waits, and no ticket has been handed out.
    pub open spec fn is_fresh(&self, resource: Resource, capacity: Option<usize>) -> bool {
        &&& self.resource == resource
        &&& self.capacity == capacity
        &&& self.held@.len() == 0
        &&& self.waiting@.len() == 0
        &&& self.in_use == 0
        &&& self.next_ticket == 0
    }

    /// A pool of `capacity` units of `resource` in which nothing is held.
    pub fn new(resource: Resource, capacity: Option<usize>) -> (pool: PermitPool)
        ensures
            pool.wf(),
            pool.is_fresh(resource, capacity),
    {
        PermitPool {
            resource,
            capacity,
            held: Vec::new(),
            waiting: Vec::new(),
            in_use: 0,
            next_ticket: 0,
        }
    }

    /// Whether permits are held under `ticket`.
    pub fn holds(&self, ticket: u64) -> (yes: bool)
        ensures
            yes == (position(self.held@, ticket) < self.held@.len()),
    {
        find(&self.held, ticket) < self.held.len()
    }

    /// Asks for `amount` units.
    ///
    /// More than the pool will ever have is refused: with
    /// `MemoryLimitExceeded` where the pool is memory, with `InternalError`
    /// where it is not. A request for 0 units is granted at once and leaves no
    /// trace in the books, whoever waits. Otherwise the request is granted at once when
    /// nobody waits and the amount fits beside what is held, and queued behind
    /// those who wait when not. A pool without a limit grants everything and
    /// keeps no books. `InternalError` also says that the tickets have run
    /// out.
    pub fn request(&mut self, amount: usize) -> (result: Result<Admission, ActiveStorageError>)
        requires
            old(self).wf(),
        ensures
            final(self).wf(),
            final(self).capacity == old(self).capacity,
            final(self).resource == old(self).resource,
            match result {
                Err(e) => {
                    &&& *final(self) == *old(self)
                    &&& if old(self).capacity matches Some(capacity) && amount > capacity {
                        e == over_capacity(old(self).resource)
                    } else {
                        e == ActiveStorageError::InternalError && old(self).next_ticket
                            == u64::MAX
                    }
                },
                Ok(admission) => {
                    let ticket = old(self).next_ticket;
                    let grant = Grant { ticket, amount };
                    &&& ticket < u64::MAX
                    &&& final(self).next_ticket == ticket + 1
                    &&& match old(self).capacity {
                        None => admission == Admission::Granted(ticket) && final(self).held@
                            == old(self).held@ && final(self).waiting@ == old(self).waiting@,
                        Some(capacity) => amount <= capacity && if amount == 0 {
                            &&& admission == Admission::Granted(ticket)
                            &&& final(self).held@ == old(self).held@
                            &&& final(self).waiting@ == old(self).waiting@
                        } else if old(self).waiting@.len() == 0 && old(self).in_use + amount
                            <= capacity {
                            &&& admission == Admission::Granted(ticket)
                            &&& final(self).held@ == old(self).held@.push(grant)
                            &&& final(self).waiting@ == old(self).waiting@
                        } else {
                            &&& admission == Admission::Queued(ticket)
                            &&& final(self).held@ == old(self).held@
                            &&& final(self).waiting@ == old(self).waiting@.push(grant)
                        },
                    }
                },
            },
    {
        let capacity = match self.capacity {
            Some(capacity) => capacity,
            None => {
                if self.next_ticket == u64::MAX {
                    return Err(ActiveStorageError::InternalError);
                }
                let ticket = self.next_ticket;
                self.next_ticket = ticket + 1;
                return Ok(Admission::Granted(ticket));
            },
        };
        if amount > capacity {
            return Err(
                match self.resource {
                    Resource::Memory => ActiveStorageError::MemoryLimitExceeded,
                    Resource::Connection | Resource::Task => ActiveStorageError::InternalError,
                },
            );
        }
        if self.next_ticket == u64::MAX {
            return Err(ActiveStorageError::InternalError);
        }
        let ticket = self.next_ticket;
        self.next_ticket = ticket + 1;
        if amount == 0 {
            return Ok(Admission::Granted(ticket));
        }
        let grant = Grant { ticket, amount };
        if self.waiting.len() == 0 && amount <= capacity - self.in_use {
            proof {
                lemma_total_push(self.held@, grant);
            }
            self.held.push(grant);
            self.in_use = self.in_use + amount;
            Ok(Admission::Granted(ticket))
        } else {
            self.waiting.push(grant);
            Ok(Admission::Queued(ticket))
        }
    }

    /// Lets the head of the queue in as long as it fits, and says whose turn
    /// has come, in the order of their arrival.
    fn promote(&mut self) -> (granted: Vec<u64>)
        requires
            old(self).unsettled(),
        ensures
            final(self).wf(),
            final(self).capacity == old(self).capacity,
            final(self).resource == old(self).resource,
            final(self).next_ticket == old(self).next_ticket,
            (final(self).held@, final(self).waiting@) == promoted(
                old(self).held@,
                old(self).waiting@,
                old(self).capacity->Some_0 as int,
            ),
            granted@ == tickets(
                old(self).waiting@.take(old(self).waiting@.len() - final(self).waiting@.len()),
            ),
            final(self).waiting@.len() <= old(self).waiting@.len(),
    {
        let ghost before = self.waiting@;
        let ghost start = self.held@;
        let capacity = match self.capacity {
            Some(capacity) => capacity,
            None => 0,
        };
        let mut granted: Vec<u64> = Vec::new();
        assert(before.take(0) =~= Seq::<Grant>::empty());
        assert(granted@ =~= tickets(before.take(0)));
        assert(before.skip(0) =~= before);
        while self.waiting.len() > 0 && self.waiting[0].amount <= capacity - self.in_use
            invariant
                self.unsettled(),
                self.capacity == Some(capacity),
                self.capacity == old(self).capacity,
                self.resource == old(self).resource,
                self.next_ticket == old(self).next_ticket,
                before == old(self).waiting@,
                start == old(self).held@,
                self.waiting@.len() <= before.len(),
                self.waiting@ == before.skip(before.len() - self.waiting@.len()),
                granted@ == tickets(before.take(before.len() - self.waiting@.len())),
                promoted(start, before, capacity as int) == promoted(
                    self.held@,
                    self.waiting@,
                    capacity as int,
                ),
            decreases self.waiting@.len(),
        {
            let ghost queue = self.waiting@;
            let ghost moved = before.len() - queue.len();
            let grant = self.waiting.remove(0);
            proof {
                lemma_total_push(self.held@, grant);
                assert(self.waiting@ =~= queue.skip(1));
                assert(self.waiting@ =~= before.skip(moved + 1));
                assert(before.take(moved + 1) =~= before.take(moved).push(grant));
                assert(tickets(before.take(moved + 1)) =~= tickets(before.take(moved)).push(
                    grant.ticket,
                ));
            }
            self.held.push(grant);
            self.in_use = self.in_use + grant.amount;
            granted.push(grant.ticket);
        }
        granted
    }

    /// Gives back what is held under `ticket`, and says whose turn has come
    /// with that, in the order of their arrival. A ticket under which nothing
    /// is held changes nothing.
    pub fn release(&mut self, ticket: u64) -> (granted: Vec<u64>)
        requires
            old(self).wf(),
        ensures
            final(self).wf(),
            final(self).capacity == old(self).capacity,
            final(self).resource == old(self).resource,
            final(self).next_ticket == old(self).next_ticket,
            ({
                let place = position(old(self).held@, ticket);
                if place < old(self).held@.len() {
                    &&& (final(self).held@, final(self).waiting@) == promoted(
                        old(self).held@.remove(place),
                        old(self).waiting@,
                        old(self).capacity->Some_0 as int,
                    )
                    &&& granted@ == tickets(
                        old(self).waiting@.take(
                            old(self).waiting@.len() - final(self).waiting@.len(),
                        ),
                    )
                } else {
                    &&& *final(self) == *old(self)
                    &&& granted@.len() == 0
                }
            }),
    {
        let place = find(&self.held, ticket);
        if place >= self.held.len() {
            return Vec::new();
        }
        proof {
            lemma_total_remove(self.held@, place as int);
            lemma_total_nonnegative(self.held@.remove(place as int));
        }
        let grant = self.held.remove(place);
        self.in_use = self.in_use - grant.amount;
        self.promote()
    }

    /// Takes the request with `ticket` out of the queue, and says whose turn
    /// has come with that, in the order of their arrival. A ticket that does
    /// not wait changes nothing.
    pub fn cancel(&mut self, ticket: u64) -> (granted: Vec<u64>)
        requires
            old(self).wf(),
        ensures
            final(self).wf(),
            final(self).capacity == old(self).capacity,
            final(self).resource == old(self).resource,
            final(self).next_ticket == old(self).next_ticket,
            ({
                let place = position(old(self).waiting@, ticket);
                if place < old(self).waiting@.len() {
                    let rest = old(self).waiting@.remove(place);
                    &&& (final(self).held@, final(self).waiting@) == promoted(
                        old(self).held@,
                        rest,
                        old(self).capacity->Some_0 as int,
                    )
                    &&& granted@ == tickets(rest.take(rest.len() - final(self).waiting@.len()))
                } else {
                    &&& *final(self) == *old(self)
                    &&& granted@.len() == 0
                }
            }),
    {
        let place = find(&self.waiting, ticket);
        if place >= self.waiting.len() {
            return Vec::new();
        }
        let _ = self.waiting.remove(place);
        self.promote()
    }

    /// Checks the ledger: whether it adds up and keeps within its limit.
    pub fn is_valid(&self) -> (valid: bool)
        ensures
            valid == self.wf(),
    {
        let mut sum: usize = 0;
        let mut i: usize = 0;
        assert(self.held@.take(0) =~= Seq::<Grant>::empty());
        while i < self.held.len()
            invariant
                i <= self.held@.len(),
                sum == total(self.held@.take(i as int)),
            decreases self.held@.len() - i,
        {
            proof {
                assert(self.held@.take(i + 1).drop_last() =~= self.held@.take(i as int));
                lemma_total_prefix(self.held@, i + 1);
            }
            match sum.checked_add(self.held[i].amount) {
                Some(next) => {
                    sum = next;
                },
                None => {
                    return false;
                },
            }
            i += 1;
        }
        assert(self.held@.take(i as int) =~= self.held@);
        if sum != self.in_use {
            return false;
        }
        match self.capacity {
            Some(capacity) => {
                if self.in_use > capacity {
                    return false;
                }
                let mut w: usize = 0;
                while w < self.waiting.len()
                    invariant
                        w <= self.waiting@.len(),
                        self.capacity == Some(capacity),
                        forall|k: int|
                            0 <= k < w ==> (#[trigger] self.waiting@[k]).amount <= capacity,
                    decreases self.waiting@.len() - w,
                {
                    if self.waiting[w].amount > capacity {
                        assert(!(self.waiting@[w as int].amount <= capacity));
                        return false;
                    }
                    w += 1;
                }
                self.waiting.len() == 0 || self.waiting[0].amount > capacity - self.in_use
            },
            None => self.held.len() == 0 && self.waiting.len() == 0,
        }
    }

    /// Sum of what is held.
    pub fn outstanding(&self) -> (n: usize)
        requires
            self.wf(),
        ensures
            n == total(self.held@),
            self.capacity matches Some(capacity) ==> n <= capacity,
    {
        self.in_use
    }
}

/// Place of the first grant with `ticket`, or the length when there is none.
fn find(grants: &Vec<Grant>, ticket: u64) -> (place: usize)
    ensures
        place == position(grants@, ticket),
        place <= grants@.len(),
        place < grants@.len() ==> grants@[place as int].ticket == ticket,
{
    let mut i: usize = 0;
    assert(grants@.skip(0) =~= grants@);
    while i < grants.len()
        invariant
            i <= grants@.len(),
            position(grants@, ticket) == i + position(grants@.skip(i as int), ticket),
        decreases grants@.len() - i,
    {
        if grants[i].ticket == ticket {
            return i;
        }
        assert(grants@.skip(i as int).skip(1) =~= grants@.skip(i + 1));
        i += 1;
    }
    i
}

/// In a pool with a limit, what is held never adds up to more than the limit.
pub proof fn lemma_within_capacity(pool: PermitPool)
    requires
        pool.wf(),
        pool.capacity is Some,
    ensures
        total(pool.held@) <= pool.capacity->Some_0,
{
}

/// The limit on reduction tasks: the one that was asked for, or one less than
/// the number of processors.
pub open spec fn task_limit_for(thread_limit: Option<usize>, cpus: usize) -> Option<usize> {
    match thread_limit {
        Some(limit) => Some(limit),
        None => Some(one_less(cpus)),
    }
}

/// One less than `cpus`; none where there is none.
pub open spec fn one_less(cpus: usize) -> usize {
    if cpus >= 1 {
        (cpus - 1) as usize
    } else {
        0
    }
}

/// The limit on reduction tasks on a machine with `cpus` processors.
pub fn task_limit(thread_limit: Option<usize>, cpus: usize) -> (limit: Option<usize>)
    ensures
        limit == task_limit_for(thread_limit, cpus),
{
    match thread_limit {
        Some(limit) => Some(limit),
        None => Some(worker_threads(cpus)),
    }
}

/// The limit on reduction tasks on this machine.
pub fn default_task_limit(thread_limit: Option<usize>) -> (limit: Option<usize>)
    ensures
        thread_limit is Some ==> limit == thread_limit,
        limit is Some,
        exists|cpus: usize| cpus >= 1 && limit == task_limit_for(thread_limit, cpus),
{
    let cpus = crate::app::available_cpus();
    task_limit(thread_limit, cpus)
}

/// The number of threads of the worker pool on a machine with `cpus`
/// processors: one less than there are processors.
pub fn worker_threads(cpus: usize) -> (threads: usize)
    ensures
        threads == one_less(cpus),
{
    if cpus >= 1 {
        cpus - 1
    } else {
        0
    }
}

/// The three ledgers of a server.
#[derive(Debug, Clone, PartialEq, Eq)]
pub struct ResourceManager {
    /// Connections to the object store, counted in requests in flight.
    pub s3_connections: PermitPool,
    /// Memory, counted in bytes.
    pub memory: PermitPool,
    /// Reductions that run at the same time.
    pub tasks: PermitPool,
}

impl ResourceManager {
    pub open spec fn wf(&self) -> bool {
        self.s3_connections.wf() && self.memory.wf() && self.tasks.wf()
    }

    /// The ledgers of a server with the given limits, all of them new. A limit
    /// that is not set leaves that resource without one.
    pub fn new(
        s3_connection_limit: Option<usize>,
        memory_limit: Option<usize>,
        task_limit: Option<usize>,
    ) -> (manager: ResourceManager)
        ensures
            manager.wf(),
            manager.s3_connections.is_fresh(Resource::Connection, s3_connection_limit),
            manager.memory.is_fresh(Resource::Memory, memory_limit),
            manager.tasks.is_fresh(Resource::Task, task_limit),
    {
        ResourceManager {
            s3_connections: PermitPool::new(Resource::Connection, s3_connection_limit),
            memory: PermitPool::new(Resource::Memory, memory_limit),
            tasks: PermitPool::new(Resource::Task, task_limit),
        }
    }
}

} // verus!
