//! Configuration of resource pools and of the worker pool, with validation.

use std::time::Duration;
use vstd::prelude::*;
use vstd::string::*;

verus! {

/// The runtime that a pool is served by.
#[derive(Debug, Clone, Copy, PartialEq, Eq, Structural)]
pub enum RuntimeConfig {
    /// Threads of the operating system.
    Native,
    /// A web worker.
    WebWorker,
    /// A cloud worker.
    CloudWorker,
}

/// The backend that holds a pool's queue.
#[derive(Debug, Clone, Copy, PartialEq, Eq, Structural)]
pub enum QueueBackendConfig {
    /// In memory.
    InMemory,
    /// In a file.
    File,
    /// In a relational database.
    Postgres,
}

/// The backend that holds a pool's mailbox.
#[derive(Debug, Clone, Copy, PartialEq, Eq, Structural)]
pub enum MailboxBackendConfig {
    /// In memory.
    InMemory,
    /// In a file.
    File,
    /// In a relational database.
    Postgres,
}

/// Configuration of one resource pool.
#[derive(Debug, Clone, Copy, PartialEq, Eq, Structural)]
pub struct PoolConfig {
    /// The units that running tasks may hold together.
    pub max_units: u32,
    /// The number of tasks that may be parked.
    pub max_queue_depth: usize,
    /// How long a task may take by default, in seconds.
    pub default_timeout_secs: u64,
    /// Where the queue is kept.
    pub queue: QueueBackendConfig,
    /// Where the mailbox is kept.
    pub mailbox: MailboxBackendConfig,
    /// What serves the pool.
    pub runtime: RuntimeConfig,
}

impl PoolConfig {
    /// Whether every value is in its range: all three numbers are positive.
    pub open spec fn valid(self) -> bool {
        self.max_units > 0 && self.max_queue_depth > 0 && self.default_timeout_secs > 0
    }

    /// What is wrong with the first value that is out of range.
    pub open spec fn fault(self) -> Seq<char> {
        if self.max_units == 0 {
            "max_units must be greater than 0"@
        } else if self.max_queue_depth == 0 {
            "max_queue_depth must be greater than 0"@
        } else {
            "default_timeout_secs must be greater than 0"@
        }
    }

    /// Checks that every value is in its range, and says what is wrong where
    /// one is not.
    pub fn validate(&self) -> (r: Result<(), String>)
        ensures
            r is Ok <==> self.valid(),
            r matches Err(why) ==> why@ == self.fault(),
    {
        if self.max_units == 0 {
            return Err(String::from_str("max_units must be greater than 0"));
        }
        if self.max_queue_depth == 0 {
            return Err(String::from_str("max_queue_depth must be greater than 0"));
        }
        if self.default_timeout_secs == 0 {
            return Err(String::from_str("default_timeout_secs must be greater than 0"));
        }
        Ok(())
    }
}

/// A pool's configuration under the pool's name.
#[derive(Debug)]
pub struct NamedPool {
    /// The pool's name.
    pub name: String,
    /// The pool's configuration.
    pub config: PoolConfig,
}

/// Configuration of a scheduler: its pools by name, in the order in which the
/// names were first inserted.
#[derive(Debug)]
pub struct SchedulerConfig {
    pools: Vec<NamedPool>,
}

/// The index of the first pool of `pools` that is not valid, or the number of
/// pools where all are.
pub open spec fn first_invalid(pools: Seq<NamedPool>) -> int
    decreases pools.len(),
{
    if pools.len() == 0 || !pools[0].config.valid() {
        0
    } else {
        1 + first_invalid(pools.drop_first())
    }
}

/// The index of the first pool of `pools` under the name `name`, or the
/// number of pools where there is none.
pub open spec fn position_of(pools: Seq<NamedPool>, name: Seq<char>) -> int
    decreases pools.len(),
{
    if pools.len() == 0 || pools[0].name@ == name {
        0
    } else {
        1 + position_of(pools.drop_first(), name)
    }
}

impl SchedulerConfig {
    /// The pools, in the order in which their names were first inserted.
    pub closed spec fn entries(&self) -> Seq<NamedPool> {
        self.pools@
    }

    /// Whether the configuration is valid: it has a pool, and every pool is
    /// valid.
    pub open spec fn valid(&self) -> bool {
        self.entries().len() > 0 && first_invalid(self.entries()) == self.entries().len()
    }

    /// What is wrong with an invalid configuration: it has no pool, or the
    /// first pool that is not valid, by name, with its fault.
    pub open spec fn fault(&self) -> Seq<char> {
        if self.entries().len() == 0 {
            "at least one pool must be defined"@
        } else {
            let pool = self.entries()[first_invalid(self.entries())];
            "pool `"@ + pool.name@ + "` invalid: "@ + pool.config.fault()
        }
    }

    /// Creates a configuration without pools.
    pub fn new() -> (r: Self)
        ensures
            r.entries() == Seq::<NamedPool>::empty(),
    {
        SchedulerConfig { pools: Vec::new() }
    }

    /// Sets the configuration of the pool `name`: that of a pool already
    /// under this name is replaced, else the pool is added at the end.
    /// Returns the configuration that was replaced, if any.
    pub fn insert(&mut self, name: String, config: PoolConfig) -> (r: Option<PoolConfig>)
        ensures
            position_of(old(self).entries(), name@) < old(self).entries().len() ==> {
                let at = position_of(old(self).entries(), name@);
                &&& r == Some(old(self).entries()[at].config)
                &&& final(self).entries() == old(self).entries().update(
                    at,
                    NamedPool { name: old(self).entries()[at].name, config },
                )
            },
            position_of(old(self).entries(), name@) >= old(self).entries().len() ==> {
                &&& r is None
                &&& final(self).entries() == old(self).entries().push(NamedPool { name, config })
            },
    {
        let mut i: usize = 0;
        assert(self.pools@.skip(0) =~= self.pools@);
        while i < self.pools.len()
            invariant
                i <= self.pools@.len(),
                self.pools@ == old(self).pools@,
                position_of(self.pools@, name@) == i + position_of(
                    self.pools@.skip(i as int),
                    name@,
                ),
            decreases self.pools@.len() - i,
        {
            proof {
                assert(self.pools@.skip(i as int).drop_first() =~= self.pools@.skip(i + 1));
                assert(self.pools@.skip(i as int)[0] == self.pools@[i as int]);
            }
            if self.pools[i].name == name {
                let replaced = self.pools[i].config;
                self.pools[i].config = config;
                assert(self.pools@ =~= old(self).pools@.update(
                    i as int,
                    NamedPool { name: old(self).pools@[i as int].name, config },
                ));
                return Some(replaced);
            }
            i += 1;
        }
        self.pools.push(NamedPool { name, config });
        None
    }

    /// The number of pools.
    pub fn len(&self) -> (r: usize)
        ensures
            r == self.entries().len(),
    {
        self.pools.len()
    }

    /// The pool at `index`, counted in the order of insertion.
    pub fn pool_at(&self, index: usize) -> (r: &NamedPool)
        requires
            index < self.entries().len(),
        ensures
            *r == self.entries()[index as int],
    {
        &self.pools[index]
    }

    /// Checks that there is a pool and that every pool is valid, and says
    /// what is wrong where that is not so.
    pub fn validate(&self) -> (r: Result<(), String>)
        ensures
            r is Ok <==> self.valid(),
            r matches Err(why) ==> why@ == self.fault(),
    {
        if self.pools.len() == 0 {
            return Err(String::from_str("at least one pool must be defined"));
        }
        let mut i: usize = 0;
        assert(self.pools@.skip(0) =~= self.pools@);
        while i < self.pools.len()
            invariant
                i <= self.pools@.len(),
                self.pools@.len() > 0,
                first_invalid(self.pools@) == i + first_invalid(self.pools@.skip(i as int)),
            decreases self.pools@.len() - i,
        {
            proof {
                assert(self.pools@.skip(i as int).drop_first() =~= self.pools@.skip(i + 1));
                assert(self.pools@.skip(i as int)[0] == self.pools@[i as int]);
            }
            match self.pools[i].config.validate() {
                Ok(()) => {},
                Err(why) => {
                    let message = String::from_str("pool `").concat(
                        self.pools[i].name.as_str(),
                    ).concat("` invalid: ").concat(why.as_str());
                    return Err(message);
                },
            }
            i += 1;
        }
        Ok(())
    }
}

/// The duration of `millis` milliseconds, as `Duration::from_millis` builds
/// it.
pub uninterp spec fn duration_from_millis(millis: u64) -> Duration;

/// The duration of `secs` seconds, as `Duration::from_secs` builds it.
pub uninterp spec fn duration_from_secs(secs: u64) -> Duration;

/// `std::time::Duration::from_millis` builds the duration of that many
/// milliseconds. It does not fail.
pub assume_specification[ Duration::from_millis ](millis: u64) -> (d: Duration)
    ensures
        d == duration_from_millis(millis),
;

/// `std::time::Duration::from_secs` builds the duration of that many seconds.
/// It does not fail.
pub assume_specification[ Duration::from_secs ](secs: u64) -> (d: Duration)
    ensures
        d == duration_from_secs(secs),
;

/// The number of logical processors that this process may use.
///
/// Calls `num_cpus::get`, which asks the operating system. The answer depends
/// on the machine, so nothing is claimed about it.
#[verifier::external_body]
fn cpu_count() -> usize {
    num_cpus::get()
}

/// The default number of workers: one for each processor, and at least one.
fn default_worker_count() -> (r: usize)
    ensures
        r >= 1,
{
    worker_count_for(cpu_count())
}

/// The default number of workers on a machine that reports `cpus`
/// processors: one for each, and one where it reports none.
pub fn worker_count_for(cpus: usize) -> (r: usize)
    ensures
        r == if cpus == 0 {
            1
        } else {
            cpus
        },
{
    if cpus == 0 {
        1
    } else {
        cpus
    }
}

/// The default stack size of a worker thread: 2 MiB.
pub fn default_thread_stack_size() -> (r: usize)
    ensures
        r == 2 * 1024 * 1024,
{
    2 * 1024 * 1024
}

/// The default of `max_units`.
pub fn default_max_units() -> (r: u32)
    ensures
        r == 1000,
{
    1000
}

/// The default of `max_queue_depth`.
pub fn default_max_queue_depth() -> (r: usize)
    ensures
        r == 1000,
{
    1000
}

/// The default timeout of a retrieval in milliseconds: two minutes.
pub fn default_timeout_ms() -> (r: u64)
    ensures
        r == 120_000,
{
    120_000
}

/// Configuration of a worker pool.
#[derive(Debug, Clone, Copy, PartialEq, Eq, Structural)]
pub struct WorkerPoolConfig {
    /// The number of workers.
    pub worker_count: usize,
    /// The stack size of each worker thread in bytes.
    pub thread_stack_size: usize,
    /// The units that running tasks may hold together.
    pub max_units: u32,
    /// The number of tasks that may wait for a worker.
    pub max_queue_depth: usize,
    /// How long a retrieval waits by default, in milliseconds.
    pub default_timeout_ms: u64,
}

impl Default for WorkerPoolConfig {
    /// One worker for each processor, a stack of 2 MiB, 1000 units, a queue
    /// of 1000 tasks and a timeout of two minutes.
    fn default() -> (r: Self)
        ensures
            r.worker_count >= 1,
            r.thread_stack_size == 2 * 1024 * 1024,
            r.max_units == 1000,
            r.max_queue_depth == 1000,
            r.default_timeout_ms == 120_000,
            r.valid(),
    {
        WorkerPoolConfig {
            worker_count: default_worker_count(),
            thread_stack_size: default_thread_stack_size(),
            max_units: default_max_units(),
            max_queue_depth: default_max_queue_depth(),
            default_timeout_ms: default_timeout_ms(),
        }
    }
}

impl WorkerPoolConfig {
    /// Whether every value is in its range: the four numbers are positive
    /// and the stack has 64 KiB at least.
    pub open spec fn valid(self) -> bool {
        &&& self.worker_count > 0
        &&& self.max_units > 0
        &&& self.max_queue_depth > 0
        &&& self.default_timeout_ms > 0
        &&& self.thread_stack_size >= 64 * 1024
    }

    /// What is wrong with the first value that is out of range.
    pub open spec fn fault(self) -> Seq<char> {
        if self.worker_count == 0 {
            "worker_count must be greater than 0"@
        } else if self.max_units == 0 {
            "max_units must be greater than 0"@
        } else if self.max_queue_depth == 0 {
            "max_queue_depth must be greater than 0"@
        } else if self.default_timeout_ms == 0 {
            "default_timeout_ms must be greater than 0"@
        } else {
            "thread_stack_size must be at least 64KB"@
        }
    }

    /// The default configuration.
    #[must_use]
    pub fn new() -> (r: Self)
        ensures
            r.worker_count >= 1,
            r.thread_stack_size == 2 * 1024 * 1024,
            r.max_units == 1000,
            r.max_queue_depth == 1000,
            r.default_timeout_ms == 120_000,
            r.valid(),
    {
        Self::default()
    }

    /// This configuration with `count` workers.
    #[must_use]
    pub fn with_worker_count(self, count: usize) -> (r: Self)
        ensures
            r == (WorkerPoolConfig { worker_count: count, ..self }),
    {
        let mut config = self;
        config.worker_count = count;
        config
    }

    /// This configuration with a stack of `size` bytes for each worker.
    #[must_use]
    pub fn with_thread_stack_size(self, size: usize) -> (r: Self)
        ensures
            r == (WorkerPoolConfig { thread_stack_size: size, ..self }),
    {
        let mut config = self;
        config.thread_stack_size = size;
        config
    }

    /// This configuration with `units` units.
    #[must_use]
    pub fn with_max_units(self, units: u32) -> (r: Self)
        ensures
            r == (WorkerPoolConfig { max_units: units, ..self }),
    {
        let mut config = self;
        config.max_units = units;
        config
    }

    /// This configuration with a queue of `depth` tasks.
    #[must_use]
    pub fn with_max_queue_depth(self, depth: usize) -> (r: Self)
        ensures
            r == (WorkerPoolConfig { max_queue_depth: depth, ..self }),
    {
        let mut config = self;
        config.max_queue_depth = depth;
        config
    }

    /// This configuration with a timeout of `timeout_ms` milliseconds.
    #[must_use]
    pub fn with_timeout_ms(self, timeout_ms: u64) -> (r: Self)
        ensures
            r == (WorkerPoolConfig { default_timeout_ms: timeout_ms, ..self }),
    {
        let mut config = self;
        config.default_timeout_ms = timeout_ms;
        config
    }

    /// The default timeout as a duration.
    #[must_use]
    pub fn default_timeout(&self) -> (r: Duration)
        ensures
            r == duration_from_millis(self.default_timeout_ms),
    {
        Duration::from_millis(self.default_timeout_ms)
    }

    /// Checks that every value is in its range, and says what is wrong where
    /// one is not.
    pub fn validate(&self) -> (r: Result<(), String>)
        ensures
            r is Ok <==> self.valid(),
            r matches Err(why) ==> why@ == self.fault(),
    {
        if self.worker_count == 0 {
            return Err(String::from_str("worker_count must be greater than 0"));
        }
        if self.max_units == 0 {
            return Err(String::from_str("max_units must be greater than 0"));
        }
        if self.max_queue_depth == 0 {
            return Err(String::from_str("max_queue_depth must be greater than 0"));
        }
        if self.default_timeout_ms == 0 {
            return Err(String::from_str("default_timeout_ms must be greater than 0"));
        }
        if self.thread_stack_size < 64 * 1024 {
            return Err(String::from_str("thread_stack_size must be at least 64KB"));
        }
        Ok(())
    }
}

} // verus!
