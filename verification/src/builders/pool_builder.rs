//! Builds the resource pools that a configuration names.

use std::time::Duration;
use vstd::prelude::*;
use vstd::string::*;
use crate::config::pool::{duration_from_secs, PoolConfig, SchedulerConfig};
use crate::scheduler::backend::{in_order, Mailbox, TaskQueue};
use crate::scheduler::error::SchedulerError;
use crate::scheduler::resource_pool::{PoolLimits, ResourcePool};

verus! {

/// The limits that the configuration `config` asks for.
pub open spec fn limits_of(config: PoolConfig) -> PoolLimits {
    PoolLimits {
        max_units: config.max_units,
        max_queue_depth: config.max_queue_depth,
        default_timeout: duration_from_secs(config.default_timeout_secs),
    }
}

/// The limits that the configuration `config` asks for.
pub fn pool_limits(config: &PoolConfig) -> (r: PoolLimits)
    ensures
        r == limits_of(*config),
{
    PoolLimits {
        max_units: config.max_units,
        max_queue_depth: config.max_queue_depth,
        default_timeout: Duration::from_secs(config.default_timeout_secs),
    }
}

/// A pool under its name.
pub struct NamedResourcePool<P, T, Q, M> where Q: TaskQueue<P>, M: Mailbox<T> {
    /// The pool's name.
    pub name: String,
    /// The pool.
    pub pool: ResourcePool<P, T, Q, M>,
}

/// Builds one pool for each pool of `cfg`, in the order of `cfg`, with the
/// queue and the mailbox that the two factories make for it.
///
/// A configuration that is not valid is refused with a backend error that
/// says why. The first factory that fails ends the build with its error.
pub fn build_pools<P, T, Q, M, FQ, FM>(
    cfg: &SchedulerConfig,
    queue_factory: FQ,
    mailbox_factory: FM,
) -> (r: Result<Vec<NamedResourcePool<P, T, Q, M>>, SchedulerError>) where
    Q: TaskQueue<P>,
    M: Mailbox<T>,
    FQ: Fn(&str, &PoolConfig) -> Result<Q, SchedulerError>,
    FM: Fn(&str, &PoolConfig) -> Result<M, SchedulerError>,

    requires
        forall|name: &str, config: &PoolConfig| call_requires(queue_factory, (name, config)),
        forall|name: &str, config: &PoolConfig| call_requires(mailbox_factory, (name, config)),
        forall|name: &str, config: &PoolConfig, queue: Q| #[trigger]
            call_ensures(queue_factory, (name, config), Ok(queue)) ==> in_order::<P, Q>(&queue),
        forall|name: &str, config: &PoolConfig, mailbox: M| #[trigger]
            call_ensures(mailbox_factory, (name, config), Ok(mailbox)) ==> mailbox.well_formed(),
    ensures
        !cfg.valid() ==> (r matches Err(SchedulerError::Backend(why)) && why@
            == "config invalid: "@ + cfg.fault()),
        match r {
            Ok(pools) => {
                &&& cfg.valid()
                &&& pools@.len() == cfg.entries().len()
                &&& forall|i: int|
                    0 <= i < pools@.len() ==> {
                        &&& (#[trigger] pools@[i]).name@ == cfg.entries()[i].name@
                        &&& pools@[i].pool.well_formed()
                        &&& pools@[i].pool.limits() == limits_of(cfg.entries()[i].config)
                        &&& pools@[i].pool.active() == 0
                        &&& !pools@[i].pool.audited()
                        &&& !pools@[i].pool.wake_flags().shutdown
                    }
            },
            Err(e) => !cfg.valid() || exists|name: &str, config: &PoolConfig|
                #![trigger call_ensures(queue_factory, (name, config), Err(e))]
                #![trigger call_ensures(mailbox_factory, (name, config), Err(e))]
                call_ensures(queue_factory, (name, config), Err(e)) || call_ensures(
                    mailbox_factory,
                    (name, config),
                    Err(e),
                ),
        },
{
    match cfg.validate() {
        Ok(()) => {},
        Err(why) => {
            return Err(
                SchedulerError::Backend(String::from_str("config invalid: ").concat(why.as_str())),
            );
        },
    }
    let mut pools: Vec<NamedResourcePool<P, T, Q, M>> = Vec::new();
    let mut i: usize = 0;
    while i < cfg.len()
        invariant
            i <= cfg.entries().len(),
            pools@.len() == i,
            cfg.valid(),
            forall|name: &str, config: &PoolConfig| call_requires(queue_factory, (name, config)),
            forall|name: &str, config: &PoolConfig| call_requires(mailbox_factory, (name, config)),
            forall|name: &str, config: &PoolConfig, queue: Q| #[trigger]
                call_ensures(queue_factory, (name, config), Ok(queue)) ==> in_order::<P, Q>(&queue),
            forall|name: &str, config: &PoolConfig, mailbox: M| #[trigger]
                call_ensures(mailbox_factory, (name, config), Ok(mailbox))
                    ==> mailbox.well_formed(),
            forall|j: int|
                0 <= j < i ==> {
                    &&& (#[trigger] pools@[j]).name@ == cfg.entries()[j].name@
                    &&& pools@[j].pool.well_formed()
                    &&& pools@[j].pool.limits() == limits_of(cfg.entries()[j].config)
                    &&& pools@[j].pool.active() == 0
                    &&& !pools@[j].pool.audited()
                    &&& !pools@[j].pool.wake_flags().shutdown
                },
        decreases cfg.entries().len() - i,
    {
        let entry = cfg.pool_at(i);
        let limits = pool_limits(&entry.config);
        let queue = match queue_factory(entry.name.as_str(), &entry.config) {
            Ok(queue) => queue,
            Err(e) => {
                return Err(e);
            },
        };
        let mailbox = match mailbox_factory(entry.name.as_str(), &entry.config) {
            Ok(mailbox) => mailbox,
            Err(e) => {
                return Err(e);
            },
        };
        let pool = ResourcePool::new(limits, queue, mailbox);
        pools.push(NamedResourcePool { name: entry.name.clone(), pool });
        i += 1;
    }
    Ok(pools)
}

} // verus!
