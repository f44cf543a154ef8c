//! The decisions of the simulation driver: the table of hosts in the order
//! of registration, the order in which a tick visits them, and the run's
//! deadline.
use vstd::prelude::*;
use indexmap::IndexMap;
use crate::addr::{IpAddr, SocketAddr};

verus! {

/// How the host table keys an address: its IP version, its bits and its port.
pub type HostKey = (u8, u128, u16);

#[verifier::external_type_specification]
#[verifier::external_body]
#[verifier::reject_recursive_types(K)]
#[verifier::reject_recursive_types(V)]
#[verifier::reject_recursive_types(S)]
pub struct ExIndexMap<K, V, S>(IndexMap<K, V, S>);

/// The entries of a host table, in the map's order.
pub uninterp spec fn host_entries(m: IndexMap<HostKey, bool>) -> Seq<(HostKey, bool)>;

/// Relies on `IndexMap::new`: a new map has no entry.
#[verifier::external_body]
fn host_map_new() -> (r: IndexMap<HostKey, bool>)
    ensures
        host_entries(r) == Seq::<(HostKey, bool)>::empty(),
{
    IndexMap::new()
}

/// Relies on `IndexMap::insert`: an existing key keeps its place and gets
/// the new value, and its old value is returned; a new key goes last and
/// `None` is returned.
#[verifier::external_body]
fn host_map_insert(m: &mut IndexMap<HostKey, bool>, k: HostKey, v: bool) -> (r: Option<bool>)
    ensures
        forall|i: int|
            0 <= i < host_entries(*old(m)).len() && (#[trigger] host_entries(*old(m))[i]).0 == k
                ==> host_entries(*final(m)) == host_entries(*old(m)).update(i, (k, v)) && r == Some(
                host_entries(*old(m))[i].1,
            ),
        (forall|i: int|
            0 <= i < host_entries(*old(m)).len() ==> (#[trigger] host_entries(*old(m))[i]).0 != k)
            ==> host_entries(*final(m)) == host_entries(*old(m)).push((k, v)) && r is None,
{
    m.insert(k, v)
}

/// Relies on `IndexMap::len`: the number of entries.
#[verifier::external_body]
fn host_map_len(m: &IndexMap<HostKey, bool>) -> (r: usize)
    ensures
        r == host_entries(*m).len(),
{
    m.len()
}

/// Relies on `IndexMap::get_index`: the entry at position `i` in the map's
/// order, if there is one.
#[verifier::external_body]
fn host_map_get_index(m: &IndexMap<HostKey, bool>, i: usize) -> (r: Option<(HostKey, bool)>)
    ensures
        i < host_entries(*m).len() ==> r == Some(host_entries(*m)[i as int]),
        i >= host_entries(*m).len() ==> r is None,
{
    m.get_index(i).map(|(k, v)| (*k, *v))
}

pub open spec fn key_of(addr: SocketAddr) -> HostKey {
    match addr.ip {
        IpAddr::V4(b) => (4u8, b as u128, addr.port),
        IpAddr::V6(b) => (6u8, b, addr.port),
    }
}

pub open spec fn addr_of(k: HostKey) -> SocketAddr {
    if k.0 == 4 {
        SocketAddr { ip: IpAddr::V4(k.1 as u32), port: k.2 }
    } else {
        SocketAddr { ip: IpAddr::V6(k.1), port: k.2 }
    }
}

/// A key that some address has.
pub open spec fn key_wf(k: HostKey) -> bool {
    (k.0 == 4 && k.1 <= u32::MAX) || k.0 == 6
}

fn host_key(addr: SocketAddr) -> (r: HostKey)
    ensures
        r == key_of(addr),
        key_wf(r),
        addr_of(r) == addr,
{
    match addr.ip {
        IpAddr::V4(b) => (4u8, b as u128, addr.port),
        IpAddr::V6(b) => (6u8, b, addr.port),
    }
}

fn host_addr(k: HostKey) -> (r: SocketAddr)
    requires
        key_wf(k),
    ensures
        r == addr_of(k),
        key_of(r) == k,
{
    if k.0 == 4 {
        SocketAddr { ip: IpAddr::V4(k.1 as u32), port: k.2 }
    } else {
        SocketAddr { ip: IpAddr::V6(k.1), port: k.2 }
    }
}

/// Configuration of a run, in nanoseconds of virtual time.
#[derive(Clone, Copy, Debug, PartialEq, Eq, Structural)]
pub struct Config {
    /// The quantum that one tick advances every clock by.
    pub tick: u64,
    /// The longest a run may last.
    pub duration: u64,
}

/// What one tick does with one host.
#[derive(Clone, Copy, Debug, PartialEq, Eq, Structural)]
pub enum HostStep {
    /// Advance the host's own runtime by one tick with the host as the
    /// current host, then deliver what is due at its new time.
    Run(SocketAddr),
    /// A client runs no code: deliver what is due at its last time plus
    /// one tick.
    Advance(SocketAddr),
}

pub open spec fn step_of(host: (SocketAddr, bool)) -> HostStep {
    if host.1 {
        HostStep::Run(host.0)
    } else {
        HostStep::Advance(host.0)
    }
}

/// What the driver does after advancing the driving future by one tick.
#[derive(Debug)]
pub enum RunStep {
    /// The driving future has completed: the run ends successfully.
    Completed,
    /// Tick the hosts in this order, then go on with `elapsed` time spent.
    Tick { hosts: Vec<HostStep>, elapsed: u64 },
    /// Tick the hosts in this order, then fail: the run has exceeded its
    /// maximum duration.
    TickThenFail { hosts: Vec<HostStep> },
}

/// The hosts in order after `addr` is registered, with a runtime of its own
/// or as a client: a new address goes last, a known one keeps its place.
pub open spec fn registered(hosts: Seq<(SocketAddr, bool)>, addr: SocketAddr, runtime: bool) -> Seq<
    (SocketAddr, bool),
> {
    if exists|i: int| 0 <= i < hosts.len() && (#[trigger] hosts[i]).0 == addr {
        let i = choose|i: int| 0 <= i < hosts.len() && (#[trigger] hosts[i]).0 == addr;
        hosts.update(i, (addr, runtime))
    } else {
        hosts.push((addr, runtime))
    }
}

/// No address occurs twice.
pub open spec fn distinct_hosts(hosts: Seq<(SocketAddr, bool)>) -> bool {
    forall|i: int, j: int|
        0 <= i < hosts.len() && 0 <= j < hosts.len() && i != j ==> (#[trigger] hosts[i]).0 != (
        #[trigger] hosts[j]).0
}

/// Time spent after `n` ticks of a run whose driving future never
/// completes, or `None` once the run has failed.
pub open spec fn elapsed_after(config: Config, n: nat) -> Option<int>
    decreases n,
{
    if n == 0 {
        Some(0)
    } else {
        match elapsed_after(config, (n - 1) as nat) {
            None => None,
            Some(e) => if e + config.tick > config.duration {
                None
            } else {
                Some(e + config.tick)
            },
        }
    }
}

/// The hosts after registering `addrs[i]` (with a runtime when
/// `runtimes[i]`) one after the other, starting from `hosts`.
pub open spec fn registered_all(
    hosts: Seq<(SocketAddr, bool)>,
    addrs: Seq<SocketAddr>,
    runtimes: Seq<bool>,
) -> Seq<(SocketAddr, bool)>
    decreases addrs.len(),
{
    if addrs.len() == 0 || runtimes.len() < addrs.len() {
        hosts
    } else {
        let n = addrs.len() - 1;
        registered(registered_all(hosts, addrs.take(n), runtimes.take(n)), addrs[n], runtimes[n])
    }
}

/// Deterministic order: hosts registered at distinct addresses into an
/// empty table are visited by every tick exactly in the order of their
/// registration, each as a runtime or as a client as it was registered.
pub proof fn lemma_registration_order(addrs: Seq<SocketAddr>, runtimes: Seq<bool>)
    requires
        addrs.len() == runtimes.len(),
        forall|i: int, j: int|
            0 <= i < addrs.len() && 0 <= j < addrs.len() && i != j ==> addrs[i] != addrs[j],
    ensures
        registered_all(Seq::empty(), addrs, runtimes) == Seq::new(
            addrs.len(),
            |i: int| (addrs[i], runtimes[i]),
        ),
        registered_all(Seq::empty(), addrs, runtimes).map_values(|h: (SocketAddr, bool)| step_of(h))
            == Seq::new(addrs.len(), |i: int| step_of((addrs[i], runtimes[i]))),
    decreases addrs.len(),
{
    let hs = registered_all(Seq::empty(), addrs, runtimes);
    if addrs.len() > 0 {
        let n = addrs.len() - 1;
        lemma_registration_order(addrs.take(n), runtimes.take(n));
        let prev = registered_all(Seq::empty(), addrs.take(n), runtimes.take(n));
        assert(!exists|i: int| 0 <= i < prev.len() && (#[trigger] prev[i]).0 == addrs[n]) by {
            assert forall|i: int| 0 <= i < prev.len() implies (#[trigger] prev[i]).0 != addrs[n] by {
                assert(prev[i].0 == addrs.take(n)[i]);
            }
        }
        assert(hs =~= Seq::new(addrs.len(), |i: int| (addrs[i], runtimes[i])));
    } else {
        assert(hs =~= Seq::new(addrs.len(), |i: int| (addrs[i], runtimes[i])));
    }
    assert(hs.map_values(|h: (SocketAddr, bool)| step_of(h)) =~= Seq::new(
        addrs.len(),
        |i: int| step_of((addrs[i], runtimes[i])),
    ));
}

/// Deadline: a run whose driving future never completes goes on through
/// tick `n` exactly while `n` ticks fit in the maximum duration, and fails
/// at the first tick that takes it past that duration, never earlier.
pub proof fn lemma_deadline(config: Config, n: nat)
    ensures
        n * config.tick <= config.duration ==> elapsed_after(config, n) == Some(n * config.tick),
        n * config.tick > config.duration ==> elapsed_after(config, n) is None,
        n > 0 && (n - 1) * config.tick <= config.duration && n * config.tick > config.duration
            ==> elapsed_after(config, (n - 1) as nat) is Some && elapsed_after(config, n) is None,
    decreases n,
{
    if n > 0 {
        let m = (n - 1) as nat;
        lemma_deadline(config, m);
        assert(n * config.tick == m * config.tick + config.tick) by (nonlinear_arith)
            requires
                n == m + 1,
        ;
        assert(m * config.tick >= 0) by (nonlinear_arith);
        assert(elapsed_after(config, n) == match elapsed_after(config, m) {
            None => None,
            Some(e) => if e + config.tick > config.duration {
                None
            } else {
                Some(e + config.tick)
            },
        });
    } else {
        assert(n * config.tick == 0) by (nonlinear_arith)
            requires
                n == 0,
        ;
    }
}

/// The simulation driver's host table: each registered address, in the
/// order of registration, with whether it has a runtime of its own.
pub struct Sim {
    config: Config,
    rts: IndexMap<HostKey, bool>,
}

impl Sim {
    pub closed spec fn config(&self) -> Config {
        self.config
    }

    /// The hosts in the order of registration, with whether each has a
    /// runtime of its own (`false`: a client).
    pub closed spec fn hosts(&self) -> Seq<(SocketAddr, bool)> {
        host_entries(self.rts).map_values(|e: (HostKey, bool)| (addr_of(e.0), e.1))
    }

    pub closed spec fn wf(&self) -> bool {
        let e = host_entries(self.rts);
        &&& forall|i: int| 0 <= i < e.len() ==> key_wf(#[trigger] e[i].0)
        &&& forall|i: int, j: int|
            0 <= i < e.len() && 0 <= j < e.len() && i != j ==> (#[trigger] e[i]).0 != (
            #[trigger] e[j]).0
    }

    pub fn new(config: Config) -> (r: Sim)
        ensures
            r.wf(),
            r.config() == config,
            r.hosts() == Seq::<(SocketAddr, bool)>::empty(),
    {
        let r = Sim { config, rts: host_map_new() };
        assert(r.hosts() =~= Seq::<(SocketAddr, bool)>::empty());
        r
    }

    fn insert_host(&mut self, addr: SocketAddr, runtime: bool)
        requires
            old(self).wf(),
        ensures
            final(self).wf(),
            final(self).config() == old(self).config(),
            final(self).hosts() == registered(old(self).hosts(), addr, runtime),
    {
        let k = host_key(addr);
        let ghost e = host_entries(self.rts);
        let ghost h = self.hosts();
        let _ = host_map_insert(&mut self.rts, k, runtime);
        proof {
            let e2 = host_entries(self.rts);
            if exists|i: int| 0 <= i < h.len() && (#[trigger] h[i]).0 == addr {
                let i = choose|i: int| 0 <= i < h.len() && (#[trigger] h[i]).0 == addr;
                assert(addr_of(e[i].0) == addr);
                assert(key_of(addr_of(e[i].0)) == e[i].0);
                assert(e[i].0 == k);
                assert(e2 == e.update(i, (k, runtime)));
                assert(self.hosts() =~= h.update(i, (addr, runtime)));
            } else {
                assert forall|i: int| 0 <= i < e.len() implies (#[trigger] e[i]).0 != k by {
                    if e[i].0 == k {
                        assert(h[i].0 == addr);
                    }
                }
                assert(e2 == e.push((k, runtime)));
                assert(self.hosts() =~= h.push((addr, runtime)));
            }
        }
    }

    /// Registers a host that runs on a runtime of its own.
    pub fn register(&mut self, addr: SocketAddr)
        requires
            old(self).wf(),
        ensures
            final(self).wf(),
            final(self).config() == old(self).config(),
            final(self).hosts() == registered(old(self).hosts(), addr, true),
    {
        self.insert_host(addr, true)
    }

    /// Registers a client: a peer that the caller drives, whose clock only
    /// moves with the ticks.
    pub fn client(&mut self, addr: SocketAddr)
        requires
            old(self).wf(),
        ensures
            final(self).wf(),
            final(self).config() == old(self).config(),
            final(self).hosts() == registered(old(self).hosts(), addr, false),
    {
        self.insert_host(addr, false)
    }

    /// What one tick does with each host, in the order of registration.
    pub fn tick_plan(&self) -> (r: Vec<HostStep>)
        requires
            self.wf(),
        ensures
            r@ == self.hosts().map_values(|h: (SocketAddr, bool)| step_of(h)),
    {
        let n = host_map_len(&self.rts);
        let mut plan: Vec<HostStep> = Vec::new();
        let mut i: usize = 0;
        while i < n
            invariant
                self.wf(),
                n == host_entries(self.rts).len(),
                i <= n,
                plan@ == self.hosts().take(i as int).map_values(|h: (SocketAddr, bool)| step_of(h)),
            decreases n - i,
        {
            match host_map_get_index(&self.rts, i) {
                Some((k, runtime)) => {
                    let addr = host_addr(k);
                    if runtime {
                        plan.push(HostStep::Run(addr));
                    } else {
                        plan.push(HostStep::Advance(addr));
                    }
                    proof {
                        assert(self.hosts()[i as int] == (addr, runtime));
                        assert(self.hosts().take(i + 1) =~= self.hosts().take(i as int).push(
                            (addr, runtime),
                        ));
                    }
                },
                None => {},
            }
            i = i + 1;
            assert(plan@ =~= self.hosts().take(i as int).map_values(|h: (SocketAddr, bool)| step_of(h)));
        }
        assert(self.hosts().take(n as int) =~= self.hosts());
        plan
    }

    /// The driver's decision once the driving future has been advanced by a
    /// tick, with `elapsed` time spent before this tick.
    pub fn run_step(&self, elapsed: u64, driver_finished: bool) -> (r: RunStep)
        requires
            self.wf(),
        ensures
            driver_finished ==> r is Completed,
            !driver_finished && elapsed + self.config().tick <= self.config().duration ==> (match r {
                RunStep::Tick { hosts, elapsed: e } => e == elapsed + self.config().tick
                    && hosts@ == self.hosts().map_values(|h: (SocketAddr, bool)| step_of(h)),
                _ => false,
            }),
            !driver_finished && elapsed + self.config().tick > self.config().duration ==> (match r {
                RunStep::TickThenFail { hosts } => hosts@ == self.hosts().map_values(
                    |h: (SocketAddr, bool)| step_of(h),
                ),
                _ => false,
            }),
    {
        if driver_finished {
            return RunStep::Completed;
        }
        let hosts = self.tick_plan();
        match elapsed.checked_add(self.config.tick) {
            Some(e) => {
                if e > self.config.duration {
                    RunStep::TickThenFail { hosts }
                } else {
                    RunStep::Tick { hosts, elapsed: e }
                }
            },
            None => RunStep::TickThenFail { hosts },
        }
    }
}

} // verus!
