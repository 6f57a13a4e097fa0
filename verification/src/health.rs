//! Connection and agent health.
use crate::text::str_eq;
use crate::trading::OrderStatus;
use vstd::prelude::*;
use vstd::string::StringExecFns;

verus! {

/// Status of a connection.
#[derive(Clone, Copy, Debug, PartialEq, Eq, Structural)]
pub enum ConnectionStatus {
    Online,
    Degraded,
    Offline,
}

/// Health of an agent.
#[derive(Clone, Copy, Debug, PartialEq, Eq, Structural)]
pub enum HealthStatus {
    Healthy,
    Degraded,
    Dead,
    Starting,
}

/// The connection statuses of market data and execution. A status change is
/// reported to subscribers; setting the current status again reports nothing.
#[derive(Clone, Copy, Debug)]
pub struct ConnectionHealthService {
    pub market_data: ConnectionStatus,
    pub execution: ConnectionStatus,
}

impl ConnectionHealthService {
    /// Both connections start offline.
    pub fn new() -> (r: Self)
        ensures
            r.market_data == ConnectionStatus::Offline,
            r.execution == ConnectionStatus::Offline,
    {
        ConnectionHealthService { market_data: ConnectionStatus::Offline, execution: ConnectionStatus::Offline }
    }

    /// Set the market data status; returns whether it changed (and is to be
    /// broadcast).
    pub fn set_market_data_status(&mut self, status: ConnectionStatus) -> (changed: bool)
        ensures
            final(self).market_data == status,
            final(self).execution == old(self).execution,
            changed == (old(self).market_data != status),
    {
        let changed = self.market_data != status;
        if changed {
            self.market_data = status;
        }
        changed
    }

    /// Set the execution status; returns whether it changed (and is to be
    /// broadcast).
    pub fn set_execution_status(&mut self, status: ConnectionStatus) -> (changed: bool)
        ensures
            final(self).execution == status,
            final(self).market_data == old(self).market_data,
            changed == (old(self).execution != status),
    {
        let changed = self.execution != status;
        if changed {
            self.execution = status;
        }
        changed
    }

    /// The market data status.
    pub fn get_market_data_status(&self) -> (r: ConnectionStatus)
        ensures
            r == self.market_data,
    {
        self.market_data
    }

    /// The execution status.
    pub fn get_execution_status(&self) -> (r: ConnectionStatus)
        ensures
            r == self.execution,
    {
        self.execution
    }
}

impl Default for ConnectionHealthService {
    fn default() -> (r: Self)
        ensures
            r.market_data == ConnectionStatus::Offline,
            r.execution == ConnectionStatus::Offline,
    {
        Self::new()
    }
}

/// Setting the same status twice reports at most one change: once the market
/// data status is `status`, setting it again reports none and changes nothing.
pub proof fn lemma_repeated_status_is_silent(h: ConnectionHealthService, status: ConnectionStatus)
    requires
        h.market_data == status,
    ensures
        !(h.market_data != status),
        (ConnectionHealthService { market_data: status, ..h }) == h,
{
}

/// The analyst's view of market data after a health event: `MarketData` going
/// online resumes analysis, going offline pauses it; other events change
/// nothing.
pub fn market_data_online_after(online: bool, component: &str, status: ConnectionStatus) -> (r: bool)
    ensures
        r == (if component@ == "MarketData"@ {
            match status {
                ConnectionStatus::Online => true,
                ConnectionStatus::Offline => false,
                ConnectionStatus::Degraded => online,
            }
        } else {
            online
        }),
{
    if str_eq(component, "MarketData") {
        match status {
            ConnectionStatus::Online => true,
            ConnectionStatus::Offline => false,
            ConnectionStatus::Degraded => online,
        }
    } else {
        online
    }
}

/// The analyst's heartbeat: healthy while market data is online, degraded
/// otherwise.
pub fn analyst_health(market_data_online: bool) -> (r: HealthStatus)
    ensures
        r == (if market_data_online {
            HealthStatus::Healthy
        } else {
            HealthStatus::Degraded
        }),
{
    if market_data_online {
        HealthStatus::Healthy
    } else {
        HealthStatus::Degraded
    }
}

/// Order statuses that end an order's life and clear the symbol's pending state.
pub open spec fn is_resolved(status: OrderStatus) -> bool {
    status == OrderStatus::Filled || status == OrderStatus::Canceled || status
        == OrderStatus::Expired || status == OrderStatus::Rejected
}

/// Law: an order update clears the pending order exactly when the order's life is
/// over. Only new, pending and partially filled orders keep it; filled, canceled,
/// expired and rejected orders all clear it.
pub proof fn lemma_finished_orders_resolve(status: OrderStatus)
    ensures
        is_resolved(status) <==> !(status == OrderStatus::New || status == OrderStatus::Pending
            || status == OrderStatus::PartiallyFilled),
{
}

/// Whether an order update resolves the pending order.
pub fn resolves_pending(status: OrderStatus) -> (r: bool)
    ensures
        r == is_resolved(status),
{
    match status {
        OrderStatus::Filled | OrderStatus::Canceled | OrderStatus::Expired
        | OrderStatus::Rejected => true,
        _ => false,
    }
}

/// A custom metric of an agent.
#[derive(Clone, Debug)]
pub struct AgentMetric {
    pub key: String,
    pub value: String,
}

/// The last reported state of an agent.
#[derive(Clone, Debug)]
pub struct AgentStatus {
    pub name: String,
    pub health: HealthStatus,
    /// When the agent last reported (milliseconds since the epoch).
    pub last_heartbeat: i64,
    pub message: Option<String>,
    pub metrics: Vec<AgentMetric>,
}

/// An agent status as plain values: name, health, last heartbeat, message and
/// metrics.
pub struct AgentView {
    pub name: Seq<char>,
    pub health: HealthStatus,
    pub last_heartbeat: int,
    pub message: Option<Seq<char>>,
    pub metrics: Seq<(Seq<char>, Seq<char>)>,
}

impl View for AgentStatus {
    type V = AgentView;

    open spec fn view(&self) -> AgentView {
        AgentView {
            name: self.name@,
            health: self.health,
            last_heartbeat: self.last_heartbeat as int,
            message: match self.message {
                Some(m) => Some(m@),
                None => None,
            },
            metrics: self.metrics@.map_values(|m: AgentMetric| (m.key@, m.value@)),
        }
    }
}

/// Whether an agent of that name is registered.
pub open spec fn has_agent(agents: Seq<AgentView>, name: Seq<char>) -> bool {
    exists|i: int| 0 <= i < agents.len() && (#[trigger] agents[i]).name == name
}

/// The position of the agent named `name`.
pub open spec fn agent_index(agents: Seq<AgentView>, name: Seq<char>) -> int {
    choose|i: int| 0 <= i < agents.len() && (#[trigger] agents[i]).name == name
}

/// Names are registered once.
pub open spec fn names_unique(agents: Seq<AgentView>) -> bool {
    forall|i: int, j: int|
        0 <= i < agents.len() && 0 <= j < agents.len() && i != j ==> (#[trigger] agents[i]).name
            != (#[trigger] agents[j]).name
}

/// Metric keys are set once.
pub open spec fn keys_unique(metrics: Seq<(Seq<char>, Seq<char>)>) -> bool {
    forall|i: int, j: int|
        0 <= i < metrics.len() && 0 <= j < metrics.len() && i != j ==> (#[trigger] metrics[i]).0
            != (#[trigger] metrics[j]).0
}

/// The metrics with `key` set to `value`: replaced where the key is present,
/// appended otherwise.
pub open spec fn with_metric(metrics: Seq<(Seq<char>, Seq<char>)>, key: Seq<char>, value: Seq<char>) -> Seq<
    (Seq<char>, Seq<char>),
> {
    if exists|j: int| 0 <= j < metrics.len() && (#[trigger] metrics[j]).0 == key {
        metrics.update(
            choose|j: int| 0 <= j < metrics.len() && (#[trigger] metrics[j]).0 == key,
            (key, value),
        )
    } else {
        metrics.push((key, value))
    }
}

proof fn lemma_with_metric_unique(metrics: Seq<(Seq<char>, Seq<char>)>, key: Seq<char>, value: Seq<char>)
    requires
        keys_unique(metrics),
    ensures
        keys_unique(with_metric(metrics, key, value)),
{
    let r = with_metric(metrics, key, value);
    if exists|j: int| 0 <= j < metrics.len() && (#[trigger] metrics[j]).0 == key {
        let k = choose|j: int| 0 <= j < metrics.len() && (#[trigger] metrics[j]).0 == key;
        assert forall|a: int, b: int| 0 <= a < r.len() && 0 <= b < r.len() && a != b implies (
            #[trigger] r[a]).0 != (#[trigger] r[b]).0 by {
            if a == k {
                assert(r[b] == metrics[b]);
                assert(metrics[a].0 == key);
            } else if b == k {
                assert(r[a] == metrics[a]);
                assert(metrics[b].0 == key);
            } else {
                assert(r[a] == metrics[a]);
                assert(r[b] == metrics[b]);
            }
        }
    } else {
        assert forall|a: int, b: int| 0 <= a < r.len() && 0 <= b < r.len() && a != b implies (
            #[trigger] r[a]).0 != (#[trigger] r[b]).0 by {
            if a < metrics.len() && b < metrics.len() {
                assert(r[a] == metrics[a]);
                assert(r[b] == metrics[b]);
            } else if a < metrics.len() {
                assert(r[a] == metrics[a]);
            } else {
                assert(r[b] == metrics[b]);
            }
        }
    }
}

/// The position of metric `key`, if set.
fn find_metric(metrics: &Vec<AgentMetric>, key: &str) -> (r: Option<usize>)
    ensures
        ({
            let m = metrics@.map_values(|x: AgentMetric| (x.key@, x.value@));
            &&& r is None <==> !(exists|j: int| 0 <= j < m.len() && (#[trigger] m[j]).0 == key@)
            &&& r matches Some(j) ==> keys_unique(m) ==> j == (choose|i: int|
                0 <= i < m.len() && (#[trigger] m[i]).0 == key@)
            &&& r matches Some(j) ==> j < m.len() && m[j as int].0 == key@
        }),
{
    let ghost m = metrics@.map_values(|x: AgentMetric| (x.key@, x.value@));
    let mut i: usize = 0;
    while i < metrics.len()
        invariant
            i <= metrics.len(),
            m == metrics@.map_values(|x: AgentMetric| (x.key@, x.value@)),
            forall|j: int| 0 <= j < i ==> (#[trigger] m[j]).0 != key@,
        decreases metrics.len() - i,
    {
        if str_eq(metrics[i].key.as_str(), key) {
            proof {
                assert(m[i as int].0 == key@);
                if keys_unique(m) {
                    let c = choose|c: int| 0 <= c < m.len() && (#[trigger] m[c]).0 == key@;
                    assert(m[c].0 == key@);
                }
            }
            return Some(i);
        }
        i = i + 1;
    }
    None
}

/// Tracks the status of every agent of the system.
pub struct AgentStatusRegistry {
    statuses: Vec<AgentStatus>,
}

impl View for AgentStatusRegistry {
    type V = Seq<AgentView>;

    closed spec fn view(&self) -> Seq<AgentView> {
        self.statuses@.map_values(|s: AgentStatus| s@)
    }
}

impl AgentStatusRegistry {
    /// Each agent is registered once, with distinct metric keys.
    pub open spec fn wf(self) -> bool {
        &&& names_unique(self@)
        &&& forall|i: int| 0 <= i < self@.len() ==> keys_unique(#[trigger] self@[i].metrics)
    }

    pub fn new() -> (r: Self)
        ensures
            r@ == Seq::<AgentView>::empty(),
            r.wf(),
    {
        let r = AgentStatusRegistry { statuses: Vec::new() };
        assert(r@ =~= Seq::<AgentView>::empty());
        r
    }

    fn find(&self, name: &str) -> (r: Option<usize>)
        requires
            self.wf(),
        ensures
            r is None <==> !has_agent(self@, name@),
            r matches Some(i) ==> i < self@.len() && i == agent_index(self@, name@),
    {
        let mut i: usize = 0;
        while i < self.statuses.len()
            invariant
                i <= self.statuses.len(),
                self@.len() == self.statuses.len(),
                self.wf(),
                forall|j: int| 0 <= j < i ==> (#[trigger] self@[j]).name != name@,
            decreases self.statuses.len() - i,
        {
            if str_eq(self.statuses[i].name.as_str(), name) {
                proof {
                    assert(self@[i as int].name == name@);
                    let k = agent_index(self@, name@);
                    assert(self@[k].name == name@);
                }
                return Some(i);
            }
            i = i + 1;
        }
        None
    }

    /// Record a heartbeat of agent `name` at `now_ms` with its health; a new agent
    /// is registered without message or metrics.
    pub fn update_heartbeat(&mut self, name: &str, health: HealthStatus, now_ms: i64)
        requires
            old(self).wf(),
        ensures
            final(self).wf(),
            has_agent(old(self)@, name@) ==> ({
                let i = agent_index(old(self)@, name@);
                final(self)@ == old(self)@.update(
                    i,
                    AgentView { health, last_heartbeat: now_ms as int, ..old(self)@[i] },
                )
            }),
            !has_agent(old(self)@, name@) ==> final(self)@ == old(self)@.push(
                AgentView {
                    name: name@,
                    health,
                    last_heartbeat: now_ms as int,
                    message: None,
                    metrics: Seq::empty(),
                },
            ),
    {
        let ghost s0 = self@;
        match self.find(name) {
            Some(i) => {
                let mut status = self.statuses.remove(i);
                status.health = health;
                status.last_heartbeat = now_ms;
                self.statuses.insert(i, status);
                proof {
                    assert(self@ =~= s0.update(
                        i as int,
                        AgentView { health, last_heartbeat: now_ms as int, ..s0[i as int] },
                    ));
                    assert forall|a: int, b: int|
                        0 <= a < self@.len() && 0 <= b < self@.len() && a != b implies (
                        #[trigger] self@[a]).name != (#[trigger] self@[b]).name by {
                        assert(self@[a].name == s0[a].name);
                        assert(self@[b].name == s0[b].name);
                    }
                    assert forall|a: int| 0 <= a < self@.len() implies keys_unique(
                        #[trigger] self@[a].metrics,
                    ) by {
                        assert(self@[a].metrics == s0[a].metrics);
                    }
                }
            },
            None => {
                let status = AgentStatus {
                    name: String::from_str(name),
                    health,
                    last_heartbeat: now_ms,
                    message: None,
                    metrics: Vec::new(),
                };
                self.statuses.push(status);
                proof {
                    assert(self@[s0.len() as int].metrics =~= Seq::<(Seq<char>, Seq<char>)>::empty());
                    assert(self@ =~= s0.push(
                        AgentView {
                            name: name@,
                            health,
                            last_heartbeat: now_ms as int,
                            message: None,
                            metrics: Seq::empty(),
                        },
                    ));
                    assert forall|a: int, b: int|
                        0 <= a < self@.len() && 0 <= b < self@.len() && a != b implies (
                        #[trigger] self@[a]).name != (#[trigger] self@[b]).name by {
                        if a < s0.len() && b < s0.len() {
                            assert(self@[a] == s0[a]);
                            assert(self@[b] == s0[b]);
                        } else if a < s0.len() {
                            assert(self@[a] == s0[a]);
                            assert(!has_agent(s0, name@));
                        } else {
                            assert(self@[b] == s0[b]);
                            assert(!has_agent(s0, name@));
                        }
                    }
                    assert forall|a: int| 0 <= a < self@.len() implies keys_unique(
                        #[trigger] self@[a].metrics,
                    ) by {
                        if a < s0.len() {
                            assert(self@[a] == s0[a]);
                        }
                    }
                }
            },
        }
    }

    /// Set metric `key` of agent `name` to `value` at `now_ms` (a metric update
    /// counts as a heartbeat); an agent that is not registered is left out.
    pub fn update_metric(&mut self, name: &str, key: &str, value: String, now_ms: i64)
        requires
            old(self).wf(),
        ensures
            final(self).wf(),
            has_agent(old(self)@, name@) ==> ({
                let i = agent_index(old(self)@, name@);
                final(self)@ == old(self)@.update(
                    i,
                    AgentView {
                        last_heartbeat: now_ms as int,
                        metrics: with_metric(old(self)@[i].metrics, key@, value@),
                        ..old(self)@[i]
                    },
                )
            }),
            !has_agent(old(self)@, name@) ==> final(self)@ == old(self)@,
    {
        let ghost s0 = self@;
        match self.find(name) {
            Some(i) => {
                let mut status = self.statuses.remove(i);
                let ghost m0 = status@.metrics;
                let k = find_metric(&status.metrics, key);
                match k {
                    Some(j) => {
                        status.metrics.set(j, AgentMetric { key: String::from_str(key), value });
                        proof {
                            assert(status@.metrics =~= m0.update(j as int, (key@, value@)));
                        }
                    },
                    None => {
                        status.metrics.push(AgentMetric { key: String::from_str(key), value });
                        proof {
                            assert(status@.metrics =~= m0.push((key@, value@)));
                        }
                    },
                }
                status.last_heartbeat = now_ms;
                self.statuses.insert(i, status);
                proof {
                    assert(keys_unique(m0)) by {
                        assert(s0[i as int].metrics == m0);
                    }
                    lemma_with_metric_unique(m0, key@, value@);
                    assert(self@ =~= s0.update(
                        i as int,
                        AgentView {
                            last_heartbeat: now_ms as int,
                            metrics: with_metric(m0, key@, value@),
                            ..s0[i as int]
                        },
                    ));
                    assert forall|a: int, b: int|
                        0 <= a < self@.len() && 0 <= b < self@.len() && a != b implies (
                        #[trigger] self@[a]).name != (#[trigger] self@[b]).name by {
                        assert(self@[a].name == s0[a].name);
                        assert(self@[b].name == s0[b].name);
                    }
                    assert forall|a: int| 0 <= a < self@.len() implies keys_unique(
                        #[trigger] self@[a].metrics,
                    ) by {
                        if a != i {
                            assert(self@[a].metrics == s0[a].metrics);
                        }
                    }
                }
            },
            None => {},
        }
    }

    /// The status of agent `name`, if registered.
    pub fn get_status(&self, name: &str) -> (r: Option<&AgentStatus>)
        requires
            self.wf(),
        ensures
            r is Some <==> has_agent(self@, name@),
            r matches Some(s) ==> s@ == self@[agent_index(self@, name@)],
    {
        match self.find(name) {
            Some(i) => Some(&self.statuses[i]),
            None => None,
        }
    }

    /// The registered statuses, in registration order.
    pub fn get_all(&self) -> (r: &Vec<AgentStatus>)
        ensures
            r@.map_values(|s: AgentStatus| s@) == self@,
    {
        &self.statuses
    }
}

/// A heartbeat is what a status lookup then reports: after `update_heartbeat`,
/// the agent is registered with that health and time.
pub proof fn lemma_heartbeat_then_status(
    before: Seq<AgentView>,
    after: Seq<AgentView>,
    name: Seq<char>,
    health: HealthStatus,
    now_ms: int,
)
    requires
        names_unique(before),
        names_unique(after),
        has_agent(before, name) ==> after == before.update(
            agent_index(before, name),
            AgentView { health, last_heartbeat: now_ms, ..before[agent_index(before, name)] },
        ),
        !has_agent(before, name) ==> after == before.push(
            AgentView { name, health, last_heartbeat: now_ms, message: None, metrics: Seq::empty() },
        ),
    ensures
        has_agent(after, name),
        after[agent_index(after, name)].health == health,
        after[agent_index(after, name)].last_heartbeat == now_ms,
{
    if has_agent(before, name) {
        let i = agent_index(before, name);
        assert(after[i].name == name);
    } else {
        assert(after[before.len() as int].name == name);
    }
    let k = agent_index(after, name);
    assert(after[k].name == name);
    if has_agent(before, name) {
        let i = agent_index(before, name);
        if k != i {
            assert(after[k].name != after[i].name);
        }
    } else {
        let i = before.len() as int;
        if k != i {
            assert(after[k].name != after[i].name);
        }
    }
}

} // verus!
