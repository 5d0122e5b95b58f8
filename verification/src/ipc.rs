//! The messages exchanged between the command line and the daemon, and the
//! health summary of a set of connections.
use vstd::prelude::*;

verus! {

/// What a client asks the daemon to do.
#[derive(Debug, Clone, Copy, PartialEq, Eq, Structural)]
pub enum RequestAction {
    List,
    Status,
    Refresh,
    Stop,
    Reload,
    ConfigPath,
}

/// A request sent to the daemon.
#[derive(Debug)]
pub struct PortpalRequest {
    pub action: RequestAction,
    pub name: Option<String>,
}

/// The daemon's answer to a request.
#[derive(Debug)]
pub struct PortpalResponse {
    pub ok: bool,
    pub message: Option<String>,
    pub snapshot: Option<ServiceSnapshot>,
    pub status: Option<ConnectionStatus>,
    pub config_path: Option<String>,
}

/// Where a connection stands.
#[derive(Debug, Clone, Copy, PartialEq, Eq, Structural)]
pub enum ConnectionState {
    Healthy,
    Starting,
    WaitingToRetry,
    Stopped,
    Failed,
}

/// The health of a set of connections taken together.
#[derive(Debug, Clone, Copy, PartialEq, Eq, Structural)]
pub enum AggregateHealth {
    Empty,
    AllHealthy,
    NoneHealthy,
    Mixed,
}

/// Everything reported about one connection.
#[derive(Debug)]
pub struct ConnectionStatus {
    pub name: String,
    pub ssh_host: String,
    pub local_port: u16,
    pub remote_host: String,
    pub remote_port: u16,
    pub auto_start: bool,
    pub reconnect_delay_seconds: u64,
    pub process_id: Option<u32>,
    pub process_alive: bool,
    pub port_reachable: bool,
    pub state: ConnectionState,
    pub restart_suppressed: bool,
    pub last_error: Option<String>,
    pub next_retry_in_seconds: Option<u64>,
}

/// The mathematical value of a [`ConnectionStatus`].
pub struct ConnectionStatusView {
    pub name: Seq<char>,
    pub ssh_host: Seq<char>,
    pub local_port: u16,
    pub remote_host: Seq<char>,
    pub remote_port: u16,
    pub auto_start: bool,
    pub reconnect_delay_seconds: u64,
    pub process_id: Option<u32>,
    pub process_alive: bool,
    pub port_reachable: bool,
    pub state: ConnectionState,
    pub restart_suppressed: bool,
    pub last_error: Option<Seq<char>>,
    pub next_retry_in_seconds: Option<u64>,
}

/// The view of an optional string.
pub open spec fn opt_view(s: Option<String>) -> Option<Seq<char>> {
    match s {
        Some(s) => Some(s@),
        None => None,
    }
}

impl View for ConnectionStatus {
    type V = ConnectionStatusView;

    open spec fn view(&self) -> ConnectionStatusView {
        ConnectionStatusView {
            name: self.name@,
            ssh_host: self.ssh_host@,
            local_port: self.local_port,
            remote_host: self.remote_host@,
            remote_port: self.remote_port,
            auto_start: self.auto_start,
            reconnect_delay_seconds: self.reconnect_delay_seconds,
            process_id: self.process_id,
            process_alive: self.process_alive,
            port_reachable: self.port_reachable,
            state: self.state,
            restart_suppressed: self.restart_suppressed,
            last_error: opt_view(self.last_error),
            next_retry_in_seconds: self.next_retry_in_seconds,
        }
    }
}

/// The status of every connection, with their aggregate health.
#[derive(Debug)]
pub struct ServiceSnapshot {
    pub connections: Vec<ConnectionStatus>,
    pub aggregate_health: AggregateHealth,
}

/// The views of a sequence of statuses.
pub open spec fn status_views(s: Seq<ConnectionStatus>) -> Seq<ConnectionStatusView> {
    s.map_values(|c: ConnectionStatus| c@)
}

/// The aggregate health of connections in the given states: `Empty` when
/// there are none, `AllHealthy` when every one is healthy, `NoneHealthy` when
/// none is, `Mixed` otherwise.
pub open spec fn aggregate_of(states: Seq<ConnectionState>) -> AggregateHealth {
    if states.len() == 0 {
        AggregateHealth::Empty
    } else if forall|i: int| 0 <= i < states.len() ==> #[trigger] states[i]
        == ConnectionState::Healthy {
        AggregateHealth::AllHealthy
    } else if forall|i: int| 0 <= i < states.len() ==> #[trigger] states[i]
        != ConnectionState::Healthy {
        AggregateHealth::NoneHealthy
    } else {
        AggregateHealth::Mixed
    }
}

/// The states of a sequence of statuses.
pub open spec fn states_of(s: Seq<ConnectionStatus>) -> Seq<ConnectionState> {
    s.map_values(|c: ConnectionStatus| c.state)
}

/// The aggregate health of the given statuses.
pub fn aggregate_health(statuses: &[ConnectionStatus]) -> (res: AggregateHealth)
    ensures
        res == aggregate_of(states_of(statuses@)),
{
    let ghost states = states_of(statuses@);
    if statuses.len() == 0 {
        return AggregateHealth::Empty;
    }
    let mut healthy_count: usize = 0;
    let mut i: usize = 0;
    while i < statuses.len()
        invariant
            states == states_of(statuses@),
            0 <= i <= statuses.len(),
            healthy_count <= i,
            healthy_count == 0 <==> forall|j: int| 0 <= j < i ==> #[trigger] states[j]
                != ConnectionState::Healthy,
            healthy_count == i <==> forall|j: int| 0 <= j < i ==> #[trigger] states[j]
                == ConnectionState::Healthy,
        decreases statuses.len() - i,
    {
        if statuses[i].state == ConnectionState::Healthy {
            healthy_count = healthy_count + 1;
        } else {
            assert(states[i as int] != ConnectionState::Healthy);
        }
        i = i + 1;
    }
    if healthy_count == statuses.len() {
        AggregateHealth::AllHealthy
    } else if healthy_count == 0 {
        AggregateHealth::NoneHealthy
    } else {
        AggregateHealth::Mixed
    }
}

} // verus!
