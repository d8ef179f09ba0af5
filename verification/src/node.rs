//! The node supervisor's role state machine.
//!
//! A node runs in exactly one of three roles — cloud client, LAN
//! client, or LAN server — and `RoleSelector` is the decision core that
//! picks one: it walks the selection algorithm (try the cloud, look for
//! a LAN server, then elect or defer) one observable outcome at a time.
//! The caller performs the connection attempts, discovery waits and
//! elections, and feeds each outcome back in as a `SelectEvent`.

use vstd::prelude::*;
use vstd::string::StringExecFns;
use crate::codec::{int_chars, push_u64};
use crate::election::{ServerInfo, ServerInfoV};
use crate::errors::MeshError;

verus! {

/// Spec-level image of a `NodeMode`.
pub ghost enum NodeModeV {
    CloudClient,
    LanClient { server_addr: Seq<char> },
    LanServer { port: int },
}

/// The role a node currently holds. Exactly one is active at any time.
#[derive(Debug, Clone)]
pub enum NodeMode {
    /// Connected out to the cloud relay.
    CloudClient,
    /// Connected out to a LAN server at this address.
    LanClient { server_addr: String },
    /// Serving the LAN on this port.
    LanServer { port: u16 },
}

impl View for NodeMode {
    type V = NodeModeV;

    open spec fn view(&self) -> NodeModeV {
        match self {
            NodeMode::CloudClient => NodeModeV::CloudClient,
            NodeMode::LanClient { server_addr } => NodeModeV::LanClient {
                server_addr: server_addr@,
            },
            NodeMode::LanServer { port } => NodeModeV::LanServer { port: *port as int },
        }
    }
}

impl NodeMode {
    /// A copy whose view is provably the same.
    pub fn duplicate(&self) -> (r: NodeMode)
        ensures
            r@ == self@,
    {
        match self {
            NodeMode::CloudClient => NodeMode::CloudClient,
            NodeMode::LanClient { server_addr } => NodeMode::LanClient {
                server_addr: server_addr.clone(),
            },
            NodeMode::LanServer { port } => NodeMode::LanServer { port: *port },
        }
    }
}

/// How willing this node is to hold the LAN-server role.
#[derive(Debug, Clone, PartialEq, Eq, Structural)]
pub enum ServerMode {
    /// Decide by election (the default).
    Auto,
    /// Become the server without an election.
    ServerPreferred,
    /// Never become the server.
    ClientOnly,
}

impl Default for ServerMode {
    /// The default willingness is to decide by election.
    fn default() -> (r: Self)
        ensures
            r == ServerMode::Auto,
    {
        ServerMode::Auto
    }
}

/// The startup configuration of a node.
#[derive(Debug, Clone)]
pub struct NodeConfig {
    pub cloud_url: String,
    pub lan_port: u16,
    pub listen_addr: String,
    pub enable_cloud: bool,
    pub enable_lan: bool,
    pub server_mode: ServerMode,
}

impl Default for NodeConfig {
    /// Cloud and LAN enabled, deciding the server role by election,
    /// listening locally on the default LAN port.
    fn default() -> (r: Self)
        ensures
            r.cloud_url@ == "ws://localhost:8080"@,
            r.lan_port == 8765,
            r.listen_addr@ == "127.0.0.1"@,
            r.enable_cloud,
            r.enable_lan,
            r.server_mode == ServerMode::Auto,
    {
        NodeConfig {
            cloud_url: String::from_str("ws://localhost:8080"),
            lan_port: 8765,
            listen_addr: String::from_str("127.0.0.1"),
            enable_cloud: true,
            enable_lan: true,
            server_mode: ServerMode::Auto,
        }
    }
}

/// Spec-level image of a `SelectPhase`. The two failure variants keep
/// the error kind apart: a refused selection versus a failed server
/// start.
pub ghost enum SelectPhaseV {
    TryCloud,
    TryDiscover,
    TryLanConnect { server_addr: Seq<char> },
    RunElection,
    StartServer,
    Announce { port: int },
    RetryWait,
    Done { mode: NodeModeV },
    FailedNoServer,
    FailedServerStart,
}

/// Where role selection stands, and which outside step it waits for.
#[derive(Debug, Clone)]
pub enum SelectPhase {
    /// Attempt a cloud connection.
    TryCloud,
    /// Look for an announced LAN server.
    TryDiscover,
    /// Connect to the discovered LAN server.
    TryLanConnect { server_addr: String },
    /// Run the election.
    RunElection,
    /// Bind the embedded server on the configured port.
    StartServer,
    /// Announce the bound port under the server namespace.
    Announce { port: u16 },
    /// Sleep briefly, then start over: another node should announce.
    RetryWait,
    /// Selection finished with this role.
    Done { mode: NodeMode },
    /// Every path was refused.
    Failed { error: MeshError },
}

impl View for SelectPhase {
    type V = SelectPhaseV;

    open spec fn view(&self) -> SelectPhaseV {
        match self {
            SelectPhase::TryCloud => SelectPhaseV::TryCloud,
            SelectPhase::TryDiscover => SelectPhaseV::TryDiscover,
            SelectPhase::TryLanConnect { server_addr } => SelectPhaseV::TryLanConnect {
                server_addr: server_addr@,
            },
            SelectPhase::RunElection => SelectPhaseV::RunElection,
            SelectPhase::StartServer => SelectPhaseV::StartServer,
            SelectPhase::Announce { port } => SelectPhaseV::Announce { port: *port as int },
            SelectPhase::RetryWait => SelectPhaseV::RetryWait,
            SelectPhase::Done { mode } => SelectPhaseV::Done { mode: mode@ },
            SelectPhase::Failed { error } => if error is NoServerAvailable {
                SelectPhaseV::FailedNoServer
            } else {
                SelectPhaseV::FailedServerStart
            },
        }
    }
}

impl SelectPhase {
    /// A copy whose view is provably the same.
    pub fn duplicate(&self) -> (r: SelectPhase)
        ensures
            r@ == self@,
    {
        match self {
            SelectPhase::TryCloud => SelectPhase::TryCloud,
            SelectPhase::TryDiscover => SelectPhase::TryDiscover,
            SelectPhase::TryLanConnect { server_addr } => SelectPhase::TryLanConnect {
                server_addr: server_addr.clone(),
            },
            SelectPhase::RunElection => SelectPhase::RunElection,
            SelectPhase::StartServer => SelectPhase::StartServer,
            SelectPhase::Announce { port } => SelectPhase::Announce { port: *port },
            SelectPhase::RetryWait => SelectPhase::RetryWait,
            SelectPhase::Done { mode } => SelectPhase::Done { mode: mode.duplicate() },
            SelectPhase::Failed { error } => SelectPhase::Failed { error: error.duplicate() },
        }
    }
}

/// Spec-level image of a `SelectEvent`.
pub ghost enum SelectEventV {
    CloudResult { ok: bool },
    DiscoverResult { found: Option<ServerInfoV> },
    LanConnectResult { ok: bool },
    ElectionResult { won: bool },
    ServerStartResult { ok: bool, port: int },
    Announced,
    SleptRetry,
}

/// What the outside world reported back for the awaited step.
#[derive(Debug, Clone)]
pub enum SelectEvent {
    /// Whether the cloud connection attempt succeeded.
    CloudResult { ok: bool },
    /// Whether discovery found an announced server.
    DiscoverResult { found: Option<ServerInfo> },
    /// Whether the connection to the discovered server succeeded.
    LanConnectResult { ok: bool },
    /// Whether this node won the election.
    ElectionResult { won: bool },
    /// Whether the embedded server bound, and on which port; on a
    /// failed bind, `reason` carries the error's text.
    ServerStartResult { ok: bool, port: u16, reason: String },
    /// The announcement went out.
    Announced,
    /// The retry pause elapsed.
    SleptRetry,
}

impl View for SelectEvent {
    type V = SelectEventV;

    open spec fn view(&self) -> SelectEventV {
        match self {
            SelectEvent::CloudResult { ok } => SelectEventV::CloudResult { ok: *ok },
            SelectEvent::DiscoverResult { found } => SelectEventV::DiscoverResult {
                found: match found {
                    Some(info) => Some(info@),
                    None => None,
                },
            },
            SelectEvent::LanConnectResult { ok } => SelectEventV::LanConnectResult { ok: *ok },
            SelectEvent::ElectionResult { won } => SelectEventV::ElectionResult { won: *won },
            SelectEvent::ServerStartResult { ok, port, reason: _ } => SelectEventV::ServerStartResult {
                ok: *ok,
                port: *port as int,
            },
            SelectEvent::Announced => SelectEventV::Announced,
            SelectEvent::SleptRetry => SelectEventV::SleptRetry,
        }
    }
}

/// How many lost elections a node retries before giving up, so that a
/// pathological round cannot loop forever.
pub const ELECTION_RETRY_LIMIT: u32 = 16;

/// Spec-level image of a `RoleSelector`.
pub ghost struct RoleSelectorV {
    pub phase: SelectPhaseV,
    pub retries_left: int,
}

/// The role-selection state machine: the current phase plus the retry
/// budget for lost elections.
pub struct RoleSelector {
    phase: SelectPhase,
    retries_left: u32,
}

impl View for RoleSelector {
    type V = RoleSelectorV;

    closed spec fn view(&self) -> RoleSelectorV {
        RoleSelectorV { phase: self.phase@, retries_left: self.retries_left as int }
    }
}

/// The `ws://<address>:<port>` URL of a LAN server.
pub open spec fn spec_lan_url(address: Seq<char>, port: int) -> Seq<char> {
    seq!['w', 's', ':', '/', '/'] + address + seq![':'] + int_chars(port)
}

/// The phase selection starts in: cloud first when enabled, then LAN
/// discovery; with both disabled there is nowhere to connect.
pub open spec fn spec_start(config: NodeConfig) -> SelectPhaseV {
    if config.enable_cloud {
        SelectPhaseV::TryCloud
    } else if config.enable_lan {
        SelectPhaseV::TryDiscover
    } else {
        SelectPhaseV::FailedNoServer
    }
}

/// Where selection goes when no LAN server could be reached: refuse in
/// client-only mode, serve at once when preferred, else elect.
pub open spec fn spec_no_server(config: NodeConfig) -> SelectPhaseV {
    if config.server_mode == ServerMode::ClientOnly {
        SelectPhaseV::FailedNoServer
    } else if config.server_mode == ServerMode::ServerPreferred {
        SelectPhaseV::StartServer
    } else {
        SelectPhaseV::RunElection
    }
}

/// The transition table of role selection. An event that does not
/// answer the awaited step leaves the state alone.
pub open spec fn spec_step(config: NodeConfig, s: RoleSelectorV, event: SelectEventV) -> RoleSelectorV {
    match (s.phase, event) {
        (SelectPhaseV::TryCloud, SelectEventV::CloudResult { ok }) => RoleSelectorV {
            phase: if ok {
                SelectPhaseV::Done { mode: NodeModeV::CloudClient }
            } else if config.enable_lan {
                SelectPhaseV::TryDiscover
            } else {
                SelectPhaseV::FailedNoServer
            },
            ..s
        },
        (SelectPhaseV::TryDiscover, SelectEventV::DiscoverResult { found }) => RoleSelectorV {
            phase: match found {
                Some(info) => SelectPhaseV::TryLanConnect {
                    server_addr: spec_lan_url(info.address, info.port),
                },
                None => spec_no_server(config),
            },
            ..s
        },
        (
            SelectPhaseV::TryLanConnect { server_addr },
            SelectEventV::LanConnectResult { ok },
        ) => RoleSelectorV {
            phase: if ok {
                SelectPhaseV::Done { mode: NodeModeV::LanClient { server_addr } }
            } else {
                spec_no_server(config)
            },
            ..s
        },
        (SelectPhaseV::RunElection, SelectEventV::ElectionResult { won }) => if won {
            RoleSelectorV { phase: SelectPhaseV::StartServer, ..s }
        } else if s.retries_left > 0 {
            RoleSelectorV { phase: SelectPhaseV::RetryWait, retries_left: s.retries_left - 1 }
        } else {
            RoleSelectorV { phase: SelectPhaseV::FailedNoServer, ..s }
        },
        (SelectPhaseV::RetryWait, SelectEventV::SleptRetry) => RoleSelectorV {
            phase: spec_start(config),
            ..s
        },
        (SelectPhaseV::StartServer, SelectEventV::ServerStartResult { ok, port }) => RoleSelectorV {
            phase: if ok {
                SelectPhaseV::Announce { port }
            } else {
                SelectPhaseV::FailedServerStart
            },
            ..s
        },
        (SelectPhaseV::Announce { port }, SelectEventV::Announced) => RoleSelectorV {
            phase: SelectPhaseV::Done { mode: NodeModeV::LanServer { port } },
            ..s
        },
        (_, _) => s,
    }
}

impl RoleSelector {
    /// Begin role selection for this configuration, with the full
    /// retry budget.
    pub fn start(config: &NodeConfig) -> (r: RoleSelector)
        ensures
            r@.phase == spec_start(*config),
            r@.retries_left == ELECTION_RETRY_LIMIT as int,
    {
        let phase = if config.enable_cloud {
            SelectPhase::TryCloud
        } else if config.enable_lan {
            SelectPhase::TryDiscover
        } else {
            SelectPhase::Failed { error: MeshError::NoServerAvailable }
        };
        RoleSelector { phase, retries_left: ELECTION_RETRY_LIMIT }
    }

    /// The phase the caller must act on next.
    pub fn phase(&self) -> (r: &SelectPhase)
        ensures
            r@ == self@.phase,
    {
        &self.phase
    }

    /// Feed one outcome in and move on, exactly as the transition
    /// table says.
    pub fn step(&mut self, config: &NodeConfig, event: SelectEvent)
        ensures
            final(self)@ == spec_step(*config, old(self)@, event@),
    {
        let retries = self.retries_left;
        let (new_phase, new_retries): (SelectPhase, u32) = match (&self.phase, &event) {
            (SelectPhase::TryCloud, SelectEvent::CloudResult { ok }) => {
                if *ok {
                    (SelectPhase::Done { mode: NodeMode::CloudClient }, retries)
                } else if config.enable_lan {
                    (SelectPhase::TryDiscover, retries)
                } else {
                    (SelectPhase::Failed { error: MeshError::NoServerAvailable }, retries)
                }
            }
            (SelectPhase::TryDiscover, SelectEvent::DiscoverResult { found }) => {
                match found {
                    Some(info) => {
                        let url = lan_url(info.address.as_str(), info.port);
                        (SelectPhase::TryLanConnect { server_addr: url }, retries)
                    }
                    None => (Self::no_server_phase(config), retries),
                }
            }
            (SelectPhase::TryLanConnect { server_addr }, SelectEvent::LanConnectResult { ok }) => {
                if *ok {
                    (
                        SelectPhase::Done {
                            mode: NodeMode::LanClient { server_addr: server_addr.clone() },
                        },
                        retries,
                    )
                } else {
                    (Self::no_server_phase(config), retries)
                }
            }
            (SelectPhase::RunElection, SelectEvent::ElectionResult { won }) => {
                if *won {
                    (SelectPhase::StartServer, retries)
                } else if retries > 0 {
                    (SelectPhase::RetryWait, retries - 1)
                } else {
                    (SelectPhase::Failed { error: MeshError::NoServerAvailable }, retries)
                }
            }
            (SelectPhase::RetryWait, SelectEvent::SleptRetry) => {
                if config.enable_cloud {
                    (SelectPhase::TryCloud, retries)
                } else if config.enable_lan {
                    (SelectPhase::TryDiscover, retries)
                } else {
                    (SelectPhase::Failed { error: MeshError::NoServerAvailable }, retries)
                }
            }
            (SelectPhase::StartServer, SelectEvent::ServerStartResult { ok, port, reason }) => {
                if *ok {
                    (SelectPhase::Announce { port: *port }, retries)
                } else {
                    (
                        SelectPhase::Failed {
                            error: MeshError::ConnectFailed(reason.clone()),
                        },
                        retries,
                    )
                }
            }
            (SelectPhase::Announce { port }, SelectEvent::Announced) => {
                (SelectPhase::Done { mode: NodeMode::LanServer { port: *port } }, retries)
            }
            (other, _) => (other.duplicate(), retries),
        };
        self.phase = new_phase;
        self.retries_left = new_retries;
    }

    /// The phase for "no LAN server reachable", by server mode.
    fn no_server_phase(config: &NodeConfig) -> (r: SelectPhase)
        ensures
            r@ == spec_no_server(*config),
    {
        if config.server_mode == ServerMode::ClientOnly {
            SelectPhase::Failed { error: MeshError::NoServerAvailable }
        } else if config.server_mode == ServerMode::ServerPreferred {
            SelectPhase::StartServer
        } else {
            SelectPhase::RunElection
        }
    }
}

/// Whether updates leave through the one outbound client (true) or
/// through the embedded server's broadcast (false): a node holds
/// exactly one of the two.
pub fn sends_via_client(mode: &NodeMode) -> (r: bool)
    ensures
        r == !(mode@ is LanServer),
{
    match mode {
        NodeMode::CloudClient => true,
        NodeMode::LanClient { .. } => true,
        NodeMode::LanServer { .. } => false,
    }
}

/// Whether this node consumes inbound updates from an upstream: only
/// the client roles do; a server only broadcasts.
pub fn receives_from_upstream(mode: &NodeMode) -> (r: bool)
    ensures
        r == !(mode@ is LanServer),
{
    match mode {
        NodeMode::CloudClient => true,
        NodeMode::LanClient { .. } => true,
        NodeMode::LanServer { .. } => false,
    }
}

/// The peer list shown to the user for each role.
pub open spec fn spec_peers_of(mode: NodeModeV, cloud_url: Seq<char>) -> Seq<
    (Seq<char>, Seq<char>),
> {
    match mode {
        NodeModeV::CloudClient => seq![("cloud"@, cloud_url)],
        NodeModeV::LanClient { server_addr } => seq![("lan-server"@, server_addr)],
        NodeModeV::LanServer { port } => seq![
            ("self"@, "LAN Server on port "@ + int_chars(port)),
        ],
    }
}

/// The peers visible in this role: the cloud, the LAN server upstream,
/// or this node itself when it is the server.
pub fn peers_of(mode: &NodeMode, cloud_url: &str) -> (r: Vec<(String, String)>)
    ensures
        r@.len() == 1,
        (r@[0].0@, r@[0].1@) == spec_peers_of(mode@, cloud_url@)[0],
{
    proof {
        reveal_strlit("cloud");
        reveal_strlit("lan-server");
        reveal_strlit("self");
        reveal_strlit("LAN Server on port ");
    }
    let mut r: Vec<(String, String)> = Vec::new();
    match mode {
        NodeMode::CloudClient => {
            r.push((String::from_str("cloud"), String::from_str(cloud_url)));
        }
        NodeMode::LanClient { server_addr } => {
            r.push((String::from_str("lan-server"), server_addr.clone()));
        }
        NodeMode::LanServer { port } => {
            let mut text = String::from_str("LAN Server on port ");
            push_u64(&mut text, *port as u64);
            r.push((String::from_str("self"), text));
        }
    }
    r
}

/// The connection summary shown to the user for each role.
pub open spec fn spec_connection_info(mode: NodeModeV, cloud_url: Seq<char>) -> Seq<char> {
    match mode {
        NodeModeV::CloudClient => "Connected to cloud: "@ + cloud_url,
        NodeModeV::LanClient { server_addr } => "Connected to LAN server: "@ + server_addr,
        NodeModeV::LanServer { port } => "Running as LAN server on port "@ + int_chars(port)
            + " (0 clients)"@,
    }
}

/// A one-line summary of the connection for display.
pub fn connection_info(mode: &NodeMode, cloud_url: &str) -> (r: String)
    ensures
        r@ == spec_connection_info(mode@, cloud_url@),
{
    proof {
        reveal_strlit("Connected to cloud: ");
        reveal_strlit("Connected to LAN server: ");
        reveal_strlit("Running as LAN server on port ");
        reveal_strlit(" (0 clients)");
    }
    match mode {
        NodeMode::CloudClient => {
            let mut text = String::from_str("Connected to cloud: ");
            text.append(cloud_url);
            text
        }
        NodeMode::LanClient { server_addr } => {
            let mut text = String::from_str("Connected to LAN server: ");
            text.append(server_addr.as_str());
            text
        }
        NodeMode::LanServer { port } => {
            let mut text = String::from_str("Running as LAN server on port ");
            push_u64(&mut text, *port as u64);
            text.append(" (0 clients)");
            text
        }
    }
}

/// The `ws://<address>:<port>` URL of a LAN server.
pub fn lan_url(address: &str, port: u16) -> (r: String)
    ensures
        r@ == spec_lan_url(address@, port as int),
{
    let mut out = String::new();
    proof {
        reveal_strlit("ws://");
        reveal_strlit(":");
    }
    out.append("ws://");
    out.append(address);
    out.append(":");
    push_u64(&mut out, port as u64);
    proof {
        assert("ws://"@ =~= seq!['w', 's', ':', '/', '/']);
        assert(":"@ =~= seq![':']);
        assert(out@ =~= spec_lan_url(address@, port as int));
    }
    out
}

} // verus!
