use envmesh::election::{generate_peer_id, Election, ServerInfo};
use envmesh::health::{HealthAction, HealthMonitor};
use envmesh::node::{
    connection_info, lan_url, peers_of, NodeConfig, NodeMode, RoleSelector, SelectEvent,
    SelectPhase, ServerMode,
};

fn auto_config() -> NodeConfig {
    NodeConfig::default()
}

#[test]
fn test_peer_id_generation() {
    let id1 = generate_peer_id();
    let id2 = generate_peer_id();

    assert_ne!(id1, id2);
    assert!(!id1.is_empty());
}

#[test]
fn test_election_single_node() {
    let election = Election::new(generate_peer_id());
    let result = election.should_become_server(&vec![]);

    // With no other candidates, should become server
    assert!(result);
}

#[test]
fn election_two_nodes_exactly_one_wins() {
    let id_a = generate_peer_id();
    let id_b = generate_peer_id();
    let a = Election::new(id_a.clone());
    let b = Election::new(id_b.clone());
    let a_wins = a.should_become_server(&vec![id_b.clone()]);
    let b_wins = b.should_become_server(&vec![id_a.clone()]);
    assert!(a_wins != b_wins);
    assert_eq!(a_wins, id_a > id_b);
}

#[test]
fn test_node_config_default() {
    let config = NodeConfig::default();
    assert!(config.enable_cloud);
    assert!(config.enable_lan);
    assert_eq!(config.lan_port, 8765);
}

#[test]
fn solo_auto_node_becomes_lan_server() {
    // cloud unreachable, no LAN peers, election won outright
    let config = auto_config();
    let mut sel = RoleSelector::start(&config);
    assert!(matches!(sel.phase(), SelectPhase::TryCloud));
    sel.step(&config, SelectEvent::CloudResult { ok: false });
    assert!(matches!(sel.phase(), SelectPhase::TryDiscover));
    sel.step(&config, SelectEvent::DiscoverResult { found: None });
    assert!(matches!(sel.phase(), SelectPhase::RunElection));
    sel.step(&config, SelectEvent::ElectionResult { won: true });
    assert!(matches!(sel.phase(), SelectPhase::StartServer));
    sel.step(
        &config,
        SelectEvent::ServerStartResult { ok: true, port: 8765, reason: String::new() },
    );
    let mut announced = 0;
    if let SelectPhase::Announce { port } = sel.phase() {
        assert_eq!(*port, 8765);
        announced += 1;
    }
    assert_eq!(announced, 1);
    sel.step(&config, SelectEvent::Announced);
    match sel.phase() {
        SelectPhase::Done { mode: NodeMode::LanServer { port } } => assert_eq!(*port, 8765),
        other => panic!("unexpected phase: {:?}", other),
    }
    let peers = peers_of(&NodeMode::LanServer { port: 8765 }, &config.cloud_url);
    assert_eq!(peers, vec![("self".to_string(), "LAN Server on port 8765".to_string())]);
}

#[test]
fn two_auto_peers_split_server_and_client() {
    let config = auto_config();
    // the loser's selector: lost election, retries, then finds the winner
    let mut sel = RoleSelector::start(&config);
    sel.step(&config, SelectEvent::CloudResult { ok: false });
    sel.step(&config, SelectEvent::DiscoverResult { found: None });
    sel.step(&config, SelectEvent::ElectionResult { won: false });
    assert!(matches!(sel.phase(), SelectPhase::RetryWait));
    sel.step(&config, SelectEvent::SleptRetry);
    assert!(matches!(sel.phase(), SelectPhase::TryCloud));
    sel.step(&config, SelectEvent::CloudResult { ok: false });
    let winner = ServerInfo {
        peer_id: "winner".to_string(),
        address: "192.168.1.7".to_string(),
        port: 8765,
    };
    sel.step(&config, SelectEvent::DiscoverResult { found: Some(winner) });
    match sel.phase() {
        SelectPhase::TryLanConnect { server_addr } => {
            assert_eq!(server_addr, "ws://192.168.1.7:8765");
        }
        other => panic!("unexpected phase: {:?}", other),
    }
    sel.step(&config, SelectEvent::LanConnectResult { ok: true });
    match sel.phase() {
        SelectPhase::Done { mode: NodeMode::LanClient { server_addr } } => {
            assert_eq!(server_addr, "ws://192.168.1.7:8765");
        }
        other => panic!("unexpected phase: {:?}", other),
    }
}

#[test]
fn cloud_up_at_startup_becomes_cloud_client() {
    let config = auto_config();
    let mut sel = RoleSelector::start(&config);
    sel.step(&config, SelectEvent::CloudResult { ok: true });
    assert!(matches!(
        sel.phase(),
        SelectPhase::Done { mode: NodeMode::CloudClient }
    ));
    let peers = peers_of(&NodeMode::CloudClient, &config.cloud_url);
    assert_eq!(
        peers,
        vec![("cloud".to_string(), "ws://localhost:8080".to_string())]
    );
}

#[test]
fn client_only_with_no_server_fails() {
    let mut config = auto_config();
    config.server_mode = ServerMode::ClientOnly;
    let mut sel = RoleSelector::start(&config);
    sel.step(&config, SelectEvent::CloudResult { ok: false });
    sel.step(&config, SelectEvent::DiscoverResult { found: None });
    assert!(matches!(
        sel.phase(),
        SelectPhase::Failed { error: envmesh::MeshError::NoServerAvailable }
    ));
}

#[test]
fn everything_disabled_fails_at_start() {
    let mut config = auto_config();
    config.enable_cloud = false;
    config.enable_lan = false;
    let sel = RoleSelector::start(&config);
    assert!(matches!(
        sel.phase(),
        SelectPhase::Failed { error: envmesh::MeshError::NoServerAvailable }
    ));
}

#[test]
fn server_preferred_skips_election() {
    let mut config = auto_config();
    config.server_mode = ServerMode::ServerPreferred;
    let mut sel = RoleSelector::start(&config);
    sel.step(&config, SelectEvent::CloudResult { ok: false });
    sel.step(&config, SelectEvent::DiscoverResult { found: None });
    assert!(matches!(sel.phase(), SelectPhase::StartServer));
}

#[test]
fn failed_server_start_reports_connect_failure() {
    let config = auto_config();
    let mut sel = RoleSelector::start(&config);
    sel.step(&config, SelectEvent::CloudResult { ok: false });
    sel.step(&config, SelectEvent::DiscoverResult { found: None });
    sel.step(&config, SelectEvent::ElectionResult { won: true });
    sel.step(
        &config,
        SelectEvent::ServerStartResult {
            ok: false,
            port: 0,
            reason: "address in use".to_string(),
        },
    );
    match sel.phase() {
        SelectPhase::Failed { error: envmesh::MeshError::ConnectFailed(reason) } => {
            assert_eq!(reason, "address in use");
        }
        other => panic!("unexpected phase: {:?}", other),
    }
}

#[test]
fn mismatched_event_leaves_selection_alone() {
    let config = auto_config();
    let mut sel = RoleSelector::start(&config);
    assert!(matches!(sel.phase(), SelectPhase::TryCloud));
    sel.step(&config, SelectEvent::Announced);
    assert!(matches!(sel.phase(), SelectPhase::TryCloud));
    sel.step(&config, SelectEvent::ElectionResult { won: true });
    assert!(matches!(sel.phase(), SelectPhase::TryCloud));
}

#[test]
fn election_retries_are_bounded() {
    let config = auto_config();
    let mut sel = RoleSelector::start(&config);
    let mut rounds = 0;
    loop {
        match sel.phase() {
            SelectPhase::TryCloud => sel.step(&config, SelectEvent::CloudResult { ok: false }),
            SelectPhase::TryDiscover => {
                sel.step(&config, SelectEvent::DiscoverResult { found: None })
            }
            SelectPhase::RunElection => {
                rounds += 1;
                sel.step(&config, SelectEvent::ElectionResult { won: false })
            }
            SelectPhase::RetryWait => sel.step(&config, SelectEvent::SleptRetry),
            SelectPhase::Failed { error } => {
                assert!(matches!(error, envmesh::MeshError::NoServerAvailable));
                break;
            }
            other => panic!("unexpected phase: {:?}", other),
        }
        assert!(rounds <= 64, "selection must give up eventually");
    }
    assert_eq!(rounds, 17);
}

#[test]
fn test_health_monitor_creation() {
    let monitor = HealthMonitor::new("ws://localhost:8080".to_string());
    assert_eq!(monitor.failure_threshold, 3);
    assert_eq!(monitor.check_interval_secs, 30);
}

#[test]
fn failover_fires_on_third_consecutive_failure() {
    let monitor = HealthMonitor::new("ws://localhost:8080".to_string());
    let mode = NodeMode::CloudClient;
    let (f1, a1) = monitor.health_step(&mode, true, false, 0);
    assert_eq!((f1, a1), (1, HealthAction::Stay));
    let (f2, a2) = monitor.health_step(&mode, true, false, f1);
    assert_eq!((f2, a2), (2, HealthAction::Stay));
    let (f3, a3) = monitor.health_step(&mode, true, false, f2);
    assert_eq!((f3, a3), (0, HealthAction::Failover));
    // a healthy probe resets the count
    let (f4, a4) = monitor.health_step(&mode, true, true, 2);
    assert_eq!((f4, a4), (0, HealthAction::Stay));
}

#[test]
fn failback_fires_when_cloud_returns() {
    let monitor = HealthMonitor::new("ws://localhost:8080".to_string());
    let server = NodeMode::LanServer { port: 8765 };
    let (_, action) = monitor.health_step(&server, true, true, 0);
    assert_eq!(action, HealthAction::Failback);
    // not when the cloud is disabled
    let (_, action) = monitor.health_step(&server, false, true, 0);
    assert_eq!(action, HealthAction::Stay);
    // not while the cloud is still down
    let client = NodeMode::LanClient { server_addr: "ws://h:1".to_string() };
    let (_, action) = monitor.health_step(&client, true, false, 0);
    assert_eq!(action, HealthAction::Stay);
    // after failback, selection with the cloud up lands in CloudClient
    let config = NodeConfig::default();
    let mut sel = RoleSelector::start(&config);
    sel.step(&config, SelectEvent::CloudResult { ok: true });
    assert!(matches!(
        sel.phase(),
        SelectPhase::Done { mode: NodeMode::CloudClient }
    ));
}

#[test]
fn connection_info_names_the_role() {
    assert_eq!(
        connection_info(&NodeMode::CloudClient, "ws://cloud:1"),
        "Connected to cloud: ws://cloud:1"
    );
    assert_eq!(
        connection_info(
            &NodeMode::LanClient { server_addr: "ws://lan:2".to_string() },
            "ws://cloud:1"
        ),
        "Connected to LAN server: ws://lan:2"
    );
    assert_eq!(
        connection_info(&NodeMode::LanServer { port: 9000 }, "ws://cloud:1"),
        "Running as LAN server on port 9000 (0 clients)"
    );
}

#[test]
fn lan_url_formats_address_and_port() {
    assert_eq!(lan_url("10.0.0.3", 443), "ws://10.0.0.3:443");
    assert_eq!(lan_url("host", 0), "ws://host:0");
}
