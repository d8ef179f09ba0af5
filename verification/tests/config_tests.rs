use envmesh::cli::{format_export_lines, render_response, split_set_arg};
use envmesh::config::{Config, ServerConfig};
use envmesh::ipc::{handle_command, IpcCommand, IpcResponse};
use envmesh::message::SyncMessage;
use envmesh::node::ServerMode;
use envmesh::store::EnvStorage;

#[test]
fn test_default_config() {
    let config = Config::default();
    assert_eq!(config.server.mode, "auto");
    assert_eq!(config.server.listen, "127.0.0.1");
    assert_eq!(config.server.port, 8765);
    assert!(config.client.enable_cloud);
    assert!(config.client.enable_lan);
}

#[test]
fn test_server_mode_parsing() {
    let config = Config {
        server: ServerConfig {
            mode: "server-preferred".to_string(),
            ..Default::default()
        },
        ..Default::default()
    };

    let node_config = config.to_node_config();
    assert_eq!(node_config.server_mode, ServerMode::ServerPreferred);
}

#[test]
fn mode_parsing_covers_spellings_and_case() {
    let mut config = Config::default();
    for (text, expected) in [
        ("auto", ServerMode::Auto),
        ("AUTO", ServerMode::Auto),
        ("Server-Preferred", ServerMode::ServerPreferred),
        ("server_preferred", ServerMode::ServerPreferred),
        ("client-only", ServerMode::ClientOnly),
        ("CLIENT_ONLY", ServerMode::ClientOnly),
        ("anything-else", ServerMode::Auto),
    ] {
        config.server.mode = text.to_string();
        assert_eq!(config.to_node_config().server_mode, expected, "mode {}", text);
    }
}

#[test]
fn split_set_arg_handles_both_forms() {
    let (k, v) = split_set_arg("KEY", Some("value")).unwrap();
    assert_eq!((k.as_str(), v.as_str()), ("KEY", "value"));
    let (k, v) = split_set_arg("KEY=a=b", None).unwrap();
    assert_eq!((k.as_str(), v.as_str()), ("KEY", "a=b"));
    assert!(split_set_arg("KEY", None).is_none());
}

#[test]
fn export_lines_per_shell() {
    let vars = vec![
        ("A".to_string(), "1".to_string()),
        ("B".to_string(), "two words".to_string()),
    ];
    assert_eq!(
        format_export_lines(&vars, "bash"),
        vec!["export A=\"1\"", "export B=\"two words\""]
    );
    assert_eq!(
        format_export_lines(&vars, "powershell"),
        vec!["$env:A=\"1\"", "$env:B=\"two words\""]
    );
    assert_eq!(
        format_export_lines(&vars, "fish"),
        vec!["set -gx A \"1\"", "set -gx B \"two words\""]
    );
}

#[test]
fn render_response_lines_and_exit() {
    let (lines, ok) = render_response(IpcResponse::Value(Some("v".to_string())));
    assert_eq!((lines, ok), (vec!["v".to_string()], true));
    let (lines, ok) = render_response(IpcResponse::Value(None));
    assert_eq!((lines, ok), (vec!["Key not found".to_string()], false));
    let (lines, ok) = render_response(IpcResponse::Error("boom".to_string()));
    assert_eq!((lines, ok), (vec!["Error: boom".to_string()], false));
    let (lines, ok) = render_response(IpcResponse::List(vec![]));
    assert_eq!((lines, ok), (vec!["No environment variables".to_string()], true));
    let (lines, ok) = render_response(IpcResponse::List(vec![(
        "K".to_string(),
        "v".to_string(),
    )]));
    assert_eq!((lines, ok), (vec!["K=v".to_string()], true));
    let (lines, ok) = render_response(IpcResponse::Peers(vec![(
        "id1".to_string(),
        "addr1".to_string(),
    )]));
    assert_eq!((lines, ok), (vec!["id1 @ addr1".to_string()], true));
}

#[test]
fn handle_command_dispatches_against_store() {
    let mut store = EnvStorage::new();
    let peers = vec![("p".to_string(), "addr".to_string())];

    let (resp, quit, committed) = handle_command(
        &mut store,
        "m1",
        &peers,
        IpcCommand::SetValue { key: "K".to_string(), value: "v".to_string() },
    );
    assert!(matches!(resp, IpcResponse::Success));
    assert!(!quit);
    let committed = committed.expect("a successful set commits a record");
    assert_eq!(committed.key, "K");
    assert_eq!(committed.value, "v");
    assert_eq!(committed.machine_id, "m1");
    assert!(!committed.deleted);

    let (resp, _, _) = handle_command(&mut store, "m1", &peers, IpcCommand::Get {
        key: "K".to_string(),
    });
    match resp {
        IpcResponse::Value(Some(v)) => assert_eq!(v, "v"),
        other => panic!("unexpected response: {:?}", response_name(&other)),
    }

    let (resp, _, _) = handle_command(&mut store, "m1", &peers, IpcCommand::List);
    match resp {
        IpcResponse::List(pairs) => {
            assert_eq!(pairs, vec![("K".to_string(), "v".to_string())])
        }
        other => panic!("unexpected response: {:?}", response_name(&other)),
    }

    let (resp, _, _) = handle_command(&mut store, "m1", &peers, IpcCommand::Peers);
    match resp {
        IpcResponse::Peers(ps) => assert_eq!(ps, peers),
        other => panic!("unexpected response: {:?}", response_name(&other)),
    }

    let (resp, _, committed) = handle_command(&mut store, "m1", &peers, IpcCommand::Delete {
        key: "K".to_string(),
    });
    assert!(matches!(resp, IpcResponse::Success));
    let committed = committed.expect("a successful delete commits a tombstone");
    assert!(committed.deleted);
    let (resp, _, _) = handle_command(&mut store, "m1", &peers, IpcCommand::Get {
        key: "K".to_string(),
    });
    assert!(matches!(resp, IpcResponse::Value(None)));

    let (resp, quit, _) = handle_command(&mut store, "m1", &peers, IpcCommand::Shutdown);
    assert!(matches!(resp, IpcResponse::Success));
    assert!(quit);
}

#[test]
fn handle_command_reports_a_refused_mutation() {
    let mut store = EnvStorage::new();
    store.apply_remote(&SyncMessage {
        key: "K".to_string(),
        value: "max".to_string(),
        timestamp: i64::MAX,
        machine_id: "w".to_string(),
        deleted: false,
    });
    let peers = vec![];
    let (resp, quit, committed) = handle_command(
        &mut store,
        "m1",
        &peers,
        IpcCommand::SetValue { key: "K".to_string(), value: "v".to_string() },
    );
    assert!(matches!(resp, IpcResponse::Error(_)));
    assert!(!quit);
    assert!(committed.is_none());
    let (resp, _, committed) = handle_command(&mut store, "m1", &peers, IpcCommand::Delete {
        key: "K".to_string(),
    });
    assert!(matches!(resp, IpcResponse::Error(_)));
    assert!(committed.is_none());
    // the stuck row is untouched
    let (resp, _, _) = handle_command(&mut store, "m1", &peers, IpcCommand::Get {
        key: "K".to_string(),
    });
    match resp {
        IpcResponse::Value(Some(v)) => assert_eq!(v, "max"),
        other => panic!("unexpected response: {:?}", response_name(&other)),
    }
}

fn response_name(r: &IpcResponse) -> &'static str {
    match r {
        IpcResponse::Value(_) => "Value",
        IpcResponse::Success => "Success",
        IpcResponse::Error(_) => "Error",
        IpcResponse::List(_) => "List",
        IpcResponse::Peers(_) => "Peers",
    }
}
