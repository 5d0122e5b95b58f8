use portpal::config::{ConfigFile, ConnectionConfig};
use portpal::connection::{ProcessProbe, SpawnOutcome};
use portpal::daemon::{plan_request, respond, Outcome, RequestPlan};
use portpal::ipc::{AggregateHealth, ConnectionState, PortpalRequest, RequestAction};
use portpal::ssh::{forward_spec, matches_connection_process, ssh_arguments};
use portpal::cli::{snapshot_lines, status_line, status_outcome};
use portpal::state::{require_name, AppState, StateError};

fn connection(name: &str, local_port: u16, auto_start: bool, delay: u64) -> ConnectionConfig {
    ConnectionConfig {
        name: name.to_string(),
        ssh_host: "box".to_string(),
        local_port,
        remote_host: "127.0.0.1".to_string(),
        remote_port: 5432,
        auto_start,
        reconnect_delay_seconds: delay,
        startup_grace_period_seconds: None,
    }
}

fn config(auto_start: bool) -> ConfigFile {
    ConfigFile { connections: vec![connection("postgres", 15432, auto_start, 10)] }
}

#[test]
fn stop_marks_connection_as_suppressed() {
    let mut state = AppState::new(config(false));
    let (status, _) = state.stop_connection("postgres", 0).unwrap();
    assert!(status.restart_suppressed);
    assert_eq!(status.state, ConnectionState::Stopped);
}

#[test]
fn reload_preserves_stopped_state_for_unchanged_connection() {
    let mut state = AppState::new(config(false));
    let _ = state.stop_connection("postgres", 0).unwrap();
    let (kills, starts) = state.reload(config(false));
    assert!(kills.is_empty());
    assert!(starts.is_empty());
    let status = state.status("postgres", 0).unwrap();
    assert!(status.restart_suppressed);
    assert_eq!(status.state, ConnectionState::Stopped);
}

#[test]
fn status_defaults_to_failed_for_idle_manual_connection() {
    let state = AppState::new(config(false));

    let status = state.status("postgres", 0).unwrap();

    assert_eq!(status.state, ConnectionState::Failed);
    assert!(!status.restart_suppressed);
    assert_eq!(status.next_retry_in_seconds, None);
}

#[test]
fn stop_unknown_connection_returns_error() {
    let mut state = AppState::new(config(false));

    let error = state.stop_connection("missing", 0).unwrap_err().message();

    assert!(error.contains("unknown connection: missing"));
}

#[test]
fn refresh_unknown_connection_returns_error() {
    let mut state = AppState::new(config(false));

    let error = state.refresh_connection("missing").unwrap_err().message();

    assert!(error.contains("unknown connection: missing"));
}

#[test]
fn require_name_accepts_non_blank_names() {
    let name = require_name(Some("postgres".to_string()), "status").unwrap();
    assert_eq!(name, "postgres");
}

#[test]
fn require_name_rejects_missing_or_blank_names() {
    let missing = require_name(None, "status").unwrap_err().message();
    assert!(missing.contains("status requires a connection name"));

    let blank = require_name(Some("   ".to_string()), "refresh").unwrap_err().message();
    assert!(blank.contains("refresh requires a connection name"));
}

#[test]
fn auto_started_connection_enters_starting_before_port_is_reachable() {
    let mut state = AppState::new(ConfigFile {
        connections: vec![connection("postgres", 15432, true, 1)],
    });
    assert!(state.wants_auto_start("postgres"));
    state.record_spawn("postgres", SpawnOutcome::Started { pid: 4242 }, 0);
    let kill = state.refresh_runtime(
        "postgres",
        Some(ProcessProbe::Running { port_reachable: false }),
        100,
    );
    assert_eq!(kill, None);
    let status = state.status("postgres", 100).unwrap();
    assert_eq!(status.state, ConnectionState::Starting);
    assert!(status.process_alive);
    assert!(!status.port_reachable);
}

#[test]
fn auto_started_connection_becomes_healthy_when_helper_listens_on_forwarded_port() {
    let mut state = AppState::new(ConfigFile {
        connections: vec![connection("postgres", 15433, true, 1)],
    });
    state.record_spawn("postgres", SpawnOutcome::Started { pid: 4242 }, 0);
    state.refresh_runtime("postgres", Some(ProcessProbe::Running { port_reachable: true }), 600);
    let status = state.status("postgres", 600).unwrap();
    assert_eq!(status.state, ConnectionState::Healthy);
    assert!(status.process_alive);
    assert!(status.port_reachable);
    assert_eq!(state.snapshot(600).aggregate_health, AggregateHealth::AllHealthy);
}

#[test]
fn auto_started_connection_retries_when_ssh_process_exits() {
    let mut state = AppState::new(ConfigFile {
        connections: vec![connection("postgres", 15434, true, 1)],
    });
    state.record_spawn("postgres", SpawnOutcome::Started { pid: 4242 }, 0);
    let kill = state.refresh_runtime("postgres", Some(ProcessProbe::Exited), 500);
    assert_eq!(kill, None);
    let status = state.status("postgres", 500).unwrap();
    assert_eq!(status.state, ConnectionState::WaitingToRetry);
    assert!(!status.process_alive);
    assert!(status.last_error.unwrap().contains("ssh process exited"));
    assert!(!state.tick_wants_start("postgres", 1499));
    assert!(state.tick_wants_start("postgres", 1500));
}

#[test]
fn auto_started_connection_retries_when_port_never_becomes_reachable() {
    let mut state = AppState::new(ConfigFile {
        connections: vec![connection("postgres", 15435, true, 1)],
    });
    state.record_spawn("postgres", SpawnOutcome::Started { pid: 4242 }, 0);
    let kill = state.refresh_runtime(
        "postgres",
        Some(ProcessProbe::Running { port_reachable: false }),
        2999,
    );
    assert_eq!(kill, None);
    let kill = state.refresh_runtime(
        "postgres",
        Some(ProcessProbe::Running { port_reachable: false }),
        3000,
    );
    assert_eq!(kill, Some(4242));
    let status = state.status("postgres", 3000).unwrap();
    assert_eq!(status.state, ConnectionState::WaitingToRetry);
    assert!(!status.process_alive);
    assert!(status.last_error.unwrap().contains("forwarded port is not reachable"));
    assert_eq!(status.next_retry_in_seconds, Some(1));
}

#[test]
fn stop_suppresses_restart_until_refresh_restarts_the_connection() {
    let mut state = AppState::new(ConfigFile {
        connections: vec![connection("postgres", 15436, true, 1)],
    });
    state.record_spawn("postgres", SpawnOutcome::Started { pid: 4242 }, 0);
    state.refresh_runtime("postgres", Some(ProcessProbe::Running { port_reachable: true }), 100);
    assert_eq!(state.status("postgres", 100).unwrap().state, ConnectionState::Healthy);

    let (stopped, kill) = state.stop_connection("postgres", 200).unwrap();
    assert_eq!(kill, Some(4242));
    assert_eq!(stopped.state, ConnectionState::Stopped);
    assert!(stopped.restart_suppressed);

    state.refresh_runtime("postgres", None, 1700);
    assert!(!state.tick_wants_start("postgres", 1700));
    assert_eq!(state.status("postgres", 1700).unwrap().state, ConnectionState::Stopped);

    let kill = state.refresh_connection("postgres").unwrap();
    assert_eq!(kill, None);
    assert!(state.get("postgres").unwrap().start_allowed());
    state.record_spawn("postgres", SpawnOutcome::Started { pid: 5151 }, 1800);
    let starting = state.status("postgres", 1800).unwrap();
    assert_eq!(starting.state, ConnectionState::Starting);
    state.refresh_runtime("postgres", Some(ProcessProbe::Running { port_reachable: true }), 1900);
    let refreshed = state.status("postgres", 1900).unwrap();
    assert_eq!(refreshed.state, ConnectionState::Healthy);
    assert!(!refreshed.restart_suppressed);
}

#[test]
fn failed_start_waits_for_the_reconnect_delay() {
    let mut state = AppState::new(ConfigFile {
        connections: vec![connection("postgres", 15432, true, 10)],
    });
    state.record_spawn(
        "postgres",
        SpawnOutcome::Failed { error: "failed to start ssh process for postgres".to_string() },
        1000,
    );
    let status = state.status("postgres", 1000).unwrap();
    assert_eq!(status.state, ConnectionState::WaitingToRetry);
    assert_eq!(status.next_retry_in_seconds, Some(10));
    assert_eq!(status.last_error.as_deref(), Some("failed to start ssh process for postgres"));
    assert!(!state.tick_wants_start("postgres", 10999));
    assert!(state.tick_wants_start("postgres", 11000));
    assert_eq!(state.status("postgres", 20000).unwrap().next_retry_in_seconds, Some(0));
}

#[test]
fn snapshot_lists_connections_in_name_order() {
    let state = AppState::new(ConfigFile {
        connections: vec![
            connection("zeta", 1, false, 1),
            connection("alpha", 2, false, 1),
            connection("Beta", 3, false, 1),
            connection("alpha", 4, false, 1),
        ],
    });
    let snapshot = state.snapshot(0);
    let names: Vec<&str> = snapshot.connections.iter().map(|c| c.name.as_str()).collect();
    assert_eq!(names, vec!["Beta", "alpha", "zeta"]);
    assert_eq!(snapshot.connections[1].local_port, 4);
    assert_eq!(snapshot.aggregate_health, AggregateHealth::NoneHealthy);
    assert_eq!(state.names(), vec!["Beta".to_string(), "alpha".to_string(), "zeta".to_string()]);
}

#[test]
fn reload_replaces_changed_and_drops_removed_connections() {
    let mut state = AppState::new(ConfigFile {
        connections: vec![connection("a", 1, true, 1), connection("b", 2, true, 1), connection("c", 3, true, 1)],
    });
    state.record_spawn("a", SpawnOutcome::Started { pid: 11 }, 0);
    state.record_spawn("b", SpawnOutcome::Started { pid: 22 }, 0);
    state.record_spawn("c", SpawnOutcome::Started { pid: 33 }, 0);
    let (kills, starts) = state.reload(ConfigFile {
        connections: vec![connection("b", 20, true, 1), connection("a", 1, true, 1), connection("d", 4, true, 1)],
    });
    assert_eq!(kills, vec![22, 33]);
    assert_eq!(starts, vec!["b".to_string(), "d".to_string()]);
    assert_eq!(state.names(), vec!["a".to_string(), "b".to_string(), "d".to_string()]);
    assert_eq!(state.get("a").unwrap().process_id, Some(11));
    assert_eq!(state.get("b").unwrap().process_id, None);
    assert!(state.wants_auto_start("b"));
    assert!(state.wants_auto_start("d"));
    assert!(!state.wants_auto_start("a"));
    assert!(state.get("c").is_none());
    assert_eq!(state.start_auto_connections(), vec!["b".to_string(), "d".to_string()]);
    assert_eq!(state.tick(0), vec!["b".to_string(), "d".to_string()]);
}

#[test]
fn requests_are_planned_and_answered() {
    let plan = plan_request(PortpalRequest { action: RequestAction::Stop, name: Some("db".to_string()) });
    match plan {
        Ok(RequestPlan::Stop { name }) => assert_eq!(name, "db"),
        _ => panic!("expected a stop plan"),
    }
    let refused = plan_request(PortpalRequest { action: RequestAction::Status, name: None });
    match refused {
        Err(e) => assert_eq!(e.message(), "status requires a connection name"),
        Ok(_) => panic!("expected a refusal"),
    }
    let state = AppState::new(config(false));
    let status = state.status("postgres", 0).unwrap();
    let response = respond(Outcome::Stopped { name: "postgres".to_string(), status });
    assert!(response.ok);
    assert_eq!(response.message.as_deref(), Some("stopped postgres"));
    let failed = respond(Outcome::Failed { message: "invalid request".to_string() });
    assert!(!failed.ok);
    assert_eq!(failed.message.as_deref(), Some("invalid request"));
}

#[test]
fn ssh_command_for_a_connection() {
    let c = connection("postgres", 15432, true, 10);
    assert_eq!(forward_spec(&c), "15432:127.0.0.1:5432");
    assert_eq!(
        ssh_arguments(&c),
        vec![
            "-N", "-o", "ExitOnForwardFailure=yes", "-o", "ServerAliveInterval=30", "-o",
            "ServerAliveCountMax=3", "-L", "15432:127.0.0.1:5432", "box"
        ]
    );
    assert!(matches_connection_process(
        "/usr/bin/ssh -N -o ExitOnForwardFailure=yes -o ServerAliveInterval=30 -L 15432:127.0.0.1:5432 box",
        "/usr/bin/ssh",
        "15432:127.0.0.1:5432",
        &c
    ));
    assert!(!matches_connection_process(
        "/usr/bin/ssh -N -L 15432:127.0.0.1:5432 box",
        "/usr/bin/ssh",
        "15432:127.0.0.1:5432",
        &c
    ));
    assert!(!matches_connection_process("", "", "", &c));
}

#[test]
fn daemon_serves_cli_requests_and_reloads_config() {

    let mut state = AppState::new(ConfigFile {
        connections: vec![connection("postgres", 15432, false, 10)],
    });

    let list = snapshot_lines(&state.snapshot(0));
    assert!(list.iter().any(|l| l.contains("postgres [Failed] box:15432 -> 127.0.0.1:5432")));

    let (stopped, _) = state.stop_connection("postgres", 0).unwrap();
    assert!(status_line(&stopped).contains("postgres [Stopped] box:15432 -> 127.0.0.1:5432"));

    let status = state.status("postgres", 0).unwrap();
    assert!(status_line(&status).contains("postgres [Stopped] box:15432 -> 127.0.0.1:5432"));
    assert!(status_outcome(&status).unwrap_err().contains("postgres is Stopped"));

    assert!(state.status("missing", 0).is_none());
    let missing = StateError::UnknownConnection { name: "missing".to_string() }.message();
    assert!(missing.contains("unknown connection: missing"));

    let (kills, _) = state.reload(ConfigFile {
        connections: vec![ConnectionConfig {
            name: "mysql".to_string(),
            ssh_host: "box".to_string(),
            local_port: 13306,
            remote_host: "127.0.0.1".to_string(),
            remote_port: 3306,
            auto_start: false,
            reconnect_delay_seconds: 10,
            startup_grace_period_seconds: None,
        }],
    });
    assert!(kills.is_empty());
    let response = respond(Outcome::Reloaded { snapshot: state.snapshot(0) });
    assert_eq!(response.message.as_deref(), Some("reloaded config"));
    let lines = snapshot_lines(&response.snapshot.unwrap());
    assert!(lines.iter().any(|l| l.contains("mysql [Failed] box:13306 -> 127.0.0.1:3306")));
}

#[test]
fn auto_start_connections_are_started_and_stopped_ones_are_not() {
    let mut state = AppState::new(ConfigFile {
        connections: vec![
            connection("manual", 1, false, 1),
            connection("auto", 2, true, 1),
            connection("held", 3, true, 1),
        ],
    });
    assert_eq!(state.start_auto_connections(), vec!["auto".to_string(), "held".to_string()]);
    let _ = state.stop_connection("held", 0).unwrap();
    assert_eq!(state.start_auto_connections(), vec!["auto".to_string()]);
    assert_eq!(state.tick(100_000), vec!["auto".to_string()]);
    let _ = state.refresh_connection("held").unwrap();
    assert_eq!(state.tick(100_000), vec!["auto".to_string(), "held".to_string()]);
}

#[test]
fn refresh_kills_then_restarts_and_reports_the_attempt() {
    let mut state = AppState::new(ConfigFile {
        connections: vec![connection("postgres", 15432, true, 5)],
    });
    state.record_spawn("postgres", SpawnOutcome::Started { pid: 11 }, 0);
    let _ = state.stop_connection("postgres", 10).unwrap();
    let kill = state.refresh_connection("postgres").unwrap();
    assert_eq!(kill, None);
    assert!(state.get("postgres").unwrap().start_allowed());
    state.record_spawn("postgres", SpawnOutcome::Failed { error: "no route".to_string() }, 20);
    let status = state.status("postgres", 20).unwrap();
    assert_eq!(status.state, ConnectionState::WaitingToRetry);
    assert!(!status.restart_suppressed);
    assert_eq!(status.last_error.as_deref(), Some("no route"));
    assert_eq!(status.next_retry_in_seconds, Some(5));
    assert_eq!(state.status("postgres", 2500).unwrap().next_retry_in_seconds, Some(2));
}

#[test]
fn stop_lasts_through_ticks_checks_and_unchanged_reloads() {
    let mut state = AppState::new(ConfigFile {
        connections: vec![connection("postgres", 15432, true, 1), connection("redis", 16379, true, 1)],
    });
    state.record_spawn("postgres", SpawnOutcome::Started { pid: 9 }, 0);
    let (_, kill) = state.stop_connection("postgres", 10).unwrap();
    assert_eq!(kill, Some(9));
    state.refresh_runtime("postgres", None, 5000);
    let _ = state.refresh_connection("redis").unwrap();
    assert!(!state.tick(100_000).contains(&"postgres".to_string()));
    let (_, starts) = state.reload(ConfigFile {
        connections: vec![connection("postgres", 15432, true, 1), connection("redis", 16379, true, 1)],
    });
    assert_eq!(starts, vec!["redis".to_string()]);
    let status = state.status("postgres", 200_000).unwrap();
    assert_eq!(status.state, ConnectionState::Stopped);
    assert!(status.restart_suppressed);
    let (_, starts) = state.reload(ConfigFile {
        connections: vec![connection("postgres", 15433, true, 1)],
    });
    assert_eq!(starts, vec!["postgres".to_string()]);
}

#[test]
fn status_request_for_unknown_name_is_refused() {
    let answer = portpal::daemon::status_answer("missing".to_string(), None);
    let response = respond(answer);
    assert!(!response.ok);
    assert_eq!(response.message.as_deref(), Some("unknown connection: missing"));
}
