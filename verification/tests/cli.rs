use portpal::cli::{
    accept_response, debug_header_lines, debug_note_line, debug_status_lines,
    explain_unhealthy_status, find_status, format_process, is_portpal_daemon_command, join_pids,
    parse_daemon_processes, parse_lsof_processes, parse_pid_lines, parse_process_line,
    snapshot_lines, status_line, status_outcome, Command, ConfigCommand, ProcessInfo,
};
use portpal::ipc::{
    AggregateHealth, ConnectionState, ConnectionStatus, PortpalResponse, RequestAction,
    ServiceSnapshot,
};

fn status(state: ConnectionState) -> ConnectionStatus {
    ConnectionStatus {
        name: "docker-http".to_string(),
        ssh_host: "portpal-docker".to_string(),
        local_port: 18080,
        remote_host: "127.0.0.1".to_string(),
        remote_port: 8080,
        auto_start: true,
        reconnect_delay_seconds: 5,
        process_id: Some(123),
        process_alive: false,
        port_reachable: false,
        state,
        restart_suppressed: false,
        last_error: None,
        next_retry_in_seconds: None,
    }
}

fn process(pid: u32, command: &str) -> ProcessInfo {
    ProcessInfo { pid, command: command.to_string() }
}

#[test]
fn parse_process_line_extracts_pid_and_command() {
    let process =
        parse_process_line(" 42524 /opt/homebrew/opt/portpal/bin/portpal serve").unwrap();
    assert_eq!(process.pid, 42524);
    assert_eq!(process.command, "/opt/homebrew/opt/portpal/bin/portpal serve");
}

#[test]
fn daemon_command_detection_ignores_test_helper() {
    assert!(is_portpal_daemon_command("/opt/homebrew/opt/portpal/bin/portpal serve"));
    assert!(is_portpal_daemon_command("./.build/debug/PortpalService serve"));
    assert!(!is_portpal_daemon_command(
        "/Users/frk/dev/portpal/target/debug/portpal-test-ssh -N"
    ));
}

#[test]
fn parse_lsof_processes_extracts_unique_processes() {
    let processes = parse_lsof_processes("p42045\ncssh\np42045\ncssh\np42524\ncportpal\n");
    assert_eq!(
        processes,
        vec![
            ProcessInfo { pid: 42045, command: "ssh".to_string() },
            ProcessInfo { pid: 42524, command: "portpal".to_string() }
        ]
    );
}

#[test]
fn waiting_to_retry_mentions_port_holder_when_present() {
    let mut status = status(ConnectionState::WaitingToRetry);
    status.last_error = Some("ssh process exited".to_string());

    let reason = explain_unhealthy_status(&status, &[process(42045, "ssh")]);

    assert!(reason.contains("ssh process exited"));
    assert!(reason.contains("held by another process"));
}

#[test]
fn starting_mentions_conflicting_listener_pid() {
    let mut status = status(ConnectionState::Starting);
    status.process_id = Some(123);

    let reason = explain_unhealthy_status(&status, &[process(123, "ssh"), process(42045, "ssh")]);

    assert!(reason.contains("42045"));
}

#[test]
fn parse_process_line_rejects_incomplete_lines() {
    assert_eq!(parse_process_line(""), None);
    assert_eq!(parse_process_line("   42524   "), None);
    assert_eq!(parse_process_line("abc portpal serve"), None);
    assert_eq!(parse_process_line("99999999999 portpal serve"), None);
    assert_eq!(parse_process_line("+7\tcmd  with  spaces  "), Some(process(7, "cmd  with  spaces")));
}

#[test]
fn parse_lsof_processes_sorts_by_pid_and_keeps_first_command() {
    let processes = parse_lsof_processes("p9\ncnine\np3\ncthree\np9\ncother\nfskipped\np5\n");
    assert_eq!(processes, vec![process(3, "three"), process(9, "nine")]);

    let processes = parse_lsof_processes("pbad\ncorphan\np4\r\ncfour\r\n");
    assert_eq!(processes, vec![process(4, "four")]);
}

#[test]
fn pid_lines_skip_what_is_not_a_pid() {
    assert_eq!(parse_pid_lines(" 12\nabc\n\n34 \n"), vec![12, 34]);
    assert_eq!(parse_pid_lines(""), Vec::<u32>::new());
}

#[test]
fn daemon_processes_are_read_from_ps_output() {
    let output = "  1 /sbin/launchd\n 42524 /opt/homebrew/opt/portpal/bin/portpal serve\n 77 ./target/debug/portpal-test-ssh portpal serve\n";
    assert_eq!(
        parse_daemon_processes(output),
        vec![process(42524, "/opt/homebrew/opt/portpal/bin/portpal serve")]
    );
}

#[test]
fn unhealthy_reasons_for_every_state() {
    assert_eq!(explain_unhealthy_status(&status(ConnectionState::Healthy), &[]), "healthy");
    assert_eq!(
        explain_unhealthy_status(&status(ConnectionState::Stopped), &[]),
        "restart is suppressed"
    );

    let mut waiting = status(ConnectionState::WaitingToRetry);
    waiting.next_retry_in_seconds = Some(4);
    assert_eq!(explain_unhealthy_status(&waiting, &[]), "waiting 4s before the next retry");
    waiting.next_retry_in_seconds = None;
    assert_eq!(explain_unhealthy_status(&waiting, &[]), "waiting for the next retry");
    waiting.last_error = Some("boom".to_string());
    assert_eq!(explain_unhealthy_status(&waiting, &[]), "waiting to retry because boom");

    let mut starting = status(ConnectionState::Starting);
    assert_eq!(
        explain_unhealthy_status(&starting, &[process(123, "ssh")]),
        "tunnel process is running but the forwarded port is not reachable yet"
    );
    assert_eq!(
        explain_unhealthy_status(&starting, &[process(5, "a"), process(123, "ssh"), process(6, "b")]),
        "tunnel process is running but the local port is held by 5, 6"
    );
    starting.last_error = Some("slow".to_string());
    assert_eq!(
        explain_unhealthy_status(&starting, &[]),
        "tunnel process is starting; last error: slow"
    );

    let mut failed = status(ConnectionState::Failed);
    assert_eq!(explain_unhealthy_status(&failed, &[]), "failed for an unknown reason");
    assert_eq!(
        explain_unhealthy_status(&failed, &[process(1, "x")]),
        "failed and the local port is held by another process"
    );
    failed.last_error = Some("no route".to_string());
    assert_eq!(explain_unhealthy_status(&failed, &[]), "failed because no route");
    assert_eq!(
        explain_unhealthy_status(&failed, &[process(1, "x")]),
        "failed because no route; local port is held by another process"
    );
}

#[test]
fn status_lines_show_retry_and_error() {
    let mut st = status(ConnectionState::WaitingToRetry);
    assert_eq!(status_line(&st), "docker-http [WaitingToRetry] portpal-docker:18080 -> 127.0.0.1:8080");
    st.next_retry_in_seconds = Some(3);
    st.last_error = Some("ssh process exited".to_string());
    assert_eq!(
        status_line(&st),
        "docker-http [WaitingToRetry] portpal-docker:18080 -> 127.0.0.1:8080, retry in 3s, error: ssh process exited"
    );
}

#[test]
fn snapshot_lines_for_empty_and_listed() {
    let empty = ServiceSnapshot { connections: vec![], aggregate_health: AggregateHealth::Empty };
    assert_eq!(snapshot_lines(&empty), vec!["No configured connections.".to_string()]);
    let one = ServiceSnapshot {
        connections: vec![status(ConnectionState::Failed)],
        aggregate_health: AggregateHealth::NoneHealthy,
    };
    assert_eq!(
        snapshot_lines(&one),
        vec!["docker-http [Failed] portpal-docker:18080 -> 127.0.0.1:8080".to_string()]
    );
}

#[test]
fn debug_report_lines() {
    let header = debug_header_lines("/c", "/s", &vec![], &vec![]);
    assert_eq!(header, vec!["Config: /c", "Socket: /s", "Daemons: none", "Socket owners: none"]);
    let header = debug_header_lines("/c", "/s", &vec![process(1, "portpal serve")], &vec![1, 2]);
    assert_eq!(
        header,
        vec!["Config: /c", "Socket: /s", "Daemons: 1 (pid 1 (portpal serve))", "Socket owners: 1, 2"]
    );
    let header = debug_header_lines("/c", "/s", &vec![process(1, "a"), process(2, "b")], &vec![]);
    assert_eq!(
        header,
        vec!["Config: /c", "Socket: /s", "Daemons: 2", "- pid 1 (a)", "- pid 2 (b)", "Socket owners: none"]
    );

    let mut healthy = status(ConnectionState::Healthy);
    healthy.process_id = None;
    assert_eq!(
        debug_status_lines(&healthy, &[]),
        vec!["- docker-http: Healthy (pid: none, local port: 18080)", "  healthy"]
    );
    let failed = status(ConnectionState::Failed);
    assert_eq!(
        debug_status_lines(&failed, &[process(9, "nc")]),
        vec![
            "- docker-http: Failed (pid: 123, local port: 18080)",
            "  failed and the local port is held by another process",
            "  listeners on 18080: pid 9 (nc)"
        ]
    );
    assert_eq!(debug_note_line("db", true), "- db: missing from daemon snapshot");
    assert_eq!(debug_note_line("db", false), "- db: unable to query daemon status");
    assert_eq!(format_process(&process(42, "ssh -N")), "pid 42 (ssh -N)");
    assert_eq!(join_pids(&vec![]), "");
}

#[test]
fn find_status_takes_the_first_with_the_name() {
    let mut a = status(ConnectionState::Failed);
    a.name = "a".to_string();
    let b = status(ConnectionState::Failed);
    assert_eq!(find_status(&vec![a, b], "docker-http"), Some(1));
    assert_eq!(find_status(&vec![], "x"), None);
}

#[test]
fn commands_send_the_matching_request() {
    let request = Command::Status { name: "db".to_string() }.request().unwrap();
    assert_eq!(request.action, RequestAction::Status);
    assert_eq!(request.name.as_deref(), Some("db"));
    assert_eq!(Command::List.request().unwrap().action, RequestAction::List);
    assert!(Command::Serve.request().is_none());
    assert!(Command::Config { command: ConfigCommand::Init }.request().is_none());
}

#[test]
fn responses_and_status_outcomes() {
    let failed = PortpalResponse { ok: false, message: None, snapshot: None, status: None, config_path: None };
    assert_eq!(accept_response(failed).unwrap_err(), "request failed");
    let failed = PortpalResponse {
        ok: false,
        message: Some("unknown connection: missing".to_string()),
        snapshot: None,
        status: None,
        config_path: None,
    };
    assert_eq!(accept_response(failed).unwrap_err(), "unknown connection: missing");
    let ok = PortpalResponse { ok: true, message: None, snapshot: None, status: None, config_path: Some("/x".to_string()) };
    assert_eq!(accept_response(ok).unwrap().config_path.as_deref(), Some("/x"));

    let mut st = status(ConnectionState::Stopped);
    st.name = "postgres".to_string();
    assert_eq!(status_outcome(&st).unwrap_err(), "postgres is Stopped");
    st.state = ConnectionState::Healthy;
    assert!(status_outcome(&st).is_ok());
}

#[test]
fn padded_ps_line_reads_back_pid_and_command() {
    assert_eq!(parse_process_line("  42   ssh -N box "), Some(process(42, "ssh -N box")));
    assert_eq!(parse_process_line(" 42524 "), None);
}

#[test]
fn debug_connections_heading() {
    assert_eq!(portpal::cli::debug_heading_line(true, true), "Connections:");
    assert_eq!(portpal::cli::debug_heading_line(true, false), "Connections: none configured");
    assert_eq!(portpal::cli::debug_heading_line(false, true), "Connections: daemon unavailable");
}
