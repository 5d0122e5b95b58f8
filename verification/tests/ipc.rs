use portpal::ipc::{aggregate_health, AggregateHealth, ConnectionState, ConnectionStatus};

fn status(state: ConnectionState) -> ConnectionStatus {
    ConnectionStatus {
        name: "db".to_string(),
        ssh_host: "box".to_string(),
        local_port: 15432,
        remote_host: "127.0.0.1".to_string(),
        remote_port: 5432,
        auto_start: true,
        reconnect_delay_seconds: 10,
        process_id: None,
        process_alive: false,
        port_reachable: false,
        state,
        restart_suppressed: false,
        last_error: None,
        next_retry_in_seconds: None,
    }
}

#[test]
fn aggregate_is_empty_for_no_connections() {
    let aggregate = aggregate_health(&[]);
    assert_eq!(aggregate, AggregateHealth::Empty);
}

#[test]
fn aggregate_is_all_healthy_when_every_connection_is_healthy() {
    let aggregate = aggregate_health(&[
        status(ConnectionState::Healthy),
        status(ConnectionState::Healthy),
    ]);

    assert_eq!(aggregate, AggregateHealth::AllHealthy);
}

#[test]
fn aggregate_is_none_healthy_when_no_connections_are_healthy() {
    let aggregate = aggregate_health(&[
        status(ConnectionState::Starting),
        status(ConnectionState::Failed),
    ]);

    assert_eq!(aggregate, AggregateHealth::NoneHealthy);
}

#[test]
fn aggregate_is_mixed_when_some_are_healthy() {
    let aggregate = aggregate_health(&[
        status(ConnectionState::Healthy),
        status(ConnectionState::Failed),
    ]);

    assert_eq!(aggregate, AggregateHealth::Mixed);
}

#[test]
fn aggregate_of_a_single_connection() {
    assert_eq!(aggregate_health(&[status(ConnectionState::Healthy)]), AggregateHealth::AllHealthy);
    assert_eq!(aggregate_health(&[status(ConnectionState::Stopped)]), AggregateHealth::NoneHealthy);
}
