use dmpool::health::{overall_status, ComponentStatus, HealthStatus};

#[test]
fn test_component_status_creation() {
    let status = ComponentStatus::healthy();
    assert_eq!(status.status, "healthy");
    assert_eq!(status.message, "OK");

    let with_latency = status.with_latency(42);
    assert_eq!(with_latency.latency_ms, Some(42));

    let with_msg = with_latency.with_message("Test");
    assert_eq!(with_msg.message, "Test");
}

#[test]
fn test_component_status_unhealthy() {
    let status = ComponentStatus::unhealthy("Test error");
    assert_eq!(status.status, "unhealthy");
    assert_eq!(status.message, "Test error");
}

#[test]
fn overall_status_is_healthy_only_when_all_are() {
    let ok = ComponentStatus::healthy();
    let bad = ComponentStatus::unhealthy("down");
    let odd = ComponentStatus::healthy().with_message("warming up");
    let mut starting = odd.clone();
    starting.status = "starting".to_string();
    assert_eq!(overall_status(&ok, &ok, &ok), "healthy");
    assert_eq!(overall_status(&ok, &bad, &ok), "unhealthy");
    assert_eq!(overall_status(&starting, &ok, &bad), "unhealthy");
    assert_eq!(overall_status(&ok, &starting, &ok), "degraded");
}

#[test]
fn assembled_report_hides_a_zero_block_height() {
    let report = HealthStatus::assemble(
        ComponentStatus::healthy(),
        ComponentStatus::unhealthy("RPC down"),
        ComponentStatus::healthy(),
        3600,
        0,
        Some(512),
    );
    assert_eq!(report.status, "unhealthy");
    assert_eq!(report.uptime_seconds, 3600);
    assert_eq!(report.active_connections, 0);
    assert_eq!(report.last_block_height, None);
    assert_eq!(report.memory_mb, Some(512));
    let seen = HealthStatus::assemble(
        ComponentStatus::healthy(),
        ComponentStatus::healthy(),
        ComponentStatus::healthy(),
        1,
        800000,
        None,
    );
    assert_eq!(seen.status, "healthy");
    assert_eq!(seen.last_block_height, Some(800000));
}

#[test]
fn answers_carry_data_or_a_message() {
    let good = dmpool::api::ApiResponse::ok(7u32, 1_700_000_000);
    assert_eq!(good.status, "ok");
    assert_eq!(good.data, Some(7));
    assert_eq!(good.message, None);
    assert_eq!(good.timestamp, 1_700_000_000);
    let bad = dmpool::api::ApiResponse::<u32>::error("Failed to list backups: denied", 5);
    assert_eq!(bad.status, "error");
    assert_eq!(bad.data, None);
    assert_eq!(bad.message, Some("Failed to list backups: denied".to_string()));
    assert_eq!(bad.timestamp, 5);
}
