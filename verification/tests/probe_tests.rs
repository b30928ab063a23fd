use dmpool::health::{ComponentStatus, HealthStatus};
use dmpool::probe::{
    database_status, invalid_rpc_url, invalid_zmq_url, resident_memory_mb, rpc_endpoint,
    rpc_status, trial_store_path, zmq_endpoint, zmq_status, ConnectOutcome, DatabaseProbe,
};
use dmpool::scan::{find_from, parse_decimal, to_chars};

fn component_json(c: &ComponentStatus) -> serde_json::Value {
    let mut fields = serde_json::Map::new();
    fields.insert("status".to_string(), serde_json::Value::String(c.status.clone()));
    fields.insert("message".to_string(), serde_json::Value::String(c.message.clone()));
    fields.insert(
        "latency_ms".to_string(),
        match c.latency_ms {
            Some(ms) => serde_json::Value::from(ms),
            None => serde_json::Value::Null,
        },
    );
    serde_json::Value::Object(fields)
}

fn std_rpc_endpoint(url: &str) -> Option<String> {
    let parts: Vec<&str> = url.split("://").collect();
    if parts.len() != 2 {
        return None;
    }
    Some(parts[1].split('/').next().unwrap_or("127.0.0.1:8332").to_string())
}

fn std_zmq_endpoint(url: &str) -> Option<String> {
    let parts: Vec<&str> = url.split("://").collect();
    if parts.len() != 2 || parts[0] != "tcp" {
        return None;
    }
    Some(parts[1].to_string())
}

fn std_resident_mb(content: &str) -> Option<u64> {
    for line in content.lines() {
        if line.starts_with("VmRSS:") {
            let parts: Vec<&str> = line.split_whitespace().collect();
            if parts.len() >= 2 {
                let kb: u64 = parts[1].parse().ok()?;
                return Some(kb / 1024);
            }
        }
    }
    None
}

#[test]
fn test_health_status_serialization() {
    let status = HealthStatus {
        status: "healthy".to_string(),
        database: ComponentStatus::healthy(),
        bitcoin_rpc: ComponentStatus::unhealthy("RPC down"),
        zmq: ComponentStatus::healthy(),
        uptime_seconds: 3600,
        active_connections: 5,
        last_block_height: Some(800000),
        memory_mb: Some(512),
    };
    let mut fields = serde_json::Map::new();
    fields.insert("status".to_string(), serde_json::Value::String(status.status.clone()));
    fields.insert("database".to_string(), component_json(&status.database));
    fields.insert("bitcoin_rpc".to_string(), component_json(&status.bitcoin_rpc));
    fields.insert("zmq".to_string(), component_json(&status.zmq));
    fields.insert("uptime_seconds".to_string(), serde_json::Value::from(status.uptime_seconds));
    fields.insert(
        "active_connections".to_string(),
        serde_json::Value::from(status.active_connections),
    );
    fields.insert(
        "last_block_height".to_string(),
        serde_json::Value::from(status.last_block_height),
    );
    fields.insert("memory_mb".to_string(), serde_json::Value::from(status.memory_mb));

    let json = serde_json::to_string(&serde_json::Value::Object(fields)).unwrap();
    assert!(json.contains("healthy"));
    assert!(json.contains("800000"));
}

#[test]
fn rpc_endpoint_is_the_authority_of_the_url() {
    assert_eq!(rpc_endpoint("http://127.0.0.1:8332"), Some("127.0.0.1:8332".to_string()));
    assert_eq!(rpc_endpoint("https://node.example:8332/wallet/a"), Some("node.example:8332".to_string()));
    assert_eq!(rpc_endpoint("http:///only/path"), Some("".to_string()));
    assert_eq!(rpc_endpoint("://"), Some("".to_string()));
    assert_eq!(rpc_endpoint("127.0.0.1:8332"), None);
    assert_eq!(rpc_endpoint("http://a://b"), None);
    assert_eq!(rpc_endpoint(""), None);
}

#[test]
fn zmq_endpoint_needs_the_tcp_scheme() {
    assert_eq!(zmq_endpoint("tcp://127.0.0.1:28332"), Some("127.0.0.1:28332".to_string()));
    assert_eq!(zmq_endpoint("tcp://host:1/x"), Some("host:1/x".to_string()));
    assert_eq!(zmq_endpoint("ipc://127.0.0.1:28332"), None);
    assert_eq!(zmq_endpoint("tcp:/127.0.0.1:28332"), None);
    assert_eq!(zmq_endpoint("tcp://a://b"), None);
    assert_eq!(zmq_endpoint("TCP://a"), None);
}

#[test]
fn endpoints_agree_with_splitting_by_the_standard_library() {
    let urls = [
        "http://127.0.0.1:8332",
        "tcp://127.0.0.1:28332",
        "tcp://",
        "://x",
        ":/:///",
        "a:///b://",
        "::////",
        "tcp://h\u{e9}te:1/\u{4e2d}",
        "no separator",
        "x://y://z",
        ":// ://",
        "tcp:://a",
        "",
    ];
    for url in urls {
        assert_eq!(rpc_endpoint(url), std_rpc_endpoint(url), "rpc {:?}", url);
        assert_eq!(zmq_endpoint(url), std_zmq_endpoint(url), "zmq {:?}", url);
    }
}

#[test]
fn statuses_follow_the_outcome_of_the_connection() {
    let failed = ConnectOutcome::Failed { cause: "connection refused".to_string() };
    assert_eq!(
        rpc_status("127.0.0.1:8332", &ConnectOutcome::Connected, 12),
        ComponentStatus {
            status: "healthy".to_string(),
            message: "Connected to 127.0.0.1:8332".to_string(),
            latency_ms: Some(12),
        }
    );
    assert_eq!(
        rpc_status("127.0.0.1:8332", &failed, 3),
        ComponentStatus {
            status: "unhealthy".to_string(),
            message: "Connection failed: connection refused".to_string(),
            latency_ms: Some(3),
        }
    );
    assert_eq!(
        rpc_status("127.0.0.1:8332", &ConnectOutcome::TimedOut, 4999),
        ComponentStatus {
            status: "unhealthy".to_string(),
            message: "Connection timeout (5s)".to_string(),
            latency_ms: Some(5000),
        }
    );
    assert_eq!(
        zmq_status("127.0.0.1:28332", &ConnectOutcome::Connected),
        ComponentStatus {
            status: "healthy".to_string(),
            message: "ZMQ listening on 127.0.0.1:28332".to_string(),
            latency_ms: None,
        }
    );
    assert_eq!(
        zmq_status("127.0.0.1:28332", &failed),
        ComponentStatus::unhealthy("ZMQ connection failed: connection refused")
    );
    assert_eq!(
        zmq_status("127.0.0.1:28332", &ConnectOutcome::TimedOut),
        ComponentStatus::unhealthy("ZMQ connection timeout (2s)")
    );
    assert_eq!(invalid_rpc_url(), ComponentStatus::unhealthy("Invalid RPC URL format"));
    assert_eq!(
        invalid_zmq_url(),
        ComponentStatus::unhealthy("Invalid ZMQ URL format (expected tcp://host:port)")
    );
}

#[test]
fn database_status_follows_the_probe() {
    assert_eq!(
        database_status(&DatabaseProbe::Attached, 2),
        ComponentStatus {
            status: "healthy".to_string(),
            message: "Database operational".to_string(),
            latency_ms: Some(2),
        }
    );
    assert_eq!(
        database_status(&DatabaseProbe::Opened, 40),
        ComponentStatus {
            status: "healthy".to_string(),
            message: "Database operational (temporary check)".to_string(),
            latency_ms: Some(40),
        }
    );
    assert_eq!(
        database_status(&DatabaseProbe::Failed { cause: "lock held".to_string() }, 7),
        ComponentStatus {
            status: "unhealthy".to_string(),
            message: "Database error: lock held".to_string(),
            latency_ms: Some(7),
        }
    );
    assert_eq!(trial_store_path("/var/lib/pool/store"), "/var/lib/pool/store_health_check");
}

#[test]
fn resident_memory_is_read_from_the_status_text() {
    let text = "Name:\tdmpool\nVmPeak:\t  300000 kB\nVmRSS:\t  123456 kB\nThreads:\t9\n";
    assert_eq!(resident_memory_mb(text), Some(120));
    assert_eq!(resident_memory_mb("VmRSS:\t1023 kB"), Some(0));
    assert_eq!(resident_memory_mb("VmRSS:\t1024 kB"), Some(1));
    assert_eq!(resident_memory_mb("VmRSS: +2048"), Some(2));
    assert_eq!(resident_memory_mb("VmRSS: 18446744073709551615 kB"), Some(18014398509481983));
}

#[test]
fn resident_memory_is_none_where_the_text_does_not_give_it() {
    assert_eq!(resident_memory_mb(""), None);
    assert_eq!(resident_memory_mb("Name:\tdmpool\nVmSize:\t5 kB\n"), None);
    assert_eq!(resident_memory_mb("VmRSS: lots kB\nVmRSS: 2048 kB\n"), None);
    assert_eq!(resident_memory_mb("VmRSS: 18446744073709551616 kB"), None);
    assert_eq!(resident_memory_mb("VmRSS: -5 kB"), None);
    assert_eq!(resident_memory_mb("VmRSS:5 kB\n"), None);
    assert_eq!(resident_memory_mb(" VmRSS: 2048 kB\n"), None);
}

#[test]
fn resident_memory_skips_a_keyed_line_with_one_field() {
    assert_eq!(resident_memory_mb("VmRSS:\nVmRSS:   \nVmRSS: 4096 kB\n"), Some(4));
    assert_eq!(resident_memory_mb("VmRSS:7\r\nVmRSS:\t8192\r\n"), Some(8));
}

#[test]
fn resident_memory_agrees_with_the_standard_library() {
    let texts = [
        "Name:\tdmpool\nVmRSS:\t  123456 kB\n",
        "VmRSS:\n\nVmRSS: 1 2 3\n",
        "VmRSS:\u{b}77\u{c}kB",
        "VmRSS: 007\n",
        "VmRSS: +\n",
        "VmRSS: ++1\n",
        "VmRSS: 1_000\n",
        "vmrss: 5\nVmRSS: 2048",
        "VmRSS: 99999999999999999999999999 kB\nVmRSS: 1 kB",
        "\n\n\nVmRSS:\t4194304 kB",
        "VmRSS",
        "x\nVmRSS: 5000",
    ];
    for text in texts {
        assert_eq!(resident_memory_mb(text), std_resident_mb(text), "{:?}", text);
    }
}

#[test]
fn scanning_finds_the_first_occurrence() {
    let text = to_chars("a://b://c");
    let sep = to_chars("://");
    assert_eq!(text.len(), 9);
    assert_eq!(find_from(&text, &sep, 0), Some(1));
    assert_eq!(find_from(&text, &sep, 1), Some(1));
    assert_eq!(find_from(&text, &sep, 2), Some(5));
    assert_eq!(find_from(&text, &sep, 6), None);
    assert_eq!(find_from(&text, &sep, 40), None);
    assert_eq!(find_from(&sep, &text, 0), None);
}

#[test]
fn decimal_fields_are_read_exactly() {
    let text = to_chars("x+42 0 18446744073709551615 18446744073709551616 4a");
    assert_eq!(parse_decimal(&text, 1, 4), Some(42));
    assert_eq!(parse_decimal(&text, 2, 4), Some(42));
    assert_eq!(parse_decimal(&text, 5, 6), Some(0));
    assert_eq!(parse_decimal(&text, 7, 27), Some(u64::MAX));
    assert_eq!(parse_decimal(&text, 28, 48), None);
    assert_eq!(parse_decimal(&text, 49, 51), None);
    assert_eq!(parse_decimal(&text, 1, 2), None);
    assert_eq!(parse_decimal(&text, 3, 3), None);
}
