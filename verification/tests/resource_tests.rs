use kasmctl::models::{Server, Session, SessionImage, Zone};
use kasmctl::resource::Resource;

/// A fixed stand-in for the current wall-clock time in tests.
const NOW: u64 = 1_750_000_000;

#[test]
fn resource_name_is_session() {
    assert_eq!(Session::resource_name(), "Session");
}

#[test]
fn session_table_headers_are_correct() {
    assert_eq!(
        Session::table_headers(),
        vec!["KASM ID", "STATUS", "IMAGE", "USER", "AGE"]
    );
}

#[test]
fn session_table_row_shortens_id_and_prefers_friendly_image_name() {
    let session = Session {
        kasm_id: "550e8400-e29b-41d4".into(),
        operational_status: Some("running".into()),
        image: Some(SessionImage {
            friendly_name: Some("Ubuntu".into()),
            name: Some("kasmweb/ubuntu".into()),
        }),
        image_id: Some("img-1".into()),
        username: Some("alice".into()),
        created_date: None,
        ..Default::default()
    };
    let row = session.table_row(NOW);
    assert_eq!(row, vec!["550e8400", "running", "Ubuntu", "alice", ""]);
}

#[test]
fn session_table_row_falls_back_to_image_id() {
    let session = Session {
        kasm_id: "abc".into(),
        image: None,
        image_id: Some("img-9".into()),
        ..Default::default()
    };
    let row = session.table_row(NOW);
    assert_eq!(row[2], "img-9");
}

#[test]
fn session_table_row_renders_age_from_created_date() {
    let session = Session {
        kasm_id: "abc".into(),
        created_date: Some("2024-01-15 12:30:45".into()),
        ..Default::default()
    };
    let row = session.table_row(1705321845 + 7200);
    assert_eq!(row[4], "2h ago");
}

#[test]
fn session_table_detail_has_all_labels() {
    let expected_labels = vec![
        "KASM ID",
        "STATUS",
        "IMAGE",
        "IMAGE ID",
        "USERNAME",
        "USER ID",
        "HOSTNAME",
        "SERVER ID",
        "CONTAINER ID",
        "SHARE ID",
        "KASM URL",
        "STARTED",
        "KEEPALIVE",
        "CREATED",
        "EXPIRES",
    ];
    let session = Session {
        kasm_id: "test-id".into(),
        ..Default::default()
    };
    let detail = session.table_detail(NOW);
    let labels: Vec<&str> = detail.iter().map(|(k, _)| *k).collect();
    assert_eq!(labels, expected_labels);
}

#[test]
fn session_table_detail_contains_field_values() {
    let session = Session {
        kasm_id: "abc-123".into(),
        user_id: Some("user-456".into()),
        image_id: Some("img-789".into()),
        username: Some("alice".into()),
        share_id: Some("share-001".into()),
        kasm_url: Some("https://kasm.example.com/session".into()),
        created_date: Some("2026-01-01 00:00:00".into()),
        expiration_date: Some("2026-01-02 00:00:00".into()),
        hostname: Some("kasm-host-01".into()),
        server_id: Some("server-abc".into()),
        keepalive_date: Some("2026-01-01 12:00:00".into()),
        start_date: Some("2026-01-01 00:05:00".into()),
        operational_status: Some("running".into()),
        container_id: Some("container-xyz".into()),
        image: None,
    };
    let detail = session.table_detail(NOW);
    let lookup = |label: &str| {
        detail
            .iter()
            .find(|(k, _)| *k == label)
            .map(|(_, v)| v.clone())
            .unwrap()
    };
    assert_eq!(lookup("KASM ID"), "abc-123");
    assert_eq!(lookup("STATUS"), "running");
    assert_eq!(lookup("IMAGE ID"), "img-789");
    assert_eq!(lookup("USERNAME"), "alice");
    assert_eq!(lookup("USER ID"), "user-456");
    assert_eq!(lookup("HOSTNAME"), "kasm-host-01");
    assert_eq!(lookup("SERVER ID"), "server-abc");
    assert_eq!(lookup("CONTAINER ID"), "container-xyz");
    assert_eq!(lookup("SHARE ID"), "share-001");
    assert_eq!(lookup("KASM URL"), "https://kasm.example.com/session");
    assert_eq!(lookup("STARTED"), "2026-01-01 00:05:00");
    assert_eq!(lookup("KEEPALIVE"), "2026-01-01 12:00:00");
    assert_eq!(lookup("CREATED"), "2026-01-01 00:00:00");
    assert_eq!(lookup("EXPIRES"), "2026-01-02 00:00:00");
}

#[test]
fn server_table_row_renders_counts_and_flags() {
    let server = Server {
        server_id: "0123456789abcdef".into(),
        friendly_name: Some("Node A".into()),
        hostname: Some("node-a".into()),
        enabled: Some(true),
        connection_type: Some("ssh".into()),
        connection_port: Some(22),
        connection_username: None,
        connection_info: None,
        max_simultaneous_sessions: Some(12),
        max_simultaneous_users: None,
        zone_id: None,
        pool_id: None,
    };
    assert_eq!(Server::resource_name(), "Server");
    assert_eq!(
        Server::table_headers(),
        vec!["SERVER ID", "NAME", "HOSTNAME", "TYPE", "ENABLED", "SESSIONS"]
    );
    let row = server.table_row(NOW);
    assert_eq!(row, vec!["01234567", "Node A", "node-a", "ssh", "true", "12"]);
    let detail = server.table_detail(NOW);
    assert_eq!(detail[0], ("SERVER ID", "0123456789abcdef".to_string()));
    assert_eq!(detail[5], ("CONNECTION PORT", "22".to_string()));
    assert_eq!(detail[9], ("MAX SIMULTANEOUS USERS", "".to_string()));
}

#[test]
fn zone_table_row_renders_names_and_proxy_flag() {
    let zone = Zone {
        zone_id: "zone-0001-abcd".into(),
        zone_name: Some("default".into()),
        allow_origin_domain: None,
        upstream_auth_address: None,
        load_balancing_strategy: Some("fill".into()),
        search_alternate_zones: Some(false),
        prioritize_static_agents: None,
        proxy_connections: Some(true),
        proxy_hostname: None,
        proxy_path: None,
        proxy_port: Some(443),
    };
    assert_eq!(Zone::resource_name(), "Zone");
    assert_eq!(
        Zone::table_headers(),
        vec!["ZONE ID", "NAME", "LOAD BALANCING", "PROXY"]
    );
    let row = zone.table_row(NOW);
    assert_eq!(row, vec!["zone-000", "default", "fill", "true"]);
    let detail = zone.table_detail(NOW);
    assert_eq!(detail[5], ("SEARCH ALTERNATE ZONES", "false".to_string()));
    assert_eq!(detail[10], ("PROXY PORT", "443".to_string()));
}
