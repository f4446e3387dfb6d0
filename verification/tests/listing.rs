use ecal_mcp::codec::hex_prefix;
use ecal_mcp::entries::{
    datatype_information, transport_kind, ClientEntry, DataTypeInformation, Direction,
    ProcessEntry, ServiceEntry, TopicEntry,
};
use ecal_mcp::hosts::build_hosts;
use ecal_mcp::listing::{name_matches, ListFilter};
use ecal_mcp::logs::{filter_logs, level_priority, parse_min_level, GetLogsArgs};
use ecal_mcp::monitoring::{
    ClientInfo, DataTypeInfo, LogLevel, LogMessage, MethodInfo, MonitoringSnapshot, ProcessInfo,
    ServerInfo, TopicInfo, TransportLayer, TransportLayerType,
};
use ecal_mcp::server::{EcalServer, GetMonitoringArgs};

fn entry(host: &str, domain: &str, direction: Direction) -> TopicEntry {
    TopicEntry {
        topic_name: String::new(),
        direction,
        datatype_information: DataTypeInformation {
            name: String::new(),
            encoding: String::new(),
            descriptor_len: 0,
            descriptor_fingerprint: None,
            descriptor_base64: None,
        },
        host_name: host.into(),
        shm_transport_domain: domain.into(),
        process_id: 0,
        process_name: String::new(),
        unit_name: String::new(),
        topic_id: 0,
        connections_local: 0,
        connections_external: 0,
        message_drops: 0,
        registered_data_frequency_mhz: 0,
        data_clock: 0,
        registration_clock: 0,
        transport_layer: vec![],
    }
}

fn data_type(name: &str, descriptor: Vec<u8>) -> DataTypeInfo {
    DataTypeInfo {
        name: name.into(),
        encoding: "proto".into(),
        descriptor,
    }
}

fn topic(host: &str, name: &str, type_label: &str) -> TopicInfo {
    TopicInfo {
        registration_clock: 11,
        host_name: host.into(),
        shm_transport_domain: format!("{host}-shm"),
        process_id: 12,
        process_name: "/bin/p".into(),
        unit_name: "unit".into(),
        topic_id: 13,
        topic_name: name.into(),
        data_type: data_type(type_label, vec![1, 2, 3, 4]),
        transport_layers: vec![
            TransportLayer { transport_type: TransportLayerType::Shm, version: 2, active: true },
            TransportLayer {
                transport_type: TransportLayerType::Unknown(-9),
                version: 0,
                active: false,
            },
        ],
        connections_local: 14,
        connections_external: 15,
        message_drops: 16,
        data_clock: 17,
        data_frequency: 18_000,
    }
}

fn process(host: &str, unit: &str, name: &str, version: &str, domain: &str) -> ProcessInfo {
    ProcessInfo {
        host_name: host.into(),
        shm_transport_domain: domain.into(),
        process_id: 3,
        process_name: name.into(),
        unit_name: unit.into(),
        state_severity: 1,
        state_severity_level: 2,
        state_info: "ok".into(),
        runtime_version: version.into(),
        config_file_path: "/etc/ecal.yaml".into(),
    }
}

fn sample_snapshot() -> MonitoringSnapshot {
    MonitoringSnapshot {
        processes: vec![
            process("h1", "Camera", "/bin/cam", "6.1.1", "d1"),
            process("h3", "lidar", "/bin/CAMERA", "", ""),
        ],
        publishers: vec![topic("h1", "/Robot/IMU", "pb.Imu"), topic("h2", "/robot/gps", "pb.Gps")],
        subscribers: vec![topic("h2", "/robot/imu", "pb.Imu")],
        servers: vec![ServerInfo {
            host_name: "h1".into(),
            process_name: "/bin/s".into(),
            unit_name: "srv".into(),
            process_id: 5,
            service_name: "Planner".into(),
            service_id: 6,
            version: 1,
            tcp_port_v0: 7,
            tcp_port_v1: 8,
            methods: vec![MethodInfo {
                method_name: "plan".into(),
                request_type: data_type("Req", vec![1]),
                response_type: data_type("Res", vec![]),
                call_count: 9,
            }],
        }],
        clients: vec![ClientInfo {
            host_name: "h4".into(),
            process_name: "/bin/c".into(),
            unit_name: "cli".into(),
            process_id: 5,
            service_name: "planner".into(),
            service_id: 6,
            version: 1,
            methods: vec![],
        }],
    }
}

fn by_name(pattern: &str) -> ListFilter {
    ListFilter {
        name_pattern: Some(pattern.into()),
        type_name_pattern: None,
        include_descriptors: None,
    }
}

#[test]
fn build_hosts_aggregates_counts_and_domains() {
    let pubs = vec![entry("alpha", "alpha", Direction::Publisher)];
    let subs = vec![entry("beta", "beta", Direction::Subscriber)];
    let services = vec![ServiceEntry {
        service_name: "svc".into(),
        service_id: 1,
        host_name: "alpha".into(),
        process_id: 0,
        process_name: String::new(),
        unit_name: String::new(),
        version: 1,
        tcp_port_v0: 0,
        tcp_port_v1: 0,
        methods: vec![],
    }];
    let clients: Vec<ClientEntry> = vec![];
    let processes = vec![ProcessEntry {
        host_name: "alpha".into(),
        process_id: 0,
        process_name: String::new(),
        unit_name: String::new(),
        state_severity: 0,
        state_severity_level: 1,
        state_info: String::new(),
        runtime_version: "6.1.1".into(),
        config_file_path: String::new(),
    }];
    let hosts = build_hosts(&pubs, &subs, &services, &clients, &processes, &[]);
    let alpha = hosts.iter().find(|h| h.host_name == "alpha").unwrap();
    assert_eq!(alpha.publisher_count, 1);
    assert_eq!(alpha.subscriber_count, 0);
    assert_eq!(alpha.server_count, 1);
    assert_eq!(alpha.process_count, 1);
    assert_eq!(alpha.runtime_versions, vec!["6.1.1".to_string()]);
    let beta = hosts.iter().find(|h| h.host_name == "beta").unwrap();
    assert_eq!(beta.subscriber_count, 1);
    assert_eq!(beta.process_count, 0);
}

#[test]
fn build_hosts_includes_shm_domain_from_raw_process_only() {
    let raw = vec![ProcessInfo {
        host_name: "gamma".into(),
        shm_transport_domain: "gamma_shm_dom".into(),
        process_id: 42,
        process_name: "/proc/42".into(),
        unit_name: "unit_42".into(),
        state_severity: 0,
        state_severity_level: 1,
        state_info: String::new(),
        runtime_version: "6.1.1".into(),
        config_file_path: String::new(),
    }];
    let processes = vec![ProcessEntry {
        host_name: "gamma".into(),
        process_id: 42,
        process_name: "/proc/42".into(),
        unit_name: "unit_42".into(),
        state_severity: 0,
        state_severity_level: 1,
        state_info: String::new(),
        runtime_version: "6.1.1".into(),
        config_file_path: String::new(),
    }];
    let hosts = build_hosts(&[], &[], &[], &[], &processes, &raw);
    let g = hosts.iter().find(|h| h.host_name == "gamma").unwrap();
    assert_eq!(g.shm_transport_domains, vec!["gamma_shm_dom".to_string()]);
    assert_eq!(g.process_count, 1);
}

#[test]
fn build_hosts_orders_and_deduplicates() {
    let pubs = vec![
        entry("b", "y", Direction::Publisher),
        entry("b", "x", Direction::Publisher),
        entry("b", "y", Direction::Publisher),
        entry("a", "", Direction::Publisher),
    ];
    let raw = vec![process("a", "u", "p", "", ""), process("c", "u", "p", "", "")];
    let hosts = build_hosts(&pubs, &[], &[], &[], &[], &raw);
    let names: Vec<&str> = hosts.iter().map(|h| h.host_name.as_str()).collect();
    assert_eq!(names, vec!["a", "b", "c"]);
    assert_eq!(hosts[0].shm_transport_domains, vec![""]);
    assert_eq!(hosts[1].shm_transport_domains, vec!["x", "y"]);
    assert_eq!(hosts[1].publisher_count, 3);
    assert!(hosts[2].shm_transport_domains.is_empty());
    assert_eq!(hosts[2].process_count, 0);
    assert_eq!(hosts.iter().map(|h| h.publisher_count).sum::<usize>(), pubs.len());
}

#[test]
fn descriptor_fingerprint_is_first_16_hex_of_sha256() {
    let info = DataTypeInfo {
        name: "Foo".into(),
        encoding: "proto".into(),
        descriptor: vec![1, 2, 3, 4],
    };
    let dt = datatype_information(&info, false);
    assert_eq!(dt.descriptor_len, 4);
    let fp = dt.descriptor_fingerprint.expect("fingerprint must be set");
    assert_eq!(fp.len(), 16);
    assert!(fp.chars().all(|c| c.is_ascii_hexdigit()));
    assert_eq!(fp, "9f64a747e1b97f13");

    let empty = DataTypeInfo {
        name: String::new(),
        encoding: String::new(),
        descriptor: vec![],
    };
    let dt = datatype_information(&empty, false);
    assert!(dt.descriptor_fingerprint.is_none());
}

#[test]
fn descriptors_are_shown_on_demand() {
    let info = data_type("Foo", vec![1, 2, 3, 4]);
    assert!(datatype_information(&info, false).descriptor_base64.is_none());
    assert_eq!(
        datatype_information(&info, true).descriptor_base64.as_deref(),
        Some("AQIDBA==")
    );
    assert!(datatype_information(&data_type("Foo", vec![]), true).descriptor_base64.is_none());
}

#[test]
fn hex_prefix_cuts_inside_a_byte() {
    assert_eq!(hex_prefix(&[0xab, 0x0f], 4), "ab0f");
    assert_eq!(hex_prefix(&[0xab, 0x0f], 3), "ab0");
    assert_eq!(hex_prefix(&[0xab, 0x0f], 9), "ab0f");
    assert_eq!(hex_prefix(&[0xab], 0), "");
    assert_eq!(hex_prefix(&[], 4), "");
}

#[test]
fn transport_kinds_have_labels() {
    assert_eq!(transport_kind(&TransportLayerType::NoLayer), "none");
    assert_eq!(transport_kind(&TransportLayerType::UdpMulticast), "udp_mc");
    assert_eq!(transport_kind(&TransportLayerType::Shm), "shm");
    assert_eq!(transport_kind(&TransportLayerType::Tcp), "tcp");
    assert_eq!(transport_kind(&TransportLayerType::Unknown(42)), "unknown:42");
    assert_eq!(
        transport_kind(&TransportLayerType::Unknown(i32::MIN)),
        "unknown:-2147483648"
    );
}

#[test]
fn name_patterns_fold_case_and_may_be_empty() {
    assert!(name_matches("/Robot/IMU", &Some("robot/i".into())));
    assert!(name_matches("/robot/imu", &Some("IMU".into())));
    assert!(!name_matches("/robot/imu", &Some("gps".into())));
    assert!(!name_matches("im", &Some("imu".into())));
    assert!(name_matches("anything", &None));
    assert!(name_matches("anything", &Some(String::new())));
    assert!(name_matches("", &Some(String::new())));
    // Letters beyond ASCII are not folded.
    assert!(!name_matches("\u{c9}", &Some("\u{e9}".into())));
}

#[test]
fn publishers_are_filtered_by_name_and_type() {
    let server = EcalServer::new();
    let snap = sample_snapshot();
    let all = server.ecal_list_publishers(&snap, &ListFilter::default());
    assert_eq!(all.publishers.len(), 2);
    let imu = server.ecal_list_publishers(&snap, &by_name("imu"));
    assert_eq!(imu.publishers.len(), 1);
    let e = &imu.publishers[0];
    assert_eq!(e.topic_name, "/Robot/IMU");
    assert_eq!(e.direction, Direction::Publisher);
    assert_eq!(e.datatype_information.name, "pb.Imu");
    assert_eq!(e.datatype_information.encoding, "proto");
    assert_eq!(e.host_name, "h1");
    assert_eq!(e.shm_transport_domain, "h1-shm");
    assert_eq!(e.process_id, 12);
    assert_eq!(e.process_name, "/bin/p");
    assert_eq!(e.unit_name, "unit");
    assert_eq!(e.topic_id, 13);
    assert_eq!(e.connections_local, 14);
    assert_eq!(e.connections_external, 15);
    assert_eq!(e.message_drops, 16);
    assert_eq!(e.registered_data_frequency_mhz, 18_000);
    assert_eq!(e.data_clock, 17);
    assert_eq!(e.registration_clock, 11);
    assert_eq!(e.transport_layer.len(), 2);
    assert_eq!(e.transport_layer[0].layer_type, "shm");
    assert_eq!(e.transport_layer[0].version, 2);
    assert!(e.transport_layer[0].active);
    assert_eq!(e.transport_layer[1].layer_type, "unknown:-9");
    assert!(!e.transport_layer[1].active);
    let none = server.ecal_list_publishers(
        &snap,
        &ListFilter {
            name_pattern: Some("imu".into()),
            type_name_pattern: Some("gps".into()),
            include_descriptors: None,
        },
    );
    assert!(none.publishers.is_empty());
    let typed = server.ecal_list_subscribers(
        &snap,
        &ListFilter {
            name_pattern: None,
            type_name_pattern: Some("IMU".into()),
            include_descriptors: Some(true),
        },
    );
    assert_eq!(typed.subscribers.len(), 1);
    assert_eq!(typed.subscribers[0].direction, Direction::Subscriber);
    assert!(typed.subscribers[0].datatype_information.descriptor_base64.is_some());
}

#[test]
fn services_clients_and_processes_are_filtered() {
    let server = EcalServer::new();
    let snap = sample_snapshot();
    let s = server.ecal_list_services(&snap, &by_name("PLAN"));
    assert_eq!(s.services.len(), 1);
    assert_eq!(s.services[0].service_id, 6);
    assert_eq!(s.services[0].tcp_port_v0, 7);
    assert_eq!(s.services[0].tcp_port_v1, 8);
    assert_eq!(s.services[0].methods[0].method_name, "plan");
    assert_eq!(s.services[0].methods[0].call_count, 9);
    assert_eq!(s.services[0].methods[0].request_datatype_information.name, "Req");
    assert_eq!(s.services[0].methods[0].response_datatype_information.descriptor_len, 0);
    assert!(server.ecal_list_services(&snap, &by_name("x")).services.is_empty());
    let c = server.ecal_list_service_clients(&snap, &by_name("plan"));
    assert_eq!(c.clients.len(), 1);
    assert_eq!(c.clients[0].host_name, "h4");
    // A process is kept by its unit name or by its process name.
    let p = server.ecal_list_processes(&snap, &by_name("camera"));
    assert_eq!(p.processes.len(), 2);
    let p = server.ecal_list_processes(&snap, &by_name("LIDAR"));
    assert_eq!(p.processes.len(), 1);
    assert_eq!(p.processes[0].config_file_path, "/etc/ecal.yaml");
    assert_eq!(p.processes[0].state_info, "ok");
}

#[test]
fn whole_snapshot_has_everything_and_the_same_hosts() {
    let server = EcalServer::new();
    let snap = sample_snapshot();
    let all = server.ecal_get_monitoring(&snap, &GetMonitoringArgs { include_descriptors: None });
    assert_eq!(all.publishers.len(), 2);
    assert_eq!(all.subscribers.len(), 1);
    assert_eq!(all.servers.len(), 1);
    assert_eq!(all.clients.len(), 1);
    assert_eq!(all.processes.len(), 2);
    assert!(all.publishers[0].datatype_information.descriptor_base64.is_none());
    let hosts = server.ecal_list_hosts(&snap, &by_name("ignored"));
    assert_eq!(format!("{:?}", all.hosts), format!("{:?}", hosts.hosts));
    let names: Vec<&str> = hosts.hosts.iter().map(|h| h.host_name.as_str()).collect();
    assert_eq!(names, vec!["h1", "h2", "h3", "h4"]);
    assert_eq!(hosts.hosts[0].shm_transport_domains, vec!["d1", "h1-shm"]);
    assert_eq!(hosts.hosts[0].runtime_versions, vec!["6.1.1"]);
    assert!(hosts.hosts[2].runtime_versions.is_empty());
    assert_eq!(hosts.hosts[3].client_count, 1);
    let shown = server.ecal_get_monitoring(&snap, &GetMonitoringArgs { include_descriptors: Some(true) });
    assert!(shown.publishers[0].datatype_information.descriptor_base64.is_some());
    assert!(shown.servers[0].methods[0].request_datatype_information.descriptor_base64.is_some());
}

#[test]
fn parse_min_level_aliases_and_unknown_label() {
    assert_eq!(parse_min_level("warn"), parse_min_level("warning"));
    assert_eq!(parse_min_level("err"), parse_min_level("error"));
    assert_eq!(parse_min_level("INFO"), parse_min_level("info"));
    assert_eq!(parse_min_level("debug4"), 1);
    assert_eq!(parse_min_level("fatal"), 8);
    assert_eq!(parse_min_level(""), 0);
    assert_eq!(parse_min_level("nonsense"), 0);
    let order = [
        "debug4", "debug3", "debug2", "debug1", "info", "warning", "error", "fatal",
    ];
    for w in order.windows(2) {
        assert!(
            parse_min_level(w[0]) < parse_min_level(w[1]),
            "ordering broken between {:?} and {:?}",
            w[0],
            w[1],
        );
    }
}

#[test]
fn level_priority_matches_parse_min_level() {
    let pairs = [
        (LogLevel::Debug4, "debug4"),
        (LogLevel::Debug3, "debug3"),
        (LogLevel::Debug2, "debug2"),
        (LogLevel::Debug1, "debug1"),
        (LogLevel::Info, "info"),
        (LogLevel::Warning, "warning"),
        (LogLevel::Error, "error"),
        (LogLevel::Fatal, "fatal"),
    ];
    for (lvl, label) in pairs {
        assert_eq!(
            level_priority(lvl),
            parse_min_level(label),
            "mismatch for {label}"
        );
    }
    assert_eq!(level_priority(LogLevel::NoLevel), 0);
    assert_eq!(level_priority(LogLevel::All), 0);
}

fn message(level: LogLevel, timestamp: i64, process_name: &str) -> LogMessage {
    LogMessage {
        level,
        timestamp,
        host_name: "h".into(),
        process_name: process_name.into(),
        process_id: 4,
        thread_name: "unit".into(),
        content: "text".into(),
    }
}

#[test]
fn logs_are_filtered_by_severity_time_and_process() {
    let logs = vec![
        message(LogLevel::Debug1, 10, "/bin/A"),
        message(LogLevel::Info, 20, "/bin/a"),
        message(LogLevel::Fatal, 30, "/bin/b"),
        message(LogLevel::All, 40, "/bin/b"),
    ];
    let levels = |min_level: Option<&str>, since: Option<i64>, pattern: Option<&str>| -> Vec<String> {
        let args = GetLogsArgs {
            min_level: min_level.map(String::from),
            since_timestamp_us: since,
            process_name_pattern: pattern.map(String::from),
        };
        filter_logs(&logs, &args).into_iter().map(|e| e.level).collect()
    };
    assert_eq!(levels(None, None, None), vec!["Info", "Fatal"]);
    assert_eq!(levels(Some("all"), None, None), vec!["Debug1", "Info", "Fatal", "All"]);
    let silent = filter_logs(
        &vec![message(LogLevel::NoLevel, 0, "p")],
        &GetLogsArgs {
            min_level: Some("none".into()),
            since_timestamp_us: None,
            process_name_pattern: None,
        },
    );
    assert_eq!(silent[0].level, "None");
    assert_eq!(levels(Some("WARN"), None, None), vec!["Fatal"]);
    assert_eq!(levels(None, Some(20), None), vec!["Info", "Fatal"]);
    assert_eq!(levels(None, Some(21), None), vec!["Fatal"]);
    assert_eq!(levels(Some("none"), None, Some("/BIN/a")), vec!["Debug1", "Info"]);
    let args = GetLogsArgs {
        min_level: None,
        since_timestamp_us: None,
        process_name_pattern: None,
    };
    let rows = EcalServer::new().ecal_get_logs(&logs, &args).logs;
    assert_eq!(rows[0].timestamp_us, 20);
    assert_eq!(rows[0].unit_name, "unit");
    assert_eq!(rows[0].host_name, "h");
    assert_eq!(rows[0].process_id, 4);
    assert_eq!(rows[0].content, "text");
}
