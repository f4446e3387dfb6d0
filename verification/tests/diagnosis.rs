use ecal_mcp::checks::{
    build_unhealthy_process_finding, publisher_rate_extremes, suggestion_message,
};
use ecal_mcp::diagnose::{
    finish_diagnosis, needs_measurement, rate_verdict, DiagnoseTopicResult, RateCheck,
};
use ecal_mcp::entries::{DataTypeInformation, Direction, TopicEntry, TransportLayerEntry};
use ecal_mcp::findings::{
    code_rank, severity_for, severity_rank, sort_findings, CandidateSide, DeltaDirection, Finding,
    FindingCode, FindingDetail, FindingSeverity,
};
use ecal_mcp::measure::{window_stats, WindowAcc};
use ecal_mcp::monitoring::{
    DataTypeInfo, MonitoringSnapshot, ProcessInfo, TopicInfo, TransportLayer, TransportLayerType,
};
use ecal_mcp::server::EcalServer;
use ecal_mcp::similar::{similar_names, similar_names_with_scores};
use ecal_mcp::suggest::build_did_you_mean;
use ecal_mcp::survey::{
    collect_echoed_publishers, intersect_active_transports, share_transport, survey_topic,
};

fn te(layers: &[(&str, bool)], direction: Direction) -> TopicEntry {
    let transport_layer = layers
        .iter()
        .map(|(k, a)| TransportLayerEntry {
            layer_type: (*k).to_string(),
            version: 1,
            active: *a,
        })
        .collect();
    TopicEntry {
        topic_name: String::new(),
        direction,
        datatype_information: DataTypeInformation {
            name: String::new(),
            encoding: String::new(),
            descriptor_len: 0,
            descriptor_fingerprint: None,
            descriptor_base64: None,
        },
        host_name: String::new(),
        shm_transport_domain: String::new(),
        process_id: 0,
        process_name: String::new(),
        unit_name: String::new(),
        topic_id: 0,
        connections_local: 0,
        connections_external: 0,
        message_drops: 0,
        registered_data_frequency_mhz: 0,
        data_clock: 0,
        registration_clock: 0,
        transport_layer,
    }
}

fn raw_process(host: &str, pid: i32, severity: i32, shm_domain: &str) -> ProcessInfo {
    ProcessInfo {
        host_name: host.to_string(),
        shm_transport_domain: shm_domain.to_string(),
        process_id: pid,
        process_name: format!("/proc/{pid}"),
        unit_name: format!("unit_{pid}"),
        state_severity: severity,
        state_severity_level: 1,
        state_info: String::new(),
        runtime_version: "6.1.1".into(),
        config_file_path: String::new(),
    }
}

fn raw_topic(host: &str, pid: i32, topic_name: &str, topic_id: i64, hz_mhz: i32) -> TopicInfo {
    TopicInfo {
        registration_clock: 1,
        host_name: host.to_string(),
        shm_transport_domain: host.to_string(),
        process_id: pid,
        process_name: format!("/proc/{pid}"),
        unit_name: format!("unit_{pid}"),
        topic_id,
        topic_name: topic_name.to_string(),
        data_type: DataTypeInfo {
            name: "T".into(),
            encoding: "proto".into(),
            descriptor: vec![],
        },
        transport_layers: vec![],
        connections_local: 0,
        connections_external: 0,
        message_drops: 0,
        data_clock: 0,
        data_frequency: hz_mhz,
    }
}

fn snapshot(publishers: Vec<TopicInfo>, subscribers: Vec<TopicInfo>, processes: Vec<ProcessInfo>) -> MonitoringSnapshot {
    MonitoringSnapshot {
        processes,
        publishers,
        subscribers,
        servers: vec![],
        clients: vec![],
    }
}

fn names(list: &[&str]) -> Vec<String> {
    list.iter().map(|s| s.to_string()).collect()
}

fn layer(kind: TransportLayerType, active: bool) -> TransportLayer {
    TransportLayer { transport_type: kind, version: 1, active }
}

fn codes(r: &DiagnoseTopicResult) -> Vec<FindingCode> {
    r.findings.iter().map(|f| f.code).collect()
}

fn diagnose(snap: &MonitoringSnapshot, topic: &str) -> DiagnoseTopicResult {
    let mut server = EcalServer::new();
    let d = server.ecal_diagnose_topic(snap, topic, 0);
    finish_diagnosis(d, "1.00", 0, None, None)
}

#[test]
fn intersect_active_transports_semantics() {
    let pubs = vec![te(
        &[("shm", true), ("udp_mc", false)],
        Direction::Publisher,
    )];
    let subs = vec![te(&[("shm", true), ("tcp", true)], Direction::Subscriber)];
    let (common, advertised) = intersect_active_transports(&pubs, &subs);
    assert_eq!(common, vec!["shm"]);
    assert!(advertised);

    let pubs2 = vec![te(&[("udp_mc", true)], Direction::Publisher)];
    let subs2 = vec![te(&[("shm", true)], Direction::Subscriber)];
    let (common2, advertised2) = intersect_active_transports(&pubs2, &subs2);
    assert!(common2.is_empty());
    assert!(advertised2);

    let pubs3 = vec![te(&[("shm", true)], Direction::Publisher)];
    let subs3 = vec![te(
        &[("shm", false), ("udp_mc", false)],
        Direction::Subscriber,
    )];
    let (common3, advertised3) = intersect_active_transports(&pubs3, &subs3);
    assert!(common3.is_empty());
    assert!(
        !advertised3,
        "subscriber with no active layers must clear `advertised` \
             so the diagnostic stays silent"
    );

    let pubs4 = vec![te(&[("shm", false)], Direction::Publisher)];
    let subs4 = vec![te(&[("shm", false)], Direction::Subscriber)];
    let (common4, advertised4) = intersect_active_transports(&pubs4, &subs4);
    assert!(common4.is_empty());
    assert!(!advertised4);
}

#[test]
fn common_transports_are_those_of_every_endpoint() {
    let one = |kind: &str, d| te(&[(kind, true)], d);
    let pubs = vec![one("shm", Direction::Publisher), one("tcp", Direction::Publisher)];
    let subs = vec![one("shm", Direction::Subscriber)];
    assert_eq!(intersect_active_transports(&pubs, &subs), (vec![], true));
    // The sides share one all the same.
    assert!(share_transport(&pubs, &subs));
    let both = vec![
        te(&[("udp_mc", true), ("tcp", true), ("shm", true)], Direction::Publisher),
        te(&[("shm", true), ("udp_mc", true)], Direction::Publisher),
    ];
    let all = vec![te(&[("udp_mc", true), ("shm", true)], Direction::Subscriber)];
    assert_eq!(
        intersect_active_transports(&both, &all),
        (vec!["shm".to_string(), "udp_mc".to_string()], true)
    );
    assert_eq!(intersect_active_transports(&both, &[]), (vec![], false));
    assert_eq!(intersect_active_transports(&[], &[]), (vec![], false));
    assert!(!share_transport(&both, &[]));
    assert!(!share_transport(&[one("tcp", Direction::Publisher)], &subs));
}

#[test]
fn a_transport_shared_by_some_is_no_gap() {
    let mut p1 = raw_topic("h1", 1, "/t", 1, 0);
    p1.transport_layers = vec![layer(TransportLayerType::Shm, true)];
    let mut p2 = raw_topic("h1", 2, "/t", 2, 0);
    p2.transport_layers = vec![layer(TransportLayerType::Tcp, true)];
    let mut s = raw_topic("h1", 3, "/t", 3, 0);
    s.transport_layers = vec![layer(TransportLayerType::Shm, true)];
    let r = diagnose(&snapshot(vec![p1, p2], vec![s], vec![]), "/t");
    assert!(r.common_active_transport_layers.is_empty());
    assert_eq!(codes(&r), vec![FindingCode::MultiplePublishers]);
}

#[test]
fn similar_names_basic_typo_and_edges() {
    let pool = names(&[
        "robot/imu",
        "robot/lidar",
        "robot/camera",
        "completely_unrelated",
    ]);

    let hits = similar_names("robot/img", &pool, 3);
    assert!(
        hits.contains(&"robot/imu".to_string()),
        "typo `robot/img` should suggest `robot/imu`: got {hits:?}"
    );

    let exact = similar_names("robot/imu", &pool, 5);
    assert!(
        !exact.contains(&"robot/imu".to_string()),
        "exact match leaked into suggestions: {exact:?}"
    );

    assert!(similar_names("", &pool, 5).is_empty());
    assert!(similar_names("ab", &pool, 5).is_empty());

    let pool2 = names(&["robot/imu_a", "robot/imu_b", "robot/imu_c", "robot/imu_d"]);
    let limited = similar_names("robot/imu", &pool2, 2);
    assert_eq!(limited.len(), 2);

    let none = similar_names("robot/imu", &names(&["xyz_stuff", "qqq_unrelated"]), 5);
    assert!(none.is_empty(), "expected no suggestions, got {none:?}");
}

#[test]
fn similar_names_tiebreaks_by_length_diff() {
    let pool = names(&[
        "robot/imuABC",
        "robot/imuABCDEF",
        "robot/imuABCDEFGHIJ",
    ]);
    let hits = similar_names("robot/imu", &pool, 3);
    assert_eq!(hits.first().map(String::as_str), Some("robot/imuABC"));
}

#[test]
fn similar_names_scores_and_stable_order() {
    // Seven grams of `robot/imu` occur in each; the lengths differ by 2, 2 and 1.
    let pool = names(&["ROBOT/IMU_a", "robot/imu_b", "robot/imux"]);
    let ranked = similar_names_with_scores("robot/imu", &pool, 10);
    assert_eq!(
        ranked,
        vec![
            ("robot/imux".to_string(), 699),
            ("ROBOT/IMU_a".to_string(), 698),
            ("robot/imu_b".to_string(), 698),
        ]
    );
}

#[test]
fn similar_names_rank_by_grams_before_length() {
    let long = format!("abcd{}", "x".repeat(200));
    let pool = vec!["abcx".to_string(), long.clone()];
    assert_eq!(similar_names("abcd", &pool, 1), vec![long.clone()]);
    // Two grams less the greatest deduction, one gram less none.
    assert_eq!(
        similar_names_with_scores("abcd", &pool, 2),
        vec![(long, 101), ("abcx".to_string(), 100)]
    );
    // Beyond ninety-nine bytes the score stays, the order does not.
    let far = format!("abcd{}", "x".repeat(500));
    let near = format!("abcd{}", "y".repeat(300));
    assert_eq!(
        similar_names_with_scores("abcd", &[far.clone(), near.clone()], 2),
        vec![(near, 101), (far, 101)]
    );
}

#[test]
fn similar_names_cut_no_character() {
    // Four bytes, of which the middle two are one letter: the grams are the first three and the
    // last three.
    let ranked = similar_names_with_scores("a\u{e9}b", &names(&["xa\u{e9}", "x\u{e9}bx", "ab"]), 10);
    assert_eq!(
        ranked,
        vec![
            ("xa\u{e9}".to_string(), 100),
            ("x\u{e9}bx".to_string(), 99),
        ]
    );
}

#[test]
fn finding_severity_table_and_sort_order() {
    assert_eq!(
        severity_for(FindingCode::ShmDomainSplit),
        FindingSeverity::Warning
    );
    assert_eq!(
        severity_for(FindingCode::NoPublisher),
        FindingSeverity::Error
    );
    assert_eq!(
        severity_for(FindingCode::MultiplePublishers),
        FindingSeverity::Warning
    );
    assert_eq!(
        severity_for(FindingCode::DidYouMean),
        FindingSeverity::Info
    );

    let findings = sort_findings(vec![
        Finding {
            code: FindingCode::DidYouMean,
            severity: FindingSeverity::Info,
            message: "info".into(),
            detail: None,
        },
        Finding {
            code: FindingCode::MultiplePublishers,
            severity: FindingSeverity::Warning,
            message: "warn".into(),
            detail: None,
        },
        Finding {
            code: FindingCode::NoPublisher,
            severity: FindingSeverity::Error,
            message: "err".into(),
            detail: None,
        },
    ]);
    assert!(matches!(findings[0].code, FindingCode::NoPublisher));
    assert!(matches!(findings[1].code, FindingCode::MultiplePublishers));
    assert!(matches!(findings[2].code, FindingCode::DidYouMean));
}

#[test]
fn ranks_of_codes_and_severities() {
    let order = [
        FindingCode::NoPublishersOrSubscribers,
        FindingCode::NoPublisher,
        FindingCode::NoSubscriber,
        FindingCode::TypeMetadataMismatch,
        FindingCode::NoCommonTransport,
        FindingCode::UnhealthyProcess,
        FindingCode::MultiplePublishers,
        FindingCode::MessageDrops,
        FindingCode::RateBelowSpec,
        FindingCode::RateAboveSpec,
        FindingCode::NoSamplesObserved,
        FindingCode::ShmDomainSplit,
        FindingCode::DidYouMean,
    ];
    for (i, code) in order.iter().enumerate() {
        assert_eq!(code_rank(*code) as usize, i);
    }
    assert_eq!(severity_rank(FindingSeverity::Error), 2);
    assert_eq!(severity_rank(FindingSeverity::Warning), 1);
    assert_eq!(severity_rank(FindingSeverity::Info), 0);
}

#[test]
fn findings_of_one_rank_go_by_severity_then_stay() {
    let make = |severity, message: &str| Finding {
        code: FindingCode::MessageDrops,
        severity,
        message: message.into(),
        detail: None,
    };
    let sorted = sort_findings(vec![
        make(FindingSeverity::Info, "a"),
        make(FindingSeverity::Warning, "b"),
        make(FindingSeverity::Error, "c"),
        make(FindingSeverity::Warning, "d"),
    ]);
    let messages: Vec<&str> = sorted.iter().map(|f| f.message.as_str()).collect();
    assert_eq!(messages, vec!["c", "b", "d", "a"]);
}

#[test]
fn collect_echoed_publishers_none_below_two_some_at_two_or_more() {
    let snap_one = snapshot(vec![raw_topic("h1", 1, "/t", 100, 10_000)], vec![], vec![]);
    assert!(collect_echoed_publishers(&snap_one, "/t").is_none());

    let snap_two = snapshot(
        vec![
            raw_topic("h1", 1, "/t", 100, 10_000),
            raw_topic("h2", 2, "/t", 200, 20_000),
        ],
        vec![],
        vec![],
    );
    let echoed = collect_echoed_publishers(&snap_two, "/t").expect("≥2 ⇒ Some");
    assert_eq!(echoed.len(), 2);
    let hz = |i: usize| f64::from(echoed[i].registered_data_frequency_mhz) / 1000.0;
    assert!((hz(0) - 10.0).abs() < 1e-9);
    assert!((hz(1) - 20.0).abs() < 1e-9);
    assert_eq!(echoed[1].host_name, "h2");
    assert_eq!(echoed[1].unit_name, "unit_2");
    assert_eq!(echoed[1].process_name, "/proc/2");
    assert_eq!(echoed[1].topic_id, 200);
}

#[test]
fn did_you_mean_empty_pool_returns_empty_candidates_and_null_suggestion() {
    let snap = snapshot(vec![], vec![], vec![]);
    let pool: Vec<String> = vec![];
    let detail = build_did_you_mean("/totally_bogus", &pool, &snap)
        .expect("did_you_mean always emits a detail object");
    assert!(detail.suggestion.is_none());
    assert_eq!(detail.candidates.len(), 0);
}

#[test]
fn did_you_mean_describes_each_candidate() {
    let snap = snapshot(
        vec![
            raw_topic("h2", 1, "/sensors/imu", 1, 5_000),
            raw_topic("h1", 2, "/sensors/imu", 2, -7),
            raw_topic("h1", 2, "/sensors/gps", 3, 0),
        ],
        vec![raw_topic("h1", 3, "/sensors/imu", 4, 9_000)],
        vec![],
    );
    let pool = names(&["/sensors/gps", "/sensors/imu", "/sensors/none"]);
    let detail = build_did_you_mean("/sensor/imu", &pool, &snap).unwrap();
    assert_eq!(detail.suggestion.as_deref(), Some("/sensors/imu"));
    let imu = &detail.candidates[0];
    assert_eq!(imu.topic_name, "/sensors/imu");
    assert_eq!(imu.direction, CandidateSide::Both);
    assert_eq!(imu.occurrences, 3);
    assert_eq!(imu.host_names, vec!["h1", "h2"]);
    assert_eq!(imu.registered_data_frequency_mhz, 9_000);
    let gps = detail.candidates.iter().find(|c| c.topic_name == "/sensors/gps").unwrap();
    assert_eq!(gps.direction, CandidateSide::Publisher);
    assert_eq!(gps.occurrences, 1);
    assert_eq!(gps.registered_data_frequency_mhz, 0);
    let none = detail.candidates.iter().find(|c| c.topic_name == "/sensors/none").unwrap();
    assert_eq!(none.direction, CandidateSide::Unknown);
    assert_eq!(none.occurrences, 0);
}

#[test]
fn did_you_mean_stops_at_ten() {
    let pool: Vec<String> = (0..15).map(|i| format!("/sensors/{i:02}")).collect();
    let snap = snapshot(vec![], vec![], vec![]);
    let detail = build_did_you_mean("/sensors", &pool, &snap).unwrap();
    assert_eq!(detail.candidates.len(), 10);
    assert_eq!(detail.suggestion.as_deref(), Some("/sensors/00"));
}

#[test]
fn unhealthy_process_finding_emitted_for_severity_ge_2() {
    let proc_state = raw_process("h1", 7, 3, "h1");
    let mut topic = te(&[], Direction::Publisher);
    topic.host_name = "h1".into();
    topic.process_id = 7;
    topic.unit_name = "unit_7".into();
    topic.topic_id = 999;

    let f = build_unhealthy_process_finding("publisher", &topic, &proc_state)
        .expect("severity 3 must produce a finding");
    assert!(matches!(f.code, FindingCode::UnhealthyProcess));
    assert!(f.message.contains("non-healthy"));
    assert_eq!(
        f.message,
        "publisher 'unit_7' (pid 7) on h1 is in non-healthy state (severity=3, level=1): <no state_info>"
    );
    let d = match f.detail.expect("detail required") {
        FindingDetail::Process(d) => d,
        other => panic!("unexpected detail {other:?}"),
    };
    assert_eq!(d.side, "publisher");
    assert_eq!(d.host_name, "h1");
    assert_eq!(d.unit_name, "unit_7");
    assert_eq!(d.process_id, 7);
    assert_eq!(d.topic_id, 999);
    assert_eq!(d.state_severity, 3);
    assert_eq!(d.state_severity_level, 1);
    assert_eq!(d.state_info, "");

    let healthy = raw_process("h1", 7, 1, "h1");
    assert!(build_unhealthy_process_finding("publisher", &topic, &healthy).is_none());

    let mut warned = raw_process("h1", 7, 2, "h1");
    warned.state_info = "disk full".into();
    let f = build_unhealthy_process_finding("subscriber", &topic, &warned).unwrap();
    assert!(f.message.ends_with("(severity=2, level=1): disk full"));
}

#[test]
fn missing_topic_gets_suggestions() {
    let snap = snapshot(
        vec![raw_topic("h1", 1, "/sensors/imu", 1, 0)],
        vec![raw_topic("h1", 1, "/sensors/lidar", 2, 0)],
        vec![],
    );
    let r = diagnose(&snap, "/sensor/imu");
    assert_eq!(
        codes(&r),
        vec![FindingCode::NoPublishersOrSubscribers, FindingCode::DidYouMean]
    );
    assert_eq!(r.findings[0].message, "no publishers or subscribers registered for this topic");
    assert_eq!(
        r.findings[1].message,
        "topic \"/sensor/imu\" not found; closest known topic is \"/sensors/imu\""
    );
    assert!(r.live_stats.is_none());

    let r = diagnose(&snapshot(vec![], vec![], vec![]), "a\"b");
    assert_eq!(
        r.findings[1].message,
        "topic \"a\\\"b\" not found; no near-miss in the registration snapshot"
    );
}

#[test]
fn missing_publisher_is_sought_among_publishers() {
    let snap = snapshot(
        vec![raw_topic("h1", 1, "/sensors/imu", 1, 0)],
        vec![
            raw_topic("h1", 1, "/sensors/imux", 2, 0),
            raw_topic("h1", 1, "/sensors/imuy", 3, 0),
        ],
        vec![],
    );
    let r = diagnose(&snap, "/sensors/imux");
    assert_eq!(codes(&r), vec![FindingCode::NoPublisher, FindingCode::DidYouMean]);
    assert_eq!(r.findings[0].message, "subscribers exist but no publisher is registered");
    assert_eq!(
        r.findings[1].message,
        "no publisher for \"/sensors/imux\"; closest topic with a publisher is \"/sensors/imu\""
    );
    match r.findings[1].detail.as_ref().unwrap() {
        FindingDetail::Suggestions(s) => assert_eq!(s.candidates.len(), 1),
        other => panic!("unexpected detail {other:?}"),
    }

    let r = diagnose(&snapshot(vec![], vec![raw_topic("h", 1, "x", 1, 0)], vec![]), "x");
    assert_eq!(
        r.findings[1].message,
        "no publisher for \"x\"; no near-miss publisher in the snapshot"
    );
}

#[test]
fn missing_subscriber_is_sought_among_subscribers() {
    let snap = snapshot(
        vec![raw_topic("h1", 1, "/sensors/imu", 1, 0)],
        vec![raw_topic("h1", 1, "/sensors/imux", 2, 0)],
        vec![],
    );
    let r = diagnose(&snap, "/sensors/imu");
    assert_eq!(codes(&r), vec![FindingCode::NoSubscriber, FindingCode::DidYouMean]);
    assert_eq!(r.findings[0].message, "publishers exist but no subscriber is registered");
    assert_eq!(
        r.findings[1].message,
        "no subscriber for \"/sensors/imu\"; closest topic with a subscriber is \"/sensors/imux\""
    );

    let r = diagnose(&snapshot(vec![raw_topic("h", 1, "x", 1, 0)], vec![], vec![]), "x");
    assert_eq!(
        r.findings[1].message,
        "no subscriber for \"x\"; no near-miss subscriber in the snapshot"
    );
}

#[test]
fn healthy_pair_has_no_findings() {
    let snap = snapshot(
        vec![raw_topic("h1", 1, "/t", 1, 10_000)],
        vec![raw_topic("h1", 2, "/t", 2, 0)],
        vec![raw_process("h1", 1, 1, "h1"), raw_process("h1", 2, 0, "h1")],
    );
    let r = diagnose(&snap, "/t");
    assert!(r.findings.is_empty());
    assert_eq!(r.topic_name, "/t");
    assert_eq!(r.publishers.len(), 1);
    assert_eq!(r.subscribers.len(), 1);
    assert_eq!(r.publishers[0].direction, Direction::Publisher);
    assert_eq!(r.subscribers[0].direction, Direction::Subscriber);
    assert_eq!(r.type_signatures.len(), 1);
    assert_eq!(r.shm_transport_domains, vec!["h1"]);
}

#[test]
fn metadata_mismatch_lists_signatures() {
    let mut p1 = raw_topic("h1", 1, "/t", 9, 0);
    p1.data_type.descriptor = vec![1, 2, 3, 4];
    let p2 = raw_topic("h1", 1, "/t", 3, 0);
    let mut s1 = raw_topic("h1", 2, "/t", 5, 0);
    s1.data_type.name = "S".into();
    let snap = snapshot(vec![p1, p2], vec![s1], vec![]);
    let r = diagnose(&snap, "/t");
    assert_eq!(codes(&r), vec![FindingCode::TypeMetadataMismatch, FindingCode::MultiplePublishers]);
    assert_eq!(
        r.findings[0].message,
        "metadata mismatch: 2 distinct (name, encoding) signatures across endpoints — raw bytes \
         still flow, but typed deserialization will fail on the side(s) that disagree"
    );
    match r.findings[0].detail.as_ref().unwrap() {
        FindingDetail::Signatures(rows) => {
            assert_eq!(rows.len(), 2);
            assert_eq!(rows[0].name, "S");
            assert_eq!(rows[0].subscriber_count, 1);
            assert_eq!(rows[0].publisher_count, 0);
            assert_eq!(rows[0].subscriber_topic_ids, vec![5]);
            assert_eq!(rows[0].descriptor_len, 0);
            assert!(rows[0].descriptor_fingerprint.is_none());
            assert_eq!(rows[1].name, "T");
            assert_eq!(rows[1].encoding, "proto");
            assert_eq!(rows[1].publisher_topic_ids, vec![3, 9]);
            assert_eq!(rows[1].descriptor_len, 4);
            assert_eq!(rows[1].descriptor_fingerprint.as_deref(), Some("9f64a747e1b97f13"));
        }
        other => panic!("unexpected detail {other:?}"),
    }
    assert_eq!(r.type_signatures[1].publisher_occurrences, 2);
    assert_eq!(r.type_signatures[0].subscriber_occurrences, 1);
}

#[test]
fn mismatch_leaves_the_live_type_out() {
    let mut s1 = raw_topic("h1", 2, "/t", 5, 0);
    s1.data_type.encoding = "utf-8".into();
    let snap = snapshot(vec![raw_topic("h1", 1, "/t", 1, 0)], vec![s1], vec![]);
    let mut server = EcalServer::new();
    let d = server.ecal_diagnose_topic(&snap, "/t", 0);
    assert!(needs_measurement(&d, 10));
    assert!(!needs_measurement(&d, 0));
    let mut acc = WindowAcc::new();
    acc.record(5, 1, "T".into(), "proto".into());
    let r = finish_diagnosis(d, "1.00", 10, Some(window_stats(acc)), None);
    let live = r.live_stats.unwrap();
    assert_eq!(live.samples_observed, 1);
    assert!(live.name.is_none());
    assert!(live.encoding.is_none());
}

#[test]
fn disjoint_active_layers_have_no_common_transport() {
    let mut p = raw_topic("h1", 1, "/t", 1, 0);
    p.transport_layers = vec![layer(TransportLayerType::UdpMulticast, true)];
    let mut s = raw_topic("h1", 2, "/t", 2, 0);
    s.transport_layers = vec![layer(TransportLayerType::Shm, true)];
    let snap = snapshot(vec![p], vec![s], vec![]);
    let r = diagnose(&snap, "/t");
    assert_eq!(codes(&r), vec![FindingCode::NoCommonTransport]);
    assert_eq!(
        r.findings[0].message,
        "publishers and subscribers share no active transport layer; data cannot flow"
    );
}

#[test]
fn domain_split_is_reported_unless_noise() {
    let split = || {
        let mut p = raw_topic("h1", 1, "/t", 1, 0);
        p.shm_transport_domain = "a".into();
        let mut s = raw_topic("h2", 2, "/t", 2, 0);
        s.shm_transport_domain = "b".into();
        (p, s)
    };
    let (p, s) = split();
    let r = diagnose(&snapshot(vec![p], vec![s], vec![]), "/t");
    assert_eq!(codes(&r), vec![FindingCode::ShmDomainSplit]);
    assert_eq!(
        r.findings[0].message,
        "2 hosts with 2 distinct shm_transport_domain values: cross-host SHM is only eligible \
         when all sides agree on the domain string"
    );
    match r.findings[0].detail.as_ref().unwrap() {
        FindingDetail::Domains { host_count, shm_transport_domains } => {
            assert_eq!(*host_count, 2);
            assert_eq!(*shm_transport_domains, vec!["a", "b"]);
        }
        other => panic!("unexpected detail {other:?}"),
    }

    // A transport in use makes the split noise.
    let (mut p, mut s) = split();
    p.transport_layers = vec![layer(TransportLayerType::Tcp, true)];
    s.transport_layers = vec![layer(TransportLayerType::Tcp, true)];
    let r = diagnose(&snapshot(vec![p], vec![s], vec![]), "/t");
    assert!(r.findings.is_empty());
    assert_eq!(r.common_active_transport_layers, vec!["tcp"]);

    // So do default domains on every host.
    let snap = snapshot(
        vec![raw_topic("h1", 1, "/t", 1, 0)],
        vec![raw_topic("h2", 2, "/t", 2, 0)],
        vec![],
    );
    let r = diagnose(&snap, "/t");
    assert!(r.findings.is_empty());
    assert_eq!(r.shm_transport_domains, vec!["h1", "h2"]);
}

#[test]
fn first_matching_process_decides_health() {
    let snap = snapshot(
        vec![raw_topic("h1", 1, "/t", 1, 0)],
        vec![raw_topic("h2", 1, "/t", 2, 0)],
        vec![
            raw_process("h2", 1, 4, "h2"),
            raw_process("h1", 1, 1, "h1"),
            raw_process("h1", 1, 4, "h1"),
        ],
    );
    let r = diagnose(&snap, "/t");
    assert_eq!(codes(&r), vec![FindingCode::UnhealthyProcess]);
    assert!(r.findings[0].message.starts_with("subscriber 'unit_1' (pid 1) on h2 "));
}

#[test]
fn several_publishers_are_described() {
    let snap = snapshot(
        vec![
            raw_topic("h1", 1, "/t", 1, 10_000),
            raw_topic("h2", 2, "/t", 2, 0),
            raw_topic("h1", 3, "/t", 3, 40_000),
        ],
        vec![raw_topic("h1", 4, "/t", 4, 0)],
        vec![],
    );
    let sv = survey_topic(&snap, "/t");
    assert_eq!(publisher_rate_extremes(&sv.publishers), Some((40_000, 10_000)));
    assert_eq!(publisher_rate_extremes(&sv.subscribers), None);
    let mut server = EcalServer::new();
    let d = server.ecal_diagnose_topic(&snap, "/t", 0);
    let r = finish_diagnosis(d, "4.00", 0, None, None);
    assert_eq!(codes(&r), vec![FindingCode::MultiplePublishers]);
    assert_eq!(
        r.findings[0].message,
        "3 publishers registered for a topic with 1 subscriber(s) — 1:N producer anti-pattern; \
         rate-divergence ratio 4.00"
    );
    match r.findings[0].detail.as_ref().unwrap() {
        FindingDetail::Publishers { publishers, rate_extremes_mhz, host_divergence } => {
            assert_eq!(publishers.len(), 3);
            assert_eq!(publishers[2].registered_data_frequency_mhz, 40_000);
            assert_eq!(publishers[2].topic_id, 3);
            assert_eq!(*rate_extremes_mhz, Some((40_000, 10_000)));
            assert!(*host_divergence);
        }
        other => panic!("unexpected detail {other:?}"),
    }

    // Without a subscriber several publishers are normal.
    let snap = snapshot(
        vec![raw_topic("h1", 1, "/t", 1, 0), raw_topic("h1", 2, "/t", 2, 0)],
        vec![],
        vec![],
    );
    assert_eq!(
        codes(&diagnose(&snap, "/t")),
        vec![FindingCode::NoSubscriber, FindingCode::DidYouMean]
    );
}

fn dropping(drops: i32) -> MonitoringSnapshot {
    let mut s = raw_topic("h1", 4, "/t", 40, 0);
    s.message_drops = drops;
    snapshot(vec![raw_topic("h1", 1, "/t", 1, 0)], vec![s], vec![])
}

fn drops_of(server: &mut EcalServer, snap: &MonitoringSnapshot, now: u64) -> (Option<i32>, Option<u64>) {
    let d = server.ecal_diagnose_topic(snap, "/t", now);
    assert_eq!(d.findings.len(), 1);
    match d.findings[0].detail.as_ref().unwrap() {
        FindingDetail::Drops(d) => (d.drops_since_last_snapshot, d.window_ns),
        other => panic!("unexpected detail {other:?}"),
    }
}

#[test]
fn drop_counters_are_compared_with_the_last_sighting() {
    let second: u64 = 1_000_000_000;
    let mut server = EcalServer::new();
    let first = dropping(5);
    let d = server.ecal_diagnose_topic(&first, "/t", second);
    assert_eq!(
        d.findings[0].message,
        "subscriber unit_4 (pid 4) on h1 reports 5 message drop(s) since registration"
    );
    match d.findings[0].detail.as_ref().unwrap() {
        FindingDetail::Drops(d) => {
            assert_eq!(d.message_drops, 5);
            assert_eq!(d.topic_id, 40);
            assert_eq!(d.drops_since_last_snapshot, None);
            assert_eq!(d.window_ns, None);
        }
        other => panic!("unexpected detail {other:?}"),
    }
    assert_eq!(
        drops_of(&mut server, &dropping(8), 3 * second),
        (Some(3), Some(2 * second))
    );
    // A counter that fell is a negative difference.
    assert_eq!(
        drops_of(&mut server, &dropping(2), 4 * second),
        (Some(-6), Some(second))
    );
    // Exactly sixty seconds later it is still known, after that no more.
    assert_eq!(
        drops_of(&mut server, &dropping(2), 64 * second),
        (Some(0), Some(60 * second))
    );
    assert_eq!(drops_of(&mut server, &dropping(3), 124 * second + 1), (None, None));
}

#[test]
fn drop_counters_survive_a_missing_publisher_only_by_key() {
    let mut server = EcalServer::new();
    let mut s = raw_topic("h1", 4, "/t", 40, 0);
    s.message_drops = 5;
    let alone = snapshot(vec![], vec![s], vec![]);
    let d = server.ecal_diagnose_topic(&alone, "/t", 1);
    assert!(d.findings.iter().any(|f| f.code == FindingCode::MessageDrops));
    // Seen without a publisher, the counter is kept under none; with one it is new.
    assert_eq!(drops_of(&mut server, &dropping(6), 2), (None, None));
    assert_eq!(drops_of(&mut server, &dropping(6), 3), (Some(0), Some(1)));
}

#[test]
fn silent_window_is_reported() {
    let snap = snapshot(
        vec![raw_topic("h1", 1, "/t", 1, 0)],
        vec![raw_topic("h1", 2, "/t", 2, 0)],
        vec![],
    );
    let mut server = EcalServer::new();
    let d = server.ecal_diagnose_topic(&snap, "/t", 0);
    let r = finish_diagnosis(d, "1.00", 1500, Some(window_stats(WindowAcc::new())), None);
    assert_eq!(codes(&r), vec![FindingCode::NoSamplesObserved]);
    assert_eq!(
        r.findings[0].message,
        "no samples observed in 1500ms despite 1 registered publisher(s)"
    );
    match r.findings[0].detail.as_ref().unwrap() {
        FindingDetail::NoSamples { duration_ms, publisher_count } => {
            assert_eq!(*duration_ms, 1500);
            assert_eq!(*publisher_count, 1);
        }
        other => panic!("unexpected detail {other:?}"),
    }
}

#[test]
fn missed_rates_are_reported() {
    let run = |direction| {
        let snap = snapshot(
            vec![raw_topic("h1", 1, "/t", 1, 0)],
            vec![raw_topic("h1", 2, "/t", 2, 0)],
            vec![],
        );
        let mut acc = WindowAcc::new();
        acc.record(0, 1, "T".into(), "proto".into());
        let mut server = EcalServer::new();
        let d = server.ecal_diagnose_topic(&snap, "/t", 0);
        let check = RateCheck {
            delta_direction: direction,
            measured: "9.000".into(),
            target: "50.000".into(),
            tolerance: "10.00".into(),
        };
        finish_diagnosis(d, "1.00", 100, Some(window_stats(acc)), Some(check))
    };
    let r = run(DeltaDirection::BelowSpec);
    assert_eq!(codes(&r), vec![FindingCode::RateBelowSpec]);
    assert_eq!(
        r.findings[0].message,
        "live rate 9.000 Hz is below expected 50.000 Hz (tolerance 10.00%)"
    );
    assert_eq!(r.live_stats.unwrap().name.as_deref(), Some("T"));
    let r = run(DeltaDirection::AboveSpec);
    assert_eq!(codes(&r), vec![FindingCode::RateAboveSpec]);
    assert_eq!(
        r.findings[0].message,
        "live rate 9.000 Hz is above expected 50.000 Hz (tolerance 10.00%)"
    );
    assert!(run(DeltaDirection::OnSpec).findings.is_empty());
}

#[test]
fn verdicts_name_the_direction() {
    assert_eq!(rate_verdict(true, true), DeltaDirection::OnSpec);
    assert_eq!(rate_verdict(true, false), DeltaDirection::OnSpec);
    assert_eq!(rate_verdict(false, true), DeltaDirection::BelowSpec);
    assert_eq!(rate_verdict(false, false), DeltaDirection::AboveSpec);
}

#[test]
fn suggestion_wording() {
    assert_eq!(
        suggestion_message("topic ", "\"a\"", " is near ", " is not", Some("\"b\"".into())),
        "topic \"a\" is near \"b\""
    );
    assert_eq!(
        suggestion_message("topic ", "\"a\"", " is near ", " is not", None),
        "topic \"a\" is not"
    );
}
