use ecal_mcp::measure::{
    diagnose_window, is_measurable, stats_window, window_stats, WindowAcc,
};
use ecal_mcp::monitoring::{DataTypeInfo, MonitoringSnapshot, TopicInfo};
use ecal_mcp::payload::{
    decoded_payload, is_printable, show_payload, show_sample, take_payload, Payload, PayloadError, ToolError,
};
use ecal_mcp::publish::{
    plan_publish, Discovery, PublishArgs, SendRun, SendStep, WaitStep, INSTANCE_POLL_MS,
    SUBSCRIBER_POLL_MS,
};
use ecal_mcp::server::{EcalServer, TopicStatsArgs};
use ecal_mcp::service::{call_result, no_reply_message, plan_call, CallServiceArgs, ServiceReply};
use ecal_mcp::subscribe::{listen_window, Collector, Received, SubscribeArgs};

const CHOICE: &str = "exactly one of `text` or `payload_base64` must be provided";

fn publish_args(text: Option<&str>, payload_base64: Option<&str>) -> PublishArgs {
    PublishArgs {
        topic_name: "/t".into(),
        text: text.map(String::from),
        payload_base64: payload_base64.map(String::from),
        discovery_wait_ms: None,
        repeat: None,
        repeat_interval_ms: None,
    }
}

fn call_args(text: Option<&str>, payload_base64: Option<&str>, target: Option<u64>) -> CallServiceArgs {
    CallServiceArgs {
        service: "svc".into(),
        method: "echo".into(),
        text: text.map(String::from),
        payload_base64: payload_base64.map(String::from),
        timeout_ms: None,
        discovery_wait_ms: None,
        target_service_id: target,
    }
}

fn reply(service_id: u64, payload: &[u8]) -> Option<ServiceReply> {
    Some(ServiceReply {
        service_id,
        process_id: 7,
        host_name: "h".into(),
        success: true,
        error: None,
        payload: payload.to_vec(),
    })
}

#[test]
fn publish_defaults() {
    let plan = plan_publish(publish_args(Some("h\u{e9}"), None)).unwrap();
    assert_eq!(plan.topic_name, "/t");
    assert!(matches!(&plan.payload, Payload::Text(s) if s == "h\u{e9}"));
    assert_eq!(plan.bytes_sent, 3);
    assert_eq!(plan.discovery_wait_ms, 500);
    assert_eq!(plan.repeat, 1);
    assert_eq!(plan.repeat_interval_ms, 100);
}

#[test]
fn publish_takes_what_is_given() {
    let mut args = publish_args(None, Some("AQIDBA=="));
    args.discovery_wait_ms = Some(0);
    args.repeat = Some(5);
    args.repeat_interval_ms = Some(7);
    let plan = plan_publish(args).unwrap();
    assert!(matches!(&plan.payload, Payload::Bytes(b) if *b == vec![1, 2, 3, 4]));
    assert_eq!(plan.bytes_sent, 4);
    assert_eq!(plan.discovery_wait_ms, 0);
    assert_eq!(plan.repeat, 5);
    assert_eq!(plan.repeat_interval_ms, 7);
}

#[test]
fn publish_needs_exactly_one_payload() {
    for args in [publish_args(None, None), publish_args(Some("a"), Some("YQ=="))] {
        match plan_publish(args) {
            Err(ToolError::InvalidParams(m)) => assert_eq!(m, CHOICE),
            other => panic!("unexpected outcome {other:?}"),
        }
    }
}

#[test]
fn publish_reports_bad_base64_as_a_failure() {
    match plan_publish(publish_args(None, Some("A"))) {
        Err(ToolError::Internal(m)) => {
            assert!(m.starts_with("invalid base64: "), "got {m:?}");
            assert!(m.len() > "invalid base64: ".len());
        }
        other => panic!("unexpected outcome {other:?}"),
    }
}

#[test]
fn payload_outcomes() {
    assert!(matches!(decoded_payload(Ok(vec![1])), Ok(Payload::Bytes(b)) if b == vec![1]));
    assert!(matches!(decoded_payload(Err("x".into())), Err(PayloadError::Base64(e)) if e == "x"));
    assert!(matches!(take_payload(None, None), Err(PayloadError::Choice)));
    assert!(matches!(
        take_payload(None, Some("//4=".into())),
        Ok(Payload::Bytes(b)) if b == vec![0xff, 0xfe]
    ));
}

#[test]
fn waiting_ends_with_a_counterpart_or_the_deadline() {
    let wait = Discovery::new(1_000_000, 500, SUBSCRIBER_POLL_MS);
    assert_eq!(wait.step(0, 1_000_000), WaitStep::Sleep(20));
    assert_eq!(wait.step(0, 500_999_999), WaitStep::Sleep(20));
    assert_eq!(wait.step(0, 501_000_000), WaitStep::Proceed);
    assert_eq!(wait.step(1, 1_000_000), WaitStep::Proceed);
    let none = Discovery::new(5, 0, INSTANCE_POLL_MS);
    assert_eq!(none.step(0, 5), WaitStep::Proceed);
    let long = Discovery::new(u64::MAX, u64::MAX, INSTANCE_POLL_MS);
    assert_eq!(long.step(0, u64::MAX), WaitStep::Sleep(50));
}

#[test]
fn sends_are_counted() {
    let mut args = publish_args(Some("abc"), None);
    args.repeat = Some(3);
    let plan = plan_publish(args).unwrap();
    let mut run = SendRun::new(&plan);
    assert!(run.is_due());
    assert_eq!(run.record(true), SendStep::Pause);
    assert_eq!(run.record(false), SendStep::Pause);
    assert_eq!(run.record(true), SendStep::Finished);
    assert!(!run.is_due());
    let r = run.result(&plan);
    assert_eq!(r.topic_name, "/t");
    assert_eq!(r.bytes_sent, 3);
    assert_eq!(r.sends_succeeded, 2);
    assert_eq!(r.sends_attempted, 3);
}

#[test]
fn zero_repeats_send_nothing() {
    let mut args = publish_args(Some("abc"), None);
    args.repeat = Some(0);
    let plan = plan_publish(args).unwrap();
    assert_eq!(plan.repeat, 0);
    let run = SendRun::new(&plan);
    assert!(!run.is_due());
    let r = run.result(&plan);
    assert_eq!(r.bytes_sent, 3);
    assert_eq!(r.sends_succeeded, 0);
    assert_eq!(r.sends_attempted, 0);
}

#[test]
fn samples_go_without_base64_only_where_printable() {
    assert_eq!(show_sample(&[0x00]), (Some("\0".into()), Some("AA==".into())));
    assert_eq!(show_sample(b"h\xc3\xa9llo"), (Some("h\u{e9}llo".into()), None));
    assert_eq!(show_sample(b"a\n").1.as_deref(), Some("YQo="));
    assert_eq!(show_sample("\u{85}".as_bytes()).1.as_deref(), Some("woU="));
    assert_eq!(show_sample(&[0xff]), (None, Some("/w==".into())));
    assert_eq!(show_sample(&vec![b'a'; 256]).1, None);
    assert!(show_sample(&vec![b'a'; 257]).1.is_some());
    // An answer is shown as text alone as soon as it is short text.
    assert_eq!(show_payload(&[0x00]), (Some("\0".into()), None));
    for c in ['\0', '\t', '\u{1f}', ' ', '~', '\u{7f}', '\u{9f}', '\u{a0}', '\u{e9}'] {
        assert_eq!(is_printable(&c.to_string()), !c.is_control(), "{c:?}");
    }
}

#[test]
fn payloads_are_shown_so_that_bytes_can_be_had_back() {
    assert_eq!(show_payload(b"hi"), (Some("hi".into()), None));
    assert_eq!(show_payload(b""), (Some(String::new()), None));
    assert_eq!(show_payload(&[0xff, 0xfe]), (None, Some("//4=".into())));
    let edge = vec![b'a'; 256];
    assert_eq!(show_payload(&edge).1, None);
    let long = vec![b'a'; 257];
    let (text, base64) = show_payload(&long);
    assert_eq!(text, Some("a".repeat(257)));
    match take_payload(None, base64) {
        Ok(Payload::Bytes(b)) => assert_eq!(b, long),
        other => panic!("unexpected outcome {other:?}"),
    }
}

fn received(payload: &[u8]) -> Received {
    Received {
        topic_name: "/t".into(),
        timestamp: 1,
        clock: 2,
        payload: payload.to_vec(),
        encoding: "utf-8".into(),
        name: "string".into(),
    }
}

#[test]
fn samples_beyond_the_cap_are_counted() {
    let args = SubscribeArgs { topic_name: "/t".into(), duration_ms: Some(5), max_samples: Some(2) };
    assert_eq!(listen_window(&args), 5);
    let mut c = Collector::new(&args);
    for p in [b"a".as_slice(), &[0xff], b"c", b"d"] {
        assert!(c.has_room());
        c.offer(received(p));
    }
    let r = c.finish("/t".into(), 5);
    assert_eq!(r.topic_name, "/t");
    assert_eq!(r.duration_ms, 5);
    assert_eq!(r.samples_collected, 2);
    assert_eq!(r.samples_truncated_at_cap, 2);
    assert_eq!(r.samples[0].text.as_deref(), Some("a"));
    assert_eq!(r.samples[0].payload_base64, None);
    assert_eq!(r.samples[0].size, 1);
    assert_eq!(r.samples[0].timestamp_us, 1);
    assert_eq!(r.samples[0].clock, 2);
    assert_eq!(r.samples[0].encoding, "utf-8");
    assert_eq!(r.samples[0].name, "string");
    assert_eq!(r.samples[1].text, None);
    assert_eq!(r.samples[1].payload_base64.as_deref(), Some("/w=="));
}

#[test]
fn a_sample_of_a_zero_byte_has_both_forms() {
    let args = SubscribeArgs { topic_name: "/t".into(), duration_ms: Some(10), max_samples: None };
    let mut c = Collector::new(&args);
    c.offer(received(&[0x00]));
    let r = c.finish("/t".into(), listen_window(&args));
    assert_eq!(r.samples.len(), 1);
    assert_eq!(r.samples[0].size, 1);
    assert_eq!(r.samples[0].text.as_deref(), Some("\0"));
    assert_eq!(r.samples[0].payload_base64.as_deref(), Some("AA=="));
}

#[test]
fn subscribe_defaults() {
    let args = SubscribeArgs { topic_name: "/t".into(), duration_ms: None, max_samples: None };
    assert_eq!(listen_window(&args), 1000);
    let mut c = Collector::new(&args);
    for _ in 0..12 {
        c.offer(received(b"x"));
    }
    let r = c.finish("/t".into(), 1000);
    assert_eq!(r.samples_collected, 10);
    assert_eq!(r.samples_truncated_at_cap, 2);

    let none = SubscribeArgs { topic_name: "/t".into(), duration_ms: None, max_samples: Some(0) };
    let mut c = Collector::new(&none);
    c.offer(received(b"x"));
    let r = c.finish("/t".into(), 0);
    assert!(r.samples.is_empty());
    assert_eq!(r.samples_truncated_at_cap, 1);
}

#[test]
fn call_defaults_and_errors() {
    let plan = plan_call(call_args(Some("hi"), None, None)).unwrap();
    assert_eq!(plan.payload, b"hi".to_vec());
    assert_eq!(plan.timeout_ms, 2000);
    assert_eq!(plan.discovery_wait_ms, 1000);
    assert_eq!(plan.target_service_id, None);
    let plan = plan_call(call_args(None, Some("AQIDBA=="), Some(3))).unwrap();
    assert_eq!(plan.payload, vec![1, 2, 3, 4]);
    assert_eq!(plan.target_service_id, Some(3));
    match plan_call(call_args(None, None, None)) {
        Err(ToolError::InvalidParams(m)) => assert_eq!(m, CHOICE),
        other => panic!("unexpected outcome {other:?}"),
    }
    match plan_call(call_args(None, Some("!"), None)) {
        Err(ToolError::InvalidParams(m)) => assert!(m.starts_with("invalid base64: ")),
        other => panic!("unexpected outcome {other:?}"),
    }
}

#[test]
fn every_instance_answers_without_a_target() {
    let plan = plan_call(call_args(Some("hi"), None, None)).unwrap();
    let r = call_result(&plan, &vec![reply(1, b"one"), None, reply(2, &[0xff])]);
    assert_eq!(r.service, "svc");
    assert_eq!(r.method, "echo");
    assert_eq!(r.discovered_instances, 3);
    assert_eq!(r.requested_target_service_id, None);
    assert_eq!(r.responses.len(), 3);
    assert_eq!(r.responses[0].instance_index, 0);
    assert!(r.responses[0].success);
    assert_eq!(r.responses[0].error, None);
    assert_eq!(r.responses[0].service_id, 1);
    assert_eq!(r.responses[0].service_process_id, 7);
    assert_eq!(r.responses[0].service_host_name, "h");
    assert_eq!(r.responses[0].response_size, 3);
    assert_eq!(r.responses[0].response_text.as_deref(), Some("one"));
    assert_eq!(r.responses[0].response_base64, None);
    assert_eq!(r.responses[1].instance_index, 1);
    assert!(!r.responses[1].success);
    assert_eq!(
        r.responses[1].error.as_deref(),
        Some(
            "rustecal returned None for method \"echo\" (likely an interior NUL in the method name)"
        )
    );
    assert_eq!(r.responses[1].service_id, 0);
    assert_eq!(r.responses[2].instance_index, 2);
    assert_eq!(r.responses[2].response_text, None);
    assert_eq!(r.responses[2].response_base64.as_deref(), Some("/w=="));
    assert_eq!(
        no_reply_message("x"),
        "rustecal returned None for method x (likely an interior NUL in the method name)"
    );
}

#[test]
fn errors_are_shown_with_failures_only() {
    let plan = plan_call(call_args(Some("hi"), None, None)).unwrap();
    let answer = |success: bool, error: Option<&str>| {
        Some(ServiceReply {
            service_id: 1,
            process_id: 7,
            host_name: "h".into(),
            success,
            error: error.map(String::from),
            payload: vec![],
        })
    };
    let r = call_result(
        &plan,
        &vec![answer(false, Some("timeout")), answer(true, Some("")), answer(false, None)],
    );
    assert_eq!(r.responses[0].error.as_deref(), Some("timeout"));
    assert!(!r.responses[0].success);
    assert_eq!(r.responses[1].error, None);
    assert!(r.responses[1].success);
    assert_eq!(r.responses[2].error, None);
    assert!(!r.responses[2].success);
}

#[test]
fn a_target_keeps_its_own_answer() {
    let plan = plan_call(call_args(Some("hi"), None, Some(2))).unwrap();
    let r = call_result(&plan, &vec![reply(1, b"one"), None, reply(2, b"two")]);
    assert_eq!(r.discovered_instances, 3);
    assert_eq!(r.requested_target_service_id, Some(2));
    assert_eq!(r.responses.len(), 1);
    assert_eq!(r.responses[0].instance_index, 0);
    assert_eq!(r.responses[0].service_id, 2);
}

#[test]
fn gone_and_filtered_can_be_told_apart() {
    let plan = plan_call(call_args(Some("hi"), None, Some(9))).unwrap();
    let filtered = call_result(&plan, &vec![reply(1, b"one")]);
    assert_eq!(filtered.discovered_instances, 1);
    assert_eq!(filtered.requested_target_service_id, Some(9));
    assert!(filtered.responses.is_empty());
    let gone = call_result(&plan, &vec![]);
    assert_eq!(gone.discovered_instances, 0);
    assert_eq!(gone.requested_target_service_id, None);
    assert!(gone.responses.is_empty());
}

#[test]
fn windows_have_defaults_and_a_cap() {
    assert_eq!(stats_window(None), 2000);
    assert_eq!(diagnose_window(None), 1500);
    assert_eq!(stats_window(Some(60_001)), 60_000);
    assert_eq!(diagnose_window(Some(60_000)), 60_000);
    assert_eq!(diagnose_window(Some(0)), 0);
}

#[test]
fn windows_add_up_whatever_the_order() {
    let mut acc = WindowAcc::new();
    acc.record(300, 5, "T".into(), "proto".into());
    acc.record(100, 1, "U".into(), "utf-8".into());
    acc.record(150, 9, "V".into(), String::new());
    assert!(is_measurable(&acc));
    let s = window_stats(acc);
    assert_eq!(s.samples_observed, 3);
    assert_eq!(s.total_bytes, 15);
    assert_eq!(s.min_size_bytes, Some(1));
    assert_eq!(s.max_size_bytes, Some(9));
    assert_eq!(s.gaps_us, vec![50, 150]);
    assert_eq!(s.min_gap_us, Some(50));
    assert_eq!(s.max_gap_us, Some(150));
    assert_eq!(s.first_timestamp_us, Some(100));
    assert_eq!(s.last_timestamp_us, Some(300));
    assert_eq!(s.name.as_deref(), Some("T"));
    assert_eq!(s.encoding.as_deref(), Some("proto"));
    // The gaps sum to the span, and the mean lies between the extremes.
    assert_eq!(s.gaps_us.iter().sum::<i64>(), 200);
    let mean = 200.0 / 2.0;
    assert!(50.0 <= mean && mean <= 150.0);
}

#[test]
fn short_windows_have_no_gaps() {
    let s = window_stats(WindowAcc::new());
    assert_eq!(s.samples_observed, 0);
    assert_eq!(s.total_bytes, 0);
    assert_eq!(s.min_size_bytes, None);
    assert_eq!(s.first_timestamp_us, None);
    assert_eq!(s.name, None);
    let mut acc = WindowAcc::new();
    acc.record(-4, 2, "T".into(), "p".into());
    let s = window_stats(acc);
    assert_eq!(s.min_gap_us, None);
    assert_eq!(s.max_gap_us, None);
    assert_eq!(s.first_timestamp_us, Some(-4));
    assert_eq!(s.last_timestamp_us, Some(-4));
    assert_eq!(s.max_size_bytes, Some(2));
}

#[test]
fn windows_too_wide_are_recognised() {
    let mut acc = WindowAcc::new();
    acc.record(i64::MIN, 0, String::new(), String::new());
    acc.record(0, 0, String::new(), String::new());
    assert!(!is_measurable(&acc));
    let mut acc = WindowAcc::new();
    acc.record(i64::MIN + 1, usize::MAX, String::new(), String::new());
    acc.record(0, 0, String::new(), String::new());
    assert!(is_measurable(&acc));
    acc.record(0, 1, String::new(), String::new());
    assert!(!is_measurable(&acc));
}

#[test]
fn topic_stats_name_several_publishers() {
    let topic = |id: i64| TopicInfo {
        registration_clock: 0,
        host_name: "h".into(),
        shm_transport_domain: "h".into(),
        process_id: 1,
        process_name: "p".into(),
        unit_name: "u".into(),
        topic_id: id,
        topic_name: "/t".into(),
        data_type: DataTypeInfo { name: "T".into(), encoding: "e".into(), descriptor: vec![] },
        transport_layers: vec![],
        connections_local: 0,
        connections_external: 0,
        message_drops: 0,
        data_clock: 0,
        data_frequency: 0,
    };
    let snap = MonitoringSnapshot {
        processes: vec![],
        publishers: vec![topic(1), topic(2)],
        subscribers: vec![],
        servers: vec![],
        clients: vec![],
    };
    let server = EcalServer::new();
    let args = TopicStatsArgs { topic_name: "/t".into(), duration_ms: None };
    let r = server.ecal_topic_stats(&snap, &args, WindowAcc::new());
    assert_eq!(r.topic_name, "/t");
    assert_eq!(r.duration_ms, 2000);
    assert_eq!(r.window.samples_observed, 0);
    assert_eq!(r.publishers.unwrap().len(), 2);
    let args = TopicStatsArgs { topic_name: "/u".into(), duration_ms: Some(5) };
    assert!(server.ecal_topic_stats(&snap, &args, WindowAcc::new()).publishers.is_none());
}
