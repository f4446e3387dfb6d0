use ecal_mcp::cli::{
    chosen_command, dispatch, needs_ecal, run, tool_name, tools_manifest, unknown_tool_message,
    wants_pretty, Cli, Cmd, Task, Tool, ToolEntry,
};
use ecal_mcp::json::{
    build_args, no_equals_message, printed_text, render_value, require_object, split_once,
    value_or_text,
};
use serde_json::Value;

fn text(s: &str) -> Value {
    Value::String(s.to_string())
}

const TOOLS: [Tool; 13] = [
    Tool::ListPublishers,
    Tool::ListSubscribers,
    Tool::ListServices,
    Tool::ListServiceClients,
    Tool::ListProcesses,
    Tool::ListHosts,
    Tool::GetMonitoring,
    Tool::GetLogs,
    Tool::Publish,
    Tool::Subscribe,
    Tool::CallService,
    Tool::TopicStats,
    Tool::DiagnoseTopic,
];

fn registered() -> Vec<ToolEntry> {
    TOOLS
        .iter()
        .map(|t| {
            let mut schema = serde_json::Map::new();
            schema.insert("type".to_string(), text("object"));
            ToolEntry {
                name: tool_name(*t),
                description: Some(format!("about {}", tool_name(*t))),
                input_schema: Value::Object(schema),
            }
        })
        .collect()
}

#[test]
fn build_args_kv_typed_coercion() {
    let v = build_args(
        None,
        vec![
            "duration_ms=5000".into(),
            "include_descriptors=true".into(),
            "name_pattern=lidar".into(),
            "since_timestamp_us=null".into(),
            "tags=[\"a\",\"b\"]".into(),
        ],
    )
    .unwrap();
    let o = v.as_object().unwrap();
    assert_eq!(o["duration_ms"], Value::from(5000));
    assert_eq!(o["include_descriptors"], Value::from(true));
    assert_eq!(o["name_pattern"], text("lidar"));
    assert_eq!(o["since_timestamp_us"], Value::Null);
    assert_eq!(o["tags"], Value::Array(vec![text("a"), text("b")]));
}

#[test]
fn build_args_kv_quoted_string_stays_string() {
    let v = build_args(None, vec!["text=\"hello\"".into()]).unwrap();
    assert_eq!(v["text"], text("hello"));
}

#[test]
fn build_args_json_path() {
    let v = build_args(
        Some("{\"topic\":\"/foo\",\"duration_ms\":2000}".into()),
        vec![],
    )
    .unwrap();
    assert_eq!(v["topic"], text("/foo"));
    assert_eq!(v["duration_ms"], Value::from(2000));
}

#[test]
fn build_args_json_must_be_object() {
    let err = build_args(Some("[1,2,3]".into()), vec![]).unwrap_err();
    assert!(
        err.contains("must be a JSON object"),
        "expected object-type guard, got {err:?}"
    );
}

#[test]
fn build_args_kv_requires_equals() {
    let err = build_args(None, vec!["bare_token".into()]).unwrap_err();
    assert!(
        err.contains("key=value"),
        "expected key=value hint, got {err:?}"
    );
    assert_eq!(err, "expected key=value, got \"bare_token\"");
}

#[test]
fn build_args_reports_bad_json() {
    let err = build_args(Some("{nope".into()), vec![]).unwrap_err();
    assert!(err.starts_with("--json is not valid JSON: key must be a string"), "got {err:?}");
}

#[test]
fn build_args_splits_at_the_first_equals_and_keeps_the_last() {
    let v = build_args(
        None,
        vec!["expr=a=b".into(), "k=1".into(), "k=two".into(), "empty=".into(), "=5".into()],
    )
    .unwrap();
    assert_eq!(v["expr"], text("a=b"));
    assert_eq!(v["k"], text("two"));
    assert_eq!(v["empty"], text(""));
    assert_eq!(v[""], Value::from(5));
    assert_eq!(build_args(None, vec![]).unwrap(), Value::Object(serde_json::Map::new()));
}

#[test]
fn build_args_whole_text_goes_before_entries() {
    let v = build_args(Some("{\"a\":1}".into()), vec!["broken".into()]).unwrap();
    assert_eq!(v["a"], Value::from(1));
}

#[test]
fn entries_split_once() {
    assert_eq!(split_once("a=b=c"), Some(("a".into(), "b=c".into())));
    assert_eq!(split_once("\u{e9}=x"), Some(("\u{e9}".into(), "x".into())));
    assert_eq!(split_once("="), Some((String::new(), String::new())));
    assert_eq!(split_once("none"), None);
    assert_eq!(split_once(""), None);
}

#[test]
fn outcomes_of_reading_json() {
    assert_eq!(value_or_text(Ok(Value::from(7)), "7".into()), Value::from(7));
    assert_eq!(value_or_text(Err("bad".into()), "7x".into()), text("7x"));
    assert_eq!(
        require_object(Err("bad".into())),
        Err("--json is not valid JSON: bad".to_string())
    );
    assert_eq!(
        require_object(Ok(Value::Null)),
        Err("--json must be a JSON object".to_string())
    );
    let object = Value::Object(serde_json::Map::new());
    assert_eq!(require_object(Ok(object.clone())), Ok(object));
    assert_eq!(no_equals_message("\"x\""), "expected key=value, got \"x\"");
}

#[test]
fn values_are_rendered() {
    let v = build_args(None, vec!["b=1".into(), "a=[2]".into()]).unwrap();
    assert_eq!(render_value(&v, false), "{\"a\":[2],\"b\":1}");
    assert_eq!(render_value(&v, true), "{\n  \"a\": [\n    2\n  ],\n  \"b\": 1\n}");
    assert_eq!(printed_text(Ok("x".into())), "x");
    assert_eq!(printed_text(Err("oops".into())), "{\"error\":\"oops\"}");
}

#[test]
fn tools_manifest_reflects_router_one_to_one() {
    let arr = tools_manifest(registered());
    assert_eq!(
        arr.len(),
        registered().len(),
        "tools_manifest should mirror tool_router 1:1"
    );
}

#[test]
fn tools_manifest_every_entry_has_description_and_schema() {
    for entry in tools_manifest(registered()) {
        let name = entry.name.as_str();
        let desc = entry.description.as_deref().unwrap_or("");
        assert!(
            !desc.trim().is_empty(),
            "tool {name:?} has no description in the live registry"
        );
        assert_eq!(desc, format!("about {name}"));
        let schema = entry
            .input_schema
            .as_object()
            .unwrap_or_else(|| panic!("tool {name:?} has no input_schema object"));
        assert_eq!(
            schema.get("type").and_then(Value::as_str),
            Some("object"),
            "tool {name:?} input_schema must be a JSON object schema"
        );
    }
}

#[test]
fn tools_manifest_is_sorted_and_includes_known_tools() {
    let arr = tools_manifest(registered());
    let names: Vec<&str> = arr.iter().map(|e| e.name.as_str()).collect();
    let mut sorted = names.clone();
    sorted.sort();
    assert_eq!(names, sorted, "tools_manifest output must be name-sorted");
    let expected = [
        "ecal_call_service",
        "ecal_diagnose_topic",
        "ecal_get_logs",
        "ecal_get_monitoring",
        "ecal_list_hosts",
        "ecal_list_processes",
        "ecal_list_publishers",
        "ecal_list_service_clients",
        "ecal_list_services",
        "ecal_list_subscribers",
        "ecal_publish",
        "ecal_subscribe",
        "ecal_topic_stats",
    ];
    let actual: std::collections::BTreeSet<&str> = names.iter().copied().collect();
    let want: std::collections::BTreeSet<&str> = expected.iter().copied().collect();
    assert_eq!(
        actual, want,
        "tools_manifest tool-name set drift: actual={actual:?} expected={want:?}"
    );
}

#[test]
fn tools_manifest_keeps_entries_of_one_name_in_order() {
    let entry = |name: &str, description: &str| ToolEntry {
        name: name.into(),
        description: Some(description.into()),
        input_schema: Value::Null,
    };
    let arr = tools_manifest(vec![entry("b", "1"), entry("a", "2"), entry("b", "3")]);
    let shown: Vec<(&str, &str)> =
        arr.iter().map(|e| (e.name.as_str(), e.description.as_deref().unwrap())).collect();
    assert_eq!(shown, vec![("a", "2"), ("b", "1"), ("b", "3")]);
}

#[test]
fn every_tool_is_dispatched_by_its_name() {
    for t in TOOLS {
        assert_eq!(dispatch(&tool_name(t)), Ok(t));
    }
    assert_eq!(
        dispatch("ecal_nope"),
        Err("unknown tool \"ecal_nope\"; run `ecal-mcp tools` to list available tools".to_string())
    );
    assert!(dispatch("").is_err());
    assert_eq!(
        unknown_tool_message("'x'"),
        "unknown tool 'x'; run `ecal-mcp tools` to list available tools"
    );
}

fn call(json: Option<&str>, arg: &[&str], settle_ms: u64) -> Cmd {
    Cmd::Call {
        tool: "ecal_get_logs".into(),
        json: json.map(String::from),
        arg: arg.iter().map(|s| s.to_string()).collect(),
        pretty: false,
        settle_ms,
    }
}

#[test]
fn commands_come_down_to_tasks() {
    assert!(matches!(run(Cmd::Tools { compact: true }), Ok(Task::Manifest)));
    match run(call(None, &["min_level=info"], 2000)).unwrap() {
        Task::Call { tool, args, settle_ms } => {
            assert_eq!(tool, "ecal_get_logs");
            assert_eq!(args["min_level"], text("info"));
            assert_eq!(settle_ms, Some(2000));
        }
        other => panic!("unexpected task {other:?}"),
    }
    match run(call(None, &[], 0)).unwrap() {
        Task::Call { settle_ms, .. } => assert_eq!(settle_ms, None),
        other => panic!("unexpected task {other:?}"),
    }
    assert_eq!(run(call(Some("7"), &[], 0)).unwrap_err(), "--json must be a JSON object");
}

#[test]
fn serving_is_the_default() {
    assert!(matches!(chosen_command(Cli { command: None }), Cmd::Serve));
    let tools = chosen_command(Cli { command: Some(Cmd::Tools { compact: false }) });
    assert!(!needs_ecal(&tools));
    assert!(wants_pretty(&tools));
    assert!(!wants_pretty(&Cmd::Tools { compact: true }));
    assert!(needs_ecal(&Cmd::Serve));
    assert!(!wants_pretty(&Cmd::Serve));
    let one = call(None, &[], 0);
    assert!(needs_ecal(&one));
    assert!(!wants_pretty(&one));
}
