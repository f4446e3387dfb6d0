use ecal_mcp::harness::{
    echo, next_message, parse_args, parse_number, parse_service_args, parse_subscriber_args,
    peer_error_text, reverse, PeerError,
};
use ecal_mcp::sort::{sort_ints, stable_sort};
use ecal_mcp::text::{contains_text, same_text, text_less, to_ascii_lowercase};

fn args(list: &[&str]) -> Vec<String> {
    list.iter().map(|s| s.to_string()).collect()
}

#[test]
fn publisher_arguments() {
    let o = parse_args(&args(&[])).unwrap();
    assert_eq!(o.topic, "ecal_mcp_e2e");
    assert_eq!(o.prefix, "hello-from-e2e");
    assert_eq!(o.interval_ms, 100);
    let o = parse_args(&args(&[
        "--topic", "a", "--interval-ms", "+25", "--prefix", "--topic", "--topic", "b",
    ]))
    .unwrap();
    assert_eq!(o.topic, "b");
    assert_eq!(o.prefix, "--topic");
    assert_eq!(o.interval_ms, 25);
}

#[test]
fn publisher_arguments_that_are_refused() {
    let e = parse_args(&args(&["--rate", "1"])).unwrap_err();
    assert!(matches!(&e, PeerError::Unknown(s) if s == "--rate"));
    assert_eq!(peer_error_text(&e), "unknown argument: --rate");
    let e = parse_args(&args(&["--topic"])).unwrap_err();
    assert_eq!(peer_error_text(&e), "unknown argument: --topic");
    let e = parse_args(&args(&["--interval-ms", "fast"])).unwrap_err();
    assert!(matches!(e, PeerError::Interval));
    assert_eq!(peer_error_text(&e), "invalid --interval-ms");
}

#[test]
fn numbers_are_read_as_std_reads_them() {
    for s in [
        "", "0", "007", "+5", "+", "-1", "1x", "++1", "18446744073709551615",
        "18446744073709551616", "99999999999999999999999", " 1", "1+",
    ] {
        assert_eq!(parse_number(s), s.parse::<u64>().ok(), "on {s:?}");
    }
}

#[test]
fn single_flags() {
    assert_eq!(parse_subscriber_args(&args(&[])).unwrap(), "ecal_mcp_realnet_pub");
    assert_eq!(parse_subscriber_args(&args(&["--topic", "x"])).unwrap(), "x");
    assert!(parse_subscriber_args(&args(&["--service", "x"])).is_err());
    assert_eq!(parse_service_args(&args(&[])).unwrap(), "ecal_mcp_test_service");
    assert_eq!(parse_service_args(&args(&["--service", "x", "--service", "y"])).unwrap(), "y");
    assert_eq!(
        peer_error_text(&parse_service_args(&args(&["--service"])).unwrap_err()),
        "unknown argument: --service"
    );
}

#[test]
fn messages_count_up_and_start_over() {
    assert_eq!(next_message("hello", 0), ("hello 0".to_string(), 1));
    assert_eq!(next_message("", 1234567890), (" 1234567890".to_string(), 1234567891));
    assert_eq!(
        next_message("x", u64::MAX),
        ("x 18446744073709551615".to_string(), 0)
    );
}

#[test]
fn service_methods() {
    assert_eq!(echo(&[1, 2, 3]), vec![1, 2, 3]);
    assert_eq!(reverse(&[1, 2, 3]), vec![3, 2, 1]);
    assert_eq!(reverse(&reverse(&[1, 2, 3])), vec![1, 2, 3]);
    assert!(reverse(&[]).is_empty());
}

#[test]
fn texts_are_compared_as_std_compares_them() {
    let words = ["", "a", "B", "ab", "a b", "\u{e9}", "\u{1f600}", "\u{ffff}", "z"];
    for a in words {
        for b in words {
            assert_eq!(text_less(a, b), a < b, "{a:?} {b:?}");
            assert_eq!(same_text(a, b), a == b);
            assert_eq!(contains_text(a, b), a.contains(b));
        }
        assert_eq!(to_ascii_lowercase(a), a.to_ascii_lowercase());
    }
    assert_eq!(to_ascii_lowercase("AbZ[\u{c9}"), "abz[\u{c9}");
}

#[test]
fn sorting_is_stable() {
    let sorted = stable_sort(vec![(2, "a"), (1, "b"), (2, "c"), (-1, "d"), (1, "e")]);
    assert_eq!(sorted, vec![(-1, "d"), (1, "b"), (1, "e"), (2, "a"), (2, "c")]);
    assert_eq!(sort_ints(vec![3, -1, 3, i64::MIN]), vec![i64::MIN, -1, 3, 3]);
    assert!(sort_ints(vec![]).is_empty());
}
