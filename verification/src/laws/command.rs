//! Laws of the command line: arguments, tools, and what the test peers take.

use vstd::prelude::*;

use crate::cli::{
    is_task_of, is_tool_name, manifest, manifest_is_complete_and_sorted, tool_names_are_distinct,
    tool_text, unknown_tool_text, Cmd, Task, Tool, ToolEntry,
};
use crate::entries::opt_text;
use crate::harness::{
    flag_value, number_value, publisher_defaults, publisher_options, service_name,
    subscriber_topic, PeerErrorView, PublisherOptionsView,
};
use crate::json::{
    arguments, entries_object, equals_at, json_content, json_line, json_pages, json_reading,
    printed, rendered, split_entry, JsonView,
};
use crate::sort::texts;
use crate::text::debug_form;

verus! {

/// `s` has an equals sign.
pub open spec fn has_equals(s: Seq<char>) -> bool {
    s.contains('=')
}

proof fn lemma_first_equals(s: Seq<char>, n: int) -> (i: int)
    requires
        0 <= n < s.len(),
        s[n] == '=',
    ensures
        0 <= i <= n,
        equals_at(s, i),
    decreases n,
{
    if exists|k: int| 0 <= k < n && s[k] == '=' {
        let k = choose|k: int| 0 <= k < n && s[k] == '=';
        lemma_first_equals(s, k)
    } else {
        assert(equals_at(s, n));
        n
    }
}

/// An entry is parted exactly where it has an equals sign; put together again, key, sign and value
/// are the entry, and the key has no sign.
pub proof fn entries_are_parted_at_the_first_sign(s: Seq<char>)
    ensures
        split_entry(s) is Some <==> has_equals(s),
        split_entry(s) matches Some(p) ==> s == p.0 + seq!['='] + p.1 && !has_equals(p.0),
{
    if has_equals(s) {
        let n = choose|n: int| 0 <= n < s.len() && s[n] == '=';
        let m = lemma_first_equals(s, n);
        let i = choose|i: int| equals_at(s, i);
        assert(equals_at(s, i));
        assert(s =~= s.take(i) + seq!['='] + s.skip(i + 1));
        assert(!has_equals(s.take(i)));
    }
    if split_entry(s) is Some {
        let i = choose|i: int| equals_at(s, i);
        assert(s[i] == '=');
    }
}

/// A key without an equals sign and a value, joined by one, are parted again.
pub proof fn joined_entries_are_parted_again(key: Seq<char>, value: Seq<char>)
    requires
        !has_equals(key),
    ensures
        split_entry(key + seq!['='] + value) == Some((key, value)),
{
    let s = key + seq!['='] + value;
    let n = key.len() as int;
    assert(s[n] == '=');
    assert forall|k: int| 0 <= k < n implies #[trigger] s[k] != '=' by {
        assert(s[k] == key[k]);
        assert(key.contains(key[k]));
    }
    assert(equals_at(s, n));
    let i = choose|i: int| equals_at(s, i);
    assert(equals_at(s, i));
    assert(i == n) by {
        if i < n {
            assert(s[i] != '=');
        } else if n < i {
            assert(s[n] != '=');
        }
    }
    assert(s.take(n) =~= key);
    assert(s.skip(n + 1) =~= value);
}

/// Entry `i` gives `key` this text.
pub open spec fn gives_key(entries: Seq<Seq<char>>, i: int, key: Seq<char>, text: Seq<char>) -> bool {
    &&& 0 <= i < entries.len()
    &&& entries[i] == key + seq!['='] + text
    &&& !has_equals(key)
}

proof fn lemma_gives_key(entries: Seq<Seq<char>>, i: int, key: Seq<char>, text: Seq<char>)
    requires
        0 <= i < entries.len(),
    ensures
        gives_key(entries, i, key, text) <==> split_entry(entries[i]) == Some((key, text)),
{
    entries_are_parted_at_the_first_sign(entries[i]);
    if gives_key(entries, i, key, text) {
        joined_entries_are_parted_again(key, text);
    }
}

/// Entries make an object exactly where each has an equals sign.
pub proof fn entries_need_signs(entries: Seq<Seq<char>>)
    ensures
        entries_object(entries) is Ok <==> forall|i: int|
            0 <= i < entries.len() ==> has_equals(#[trigger] entries[i]),
    decreases entries.len(),
{
    if entries.len() > 0 {
        let rest = entries.drop_last();
        entries_need_signs(rest);
        entries_are_parted_at_the_first_sign(entries.last());
        assert(entries[entries.len() - 1] == entries.last());
        if entries_object(entries) is Ok {
            assert forall|i: int| 0 <= i < entries.len() implies has_equals(#[trigger] entries[i]) by {
                if i < rest.len() {
                    assert(rest[i] == entries[i]);
                }
            }
        }
        if forall|i: int| 0 <= i < entries.len() ==> has_equals(#[trigger] entries[i]) {
            assert forall|i: int| 0 <= i < rest.len() implies has_equals(#[trigger] rest[i]) by {
                assert(rest[i] == entries[i]);
            }
        }
    }
}

/// The first entry without an equals sign is named, whatever follows.
pub proof fn the_first_bad_entry_is_named(entries: Seq<Seq<char>>, i: int)
    requires
        0 <= i < entries.len(),
        !has_equals(entries[i]),
        forall|k: int| 0 <= k < i ==> has_equals(#[trigger] entries[k]),
    ensures
        entries_object(entries) == Err::<Map<Seq<char>, JsonView>, Seq<char>>(
            "expected key=value, got "@ + debug_form(entries[i]),
        ),
    decreases entries.len(),
{
    let rest = entries.drop_last();
    if i == entries.len() - 1 {
        entries_need_signs(rest);
        assert forall|k: int| 0 <= k < rest.len() implies has_equals(#[trigger] rest[k]) by {
            assert(rest[k] == entries[k]);
        }
        entries_are_parted_at_the_first_sign(entries.last());
    } else {
        assert(rest[i] == entries[i]);
        assert forall|k: int| 0 <= k < i implies has_equals(#[trigger] rest[k]) by {
            assert(rest[k] == entries[k]);
        }
        the_first_bad_entry_is_named(rest, i);
    }
}

/// The object has exactly the keys that entries give.
pub proof fn keys_come_from_entries(entries: Seq<Seq<char>>, key: Seq<char>)
    requires
        entries_object(entries) is Ok,
    ensures
        entries_object(entries)->Ok_0.contains_key(key) <==> exists|i: int, text: Seq<char>|
            #[trigger] gives_key(entries, i, key, text),
    decreases entries.len(),
{
    if entries.len() > 0 {
        let rest = entries.drop_last();
        let last = entries.len() - 1;
        keys_come_from_entries(rest, key);
        let p = split_entry(entries.last())->Some_0;
        assert(entries[last] == entries.last());
        lemma_gives_key(entries, last, p.0, p.1);
        if exists|i: int, text: Seq<char>| #[trigger] gives_key(rest, i, key, text) {
            let (i, text) = choose|i: int, text: Seq<char>| #[trigger] gives_key(rest, i, key, text);
            assert(rest[i] == entries[i]);
            assert(gives_key(entries, i, key, text));
        }
        if exists|i: int, text: Seq<char>| #[trigger] gives_key(entries, i, key, text) {
            let (i, text) = choose|i: int, text: Seq<char>| #[trigger] gives_key(entries, i, key, text);
            if i < last {
                assert(rest[i] == entries[i]);
                assert(gives_key(rest, i, key, text));
            } else {
                lemma_gives_key(entries, last, key, text);
            }
        }
    }
}

/// Under each key the object holds what the last entry of the key gives: what its text reads as
/// JSON, or the text where it does not read.
pub proof fn the_last_entry_of_a_key_counts(entries: Seq<Seq<char>>, i: int, key: Seq<char>, text: Seq<char>)
    requires
        entries_object(entries) is Ok,
        gives_key(entries, i, key, text),
        forall|j: int, other: Seq<char>| i < j ==> !#[trigger] gives_key(entries, j, key, other),
    ensures
        entries_object(entries)->Ok_0.contains_key(key),
        json_reading(text) matches Ok(v) ==> entries_object(entries)->Ok_0[key] == v,
        json_reading(text) is Err ==> entries_object(entries)->Ok_0[key] == JsonView::Text(text),
    decreases entries.len(),
{
    let rest = entries.drop_last();
    let last = entries.len() - 1;
    let p = split_entry(entries.last())->Some_0;
    assert(entries[last] == entries.last());
    lemma_gives_key(entries, last, p.0, p.1);
    if i == last {
        lemma_gives_key(entries, last, key, text);
    } else {
        assert(rest[i] == entries[i]);
        assert(gives_key(rest, i, key, text));
        assert forall|j: int, other: Seq<char>| i < j implies !#[trigger] gives_key(rest, j, key, other) by {
            if gives_key(rest, j, key, other) {
                assert(rest[j] == entries[j]);
                assert(gives_key(entries, j, key, other));
            }
        }
        the_last_entry_of_a_key_counts(rest, i, key, text);
        assert(p.0 != key) by {
            if p.0 == key {
                assert(gives_key(entries, last, key, p.1));
            }
        }
    }
}

/// A whole JSON text gives the arguments whatever the entries are, and only an object does;
/// without one the entries do.
pub proof fn whole_texts_take_precedence(raw: Seq<char>, kv: Seq<Seq<char>>)
    ensures
        json_reading(raw) matches Ok(v) ==> {
            &&& v is Object ==> arguments(Some(raw), kv) == Ok::<JsonView, Seq<char>>(v)
            &&& !(v is Object) ==> arguments(Some(raw), kv) == Err::<JsonView, Seq<char>>(
                "--json must be a JSON object"@,
            )
        },
        json_reading(raw) matches Err(e) ==> arguments(Some(raw), kv) == Err::<JsonView, Seq<char>>(
            "--json is not valid JSON: "@ + e,
        ),
        arguments(None, kv) is Ok <==> entries_object(kv) is Ok,
        arguments(None, kv) matches Ok(v) ==> v is Object && v->Object_0 == entries_object(kv)->Ok_0,
        arguments(None, kv) matches Err(e) ==> entries_object(kv) == Err::<Map<Seq<char>, JsonView>, Seq<char>>(e),
        arguments(None, Seq::empty()) == Ok::<JsonView, Seq<char>>(JsonView::Object(Map::empty())),
{
}

/// What was written is printed as it is; an error is printed as an object that holds it.
pub proof fn errors_are_printed_as_objects(written: Result<Seq<char>, Seq<char>>)
    ensures
        written matches Ok(s) ==> printed(written) == s,
        written matches Err(e) ==> printed(written) == "{\"error\":\""@ + e + "\"}"@,
{
}

/// What is printed indented and what is printed on one line is what was written so, or the error
/// that writing it so gave.
pub proof fn values_are_printed_as_asked(v: JsonView)
    ensures
        json_pages(v) matches Ok(s) ==> rendered(v, true) == s,
        json_line(v) matches Ok(s) ==> rendered(v, false) == s,
        json_pages(v) matches Err(e) ==> rendered(v, true) == "{\"error\":\""@ + e + "\"}"@,
        json_line(v) matches Err(e) ==> rendered(v, false) == "{\"error\":\""@ + e + "\"}"@,
{
}

/// A call comes down to the tool that it names with the arguments that it gives, after a pause
/// where it asks for one; arguments that cannot be had end it. The listing of tools is the
/// manifest.
pub proof fn commands_come_down_to_tasks(r: Result<Task, String>, cmd: Cmd)
    requires
        is_task_of(r, cmd),
    ensures
        cmd is Tools ==> r is Ok && r->Ok_0 is Manifest,
        cmd matches Cmd::Call { tool, json, arg, pretty, settle_ms } ==> {
            let a = arguments(opt_text(json), texts(arg@));
            &&& r is Ok <==> a is Ok
            &&& r matches Err(e) ==> a == Err::<JsonView, Seq<char>>(e@)
            &&& r matches Ok(task) ==> {
                &&& task is Call
                &&& task->tool@ == tool@
                &&& a == Ok::<JsonView, Seq<char>>(json_content(task->args))
                &&& settle_ms == 0 ==> task->settle_ms is None
                &&& settle_ms > 0 ==> task->settle_ms == Some(settle_ms)
            }
        },
{
}

/// Each tool is called by its name, and by no other.
pub proof fn tools_have_their_names(t: Tool)
    ensures
        tool_text(t) == "ecal_list_publishers"@ <==> t == Tool::ListPublishers,
        tool_text(t) == "ecal_list_subscribers"@ <==> t == Tool::ListSubscribers,
        tool_text(t) == "ecal_list_services"@ <==> t == Tool::ListServices,
        tool_text(t) == "ecal_list_service_clients"@ <==> t == Tool::ListServiceClients,
        tool_text(t) == "ecal_list_processes"@ <==> t == Tool::ListProcesses,
        tool_text(t) == "ecal_list_hosts"@ <==> t == Tool::ListHosts,
        tool_text(t) == "ecal_get_monitoring"@ <==> t == Tool::GetMonitoring,
        tool_text(t) == "ecal_get_logs"@ <==> t == Tool::GetLogs,
        tool_text(t) == "ecal_publish"@ <==> t == Tool::Publish,
        tool_text(t) == "ecal_subscribe"@ <==> t == Tool::Subscribe,
        tool_text(t) == "ecal_call_service"@ <==> t == Tool::CallService,
        tool_text(t) == "ecal_topic_stats"@ <==> t == Tool::TopicStats,
        tool_text(t) == "ecal_diagnose_topic"@ <==> t == Tool::DiagnoseTopic,
        is_tool_name(tool_text(t)),
{
    assert forall|u: Tool| #[trigger] tool_text(u) == tool_text(t) implies u == t by {
        tool_names_are_distinct(u, t);
    }
    assert(tool_text(Tool::ListPublishers) == "ecal_list_publishers"@);
    assert(tool_text(Tool::ListSubscribers) == "ecal_list_subscribers"@);
    assert(tool_text(Tool::ListServices) == "ecal_list_services"@);
    assert(tool_text(Tool::ListServiceClients) == "ecal_list_service_clients"@);
    assert(tool_text(Tool::ListProcesses) == "ecal_list_processes"@);
    assert(tool_text(Tool::ListHosts) == "ecal_list_hosts"@);
    assert(tool_text(Tool::GetMonitoring) == "ecal_get_monitoring"@);
    assert(tool_text(Tool::GetLogs) == "ecal_get_logs"@);
    assert(tool_text(Tool::Publish) == "ecal_publish"@);
    assert(tool_text(Tool::Subscribe) == "ecal_subscribe"@);
    assert(tool_text(Tool::CallService) == "ecal_call_service"@);
    assert(tool_text(Tool::TopicStats) == "ecal_topic_stats"@);
    assert(tool_text(Tool::DiagnoseTopic) == "ecal_diagnose_topic"@);
}

/// A tool that is not known is named, with the command that lists those that are.
pub proof fn unknown_tools_are_named(quoted: Seq<char>)
    ensures
        unknown_tool_text(quoted) == "unknown tool "@ + quoted + "; run `ecal-mcp tools` to list available tools"@,
{
}

/// Every registered tool is in the manifest, and every tool of the manifest is registered.
pub proof fn manifests_hold_what_is_registered(entries: Seq<ToolEntry>, e: ToolEntry)
    requires
        entries.len() <= usize::MAX,
    ensures
        manifest(entries).contains(e) <==> entries.contains(e),
{
    broadcast use vstd::seq_lib::group_to_multiset_ensures;

    manifest_is_complete_and_sorted(entries);
    vstd::seq_lib::to_multiset_contains(manifest(entries), e);
    vstd::seq_lib::to_multiset_contains(entries, e);
}

/// Argument `i` is a flag and has its value behind it.
pub open spec fn flag_at(args: Seq<Seq<char>>, i: int, flag: Seq<char>) -> bool {
    &&& 0 <= i
    &&& i % 2 == 0
    &&& i + 1 < args.len()
    &&& args[i] == flag
}

/// Argument `i` is the last of this flag.
pub open spec fn last_flag_at(args: Seq<Seq<char>>, i: int, flag: Seq<char>) -> bool {
    &&& flag_at(args, i, flag)
    &&& forall|j: int| i < j ==> !#[trigger] flag_at(args, j, flag)
}

/// Argument `i` is a flag that the test publisher knows, and has a value behind it; that of an
/// interval is a number.
pub open spec fn taken_at(args: Seq<Seq<char>>, i: int) -> bool {
    ||| flag_at(args, i, "--topic"@)
    ||| flag_at(args, i, "--prefix"@)
    ||| flag_at(args, i, "--interval-ms"@) && number_value(args[i + 1]) is Some
}

proof fn lemma_flags_differ()
    ensures
        "--topic"@ != "--prefix"@,
        "--topic"@ != "--interval-ms"@,
        "--prefix"@ != "--interval-ms"@,
{
    reveal_strlit("--topic");
    reveal_strlit("--prefix");
    reveal_strlit("--interval-ms");
    assert("--topic"@.len() != "--prefix"@.len());
    assert("--topic"@.len() != "--interval-ms"@.len());
    assert("--prefix"@.len() != "--interval-ms"@.len());
}

proof fn lemma_shift(args: Seq<Seq<char>>, flag: Seq<char>, i: int)
    requires
        args.len() >= 2,
    ensures
        i >= 2 ==> (flag_at(args, i, flag) <==> flag_at(args.skip(2), i - 2, flag)),
        i >= 2 ==> (last_flag_at(args, i, flag) <==> last_flag_at(args.skip(2), i - 2, flag)),
        last_flag_at(args, 0, flag) <==> args[0] == flag && forall|j: int| !#[trigger] flag_at(args.skip(2), j, flag),
{
    let rest = args.skip(2);
    assert forall|j: int| j >= 2 implies (flag_at(args, j, flag) <==> #[trigger] flag_at(rest, j - 2, flag)) by {
        if j < args.len() {
            assert(rest[j - 2] == args[j]);
        }
    }
    if i >= 2 && last_flag_at(args, i, flag) {
        assert forall|j: int| i - 2 < j implies !#[trigger] flag_at(rest, j, flag) by {
            assert(flag_at(args, j + 2, flag) <==> flag_at(rest, j + 2 - 2, flag));
        }
    }
    if i >= 2 && last_flag_at(rest, i - 2, flag) {
        assert forall|j: int| i < j implies !#[trigger] flag_at(args, j, flag) by {
            assert(flag_at(args, j, flag) <==> flag_at(rest, j - 2, flag));
        }
    }
    if last_flag_at(args, 0, flag) {
        assert forall|j: int| !#[trigger] flag_at(rest, j, flag) by {
            if j >= 0 {
                assert(flag_at(args, j + 2, flag) <==> flag_at(rest, j + 2 - 2, flag));
            }
        }
    }
    if args[0] == flag && forall|j: int| !#[trigger] flag_at(rest, j, flag) {
        assert forall|j: int| 0 < j implies !#[trigger] flag_at(args, j, flag) by {
            if j >= 2 {
                assert(flag_at(args, j, flag) <==> flag_at(rest, j - 2, flag));
            }
        }
    }
}

/// The options of the test publisher are, each, what the last of its flag gives, and stay as they
/// were where there is none.
pub proof fn the_last_of_each_flag_counts(args: Seq<Seq<char>>, o: PublisherOptionsView, i: int)
    requires
        publisher_options(args, o) is Ok,
    ensures
        args.len() % 2 == 0,
        last_flag_at(args, i, "--topic"@) ==> publisher_options(args, o)->Ok_0.topic == args[i + 1],
        last_flag_at(args, i, "--prefix"@) ==> publisher_options(args, o)->Ok_0.prefix == args[i + 1],
        last_flag_at(args, i, "--interval-ms"@) ==> number_value(args[i + 1]) == Some(
            publisher_options(args, o)->Ok_0.interval_ms,
        ),
        (forall|j: int| !#[trigger] flag_at(args, j, "--topic"@)) ==> publisher_options(args, o)->Ok_0.topic
            == o.topic,
        (forall|j: int| !#[trigger] flag_at(args, j, "--prefix"@)) ==> publisher_options(args, o)->Ok_0.prefix
            == o.prefix,
        (forall|j: int| !#[trigger] flag_at(args, j, "--interval-ms"@)) ==> publisher_options(
            args,
            o,
        )->Ok_0.interval_ms == o.interval_ms,
    decreases args.len(),
{
    if args.len() > 0 {
        lemma_flags_differ();
        let rest = args.skip(2);
        let next = if args[0] == "--topic"@ {
            PublisherOptionsView { topic: args[1], ..o }
        } else if args[0] == "--prefix"@ {
            PublisherOptionsView { prefix: args[1], ..o }
        } else {
            PublisherOptionsView { interval_ms: number_value(args[1])->Some_0, ..o }
        };
        assert(publisher_options(args, o) == publisher_options(rest, next));
        the_last_of_each_flag_counts(rest, next, i - 2);
        lemma_shift(args, "--topic"@, i);
        lemma_shift(args, "--prefix"@, i);
        lemma_shift(args, "--interval-ms"@, i);
        if i >= 2 && i + 1 < args.len() {
            assert(rest[i - 2 + 1] == args[i + 1]);
        }
        lemma_none_left(args, "--topic"@);
        lemma_none_left(args, "--prefix"@);
        lemma_none_left(args, "--interval-ms"@);
    }
}

proof fn lemma_none_left(args: Seq<Seq<char>>, flag: Seq<char>)
    requires
        args.len() >= 2,
    ensures
        (forall|j: int| !#[trigger] flag_at(args, j, flag)) ==> args[0] != flag && forall|j: int|
            !#[trigger] flag_at(args.skip(2), j, flag),
{
    if forall|j: int| !#[trigger] flag_at(args, j, flag) {
        assert(!flag_at(args, 0, flag));
        assert forall|j: int| !#[trigger] flag_at(args.skip(2), j, flag) by {
            lemma_shift(args, flag, j + 2);
            assert(!flag_at(args, j + 2, flag));
        }
    }
}

/// The test publisher takes its arguments exactly where all of them are flags that it knows, each
/// with its value. The first that is not is named, or said to be no interval.
pub proof fn the_first_bad_argument_is_named(args: Seq<Seq<char>>, o: PublisherOptionsView, i: int)
    requires
        0 <= i < args.len(),
        i % 2 == 0,
        forall|j: int| 0 <= j < i && j % 2 == 0 ==> #[trigger] taken_at(args, j),
        !taken_at(args, i),
    ensures
        publisher_options(args, o) == Err::<PublisherOptionsView, PeerErrorView>(
            if flag_at(args, i, "--interval-ms"@) {
                PeerErrorView::Interval
            } else {
                PeerErrorView::Unknown(args[i])
            },
        ),
    decreases args.len(),
{
    lemma_flags_differ();
    if i > 0 {
        assert(taken_at(args, 0));
        let rest = args.skip(2);
        let next = if args[0] == "--topic"@ {
            PublisherOptionsView { topic: args[1], ..o }
        } else if args[0] == "--prefix"@ {
            PublisherOptionsView { prefix: args[1], ..o }
        } else {
            PublisherOptionsView { interval_ms: number_value(args[1])->Some_0, ..o }
        };
        assert(publisher_options(args, o) == publisher_options(rest, next));
        assert forall|j: int| 0 <= j < i - 2 && j % 2 == 0 implies #[trigger] taken_at(rest, j) by {
            assert(taken_at(args, j + 2));
            lemma_taken_shift(args, j + 2);
        }
        lemma_taken_shift(args, i);
        lemma_shift(args, "--interval-ms"@, i);
        assert(rest[i - 2] == args[i]);
        the_first_bad_argument_is_named(rest, next, i - 2);
    }
}

proof fn lemma_taken_shift(args: Seq<Seq<char>>, i: int)
    requires
        args.len() >= 2,
        i >= 2,
    ensures
        taken_at(args, i) <==> taken_at(args.skip(2), i - 2),
{
    lemma_shift(args, "--topic"@, i);
    lemma_shift(args, "--prefix"@, i);
    lemma_shift(args, "--interval-ms"@, i);
    if i + 1 < args.len() {
        assert(args.skip(2)[i - 2 + 1] == args[i + 1]);
    }
}

/// Arguments of one flag alone give what the last of it gives, or what was there before; the first
/// argument that is not the flag with its value is named.
pub proof fn single_flags_are_read(args: Seq<Seq<char>>, flag: Seq<char>, value: Seq<char>, i: int)
    ensures
        flag_value(args, flag, value) is Ok ==> args.len() % 2 == 0,
        flag_value(args, flag, value) is Ok && last_flag_at(args, i, flag) ==> flag_value(
            args,
            flag,
            value,
        )->Ok_0 == args[i + 1],
        args.len() == 0 ==> flag_value(args, flag, value) == Ok::<Seq<char>, PeerErrorView>(value),
        0 <= i < args.len() && i % 2 == 0 && !flag_at(args, i, flag) && (forall|j: int|
            0 <= j < i && j % 2 == 0 ==> #[trigger] flag_at(args, j, flag)) ==> flag_value(args, flag, value)
            == Err::<Seq<char>, PeerErrorView>(PeerErrorView::Unknown(args[i])),
    decreases args.len(),
{
    if args.len() >= 2 {
        let rest = args.skip(2);
        single_flags_are_read(rest, flag, args[1], i - 2);
        lemma_shift(args, flag, i);
        if i >= 2 && i + 1 < args.len() {
            assert(rest[i - 2 + 1] == args[i + 1]);
        }
        if i >= 2 && i < args.len() {
            assert(rest[i - 2] == args[i]);
        }
        if i >= 2 && i % 2 == 0 && (forall|j: int| 0 <= j < i && j % 2 == 0 ==> #[trigger] flag_at(args, j, flag)) {
            assert(flag_at(args, 0, flag));
            assert forall|j: int| 0 <= j < i - 2 && j % 2 == 0 implies #[trigger] flag_at(rest, j, flag) by {
                assert(flag_at(args, j + 2, flag));
                lemma_shift(args, flag, j + 2);
            }
        }
        if last_flag_at(args, 0, flag) && flag_value(args, flag, value) is Ok && args.len() > 2 {
            assert(!flag_at(rest, 0, flag));
        }
    }
}

/// One flag alone sets what it is for and leaves the rest as it is by default.
pub proof fn one_flag_sets_one_option(value: Seq<char>)
    ensures
        publisher_options(seq!["--topic"@, value], publisher_defaults()) == Ok::<
            PublisherOptionsView,
            PeerErrorView,
        >(PublisherOptionsView { topic: value, prefix: "hello-from-e2e"@, interval_ms: 100 }),
        publisher_options(seq!["--prefix"@, value], publisher_defaults()) == Ok::<
            PublisherOptionsView,
            PeerErrorView,
        >(PublisherOptionsView { topic: "ecal_mcp_e2e"@, prefix: value, interval_ms: 100 }),
        number_value(value) matches Some(n) ==> publisher_options(
            seq!["--interval-ms"@, value],
            publisher_defaults(),
        ) == Ok::<PublisherOptionsView, PeerErrorView>(
            PublisherOptionsView { topic: "ecal_mcp_e2e"@, prefix: "hello-from-e2e"@, interval_ms: n },
        ),
        number_value(value) is None ==> publisher_options(
            seq!["--interval-ms"@, value],
            publisher_defaults(),
        ) == Err::<PublisherOptionsView, PeerErrorView>(PeerErrorView::Interval),
        subscriber_topic(seq!["--topic"@, value]) == Ok::<Seq<char>, PeerErrorView>(value),
        subscriber_topic(Seq::empty()) == Ok::<Seq<char>, PeerErrorView>("ecal_mcp_realnet_pub"@),
        service_name(seq!["--service"@, value]) == Ok::<Seq<char>, PeerErrorView>(value),
        service_name(Seq::empty()) == Ok::<Seq<char>, PeerErrorView>("ecal_mcp_test_service"@),
{
    lemma_flags_differ();
    reveal_with_fuel(publisher_options, 2);
    reveal_with_fuel(flag_value, 2);
    assert(seq!["--topic"@, value].skip(2) =~= Seq::<Seq<char>>::empty());
    assert(seq!["--prefix"@, value].skip(2) =~= Seq::<Seq<char>>::empty());
    assert(seq!["--interval-ms"@, value].skip(2) =~= Seq::<Seq<char>>::empty());
    assert(seq!["--service"@, value].skip(2) =~= Seq::<Seq<char>>::empty());
}

} // verus!
