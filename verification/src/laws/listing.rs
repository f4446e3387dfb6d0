//! Laws of the listings: which registrations have a row, and what the row shows.

use vstd::prelude::*;

use crate::codec::base64_form;
use crate::entries::{
    are_method_rows, fingerprint, is_datatype_row, is_method_row, opt_text, transport_label,
    ClientEntry, DataTypeInformation, Direction, MethodEntry, ProcessEntry, ServiceEntry,
    TopicEntry,
};
use crate::listing::{
    fits_pattern, keeps_process, keeps_topic, lists_clients, lists_processes, lists_services,
    lists_topics, ListFilter,
};
use crate::logs::{
    keeps_message, label_priority, labels_match_levels, level_label, level_text, lists_messages,
    priority, GetLogsArgs, LogEntry,
};
use crate::monitoring::{
    ClientInfo, DataTypeInfo, LogLevel, LogMessage, MethodInfo, ProcessInfo, ServerInfo, TopicInfo,
};
use crate::seqs::{ascends, filter_places};
use crate::text::{ascii_lower, ascii_lower_char, contains_run, run_at};

verus! {

/// Two characters are one letter, or the upper and lower case of one ASCII letter.
pub open spec fn same_letter(a: char, b: char) -> bool {
    ||| a == b
    ||| 'A' <= a && a <= 'Z' && b as u32 == a as u32 + 32
    ||| 'A' <= b && b <= 'Z' && a as u32 == b as u32 + 32
}

/// From place `i` on, `name` reads as `part`, letter for letter.
pub open spec fn reads_at(name: Seq<char>, part: Seq<char>, i: int) -> bool {
    &&& 0 <= i
    &&& i + part.len() <= name.len()
    &&& forall|k: int| 0 <= k < part.len() ==> same_letter(#[trigger] name[i + k], part[k])
}

proof fn lemma_same_letter(a: char, b: char)
    ensures
        ascii_lower_char(a) == ascii_lower_char(b) <==> same_letter(a, b),
{
}

/// A pattern fits exactly the names that somewhere read as it does, the case of ASCII letters
/// aside.
pub proof fn patterns_fit_where_they_read(name: Seq<char>, pattern: Seq<char>)
    ensures
        fits_pattern(name, Some(pattern)) <==> exists|i: int| reads_at(name, pattern, i),
{
    let hay = ascii_lower(name);
    let needle = ascii_lower(pattern);
    assert forall|i: int| #[trigger] run_at(hay, needle, i) <==> reads_at(name, pattern, i) by {
        if 0 <= i && i + pattern.len() <= name.len() {
            let part = hay.subrange(i, i + needle.len());
            if part == needle {
                assert forall|k: int| 0 <= k < pattern.len() implies same_letter(
                    #[trigger] name[i + k],
                    pattern[k],
                ) by {
                    assert(part[k] == needle[k]);
                    assert(part[k] == ascii_lower_char(name[i + k]));
                    lemma_same_letter(name[i + k], pattern[k]);
                }
            }
            if reads_at(name, pattern, i) {
                assert forall|k: int| 0 <= k < part.len() implies part[k] == needle[k] by {
                    assert(same_letter(name[i + k], pattern[k]));
                    lemma_same_letter(name[i + k], pattern[k]);
                }
                assert(part =~= needle);
            }
        }
    }
    if contains_run(hay, needle) {
        let i = choose|i: int| run_at(hay, needle, i);
        assert(reads_at(name, pattern, i));
    }
    if exists|i: int| reads_at(name, pattern, i) {
        let i = choose|i: int| reads_at(name, pattern, i);
        assert(run_at(hay, needle, i));
    }
}

/// What a listing of topics shows: at ascending places of the snapshot, every registration whose
/// topic name fits the one pattern and whose type name fits the other, and no other; each row with
/// what the registration says, with descriptors exactly where asked for.
pub proof fn topic_listings_show_what_fits(
    r: Seq<TopicEntry>,
    s: Seq<TopicInfo>,
    direction: Direction,
    args: ListFilter,
) -> (from: Seq<int>)
    requires
        lists_topics(r, s, direction, args),
    ensures
        from.len() == r.len(),
        ascends(from),
        forall|j: int|
            0 <= j < s.len() ==> (from.contains(j) <==> fits_pattern(
                (#[trigger] s[j]).topic_name@,
                opt_text(args.name_pattern),
            ) && fits_pattern(s[j].data_type.name@, opt_text(args.type_name_pattern))),
        forall|i: int|
            0 <= i < r.len() ==> {
                let e = #[trigger] r[i];
                let t = s[from[i]];
                &&& 0 <= from[i] < s.len()
                &&& e.topic_name@ == t.topic_name@
                &&& e.direction == direction
                &&& e.host_name@ == t.host_name@
                &&& e.shm_transport_domain@ == t.shm_transport_domain@
                &&& e.process_id == t.process_id
                &&& e.process_name@ == t.process_name@
                &&& e.unit_name@ == t.unit_name@
                &&& e.topic_id == t.topic_id
                &&& e.connections_local == t.connections_local
                &&& e.connections_external == t.connections_external
                &&& e.message_drops == t.message_drops
                &&& e.registered_data_frequency_mhz == t.data_frequency
                &&& e.data_clock == t.data_clock
                &&& e.registration_clock == t.registration_clock
                &&& e.datatype_information.name@ == t.data_type.name@
                &&& e.datatype_information.encoding@ == t.data_type.encoding@
                &&& e.datatype_information.descriptor_len == t.data_type.descriptor@.len()
                &&& e.datatype_information.descriptor_base64 is Some <==> args.include_descriptors == Some(
                    true,
                ) && t.data_type.descriptor@.len() > 0
                &&& e.transport_layer@.len() == t.transport_layers@.len()
                &&& forall|k: int|
                    0 <= k < t.transport_layers@.len() ==> {
                        let l = #[trigger] t.transport_layers@[k];
                        &&& e.transport_layer@[k].layer_type@ == transport_label(l.transport_type)
                        &&& e.transport_layer@[k].version == l.version
                        &&& e.transport_layer@[k].active == l.active
                    }
            },
{
    let pred = |t: TopicInfo| keeps_topic(args, t);
    let from = filter_places(s, pred);
    let kept = s.filter(pred);
    assert forall|j: int| 0 <= j < s.len() implies (from.contains(j) <==> fits_pattern(
        (#[trigger] s[j]).topic_name@,
        opt_text(args.name_pattern),
    ) && fits_pattern(s[j].data_type.name@, opt_text(args.type_name_pattern))) by {
        assert(pred(s[j]) <==> from.contains(j));
    }
    assert forall|i: int| 0 <= i < r.len() implies kept[i] == s[#[trigger] from[i]] && 0 <= from[i] < s.len() by {}
    from
}

/// What a row shows of a type: its names, the length of its descriptor, a fingerprint exactly where
/// there is a descriptor, and the descriptor in base-64 exactly where there is one and it is asked
/// for.
pub proof fn type_rows_show_types(d: DataTypeInformation, t: DataTypeInfo, shows: bool)
    requires
        is_datatype_row(d, t, shows),
    ensures
        d.name@ == t.name@,
        d.encoding@ == t.encoding@,
        d.descriptor_len == t.descriptor@.len(),
        d.descriptor_fingerprint is Some <==> t.descriptor@.len() > 0,
        d.descriptor_base64 is Some <==> shows && t.descriptor@.len() > 0,
        d.descriptor_base64 matches Some(b) ==> b@ == base64_form(t.descriptor@),
        d.descriptor_fingerprint matches Some(f) ==> Some(f@) == fingerprint(t.descriptor@),
{
}

/// What a method row shows.
pub proof fn method_rows_show_methods(e: Seq<MethodEntry>, m: Seq<MethodInfo>, shows: bool, i: int)
    requires
        are_method_rows(e, m, shows),
        0 <= i < m.len(),
    ensures
        e.len() == m.len(),
        e[i].method_name@ == m[i].method_name@,
        e[i].call_count == m[i].call_count,
        e[i].request_datatype_information.name@ == m[i].request_type.name@,
        e[i].request_datatype_information.encoding@ == m[i].request_type.encoding@,
        e[i].request_datatype_information.descriptor_len == m[i].request_type.descriptor@.len(),
        e[i].response_datatype_information.name@ == m[i].response_type.name@,
        e[i].response_datatype_information.encoding@ == m[i].response_type.encoding@,
        e[i].response_datatype_information.descriptor_len == m[i].response_type.descriptor@.len(),
        e[i].request_datatype_information.descriptor_base64 is Some <==> shows
            && m[i].request_type.descriptor@.len() > 0,
        e[i].response_datatype_information.descriptor_base64 is Some <==> shows
            && m[i].response_type.descriptor@.len() > 0,
{
    assert(is_method_row(e[i], m[i], shows));
}

/// What a listing of service servers shows: at ascending places, every server whose service name
/// fits, and no other; each row with what the registration says, one method row per method.
pub proof fn service_listings_show_what_fits(r: Seq<ServiceEntry>, s: Seq<ServerInfo>, args: ListFilter) -> (from: Seq<
    int,
>)
    requires
        lists_services(r, s, args),
    ensures
        from.len() == r.len(),
        ascends(from),
        forall|j: int|
            0 <= j < s.len() ==> (from.contains(j) <==> fits_pattern(
                (#[trigger] s[j]).service_name@,
                opt_text(args.name_pattern),
            )),
        forall|i: int|
            0 <= i < r.len() ==> {
                let e = #[trigger] r[i];
                let t = s[from[i]];
                &&& 0 <= from[i] < s.len()
                &&& e.service_name@ == t.service_name@
                &&& e.service_id == t.service_id
                &&& e.host_name@ == t.host_name@
                &&& e.process_id == t.process_id
                &&& e.process_name@ == t.process_name@
                &&& e.unit_name@ == t.unit_name@
                &&& e.version == t.version
                &&& e.tcp_port_v0 == t.tcp_port_v0
                &&& e.tcp_port_v1 == t.tcp_port_v1
                &&& are_method_rows(
                    e.methods@,
                    t.methods@,
                    args.include_descriptors == Some(true),
                )
            },
{
    let pred = |s: ServerInfo| fits_pattern(s.service_name@, opt_text(args.name_pattern));
    let from = filter_places(s, pred);
    let kept = s.filter(pred);
    assert forall|j: int| 0 <= j < s.len() implies (from.contains(j) <==> fits_pattern(
        (#[trigger] s[j]).service_name@,
        opt_text(args.name_pattern),
    )) by {
        assert(pred(s[j]) <==> from.contains(j));
    }
    assert forall|i: int| 0 <= i < r.len() implies kept[i] == s[#[trigger] from[i]] && 0 <= from[i] < s.len() by {}
    from
}

/// The same of service clients.
pub proof fn client_listings_show_what_fits(r: Seq<ClientEntry>, s: Seq<ClientInfo>, args: ListFilter) -> (from: Seq<
    int,
>)
    requires
        lists_clients(r, s, args),
    ensures
        from.len() == r.len(),
        ascends(from),
        forall|j: int|
            0 <= j < s.len() ==> (from.contains(j) <==> fits_pattern(
                (#[trigger] s[j]).service_name@,
                opt_text(args.name_pattern),
            )),
        forall|i: int|
            0 <= i < r.len() ==> {
                let e = #[trigger] r[i];
                let t = s[from[i]];
                &&& 0 <= from[i] < s.len()
                &&& e.service_name@ == t.service_name@
                &&& e.service_id == t.service_id
                &&& e.host_name@ == t.host_name@
                &&& e.process_id == t.process_id
                &&& e.process_name@ == t.process_name@
                &&& e.unit_name@ == t.unit_name@
                &&& e.version == t.version
                &&& are_method_rows(
                    e.methods@,
                    t.methods@,
                    args.include_descriptors == Some(true),
                )
            },
{
    let pred = |c: ClientInfo| fits_pattern(c.service_name@, opt_text(args.name_pattern));
    let from = filter_places(s, pred);
    let kept = s.filter(pred);
    assert forall|j: int| 0 <= j < s.len() implies (from.contains(j) <==> fits_pattern(
        (#[trigger] s[j]).service_name@,
        opt_text(args.name_pattern),
    )) by {
        assert(pred(s[j]) <==> from.contains(j));
    }
    assert forall|i: int| 0 <= i < r.len() implies kept[i] == s[#[trigger] from[i]] && 0 <= from[i] < s.len() by {}
    from
}

/// What a listing of processes shows: at ascending places, every process whose unit name or process
/// name fits, and no other, with what its registration says.
pub proof fn process_listings_show_what_fits(r: Seq<ProcessEntry>, s: Seq<ProcessInfo>, args: ListFilter) -> (from: Seq<
    int,
>)
    requires
        lists_processes(r, s, args),
    ensures
        from.len() == r.len(),
        ascends(from),
        forall|j: int|
            0 <= j < s.len() ==> (from.contains(j) <==> fits_pattern(
                (#[trigger] s[j]).unit_name@,
                opt_text(args.name_pattern),
            ) || fits_pattern(s[j].process_name@, opt_text(args.name_pattern))),
        forall|i: int|
            0 <= i < r.len() ==> {
                let e = #[trigger] r[i];
                let t = s[from[i]];
                &&& 0 <= from[i] < s.len()
                &&& e.host_name@ == t.host_name@
                &&& e.process_id == t.process_id
                &&& e.process_name@ == t.process_name@
                &&& e.unit_name@ == t.unit_name@
                &&& e.state_severity == t.state_severity
                &&& e.state_severity_level == t.state_severity_level
                &&& e.state_info@ == t.state_info@
                &&& e.runtime_version@ == t.runtime_version@
                &&& e.config_file_path@ == t.config_file_path@
            },
{
    let pred = |p: ProcessInfo| keeps_process(args, p);
    let from = filter_places(s, pred);
    let kept = s.filter(pred);
    assert forall|j: int| 0 <= j < s.len() implies (from.contains(j) <==> fits_pattern(
        (#[trigger] s[j]).unit_name@,
        opt_text(args.name_pattern),
    ) || fits_pattern(s[j].process_name@, opt_text(args.name_pattern))) by {
        assert(pred(s[j]) <==> from.contains(j));
    }
    assert forall|i: int| 0 <= i < r.len() implies kept[i] == s[#[trigger] from[i]] && 0 <= from[i] < s.len() by {}
    from
}

/// What a reading of the log shows: at ascending places, every message that is as severe as the
/// least level asked for (`info` where none is), no older than the time asked for, and of a process
/// whose name fits, and no other, with what it says.
pub proof fn log_readings_show_what_fits(r: Seq<LogEntry>, s: Seq<LogMessage>, args: GetLogsArgs) -> (from: Seq<
    int,
>)
    requires
        lists_messages(r, s, args),
    ensures
        from.len() == r.len(),
        ascends(from),
        forall|j: int|
            0 <= j < s.len() ==> (from.contains(j) <==> {
                &&& priority((#[trigger] s[j]).level) >= match args.min_level {
                    Some(label) => label_priority(ascii_lower(label@)),
                    None => priority(LogLevel::Info),
                }
                &&& args.since_timestamp_us matches Some(t) ==> s[j].timestamp >= t
                &&& fits_pattern(s[j].process_name@, opt_text(args.process_name_pattern))
            }),
        forall|i: int|
            0 <= i < r.len() ==> {
                let e = #[trigger] r[i];
                let t = s[from[i]];
                &&& 0 <= from[i] < s.len()
                &&& label_priority(ascii_lower(e.level@)) == priority(t.level)
                &&& e.timestamp_us == t.timestamp
                &&& e.host_name@ == t.host_name@
                &&& e.process_name@ == t.process_name@
                &&& e.process_id == t.process_id
                &&& e.unit_name@ == t.thread_name@
                &&& e.content@ == t.content@
            },
{
    let pred = |m: LogMessage| keeps_message(args, m);
    let from = filter_places(s, pred);
    let kept = s.filter(pred);
    assert forall|j: int| 0 <= j < s.len() implies (from.contains(j) <==> {
        &&& priority((#[trigger] s[j]).level) >= match args.min_level {
            Some(label) => label_priority(ascii_lower(label@)),
            None => priority(LogLevel::Info),
        }
        &&& args.since_timestamp_us matches Some(t) ==> s[j].timestamp >= t
        &&& fits_pattern(s[j].process_name@, opt_text(args.process_name_pattern))
    }) by {
        assert(pred(s[j]) <==> from.contains(j));
    }
    assert forall|i: int| 0 <= i < r.len() implies kept[i] == s[#[trigger] from[i]] && 0 <= from[i] < s.len()
        && label_priority(ascii_lower(r[i].level@)) == priority(s[from[i]].level) by {
        level_texts_name_levels(s[from[i]].level, s[from[i]].level);
    }
    from
}

/// The text of a level, read back as a label in lower case, stands for the priority of the level,
/// and no two levels share a text.
pub proof fn level_texts_name_levels(a: LogLevel, b: LogLevel)
    ensures
        label_priority(ascii_lower(level_text(a))) == priority(a),
        level_text(a) == level_text(b) ==> a == b,
{
    reveal_strlit("None");
    reveal_strlit("Info");
    reveal_strlit("Warning");
    reveal_strlit("Error");
    reveal_strlit("Fatal");
    reveal_strlit("Debug1");
    reveal_strlit("Debug2");
    reveal_strlit("Debug3");
    reveal_strlit("Debug4");
    reveal_strlit("All");
    reveal_strlit("none");
    reveal_strlit("info");
    reveal_strlit("warning");
    reveal_strlit("error");
    reveal_strlit("fatal");
    reveal_strlit("debug1");
    reveal_strlit("debug2");
    reveal_strlit("debug3");
    reveal_strlit("debug4");
    reveal_strlit("all");
    assert(ascii_lower("None"@) =~= "none"@);
    assert(ascii_lower("Info"@) =~= "info"@);
    assert(ascii_lower("Warning"@) =~= "warning"@);
    assert(ascii_lower("Error"@) =~= "error"@);
    assert(ascii_lower("Fatal"@) =~= "fatal"@);
    assert(ascii_lower("Debug1"@) =~= "debug1"@);
    assert(ascii_lower("Debug2"@) =~= "debug2"@);
    assert(ascii_lower("Debug3"@) =~= "debug3"@);
    assert(ascii_lower("Debug4"@) =~= "debug4"@);
    assert(ascii_lower("All"@) =~= "all"@);
    labels_match_levels(a);
    assert("Debug1"@[5] == '1' && "Debug2"@[5] == '2' && "Debug3"@[5] == '3' && "Debug4"@[5] == '4');
    assert("None"@[0] == 'N' && "Info"@[0] == 'I' && "Warning"@[0] == 'W' && "Error"@[0] == 'E'
        && "Fatal"@[0] == 'F' && "All"@[0] == 'A');
    assert("Debug1"@[0] == 'D' && "Debug2"@[0] == 'D' && "Debug3"@[0] == 'D' && "Debug4"@[0] == 'D');
    assert("All"@.len() == 3 && "None"@.len() == 4 && "Info"@.len() == 4 && "Error"@.len() == 5
        && "Fatal"@.len() == 5 && "Warning"@.len() == 7);
}

/// The spelling of the levels.
pub proof fn levels_are_spelled_out(level: LogLevel)
    ensures
        level_text(level) == (match level {
            LogLevel::NoLevel => "None"@,
            LogLevel::All => "All"@,
            LogLevel::Debug4 => "Debug4"@,
            LogLevel::Debug3 => "Debug3"@,
            LogLevel::Debug2 => "Debug2"@,
            LogLevel::Debug1 => "Debug1"@,
            LogLevel::Info => "Info"@,
            LogLevel::Warning => "Warning"@,
            LogLevel::Error => "Error"@,
            LogLevel::Fatal => "Fatal"@,
        }),
{
}

/// Severities ascend from the most verbose level to fatal, and the two levels that are no severity
/// lie below all of them.
pub proof fn severities_ascend()
    ensures
        priority(LogLevel::NoLevel) == priority(LogLevel::All),
        priority(LogLevel::All) < priority(LogLevel::Debug4),
        priority(LogLevel::Debug4) < priority(LogLevel::Debug3),
        priority(LogLevel::Debug3) < priority(LogLevel::Debug2),
        priority(LogLevel::Debug2) < priority(LogLevel::Debug1),
        priority(LogLevel::Debug1) < priority(LogLevel::Info),
        priority(LogLevel::Info) < priority(LogLevel::Warning),
        priority(LogLevel::Warning) < priority(LogLevel::Error),
        priority(LogLevel::Error) < priority(LogLevel::Fatal),
        forall|label: Seq<char>| #[trigger] label_priority(label) >= priority(LogLevel::All),
        forall|label: Seq<char>| #[trigger]
            label_priority(label) > priority(LogLevel::All) ==> exists|l: LogLevel|
                label_priority(label) == #[trigger] priority(l) && (label == level_label(l)
                    || label == "warn"@ || label == "err"@),
{
    assert forall|label: Seq<char>| #[trigger] label_priority(label) > priority(LogLevel::All) implies exists|
        l: LogLevel,
    | label_priority(label) == #[trigger] priority(l) && (label == level_label(l) || label
        == "warn"@ || label == "err"@) by {
        let l = if label == "debug4"@ {
            LogLevel::Debug4
        } else if label == "debug3"@ {
            LogLevel::Debug3
        } else if label == "debug2"@ {
            LogLevel::Debug2
        } else if label == "debug1"@ {
            LogLevel::Debug1
        } else if label == "info"@ {
            LogLevel::Info
        } else if label == "warning"@ || label == "warn"@ {
            LogLevel::Warning
        } else if label == "error"@ || label == "err"@ {
            LogLevel::Error
        } else {
            LogLevel::Fatal
        };
        assert(label_priority(label) == priority(l));
    }
}

} // verus!
