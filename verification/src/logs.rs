//! Filtering of drained log messages.

use vstd::prelude::*;

use crate::entries::opt_text;
use crate::listing::{fits_pattern, name_matches};
use crate::monitoring::{LogLevel, LogMessage};
use crate::seqs::{filter_start, filter_step};
use crate::text::{ascii_lower, same_text, to_ascii_lowercase};

verus! {

/// Severity on a scale from verbose to fatal. The numbers that eCAL itself gives its levels are
/// bit flags and form no such scale.
pub open spec fn priority(level: LogLevel) -> i32 {
    match level {
        LogLevel::Debug4 => 1,
        LogLevel::Debug3 => 2,
        LogLevel::Debug2 => 3,
        LogLevel::Debug1 => 4,
        LogLevel::Info => 5,
        LogLevel::Warning => 6,
        LogLevel::Error => 7,
        LogLevel::Fatal => 8,
        LogLevel::NoLevel | LogLevel::All => 0,
    }
}

/// The priority of a level.
pub fn level_priority(level: LogLevel) -> (r: i32)
    ensures
        r == priority(level),
{
    match level {
        LogLevel::Debug4 => 1,
        LogLevel::Debug3 => 2,
        LogLevel::Debug2 => 3,
        LogLevel::Debug1 => 4,
        LogLevel::Info => 5,
        LogLevel::Warning => 6,
        LogLevel::Error => 7,
        LogLevel::Fatal => 8,
        LogLevel::NoLevel | LogLevel::All => 0,
    }
}

/// The priority that a label in lower case stands for; zero, which filters nothing, for `all`,
/// `none` and whatever is not known.
pub open spec fn label_priority(label: Seq<char>) -> i32 {
    if label == "debug4"@ {
        1
    } else if label == "debug3"@ {
        2
    } else if label == "debug2"@ {
        3
    } else if label == "debug1"@ {
        4
    } else if label == "info"@ {
        5
    } else if label == "warning"@ || label == "warn"@ {
        6
    } else if label == "error"@ || label == "err"@ {
        7
    } else if label == "fatal"@ {
        8
    } else {
        0
    }
}

/// The priority that a label stands for, in whatever letter case.
pub fn parse_min_level(label: &str) -> (r: i32)
    ensures
        r == label_priority(ascii_lower(label@)),
{
    let lower = to_ascii_lowercase(label);
    let l = lower.as_str();
    if same_text(l, "debug4") {
        1
    } else if same_text(l, "debug3") {
        2
    } else if same_text(l, "debug2") {
        3
    } else if same_text(l, "debug1") {
        4
    } else if same_text(l, "info") {
        5
    } else if same_text(l, "warning") || same_text(l, "warn") {
        6
    } else if same_text(l, "error") || same_text(l, "err") {
        7
    } else if same_text(l, "fatal") {
        8
    } else {
        0
    }
}

/// The name of a level as eCAL spells it.
pub open spec fn level_text(level: LogLevel) -> Seq<char> {
    match level {
        LogLevel::NoLevel => "None"@,
        LogLevel::Info => "Info"@,
        LogLevel::Warning => "Warning"@,
        LogLevel::Error => "Error"@,
        LogLevel::Fatal => "Fatal"@,
        LogLevel::Debug1 => "Debug1"@,
        LogLevel::Debug2 => "Debug2"@,
        LogLevel::Debug3 => "Debug3"@,
        LogLevel::Debug4 => "Debug4"@,
        LogLevel::All => "All"@,
    }
}

fn level_name(level: LogLevel) -> (r: String)
    ensures
        r@ == level_text(level),
{
    match level {
        LogLevel::NoLevel => "None".to_owned(),
        LogLevel::Info => "Info".to_owned(),
        LogLevel::Warning => "Warning".to_owned(),
        LogLevel::Error => "Error".to_owned(),
        LogLevel::Fatal => "Fatal".to_owned(),
        LogLevel::Debug1 => "Debug1".to_owned(),
        LogLevel::Debug2 => "Debug2".to_owned(),
        LogLevel::Debug3 => "Debug3".to_owned(),
        LogLevel::Debug4 => "Debug4".to_owned(),
        LogLevel::All => "All".to_owned(),
    }
}

/// What a reading of the log keeps.
#[derive(Debug)]
pub struct GetLogsArgs {
    /// Label of the least severity; `info` where left out.
    pub min_level: Option<String>,
    /// Earliest time in microseconds; any where left out.
    pub since_timestamp_us: Option<i64>,
    /// Part of the name of the emitting process.
    pub process_name_pattern: Option<String>,
}

/// One log row.
#[derive(Debug)]
pub struct LogEntry {
    pub level: String,
    pub timestamp_us: i64,
    pub host_name: String,
    pub process_name: String,
    pub process_id: i32,
    pub unit_name: String,
    pub content: String,
}

/// `e` is the row of message `m`.
pub open spec fn is_log_row(e: LogEntry, m: LogMessage) -> bool {
    &&& e.level@ == level_text(m.level)
    &&& e.timestamp_us == m.timestamp
    &&& e.host_name@ == m.host_name@
    &&& e.process_name@ == m.process_name@
    &&& e.process_id == m.process_id
    &&& e.unit_name@ == m.thread_name@
    &&& e.content@ == m.content@
}

/// `e` holds one row per message, in order.
pub open spec fn are_log_rows(e: Seq<LogEntry>, m: Seq<LogMessage>) -> bool {
    &&& e.len() == m.len()
    &&& forall|i: int| 0 <= i < m.len() ==> is_log_row(#[trigger] e[i], m[i])
}

/// The least priority that is kept.
pub open spec fn least_priority(args: GetLogsArgs) -> i32 {
    match args.min_level {
        Some(label) => label_priority(ascii_lower(label@)),
        None => priority(LogLevel::Info),
    }
}

/// The earliest time that is kept.
pub open spec fn earliest(args: GetLogsArgs) -> i64 {
    match args.since_timestamp_us {
        Some(t) => t,
        None => i64::MIN,
    }
}

/// A message that is kept: severe enough, not too old, and from a process whose name fits.
pub open spec fn keeps_message(args: GetLogsArgs, m: LogMessage) -> bool {
    &&& priority(m.level) >= least_priority(args)
    &&& m.timestamp >= earliest(args)
    &&& fits_pattern(m.process_name@, opt_text(args.process_name_pattern))
}

fn log_entry(m: &LogMessage) -> (r: LogEntry)
    ensures
        is_log_row(r, *m),
{
    LogEntry {
        level: level_name(m.level),
        timestamp_us: m.timestamp,
        host_name: m.host_name.clone(),
        process_name: m.process_name.clone(),
        process_id: m.process_id,
        unit_name: m.thread_name.clone(),
        content: m.content.clone(),
    }
}

/// The rows of a reading of the log, in the order of the messages.
pub open spec fn lists_messages(r: Seq<LogEntry>, m: Seq<LogMessage>, args: GetLogsArgs) -> bool {
    are_log_rows(r, m.filter(|m: LogMessage| keeps_message(args, m)))
}

/// The rows of the messages that are kept, in order.
pub fn filter_logs(logs: &Vec<LogMessage>, args: &GetLogsArgs) -> (r: Vec<LogEntry>)
    ensures
        lists_messages(r@, logs@, *args),
{
    let min_priority: i32 = match &args.min_level {
        Some(label) => parse_min_level(label.as_str()),
        None => level_priority(LogLevel::Info),
    };
    let since: i64 = match args.since_timestamp_us {
        Some(t) => t,
        None => i64::MIN,
    };
    let ghost pred = |m: LogMessage| keeps_message(*args, m);
    let mut r: Vec<LogEntry> = Vec::new();
    let mut i: usize = 0;
    proof {
        filter_start(logs@, pred);
    }
    while i < logs.len()
        invariant
            i <= logs.len(),
            min_priority == least_priority(*args),
            since == earliest(*args),
            pred == (|m: LogMessage| keeps_message(*args, m)),
            are_log_rows(r@, logs@.take(i as int).filter(pred)),
        decreases logs.len() - i,
    {
        let m = &logs[i];
        proof {
            filter_step(logs@, pred, i as int);
        }
        if level_priority(m.level) >= min_priority && m.timestamp >= since && name_matches(
            m.process_name.as_str(),
            &args.process_name_pattern,
        ) {
            r.push(log_entry(m));
        }
        i += 1;
    }
    assert(logs@.take(i as int) =~= logs@);
    r
}

/// The label by which a level is asked for.
pub open spec fn level_label(level: LogLevel) -> Seq<char> {
    match level {
        LogLevel::NoLevel => "none"@,
        LogLevel::Info => "info"@,
        LogLevel::Warning => "warning"@,
        LogLevel::Error => "error"@,
        LogLevel::Fatal => "fatal"@,
        LogLevel::Debug1 => "debug1"@,
        LogLevel::Debug2 => "debug2"@,
        LogLevel::Debug3 => "debug3"@,
        LogLevel::Debug4 => "debug4"@,
        LogLevel::All => "all"@,
    }
}

/// Labels and levels agree: the label of a level stands for the priority of the level.
pub proof fn labels_match_levels(level: LogLevel)
    ensures
        label_priority(level_label(level)) == priority(level),
        label_priority("warn"@) == priority(LogLevel::Warning),
        label_priority("err"@) == priority(LogLevel::Error),
{
    reveal_strlit("debug4");
    reveal_strlit("debug3");
    reveal_strlit("debug2");
    reveal_strlit("debug1");
    reveal_strlit("info");
    reveal_strlit("warning");
    reveal_strlit("warn");
    reveal_strlit("error");
    reveal_strlit("err");
    reveal_strlit("fatal");
    reveal_strlit("all");
    reveal_strlit("none");
    assert("debug4"@[5] == '4' && "debug3"@[5] == '3' && "debug2"@[5] == '2' && "debug1"@[5] == '1');
    assert("info"@[0] == 'i' && "warn"@[0] == 'w' && "none"@[0] == 'n');
    assert("error"@[0] == 'e' && "fatal"@[0] == 'f');
    assert("all"@[0] == 'a' && "err"@[0] == 'e');
}

/// A filter with a lower least priority keeps whatever one with a higher keeps; one of zero
/// keeps every severity.
pub proof fn lower_levels_keep_more(strict: GetLogsArgs, loose: GetLogsArgs, m: LogMessage)
    requires
        least_priority(loose) <= least_priority(strict),
        strict.since_timestamp_us == loose.since_timestamp_us,
        strict.process_name_pattern == loose.process_name_pattern,
    ensures
        keeps_message(strict, m) ==> keeps_message(loose, m),
        least_priority(loose) == 0 ==> (keeps_message(loose, m) <==> m.timestamp >= earliest(loose)
            && fits_pattern(m.process_name@, opt_text(loose.process_name_pattern))),
{
}

} // verus!
