//! Laws of the tools from end to end: what is asked for, what is refused, and what comes back.

use vstd::prelude::*;
use vstd::utf8::*;

use crate::cli::{command_of, is_indented, uses_ecal, Cli};
use crate::codec::base64_reading;
use crate::diagnose::{
    is_first_step, is_last_step, samples_of, snapshot_codes, wants_window, DiagnoseTopicResult,
    RateCheck, TopicDiagnosis,
};
use crate::drops::{pruned, DropMap};
use crate::entries::{opt_text, TopicEntry};
use crate::findings::{finding_views, FindingCode};
use crate::harness::{message_at, next_counter, peer_error_wording, PeerErrorView};
use crate::laws::diagnosis::{endpoints, is_diagnosis, Circumstances};
use crate::laws::drops::{
    counters_are_kept_for_a_minute, diagnoses_remember_what_they_saw, is_publisher_key,
};
use crate::laws::survey::topics_are_told_by_name;
use crate::laws::text::figures_read_back;
use crate::laws::traffic::{gives, totals_are_sums};
use crate::measure::{
    are_stats_of, window_length, Arrival, WindowAcc, WindowStats, DEFAULT_DIAGNOSE_MS,
    DEFAULT_STATS_MS,
};
use crate::monitoring::MonitoringSnapshot;
use crate::payload::ToolError;
use crate::publish::{is_publish_outcome, Discovery, PublishArgs, PublishPlan, WaitStep};
use crate::server::{is_topic_stats, TopicStats, TopicStatsArgs};
use crate::service::{is_call_outcome, CallPlan, CallServiceArgs};
use crate::subscribe::{listen_length, sample_cap, SubscribeArgs};
use crate::text::decimal;

verus! {

/// Something is given, and it can be read.
pub open spec fn is_readable(text: Option<String>, payload_base64: Option<String>) -> bool {
    exists|bytes: Seq<u8>| #[trigger] gives(text, payload_base64, bytes)
}

proof fn lemma_readable(text: Option<String>, payload_base64: Option<String>)
    ensures
        is_readable(text, payload_base64) <==> (text is Some && payload_base64 is None) || (text is None
            && payload_base64 is Some && base64_reading(payload_base64->Some_0@) is Ok),
{
    if text is Some && payload_base64 is None {
        assert(gives(text, payload_base64, encode_utf8(text->Some_0@)));
    }
    if text is None && payload_base64 is Some && base64_reading(payload_base64->Some_0@) is Ok {
        assert(gives(text, payload_base64, base64_reading(payload_base64->Some_0@)->Ok_0));
    }
}

/// Publishing is planned exactly where one payload is given and can be read. None or two are the
/// caller's fault, and one that cannot be read is reported with the reader's words.
pub proof fn publishing_takes_one_readable_payload(r: Result<PublishPlan, ToolError>, args: PublishArgs)
    requires
        is_publish_outcome(r, args),
    ensures
        r is Ok <==> is_readable(args.text, args.payload_base64),
        r matches Err(ToolError::InvalidParams(m)) ==> m@
            == "exactly one of `text` or `payload_base64` must be provided"@,
        (r is Err && r->Err_0 is InvalidParams) <==> (args.text is Some <==> args.payload_base64 is Some),
        r matches Err(ToolError::Internal(m)) ==> args.text is None && args.payload_base64 is Some && exists|
            e: Seq<char>,
        |
            base64_reading(args.payload_base64->Some_0@) == Err::<Seq<u8>, Seq<char>>(e) && m@ == #[trigger] (
            "invalid base64: "@ + e),
{
    lemma_readable(args.text, args.payload_base64);
    if r is Err && r->Err_0 is Internal {
        let e = base64_reading(args.payload_base64->Some_0@)->Err_0;
        assert(r->Err_0->Internal_0@ == "invalid base64: "@ + e);
    }
}

/// A call is planned exactly where one payload is given and can be read; whatever else is given is
/// the caller's fault.
pub proof fn calls_take_one_readable_payload(r: Result<CallPlan, ToolError>, args: CallServiceArgs)
    requires
        is_call_outcome(r, args),
    ensures
        r is Ok <==> is_readable(args.text, args.payload_base64),
        r is Err ==> r->Err_0 is InvalidParams,
        r is Err && (args.text is Some <==> args.payload_base64 is Some) ==> r->Err_0->InvalidParams_0@
            == "exactly one of `text` or `payload_base64` must be provided"@,
        r is Err && !(args.text is Some <==> args.payload_base64 is Some) ==> exists|e: Seq<char>|
            base64_reading(args.payload_base64->Some_0@) == Err::<Seq<u8>, Seq<char>>(e)
                && r->Err_0->InvalidParams_0@ == #[trigger] ("invalid base64: "@ + e),
{
    lemma_readable(args.text, args.payload_base64);
    if r is Err && !(args.text is Some <==> args.payload_base64 is Some) {
        let e = base64_reading(args.payload_base64->Some_0@)->Err_0;
        assert(r->Err_0->InvalidParams_0@ == "invalid base64: "@ + e);
    }
}

/// A wait goes on exactly while nothing is found and fewer nanoseconds have passed than its
/// milliseconds hold; it sleeps its pause between two looks.
pub proof fn waits_end_in_time(d: Discovery, start: u64, wait_ms: u64, poll_ms: u64, found: usize, passed: u64)
    requires
        d.lasts(start, wait_ms, poll_ms),
        start + passed <= u64::MAX,
    ensures
        d.next_step(found, (start + passed) as u64) == WaitStep::Proceed <==> found > 0 || passed >= wait_ms
            * 1_000_000,
        d.next_step(found, (start + passed) as u64) matches WaitStep::Sleep(ms) ==> ms == poll_ms,
{
}

/// What is listened for: as long as asked and as many samples as asked, by default a second and
/// ten.
pub proof fn listening_lasts_as_asked(args: SubscribeArgs)
    ensures
        args.duration_ms matches Some(ms) ==> listen_length(args) == ms,
        args.duration_ms is None ==> listen_length(args) == 1000,
        args.max_samples matches Some(n) ==> sample_cap(args) == n,
        args.max_samples is None ==> sample_cap(args) == 10,
{
}

/// Where nothing is asked, a measurement takes two seconds and the window of a diagnosis one and a
/// half; no window takes more than a minute, whatever is asked.
pub proof fn windows_have_their_lengths(asked: Option<u64>)
    ensures
        asked is None ==> window_length(asked, DEFAULT_STATS_MS) == 2000,
        asked is None ==> window_length(asked, DEFAULT_DIAGNOSE_MS) == 1500,
        window_length(asked, DEFAULT_STATS_MS) <= 60_000,
        window_length(asked, DEFAULT_DIAGNOSE_MS) <= 60_000,
        asked matches Some(ms) ==> window_length(asked, DEFAULT_STATS_MS) == window_length(
            asked,
            DEFAULT_DIAGNOSE_MS,
        ) && (ms <= 60_000 ==> window_length(asked, DEFAULT_STATS_MS) == ms),
{
}

/// The command that is named is run, and the server where none is. All but the listing of tools
/// need eCAL; that is indented unless asked otherwise, and a call on demand.
pub proof fn commands_are_as_named(cli: Cli)
    ensures
        cli.command matches Some(cmd) ==> command_of(cli) == cmd,
        cli.command is None ==> command_of(cli) is Serve,
        uses_ecal(command_of(cli)) <==> command_of(cli) is Serve || command_of(cli) is Call,
        is_indented(command_of(cli)) <==> {
            ||| command_of(cli) is Tools && !command_of(cli)->compact
            ||| command_of(cli) is Call && command_of(cli)->pretty
        },
{
}

/// A window tells what arrived: how many samples, how many bytes, and the type of the first.
pub proof fn windows_tell_what_arrived(r: WindowStats, acc: WindowAcc, arrivals: Seq<Arrival>)
    requires
        are_stats_of(r, acc),
        acc.after(arrivals),
    ensures
        r.samples_observed == arrivals.len(),
        r.total_bytes == arrivals.map_values(|a: Arrival| a.size).fold_left(
            0int,
            |sum: int, x: usize| sum + x,
        ),
        arrivals.len() == 0 ==> r.name is None && r.encoding is None,
        arrivals.len() > 0 ==> {
            &&& opt_text(r.name) == Some(arrivals[0].name)
            &&& opt_text(r.encoding) == Some(arrivals[0].encoding)
            &&& r.min_size_bytes is Some && r.max_size_bytes is Some
        },
        forall|i: int|
            0 <= i < arrivals.len() ==> r.min_size_bytes->Some_0 <= (#[trigger] arrivals[i]).size
                <= r.max_size_bytes->Some_0,
{
    totals_are_sums(acc.sizes@);
    assert(acc.sizes@.len() == arrivals.len());
    assert forall|i: int| 0 <= i < arrivals.len() implies r.min_size_bytes->Some_0 <= (
    #[trigger] arrivals[i]).size <= r.max_size_bytes->Some_0 by {
        assert(acc.sizes@[i] == arrivals[i].size);
    }
}

/// A rate measurement names the publishers of its topic exactly where two or more are registered
/// for it, one row each, in their order.
pub proof fn measurements_name_several_publishers(
    r: TopicStats,
    snap: MonitoringSnapshot,
    args: TopicStatsArgs,
    acc: WindowAcc,
) -> (from: Seq<int>)
    requires
        is_topic_stats(r, snap, args, acc),
    ensures
        forall|i: int|
            0 <= i < snap.publishers@.len() && (#[trigger] snap.publishers@[i]).topic_name@ == args.topic_name@
                ==> from.contains(i),
        forall|k: int|
            0 <= k < from.len() ==> {
                &&& 0 <= #[trigger] from[k] < snap.publishers@.len()
                &&& snap.publishers@[from[k]].topic_name@ == args.topic_name@
            },
        r.topic_name@ == args.topic_name@,
        r.publishers is Some <==> from.len() >= 2,
        r.publishers matches Some(rows) ==> {
            &&& rows@.len() == from.len()
            &&& forall|k: int|
                0 <= k < from.len() ==> {
                    let t = snap.publishers@[#[trigger] from[k]];
                    &&& rows@[k].host_name@ == t.host_name@
                    &&& rows@[k].unit_name@ == t.unit_name@
                    &&& rows@[k].process_name@ == t.process_name@
                    &&& rows@[k].topic_id == t.topic_id
                    &&& rows@[k].registered_data_frequency_mhz == t.data_frequency
                }
        },
        args.duration_ms is None ==> r.duration_ms == 2000,
        args.duration_ms matches Some(ms) ==> r.duration_ms == if ms < 60_000 {
            ms
        } else {
            60_000
        },
        r.window.samples_observed == acc.timestamps@.len(),
{
    let from = topics_are_told_by_name(snap.publishers@, args.topic_name@);
    assert forall|k: int| 0 <= k < from.len() implies {
        &&& 0 <= #[trigger] from[k] < snap.publishers@.len()
        &&& snap.publishers@[from[k]].topic_name@ == args.topic_name@
    } by {
        assert(from.contains(from[k]));
    }
    from
}

/// The two steps of a diagnosis make one: its findings are those of the snapshot, of the counters
/// that were still remembered, and of the live window; the rows are those of the first step.
pub proof fn two_steps_make_a_diagnosis(
    r: DiagnoseTopicResult,
    d: TopicDiagnosis,
    snap: MonitoringSnapshot,
    topic: Seq<char>,
    now: u64,
    before: DropMap,
    after: DropMap,
    ratio: Seq<char>,
    duration_ms: u64,
    live: Option<WindowStats>,
    check: Option<RateCheck>,
)
    requires
        is_first_step(d, snap, topic, now, before, after),
        is_last_step(r, d, ratio, duration_ms, live, check),
    ensures
        is_diagnosis(
            finding_views(r.findings@),
            d.survey,
            snap,
            (Circumstances {
                topic,
                drops: pruned(before, now),
                now,
                ratio,
                samples: samples_of(live),
                duration_ms,
                check,
            }),
        ),
        r.topic_name@ == topic,
        r.publishers@ == d.survey.publishers@,
        r.subscribers@ == d.survey.subscribers@,
        r.type_signatures@ == d.survey.type_signatures@,
        r.common_active_transport_layers@ == d.survey.common_active_transport_layers@,
        r.shm_transport_domains@ == d.survey.shm_transport_domains@,
        live is None ==> samples_of(live) is None,
        live matches Some(w) ==> samples_of(live) == Some(w.samples_observed),
        r.live_stats is Some <==> live is Some,
        r.live_stats is Some ==> r.live_stats->Some_0.samples_observed == live->Some_0.samples_observed,
        r.live_stats is Some && d.survey.type_signatures@.len() <= 1 ==> r.live_stats == live,
        r.live_stats is Some && d.survey.type_signatures@.len() > 1 ==> r.live_stats->Some_0.name is None
            && r.live_stats->Some_0.encoding is None,
{
    snapshot_codes(d.survey, snap, topic, pruned(before, now), now, FindingCode::TypeMetadataMismatch);
}

/// Some subscriber of this identifier has drops.
pub open spec fn some_drop_of(subs: Seq<TopicEntry>, id: i64) -> bool {
    exists|i: int| 0 <= i < subs.len() && (#[trigger] subs[i]).topic_id == id && subs[i].message_drops > 0
}

/// After the first step of a diagnosis, each subscriber that drops is remembered under every
/// publisher of the topic with its counter and the time; of the rest, what was seen within a
/// minute is kept as it was, and what is older is forgotten.
pub proof fn first_steps_remember_what_they_saw(
    d: TopicDiagnosis,
    snap: MonitoringSnapshot,
    topic: Seq<char>,
    now: u64,
    before: DropMap,
    after: DropMap,
    x: i64,
    id: i64,
)
    requires
        is_first_step(d, snap, topic, now, before, after),
    ensures
        ({
            let k = (x, id);
            let pubs = d.survey.publishers@;
            let subs = d.survey.subscribers@;
            let seen = is_publisher_key(pubs, x) && some_drop_of(subs, id);
            &&& seen ==> after.contains_key(k) && after[k].1 == now && exists|i: int|
                0 <= i < subs.len() && (#[trigger] subs[i]).topic_id == id && subs[i].message_drops == after[k].0
            &&& !seen ==> (after.contains_key(k) <==> before.contains_key(k) && now - before[k].1
                <= 60_000_000_000)
            &&& !seen && after.contains_key(k) ==> after[k] == before[k]
        }),
{
    diagnoses_remember_what_they_saw(
        pruned(before, now),
        d.survey.publishers@,
        d.survey.subscribers@,
        now,
        x,
        id,
    );
    counters_are_kept_for_a_minute(before, now, (x, id));
}

/// A live window is measured exactly where the topic has an endpoint and time is given.
pub proof fn windows_are_measured_where_there_are_endpoints(d: TopicDiagnosis, duration_ms: u64)
    ensures
        wants_window(d, duration_ms) <==> duration_ms > 0 && endpoints(d.survey).len() > 0,
{
}

/// Messages of the test publisher are its prefix, a space and a count that goes up by one until it
/// starts over; no two counts give the same message.
pub proof fn messages_count_up(prefix: Seq<char>, a: u64, b: u64)
    ensures
        message_at(prefix, a) == prefix + seq![' '] + decimal(a as nat),
        message_at(prefix, a) == message_at(prefix, b) ==> a == b,
        0 <= next_counter(a) <= u64::MAX,
        a < u64::MAX ==> next_counter(a) == a + 1,
        next_counter(a) == next_counter(b) ==> a == b,
{
    reveal_strlit(" ");
    assert(" "@ =~= seq![' ']);
    let n = (prefix.len() + 1) as int;
    assert(message_at(prefix, a).skip(n) =~= decimal(a as nat));
    assert(message_at(prefix, b).skip(n) =~= decimal(b as nat));
    figures_read_back(a as nat);
    figures_read_back(b as nat);
}

/// An argument that is not known is named; an interval that is no number is not.
pub proof fn peers_say_what_they_refuse(e: PeerErrorView)
    ensures
        e matches PeerErrorView::Unknown(s) ==> peer_error_wording(e) == "unknown argument: "@ + s,
        e is Interval ==> peer_error_wording(e) == "invalid --interval-ms"@,
{
}

} // verus!
