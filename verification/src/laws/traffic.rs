//! Laws of what is measured, sent, received and answered.

use vstd::prelude::*;
use vstd::utf8::*;

use crate::codec::{base64_form, base64_reading};
use crate::entries::opt_text;
use crate::measure::{
    are_stats_of, gaps, measurable, total_size, window_length, WindowAcc, WindowStats,
};
use crate::payload::{is_control, printable, sample_base64, shown_base64, shown_text};
use crate::publish::{is_plan_of, successes, PublishArgs, PublishPlan};
use crate::seqs::{ascends, filter_all, filter_places};
use crate::service::{
    counting, counts, gone_and_filtered_differ, is_call_of, is_call_result, is_response_row,
    CallPlan, CallServiceArgs, CallServiceResult, ServiceCallResponse, ServiceReply,
};
use crate::sort::{ascending_order_exists, in_order};
use crate::subscribe::{is_sample_of, Collector, Received};
use crate::text::debug_form;

verus! {

/// The total of nothing is zero, and each size adds itself to the total, wherever it stands.
pub proof fn totals_add_up(a: Seq<usize>, x: usize, b: Seq<usize>)
    ensures
        total_size(Seq::empty()) == 0,
        total_size(a.push(x)) == total_size(a) + x,
        total_size(a + b) == total_size(a) + total_size(b),
        total_size(seq![x] + b) == x + total_size(b),
    decreases b.len(),
{
    assert(a.push(x).drop_last() =~= a);
    if b.len() == 0 {
        assert(a + b =~= a);
        assert(seq![x].drop_last() =~= Seq::<usize>::empty());
        assert(total_size(seq![x].drop_last()) == 0);
        assert(seq![x].last() == x);
        assert(seq![x] + b =~= seq![x]);
    } else {
        totals_add_up(a, x, b.drop_last());
        assert((a + b).drop_last() =~= a + b.drop_last());
        assert((a + b).last() == b.last());
        assert((seq![x] + b).drop_last() =~= seq![x] + b.drop_last());
        assert((seq![x] + b).last() == b.last());
    }
}

/// The total is what adding up the sizes one by one comes to.
pub proof fn totals_are_sums(s: Seq<usize>)
    ensures
        total_size(s) == s.fold_left(0int, |sum: int, x: usize| sum + x),
    decreases s.len(),
{
    if s.len() > 0 {
        totals_are_sums(s.drop_last());
    }
}

/// A window that received one more sample has observed one more and has its bytes more.
pub proof fn every_sample_counts_once(
    before: WindowStats,
    after: WindowStats,
    a: WindowAcc,
    b: WindowAcc,
    timestamp: i64,
    size: usize,
)
    requires
        are_stats_of(before, a),
        are_stats_of(after, b),
        b.timestamps@ == a.timestamps@.push(timestamp),
        b.sizes@ == a.sizes@.push(size),
    ensures
        after.samples_observed == before.samples_observed + 1,
        after.total_bytes == before.total_bytes + size,
        after.min_size_bytes is Some && after.max_size_bytes is Some,
        after.min_size_bytes->Some_0 <= size <= after.max_size_bytes->Some_0,
        before.min_size_bytes matches Some(m) ==> after.min_size_bytes->Some_0 == if size < m {
            size
        } else {
            m
        },
        before.max_size_bytes matches Some(m) ==> after.max_size_bytes->Some_0 == if size > m {
            size
        } else {
            m
        },
        before.min_size_bytes is None ==> after.min_size_bytes == Some(size),
        before.max_size_bytes is None ==> after.max_size_bytes == Some(size),
{
    totals_add_up(a.sizes@, size, Seq::empty());
    let s = a.sizes@;
    let t = b.sizes@;
    assert(t[s.len() as int] == size);
    assert(forall|i: int| 0 <= i < s.len() ==> #[trigger] t[i] == s[i]);
    let low = after.min_size_bytes->Some_0;
    let high = after.max_size_bytes->Some_0;
    let i = choose|i: int| 0 <= i < t.len() && t[i] == low;
    let j = choose|j: int| 0 <= j < t.len() && t[j] == high;
    if before.min_size_bytes is Some {
        let m = before.min_size_bytes->Some_0;
        let k = choose|k: int| 0 <= k < s.len() && s[k] == m;
        assert(t[k] == m);
        if i < s.len() {
            assert(s[i] == low);
        }
    }
    if before.max_size_bytes is Some {
        let m = before.max_size_bytes->Some_0;
        let k = choose|k: int| 0 <= k < s.len() && s[k] == m;
        assert(t[k] == m);
        if j < s.len() {
            assert(s[j] == high);
        }
    }
}

/// A window that received nothing has nothing to tell.
pub proof fn empty_windows_are_empty(r: WindowStats, acc: WindowAcc)
    requires
        are_stats_of(r, acc),
        acc.timestamps@.len() == 0,
        acc.sizes@.len() == 0,
    ensures
        r.samples_observed == 0,
        r.total_bytes == 0,
        r.min_size_bytes is None && r.max_size_bytes is None,
        r.gaps_us@.len() == 0,
        r.min_gap_us is None && r.max_gap_us is None,
        r.first_timestamp_us is None && r.last_timestamp_us is None,
{
    ascending_order_exists(acc.timestamps@);
    ascending_order_exists(gaps(acc.timestamps@));
}

proof fn lemma_same_items(r: Seq<i64>, s: Seq<i64>, x: i64)
    requires
        r.to_multiset() == s.to_multiset(),
    ensures
        r.contains(x) <==> s.contains(x),
{
    broadcast use vstd::seq_lib::group_to_multiset_ensures;

    vstd::seq_lib::to_multiset_contains(r, x);
    vstd::seq_lib::to_multiset_contains(s, x);
}

/// The first and the last send time are the least and the greatest that were received, in
/// whatever order the samples came.
pub proof fn send_times_lie_between_first_and_last(r: WindowStats, acc: WindowAcc, i: int)
    requires
        are_stats_of(r, acc),
        0 <= i < acc.timestamps@.len(),
    ensures
        r.first_timestamp_us is Some && r.last_timestamp_us is Some,
        acc.timestamps@.contains(r.first_timestamp_us->Some_0),
        acc.timestamps@.contains(r.last_timestamp_us->Some_0),
        r.first_timestamp_us->Some_0 <= acc.timestamps@[i] <= r.last_timestamp_us->Some_0,
{
    let s = acc.timestamps@;
    let t = in_order(s);
    ascending_order_exists(s);
    lemma_same_items(t, s, t[0]);
    lemma_same_items(t, s, t.last());
    assert(t.contains(t[0]) && t.contains(t.last()));
    assert(s.contains(s[i]));
    lemma_same_items(t, s, s[i]);
    let k = choose|k: int| 0 <= k < t.len() && t[k] == s[i];
    assert(t[0] <= t[k] && t[k] <= t.last());
}

/// Between `n` samples lie `n - 1` gaps. They are listed in order, the least and the greatest are
/// the ends of the list, and what is listed are the steps from each send time to the next, once
/// those are in order.
pub proof fn gaps_are_the_steps_between_send_times(r: WindowStats, acc: WindowAcc) -> (times: Seq<i64>)
    requires
        are_stats_of(r, acc),
        measurable(acc.timestamps@, acc.sizes@),
        acc.timestamps@.len() > 0,
    ensures
        times.to_multiset() == acc.timestamps@.to_multiset(),
        forall|i: int, j: int| 0 <= i <= j < times.len() ==> #[trigger] times[i] <= #[trigger] times[j],
        r.gaps_us@.len() + 1 == acc.timestamps@.len(),
        forall|i: int, j: int|
            0 <= i <= j < r.gaps_us@.len() ==> #[trigger] r.gaps_us@[i] <= #[trigger] r.gaps_us@[j],
        r.gaps_us@.len() == 0 ==> r.min_gap_us is None && r.max_gap_us is None,
        r.gaps_us@.len() > 0 ==> r.min_gap_us == Some(r.gaps_us@[0]) && r.max_gap_us == Some(r.gaps_us@.last()),
        forall|i: int| 0 <= i < times.len() - 1 ==> #[trigger] is_gap_at(r.gaps_us@, times, i),
        forall|k: int| 0 <= k < r.gaps_us@.len() ==> #[trigger] is_some_step(r.gaps_us@[k], times),
{
    let s = acc.timestamps@;
    let times = in_order(s);
    ascending_order_exists(s);
    let g = gaps(s);
    ascending_order_exists(g);
    assert(r.gaps_us@ == in_order(g));
    assert forall|i: int, j: int| 0 <= i <= j < times.len() implies #[trigger] times[i] <= #[trigger] times[j] by {
        if i < j {
            assert(times[i] <= times[j]);
        }
    }
    assert forall|i: int, j: int| 0 <= i <= j < r.gaps_us@.len() implies #[trigger] r.gaps_us@[i]
        <= #[trigger] r.gaps_us@[j] by {
        if i < j {
            assert(in_order(g)[i] <= in_order(g)[j]);
        }
    }
    assert forall|i: int| 0 <= i < times.len() - 1 implies g[i] == times[i + 1] - times[i] && #[trigger] is_gap_at(
        r.gaps_us@,
        times,
        i,
    ) by {
        lemma_step(s, acc.sizes@, i);
        assert(g.contains(g[i]));
        lemma_same_items(in_order(g), g, g[i]);
    }
    assert forall|k: int| 0 <= k < r.gaps_us@.len() implies #[trigger] is_some_step(r.gaps_us@[k], times) by {
        let x = in_order(g)[k];
        assert(in_order(g).contains(x));
        lemma_same_items(in_order(g), g, x);
        let i = choose|i: int| 0 <= i < g.len() && g[i] == x;
        assert(is_gap_at(r.gaps_us@, times, i));
        lemma_step(s, acc.sizes@, i);
        assert(step_at(times, i) == x);
    }
    times
}

/// The step from send time `i` to the next.
pub open spec fn step_at(times: Seq<i64>, i: int) -> int {
    times[i + 1] - times[i]
}

/// The step from send time `i` to the next is among the gaps.
pub open spec fn is_gap_at(gaps: Seq<i64>, times: Seq<i64>, i: int) -> bool {
    exists|k: int| 0 <= k < gaps.len() && #[trigger] gaps[k] == step_at(times, i)
}

/// A gap is the step from some send time to the next.
pub open spec fn is_some_step(gap: i64, times: Seq<i64>) -> bool {
    exists|i: int| 0 <= i < times.len() - 1 && gap == #[trigger] step_at(times, i)
}

proof fn lemma_step(s: Seq<i64>, sizes: Seq<usize>, i: int)
    requires
        measurable(s, sizes),
        0 <= i < s.len() - 1,
    ensures
        gaps(s)[i] == in_order(s)[i + 1] - in_order(s)[i],
{
    let t = in_order(s);
    ascending_order_exists(s);
    assert(t.contains(t[i]) && t.contains(t[i + 1]));
    lemma_same_items(t, s, t[i]);
    lemma_same_items(t, s, t[i + 1]);
    let a = choose|a: int| 0 <= a < s.len() && s[a] == t[i];
    let b = choose|b: int| 0 <= b < s.len() && s[b] == t[i + 1];
    assert(s[b] - s[a] <= i64::MAX);
    assert(t[i] <= t[i + 1]);
}

/// A window lasts as long as asked, but no longer than a minute, and by default as long as the
/// tool has it last.
pub proof fn windows_last_as_asked(asked: Option<u64>, default_ms: u64)
    requires
        default_ms <= 60_000,
    ensures
        asked is None ==> window_length(asked, default_ms) == default_ms,
        asked matches Some(ms) ==> {
            &&& ms <= 60_000 ==> window_length(asked, default_ms) == ms
            &&& ms >= 60_000 ==> window_length(asked, default_ms) == 60_000
        },
{
}

/// A payload is shown as text exactly where it is the encoding of a text, and then as that text.
pub proof fn texts_are_shown_as_they_are(bytes: Seq<u8>, text: Seq<char>)
    ensures
        encode_utf8(text) == bytes <==> shown_text(bytes) == Some(text),
        shown_text(bytes) is None ==> encode_utf8(text) != bytes,
{
    broadcast use {encode_utf8_valid_utf8, encode_utf8_decode_utf8, decode_utf8_encode_utf8};

    if encode_utf8(text) == bytes {
        assert(decode_utf8(encode_utf8(text)) == text);
    }
    if shown_text(bytes) == Some(text) {
        assert(encode_utf8(decode_utf8(bytes)) == bytes);
    }
}

/// An answer comes without its base-64 form exactly where it is text of at most 256 bytes; a
/// sample moreover has to be free of control characters.
pub proof fn long_and_binary_payloads_come_in_base64(bytes: Seq<u8>)
    ensures
        shown_base64(bytes) is None <==> shown_text(bytes) is Some && bytes.len() <= 256,
        sample_base64(bytes) is None <==> shown_text(bytes) is Some && bytes.len() <= 256 && forall|i: int|
            0 <= i < shown_text(bytes)->Some_0.len() ==> {
                let c = #[trigger] shown_text(bytes)->Some_0[i];
                ' ' <= c < '\u{7f}' || '\u{a0}' <= c
            },
        shown_base64(bytes) matches Some(b) ==> b == base64_form(bytes),
        sample_base64(bytes) matches Some(b) ==> b == base64_form(bytes),
{
    if valid_utf8(bytes) {
        let s = decode_utf8(bytes);
        assert(shown_text(bytes)->Some_0 == s);
        if printable(s) {
            assert forall|i: int| 0 <= i < shown_text(bytes)->Some_0.len() implies {
                let c = #[trigger] shown_text(bytes)->Some_0[i];
                ' ' <= c < '\u{7f}' || '\u{a0}' <= c
            } by {
                assert(!is_control(s[i]));
            }
        } else {
            let i = choose|i: int| 0 <= i < s.len() && is_control(#[trigger] s[i]);
            let c = shown_text(bytes)->Some_0[i];
            assert(!(' ' <= c < '\u{7f}' || '\u{a0}' <= c));
        }
    }
}

/// The bytes that a request gives: those of its text, or those that its base-64 form stands for.
pub open spec fn gives(text: Option<String>, payload_base64: Option<String>, bytes: Seq<u8>) -> bool {
    ||| payload_base64 is None && text is Some && bytes == encode_utf8(text->Some_0@)
    ||| text is None && payload_base64 is Some && base64_reading(payload_base64->Some_0@) == Ok::<
        Seq<u8>,
        Seq<char>,
    >(bytes)
}

/// A plan publishes the bytes that the request gives to the topic that it names, as often and as
/// slowly as it asks; by default once, a tenth of a second apart, after half a second.
pub proof fn plans_publish_what_is_asked(plan: PublishPlan, args: PublishArgs)
    requires
        is_plan_of(plan, args),
    ensures
        plan.topic_name@ == args.topic_name@,
        gives(args.text, args.payload_base64, plan.payload.bytes()),
        plan.payload is Text <==> args.text is Some,
        plan.bytes_sent == plan.payload.bytes().len(),
        args.discovery_wait_ms matches Some(ms) ==> plan.discovery_wait_ms == ms,
        args.discovery_wait_ms is None ==> plan.discovery_wait_ms == 500,
        args.repeat matches Some(n) ==> plan.repeat == n,
        args.repeat is None ==> plan.repeat == 1,
        args.repeat_interval_ms matches Some(ms) ==> plan.repeat_interval_ms == ms,
        args.repeat_interval_ms is None ==> plan.repeat_interval_ms == 100,
{
}

/// What went through is the number of sends that succeeded.
pub proof fn successes_are_counted(outcomes: Seq<bool>)
    ensures
        successes(outcomes) == outcomes.filter(|ok: bool| ok).len(),
    decreases outcomes.len(),
{
    reveal(Seq::filter);
    if outcomes.len() > 0 {
        successes_are_counted(outcomes.drop_last());
    }
}

/// A plan hands the bytes that the request gives to the method that it names; by default it waits
/// two seconds for an answer and one for an instance.
pub proof fn plans_call_what_is_asked(plan: CallPlan, args: CallServiceArgs)
    requires
        is_call_of(plan, args),
    ensures
        plan.service@ == args.service@,
        plan.method@ == args.method@,
        gives(args.text, args.payload_base64, plan.payload@),
        args.timeout_ms matches Some(ms) ==> plan.timeout_ms == ms,
        args.timeout_ms is None ==> plan.timeout_ms == 2000,
        args.discovery_wait_ms matches Some(ms) ==> plan.discovery_wait_ms == ms,
        args.discovery_wait_ms is None ==> plan.discovery_wait_ms == 1000,
        plan.target_service_id == args.target_service_id,
{
}

/// Row `i` of what was kept shows arrival `i`: the same topic, times, type and size, and a payload
/// that is told as text, in base-64 or both. The first arrivals are kept, and the others counted.
pub proof fn samples_show_arrivals(c: Collector, arrivals: Seq<Received>, i: int)
    requires
        c.after(arrivals),
        0 <= c.cap(),
        0 <= i < arrivals.len(),
    ensures
        i < c.kept().len() <==> i < c.cap(),
        c.kept().len() + c.late() == arrivals.len(),
        i < c.kept().len() ==> {
            let s = c.kept()[i];
            let r = arrivals[i];
            &&& s.topic_name@ == r.topic_name@
            &&& s.timestamp_us == r.timestamp
            &&& s.clock == r.clock
            &&& s.size == r.payload@.len()
            &&& s.encoding@ == r.encoding@
            &&& s.name@ == r.name@
            &&& s.text matches Some(t) ==> encode_utf8(t@) == r.payload@
            &&& s.payload_base64 matches Some(b) ==> base64_reading(b@) == Ok::<Seq<u8>, Seq<char>>(r.payload@)
            &&& s.text is Some <==> valid_utf8(r.payload@)
            &&& s.payload_base64 is None <==> s.text is Some && r.payload@.len() <= 256 && forall|k: int|
                0 <= k < s.text->Some_0@.len() ==> {
                    let x = #[trigger] s.text->Some_0@[k];
                    ' ' <= x < '\u{7f}' || '\u{a0}' <= x
                }
        },
{
    if i < c.kept().len() {
        assert(is_sample_of(c.kept()[i], arrivals[i]));
        let bytes = arrivals[i].payload@;
        long_and_binary_payloads_come_in_base64(bytes);
        if valid_utf8(bytes) {
            assert(c.kept()[i].text->Some_0@ == shown_text(bytes)->Some_0);
        }
        if c.kept()[i].text is Some {
            texts_are_shown_as_they_are(bytes, c.kept()[i].text->Some_0@);
        }
    }
}

/// `row` tells what `reply` says: whether the call succeeded, why it did not, who answered, and
/// with what bytes.
pub open spec fn tells(row: ServiceCallResponse, reply: ServiceReply) -> bool {
    &&& row.success == reply.success
    &&& reply.success ==> row.error is None
    &&& !reply.success ==> opt_text(row.error) == opt_text(reply.error)
    &&& row.service_id == reply.service_id
    &&& row.service_process_id == reply.process_id
    &&& row.service_host_name@ == reply.host_name@
    &&& row.response_size == reply.payload@.len()
    &&& row.response_text matches Some(t) ==> encode_utf8(t@) == reply.payload@
    &&& row.response_base64 matches Some(b) ==> base64_reading(b@) == Ok::<Seq<u8>, Seq<char>>(reply.payload@)
    &&& row.response_text is Some <==> valid_utf8(reply.payload@)
    &&& row.response_base64 is None <==> row.response_text is Some && reply.payload@.len() <= 256
}

proof fn lemma_tells(row: ServiceCallResponse, reply: ServiceReply, index: int, method: Seq<char>)
    requires
        is_response_row(row, Some(reply), index, method),
    ensures
        row.instance_index == index,
        tells(row, reply),
{
    if row.response_text is Some {
        texts_are_shown_as_they_are(reply.payload@, row.response_text->Some_0@);
    }
}

/// Under a target, the rows are the answers of the instances that carry its identifier: every one
/// of them, whether the call succeeded there or failed, and no other, in the order of discovery.
/// The returned places say where among the answers each row comes from.
pub proof fn targets_show_every_answer_of_theirs(
    r: CallServiceResult,
    plan: CallPlan,
    replies: Seq<Option<ServiceReply>>,
    t: u64,
) -> (from: Seq<int>)
    requires
        is_call_result(r, plan, replies),
        plan.target_service_id == Some(t),
    ensures
        from.len() == r.responses@.len(),
        ascends(from),
        forall|j: int| 0 <= j < from.len() ==> {
            &&& 0 <= #[trigger] from[j] < replies.len()
            &&& replies[from[j]] is Some
            &&& r.responses@[j].instance_index == j
            &&& tells(r.responses@[j], replies[from[j]]->Some_0)
        },
        forall|i: int|
            0 <= i < replies.len() && (#[trigger] replies[i]) is Some && replies[i]->Some_0.service_id == t
                ==> from.contains(i),
        forall|i: int|
            #[trigger] from.contains(i) ==> 0 <= i < replies.len() && replies[i] is Some
                && replies[i]->Some_0.service_id == t,
{
    let pred = |x: Option<ServiceReply>| counts(x, plan.target_service_id);
    let kept = counting(replies, plan.target_service_id);
    let from = filter_places(replies, pred);
    assert forall|j: int| 0 <= j < from.len() implies {
        &&& 0 <= #[trigger] from[j] < replies.len()
        &&& replies[from[j]] is Some
        &&& r.responses@[j].instance_index == j
        &&& tells(r.responses@[j], replies[from[j]]->Some_0)
    } by {
        assert(from.contains(from[j]));
        assert(pred(replies[from[j]]));
        assert(kept[j] == replies[from[j]]);
        assert(is_response_row(r.responses@[j], kept[j], j, plan.method@));
        lemma_tells(r.responses@[j], replies[from[j]]->Some_0, j, plan.method@);
    }
    assert forall|i: int|
        0 <= i < replies.len() && (#[trigger] replies[i]) is Some && replies[i]->Some_0.service_id
            == t implies from.contains(i) by {
        assert(pred(replies[i]));
    }
    assert forall|i: int| #[trigger] from.contains(i) implies 0 <= i < replies.len() && replies[i] is Some
        && replies[i]->Some_0.service_id == t by {
        assert(pred(replies[i]));
    }
    from
}

/// An answer of the target, be it a success or a failure, has a row that tells it.
pub proof fn answers_of_the_target_have_rows(
    r: CallServiceResult,
    plan: CallPlan,
    replies: Seq<Option<ServiceReply>>,
    i: int,
) -> (j: int)
    requires
        is_call_result(r, plan, replies),
        0 <= i < replies.len(),
        replies[i] is Some,
        plan.target_service_id == Some(replies[i]->Some_0.service_id),
    ensures
        0 <= j < r.responses@.len(),
        r.responses@[j].instance_index == j,
        tells(r.responses@[j], replies[i]->Some_0),
{
    let from = targets_show_every_answer_of_theirs(r, plan, replies, plan.target_service_id->Some_0);
    assert(from.contains(i));
    let j = choose|j: int| 0 <= j < from.len() && from[j] == i;
    assert(from[j] == i);
    j
}

/// Without a target every instance has the row of its place: its answer, or that the call could
/// not be made.
pub proof fn every_instance_has_its_row(
    r: CallServiceResult,
    plan: CallPlan,
    replies: Seq<Option<ServiceReply>>,
    i: int,
)
    requires
        is_call_result(r, plan, replies),
        plan.target_service_id is None,
        0 <= i < replies.len(),
    ensures
        r.responses@.len() == replies.len(),
        r.responses@[i].instance_index == i,
        replies[i] matches Some(reply) ==> tells(r.responses@[i], reply),
        replies[i] is None ==> {
            let row = r.responses@[i];
            &&& !row.success
            &&& opt_text(row.error) == Some(
                "rustecal returned None for method "@ + debug_form(plan.method@)
                    + " (likely an interior NUL in the method name)"@,
            )
            &&& row.service_id == 0
            &&& row.service_process_id == 0
            &&& row.service_host_name@.len() == 0
            &&& row.response_size == 0
            &&& row.response_text is None
            &&& row.response_base64 is None
        },
{
    let pred = |x: Option<ServiceReply>| counts(x, plan.target_service_id);
    filter_all(replies, pred);
    let kept = counting(replies, plan.target_service_id);
    assert(kept == replies);
    assert(is_response_row(r.responses@[i], kept[i], i, plan.method@));
    if replies[i] is Some {
        lemma_tells(r.responses@[i], replies[i]->Some_0, i, plan.method@);
    }
}

/// A result names the service and the method that were called, and counts the instances; the
/// target is repeated exactly where there was an instance.
pub proof fn results_name_what_was_called(r: CallServiceResult, plan: CallPlan, replies: Seq<Option<ServiceReply>>)
    requires
        is_call_result(r, plan, replies),
    ensures
        r.service@ == plan.service@,
        r.method@ == plan.method@,
        r.discovered_instances == replies.len(),
        replies.len() == 0 ==> r.requested_target_service_id is None && r.responses@.len() == 0,
        replies.len() > 0 ==> r.requested_target_service_id == plan.target_service_id,
{
    gone_and_filtered_differ(r, plan, replies);
}

} // verus!
