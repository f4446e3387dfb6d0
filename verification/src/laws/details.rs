//! Laws of the findings themselves: their severities, and what their details say.

use vstd::prelude::*;

use crate::checks::{
    crowd, domain_split, endpoint_health, mismatch, missing_side, rate_extremes, side_health,
    signature_detail, suggestions, topic_hosts, transport_gap, unhealthy_finding,
};
use crate::diagnose::{rate_gap, silence, snapshot_findings};
use crate::drops::{drop_finding, drop_findings, prior_of, publisher_keys, remembered, DropMap};
use crate::entries::{opt_text, TopicEntry};
use crate::findings::{
    code_order, likely_causes_come_first, ordered, severity_of, severity_order, CandidateDetail,
    DeltaDirection, DetailView, DropsDetail, Finding, FindingCode, FindingDetail, FindingSeverity,
    FindingView, ProcessDetail, ProcessView, PublisherDetail, SignatureDetail, SuggestionsDetail,
};
use crate::laws::diagnosis::{
    endpoints, hosts_in, is_diagnosis, lemma_first_process, lemma_hosts, lemma_several,
    some_differ, unhealthy_at, Circumstances,
};
use crate::laws::survey::row_has_type;
use crate::monitoring::{MonitoringSnapshot, ProcessInfo};
use crate::seqs::filter_first;
use crate::sort::{listing, listing_exists, texts};
use crate::survey::{hosts_of, signature, with_signature, TopicSurvey};

verus! {

/// Codes that say that data cannot flow or is not to be trusted rank first and are errors; a
/// suggestion ranks last and is the only information; all between are warnings.
pub proof fn severities_follow_ranks(a: FindingCode, b: FindingCode)
    ensures
        code_order(a) == code_order(b) ==> a == b,
        0 <= code_order(a) <= 12,
        severity_of(a) == FindingSeverity::Error <==> code_order(a) <= 5,
        severity_of(a) == FindingSeverity::Info <==> a == FindingCode::DidYouMean,
        severity_of(a) == FindingSeverity::Info <==> code_order(a) == 12,
        code_order(a) < code_order(b) ==> severity_order(severity_of(a)) >= severity_order(severity_of(b)),
        severity_order(FindingSeverity::Info) < severity_order(FindingSeverity::Warning),
        severity_order(FindingSeverity::Warning) < severity_order(FindingSeverity::Error),
        severity_of(FindingCode::UnhealthyProcess) == FindingSeverity::Error,
        severity_of(FindingCode::NoCommonTransport) == FindingSeverity::Error,
        severity_of(FindingCode::TypeMetadataMismatch) == FindingSeverity::Error,
        severity_of(FindingCode::MessageDrops) == FindingSeverity::Warning,
{
}

/// A detail is seen field by field as it is.
pub proof fn details_are_seen_as_they_are(
    s: SignatureDetail,
    d: DropsDetail,
    p: ProcessDetail,
    q: PublisherDetail,
    c: CandidateDetail,
    g: SuggestionsDetail,
)
    ensures
        s@.name == s.name@ && s@.encoding == s.encoding@,
        s@.descriptor_fingerprint == opt_text(s.descriptor_fingerprint),
        s@.descriptor_len == s.descriptor_len,
        s@.publisher_count == s.publisher_count && s@.subscriber_count == s.subscriber_count,
        s@.publisher_topic_ids == s.publisher_topic_ids@,
        s@.subscriber_topic_ids == s.subscriber_topic_ids@,
        d@.host_name == d.host_name@ && d@.unit_name == d.unit_name@,
        d@.process_id == d.process_id && d@.topic_id == d.topic_id,
        d@.message_drops == d.message_drops,
        d@.drops_since_last_snapshot is Some <==> d.drops_since_last_snapshot is Some,
        d.drops_since_last_snapshot matches Some(n) ==> d@.drops_since_last_snapshot == Some(n as int),
        d@.window_ns is Some <==> d.window_ns is Some,
        d.window_ns matches Some(n) ==> d@.window_ns == Some(n as int),
        p@.side == p.side@ && p@.host_name == p.host_name@ && p@.unit_name == p.unit_name@,
        p@.process_id == p.process_id && p@.topic_id == p.topic_id,
        p@.state_severity == p.state_severity && p@.state_severity_level == p.state_severity_level,
        p@.state_info == p.state_info@,
        q@.host_name == q.host_name@ && q@.unit_name == q.unit_name@,
        q@.process_id == q.process_id && q@.topic_id == q.topic_id && q@.data_clock == q.data_clock,
        q@.registered_data_frequency_mhz == q.registered_data_frequency_mhz,
        c@.topic_name == c.topic_name@ && c@.score == c.score && c@.direction == c.direction,
        c@.occurrences == c.occurrences && c@.host_names == texts(c.host_names@),
        c@.registered_data_frequency_mhz == c.registered_data_frequency_mhz,
        g@.suggestion == opt_text(g.suggestion),
        g@.candidates.len() == g.candidates@.len(),
        forall|i: int| 0 <= i < g.candidates@.len() ==> #[trigger] g@.candidates[i] == g.candidates@[i]@,
{
}

/// A finding is seen as it is, with the detail of its kind.
pub proof fn findings_are_seen_as_they_are(f: Finding)
    ensures
        f@.code == f.code,
        f@.severity == f.severity,
        f@.message == f.message@,
        f@.detail is Some <==> f.detail is Some,
        f.detail matches Some(FindingDetail::Drops(d)) ==> f@.detail == Some(DetailView::Drops(d@)),
        f.detail matches Some(FindingDetail::Process(d)) ==> f@.detail == Some(DetailView::Process(d@)),
        f.detail matches Some(FindingDetail::Suggestions(d)) ==> f@.detail == Some(
            DetailView::Suggestions(d@),
        ),
        f.detail matches Some(FindingDetail::Signatures(rows)) ==> {
            &&& f@.detail is Some
            &&& f@.detail->Some_0 is Signatures
            &&& f@.detail->Some_0->Signatures_0.len() == rows@.len()
            &&& forall|i: int|
                0 <= i < rows@.len() ==> #[trigger] f@.detail->Some_0->Signatures_0[i] == rows@[i]@
        },
        f.detail matches Some(FindingDetail::Domains { host_count, shm_transport_domains }) ==> f@.detail
            == Some(
            DetailView::Domains {
                host_count: host_count as nat,
                shm_transport_domains: texts(shm_transport_domains@),
            },
        ),
        f.detail matches Some(FindingDetail::NoSamples { duration_ms, publisher_count }) ==> f@.detail
            == Some(DetailView::NoSamples { duration_ms, publisher_count: publisher_count as nat }),
        f.detail matches Some(FindingDetail::Rate { delta_direction }) ==> f@.detail == Some(
            DetailView::Rate { delta_direction },
        ),
        f.detail matches Some(FindingDetail::Publishers { publishers, rate_extremes_mhz, host_divergence })
            ==> {
            &&& f@.detail is Some
            &&& f@.detail->Some_0 is Publishers
            &&& f@.detail->Some_0->publishers.len() == publishers@.len()
            &&& forall|i: int|
                0 <= i < publishers@.len() ==> #[trigger] f@.detail->Some_0->publishers[i] == publishers@[i]@
            &&& f@.detail->Some_0->rate_extremes_mhz == rate_extremes_mhz
            &&& f@.detail->Some_0->Publishers_host_divergence == host_divergence
        },
{
}

proof fn lemma_in_sum<A>(a: Seq<A>, b: Seq<A>, x: A)
    ensures
        (a + b).contains(x) <==> a.contains(x) || b.contains(x),
{
    let c = a + b;
    if c.contains(x) {
        let i = choose|i: int| 0 <= i < c.len() && c[i] == x;
        if i < a.len() {
            assert(a[i] == x);
        } else {
            assert(b[i - a.len()] == x);
        }
    }
    if a.contains(x) {
        let i = choose|i: int| 0 <= i < a.len() && a[i] == x;
        assert(c[i] == x);
    }
    if b.contains(x) {
        let i = choose|i: int| 0 <= i < b.len() && b[i] == x;
        assert(c[a.len() + i] == x);
    }
}

pub(crate) proof fn lemma_parts(
    f: Seq<FindingView>,
    sv: TopicSurvey,
    snap: MonitoringSnapshot,
    c: Circumstances,
    x: FindingView,
)
    requires
        is_diagnosis(f, sv, snap, c),
    ensures
        f.contains(x) <==> {
            ||| missing_side(sv.publishers@, sv.subscribers@).contains(x)
            ||| mismatch(sv).contains(x)
            ||| transport_gap(sv).contains(x)
            ||| domain_split(sv).contains(x)
            ||| drop_findings(c.drops, publisher_keys(sv.publishers@), sv.subscribers@, c.now).contains(x)
            ||| side_health("publisher"@, sv.publishers@, snap.processes@).contains(x)
            ||| side_health("subscriber"@, sv.subscribers@, snap.processes@).contains(x)
            ||| suggestions(sv, snap, c.topic).contains(x)
            ||| crowd(sv.publishers@, sv.subscribers@, c.ratio).contains(x)
            ||| silence(c.samples, c.duration_ms, sv.publishers@.len()).contains(x)
            ||| rate_gap(c.samples is Some, c.check).contains(x)
        },
{
    let p = sv.publishers@;
    let s = sv.subscribers@;
    let a = missing_side(p, s);
    let b = a + mismatch(sv);
    let d = b + transport_gap(sv);
    let e = d + domain_split(sv);
    let g = e + drop_findings(c.drops, publisher_keys(p), s, c.now);
    let h = g + side_health("publisher"@, p, snap.processes@);
    let i = h + side_health("subscriber"@, s, snap.processes@);
    let j = i + suggestions(sv, snap, c.topic);
    assert(j == snapshot_findings(sv, snap, c.topic, c.drops, c.now));
    let k = j + crowd(p, s, c.ratio);
    let l = k + silence(c.samples, c.duration_ms, p.len());
    let m = l + rate_gap(c.samples is Some, c.check);
    lemma_in_sum(a, mismatch(sv), x);
    lemma_in_sum(b, transport_gap(sv), x);
    lemma_in_sum(d, domain_split(sv), x);
    lemma_in_sum(e, drop_findings(c.drops, publisher_keys(p), s, c.now), x);
    lemma_in_sum(g, side_health("publisher"@, p, snap.processes@), x);
    lemma_in_sum(h, side_health("subscriber"@, s, snap.processes@), x);
    lemma_in_sum(i, suggestions(sv, snap, c.topic), x);
    lemma_in_sum(j, crowd(p, s, c.ratio), x);
    lemma_in_sum(k, silence(c.samples, c.duration_ms, p.len()), x);
    lemma_in_sum(l, rate_gap(c.samples is Some, c.check), x);
    likely_causes_come_first(m);
    assert(f == ordered(m));
}

pub(crate) proof fn lemma_drop_part(m: DropMap, keys: Seq<i64>, subs: Seq<TopicEntry>, now: u64, x: FindingView)
    requires
        drop_findings(m, keys, subs, now).contains(x),
    ensures
        exists|i: int, prior: Option<(i32, u64)>|
            0 <= i < subs.len() && subs[i].message_drops > 0 && x == #[trigger] drop_finding(
                subs[i],
                prior,
                now,
            ),
    decreases subs.len(),
{
    let all = drop_findings(m, keys, subs, now);
    if subs.len() > 0 {
        let rest = subs.drop_last();
        let before = drop_findings(m, keys, rest, now);
        if before.contains(x) {
            lemma_drop_part(m, keys, rest, now, x);
            let (i, prior) = choose|i: int, prior: Option<(i32, u64)>|
                0 <= i < rest.len() && rest[i].message_drops > 0 && x == #[trigger] drop_finding(
                    rest[i],
                    prior,
                    now,
                );
            assert(subs[i] == rest[i]);
            assert(x == drop_finding(subs[i], prior, now));
        } else {
            let k = choose|k: int| 0 <= k < all.len() && all[k] == x;
            if k < before.len() {
                assert(before[k] == x);
            }
            let prior = prior_of(remembered(m, keys, rest, now), keys, subs.last().topic_id);
            assert(subs[subs.len() - 1] == subs.last());
            assert(x == drop_finding(subs[subs.len() - 1], prior, now));
        }
    }
}

pub(crate) proof fn lemma_health_part(side: Seq<char>, rows: Seq<TopicEntry>, processes: Seq<ProcessInfo>, x: FindingView)
    ensures
        side_health(side, rows, processes).contains(x) <==> exists|i: int|
            0 <= i < rows.len() && endpoint_health(side, #[trigger] rows[i], processes).contains(x),
    decreases rows.len(),
{
    if rows.len() > 0 {
        let rest = rows.drop_last();
        lemma_health_part(side, rest, processes, x);
        lemma_in_sum(side_health(side, rest, processes), endpoint_health(side, rows.last(), processes), x);
        if exists|i: int| 0 <= i < rest.len() && endpoint_health(side, #[trigger] rest[i], processes).contains(x) {
            let i = choose|i: int|
                0 <= i < rest.len() && endpoint_health(side, #[trigger] rest[i], processes).contains(x);
            assert(rows[i] == rest[i]);
        }
        if exists|i: int| 0 <= i < rows.len() && endpoint_health(side, #[trigger] rows[i], processes).contains(x) {
            let i = choose|i: int|
                0 <= i < rows.len() && endpoint_health(side, #[trigger] rows[i], processes).contains(x);
            if i < rest.len() {
                assert(rest[i] == rows[i]);
            }
        }
        assert(rows[rows.len() - 1] == rows.last());
    }
}

/// Every finding has the severity of its code.
pub proof fn findings_carry_the_severity_of_their_code(
    f: Seq<FindingView>,
    sv: TopicSurvey,
    snap: MonitoringSnapshot,
    c: Circumstances,
    n: int,
)
    requires
        is_diagnosis(f, sv, snap, c),
        0 <= n < f.len(),
    ensures
        f[n].severity == severity_of(f[n].code),
{
    let x = f[n];
    assert(f.contains(x));
    lemma_parts(f, sv, snap, c, x);
    let keys = publisher_keys(sv.publishers@);
    if drop_findings(c.drops, keys, sv.subscribers@, c.now).contains(x) {
        lemma_drop_part(c.drops, keys, sv.subscribers@, c.now, x);
    }
    lemma_health_part("publisher"@, sv.publishers@, snap.processes@, x);
    lemma_health_part("subscriber"@, sv.subscribers@, snap.processes@, x);
}

/// `d` tells of row `e`, on side `side`, and of its process `p`.
pub open spec fn tells_of_process(d: ProcessView, side: Seq<char>, e: TopicEntry, p: ProcessInfo) -> bool {
    &&& d.side == side
    &&& d.host_name == e.host_name@
    &&& d.unit_name == e.unit_name@
    &&& d.process_id == e.process_id
    &&& d.topic_id == e.topic_id
    &&& d.state_severity == p.state_severity
    &&& d.state_severity_level == p.state_severity_level
    &&& d.state_info == p.state_info@
}

/// Finding `n` is an unhealthy process and tells of row `e` and process `p`.
pub open spec fn process_finding_at(
    f: Seq<FindingView>,
    n: int,
    side: Seq<char>,
    e: TopicEntry,
    p: ProcessInfo,
) -> bool {
    &&& 0 <= n < f.len()
    &&& f[n].code == FindingCode::UnhealthyProcess
    &&& f[n].detail is Some
    &&& f[n].detail->Some_0 is Process
    &&& tells_of_process(f[n].detail->Some_0->Process_0, side, e, p)
}

/// Every endpoint whose first process reports a severity of two or more has a finding, and that
/// tells of the endpoint, its side and the state of the process.
pub proof fn unhealthy_endpoints_are_told_of(
    f: Seq<FindingView>,
    sv: TopicSurvey,
    snap: MonitoringSnapshot,
    c: Circumstances,
    i: int,
    k: int,
)
    requires
        is_diagnosis(f, sv, snap, c),
    ensures
        unhealthy_at(sv.publishers@, snap.processes@, i, k) ==> exists|n: int|
            #[trigger] process_finding_at(f, n, "publisher"@, sv.publishers@[i], snap.processes@[k]),
        unhealthy_at(sv.subscribers@, snap.processes@, i, k) ==> exists|n: int|
            #[trigger] process_finding_at(f, n, "subscriber"@, sv.subscribers@[i], snap.processes@[k]),
{
    let processes = snap.processes@;
    if unhealthy_at(sv.publishers@, processes, i, k) {
        lemma_told(f, sv, snap, c, "publisher"@, sv.publishers@, i, k);
    }
    if unhealthy_at(sv.subscribers@, processes, i, k) {
        lemma_told(f, sv, snap, c, "subscriber"@, sv.subscribers@, i, k);
    }
}

proof fn lemma_told(
    f: Seq<FindingView>,
    sv: TopicSurvey,
    snap: MonitoringSnapshot,
    c: Circumstances,
    side: Seq<char>,
    rows: Seq<TopicEntry>,
    i: int,
    k: int,
)
    requires
        is_diagnosis(f, sv, snap, c),
        (side == "publisher"@ && rows == sv.publishers@) || (side == "subscriber"@ && rows == sv.subscribers@),
        unhealthy_at(rows, snap.processes@, i, k),
    ensures
        exists|n: int| #[trigger] process_finding_at(f, n, side, rows[i], snap.processes@[k]),
{
    let processes = snap.processes@;
    let e = rows[i];
    let first = lemma_first_process(e, processes);
    assert(processes[k].process_id == e.process_id);
    assert(first == k) by {
        if first < k {
            assert(processes[first].process_id != e.process_id || processes[first].host_name@ != e.host_name@);
        }
    }
    let x = unhealthy_finding(side, e, processes[k]);
    assert(endpoint_health(side, e, processes)[0] == x);
    assert(endpoint_health(side, e, processes).contains(x));
    lemma_health_part(side, rows, processes, x);
    lemma_parts(f, sv, snap, c, x);
    let n = choose|n: int| 0 <= n < f.len() && f[n] == x;
    assert(process_finding_at(f, n, side, e, processes[k]));
}

/// Finding `n` tells of a row of this side whose first process is not healthy.
pub open spec fn told_of(
    f: Seq<FindingView>,
    n: int,
    side: Seq<char>,
    rows: Seq<TopicEntry>,
    processes: Seq<ProcessInfo>,
) -> bool {
    exists|i: int, k: int|
        #[trigger] unhealthy_at(rows, processes, i, k) && process_finding_at(f, n, side, rows[i], processes[k])
}

proof fn lemma_told_of(
    f: Seq<FindingView>,
    n: int,
    side: Seq<char>,
    rows: Seq<TopicEntry>,
    processes: Seq<ProcessInfo>,
)
    requires
        0 <= n < f.len(),
        side_health(side, rows, processes).contains(f[n]),
    ensures
        told_of(f, n, side, rows, processes),
{
    let x = f[n];
    lemma_health_part(side, rows, processes, x);
    let i = choose|i: int|
        0 <= i < rows.len() && endpoint_health(side, #[trigger] rows[i], processes).contains(x);
    let k = lemma_first_process(rows[i], processes);
    assert(unhealthy_at(rows, processes, i, k));
    assert(x == unhealthy_finding(side, rows[i], processes[k]));
    assert(process_finding_at(f, n, side, rows[i], processes[k]));
}

proof fn lemma_unhealthy_part(
    f: Seq<FindingView>,
    sv: TopicSurvey,
    snap: MonitoringSnapshot,
    c: Circumstances,
    x: FindingView,
)
    requires
        is_diagnosis(f, sv, snap, c),
        f.contains(x),
        x.code == FindingCode::UnhealthyProcess,
    ensures
        side_health("publisher"@, sv.publishers@, snap.processes@).contains(x) || side_health(
            "subscriber"@,
            sv.subscribers@,
            snap.processes@,
        ).contains(x),
{
    lemma_parts(f, sv, snap, c, x);
    let keys = publisher_keys(sv.publishers@);
    if drop_findings(c.drops, keys, sv.subscribers@, c.now).contains(x) {
        lemma_drop_part(c.drops, keys, sv.subscribers@, c.now, x);
    }
}

/// Every finding of an unhealthy process tells of an endpoint whose first process reports a
/// severity of two or more.
pub proof fn unhealthy_findings_have_endpoints(
    f: Seq<FindingView>,
    sv: TopicSurvey,
    snap: MonitoringSnapshot,
    c: Circumstances,
    n: int,
)
    requires
        is_diagnosis(f, sv, snap, c),
        0 <= n < f.len(),
        f[n].code == FindingCode::UnhealthyProcess,
    ensures
        told_of(f, n, "publisher"@, sv.publishers@, snap.processes@) || told_of(
            f,
            n,
            "subscriber"@,
            sv.subscribers@,
            snap.processes@,
        ),
{
    assert(f.contains(f[n]));
    lemma_unhealthy_part(f, sv, snap, c, f[n]);
    if side_health("publisher"@, sv.publishers@, snap.processes@).contains(f[n]) {
        lemma_told_of(f, n, "publisher"@, sv.publishers@, snap.processes@);
    } else {
        lemma_told_of(f, n, "subscriber"@, sv.subscribers@, snap.processes@);
    }
}

/// Every finding of drops tells of a subscriber with a positive counter, and of that counter.
pub proof fn drop_findings_have_subscribers(
    f: Seq<FindingView>,
    sv: TopicSurvey,
    snap: MonitoringSnapshot,
    c: Circumstances,
    n: int,
)
    requires
        is_diagnosis(f, sv, snap, c),
        0 <= n < f.len(),
        f[n].code == FindingCode::MessageDrops,
    ensures
        f[n].detail is Some,
        f[n].detail->Some_0 is Drops,
        exists|i: int|
            {
                let s = #[trigger] sv.subscribers@[i];
                let d = f[n].detail->Some_0->Drops_0;
                &&& 0 <= i < sv.subscribers@.len()
                &&& s.message_drops > 0
                &&& d.message_drops == s.message_drops
                &&& d.topic_id == s.topic_id
                &&& d.host_name == s.host_name@
                &&& d.unit_name == s.unit_name@
                &&& d.process_id == s.process_id
                &&& d.drops_since_last_snapshot is Some <==> d.window_ns is Some
            },
{
    let x = f[n];
    assert(f.contains(x));
    lemma_parts(f, sv, snap, c, x);
    lemma_health_part("publisher"@, sv.publishers@, snap.processes@, x);
    lemma_health_part("subscriber"@, sv.subscribers@, snap.processes@, x);
    lemma_drop_part(c.drops, publisher_keys(sv.publishers@), sv.subscribers@, c.now, x);
}

/// A mismatch is told of with one row per signature: its names, who advertises it, and the
/// descriptor of the first endpoint that does, publishers before subscribers.
pub proof fn mismatches_tell_of_every_signature(
    f: Seq<FindingView>,
    sv: TopicSurvey,
    snap: MonitoringSnapshot,
    c: Circumstances,
    n: int,
    k: int,
    i: int,
)
    requires
        is_diagnosis(f, sv, snap, c),
        0 <= n < f.len(),
        f[n].code == FindingCode::TypeMetadataMismatch,
        0 <= k < sv.type_signatures@.len(),
        row_has_type(endpoints(sv), i, sv.type_signatures@[k].name@, sv.type_signatures@[k].encoding@),
        forall|j: int|
            0 <= j < i ==> !#[trigger] row_has_type(
                endpoints(sv),
                j,
                sv.type_signatures@[k].name@,
                sv.type_signatures@[k].encoding@,
            ),
    ensures
        f[n].detail is Some,
        f[n].detail->Some_0 is Signatures,
        f[n].detail->Some_0->Signatures_0.len() == sv.type_signatures@.len(),
        ({
            let row = f[n].detail->Some_0->Signatures_0[k];
            let s = sv.type_signatures@[k];
            let e = endpoints(sv)[i];
            &&& row.name == s.name@
            &&& row.encoding == s.encoding@
            &&& row.publisher_count == s.publisher_occurrences
            &&& row.subscriber_count == s.subscriber_occurrences
            &&& row.publisher_topic_ids == s.publisher_topic_ids@
            &&& row.subscriber_topic_ids == s.subscriber_topic_ids@
            &&& row.descriptor_len == e.datatype_information.descriptor_len
            &&& row.descriptor_fingerprint == opt_text(e.datatype_information.descriptor_fingerprint)
        }),
{
    let x = f[n];
    assert(f.contains(x));
    lemma_parts(f, sv, snap, c, x);
    let keys = publisher_keys(sv.publishers@);
    if drop_findings(c.drops, keys, sv.subscribers@, c.now).contains(x) {
        lemma_drop_part(c.drops, keys, sv.subscribers@, c.now, x);
    }
    lemma_health_part("publisher"@, sv.publishers@, snap.processes@, x);
    lemma_health_part("subscriber"@, sv.subscribers@, snap.processes@, x);
    assert(mismatch(sv).contains(x));
    let s = sv.type_signatures@[k];
    let sig = (s.name@, s.encoding@);
    let all = endpoints(sv);
    let pred = |e: TopicEntry| signature(e) == sig;
    assert(signature(all[i]) == sig);
    assert forall|j: int| 0 <= j < i implies !pred(#[trigger] all[j]) by {
        assert(!row_has_type(all, j, s.name@, s.encoding@));
    }
    filter_first(all, pred, i);
    lemma_with_signature(all, sig, pred);
    assert(x.detail->Some_0->Signatures_0[k] == signature_detail(s, sv.publishers@, sv.subscribers@));
}

proof fn lemma_with_signature(rows: Seq<TopicEntry>, sig: (Seq<char>, Seq<char>), pred: spec_fn(TopicEntry) -> bool)
    requires
        forall|e: TopicEntry| #[trigger] pred(e) <==> signature(e) == sig,
    ensures
        with_signature(rows, sig) == rows.filter(pred),
    decreases rows.len(),
{
    reveal(Seq::filter);
    if rows.len() > 0 {
        lemma_with_signature(rows.drop_last(), sig, pred);
        assert(pred(rows.last()) <==> signature(rows.last()) == sig);
    }
}

/// A domain split is told of with the number of different hosts and with all domains.
pub proof fn domain_splits_tell_hosts_and_domains(
    f: Seq<FindingView>,
    sv: TopicSurvey,
    snap: MonitoringSnapshot,
    c: Circumstances,
    n: int,
)
    requires
        is_diagnosis(f, sv, snap, c),
        0 <= n < f.len(),
        f[n].code == FindingCode::ShmDomainSplit,
    ensures
        f[n].detail is Some,
        f[n].detail->Some_0 is Domains,
        f[n].detail->Some_0->host_count == hosts_in(endpoints(sv)).to_set().len(),
        f[n].detail->Some_0->shm_transport_domains == texts(sv.shm_transport_domains@),
{
    let x = f[n];
    assert(f.contains(x));
    lemma_parts(f, sv, snap, c, x);
    let keys = publisher_keys(sv.publishers@);
    if drop_findings(c.drops, keys, sv.subscribers@, c.now).contains(x) {
        lemma_drop_part(c.drops, keys, sv.subscribers@, c.now, x);
    }
    lemma_health_part("publisher"@, sv.publishers@, snap.processes@, x);
    lemma_health_part("subscriber"@, sv.subscribers@, snap.processes@, x);
    lemma_hosts(sv);
    lemma_several(listing(topic_hosts(sv)), hosts_in(endpoints(sv)));
}

/// Row `i` has this rate, and it is positive.
pub open spec fn runs_at(rows: Seq<TopicEntry>, i: int, rate: i32) -> bool {
    0 <= i < rows.len() && rows[i].registered_data_frequency_mhz == rate && rate > 0
}

/// The extremes of the publishers' rates are the highest and the lowest of the positive ones, and
/// there are none where no rate is positive.
pub proof fn extremes_bound_the_positive_rates(rows: Seq<TopicEntry>)
    ensures
        rate_extremes(rows) is None <==> forall|i: int|
            0 <= i < rows.len() ==> (#[trigger] rows[i]).registered_data_frequency_mhz <= 0,
        rate_extremes(rows) matches Some(b) ==> {
            &&& exists|i: int| #[trigger] runs_at(rows, i, b.0)
            &&& exists|i: int| #[trigger] runs_at(rows, i, b.1)
            &&& forall|i: int|
                0 <= i < rows.len() && (#[trigger] rows[i]).registered_data_frequency_mhz > 0 ==> b.1
                    <= rows[i].registered_data_frequency_mhz <= b.0
        },
    decreases rows.len(),
{
    if rows.len() > 0 {
        let rest = rows.drop_last();
        let last = rows.len() - 1;
        extremes_bound_the_positive_rates(rest);
        let rate = rows.last().registered_data_frequency_mhz;
        assert(rows[last] == rows.last());
        assert forall|i: int| 0 <= i < rest.len() implies rest[i] == #[trigger] rows[i] by {}
        if let Some(b) = rate_extremes(rest) {
            let i = choose|i: int| #[trigger] runs_at(rest, i, b.0);
            let j = choose|j: int| #[trigger] runs_at(rest, j, b.1);
            assert(runs_at(rows, i, b.0));
            assert(runs_at(rows, j, b.1));
            assert(rate_extremes(rows) is Some);
            assert(rows[i].registered_data_frequency_mhz > 0);
        }
        if rate > 0 {
            assert(runs_at(rows, last, rate));
        }
        assert forall|i: int|
            0 <= i < rows.len() && (#[trigger] rows[i]).registered_data_frequency_mhz > 0 && rate_extremes(
                rows,
            ) is Some implies rate_extremes(rows)->Some_0.1 <= rows[i].registered_data_frequency_mhz
            <= rate_extremes(rows)->Some_0.0 by {
            if i < last {
                assert(rest[i] == rows[i]);
            }
        }
        if rate_extremes(rows) is None {
            assert forall|i: int| 0 <= i < rows.len() implies (#[trigger] rows[i]).registered_data_frequency_mhz
                <= 0 by {
                if i < last {
                    assert(rest[i] == rows[i]);
                }
            }
        }
        if forall|i: int| 0 <= i < rows.len() ==> (#[trigger] rows[i]).registered_data_frequency_mhz <= 0 {
            assert forall|i: int| 0 <= i < rest.len() implies (#[trigger] rest[i]).registered_data_frequency_mhz
                <= 0 by {
                assert(rows[i].registered_data_frequency_mhz <= 0);
            }
            assert(rows[last].registered_data_frequency_mhz <= 0);
        }
    }
}

/// Several publishers are told of one by one, with the extremes of their rates, and with a
/// divergence exactly where two of them are on different hosts.
pub proof fn crowds_tell_of_every_publisher(
    f: Seq<FindingView>,
    sv: TopicSurvey,
    snap: MonitoringSnapshot,
    c: Circumstances,
    n: int,
)
    requires
        is_diagnosis(f, sv, snap, c),
        0 <= n < f.len(),
        f[n].code == FindingCode::MultiplePublishers,
    ensures
        f[n].detail is Some,
        f[n].detail->Some_0 is Publishers,
        f[n].detail->Some_0->publishers.len() == sv.publishers@.len(),
        forall|i: int|
            0 <= i < sv.publishers@.len() ==> {
                let row = #[trigger] f[n].detail->Some_0->publishers[i];
                let e = sv.publishers@[i];
                &&& row.host_name == e.host_name@
                &&& row.unit_name == e.unit_name@
                &&& row.process_id == e.process_id
                &&& row.topic_id == e.topic_id
                &&& row.registered_data_frequency_mhz == e.registered_data_frequency_mhz
                &&& row.data_clock == e.data_clock
            },
        f[n].detail->Some_0->rate_extremes_mhz == rate_extremes(sv.publishers@),
        f[n].detail->Some_0->Publishers_host_divergence <==> some_differ(hosts_in(sv.publishers@)),
{
    let x = f[n];
    assert(f.contains(x));
    lemma_parts(f, sv, snap, c, x);
    let keys = publisher_keys(sv.publishers@);
    if drop_findings(c.drops, keys, sv.subscribers@, c.now).contains(x) {
        lemma_drop_part(c.drops, keys, sv.subscribers@, c.now, x);
    }
    lemma_health_part("publisher"@, sv.publishers@, snap.processes@, x);
    lemma_health_part("subscriber"@, sv.subscribers@, snap.processes@, x);
    listing_exists(hosts_in(sv.publishers@));
    lemma_several(listing(hosts_of(sv.publishers@)), hosts_in(sv.publishers@));
}

/// Silence is told of with the window and the number of publishers, and a missed rate with its
/// direction.
pub proof fn live_findings_tell_the_window(
    f: Seq<FindingView>,
    sv: TopicSurvey,
    snap: MonitoringSnapshot,
    c: Circumstances,
    n: int,
)
    requires
        is_diagnosis(f, sv, snap, c),
        0 <= n < f.len(),
    ensures
        f[n].code == FindingCode::NoSamplesObserved ==> f[n].detail == Some(
            DetailView::NoSamples { duration_ms: c.duration_ms, publisher_count: sv.publishers@.len() },
        ),
        f[n].code == FindingCode::RateBelowSpec ==> f[n].detail == Some(
            DetailView::Rate { delta_direction: DeltaDirection::BelowSpec },
        ),
        f[n].code == FindingCode::RateAboveSpec ==> f[n].detail == Some(
            DetailView::Rate { delta_direction: DeltaDirection::AboveSpec },
        ),
{
    let x = f[n];
    assert(f.contains(x));
    lemma_parts(f, sv, snap, c, x);
    let keys = publisher_keys(sv.publishers@);
    if drop_findings(c.drops, keys, sv.subscribers@, c.now).contains(x) {
        lemma_drop_part(c.drops, keys, sv.subscribers@, c.now, x);
    }
    lemma_health_part("publisher"@, sv.publishers@, snap.processes@, x);
    lemma_health_part("subscriber"@, sv.subscribers@, snap.processes@, x);
}

} // verus!
