//! Laws of a diagnosis as a whole: how many findings there are, in what order, and in what words.

use vstd::multiset::Multiset;
use vstd::prelude::*;

use crate::checks::{
    crowd, domain_split, endpoint_health, mismatch, missing_side, processes_of, side_health,
    suggestions, topic_hosts, transport_gap,
};
use crate::diagnose::{is_live_part, rate_gap, silence, snapshot_findings, verdict};
use crate::drops::{drop_findings, publisher_keys, DropMap};
use crate::entries::TopicEntry;
use crate::findings::{
    at_position, code_order, found, likely_causes_come_first, ordered, position, severity_of,
    DeltaDirection, DropsView, FindingCode, FindingView, ProcessView,
};
use crate::laws::details::{
    findings_carry_the_severity_of_their_code, lemma_drop_part, lemma_health_part, lemma_parts,
};
use crate::laws::diagnosis::{
    endpoints, hosts_in, is_diagnosis, lemma_first_process, lemma_hosts, lemma_several,
    Circumstances,
};
use crate::measure::WindowStats;
use crate::monitoring::{MonitoringSnapshot, ProcessInfo};
use crate::seqs::{filter_all, filter_none};
use crate::sort::listing;
use crate::survey::TopicSurvey;
use crate::text::{debug_form, decimal, signed_decimal};

verus! {

/// What to look at first, and what next.
pub open spec fn causes() -> Seq<FindingCode> {
    seq![
        FindingCode::NoPublishersOrSubscribers,
        FindingCode::NoPublisher,
        FindingCode::NoSubscriber,
        FindingCode::TypeMetadataMismatch,
        FindingCode::NoCommonTransport,
        FindingCode::UnhealthyProcess,
        FindingCode::MultiplePublishers,
        FindingCode::MessageDrops,
        FindingCode::RateBelowSpec,
        FindingCode::RateAboveSpec,
        FindingCode::NoSamplesObserved,
        FindingCode::ShmDomainSplit,
        FindingCode::DidYouMean,
    ]
}

/// A finding that stands before another is a cause that is looked at no later.
pub proof fn diagnoses_list_causes_in_order(
    f: Seq<FindingView>,
    sv: TopicSurvey,
    snap: MonitoringSnapshot,
    c: Circumstances,
    i: int,
    j: int,
    a: int,
    b: int,
)
    requires
        is_diagnosis(f, sv, snap, c),
        0 <= i < j < f.len(),
        0 <= a < causes().len(),
        0 <= b < causes().len(),
        f[i].code == causes()[a],
        f[j].code == causes()[b],
    ensures
        a <= b,
{
    let m = snapshot_findings(sv, snap, c.topic, c.drops, c.now) + crowd(
        sv.publishers@,
        sv.subscribers@,
        c.ratio,
    ) + silence(c.samples, c.duration_ms, sv.publishers@.len()) + rate_gap(c.samples is Some, c.check);
    likely_causes_come_first(m);
    assert(f == ordered(m));
    assert(code_order(ordered(m)[i].code) <= code_order(ordered(m)[j].code));
    assert(code_order(causes()[a]) == a);
    assert(code_order(causes()[b]) == b);
}

/// The findings of one code.
pub open spec fn tally(f: Seq<FindingView>, code: FindingCode) -> nat {
    f.filter(|x: FindingView| x.code == code).len()
}

/// The first process that is of this endpoint reports a severity of two or more.
pub open spec fn ails(e: TopicEntry, processes: Seq<ProcessInfo>) -> bool {
    exists|k: int| #[trigger] ails_at(e, processes, k)
}

/// Process `k` is the first that is of this endpoint, and reports a severity of two or more.
pub open spec fn ails_at(e: TopicEntry, processes: Seq<ProcessInfo>, k: int) -> bool {
    &&& 0 <= k < processes.len()
    &&& processes[k].process_id == e.process_id
    &&& processes[k].host_name@ == e.host_name@
    &&& processes[k].state_severity >= 2
    &&& forall|l: int|
        0 <= l < k ==> (#[trigger] processes[l]).process_id != e.process_id || processes[l].host_name@
            != e.host_name@
}

proof fn lemma_multiset_tally<A>(s: Seq<A>, pred: spec_fn(A) -> bool)
    ensures
        s.filter(pred).len() == s.to_multiset().filter(pred).len(),
    decreases s.len(),
{
    broadcast use vstd::multiset::group_multiset_axioms;

    reveal(Seq::filter);
    if s.len() == 0 {
        s.to_multiset_ensures();
        assert(s.to_multiset().filter(pred) =~= Multiset::empty());
    } else {
        let rest = s.drop_last();
        lemma_multiset_tally(rest, pred);
        rest.to_multiset_ensures();
        assert(rest.push(s.last()) =~= s);
        assert(s.to_multiset() =~= rest.to_multiset().insert(s.last()));
        if pred(s.last()) {
            assert(s.to_multiset().filter(pred) =~= rest.to_multiset().filter(pred).insert(s.last()));
        } else {
            assert(s.to_multiset().filter(pred) =~= rest.to_multiset().filter(pred));
        }
    }
}

proof fn lemma_add_tally(a: Seq<FindingView>, b: Seq<FindingView>, code: FindingCode)
    ensures
        tally(a + b, code) == tally(a, code) + tally(b, code),
{
    Seq::filter_distributes_over_add(a, b, |x: FindingView| x.code == code);
}

proof fn lemma_tally_one(s: Seq<FindingView>, code: FindingCode)
    requires
        s.len() <= 1,
    ensures
        tally(s, code) == if s.len() == 1 && s[0].code == code {
            1nat
        } else {
            0
        },
{
    let pred = |x: FindingView| x.code == code;
    if s.len() == 1 && s[0].code == code {
        filter_all(s, pred);
    } else {
        filter_none(s, pred);
    }
}

proof fn lemma_tally_drops(m: DropMap, keys: Seq<i64>, subs: Seq<TopicEntry>, now: u64, code: FindingCode)
    ensures
        tally(drop_findings(m, keys, subs, now), code) == if code == FindingCode::MessageDrops {
            subs.filter(|e: TopicEntry| e.message_drops > 0).len()
        } else {
            0
        },
    decreases subs.len(),
{
    reveal(Seq::filter);
    let all = drop_findings(m, keys, subs, now);
    if subs.len() > 0 {
        lemma_tally_drops(m, keys, subs.drop_last(), now, code);
        if subs.last().message_drops > 0 {
            assert(all.drop_last() =~= drop_findings(m, keys, subs.drop_last(), now));
        }
    }
}

proof fn lemma_ails(e: TopicEntry, processes: Seq<ProcessInfo>)
    ensures
        ails(e, processes) <==> processes_of(e, processes).len() > 0 && processes_of(
            e,
            processes,
        )[0].state_severity >= 2,
{
    let own = processes_of(e, processes);
    let first = lemma_first_process(e, processes);
    if own.len() > 0 && own[0].state_severity >= 2 {
        assert(ails_at(e, processes, first));
    }
    if ails(e, processes) {
        let k = choose|k: int| #[trigger] ails_at(e, processes, k);
        assert(processes[k].process_id == e.process_id);
        if first < k {
            assert(processes[first].process_id != e.process_id || processes[first].host_name@ != e.host_name@);
        }
        if k < first {
            assert(processes[k].process_id != e.process_id || processes[k].host_name@ != e.host_name@);
        }
    }
}

proof fn lemma_tally_health(side: Seq<char>, rows: Seq<TopicEntry>, processes: Seq<ProcessInfo>, code: FindingCode)
    ensures
        tally(side_health(side, rows, processes), code) == if code == FindingCode::UnhealthyProcess {
            rows.filter(|e: TopicEntry| ails(e, processes)).len()
        } else {
            0
        },
    decreases rows.len(),
{
    reveal(Seq::filter);
    if rows.len() > 0 {
        let rest = rows.drop_last();
        let e = rows.last();
        lemma_tally_health(side, rest, processes, code);
        lemma_add_tally(side_health(side, rest, processes), endpoint_health(side, e, processes), code);
        lemma_tally_one(endpoint_health(side, e, processes), code);
        lemma_ails(e, processes);
    }
}

/// Of drops there is one finding for each subscriber that has some, of unhealthy processes one for
/// each endpoint whose process reports so, and of every other matter at most one.
pub proof fn every_matter_is_found_once(
    f: Seq<FindingView>,
    sv: TopicSurvey,
    snap: MonitoringSnapshot,
    c: Circumstances,
    code: FindingCode,
)
    requires
        is_diagnosis(f, sv, snap, c),
    ensures
        code == FindingCode::MessageDrops ==> f.filter(|x: FindingView| x.code == code).len()
            == sv.subscribers@.filter(|e: TopicEntry| e.message_drops > 0).len(),
        code == FindingCode::UnhealthyProcess ==> f.filter(|x: FindingView| x.code == code).len()
            == sv.publishers@.filter(|e: TopicEntry| ails(e, snap.processes@)).len()
            + sv.subscribers@.filter(|e: TopicEntry| ails(e, snap.processes@)).len(),
        code != FindingCode::MessageDrops && code != FindingCode::UnhealthyProcess ==> f.filter(
            |x: FindingView| x.code == code,
        ).len() <= 1,
{
    let p = sv.publishers@;
    let s = sv.subscribers@;
    let keys = publisher_keys(p);
    let processes = snap.processes@;
    let a = missing_side(p, s);
    let b = a + mismatch(sv);
    let d = b + transport_gap(sv);
    let e = d + domain_split(sv);
    let g = e + drop_findings(c.drops, keys, s, c.now);
    let h = g + side_health("publisher"@, p, processes);
    let i = h + side_health("subscriber"@, s, processes);
    let j = i + suggestions(sv, snap, c.topic);
    assert(j == snapshot_findings(sv, snap, c.topic, c.drops, c.now));
    let k = j + crowd(p, s, c.ratio);
    let l = k + silence(c.samples, c.duration_ms, p.len());
    let m = l + rate_gap(c.samples is Some, c.check);
    lemma_add_tally(a, mismatch(sv), code);
    lemma_add_tally(b, transport_gap(sv), code);
    lemma_add_tally(d, domain_split(sv), code);
    lemma_add_tally(e, drop_findings(c.drops, keys, s, c.now), code);
    lemma_add_tally(g, side_health("publisher"@, p, processes), code);
    lemma_add_tally(h, side_health("subscriber"@, s, processes), code);
    lemma_add_tally(i, suggestions(sv, snap, c.topic), code);
    lemma_add_tally(j, crowd(p, s, c.ratio), code);
    lemma_add_tally(k, silence(c.samples, c.duration_ms, p.len()), code);
    lemma_add_tally(l, rate_gap(c.samples is Some, c.check), code);
    lemma_tally_one(a, code);
    lemma_tally_one(mismatch(sv), code);
    lemma_tally_one(transport_gap(sv), code);
    lemma_tally_one(domain_split(sv), code);
    lemma_tally_drops(c.drops, keys, s, c.now, code);
    lemma_tally_health("publisher"@, p, processes, code);
    lemma_tally_health("subscriber"@, s, processes, code);
    lemma_tally_one(suggestions(sv, snap, c.topic), code);
    lemma_tally_one(crowd(p, s, c.ratio), code);
    lemma_tally_one(silence(c.samples, c.duration_ms, p.len()), code);
    lemma_tally_one(rate_gap(c.samples is Some, c.check), code);
    likely_causes_come_first(m);
    assert(f == ordered(m));
    let pred = |x: FindingView| x.code == code;
    lemma_multiset_tally(f, pred);
    lemma_multiset_tally(m, pred);
}

proof fn lemma_filters_agree<A>(s: Seq<A>, p: spec_fn(A) -> bool, q: spec_fn(A) -> bool)
    requires
        forall|i: int| 0 <= i < s.len() ==> p(#[trigger] s[i]) == q(s[i]),
    ensures
        s.filter(p) == s.filter(q),
    decreases s.len(),
{
    reveal(Seq::filter);
    if s.len() > 0 {
        let t = s.drop_last();
        assert forall|i: int| 0 <= i < t.len() implies p(#[trigger] t[i]) == q(t[i]) by {
            assert(t[i] == s[i]);
        }
        lemma_filters_agree(t, p, q);
        assert(s[s.len() - 1] == s.last());
    }
}

proof fn lemma_sorting_keeps_order(m: Seq<FindingView>, code: FindingCode)
    requires
        forall|i: int| 0 <= i < m.len() ==> (#[trigger] m[i]).severity == severity_of(m[i].code),
    ensures
        ordered(m).filter(|x: FindingView| x.code == code) == m.filter(|x: FindingView| x.code == code),
{
    likely_causes_come_first(m);
    let f = ordered(m);
    let pred = |x: FindingView| x.code == code;
    let k = position(found(code, Seq::empty(), None));
    let at = |x: FindingView| position(x) == k;
    assert forall|i: int| 0 <= i < m.len() implies pred(#[trigger] m[i]) == at(m[i]) by {}
    assert forall|i: int| 0 <= i < f.len() implies pred(#[trigger] f[i]) == at(f[i]) by {
        assert(f.contains(f[i]));
        let j = choose|j: int| 0 <= j < m.len() && m[j] == f[i];
        assert(m[j].severity == severity_of(m[j].code));
    }
    lemma_filters_agree(m, pred, at);
    lemma_filters_agree(f, pred, at);
    assert(at_position(f, k) == at_position(m, k));
    lemma_class(f, k, at);
    lemma_class(m, k, at);
}

proof fn lemma_class(s: Seq<FindingView>, k: i128, at: spec_fn(FindingView) -> bool)
    requires
        forall|x: FindingView| #[trigger] at(x) == (position(x) == k),
    ensures
        at_position(s, k) == s.filter(at),
    decreases s.len(),
{
    reveal(Seq::filter);
    if s.len() > 0 {
        lemma_class(s.drop_last(), k, at);
        assert(at(s.last()) == (position(s.last()) == k));
    }
}

proof fn lemma_of_code(
    f: Seq<FindingView>,
    sv: TopicSurvey,
    snap: MonitoringSnapshot,
    c: Circumstances,
    code: FindingCode,
)
    requires
        is_diagnosis(f, sv, snap, c),
        code == FindingCode::MessageDrops || code == FindingCode::UnhealthyProcess,
    ensures
        f.filter(|x: FindingView| x.code == code) == if code == FindingCode::MessageDrops {
            drop_findings(c.drops, publisher_keys(sv.publishers@), sv.subscribers@, c.now)
        } else {
            side_health("publisher"@, sv.publishers@, snap.processes@) + side_health(
                "subscriber"@,
                sv.subscribers@,
                snap.processes@,
            )
        },
{
    let pred = |x: FindingView| x.code == code;
    let p = sv.publishers@;
    let s = sv.subscribers@;
    let keys = publisher_keys(p);
    let processes = snap.processes@;
    let dr = drop_findings(c.drops, keys, s, c.now);
    let hp = side_health("publisher"@, p, processes);
    let hs = side_health("subscriber"@, s, processes);
    let a = missing_side(p, s);
    let b = a + mismatch(sv);
    let d = b + transport_gap(sv);
    let e = d + domain_split(sv);
    let g = e + dr;
    let h = g + hp;
    let i = h + hs;
    let j = i + suggestions(sv, snap, c.topic);
    assert(j == snapshot_findings(sv, snap, c.topic, c.drops, c.now));
    let k = j + crowd(p, s, c.ratio);
    let l = k + silence(c.samples, c.duration_ms, p.len());
    let m = l + rate_gap(c.samples is Some, c.check);
    assert(f == ordered(m));
    likely_causes_come_first(m);
    assert forall|x: int| 0 <= x < m.len() implies (#[trigger] m[x]).severity == severity_of(m[x].code) by {
        assert(m.contains(m[x]));
        assert(f.contains(m[x]));
        let n = choose|n: int| 0 <= n < f.len() && f[n] == m[x];
        findings_carry_the_severity_of_their_code(f, sv, snap, c, n);
    }
    lemma_sorting_keeps_order(m, code);
    Seq::filter_distributes_over_add(a, mismatch(sv), pred);
    Seq::filter_distributes_over_add(b, transport_gap(sv), pred);
    Seq::filter_distributes_over_add(d, domain_split(sv), pred);
    Seq::filter_distributes_over_add(e, dr, pred);
    Seq::filter_distributes_over_add(g, hp, pred);
    Seq::filter_distributes_over_add(h, hs, pred);
    Seq::filter_distributes_over_add(i, suggestions(sv, snap, c.topic), pred);
    Seq::filter_distributes_over_add(j, crowd(p, s, c.ratio), pred);
    Seq::filter_distributes_over_add(k, silence(c.samples, c.duration_ms, p.len()), pred);
    Seq::filter_distributes_over_add(l, rate_gap(c.samples is Some, c.check), pred);
    filter_none(a, pred);
    filter_none(mismatch(sv), pred);
    filter_none(transport_gap(sv), pred);
    filter_none(domain_split(sv), pred);
    filter_none(suggestions(sv, snap, c.topic), pred);
    filter_none(crowd(p, s, c.ratio), pred);
    filter_none(silence(c.samples, c.duration_ms, p.len()), pred);
    filter_none(rate_gap(c.samples is Some, c.check), pred);
    lemma_drop_codes(c.drops, keys, s, c.now);
    lemma_health_codes("publisher"@, p, processes);
    lemma_health_codes("subscriber"@, s, processes);
    if code == FindingCode::MessageDrops {
        filter_all(dr, pred);
        filter_none(hp, pred);
        filter_none(hs, pred);
        assert(m.filter(pred) =~= dr);
    } else {
        filter_none(dr, pred);
        filter_all(hp, pred);
        filter_all(hs, pred);
        assert(m.filter(pred) =~= hp + hs);
    }
}

proof fn lemma_drop_codes(m: DropMap, keys: Seq<i64>, subs: Seq<TopicEntry>, now: u64)
    ensures
        ({
            let all = drop_findings(m, keys, subs, now);
            let own = subs.filter(|e: TopicEntry| e.message_drops > 0);
            &&& all.len() == own.len()
            &&& forall|k: int|
                0 <= k < all.len() ==> (#[trigger] all[k]).code == FindingCode::MessageDrops && all[k].detail is Some
                    && all[k].detail->Some_0 is Drops && tells_drops(all[k].detail->Some_0->Drops_0, own[k])
        }),
    decreases subs.len(),
{
    reveal(Seq::filter);
    if subs.len() > 0 {
        lemma_drop_codes(m, keys, subs.drop_last(), now);
    }
}

proof fn lemma_health_codes(side: Seq<char>, rows: Seq<TopicEntry>, processes: Seq<ProcessInfo>)
    ensures
        ({
            let all = side_health(side, rows, processes);
            let own = rows.filter(|e: TopicEntry| ails(e, processes));
            &&& all.len() == own.len()
            &&& forall|k: int|
                0 <= k < all.len() ==> (#[trigger] all[k]).code == FindingCode::UnhealthyProcess
                    && all[k].detail is Some && all[k].detail->Some_0 is Process && tells_endpoint(
                    all[k].detail->Some_0->Process_0,
                    side,
                    own[k],
                )
        }),
    decreases rows.len(),
{
    reveal(Seq::filter);
    if rows.len() > 0 {
        let rest = rows.drop_last();
        let e = rows.last();
        lemma_health_codes(side, rest, processes);
        lemma_ails(e, processes);
    }
}

/// `d` tells of the drops of row `e`.
pub open spec fn tells_drops(d: DropsView, e: TopicEntry) -> bool {
    &&& d.host_name == e.host_name@
    &&& d.unit_name == e.unit_name@
    &&& d.process_id == e.process_id
    &&& d.topic_id == e.topic_id
    &&& d.message_drops == e.message_drops
}

/// `d` tells of row `e` on side `side`.
pub open spec fn tells_endpoint(d: ProcessView, side: Seq<char>, e: TopicEntry) -> bool {
    &&& d.side == side
    &&& d.host_name == e.host_name@
    &&& d.unit_name == e.unit_name@
    &&& d.process_id == e.process_id
    &&& d.topic_id == e.topic_id
}

/// The findings of drops tell of the subscribers that have some, one by one in their order.
pub proof fn drops_are_told_in_order(
    f: Seq<FindingView>,
    sv: TopicSurvey,
    snap: MonitoringSnapshot,
    c: Circumstances,
    k: int,
)
    requires
        is_diagnosis(f, sv, snap, c),
    ensures
        ({
            let told = f.filter(|x: FindingView| x.code == FindingCode::MessageDrops);
            let own = sv.subscribers@.filter(|e: TopicEntry| e.message_drops > 0);
            &&& told.len() == own.len()
            &&& 0 <= k < own.len() ==> told[k].detail is Some && told[k].detail->Some_0 is Drops && tells_drops(
                told[k].detail->Some_0->Drops_0,
                own[k],
            )
        }),
{
    let code = FindingCode::MessageDrops;
    lemma_of_code(f, sv, snap, c, code);
    lemma_drop_codes(c.drops, publisher_keys(sv.publishers@), sv.subscribers@, c.now);
    lemma_filters_agree(
        f,
        |x: FindingView| x.code == code,
        |x: FindingView| x.code == FindingCode::MessageDrops,
    );
}

/// The findings of unhealthy processes tell of the endpoints that have one, the publishers one by
/// one in their order and then the subscribers in theirs.
pub proof fn unhealthy_endpoints_are_told_in_order(
    f: Seq<FindingView>,
    sv: TopicSurvey,
    snap: MonitoringSnapshot,
    c: Circumstances,
    k: int,
)
    requires
        is_diagnosis(f, sv, snap, c),
    ensures
        ({
            let told = f.filter(|x: FindingView| x.code == FindingCode::UnhealthyProcess);
            let p = sv.publishers@.filter(|e: TopicEntry| ails(e, snap.processes@));
            let s = sv.subscribers@.filter(|e: TopicEntry| ails(e, snap.processes@));
            &&& told.len() == p.len() + s.len()
            &&& 0 <= k < told.len() ==> told[k].detail is Some && told[k].detail->Some_0 is Process
            &&& 0 <= k < p.len() ==> tells_endpoint(told[k].detail->Some_0->Process_0, "publisher"@, p[k])
            &&& 0 <= k < s.len() ==> tells_endpoint(
                told[p.len() + k].detail->Some_0->Process_0,
                "subscriber"@,
                s[k],
            )
        }),
{
    let code = FindingCode::UnhealthyProcess;
    let processes = snap.processes@;
    lemma_of_code(f, sv, snap, c, code);
    lemma_health_codes("publisher"@, sv.publishers@, processes);
    lemma_health_codes("subscriber"@, sv.subscribers@, processes);
    lemma_filters_agree(
        f,
        |x: FindingView| x.code == code,
        |x: FindingView| x.code == FindingCode::UnhealthyProcess,
    );
    let told = f.filter(|x: FindingView| x.code == FindingCode::UnhealthyProcess);
    let a = side_health("publisher"@, sv.publishers@, processes);
    let b = side_health("subscriber"@, sv.subscribers@, processes);
    assert(told == a + b);
    if 0 <= k < a.len() {
        assert(told[k] == a[k]);
    } else if a.len() <= k < told.len() {
        assert(told[k] == b[k - a.len()]);
    }
    if 0 <= k < b.len() {
        assert(told[a.len() + k] == b[k]);
    }
}

/// The words for a side that is missing, for endpoints that cannot talk to each other, and for
/// what was counted.
pub proof fn findings_say_what_was_counted(
    f: Seq<FindingView>,
    sv: TopicSurvey,
    snap: MonitoringSnapshot,
    c: Circumstances,
    n: int,
)
    requires
        is_diagnosis(f, sv, snap, c),
        0 <= n < f.len(),
    ensures
        f[n].code == FindingCode::NoPublishersOrSubscribers ==> f[n].message
            == "no publishers or subscribers registered for this topic"@,
        f[n].code == FindingCode::NoPublisher ==> f[n].message == "subscribers exist but no publisher is registered"@,
        f[n].code == FindingCode::NoSubscriber ==> f[n].message
            == "publishers exist but no subscriber is registered"@,
        f[n].code == FindingCode::NoCommonTransport ==> f[n].message
            == "publishers and subscribers share no active transport layer; data cannot flow"@,
        f[n].code == FindingCode::TypeMetadataMismatch ==> f[n].message == "metadata mismatch: "@ + decimal(
            sv.type_signatures@.len(),
        )
            + " distinct (name, encoding) signatures across endpoints — raw bytes still flow, but typed deserialization will fail on the side(s) that disagree"@,
        f[n].code == FindingCode::ShmDomainSplit ==> f[n].message == decimal(
            hosts_in(endpoints(sv)).to_set().len(),
        ) + " hosts with "@ + decimal(sv.shm_transport_domains@.len())
            + " distinct shm_transport_domain values: cross-host SHM is only eligible when all sides agree on the domain string"@,
        f[n].code == FindingCode::MultiplePublishers ==> f[n].message == decimal(sv.publishers@.len())
            + " publishers registered for a topic with "@ + decimal(sv.subscribers@.len())
            + " subscriber(s) — 1:N producer anti-pattern; rate-divergence ratio "@ + c.ratio,
        f[n].code == FindingCode::NoSamplesObserved ==> f[n].message == "no samples observed in "@ + decimal(
            c.duration_ms as nat,
        ) + "ms despite "@ + decimal(sv.publishers@.len()) + " registered publisher(s)"@,
        f[n].code == FindingCode::RateBelowSpec || f[n].code == FindingCode::RateAboveSpec ==> c.check is Some
            && f[n].message == "live rate "@ + c.check->Some_0.measured@ + " Hz is "@ + (if f[n].code
            == FindingCode::RateBelowSpec {
            "below"@
        } else {
            "above"@
        }) + " expected "@ + c.check->Some_0.target@ + " Hz (tolerance "@ + c.check->Some_0.tolerance@
            + "%)"@,
{
    let x = f[n];
    assert(f.contains(x));
    lemma_parts(f, sv, snap, c, x);
    let keys = publisher_keys(sv.publishers@);
    if drop_findings(c.drops, keys, sv.subscribers@, c.now).contains(x) {
        lemma_drop_part(c.drops, keys, sv.subscribers@, c.now, x);
    }
    lemma_health_part("publisher"@, sv.publishers@, snap.processes@, x);
    lemma_health_part("subscriber"@, sv.subscribers@, snap.processes@, x);
    lemma_hosts(sv);
    lemma_several(listing(topic_hosts(sv)), hosts_in(endpoints(sv)));
}

/// The words for drops and for an unhealthy process name the endpoint and its figures as the
/// detail has them; a state without a description is worded as such.
pub proof fn findings_name_the_endpoint(
    f: Seq<FindingView>,
    sv: TopicSurvey,
    snap: MonitoringSnapshot,
    c: Circumstances,
    n: int,
)
    requires
        is_diagnosis(f, sv, snap, c),
        0 <= n < f.len(),
    ensures
        f[n].code == FindingCode::MessageDrops ==> {
            &&& f[n].detail is Some && f[n].detail->Some_0 is Drops
            &&& f[n].message == ({
                let d = f[n].detail->Some_0->Drops_0;
                "subscriber "@ + d.unit_name + " (pid "@ + signed_decimal(d.process_id as int) + ") on "@
                    + d.host_name + " reports "@ + signed_decimal(d.message_drops as int)
                    + " message drop(s) since registration"@
            })
        },
        f[n].code == FindingCode::UnhealthyProcess ==> {
            &&& f[n].detail is Some && f[n].detail->Some_0 is Process
            &&& f[n].message == ({
                let d = f[n].detail->Some_0->Process_0;
                d.side + " '"@ + d.unit_name + "' (pid "@ + signed_decimal(d.process_id as int) + ") on "@
                    + d.host_name + " is in non-healthy state (severity="@ + signed_decimal(
                    d.state_severity as int,
                ) + ", level="@ + signed_decimal(d.state_severity_level as int) + "): "@ + (if d.state_info.len()
                    == 0 {
                    "<no state_info>"@
                } else {
                    d.state_info
                })
            })
        },
{
    let x = f[n];
    assert(f.contains(x));
    lemma_parts(f, sv, snap, c, x);
    let keys = publisher_keys(sv.publishers@);
    if drop_findings(c.drops, keys, sv.subscribers@, c.now).contains(x) {
        lemma_drop_part(c.drops, keys, sv.subscribers@, c.now, x);
    }
    lemma_health_part("publisher"@, sv.publishers@, snap.processes@, x);
    lemma_health_part("subscriber"@, sv.subscribers@, snap.processes@, x);
}

/// The words for suggestions say what is missing and name the topic and the best suggestion, or
/// say that there is none.
pub proof fn suggestions_say_what_is_missing(
    f: Seq<FindingView>,
    sv: TopicSurvey,
    snap: MonitoringSnapshot,
    c: Circumstances,
    n: int,
)
    requires
        is_diagnosis(f, sv, snap, c),
        0 <= n < f.len(),
        f[n].code == FindingCode::DidYouMean,
    ensures
        f[n].detail is Some,
        f[n].detail->Some_0 is Suggestions,
        ({
            let best = f[n].detail->Some_0->Suggestions_0.suggestion;
            let no_pub = sv.publishers@.len() == 0;
            let no_sub = sv.subscribers@.len() == 0;
            let topic = debug_form(c.topic);
            &&& best matches Some(b) ==> {
                &&& no_pub && no_sub ==> f[n].message == "topic "@ + topic
                    + " not found; closest known topic is "@ + debug_form(b)
                &&& no_pub && !no_sub ==> f[n].message == "no publisher for "@ + topic
                    + "; closest topic with a publisher is "@ + debug_form(b)
                &&& !no_pub ==> f[n].message == "no subscriber for "@ + topic
                    + "; closest topic with a subscriber is "@ + debug_form(b)
            }
            &&& best is None ==> {
                &&& no_pub && no_sub ==> f[n].message == "topic "@ + topic
                    + " not found; no near-miss in the registration snapshot"@
                &&& no_pub && !no_sub ==> f[n].message == "no publisher for "@ + topic
                    + "; no near-miss publisher in the snapshot"@
                &&& !no_pub ==> f[n].message == "no subscriber for "@ + topic
                    + "; no near-miss subscriber in the snapshot"@
            }
        }),
{
    let x = f[n];
    assert(f.contains(x));
    lemma_parts(f, sv, snap, c, x);
    let keys = publisher_keys(sv.publishers@);
    if drop_findings(c.drops, keys, sv.subscribers@, c.now).contains(x) {
        lemma_drop_part(c.drops, keys, sv.subscribers@, c.now, x);
    }
    lemma_health_part("publisher"@, sv.publishers@, snap.processes@, x);
    lemma_health_part("subscriber"@, sv.subscribers@, snap.processes@, x);
    assert(suggestions(sv, snap, c.topic).contains(x));
}

/// A rate that meets its target is on target, and else it is below or above, as it compares.
pub proof fn verdicts_follow_the_comparison(meets: bool, below: bool)
    ensures
        verdict(meets, below) == DeltaDirection::OnSpec <==> meets,
        verdict(meets, below) == DeltaDirection::BelowSpec <==> !meets && below,
        verdict(meets, below) == DeltaDirection::AboveSpec <==> !meets && !below,
{
}

/// What a window measured is part of the result as it is, but for the type, which is left out
/// exactly where the endpoints differ in it; without a window there is nothing.
pub proof fn live_parts_are_kept(r: Option<WindowStats>, live: Option<WindowStats>, mismatch: bool)
    requires
        is_live_part(r, live, mismatch),
    ensures
        r is None <==> live is None,
        !mismatch ==> r == live,
        r matches Some(a) ==> {
            let b = live->Some_0;
            &&& a.samples_observed == b.samples_observed
            &&& a.total_bytes == b.total_bytes
            &&& a.min_size_bytes == b.min_size_bytes
            &&& a.max_size_bytes == b.max_size_bytes
            &&& a.gaps_us == b.gaps_us
            &&& a.min_gap_us == b.min_gap_us
            &&& a.max_gap_us == b.max_gap_us
            &&& a.first_timestamp_us == b.first_timestamp_us
            &&& a.last_timestamp_us == b.last_timestamp_us
            &&& mismatch ==> a.name is None && a.encoding is None
        },
{
}

} // verus!
