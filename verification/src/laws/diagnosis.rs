//! Laws of a diagnosis: when each finding is made, and what it says.

use vstd::prelude::*;

use crate::checks::{
    default_domains, mismatch, processes_of, split_is_noise, suggestions, topic_hosts,
};
use crate::diagnose::{
    final_codes, final_findings, mentions, silence, snapshot_codes, snapshot_findings, some_drops,
    some_unhealthy, RateCheck,
};
use crate::drops::DropMap;
use crate::entries::TopicEntry;
use crate::findings::{found, DeltaDirection, FindingCode, FindingView};
use crate::laws::survey::{
    every_type_has_one_signature_row, layers_meet, row_has_type, some_layer_runs,
    surveys_compare_active_layers,
};
use crate::monitoring::{MonitoringSnapshot, ProcessInfo};
use crate::seqs::filter_places;
use crate::sort::{listing, listing_exists, strictly_sorted, texts};
use crate::survey::{are_signature_rows, is_survey, TopicSurvey};
use crate::text::{text_before, text_order_is_total};

verus! {

/// What a diagnosis is made of, besides the survey and the snapshot.
pub struct Circumstances {
    /// The topic's name.
    pub topic: Seq<char>,
    /// The drop counters that are still remembered.
    pub drops: DropMap,
    /// The time of the diagnosis.
    pub now: u64,
    /// The ratio of the publishers' rates in figures.
    pub ratio: Seq<char>,
    /// The samples of the live window, where there was one.
    pub samples: Option<u64>,
    /// The length of the live window.
    pub duration_ms: u64,
    /// The rate check, where there was one.
    pub check: Option<RateCheck>,
}

/// `f` is what a diagnosis finds.
pub open spec fn is_diagnosis(
    f: Seq<FindingView>,
    sv: TopicSurvey,
    snap: MonitoringSnapshot,
    c: Circumstances,
) -> bool {
    &&& is_survey(sv, snap, c.topic)
    &&& f == final_findings(
        snapshot_findings(sv, snap, c.topic, c.drops, c.now),
        sv.publishers@,
        sv.subscribers@,
        c.ratio,
        c.samples,
        c.duration_ms,
        c.check,
    )
}

/// Some finding has this code.
pub open spec fn says(f: Seq<FindingView>, code: FindingCode) -> bool {
    exists|i: int| 0 <= i < f.len() && (#[trigger] f[i]).code == code
}

/// The publishers and then the subscribers of a topic.
pub open spec fn endpoints(sv: TopicSurvey) -> Seq<TopicEntry> {
    sv.publishers@ + sv.subscribers@
}

proof fn lemma_says(f: Seq<FindingView>, sv: TopicSurvey, snap: MonitoringSnapshot, c: Circumstances, code: FindingCode)
    requires
        is_diagnosis(f, sv, snap, c),
    ensures
        says(f, code) <==> mentions(f, code),
{
    let before = snapshot_findings(sv, snap, c.topic, c.drops, c.now);
    final_codes(
        before,
        sv.publishers@,
        sv.subscribers@,
        c.ratio,
        c.samples,
        c.duration_ms,
        c.check,
        code,
    );
    snapshot_codes(sv, snap, c.topic, c.drops, c.now, code);
}

pub(crate) proof fn lemma_codes(f: Seq<FindingView>, sv: TopicSurvey, snap: MonitoringSnapshot, c: Circumstances, code: FindingCode)
    requires
        is_diagnosis(f, sv, snap, c),
    ensures
        says(f, code) == (match code {
            FindingCode::NoPublishersOrSubscribers => sv.publishers@.len() == 0 && sv.subscribers@.len()
                == 0,
            FindingCode::NoPublisher => sv.publishers@.len() == 0 && sv.subscribers@.len() > 0,
            FindingCode::NoSubscriber => sv.publishers@.len() > 0 && sv.subscribers@.len() == 0,
            FindingCode::DidYouMean => sv.publishers@.len() == 0 || sv.subscribers@.len() == 0,
            FindingCode::TypeMetadataMismatch => sv.type_signatures@.len() > 1,
            FindingCode::NoCommonTransport => sv.publishers@.len() > 0 && sv.subscribers@.len() > 0
                && sv.both_sides_advertised && !sv.sides_share_transport,
            FindingCode::ShmDomainSplit => listing(topic_hosts(sv)).len() > 1
                && sv.shm_transport_domains@.len() > 1 && !split_is_noise(sv),
            FindingCode::MessageDrops => some_drops(sv.subscribers@),
            FindingCode::UnhealthyProcess => some_unhealthy(sv.publishers@, snap.processes@)
                || some_unhealthy(sv.subscribers@, snap.processes@),
            FindingCode::MultiplePublishers => sv.publishers@.len() >= 2 && sv.subscribers@.len() > 0,
            FindingCode::NoSamplesObserved => c.samples == Some(0u64) && sv.publishers@.len() > 0,
            FindingCode::RateBelowSpec => c.samples is Some && c.check is Some
                && c.check->Some_0.delta_direction == DeltaDirection::BelowSpec,
            FindingCode::RateAboveSpec => c.samples is Some && c.check is Some
                && c.check->Some_0.delta_direction == DeltaDirection::AboveSpec,
        }),
{
    let before = snapshot_findings(sv, snap, c.topic, c.drops, c.now);
    lemma_says(f, sv, snap, c, code);
    final_codes(
        before,
        sv.publishers@,
        sv.subscribers@,
        c.ratio,
        c.samples,
        c.duration_ms,
        c.check,
        code,
    );
    snapshot_codes(sv, snap, c.topic, c.drops, c.now, code);
}

/// A side that is missing is named as such, with suggestions, and nothing is suggested where both
/// are there; a rate is said to be off only where a window was measured and its check says so, and
/// silence only of a window that saw nothing while there is a publisher.
pub proof fn simple_findings_are_made_when_due(
    f: Seq<FindingView>,
    sv: TopicSurvey,
    snap: MonitoringSnapshot,
    c: Circumstances,
)
    requires
        is_diagnosis(f, sv, snap, c),
    ensures
        says(f, FindingCode::NoPublishersOrSubscribers) <==> endpoints(sv).len() == 0,
        says(f, FindingCode::NoPublisher) <==> sv.publishers@.len() == 0 && endpoints(sv).len() > 0,
        says(f, FindingCode::NoSubscriber) <==> sv.subscribers@.len() == 0 && endpoints(sv).len() > 0,
        says(f, FindingCode::DidYouMean) <==> sv.publishers@.len() == 0 || sv.subscribers@.len() == 0,
        says(f, FindingCode::MultiplePublishers) <==> sv.publishers@.len() >= 2 && sv.subscribers@.len() >= 1,
        says(f, FindingCode::MessageDrops) <==> exists|i: int|
            0 <= i < sv.subscribers@.len() && (#[trigger] sv.subscribers@[i]).message_drops > 0,
        says(f, FindingCode::NoSamplesObserved) <==> c.samples == Some(0u64) && sv.publishers@.len() >= 1,
        says(f, FindingCode::RateBelowSpec) <==> c.samples is Some && c.check is Some
            && c.check->Some_0.delta_direction == DeltaDirection::BelowSpec,
        says(f, FindingCode::RateAboveSpec) <==> c.samples is Some && c.check is Some
            && c.check->Some_0.delta_direction == DeltaDirection::AboveSpec,
{
    lemma_codes(f, sv, snap, c, FindingCode::NoPublishersOrSubscribers);
    lemma_codes(f, sv, snap, c, FindingCode::NoPublisher);
    lemma_codes(f, sv, snap, c, FindingCode::NoSubscriber);
    lemma_codes(f, sv, snap, c, FindingCode::DidYouMean);
    lemma_codes(f, sv, snap, c, FindingCode::MultiplePublishers);
    lemma_codes(f, sv, snap, c, FindingCode::MessageDrops);
    lemma_codes(f, sv, snap, c, FindingCode::NoSamplesObserved);
    lemma_codes(f, sv, snap, c, FindingCode::RateBelowSpec);
    lemma_codes(f, sv, snap, c, FindingCode::RateAboveSpec);
}

/// Two of the texts differ.
pub open spec fn some_differ(s: Seq<Seq<char>>) -> bool {
    exists|i: int, j: int| 0 <= i < s.len() && 0 <= j < s.len() && #[trigger] s[i] != #[trigger] s[j]
}

pub(crate) proof fn lemma_several(l: Seq<Seq<char>>, s: Seq<Seq<char>>)
    requires
        strictly_sorted(l),
        l.to_set() == s.to_set(),
    ensures
        l.len() > 1 <==> some_differ(s),
        l.len() == s.to_set().len(),
{
    assert forall|x: Seq<char>| l.contains(x) <==> #[trigger] s.contains(x) by {
        assert(l.to_set().contains(x) <==> l.contains(x));
        assert(s.to_set().contains(x) <==> s.contains(x));
    }
    if l.len() > 1 {
        assert(text_before(l[0], l[1]));
        text_order_is_total(l[0], l[1]);
        assert(l.contains(l[0]) && l.contains(l[1]));
        assert(s.contains(l[0]) && s.contains(l[1]));
        let i = choose|i: int| 0 <= i < s.len() && s[i] == l[0];
        let j = choose|j: int| 0 <= j < s.len() && s[j] == l[1];
        assert(s[i] != s[j]);
    }
    if some_differ(s) {
        let (i, j) = choose|i: int, j: int|
            0 <= i < s.len() && 0 <= j < s.len() && #[trigger] s[i] != #[trigger] s[j];
        assert(s.contains(s[i]) && s.contains(s[j]));
        assert(l.contains(s[i]) && l.contains(s[j]));
        let x = choose|x: int| 0 <= x < l.len() && l[x] == s[i];
        let y = choose|y: int| 0 <= y < l.len() && l[y] == s[j];
        assert(x != y);
    }
    assert(l.no_duplicates()) by {
        assert forall|i: int, j: int| 0 <= i < j < l.len() implies l[i] != l[j] by {
            assert(text_before(l[i], l[j]));
            text_order_is_total(l[i], l[j]);
        }
    }
    l.unique_seq_to_set();
}

/// The hosts of rows, one by one.
pub open spec fn hosts_in(rows: Seq<TopicEntry>) -> Seq<Seq<char>> {
    rows.map_values(|e: TopicEntry| e.host_name@)
}

/// The shared-memory domains of rows, one by one.
pub open spec fn domains_in(rows: Seq<TopicEntry>) -> Seq<Seq<char>> {
    rows.map_values(|e: TopicEntry| e.shm_transport_domain@)
}

pub(crate) proof fn lemma_union<A>(p: Seq<A>, s: Seq<A>)
    ensures
        (p + s).to_set() == p.to_set().union(s.to_set()),
{
    let a = p + s;
    assert forall|x: A| a.to_set().contains(x) <==> #[trigger] p.to_set().union(s.to_set()).contains(x) by {
        if a.contains(x) {
            let i = choose|i: int| 0 <= i < a.len() && a[i] == x;
            if i < p.len() {
                assert(p[i] == x);
            } else {
                assert(s[i - p.len()] == x);
            }
        }
        if p.contains(x) {
            let i = choose|i: int| 0 <= i < p.len() && p[i] == x;
            assert(a[i] == x);
        }
        if s.contains(x) {
            let i = choose|i: int| 0 <= i < s.len() && s[i] == x;
            assert(a[p.len() + i] == x);
        }
    }
    assert(a.to_set() =~= p.to_set().union(s.to_set()));
}

pub(crate) proof fn lemma_hosts(sv: TopicSurvey)
    ensures
        topic_hosts(sv) == hosts_in(endpoints(sv)).to_set(),
        strictly_sorted(listing(topic_hosts(sv))),
        listing(topic_hosts(sv)).to_set() == hosts_in(endpoints(sv)).to_set(),
{
    let p = hosts_in(sv.publishers@);
    let s = hosts_in(sv.subscribers@);
    assert(hosts_in(endpoints(sv)) =~= p + s);
    lemma_union(p, s);
    listing_exists(hosts_in(endpoints(sv)));
}

pub(crate) proof fn lemma_domains(sv: TopicSurvey, snap: MonitoringSnapshot, topic: Seq<char>)
    requires
        is_survey(sv, snap, topic),
    ensures
        strictly_sorted(texts(sv.shm_transport_domains@)),
        texts(sv.shm_transport_domains@).to_set() == domains_in(endpoints(sv)).to_set(),
{
    let p = domains_in(sv.publishers@);
    let s = domains_in(sv.subscribers@);
    assert(domains_in(endpoints(sv)) =~= p + s);
    lemma_union(p, s);
}

/// A domain split is found exactly where the endpoints of a topic are on different hosts and name
/// different domains, no transport runs on all of them, and some endpoint, publisher or
/// subscriber, has a domain that is not its host name.
pub proof fn domain_splits_are_found_where_configured(
    f: Seq<FindingView>,
    sv: TopicSurvey,
    snap: MonitoringSnapshot,
    c: Circumstances,
)
    requires
        is_diagnosis(f, sv, snap, c),
    ensures
        says(f, FindingCode::ShmDomainSplit) <==> {
            &&& some_differ(hosts_in(endpoints(sv)))
            &&& some_differ(domains_in(endpoints(sv)))
            &&& sv.common_active_transport_layers@.len() == 0
            &&& exists|i: int|
                0 <= i < endpoints(sv).len() && (#[trigger] endpoints(sv)[i]).shm_transport_domain@
                    != endpoints(sv)[i].host_name@
        },
{
    lemma_codes(f, sv, snap, c, FindingCode::ShmDomainSplit);
    lemma_hosts(sv);
    lemma_domains(sv, snap, c.topic);
    lemma_several(listing(topic_hosts(sv)), hosts_in(endpoints(sv)));
    lemma_several(texts(sv.shm_transport_domains@), domains_in(endpoints(sv)));
    let all = endpoints(sv);
    let p = sv.publishers@;
    let s = sv.subscribers@;
    if exists|i: int| 0 <= i < all.len() && (#[trigger] all[i]).shm_transport_domain@ != all[i].host_name@ {
        let i = choose|i: int| 0 <= i < all.len() && (#[trigger] all[i]).shm_transport_domain@ != all[i].host_name@;
        if i < p.len() {
            assert(p[i] == all[i]);
            assert(!default_domains(p));
        } else {
            assert(s[i - p.len()] == all[i]);
            assert(!default_domains(s));
        }
    } else {
        assert forall|i: int| 0 <= i < p.len() implies (#[trigger] p[i]).shm_transport_domain@ == p[i].host_name@ by {
            assert(all[i] == p[i]);
        }
        assert forall|i: int| 0 <= i < s.len() implies (#[trigger] s[i]).shm_transport_domain@ == s[i].host_name@ by {
            assert(all[p.len() + i] == s[i]);
        }
    }
}

/// No common transport is found exactly where each side has an active layer and no publisher has
/// one of a kind that a subscriber has.
pub proof fn transport_gaps_are_found_where_no_layers_meet(
    f: Seq<FindingView>,
    sv: TopicSurvey,
    snap: MonitoringSnapshot,
    c: Circumstances,
)
    requires
        is_diagnosis(f, sv, snap, c),
    ensures
        says(f, FindingCode::NoCommonTransport) <==> some_layer_runs(sv.publishers@) && some_layer_runs(
            sv.subscribers@,
        ) && !layers_meet(sv.publishers@, sv.subscribers@),
{
    lemma_codes(f, sv, snap, c, FindingCode::NoCommonTransport);
    surveys_compare_active_layers(sv, snap, c.topic);
}

/// A mismatch is found exactly where two endpoints differ in the name or the encoding of their
/// type.
pub proof fn mismatches_are_found_where_types_differ(
    f: Seq<FindingView>,
    sv: TopicSurvey,
    snap: MonitoringSnapshot,
    c: Circumstances,
)
    requires
        is_diagnosis(f, sv, snap, c),
    ensures
        says(f, FindingCode::TypeMetadataMismatch) <==> exists|i: int, j: int|
            0 <= i < endpoints(sv).len() && 0 <= j < endpoints(sv).len() && ((
            #[trigger] endpoints(sv)[i]).datatype_information.name@ != (
            #[trigger] endpoints(sv)[j]).datatype_information.name@
                || endpoints(sv)[i].datatype_information.encoding@
                != endpoints(sv)[j].datatype_information.encoding@),
{
    lemma_codes(f, sv, snap, c, FindingCode::TypeMetadataMismatch);
    let rows = sv.type_signatures@;
    let p = sv.publishers@;
    let s = sv.subscribers@;
    let all = endpoints(sv);
    if rows.len() > 1 {
        let a = rows[0];
        let b = rows[1];
        every_type_has_one_signature_row(rows, p, s, a.name@, a.encoding@);
        every_type_has_one_signature_row(rows, p, s, b.name@, b.encoding@);
        let i = lemma_endpoint_of(sv, a.name@, a.encoding@);
        let j = lemma_endpoint_of(sv, b.name@, b.encoding@);
        assert(all[i].datatype_information.name@ != all[j].datatype_information.name@
            || all[i].datatype_information.encoding@ != all[j].datatype_information.encoding@);
    }
    if exists|i: int, j: int|
        0 <= i < all.len() && 0 <= j < all.len() && ((#[trigger] all[i]).datatype_information.name@ != (
        #[trigger] all[j]).datatype_information.name@ || all[i].datatype_information.encoding@
            != all[j].datatype_information.encoding@) {
        let (i, j) = choose|i: int, j: int|
            0 <= i < all.len() && 0 <= j < all.len() && ((#[trigger] all[i]).datatype_information.name@ != (
            #[trigger] all[j]).datatype_information.name@ || all[i].datatype_information.encoding@
                != all[j].datatype_information.encoding@);
        let x = lemma_row_of(sv, i);
        let y = lemma_row_of(sv, j);
        assert(x != y);
    }
}

proof fn lemma_endpoint_of(sv: TopicSurvey, name: Seq<char>, encoding: Seq<char>) -> (i: int)
    requires
        (exists|i: int| row_has_type(sv.publishers@, i, name, encoding)) || (exists|i: int|
            row_has_type(sv.subscribers@, i, name, encoding)),
    ensures
        row_has_type(endpoints(sv), i, name, encoding),
{
    if exists|i: int| row_has_type(sv.publishers@, i, name, encoding) {
        let i = choose|i: int| row_has_type(sv.publishers@, i, name, encoding);
        assert(endpoints(sv)[i] == sv.publishers@[i]);
        i
    } else {
        let i = choose|i: int| row_has_type(sv.subscribers@, i, name, encoding);
        assert(endpoints(sv)[sv.publishers@.len() + i] == sv.subscribers@[i]);
        sv.publishers@.len() + i
    }
}

proof fn lemma_row_of(sv: TopicSurvey, i: int) -> (k: int)
    requires
        are_signature_rows(sv.type_signatures@, sv.publishers@, sv.subscribers@),
        0 <= i < endpoints(sv).len(),
    ensures
        0 <= k < sv.type_signatures@.len(),
        sv.type_signatures@[k].name@ == endpoints(sv)[i].datatype_information.name@,
        sv.type_signatures@[k].encoding@ == endpoints(sv)[i].datatype_information.encoding@,
{
    let e = endpoints(sv)[i];
    let name = e.datatype_information.name@;
    let encoding = e.datatype_information.encoding@;
    let p = sv.publishers@;
    let s = sv.subscribers@;
    every_type_has_one_signature_row(sv.type_signatures@, p, s, name, encoding);
    if i < p.len() {
        assert(row_has_type(p, i, name, encoding));
    } else {
        assert(row_has_type(s, i - p.len(), name, encoding));
    }
    choose|k: int|
        0 <= k < sv.type_signatures@.len() && (#[trigger] sv.type_signatures@[k]).name@ == name
            && sv.type_signatures@[k].encoding@ == encoding
}

/// Process `k` is the first that has the identifier and the host of row `i`, and it is not healthy:
/// its severity is two or more.
pub open spec fn unhealthy_at(rows: Seq<TopicEntry>, processes: Seq<ProcessInfo>, i: int, k: int) -> bool {
    &&& 0 <= i < rows.len()
    &&& 0 <= k < processes.len()
    &&& processes[k].process_id == rows[i].process_id
    &&& processes[k].host_name@ == rows[i].host_name@
    &&& forall|l: int|
        0 <= l < k ==> (#[trigger] processes[l]).process_id != rows[i].process_id || processes[l].host_name@
            != rows[i].host_name@
    &&& processes[k].state_severity >= 2
}

pub(crate) proof fn lemma_first_process(e: TopicEntry, processes: Seq<ProcessInfo>) -> (k: int)
    ensures
        processes_of(e, processes).len() > 0 ==> {
            &&& 0 <= k < processes.len()
            &&& processes_of(e, processes)[0] == processes[k]
            &&& processes[k].process_id == e.process_id
            &&& processes[k].host_name@ == e.host_name@
            &&& forall|l: int|
                0 <= l < k ==> (#[trigger] processes[l]).process_id != e.process_id
                    || processes[l].host_name@ != e.host_name@
        },
        forall|j: int|
            0 <= j < processes.len() && (#[trigger] processes[j]).process_id == e.process_id
                && processes[j].host_name@ == e.host_name@ ==> processes_of(e, processes).len() > 0,
{
    let pred = |p: ProcessInfo| p.process_id == e.process_id && p.host_name@ == e.host_name@;
    let from = filter_places(processes, pred);
    let own = processes.filter(pred);
    assert(own == processes_of(e, processes));
    assert forall|j: int|
        0 <= j < processes.len() && (#[trigger] processes[j]).process_id == e.process_id
            && processes[j].host_name@ == e.host_name@ implies own.len() > 0 by {
        assert(pred(processes[j]));
        assert(from.contains(j));
    }
    if own.len() > 0 {
        let k = from[0];
        assert(own[0] == processes[k]);
        assert(from.contains(k));
        assert(pred(processes[k]));
        assert forall|l: int| 0 <= l < k implies (#[trigger] processes[l]).process_id != e.process_id
            || processes[l].host_name@ != e.host_name@ by {
            if pred(processes[l]) {
                assert(from.contains(l));
                let x = choose|x: int| 0 <= x < from.len() && from[x] == l;
                if x > 0 {
                    assert(from[0] < from[x]);
                }
            }
        }
        k
    } else {
        0
    }
}

/// An unhealthy process is found exactly where the first process of some endpoint reports a
/// severity of two or more.
pub proof fn unhealthy_processes_are_found(
    f: Seq<FindingView>,
    sv: TopicSurvey,
    snap: MonitoringSnapshot,
    c: Circumstances,
)
    requires
        is_diagnosis(f, sv, snap, c),
    ensures
        says(f, FindingCode::UnhealthyProcess) <==> exists|i: int, k: int|
            #[trigger] unhealthy_at(endpoints(sv), snap.processes@, i, k),
{
    lemma_codes(f, sv, snap, c, FindingCode::UnhealthyProcess);
    let p = sv.publishers@;
    let s = sv.subscribers@;
    let all = endpoints(sv);
    let processes = snap.processes@;
    if some_unhealthy(p, processes) {
        let i = choose|i: int|
            0 <= i < p.len() && processes_of(#[trigger] p[i], processes).len() > 0 && processes_of(
                p[i],
                processes,
            )[0].state_severity >= 2;
        let k = lemma_first_process(p[i], processes);
        assert(all[i] == p[i]);
        assert(unhealthy_at(all, processes, i, k));
    }
    if some_unhealthy(s, processes) {
        let i = choose|i: int|
            0 <= i < s.len() && processes_of(#[trigger] s[i], processes).len() > 0 && processes_of(
                s[i],
                processes,
            )[0].state_severity >= 2;
        let k = lemma_first_process(s[i], processes);
        assert(all[p.len() + i] == s[i]);
        assert(unhealthy_at(all, processes, p.len() + i, k));
    }
    if exists|i: int, k: int| #[trigger] unhealthy_at(all, processes, i, k) {
        let (i, k) = choose|i: int, k: int| #[trigger] unhealthy_at(all, processes, i, k);
        let first = lemma_first_process(all[i], processes);
        assert(processes[k].process_id == all[i].process_id);
        assert(first == k) by {
            if first < k {
                assert(processes[first].process_id != all[i].process_id || processes[first].host_name@
                    != all[i].host_name@);
            }
        }
        if i < p.len() {
            assert(all[i] == p[i]);
            assert(processes_of(p[i], processes)[0].state_severity >= 2);
        } else {
            assert(all[i] == s[i - p.len()]);
            assert(processes_of(s[i - p.len()], processes)[0].state_severity >= 2);
        }
    }
}

} // verus!
