//! What can be wrong with a topic as a snapshot shows it, one check after the other.

use vstd::prelude::*;
use vstd::slice::slice_to_vec;

use crate::entries::{opt_text, TopicEntry};
use crate::findings::{
    finding, finding_views, found, DetailView, Finding, FindingCode, FindingDetail, FindingView,
    ProcessDetail, ProcessView, PublisherDetail, PublisherView, SignatureDetail, SignatureView,
    SuggestionsView,
};
use crate::monitoring::{MonitoringSnapshot, ProcessInfo};
use crate::seqs::{filter_first, filter_none, map_rows};
use crate::sort::{listing, sorted_list_is_listing, texts};
use crate::suggest::{build_did_you_mean, suggestions_for};
use crate::survey::{
    all_topic_names, distinct_hosts, host_list, hosts_of, names_of, signature, topic_names,
    with_signature, TopicSurvey, TypeSignature,
};
use crate::text::{
    debug_form, decimal, push_decimal, push_signed, quoted, same_text, signed_decimal,
};

verus! {

/// What is said where a side is missing.
pub open spec fn missing_side(pubs: Seq<TopicEntry>, subs: Seq<TopicEntry>) -> Seq<FindingView> {
    if pubs.len() == 0 && subs.len() == 0 {
        seq![
            found(
                FindingCode::NoPublishersOrSubscribers,
                "no publishers or subscribers registered for this topic"@,
                None,
            ),
        ]
    } else if pubs.len() == 0 {
        seq![
            found(
                FindingCode::NoPublisher,
                "subscribers exist but no publisher is registered"@,
                None,
            ),
        ]
    } else if subs.len() == 0 {
        seq![
            found(
                FindingCode::NoSubscriber,
                "publishers exist but no subscriber is registered"@,
                None,
            ),
        ]
    } else {
        Seq::empty()
    }
}

pub(crate) fn push_missing_side(out: &mut Vec<Finding>, pubs: &[TopicEntry], subs: &[TopicEntry])
    ensures
        finding_views(final(out)@) == finding_views(old(out)@) + missing_side(pubs@, subs@),
{
    if pubs.len() == 0 && subs.len() == 0 {
        out.push(
            finding(
                FindingCode::NoPublishersOrSubscribers,
                "no publishers or subscribers registered for this topic".to_owned(),
                None,
            ),
        );
    } else if pubs.len() == 0 {
        out.push(
            finding(
                FindingCode::NoPublisher,
                "subscribers exist but no publisher is registered".to_owned(),
                None,
            ),
        );
    } else if subs.len() == 0 {
        out.push(
            finding(
                FindingCode::NoSubscriber,
                "publishers exist but no subscriber is registered".to_owned(),
                None,
            ),
        );
    }
    assert(finding_views(out@) =~= finding_views(old(out)@) + missing_side(pubs@, subs@));
}

/// A signature with the descriptor of its first endpoint, publishers before subscribers.
pub open spec fn signature_detail(s: TypeSignature, pubs: Seq<TopicEntry>, subs: Seq<TopicEntry>) -> SignatureView {
    let first = with_signature(pubs + subs, (s.name@, s.encoding@));
    SignatureView {
        name: s.name@,
        encoding: s.encoding@,
        descriptor_fingerprint: if first.len() > 0 {
            opt_text(first[0].datatype_information.descriptor_fingerprint)
        } else {
            None
        },
        descriptor_len: if first.len() > 0 {
            first[0].datatype_information.descriptor_len as nat
        } else {
            0
        },
        publisher_count: s.publisher_occurrences as nat,
        subscriber_count: s.subscriber_occurrences as nat,
        publisher_topic_ids: s.publisher_topic_ids@,
        subscriber_topic_ids: s.subscriber_topic_ids@,
    }
}

/// The wording of a mismatch between `n` signatures.
pub open spec fn mismatch_message(n: nat) -> Seq<char> {
    "metadata mismatch: "@ + decimal(n)
        + " distinct (name, encoding) signatures across endpoints — raw bytes still flow, but typed deserialization will fail on the side(s) that disagree"@
}

/// What is said where the endpoints advertise more than one signature.
pub open spec fn mismatch(sv: TopicSurvey) -> Seq<FindingView> {
    let sigs = sv.type_signatures@;
    if sigs.len() > 1 {
        seq![
            found(
                FindingCode::TypeMetadataMismatch,
                mismatch_message(sigs.len()),
                Some(
                    DetailView::Signatures(
                        sigs.map_values(
                            |s: TypeSignature| signature_detail(s, sv.publishers@, sv.subscribers@),
                        ),
                    ),
                ),
            ),
        ]
    } else {
        Seq::empty()
    }
}

fn first_with(rows: &[TopicEntry], name: &str, encoding: &str) -> (r: Option<usize>)
    ensures
        r is None ==> with_signature(rows@, (name@, encoding@)).len() == 0,
        r matches Some(i) ==> {
            &&& i < rows.len()
            &&& with_signature(rows@, (name@, encoding@)).len() > 0
            &&& with_signature(rows@, (name@, encoding@))[0] == rows@[i as int]
        },
{
    let ghost sig = (name@, encoding@);
    let ghost pred = |e: TopicEntry| signature(e) == sig;
    let mut i: usize = 0;
    while i < rows.len()
        invariant
            i <= rows.len(),
            sig == (name@, encoding@),
            pred == (|e: TopicEntry| signature(e) == sig),
            forall|k: int| 0 <= k < i ==> !pred(#[trigger] rows@[k]),
        decreases rows.len() - i,
    {
        let d = &rows[i].datatype_information;
        if same_text(d.name.as_str(), name) && same_text(d.encoding.as_str(), encoding) {
            proof {
                filter_first(rows@, pred, i as int);
            }
            return Some(i);
        }
        i += 1;
    }
    proof {
        filter_none(rows@, pred);
    }
    None
}

fn build_signature_detail(s: &TypeSignature, pubs: &[TopicEntry], subs: &[TopicEntry]) -> (r: SignatureDetail)
    ensures
        r@ == signature_detail(*s, pubs@, subs@),
{
    let name = s.name.as_str();
    let encoding = s.encoding.as_str();
    proof {
        let sig = (name@, encoding@);
        Seq::filter_distributes_over_add(pubs@, subs@, |e: TopicEntry| signature(e) == sig);
        assert(with_signature(pubs@ + subs@, sig) == with_signature(pubs@, sig) + with_signature(
            subs@,
            sig,
        ));
    }
    let (descriptor_fingerprint, descriptor_len): (Option<String>, usize) = match first_with(
        pubs,
        name,
        encoding,
    ) {
        Some(i) => descriptor_of(&pubs[i]),
        None => match first_with(subs, name, encoding) {
            Some(i) => descriptor_of(&subs[i]),
            None => (None, 0),
        },
    };
    SignatureDetail {
        name: s.name.clone(),
        encoding: s.encoding.clone(),
        descriptor_fingerprint,
        descriptor_len,
        publisher_count: s.publisher_occurrences,
        subscriber_count: s.subscriber_occurrences,
        publisher_topic_ids: slice_to_vec(s.publisher_topic_ids.as_slice()),
        subscriber_topic_ids: slice_to_vec(s.subscriber_topic_ids.as_slice()),
    }
}

fn descriptor_of(e: &TopicEntry) -> (r: (Option<String>, usize))
    ensures
        opt_text(r.0) == opt_text(e.datatype_information.descriptor_fingerprint),
        r.1 == e.datatype_information.descriptor_len,
{
    let fingerprint = match &e.datatype_information.descriptor_fingerprint {
        Some(f) => Some(f.clone()),
        None => None,
    };
    (fingerprint, e.datatype_information.descriptor_len)
}

fn copy_text(s: &String) -> (r: String)
    ensures
        r@ == s@,
{
    s.clone()
}

fn copy_texts(list: &Vec<String>) -> (r: Vec<String>)
    ensures
        texts(r@) == texts(list@),
{
    let r = map_rows(list.as_slice(), copy_text);
    assert(texts(r@) =~= texts(list@));
    r
}

pub(crate) fn push_mismatch(out: &mut Vec<Finding>, sv: &TopicSurvey)
    ensures
        finding_views(final(out)@) == finding_views(old(out)@) + mismatch(*sv),
{
    let sigs = &sv.type_signatures;
    if sigs.len() > 1 {
        let mut rows: Vec<SignatureDetail> = Vec::new();
        let mut i: usize = 0;
        while i < sigs.len()
            invariant
                i <= sigs.len(),
                rows.len() == i,
                *sigs == sv.type_signatures,
                forall|k: int|
                    0 <= k < i ==> (#[trigger] rows@[k])@ == signature_detail(
                        sigs@[k],
                        sv.publishers@,
                        sv.subscribers@,
                    ),
            decreases sigs.len() - i,
        {
            rows.push(
                build_signature_detail(&sigs[i], sv.publishers.as_slice(), sv.subscribers.as_slice()),
            );
            i += 1;
        }
        let mut message = "metadata mismatch: ".to_owned();
        push_decimal(&mut message, sigs.len() as u64);
        message.append(
            " distinct (name, encoding) signatures across endpoints — raw bytes still flow, but typed deserialization will fail on the side(s) that disagree",
        );
        proof {
            assert(rows@.map_values(|s: SignatureDetail| s@) =~= sigs@.map_values(
                |s: TypeSignature| signature_detail(s, sv.publishers@, sv.subscribers@),
            ));
        }
        out.push(
            finding(FindingCode::TypeMetadataMismatch, message, Some(FindingDetail::Signatures(rows))),
        );
    }
    assert(finding_views(out@) =~= finding_views(old(out)@) + mismatch(*sv));
}

/// What is said where both sides have active layers and none in common.
pub open spec fn transport_gap(sv: TopicSurvey) -> Seq<FindingView> {
    if sv.publishers@.len() > 0 && sv.subscribers@.len() > 0 && sv.both_sides_advertised
        && !sv.sides_share_transport {
        seq![
            found(
                FindingCode::NoCommonTransport,
                "publishers and subscribers share no active transport layer; data cannot flow"@,
                None,
            ),
        ]
    } else {
        Seq::empty()
    }
}

pub(crate) fn push_transport_gap(out: &mut Vec<Finding>, sv: &TopicSurvey)
    ensures
        finding_views(final(out)@) == finding_views(old(out)@) + transport_gap(*sv),
{
    if sv.publishers.len() > 0 && sv.subscribers.len() > 0 && sv.both_sides_advertised
        && !sv.sides_share_transport {
        out.push(
            finding(
                FindingCode::NoCommonTransport,
                "publishers and subscribers share no active transport layer; data cannot flow".to_owned(),
                None,
            ),
        );
    }
    assert(finding_views(out@) =~= finding_views(old(out)@) + transport_gap(*sv));
}

/// Every row keeps the default: its domain is its host name.
pub open spec fn default_domains(rows: Seq<TopicEntry>) -> bool {
    forall|i: int| 0 <= i < rows.len() ==> (#[trigger] rows[i]).shm_transport_domain@ == rows[i].host_name@
}

fn has_default_domains(rows: &[TopicEntry]) -> (r: bool)
    ensures
        r == default_domains(rows@),
{
    let mut i: usize = 0;
    while i < rows.len()
        invariant
            i <= rows.len(),
            default_domains(rows@.take(i as int)),
        decreases rows.len() - i,
    {
        if !same_text(rows[i].shm_transport_domain.as_str(), rows[i].host_name.as_str()) {
            assert(rows@[i as int].shm_transport_domain@ != rows@[i as int].host_name@);
            return false;
        }
        proof {
            assert forall|k: int| 0 <= k < i + 1 implies (#[trigger] rows@.take(i + 1)[k]).shm_transport_domain@
                == rows@.take(i + 1)[k].host_name@ by {
                if k < i {
                    assert(rows@.take(i as int)[k] == rows@[k]);
                }
            }
        }
        i += 1;
    }
    assert(rows@.take(i as int) =~= rows@);
    true
}

/// The wording of a domain split.
pub open spec fn split_message(hosts: nat, domains: nat) -> Seq<char> {
    decimal(hosts) + " hosts with "@ + decimal(domains)
        + " distinct shm_transport_domain values: cross-host SHM is only eligible when all sides agree on the domain string"@
}

/// The hosts of a topic.
pub open spec fn topic_hosts(sv: TopicSurvey) -> Set<Seq<char>> {
    hosts_of(sv.publishers@).union(hosts_of(sv.subscribers@))
}

/// A domain split says nothing where a transport is already in use, or where every endpoint
/// keeps the default domain.
pub open spec fn split_is_noise(sv: TopicSurvey) -> bool {
    sv.common_active_transport_layers@.len() > 0 || (default_domains(sv.publishers@) && default_domains(
        sv.subscribers@,
    ))
}

/// What is said where several hosts name several domains.
pub open spec fn domain_split(sv: TopicSurvey) -> Seq<FindingView> {
    let hosts = listing(topic_hosts(sv));
    let domains = texts(sv.shm_transport_domains@);
    if hosts.len() > 1 && domains.len() > 1 && !split_is_noise(sv) {
        seq![
            found(
                FindingCode::ShmDomainSplit,
                split_message(hosts.len(), domains.len()),
                Some(DetailView::Domains { host_count: hosts.len(), shm_transport_domains: domains }),
            ),
        ]
    } else {
        Seq::empty()
    }
}

pub(crate) fn push_domain_split(out: &mut Vec<Finding>, sv: &TopicSurvey)
    ensures
        finding_views(final(out)@) == finding_views(old(out)@) + domain_split(*sv),
{
    let hosts = distinct_hosts(sv.publishers.as_slice(), sv.subscribers.as_slice());
    proof {
        sorted_list_is_listing(hosts@, topic_hosts(*sv));
    }
    let noise = sv.common_active_transport_layers.len() > 0 || (has_default_domains(
        sv.publishers.as_slice(),
    ) && has_default_domains(sv.subscribers.as_slice()));
    if hosts.len() > 1 && sv.shm_transport_domains.len() > 1 && !noise {
        let mut message = String::new();
        push_decimal(&mut message, hosts.len() as u64);
        message.append(" hosts with ");
        push_decimal(&mut message, sv.shm_transport_domains.len() as u64);
        message.append(
            " distinct shm_transport_domain values: cross-host SHM is only eligible when all sides agree on the domain string",
        );
        proof {
            assert(message@ =~= split_message(
                listing(topic_hosts(*sv)).len(),
                texts(sv.shm_transport_domains@).len(),
            ));
        }
        out.push(
            finding(
                FindingCode::ShmDomainSplit,
                message,
                Some(
                    FindingDetail::Domains {
                        host_count: hosts.len(),
                        shm_transport_domains: copy_texts(&sv.shm_transport_domains),
                    },
                ),
            ),
        );
    }
    assert(finding_views(out@) =~= finding_views(old(out)@) + domain_split(*sv));
}

/// Severities from here on are not healthy.
pub const UNHEALTHY_SEVERITY: i32 = 2;

/// The wording of an unhealthy process.
pub open spec fn unhealthy_message(side: Seq<char>, e: TopicEntry, p: ProcessInfo) -> Seq<char> {
    side + " '"@ + e.unit_name@ + "' (pid "@ + signed_decimal(e.process_id as int) + ") on "@ + e.host_name@
        + " is in non-healthy state (severity="@ + signed_decimal(p.state_severity as int) + ", level="@
        + signed_decimal(p.state_severity_level as int) + "): "@ + if p.state_info@.len() == 0 {
        "<no state_info>"@
    } else {
        p.state_info@
    }
}

/// The finding on an endpoint whose process is not healthy.
pub open spec fn unhealthy_finding(side: Seq<char>, e: TopicEntry, p: ProcessInfo) -> FindingView {
    found(
        FindingCode::UnhealthyProcess,
        unhealthy_message(side, e, p),
        Some(
            DetailView::Process(
                ProcessView {
                    side,
                    host_name: e.host_name@,
                    unit_name: e.unit_name@,
                    process_id: e.process_id,
                    topic_id: e.topic_id,
                    state_severity: p.state_severity,
                    state_severity_level: p.state_severity_level,
                    state_info: p.state_info@,
                },
            ),
        ),
    )
}

/// The finding on one endpoint and its process; none while the severity is below two.
pub fn build_unhealthy_process_finding(side: &str, e: &TopicEntry, proc_state: &ProcessInfo) -> (r: Option<Finding>)
    ensures
        r is Some <==> proc_state.state_severity >= UNHEALTHY_SEVERITY,
        r matches Some(f) ==> f@ == unhealthy_finding(side@, *e, *proc_state),
{
    if proc_state.state_severity < UNHEALTHY_SEVERITY {
        return None;
    }
    let mut message = side.to_owned();
    message.append(" '");
    message.append(e.unit_name.as_str());
    message.append("' (pid ");
    push_signed(&mut message, e.process_id as i64);
    message.append(") on ");
    message.append(e.host_name.as_str());
    message.append(" is in non-healthy state (severity=");
    push_signed(&mut message, proc_state.state_severity as i64);
    message.append(", level=");
    push_signed(&mut message, proc_state.state_severity_level as i64);
    message.append("): ");
    proof {
        reveal_strlit("");
    }
    if same_text(proc_state.state_info.as_str(), "") {
        message.append("<no state_info>");
    } else {
        proof {
            if proc_state.state_info@.len() == 0 {
                assert(proc_state.state_info@ =~= ""@);
            }
        }
        message.append(proc_state.state_info.as_str());
    }
    Some(
        finding(
            FindingCode::UnhealthyProcess,
            message,
            Some(
                FindingDetail::Process(
                    ProcessDetail {
                        side: side.to_owned(),
                        host_name: e.host_name.clone(),
                        unit_name: e.unit_name.clone(),
                        process_id: e.process_id,
                        topic_id: e.topic_id,
                        state_severity: proc_state.state_severity,
                        state_severity_level: proc_state.state_severity_level,
                        state_info: proc_state.state_info.clone(),
                    },
                ),
            ),
        ),
    )
}

/// The registered processes with the identifier and on the host of an endpoint.
pub open spec fn processes_of(e: TopicEntry, processes: Seq<ProcessInfo>) -> Seq<ProcessInfo> {
    processes.filter(|p: ProcessInfo| p.process_id == e.process_id && p.host_name@ == e.host_name@)
}

/// What is said of one endpoint: a finding where the first process that matches it is not
/// healthy.
pub open spec fn endpoint_health(side: Seq<char>, e: TopicEntry, processes: Seq<ProcessInfo>) -> Seq<FindingView> {
    let own = processes_of(e, processes);
    if own.len() > 0 && own[0].state_severity >= UNHEALTHY_SEVERITY {
        seq![unhealthy_finding(side, e, own[0])]
    } else {
        Seq::empty()
    }
}

/// What is said of the endpoints of one side, in order.
pub open spec fn side_health(side: Seq<char>, rows: Seq<TopicEntry>, processes: Seq<ProcessInfo>) -> Seq<FindingView>
    decreases rows.len(),
{
    if rows.len() == 0 {
        Seq::empty()
    } else {
        side_health(side, rows.drop_last(), processes) + endpoint_health(side, rows.last(), processes)
    }
}

fn process_of(e: &TopicEntry, processes: &Vec<ProcessInfo>) -> (r: Option<usize>)
    ensures
        r is None ==> processes_of(*e, processes@).len() == 0,
        r matches Some(i) ==> {
            &&& i < processes.len()
            &&& processes_of(*e, processes@).len() > 0
            &&& processes_of(*e, processes@)[0] == processes@[i as int]
        },
{
    let ghost pred = |p: ProcessInfo| p.process_id == e.process_id && p.host_name@ == e.host_name@;
    let mut i: usize = 0;
    while i < processes.len()
        invariant
            i <= processes.len(),
            pred == (|p: ProcessInfo| p.process_id == e.process_id && p.host_name@ == e.host_name@),
            forall|k: int| 0 <= k < i ==> !pred(#[trigger] processes@[k]),
        decreases processes.len() - i,
    {
        let p = &processes[i];
        if p.process_id == e.process_id && same_text(p.host_name.as_str(), e.host_name.as_str()) {
            proof {
                filter_first(processes@, pred, i as int);
            }
            return Some(i);
        }
        i += 1;
    }
    proof {
        filter_none(processes@, pred);
    }
    None
}

pub(crate) fn push_side_health(out: &mut Vec<Finding>, side: &str, rows: &[TopicEntry], processes: &Vec<ProcessInfo>)
    ensures
        finding_views(final(out)@) == finding_views(old(out)@) + side_health(side@, rows@, processes@),
{
    let mut i: usize = 0;
    proof {
        assert(rows@.take(0) =~= Seq::<TopicEntry>::empty());
        assert(finding_views(out@) =~= finding_views(old(out)@) + side_health(
            side@,
            rows@.take(0),
            processes@,
        ));
    }
    while i < rows.len()
        invariant
            i <= rows.len(),
            finding_views(out@) == finding_views(old(out)@) + side_health(
                side@,
                rows@.take(i as int),
                processes@,
            ),
        decreases rows.len() - i,
    {
        let e = &rows[i];
        let ghost before = finding_views(out@);
        proof {
            assert(rows@.take(i + 1).drop_last() =~= rows@.take(i as int));
            assert(rows@.take(i + 1).last() == *e);
        }
        if let Some(at) = process_of(e, processes) {
            if let Some(f) = build_unhealthy_process_finding(side, e, &processes[at]) {
                out.push(f);
            }
        }
        proof {
            assert(finding_views(out@) =~= before + endpoint_health(side@, *e, processes@));
            assert(finding_views(out@) =~= finding_views(old(out)@) + side_health(
                side@,
                rows@.take(i + 1),
                processes@,
            ));
        }
        i += 1;
    }
    assert(rows@.take(i as int) =~= rows@);
}

/// The highest and the lowest positive rate of the rows, in millihertz.
pub open spec fn rate_extremes(rows: Seq<TopicEntry>) -> Option<(i32, i32)>
    decreases rows.len(),
{
    if rows.len() == 0 {
        None
    } else {
        let before = rate_extremes(rows.drop_last());
        let rate = rows.last().registered_data_frequency_mhz;
        if rate <= 0 {
            before
        } else {
            match before {
                None => Some((rate, rate)),
                Some(b) => Some(
                    (
                        if rate > b.0 {
                            rate
                        } else {
                            b.0
                        },
                        if rate < b.1 {
                            rate
                        } else {
                            b.1
                        },
                    ),
                ),
            }
        }
    }
}

/// The extremes of the publishers' registered rates, left to the caller to divide.
pub fn publisher_rate_extremes(rows: &[TopicEntry]) -> (r: Option<(i32, i32)>)
    ensures
        r == rate_extremes(rows@),
        r matches Some(b) ==> 0 < b.1 <= b.0,
{
    let mut r: Option<(i32, i32)> = None;
    let mut i: usize = 0;
    assert(rows@.take(0) =~= Seq::<TopicEntry>::empty());
    while i < rows.len()
        invariant
            i <= rows.len(),
            r == rate_extremes(rows@.take(i as int)),
            r matches Some(b) ==> 0 < b.1 <= b.0,
        decreases rows.len() - i,
    {
        proof {
            assert(rows@.take(i + 1).drop_last() =~= rows@.take(i as int));
            assert(rows@.take(i + 1).last() == rows@[i as int]);
        }
        let rate: i32 = rows[i].registered_data_frequency_mhz;
        if rate > 0 {
            r = match r {
                None => Some((rate, rate)),
                Some(b) => Some(
                    (
                        if rate > b.0 {
                            rate
                        } else {
                            b.0
                        },
                        if rate < b.1 {
                            rate
                        } else {
                            b.1
                        },
                    ),
                ),
            };
        }
        i += 1;
    }
    assert(rows@.take(i as int) =~= rows@);
    r
}

/// One publisher of several.
pub open spec fn publisher_detail(e: TopicEntry) -> PublisherView {
    PublisherView {
        host_name: e.host_name@,
        unit_name: e.unit_name@,
        process_id: e.process_id,
        topic_id: e.topic_id,
        registered_data_frequency_mhz: e.registered_data_frequency_mhz,
        data_clock: e.data_clock,
    }
}

/// The wording of several publishers; `ratio` is the ratio of their rates in figures.
pub open spec fn crowd_message(pubs: nat, subs: nat, ratio: Seq<char>) -> Seq<char> {
    decimal(pubs) + " publishers registered for a topic with "@ + decimal(subs)
        + " subscriber(s) — 1:N producer anti-pattern; rate-divergence ratio "@ + ratio
}

/// What is said where a topic with a subscriber has two or more publishers.
pub open spec fn crowd(pubs: Seq<TopicEntry>, subs: Seq<TopicEntry>, ratio: Seq<char>) -> Seq<FindingView> {
    if pubs.len() >= 2 && subs.len() > 0 {
        seq![
            found(
                FindingCode::MultiplePublishers,
                crowd_message(pubs.len(), subs.len(), ratio),
                Some(
                    DetailView::Publishers {
                        publishers: pubs.map_values(|e: TopicEntry| publisher_detail(e)),
                        rate_extremes_mhz: rate_extremes(pubs),
                        host_divergence: listing(hosts_of(pubs)).len() >= 2,
                    },
                ),
            ),
        ]
    } else {
        Seq::empty()
    }
}

pub(crate) fn push_crowd(out: &mut Vec<Finding>, pubs: &[TopicEntry], subs: &[TopicEntry], ratio: &str)
    ensures
        finding_views(final(out)@) == finding_views(old(out)@) + crowd(pubs@, subs@, ratio@),
{
    if pubs.len() >= 2 && subs.len() > 0 {
        let hosts = host_list(pubs);
        let mut publishers: Vec<PublisherDetail> = Vec::new();
        let mut i: usize = 0;
        while i < pubs.len()
            invariant
                i <= pubs.len(),
                publishers.len() == i,
                forall|k: int| 0 <= k < i ==> (#[trigger] publishers@[k])@ == publisher_detail(pubs@[k]),
            decreases pubs.len() - i,
        {
            let p = &pubs[i];
            publishers.push(
                PublisherDetail {
                    host_name: p.host_name.clone(),
                    unit_name: p.unit_name.clone(),
                    process_id: p.process_id,
                    topic_id: p.topic_id,
                    registered_data_frequency_mhz: p.registered_data_frequency_mhz,
                    data_clock: p.data_clock,
                },
            );
            i += 1;
        }
        let mut message = String::new();
        push_decimal(&mut message, pubs.len() as u64);
        message.append(" publishers registered for a topic with ");
        push_decimal(&mut message, subs.len() as u64);
        message.append(" subscriber(s) — 1:N producer anti-pattern; rate-divergence ratio ");
        message.append(ratio);
        proof {
            assert(message@ =~= crowd_message(pubs@.len(), subs@.len(), ratio@));
            sorted_list_is_listing(hosts@, hosts_of(pubs@));
            assert(texts(hosts@).len() == hosts@.len());
            assert(publishers@.map_values(|p: PublisherDetail| p@) =~= pubs@.map_values(
                |e: TopicEntry| publisher_detail(e),
            ));
        }
        out.push(
            finding(
                FindingCode::MultiplePublishers,
                message,
                Some(
                    FindingDetail::Publishers {
                        publishers,
                        rate_extremes_mhz: publisher_rate_extremes(pubs),
                        host_divergence: hosts.len() >= 2,
                    },
                ),
            ),
        );
    }
    assert(finding_views(out@) =~= finding_views(old(out)@) + crowd(pubs@, subs@, ratio@));
}

/// The wording of suggestions: `missing` opens it, `near` leads to the best one, `nothing` stands
/// where there is none. Topic and suggestion are given as `Debug` writes them.
pub open spec fn suggestion_text(
    missing: Seq<char>,
    topic: Seq<char>,
    near: Seq<char>,
    nothing: Seq<char>,
    suggestion: Option<Seq<char>>,
) -> Seq<char> {
    match suggestion {
        Some(s) => missing + topic + near + s,
        None => missing + topic + nothing,
    }
}

/// Words suggestions.
pub fn suggestion_message(
    missing: &str,
    topic: &str,
    near: &str,
    nothing: &str,
    suggestion: Option<String>,
) -> (r: String)
    ensures
        r@ == suggestion_text(missing@, topic@, near@, nothing@, opt_text(suggestion)),
{
    let mut message = missing.to_owned();
    message.append(topic);
    match suggestion {
        Some(s) => {
            message.append(near);
            message.append(s.as_str());
        },
        None => {
            message.append(nothing);
        },
    }
    message
}

/// A text as `Debug` writes it, where there is one.
pub open spec fn debug_of(s: Option<Seq<char>>) -> Option<Seq<char>> {
    match s {
        Some(t) => Some(debug_form(t)),
        None => None,
    }
}

/// Suggestions as a finding.
pub open spec fn suggestion_finding(message: Seq<char>, s: SuggestionsView) -> FindingView {
    found(FindingCode::DidYouMean, message, Some(DetailView::Suggestions(s)))
}

/// What is suggested where a side is missing: names out of all that are registered where both
/// are missing, else names that have what is missing here.
pub open spec fn suggestions(sv: TopicSurvey, snap: MonitoringSnapshot, topic: Seq<char>) -> Seq<FindingView> {
    let pub_names = names_of(snap.publishers@);
    let sub_names = names_of(snap.subscribers@);
    if sv.publishers@.len() == 0 && sv.subscribers@.len() == 0 {
        let s = suggestions_for(topic, listing(pub_names.union(sub_names)), snap);
        seq![
            suggestion_finding(
                suggestion_text(
                    "topic "@,
                    debug_form(topic),
                    " not found; closest known topic is "@,
                    " not found; no near-miss in the registration snapshot"@,
                    debug_of(s.suggestion),
                ),
                s,
            ),
        ]
    } else if sv.publishers@.len() == 0 {
        let s = suggestions_for(topic, listing(pub_names), snap);
        seq![
            suggestion_finding(
                suggestion_text(
                    "no publisher for "@,
                    debug_form(topic),
                    "; closest topic with a publisher is "@,
                    "; no near-miss publisher in the snapshot"@,
                    debug_of(s.suggestion),
                ),
                s,
            ),
        ]
    } else if sv.subscribers@.len() == 0 {
        let s = suggestions_for(topic, listing(sub_names), snap);
        seq![
            suggestion_finding(
                suggestion_text(
                    "no subscriber for "@,
                    debug_form(topic),
                    "; closest topic with a subscriber is "@,
                    "; no near-miss subscriber in the snapshot"@,
                    debug_of(s.suggestion),
                ),
                s,
            ),
        ]
    } else {
        Seq::empty()
    }
}

fn build_suggestion_finding(
    snap: &MonitoringSnapshot,
    topic: &str,
    pool: &Vec<String>,
    missing: &str,
    near: &str,
    nothing: &str,
) -> (r: Option<Finding>)
    ensures
        r is Some,
        ({
            let s = suggestions_for(topic@, texts(pool@), *snap);
            r->Some_0@ == suggestion_finding(
                suggestion_text(missing@, debug_form(topic@), near@, nothing@, debug_of(s.suggestion)),
                s,
            )
        }),
{
    match build_did_you_mean(topic, pool.as_slice(), snap) {
        Some(detail) => {
            let suggestion = match &detail.suggestion {
                Some(s) => Some(quoted(s.as_str())),
                None => None,
            };
            let message = suggestion_message(
                missing,
                quoted(topic).as_str(),
                near,
                nothing,
                suggestion,
            );
            Some(finding(FindingCode::DidYouMean, message, Some(FindingDetail::Suggestions(detail))))
        },
        None => None,
    }
}

pub(crate) fn push_suggestions(out: &mut Vec<Finding>, sv: &TopicSurvey, snap: &MonitoringSnapshot, topic: &str)
    ensures
        finding_views(final(out)@) == finding_views(old(out)@) + suggestions(*sv, *snap, topic@),
{
    let ghost pub_names = names_of(snap.publishers@);
    let ghost sub_names = names_of(snap.subscribers@);
    if sv.publishers.len() == 0 && sv.subscribers.len() == 0 {
        let pool = all_topic_names(snap);
        proof {
            sorted_list_is_listing(pool@, pub_names.union(sub_names));
        }
        if let Some(f) = build_suggestion_finding(
            snap,
            topic,
            &pool,
            "topic ",
            " not found; closest known topic is ",
            " not found; no near-miss in the registration snapshot",
        ) {
            out.push(f);
        }
    } else if sv.publishers.len() == 0 {
        let pool = topic_names(&snap.publishers);
        proof {
            sorted_list_is_listing(pool@, pub_names);
        }
        if let Some(f) = build_suggestion_finding(
            snap,
            topic,
            &pool,
            "no publisher for ",
            "; closest topic with a publisher is ",
            "; no near-miss publisher in the snapshot",
        ) {
            out.push(f);
        }
    } else if sv.subscribers.len() == 0 {
        let pool = topic_names(&snap.subscribers);
        proof {
            sorted_list_is_listing(pool@, sub_names);
        }
        if let Some(f) = build_suggestion_finding(
            snap,
            topic,
            &pool,
            "no subscriber for ",
            "; closest topic with a subscriber is ",
            "; no near-miss subscriber in the snapshot",
        ) {
            out.push(f);
        }
    }
    assert(finding_views(out@) =~= finding_views(old(out)@) + suggestions(*sv, *snap, topic@));
}

} // verus!
