//! Diagnosis of one topic: what is wrong with it, most likely cause first.

use vstd::prelude::*;

use crate::checks::{
    crowd, domain_split, endpoint_health, mismatch, missing_side, processes_of, push_crowd,
    push_domain_split, push_mismatch, push_missing_side, push_side_health, push_suggestions,
    push_transport_gap, side_health, split_is_noise, suggestions, topic_hosts, transport_gap,
    UNHEALTHY_SEVERITY,
};
use crate::drops::{drop_findings, pruned, publisher_keys, remembered, DropMap, DropsCache};
use crate::entries::TopicEntry;
use crate::findings::{
    code_order, finding, finding_views, found, likely_causes_come_first, ordered, sort_findings,
    DeltaDirection, DetailView, Finding, FindingCode, FindingDetail, FindingView,
};
use crate::measure::WindowStats;
use crate::monitoring::{MonitoringSnapshot, ProcessInfo};
use crate::sort::listing;
use crate::survey::{is_survey, survey_topic, TopicSurvey, TypeSignature};
use crate::text::{decimal, push_decimal};

verus! {

/// What a snapshot and the remembered drop counters say of a topic, but for the crowding of its
/// publishers, whose wording needs a ratio of rates.
pub open spec fn snapshot_findings(
    sv: TopicSurvey,
    snap: MonitoringSnapshot,
    topic: Seq<char>,
    drops: DropMap,
    now: u64,
) -> Seq<FindingView> {
    let pubs = sv.publishers@;
    let subs = sv.subscribers@;
    missing_side(pubs, subs) + mismatch(sv) + transport_gap(sv) + domain_split(sv) + drop_findings(
        drops,
        publisher_keys(pubs),
        subs,
        now,
    ) + side_health("publisher"@, pubs, snap.processes@) + side_health(
        "subscriber"@,
        subs,
        snap.processes@,
    ) + suggestions(sv, snap, topic)
}

/// A diagnosis before its live step: what the snapshot says, not yet in final order.
#[derive(Debug)]
pub struct TopicDiagnosis {
    pub topic_name: String,
    pub survey: TopicSurvey,
    pub findings: Vec<Finding>,
}

/// `d` is what the first step of a diagnosis finds at `now`, with the drop counters `before` it
/// and `after` it.
pub open spec fn is_first_step(
    d: TopicDiagnosis,
    snap: MonitoringSnapshot,
    topic: Seq<char>,
    now: u64,
    before: DropMap,
    after: DropMap,
) -> bool {
    &&& d.topic_name@ == topic
    &&& is_survey(d.survey, snap, topic)
    &&& finding_views(d.findings@) == snapshot_findings(d.survey, snap, topic, pruned(before, now), now)
    &&& after == remembered(
        pruned(before, now),
        publisher_keys(d.survey.publishers@),
        d.survey.subscribers@,
        now,
    )
}

/// First step of a diagnosis: what `snap` says of `topic`, and how the drop counters moved since
/// they were last looked at. `now` is the reading of a clock that does not run backwards, in
/// nanoseconds.
pub fn begin_diagnosis(cache: &mut DropsCache, snap: &MonitoringSnapshot, topic: &str, now: u64) -> (r: TopicDiagnosis)
    ensures
        is_first_step(r, *snap, topic@, now, old(cache)@, final(cache)@),
{
    let survey = survey_topic(snap, topic);
    let pubs = survey.publishers.as_slice();
    let subs = survey.subscribers.as_slice();
    let mut findings: Vec<Finding> = Vec::new();
    assert(finding_views(findings@) + missing_side(pubs@, subs@) =~= missing_side(pubs@, subs@));
    push_missing_side(&mut findings, pubs, subs);
    push_mismatch(&mut findings, &survey);
    push_transport_gap(&mut findings, &survey);
    push_domain_split(&mut findings, &survey);
    let mut dropped = cache.observe(pubs, subs, now);
    let ghost before = finding_views(findings@);
    let ghost added = finding_views(dropped@);
    findings.append(&mut dropped);
    assert(finding_views(findings@) =~= before + added);
    push_side_health(&mut findings, "publisher", pubs, &snap.processes);
    push_side_health(&mut findings, "subscriber", subs, &snap.processes);
    push_suggestions(&mut findings, &survey, snap, topic);
    TopicDiagnosis { topic_name: topic.to_owned(), survey, findings }
}

/// A live window is measured: there is something to listen to, and time is given for it.
pub open spec fn wants_window(d: TopicDiagnosis, duration_ms: u64) -> bool {
    duration_ms != 0 && (d.survey.publishers@.len() > 0 || d.survey.subscribers@.len() > 0)
}

/// Whether the live step is due: never without an endpoint or with an empty window.
pub fn needs_measurement(d: &TopicDiagnosis, duration_ms: u64) -> (r: bool)
    ensures
        r == wants_window(*d, duration_ms),
{
    duration_ms != 0 && (d.survey.publishers.len() > 0 || d.survey.subscribers.len() > 0)
}

/// The wording of a window without samples.
pub open spec fn silence_message(duration_ms: u64, pubs: nat) -> Seq<char> {
    "no samples observed in "@ + decimal(duration_ms as nat) + "ms despite "@ + decimal(pubs)
        + " registered publisher(s)"@
}

/// What is said where a window saw no sample although there is a publisher.
pub open spec fn silence(samples: Option<u64>, duration_ms: u64, pubs: nat) -> Seq<FindingView> {
    if samples == Some(0u64) && pubs > 0 {
        seq![
            found(
                FindingCode::NoSamplesObserved,
                silence_message(duration_ms, pubs),
                Some(DetailView::NoSamples { duration_ms, publisher_count: pubs }),
            ),
        ]
    } else {
        Seq::empty()
    }
}

/// A measured rate held against its target, with the three figures as they are worded.
#[derive(Debug)]
pub struct RateCheck {
    pub delta_direction: DeltaDirection,
    /// Measured rate in hertz.
    pub measured: String,
    /// Target rate in hertz.
    pub target: String,
    /// Tolerance in percent.
    pub tolerance: String,
}

/// Where a rate stands: on target within the tolerance, else below or above.
pub open spec fn verdict(meets: bool, below: bool) -> DeltaDirection {
    if meets {
        DeltaDirection::OnSpec
    } else if below {
        DeltaDirection::BelowSpec
    } else {
        DeltaDirection::AboveSpec
    }
}

/// Names the outcome of a rate check.
pub fn rate_verdict(meets: bool, below: bool) -> (r: DeltaDirection)
    ensures
        r == verdict(meets, below),
        r == DeltaDirection::OnSpec <==> meets,
{
    if meets {
        DeltaDirection::OnSpec
    } else if below {
        DeltaDirection::BelowSpec
    } else {
        DeltaDirection::AboveSpec
    }
}

/// The wording of a missed rate.
pub open spec fn rate_message(c: RateCheck, relation: Seq<char>) -> Seq<char> {
    "live rate "@ + c.measured@ + " Hz is "@ + relation + " expected "@ + c.target@ + " Hz (tolerance "@
        + c.tolerance@ + "%)"@
}

/// What is said where a window was measured and its rate misses the target.
pub open spec fn rate_gap(measured: bool, check: Option<RateCheck>) -> Seq<FindingView> {
    match check {
        Some(c) if measured => match c.delta_direction {
            DeltaDirection::OnSpec => Seq::empty(),
            DeltaDirection::BelowSpec => seq![
                found(
                    FindingCode::RateBelowSpec,
                    rate_message(c, "below"@),
                    Some(DetailView::Rate { delta_direction: c.delta_direction }),
                ),
            ],
            DeltaDirection::AboveSpec => seq![
                found(
                    FindingCode::RateAboveSpec,
                    rate_message(c, "above"@),
                    Some(DetailView::Rate { delta_direction: c.delta_direction }),
                ),
            ],
        },
        _ => Seq::empty(),
    }
}

fn push_silence(out: &mut Vec<Finding>, live: &Option<WindowStats>, duration_ms: u64, pubs: usize)
    ensures
        finding_views(final(out)@) == finding_views(old(out)@) + silence(
            samples_of(*live),
            duration_ms,
            pubs as nat,
        ),
{
    if let Some(stats) = live {
        if stats.samples_observed == 0 && pubs > 0 {
            let mut message = "no samples observed in ".to_owned();
            push_decimal(&mut message, duration_ms);
            message.append("ms despite ");
            push_decimal(&mut message, pubs as u64);
            message.append(" registered publisher(s)");
            out.push(
                finding(
                    FindingCode::NoSamplesObserved,
                    message,
                    Some(FindingDetail::NoSamples { duration_ms, publisher_count: pubs }),
                ),
            );
        }
    }
    assert(finding_views(out@) =~= finding_views(old(out)@) + silence(
        samples_of(*live),
        duration_ms,
        pubs as nat,
    ));
}

fn rate_text(c: &RateCheck, relation: &str) -> (r: String)
    ensures
        r@ == rate_message(*c, relation@),
{
    let mut message = "live rate ".to_owned();
    message.append(c.measured.as_str());
    message.append(" Hz is ");
    message.append(relation);
    message.append(" expected ");
    message.append(c.target.as_str());
    message.append(" Hz (tolerance ");
    message.append(c.tolerance.as_str());
    message.append("%)");
    message
}

fn push_rate_gap(out: &mut Vec<Finding>, measured: bool, check: &Option<RateCheck>)
    ensures
        finding_views(final(out)@) == finding_views(old(out)@) + rate_gap(measured, *check),
{
    if measured {
        if let Some(c) = check {
            let detail = Some(FindingDetail::Rate { delta_direction: c.delta_direction });
            match c.delta_direction {
                DeltaDirection::OnSpec => {},
                DeltaDirection::BelowSpec => {
                    out.push(finding(FindingCode::RateBelowSpec, rate_text(c, "below"), detail));
                },
                DeltaDirection::AboveSpec => {
                    out.push(finding(FindingCode::RateAboveSpec, rate_text(c, "above"), detail));
                },
            }
        }
    }
    assert(finding_views(out@) =~= finding_views(old(out)@) + rate_gap(measured, *check));
}

/// How many samples a window saw, where there was one.
pub open spec fn samples_of(live: Option<WindowStats>) -> Option<u64> {
    match live {
        Some(stats) => Some(stats.samples_observed),
        None => None,
    }
}

/// A finding with this code is there.
pub open spec fn mentions(findings: Seq<FindingView>, code: FindingCode) -> bool {
    exists|i: int| 0 <= i < findings.len() && (#[trigger] findings[i]).code == code
}

fn find_mismatch(findings: &Vec<Finding>) -> (r: bool)
    ensures
        r == mentions(finding_views(findings@), FindingCode::TypeMetadataMismatch),
{
    let ghost views = finding_views(findings@);
    let mut i: usize = 0;
    while i < findings.len()
        invariant
            i <= findings.len(),
            views == finding_views(findings@),
            forall|k: int| 0 <= k < i ==> (#[trigger] views[k]).code != FindingCode::TypeMetadataMismatch,
        decreases findings.len() - i,
    {
        assert(views[i as int] == findings@[i as int]@);
        if findings[i].code == FindingCode::TypeMetadataMismatch {
            return true;
        }
        i += 1;
    }
    false
}

/// The live part of a result: with several types on the topic, the one that the window happened
/// to see first is left out.
pub open spec fn is_live_part(r: Option<WindowStats>, live: Option<WindowStats>, mismatch: bool) -> bool {
    match live {
        None => r is None,
        Some(stats) => r == Some(
            if mismatch {
                WindowStats { name: None, encoding: None, ..stats }
            } else {
                stats
            },
        ),
    }
}

/// Everything that is known of a topic, findings in final order.
#[derive(Debug)]
pub struct DiagnoseTopicResult {
    pub topic_name: String,
    pub publishers: Vec<TopicEntry>,
    pub subscribers: Vec<TopicEntry>,
    pub type_signatures: Vec<TypeSignature>,
    pub common_active_transport_layers: Vec<String>,
    pub shm_transport_domains: Vec<String>,
    pub findings: Vec<Finding>,
    pub live_stats: Option<WindowStats>,
}

/// All findings of a diagnosis in final order: those of the snapshot, the crowding of publishers,
/// and what the live window showed.
pub open spec fn final_findings(
    before: Seq<FindingView>,
    pubs: Seq<TopicEntry>,
    subs: Seq<TopicEntry>,
    ratio: Seq<char>,
    samples: Option<u64>,
    duration_ms: u64,
    check: Option<RateCheck>,
) -> Seq<FindingView> {
    ordered(
        before + crowd(pubs, subs, ratio) + silence(samples, duration_ms, pubs.len()) + rate_gap(
            samples is Some,
            check,
        ),
    )
}

/// `r` is what the last step of a diagnosis makes of `d`.
pub open spec fn is_last_step(
    r: DiagnoseTopicResult,
    d: TopicDiagnosis,
    ratio: Seq<char>,
    duration_ms: u64,
    live: Option<WindowStats>,
    check: Option<RateCheck>,
) -> bool {
    &&& r.topic_name == d.topic_name
    &&& r.publishers == d.survey.publishers
    &&& r.subscribers == d.survey.subscribers
    &&& r.type_signatures == d.survey.type_signatures
    &&& r.common_active_transport_layers == d.survey.common_active_transport_layers
    &&& r.shm_transport_domains == d.survey.shm_transport_domains
    &&& finding_views(r.findings@) == final_findings(
        finding_views(d.findings@),
        d.survey.publishers@,
        d.survey.subscribers@,
        ratio,
        samples_of(live),
        duration_ms,
        check,
    )
    &&& is_live_part(
        r.live_stats,
        live,
        mentions(finding_views(d.findings@), FindingCode::TypeMetadataMismatch),
    )
}

/// Last step of a diagnosis: adds what the live window showed, if there was one, and sorts.
/// `ratio` is the ratio of the publishers' rate extremes in figures.
pub fn finish_diagnosis(
    d: TopicDiagnosis,
    ratio: &str,
    duration_ms: u64,
    live: Option<WindowStats>,
    check: Option<RateCheck>,
) -> (r: DiagnoseTopicResult)
    ensures
        is_last_step(r, d, ratio@, duration_ms, live, check),
{
    let mut findings = d.findings;
    let mixed = find_mismatch(&findings);
    push_crowd(&mut findings, d.survey.publishers.as_slice(), d.survey.subscribers.as_slice(), ratio);
    push_silence(&mut findings, &live, duration_ms, d.survey.publishers.len());
    push_rate_gap(&mut findings, live.is_some(), &check);
    let sorted = sort_findings(findings);
    let live_stats = match live {
        Some(stats) => if mixed {
            Some(
                WindowStats {
                    samples_observed: stats.samples_observed,
                    total_bytes: stats.total_bytes,
                    min_size_bytes: stats.min_size_bytes,
                    max_size_bytes: stats.max_size_bytes,
                    gaps_us: stats.gaps_us,
                    min_gap_us: stats.min_gap_us,
                    max_gap_us: stats.max_gap_us,
                    first_timestamp_us: stats.first_timestamp_us,
                    last_timestamp_us: stats.last_timestamp_us,
                    name: None,
                    encoding: None,
                },
            )
        } else {
            Some(stats)
        },
        None => None,
    };
    DiagnoseTopicResult {
        topic_name: d.topic_name,
        publishers: d.survey.publishers,
        subscribers: d.survey.subscribers,
        type_signatures: d.survey.type_signatures,
        common_active_transport_layers: d.survey.common_active_transport_layers,
        shm_transport_domains: d.survey.shm_transport_domains,
        findings: sorted,
        live_stats,
    }
}

proof fn lemma_mentions_add(a: Seq<FindingView>, b: Seq<FindingView>, code: FindingCode)
    ensures
        mentions(a + b, code) == (mentions(a, code) || mentions(b, code)),
{
    let c = a + b;
    if mentions(c, code) {
        let i = choose|i: int| 0 <= i < c.len() && (#[trigger] c[i]).code == code;
        if i < a.len() {
            assert(a[i].code == code);
        } else {
            assert(b[i - a.len()].code == code);
        }
    }
    if mentions(a, code) {
        let i = choose|i: int| 0 <= i < a.len() && (#[trigger] a[i]).code == code;
        assert(c[i].code == code);
    }
    if mentions(b, code) {
        let i = choose|i: int| 0 <= i < b.len() && (#[trigger] b[i]).code == code;
        assert(c[i + a.len()].code == code);
    }
}

proof fn lemma_mentions_few(s: Seq<FindingView>, code: FindingCode)
    ensures
        s.len() == 0 ==> !mentions(s, code),
        s.len() == 1 ==> (mentions(s, code) <==> s[0].code == code),
{
}

/// Some subscriber reports drops.
pub open spec fn some_drops(subs: Seq<TopicEntry>) -> bool {
    exists|i: int| 0 <= i < subs.len() && (#[trigger] subs[i]).message_drops > 0
}

/// Some endpoint's process is not healthy.
pub open spec fn some_unhealthy(rows: Seq<TopicEntry>, processes: Seq<ProcessInfo>) -> bool {
    exists|i: int|
        0 <= i < rows.len() && processes_of(#[trigger] rows[i], processes).len() > 0 && processes_of(
            rows[i],
            processes,
        )[0].state_severity >= UNHEALTHY_SEVERITY
}

proof fn lemma_drop_mentions(m: DropMap, keys: Seq<i64>, subs: Seq<TopicEntry>, now: u64, code: FindingCode)
    ensures
        mentions(drop_findings(m, keys, subs, now), code) <==> (code == FindingCode::MessageDrops
            && some_drops(subs)),
    decreases subs.len(),
{
    let all = drop_findings(m, keys, subs, now);
    if subs.len() > 0 {
        let rest = subs.drop_last();
        let before = drop_findings(m, keys, rest, now);
        lemma_drop_mentions(m, keys, rest, now, code);
        if some_drops(rest) {
            let i = choose|i: int| 0 <= i < rest.len() && (#[trigger] rest[i]).message_drops > 0;
            assert(subs[i].message_drops > 0);
        }
        if some_drops(subs) {
            let i = choose|i: int| 0 <= i < subs.len() && (#[trigger] subs[i]).message_drops > 0;
            if i < rest.len() {
                assert(rest[i].message_drops > 0);
            }
        }
        if subs.last().message_drops > 0 {
            assert(all =~= before + seq![all.last()]);
            lemma_mentions_add(before, seq![all.last()], code);
            lemma_mentions_few(seq![all.last()], code);
            assert(subs[subs.len() - 1].message_drops > 0);
        }
    }
}

proof fn lemma_health_mentions(
    side: Seq<char>,
    rows: Seq<TopicEntry>,
    processes: Seq<ProcessInfo>,
    code: FindingCode,
)
    ensures
        mentions(side_health(side, rows, processes), code) <==> (code == FindingCode::UnhealthyProcess
            && some_unhealthy(rows, processes)),
    decreases rows.len(),
{
    if rows.len() > 0 {
        let rest = rows.drop_last();
        lemma_health_mentions(side, rest, processes, code);
        let last = endpoint_health(side, rows.last(), processes);
        lemma_mentions_add(side_health(side, rest, processes), last, code);
        lemma_mentions_few(last, code);
        if some_unhealthy(rest, processes) {
            let i = choose|i: int|
                0 <= i < rest.len() && processes_of(#[trigger] rest[i], processes).len() > 0
                    && processes_of(rest[i], processes)[0].state_severity >= UNHEALTHY_SEVERITY;
            assert(processes_of(rows[i], processes).len() > 0);
        }
        if some_unhealthy(rows, processes) {
            let i = choose|i: int|
                0 <= i < rows.len() && processes_of(#[trigger] rows[i], processes).len() > 0
                    && processes_of(rows[i], processes)[0].state_severity >= UNHEALTHY_SEVERITY;
            if i < rest.len() {
                assert(processes_of(rest[i], processes).len() > 0);
            }
        }
        if last.len() > 0 {
            assert(processes_of(rows[rows.len() - 1], processes).len() > 0);
        }
    }
}

/// When the snapshot part of a diagnosis has a finding of each code. A missing side is always
/// accompanied by suggestions, and nothing else is; several signatures are always a mismatch.
pub proof fn snapshot_codes(
    sv: TopicSurvey,
    snap: MonitoringSnapshot,
    topic: Seq<char>,
    drops: DropMap,
    now: u64,
    code: FindingCode,
)
    ensures
        mentions(snapshot_findings(sv, snap, topic, drops, now), code) == match code {
            FindingCode::NoPublishersOrSubscribers => sv.publishers@.len() == 0 && sv.subscribers@.len()
                == 0,
            FindingCode::NoPublisher => sv.publishers@.len() == 0 && sv.subscribers@.len() > 0,
            FindingCode::NoSubscriber => sv.publishers@.len() > 0 && sv.subscribers@.len() == 0,
            FindingCode::DidYouMean => sv.publishers@.len() == 0 || sv.subscribers@.len() == 0,
            FindingCode::TypeMetadataMismatch => sv.type_signatures@.len() > 1,
            FindingCode::NoCommonTransport => sv.publishers@.len() > 0 && sv.subscribers@.len() > 0
                && sv.both_sides_advertised && !sv.sides_share_transport,
            FindingCode::ShmDomainSplit => listing(topic_hosts(sv)).len() > 1
                && sv.shm_transport_domains@.len() > 1 && !split_is_noise(sv),
            FindingCode::MessageDrops => some_drops(sv.subscribers@),
            FindingCode::UnhealthyProcess => some_unhealthy(sv.publishers@, snap.processes@)
                || some_unhealthy(sv.subscribers@, snap.processes@),
            FindingCode::MultiplePublishers
            | FindingCode::NoSamplesObserved
            | FindingCode::RateBelowSpec
            | FindingCode::RateAboveSpec => false,
        },
{
    let pubs = sv.publishers@;
    let subs = sv.subscribers@;
    let a = missing_side(pubs, subs);
    let b = mismatch(sv);
    let c = transport_gap(sv);
    let d = domain_split(sv);
    let e = drop_findings(drops, publisher_keys(pubs), subs, now);
    let f = side_health("publisher"@, pubs, snap.processes@);
    let g = side_health("subscriber"@, subs, snap.processes@);
    let h = suggestions(sv, snap, topic);
    lemma_mentions_add(a, b, code);
    lemma_mentions_add(a + b, c, code);
    lemma_mentions_add(a + b + c, d, code);
    lemma_mentions_add(a + b + c + d, e, code);
    lemma_mentions_add(a + b + c + d + e, f, code);
    lemma_mentions_add(a + b + c + d + e + f, g, code);
    lemma_mentions_add(a + b + c + d + e + f + g, h, code);
    lemma_mentions_few(a, code);
    lemma_mentions_few(b, code);
    lemma_mentions_few(c, code);
    lemma_mentions_few(d, code);
    lemma_drop_mentions(drops, publisher_keys(pubs), subs, now, code);
    lemma_health_mentions("publisher"@, pubs, snap.processes@, code);
    lemma_health_mentions("subscriber"@, subs, snap.processes@, code);
    lemma_mentions_few(h, code);
}

/// The last step adds a finding on several publishers exactly where a subscriber hears two or
/// more, one on silence exactly where a window saw nothing although there is a publisher, one on
/// the rate exactly where a measured rate misses its target, and takes no finding away.
pub proof fn final_codes(
    before: Seq<FindingView>,
    pubs: Seq<TopicEntry>,
    subs: Seq<TopicEntry>,
    ratio: Seq<char>,
    samples: Option<u64>,
    duration_ms: u64,
    check: Option<RateCheck>,
    code: FindingCode,
)
    ensures
        mentions(final_findings(before, pubs, subs, ratio, samples, duration_ms, check), code) == (
        mentions(before, code) || match code {
            FindingCode::MultiplePublishers => pubs.len() >= 2 && subs.len() > 0,
            FindingCode::NoSamplesObserved => samples == Some(0u64) && pubs.len() > 0,
            FindingCode::RateBelowSpec => samples is Some && check is Some
                && check->Some_0.delta_direction == DeltaDirection::BelowSpec,
            FindingCode::RateAboveSpec => samples is Some && check is Some
                && check->Some_0.delta_direction == DeltaDirection::AboveSpec,
            _ => false,
        }),
{
    let a = crowd(pubs, subs, ratio);
    let b = silence(samples, duration_ms, pubs.len());
    let c = rate_gap(samples is Some, check);
    let s = before + a + b + c;
    lemma_mentions_add(before, a, code);
    lemma_mentions_add(before + a, b, code);
    lemma_mentions_add(before + a + b, c, code);
    lemma_mentions_few(a, code);
    lemma_mentions_few(b, code);
    lemma_mentions_few(c, code);
    likely_causes_come_first(s);
    let o = ordered(s);
    if mentions(o, code) {
        let i = choose|i: int| 0 <= i < o.len() && (#[trigger] o[i]).code == code;
        assert(o.contains(o[i]));
        let k = choose|k: int| 0 <= k < s.len() && s[k] == o[i];
        assert(s[k].code == code);
    }
    if mentions(s, code) {
        let i = choose|i: int| 0 <= i < s.len() && (#[trigger] s[i]).code == code;
        assert(s.contains(s[i]));
        assert(o.contains(s[i]));
        let k = choose|k: int| 0 <= k < o.len() && o[k] == s[i];
        assert(o[k].code == code);
    }
}

/// A diagnosis that finds a side missing always has suggestions too, and one that does not never
/// has; findings stand in the order of their ranks.
pub proof fn missing_sides_come_with_suggestions(
    sv: TopicSurvey,
    snap: MonitoringSnapshot,
    topic: Seq<char>,
    drops: DropMap,
    now: u64,
    ratio: Seq<char>,
    samples: Option<u64>,
    duration_ms: u64,
    check: Option<RateCheck>,
)
    ensures
        ({
            let f = final_findings(
                snapshot_findings(sv, snap, topic, drops, now),
                sv.publishers@,
                sv.subscribers@,
                ratio,
                samples,
                duration_ms,
                check,
            );
            &&& mentions(f, FindingCode::DidYouMean) <==> (mentions(
                f,
                FindingCode::NoPublishersOrSubscribers,
            ) || mentions(f, FindingCode::NoPublisher) || mentions(f, FindingCode::NoSubscriber))
            &&& forall|i: int, j: int|
                0 <= i < j < f.len() ==> code_order((#[trigger] f[i]).code) <= code_order(
                    (#[trigger] f[j]).code,
                )
        }),
{
    let before = snapshot_findings(sv, snap, topic, drops, now);
    let pubs = sv.publishers@;
    let subs = sv.subscribers@;
    assert forall|code: FindingCode|
        (code is DidYouMean || code is NoPublishersOrSubscribers || code is NoPublisher
            || code is NoSubscriber) implies mentions(
        final_findings(before, pubs, subs, ratio, samples, duration_ms, check),
        code,
    ) == #[trigger] mentions(before, code) by {
        final_codes(before, pubs, subs, ratio, samples, duration_ms, check, code);
    }
    snapshot_codes(sv, snap, topic, drops, now, FindingCode::DidYouMean);
    snapshot_codes(sv, snap, topic, drops, now, FindingCode::NoPublishersOrSubscribers);
    snapshot_codes(sv, snap, topic, drops, now, FindingCode::NoPublisher);
    snapshot_codes(sv, snap, topic, drops, now, FindingCode::NoSubscriber);
    likely_causes_come_first(
        before + crowd(pubs, subs, ratio) + silence(samples, duration_ms, pubs.len()) + rate_gap(
            samples is Some,
            check,
        ),
    );
}

/// While the endpoints of a topic disagree on its type, a diagnosis quotes no type from the live
/// window.
pub proof fn mismatch_hides_live_type(
    sv: TopicSurvey,
    snap: MonitoringSnapshot,
    topic: Seq<char>,
    drops: DropMap,
    now: u64,
    live: Option<WindowStats>,
    r: Option<WindowStats>,
)
    requires
        is_live_part(
            r,
            live,
            mentions(
                snapshot_findings(sv, snap, topic, drops, now),
                FindingCode::TypeMetadataMismatch,
            ),
        ),
    ensures
        sv.type_signatures@.len() > 1 ==> (r matches Some(stats) ==> stats.name is None && stats.encoding is None),
        sv.type_signatures@.len() <= 1 ==> r == live,
{
    snapshot_codes(sv, snap, topic, drops, now, FindingCode::TypeMetadataMismatch);
}

} // verus!
