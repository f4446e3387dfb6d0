//! Findings of a topic diagnosis: codes, severities, order and supporting data.

use vstd::prelude::*;

use crate::entries::opt_text;
use crate::seqs::map_rows;
use crate::sort::{
    class_of, keyed, map_items, sort_items, sorted_by_key, sorted_images, sorting_by_key_is_stable, texts,
    zip_keys,
};

verus! {

/// What a finding says; branch on this.
#[derive(Debug, Clone, Copy, PartialEq, Eq, Structural)]
pub enum FindingCode {
    /// Neither a publisher nor a subscriber is registered.
    NoPublishersOrSubscribers,
    /// Subscribers exist, no publisher is registered.
    NoPublisher,
    /// Publishers exist, no subscriber is registered.
    NoSubscriber,
    /// More than one `(name, encoding)` pair across the endpoints.
    TypeMetadataMismatch,
    /// Both sides have active layers and none in common.
    NoCommonTransport,
    /// Several domains across several hosts, and neither a common transport nor default domains.
    ShmDomainSplit,
    /// A subscriber reports dropped messages.
    MessageDrops,
    /// The process of an endpoint reports a severity of two or more.
    UnhealthyProcess,
    /// The live window saw no sample although a publisher is registered.
    NoSamplesObserved,
    /// Names close to one that is missing; accompanies every missing side.
    DidYouMean,
    /// Two or more publishers on a topic that has a subscriber.
    MultiplePublishers,
    /// The live rate is below the target by more than the tolerance.
    RateBelowSpec,
    /// The live rate is above the target by more than the tolerance.
    RateAboveSpec,
}

/// Triage severity of a finding.
#[derive(Debug, Clone, Copy, PartialEq, Eq, Structural)]
pub enum FindingSeverity {
    Info,
    Warning,
    Error,
}

/// The severity of each code.
pub open spec fn severity_of(code: FindingCode) -> FindingSeverity {
    match code {
        FindingCode::NoPublisher
        | FindingCode::NoSubscriber
        | FindingCode::NoPublishersOrSubscribers
        | FindingCode::TypeMetadataMismatch
        | FindingCode::NoCommonTransport
        | FindingCode::UnhealthyProcess => FindingSeverity::Error,
        FindingCode::DidYouMean => FindingSeverity::Info,
        _ => FindingSeverity::Warning,
    }
}

/// The severity of a code.
pub fn severity_for(code: FindingCode) -> (r: FindingSeverity)
    ensures
        r == severity_of(code),
{
    match code {
        FindingCode::NoPublisher
        | FindingCode::NoSubscriber
        | FindingCode::NoPublishersOrSubscribers
        | FindingCode::TypeMetadataMismatch
        | FindingCode::NoCommonTransport
        | FindingCode::UnhealthyProcess => FindingSeverity::Error,
        FindingCode::MessageDrops
        | FindingCode::MultiplePublishers
        | FindingCode::RateBelowSpec
        | FindingCode::RateAboveSpec
        | FindingCode::NoSamplesObserved
        | FindingCode::ShmDomainSplit => FindingSeverity::Warning,
        FindingCode::DidYouMean => FindingSeverity::Info,
    }
}

/// `error > warning > info`.
pub open spec fn severity_order(s: FindingSeverity) -> int {
    match s {
        FindingSeverity::Error => 2,
        FindingSeverity::Warning => 1,
        FindingSeverity::Info => 0,
    }
}

/// Rank of a severity, used between findings of one code rank only.
pub fn severity_rank(s: FindingSeverity) -> (r: u8)
    ensures
        r == severity_order(s),
{
    match s {
        FindingSeverity::Error => 2,
        FindingSeverity::Warning => 1,
        FindingSeverity::Info => 0,
    }
}

/// Likely root causes first.
pub open spec fn code_order(code: FindingCode) -> int {
    match code {
        FindingCode::NoPublishersOrSubscribers => 0,
        FindingCode::NoPublisher => 1,
        FindingCode::NoSubscriber => 2,
        FindingCode::TypeMetadataMismatch => 3,
        FindingCode::NoCommonTransport => 4,
        FindingCode::UnhealthyProcess => 5,
        FindingCode::MultiplePublishers => 6,
        FindingCode::MessageDrops => 7,
        FindingCode::RateBelowSpec => 8,
        FindingCode::RateAboveSpec => 9,
        FindingCode::NoSamplesObserved => 10,
        FindingCode::ShmDomainSplit => 11,
        FindingCode::DidYouMean => 12,
    }
}

/// Rank of a code, the lowest for what to look at first.
pub fn code_rank(code: FindingCode) -> (r: u8)
    ensures
        r == code_order(code),
{
    match code {
        FindingCode::NoPublishersOrSubscribers => 0,
        FindingCode::NoPublisher => 1,
        FindingCode::NoSubscriber => 2,
        FindingCode::TypeMetadataMismatch => 3,
        FindingCode::NoCommonTransport => 4,
        FindingCode::UnhealthyProcess => 5,
        FindingCode::MultiplePublishers => 6,
        FindingCode::MessageDrops => 7,
        FindingCode::RateBelowSpec => 8,
        FindingCode::RateAboveSpec => 9,
        FindingCode::NoSamplesObserved => 10,
        FindingCode::ShmDomainSplit => 11,
        FindingCode::DidYouMean => 12,
    }
}

/// One signature of a metadata mismatch, with the descriptor of its first endpoint.
#[derive(Debug)]
pub struct SignatureDetail {
    pub name: String,
    pub encoding: String,
    pub descriptor_fingerprint: Option<String>,
    pub descriptor_len: usize,
    pub publisher_count: usize,
    pub subscriber_count: usize,
    pub publisher_topic_ids: Vec<i64>,
    pub subscriber_topic_ids: Vec<i64>,
}

/// The subscriber that drops, and how its counter moved since it was last seen.
#[derive(Debug)]
pub struct DropsDetail {
    pub host_name: String,
    pub unit_name: String,
    pub process_id: i32,
    pub topic_id: i64,
    pub message_drops: i32,
    pub drops_since_last_snapshot: Option<i32>,
    /// Time since the counter was last seen, in nanoseconds.
    pub window_ns: Option<u64>,
}

/// The endpoint and its unhealthy process.
#[derive(Debug)]
pub struct ProcessDetail {
    pub side: String,
    pub host_name: String,
    pub unit_name: String,
    pub process_id: i32,
    pub topic_id: i64,
    pub state_severity: i32,
    pub state_severity_level: i32,
    pub state_info: String,
}

/// One of several publishers.
#[derive(Debug)]
pub struct PublisherDetail {
    pub host_name: String,
    pub unit_name: String,
    pub process_id: i32,
    pub topic_id: i64,
    pub registered_data_frequency_mhz: i32,
    pub data_clock: i64,
}

/// Sides on which a suggested name is registered.
#[derive(Debug, Clone, Copy, PartialEq, Eq, Structural)]
pub enum CandidateSide {
    Both,
    Publisher,
    Subscriber,
    Unknown,
}

/// One suggested name.
#[derive(Debug)]
pub struct CandidateDetail {
    pub topic_name: String,
    pub score: i128,
    pub direction: CandidateSide,
    pub occurrences: u128,
    pub host_names: Vec<String>,
    /// Highest registered rate, in millihertz.
    pub registered_data_frequency_mhz: i32,
}

/// The suggestions for a missing name.
#[derive(Debug)]
pub struct SuggestionsDetail {
    pub suggestion: Option<String>,
    pub candidates: Vec<CandidateDetail>,
}

/// Where a measured rate stands relative to its target.
#[derive(Debug, Clone, Copy, PartialEq, Eq, Structural)]
pub enum DeltaDirection {
    OnSpec,
    BelowSpec,
    AboveSpec,
}

/// Supporting data of a finding.
#[derive(Debug)]
pub enum FindingDetail {
    Signatures(Vec<SignatureDetail>),
    Domains { host_count: usize, shm_transport_domains: Vec<String> },
    Drops(DropsDetail),
    Process(ProcessDetail),
    /// The extremes are the highest and the lowest positive rate, in millihertz.
    Publishers {
        publishers: Vec<PublisherDetail>,
        rate_extremes_mhz: Option<(i32, i32)>,
        host_divergence: bool,
    },
    Suggestions(SuggestionsDetail),
    NoSamples { duration_ms: u64, publisher_count: usize },
    Rate { delta_direction: DeltaDirection },
}

/// One finding.
#[derive(Debug)]
pub struct Finding {
    pub code: FindingCode,
    pub severity: FindingSeverity,
    pub message: String,
    pub detail: Option<FindingDetail>,
}

/// Content of a `SignatureDetail`.
pub struct SignatureView {
    pub name: Seq<char>,
    pub encoding: Seq<char>,
    pub descriptor_fingerprint: Option<Seq<char>>,
    pub descriptor_len: nat,
    pub publisher_count: nat,
    pub subscriber_count: nat,
    pub publisher_topic_ids: Seq<i64>,
    pub subscriber_topic_ids: Seq<i64>,
}

/// Content of a `DropsDetail`.
pub struct DropsView {
    pub host_name: Seq<char>,
    pub unit_name: Seq<char>,
    pub process_id: i32,
    pub topic_id: i64,
    pub message_drops: i32,
    pub drops_since_last_snapshot: Option<int>,
    pub window_ns: Option<int>,
}

/// Content of a `ProcessDetail`.
pub struct ProcessView {
    pub side: Seq<char>,
    pub host_name: Seq<char>,
    pub unit_name: Seq<char>,
    pub process_id: i32,
    pub topic_id: i64,
    pub state_severity: i32,
    pub state_severity_level: i32,
    pub state_info: Seq<char>,
}

/// Content of a `PublisherDetail`.
pub struct PublisherView {
    pub host_name: Seq<char>,
    pub unit_name: Seq<char>,
    pub process_id: i32,
    pub topic_id: i64,
    pub registered_data_frequency_mhz: i32,
    pub data_clock: i64,
}

/// Content of a `CandidateDetail`.
pub struct CandidateView {
    pub topic_name: Seq<char>,
    pub score: int,
    pub direction: CandidateSide,
    pub occurrences: nat,
    pub host_names: Seq<Seq<char>>,
    pub registered_data_frequency_mhz: int,
}

/// Content of a `SuggestionsDetail`.
pub struct SuggestionsView {
    pub suggestion: Option<Seq<char>>,
    pub candidates: Seq<CandidateView>,
}

/// Content of a `FindingDetail`.
pub enum DetailView {
    Signatures(Seq<SignatureView>),
    Domains { host_count: nat, shm_transport_domains: Seq<Seq<char>> },
    Drops(DropsView),
    Process(ProcessView),
    Publishers {
        publishers: Seq<PublisherView>,
        rate_extremes_mhz: Option<(i32, i32)>,
        host_divergence: bool,
    },
    Suggestions(SuggestionsView),
    NoSamples { duration_ms: u64, publisher_count: nat },
    Rate { delta_direction: DeltaDirection },
}

/// The content of a finding.
pub struct FindingView {
    pub code: FindingCode,
    pub severity: FindingSeverity,
    pub message: Seq<char>,
    pub detail: Option<DetailView>,
}

impl View for SignatureDetail {
    type V = SignatureView;

    open spec fn view(&self) -> SignatureView {
        SignatureView {
            name: self.name@,
            encoding: self.encoding@,
            descriptor_fingerprint: opt_text(self.descriptor_fingerprint),
            descriptor_len: self.descriptor_len as nat,
            publisher_count: self.publisher_count as nat,
            subscriber_count: self.subscriber_count as nat,
            publisher_topic_ids: self.publisher_topic_ids@,
            subscriber_topic_ids: self.subscriber_topic_ids@,
        }
    }
}

impl View for DropsDetail {
    type V = DropsView;

    open spec fn view(&self) -> DropsView {
        DropsView {
            host_name: self.host_name@,
            unit_name: self.unit_name@,
            process_id: self.process_id,
            topic_id: self.topic_id,
            message_drops: self.message_drops,
            drops_since_last_snapshot: match self.drops_since_last_snapshot {
                Some(n) => Some(n as int),
                None => None,
            },
            window_ns: match self.window_ns {
                Some(n) => Some(n as int),
                None => None,
            },
        }
    }
}

impl View for ProcessDetail {
    type V = ProcessView;

    open spec fn view(&self) -> ProcessView {
        ProcessView {
            side: self.side@,
            host_name: self.host_name@,
            unit_name: self.unit_name@,
            process_id: self.process_id,
            topic_id: self.topic_id,
            state_severity: self.state_severity,
            state_severity_level: self.state_severity_level,
            state_info: self.state_info@,
        }
    }
}

impl View for PublisherDetail {
    type V = PublisherView;

    open spec fn view(&self) -> PublisherView {
        PublisherView {
            host_name: self.host_name@,
            unit_name: self.unit_name@,
            process_id: self.process_id,
            topic_id: self.topic_id,
            registered_data_frequency_mhz: self.registered_data_frequency_mhz,
            data_clock: self.data_clock,
        }
    }
}

impl View for CandidateDetail {
    type V = CandidateView;

    open spec fn view(&self) -> CandidateView {
        CandidateView {
            topic_name: self.topic_name@,
            score: self.score as int,
            direction: self.direction,
            occurrences: self.occurrences as nat,
            host_names: texts(self.host_names@),
            registered_data_frequency_mhz: self.registered_data_frequency_mhz as int,
        }
    }
}

impl View for SuggestionsDetail {
    type V = SuggestionsView;

    open spec fn view(&self) -> SuggestionsView {
        SuggestionsView {
            suggestion: opt_text(self.suggestion),
            candidates: self.candidates@.map_values(|c: CandidateDetail| c@),
        }
    }
}

impl View for FindingDetail {
    type V = DetailView;

    open spec fn view(&self) -> DetailView {
        match *self {
            FindingDetail::Signatures(rows) => DetailView::Signatures(
                rows@.map_values(|s: SignatureDetail| s@),
            ),
            FindingDetail::Domains { host_count, shm_transport_domains } => DetailView::Domains {
                host_count: host_count as nat,
                shm_transport_domains: texts(shm_transport_domains@),
            },
            FindingDetail::Drops(d) => DetailView::Drops(d@),
            FindingDetail::Process(p) => DetailView::Process(p@),
            FindingDetail::Publishers { publishers, rate_extremes_mhz, host_divergence } => {
                DetailView::Publishers {
                    publishers: publishers@.map_values(|p: PublisherDetail| p@),
                    rate_extremes_mhz,
                    host_divergence,
                }
            },
            FindingDetail::Suggestions(s) => DetailView::Suggestions(s@),
            FindingDetail::NoSamples { duration_ms, publisher_count } => DetailView::NoSamples {
                duration_ms,
                publisher_count: publisher_count as nat,
            },
            FindingDetail::Rate { delta_direction } => DetailView::Rate { delta_direction },
        }
    }
}

impl View for Finding {
    type V = FindingView;

    open spec fn view(&self) -> FindingView {
        FindingView {
            code: self.code,
            severity: self.severity,
            message: self.message@,
            detail: match self.detail {
                Some(d) => Some(d@),
                None => None,
            },
        }
    }
}

/// The contents of a list of findings.
pub open spec fn finding_views(v: Seq<Finding>) -> Seq<FindingView> {
    v.map_values(|f: Finding| f@)
}

/// A finding with the severity of its code.
pub open spec fn found(code: FindingCode, message: Seq<char>, detail: Option<DetailView>) -> FindingView {
    FindingView { code, severity: severity_of(code), message, detail }
}

/// Makes a finding with the severity of its code.
pub fn finding(code: FindingCode, message: String, detail: Option<FindingDetail>) -> (r: Finding)
    ensures
        r@.code == code,
        r@.severity == severity_of(code),
        r@.message == message@,
        r@.detail == (match detail {
            Some(d) => Some(d@),
            None => None,
        }),
{
    Finding { code, severity: severity_for(code), message, detail }
}

/// Position of a finding: by code rank, and the more severe first within one rank.
pub open spec fn position(f: FindingView) -> i128 {
    (code_order(f.code) * 3 + (2 - severity_order(f.severity))) as i128
}

/// Findings in their final order; those of one position stay in the order in which they came.
pub open spec fn ordered(s: Seq<FindingView>) -> Seq<FindingView> {
    sorted_by_key(s, |f: FindingView| position(f))
}

fn rank_of(f: &Finding) -> (r: i128)
    ensures
        r == position(f@),
{
    code_rank(f.code) as i128 * 3 + (2 - severity_rank(f.severity) as i128)
}

/// Sorts findings by likely root cause, with the severity as tiebreaker.
pub fn sort_findings(findings: Vec<Finding>) -> (r: Vec<Finding>)
    ensures
        finding_views(r@) == ordered(finding_views(findings@)),
{
    let ranks = map_rows(findings.as_slice(), rank_of);
    let items = zip_keys(ranks, findings);
    proof {
        let key = |f: FindingView| position(f);
        assert(map_items(items@, |f: Finding| f@) =~= keyed(finding_views(findings@), key));
        sorted_images(items@, |f: Finding| f@, finding_views(findings@), key);
    }
    sort_items(items)
}

/// The findings of one position.
pub open spec fn at_position(s: Seq<FindingView>, k: i128) -> Seq<FindingView> {
    class_of(s, |f: FindingView| position(f), k)
}

/// Sorting findings puts lower code ranks first and, within one rank, the more severe first; of
/// one position all are kept, in the order in which they came.
pub proof fn likely_causes_come_first(s: Seq<FindingView>)
    ensures
        ordered(s).len() == s.len(),
        ordered(s).to_multiset() == s.to_multiset(),
        forall|i: int, j: int|
            0 <= i < j < ordered(s).len() ==> {
                let a = #[trigger] ordered(s)[i];
                let b = #[trigger] ordered(s)[j];
                code_order(a.code) < code_order(b.code) || (code_order(a.code) == code_order(b.code)
                    && severity_order(a.severity) >= severity_order(b.severity))
            },
        forall|k: i128| #[trigger] at_position(ordered(s), k) == at_position(s, k),
        forall|f: FindingView| #[trigger] ordered(s).contains(f) <==> s.contains(f),
{
    let key = |f: FindingView| position(f);
    sorting_by_key_is_stable(s, key);
    let o = ordered(s);
    assert forall|i: int, j: int| 0 <= i < j < o.len() implies {
        let a = #[trigger] o[i];
        let b = #[trigger] o[j];
        code_order(a.code) < code_order(b.code) || (code_order(a.code) == code_order(b.code)
            && severity_order(a.severity) >= severity_order(b.severity))
    } by {
        assert(key(sorted_by_key(s, key)[i]) <= key(sorted_by_key(s, key)[j]));
    }
    assert forall|k: i128| #[trigger] at_position(o, k) == at_position(s, k) by {
        assert(class_of(sorted_by_key(s, key), key, k) == class_of(s, key, k));
    }
}

} // verus!
