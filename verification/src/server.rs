//! The tools that work on a monitoring snapshot, and the state that they keep between calls.

use vstd::prelude::*;

use crate::checks::crowd;
use crate::diagnose::{begin_diagnosis, is_first_step, TopicDiagnosis};
use crate::drops::{remembered, DropKey, DropMap, DropsCache};
use crate::entries::{ClientEntry, Direction, ProcessEntry, ServiceEntry, TopicEntry};
use crate::hosts::{are_host_rows, host_rollup_is_unique, same_host_row, HostEntry};
use crate::listing::{
    is_whole, list_clients, list_processes, list_services, list_topics, lists_clients,
    lists_processes, lists_services, lists_topics, snapshot_places, whole_snapshot, ListFilter,
    MonitoringResult,
};
use crate::logs::{filter_logs, lists_messages, GetLogsArgs, LogEntry};
use crate::measure::{
    are_stats_of, measurable, stats_window, window_length, window_stats, WindowAcc, WindowStats,
    DEFAULT_STATS_MS,
};
use crate::monitoring::{LogMessage, MonitoringSnapshot};
use crate::survey::{
    are_echo_rows, collect_echoed_publishers, is_survey, of_topic, EchoedPublisher, TopicSurvey,
};

verus! {

/// Publisher rows.
#[derive(Debug)]
pub struct PublishersResult {
    pub publishers: Vec<TopicEntry>,
}

/// Subscriber rows.
#[derive(Debug)]
pub struct SubscribersResult {
    pub subscribers: Vec<TopicEntry>,
}

/// Service server rows.
#[derive(Debug)]
pub struct ServicesResult {
    pub services: Vec<ServiceEntry>,
}

/// Service client rows.
#[derive(Debug)]
pub struct ServiceClientsResult {
    pub clients: Vec<ClientEntry>,
}

/// Process rows.
#[derive(Debug)]
pub struct ProcessesResult {
    pub processes: Vec<ProcessEntry>,
}

/// Host rows.
#[derive(Debug)]
pub struct HostsResult {
    pub hosts: Vec<HostEntry>,
}

/// Log rows.
#[derive(Debug)]
pub struct LogsResult {
    pub logs: Vec<LogEntry>,
}

/// What a whole snapshot shows.
#[derive(Debug)]
pub struct GetMonitoringArgs {
    /// Whether to show descriptors; not where left out.
    pub include_descriptors: Option<bool>,
}

/// A rate measurement that is asked for.
#[derive(Debug)]
pub struct TopicStatsArgs {
    pub topic_name: String,
    /// Window in milliseconds; 2000 where left out, never more than 60000.
    pub duration_ms: Option<u64>,
}

/// What a rate measurement came to.
#[derive(Debug)]
pub struct TopicStats {
    pub topic_name: String,
    pub duration_ms: u64,
    pub window: WindowStats,
    /// The publishers, where there are two or more.
    pub publishers: Option<Vec<EchoedPublisher>>,
}

/// `r` is what a rate measurement comes to: what the window received and, where a topic has
/// several publishers, who they are.
pub open spec fn is_topic_stats(
    r: TopicStats,
    snap: MonitoringSnapshot,
    args: TopicStatsArgs,
    acc: WindowAcc,
) -> bool {
    &&& r.topic_name@ == args.topic_name@
    &&& r.duration_ms == window_length(args.duration_ms, DEFAULT_STATS_MS)
    &&& are_stats_of(r.window, acc)
    &&& r.publishers is Some <==> of_topic(snap.publishers@, args.topic_name@).len() >= 2
    &&& r.publishers matches Some(rows) ==> are_echo_rows(
        rows@,
        of_topic(snap.publishers@, args.topic_name@),
    )
}

/// The tools. Between calls only the drop counters of subscribers are kept.
#[derive(Debug)]
pub struct EcalServer {
    drops_cache: DropsCache,
}

impl EcalServer {
    /// The remembered drop counters.
    pub closed spec fn drops(self) -> DropMap {
        self.drops_cache@
    }

    /// Nothing seen yet.
    pub fn new() -> (r: EcalServer)
        ensures
            r.drops() == Map::<DropKey, (i32, u64)>::empty(),
    {
        EcalServer { drops_cache: DropsCache::new() }
    }

    /// The publishers whose topic and type names fit.
    pub fn ecal_list_publishers(&self, snap: &MonitoringSnapshot, args: &ListFilter) -> (r: PublishersResult)
        ensures
            lists_topics(r.publishers@, snap.publishers@, Direction::Publisher, *args),
    {
        PublishersResult { publishers: list_topics(&snap.publishers, Direction::Publisher, args) }
    }

    /// The subscribers whose topic and type names fit.
    pub fn ecal_list_subscribers(&self, snap: &MonitoringSnapshot, args: &ListFilter) -> (r: SubscribersResult)
        ensures
            lists_topics(r.subscribers@, snap.subscribers@, Direction::Subscriber, *args),
    {
        SubscribersResult { subscribers: list_topics(&snap.subscribers, Direction::Subscriber, args) }
    }

    /// The service servers whose service name fits.
    pub fn ecal_list_services(&self, snap: &MonitoringSnapshot, args: &ListFilter) -> (r: ServicesResult)
        ensures
            lists_services(r.services@, snap.servers@, *args),
    {
        ServicesResult { services: list_services(&snap.servers, args) }
    }

    /// The service clients whose service name fits.
    pub fn ecal_list_service_clients(&self, snap: &MonitoringSnapshot, args: &ListFilter) -> (r: ServiceClientsResult)
        ensures
            lists_clients(r.clients@, snap.clients@, *args),
    {
        ServiceClientsResult { clients: list_clients(&snap.clients, args) }
    }

    /// The processes whose unit or process name fits.
    pub fn ecal_list_processes(&self, snap: &MonitoringSnapshot, args: &ListFilter) -> (r: ProcessesResult)
        ensures
            lists_processes(r.processes@, snap.processes@, *args),
    {
        ProcessesResult { processes: list_processes(&snap.processes, args) }
    }

    /// The rollup by host of the whole snapshot, whatever the filter.
    pub fn ecal_list_hosts(&self, snap: &MonitoringSnapshot, _args: &ListFilter) -> (r: HostsResult)
        ensures
            are_host_rows(r.hosts@, snapshot_places(*snap)),
    {
        HostsResult { hosts: whole_snapshot(snap, None).hosts }
    }

    /// Everything of the snapshot.
    pub fn ecal_get_monitoring(&self, snap: &MonitoringSnapshot, args: &GetMonitoringArgs) -> (r: MonitoringResult)
        ensures
            is_whole(r, *snap, args.include_descriptors),
    {
        whole_snapshot(snap, args.include_descriptors)
    }

    /// The drained log messages that are severe and recent enough and whose process name fits.
    pub fn ecal_get_logs(&self, logs: &Vec<LogMessage>, args: &GetLogsArgs) -> (r: LogsResult)
        ensures
            lists_messages(r.logs@, logs@, *args),
    {
        LogsResult { logs: filter_logs(logs, args) }
    }

    /// A rate measurement: the window and, where a topic has several publishers, who they are.
    pub fn ecal_topic_stats(&self, snap: &MonitoringSnapshot, args: &TopicStatsArgs, acc: WindowAcc) -> (r: TopicStats)
        requires
            measurable(acc.timestamps@, acc.sizes@),
        ensures
            is_topic_stats(r, *snap, *args, acc),
    {
        TopicStats {
            topic_name: args.topic_name.clone(),
            duration_ms: stats_window(args.duration_ms),
            window: window_stats(acc),
            publishers: collect_echoed_publishers(snap, args.topic_name.as_str()),
        }
    }

    /// First step of a diagnosis: what `snap` says of `topic`, and how the drop counters moved
    /// since they were last looked at. `now` is the reading of a clock that does not run
    /// backwards, in nanoseconds.
    pub fn ecal_diagnose_topic(&mut self, snap: &MonitoringSnapshot, topic: &str, now: u64) -> (r: TopicDiagnosis)
        ensures
            is_first_step(r, *snap, topic@, now, old(self).drops(), final(self).drops()),
    {
        begin_diagnosis(&mut self.drops_cache, snap, topic, now)
    }
}

/// The host roster of a whole snapshot is the one that the host listing gives.
pub proof fn host_listings_agree(a: HostsResult, b: MonitoringResult, snap: MonitoringSnapshot)
    requires
        are_host_rows(a.hosts@, snapshot_places(snap)),
        are_host_rows(b.hosts@, snapshot_places(snap)),
    ensures
        a.hosts@.len() == b.hosts@.len(),
        forall|i: int|
            0 <= i < a.hosts@.len() ==> same_host_row(#[trigger] a.hosts@[i], b.hosts@[i]),
{
    host_rollup_is_unique(a.hosts@, b.hosts@, snapshot_places(snap));
}

/// Where a diagnosis speaks of several publishers, a rate measurement on the same snapshot names
/// them.
pub proof fn crowds_are_echoed(
    sv: TopicSurvey,
    snap: MonitoringSnapshot,
    topic: Seq<char>,
    ratio: Seq<char>,
    stats: TopicStats,
)
    requires
        is_survey(sv, snap, topic),
        stats.publishers is Some <==> of_topic(snap.publishers@, topic).len() >= 2,
    ensures
        crowd(sv.publishers@, sv.subscribers@, ratio).len() > 0 ==> stats.publishers is Some,
{
}

} // verus!
