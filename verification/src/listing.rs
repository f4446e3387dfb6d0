//! Listings of a monitoring snapshot, filtered by name and type.

use vstd::prelude::*;

use crate::entries::{
    are_topic_rows, client_entry, is_client_row, is_process_row, is_service_row, is_topic_row, opt_text,
    process_entry, service_entry, topic_entry, ClientEntry, Direction, ProcessEntry, ServiceEntry,
    TopicEntry,
};
use crate::hosts::{
    are_host_rows, build_hosts, client_places, process_places, service_places, topic_places,
    version_places, HostEntry, Places,
};
use crate::monitoring::{ClientInfo, MonitoringSnapshot, ProcessInfo, ServerInfo, TopicInfo};
use crate::seqs::{filter_all, filter_start, filter_step};
use crate::text::{ascii_lower, contains_run, contains_text, run_at, to_ascii_lowercase};

verus! {

/// `pattern` occurs in `name`, ASCII letter case aside; no pattern fits every name.
pub open spec fn fits_pattern(name: Seq<char>, pattern: Option<Seq<char>>) -> bool {
    match pattern {
        None => true,
        Some(p) => contains_run(ascii_lower(name), ascii_lower(p)),
    }
}

/// Whether a name fits an optional pattern.
pub fn name_matches(haystack: &str, pattern: &Option<String>) -> (r: bool)
    ensures
        r == fits_pattern(haystack@, opt_text(*pattern)),
{
    match pattern {
        None => true,
        Some(p) => {
            let hay = to_ascii_lowercase(haystack);
            let needle = to_ascii_lowercase(p.as_str());
            contains_text(hay.as_str(), needle.as_str())
        },
    }
}

/// The empty pattern is no filter: it fits every name, as does none at all.
pub proof fn empty_pattern_fits_all(name: Seq<char>)
    ensures
        fits_pattern(name, None),
        fits_pattern(name, Some(Seq::empty())),
{
    let needle = ascii_lower(Seq::<char>::empty());
    assert(needle =~= Seq::<char>::empty());
    let hay = ascii_lower(name);
    assert(hay.subrange(0, 0) =~= needle);
    assert(run_at(hay, needle, 0));
}

/// Every name fits itself and each of its parts as a pattern.
pub proof fn parts_fit(name: Seq<char>, i: int, j: int)
    requires
        0 <= i <= j <= name.len(),
    ensures
        fits_pattern(name, Some(name.subrange(i, j))),
{
    let hay = ascii_lower(name);
    let needle = ascii_lower(name.subrange(i, j));
    assert(hay.subrange(i, j) =~= needle);
    assert(run_at(hay, needle, i));
}

/// The letter case of name and pattern does not count.
pub proof fn letter_case_is_ignored(
    name: Seq<char>,
    pattern: Seq<char>,
    other_name: Seq<char>,
    other_pattern: Seq<char>,
)
    requires
        ascii_lower(name) == ascii_lower(other_name),
        ascii_lower(pattern) == ascii_lower(other_pattern),
    ensures
        fits_pattern(name, Some(pattern)) == fits_pattern(other_name, Some(other_pattern)),
{
}

/// What a listing keeps, and whether it shows descriptors.
#[derive(Debug)]
pub struct ListFilter {
    /// Part of the topic, service, unit or process name.
    pub name_pattern: Option<String>,
    /// Part of the type name; for topics only.
    pub type_name_pattern: Option<String>,
    /// Whether to show descriptors; not where left out.
    pub include_descriptors: Option<bool>,
}

impl Default for ListFilter {
    /// Everything, without descriptors.
    fn default() -> (r: ListFilter)
        ensures
            r.name_pattern is None,
            r.type_name_pattern is None,
            r.include_descriptors is None,
    {
        ListFilter { name_pattern: None, type_name_pattern: None, include_descriptors: None }
    }
}

/// Whether descriptors are asked for.
pub open spec fn shows_descriptors(asked: Option<bool>) -> bool {
    asked == Some(true)
}

fn asks_descriptors(asked: &Option<bool>) -> (r: bool)
    ensures
        r == shows_descriptors(*asked),
{
    match asked {
        Some(b) => *b,
        None => false,
    }
}

/// A topic registration that a listing keeps.
pub open spec fn keeps_topic(args: ListFilter, t: TopicInfo) -> bool {
    &&& fits_pattern(t.topic_name@, opt_text(args.name_pattern))
    &&& fits_pattern(t.data_type.name@, opt_text(args.type_name_pattern))
}

/// The topic rows of a listing, in the order of the snapshot.
pub open spec fn lists_topics(r: Seq<TopicEntry>, s: Seq<TopicInfo>, direction: Direction, args: ListFilter) -> bool {
    are_topic_rows(
        r,
        s.filter(|t: TopicInfo| keeps_topic(args, t)),
        direction,
        shows_descriptors(args.include_descriptors),
    )
}

/// Lists the topic registrations that are kept.
pub fn list_topics(registrations: &Vec<TopicInfo>, direction: Direction, args: &ListFilter) -> (r: Vec<TopicEntry>)
    ensures
        lists_topics(r@, registrations@, direction, *args),
{
    let shows = asks_descriptors(&args.include_descriptors);
    let ghost pred = |t: TopicInfo| keeps_topic(*args, t);
    let mut r: Vec<TopicEntry> = Vec::new();
    let mut i: usize = 0;
    proof {
        filter_start(registrations@, pred);
    }
    while i < registrations.len()
        invariant
            i <= registrations.len(),
            shows == shows_descriptors(args.include_descriptors),
            pred == (|t: TopicInfo| keeps_topic(*args, t)),
            are_topic_rows(r@, registrations@.take(i as int).filter(pred), direction, shows),
        decreases registrations.len() - i,
    {
        let t = &registrations[i];
        proof {
            filter_step(registrations@, pred, i as int);
        }
        if name_matches(t.topic_name.as_str(), &args.name_pattern) && name_matches(
            t.data_type.name.as_str(),
            &args.type_name_pattern,
        ) {
            r.push(topic_entry(t, direction, shows));
        }
        i += 1;
    }
    assert(registrations@.take(i as int) =~= registrations@);
    r
}

/// `e` holds one row per server, in order.
pub open spec fn are_service_rows(e: Seq<ServiceEntry>, s: Seq<ServerInfo>, include_descriptors: bool) -> bool {
    &&& e.len() == s.len()
    &&& forall|i: int| 0 <= i < s.len() ==> is_service_row(#[trigger] e[i], s[i], include_descriptors)
}

/// The server rows of a listing, in the order of the snapshot.
pub open spec fn lists_services(r: Seq<ServiceEntry>, s: Seq<ServerInfo>, args: ListFilter) -> bool {
    are_service_rows(
        r,
        s.filter(|s: ServerInfo| fits_pattern(s.service_name@, opt_text(args.name_pattern))),
        shows_descriptors(args.include_descriptors),
    )
}

/// Lists the servers whose service name fits.
pub fn list_services(servers: &Vec<ServerInfo>, args: &ListFilter) -> (r: Vec<ServiceEntry>)
    ensures
        lists_services(r@, servers@, *args),
{
    let shows = asks_descriptors(&args.include_descriptors);
    let ghost pred = |s: ServerInfo| fits_pattern(s.service_name@, opt_text(args.name_pattern));
    let mut r: Vec<ServiceEntry> = Vec::new();
    let mut i: usize = 0;
    proof {
        filter_start(servers@, pred);
    }
    while i < servers.len()
        invariant
            i <= servers.len(),
            pred == (|s: ServerInfo| fits_pattern(s.service_name@, opt_text(args.name_pattern))),
            are_service_rows(r@, servers@.take(i as int).filter(pred), shows),
        decreases servers.len() - i,
    {
        let s = &servers[i];
        proof {
            filter_step(servers@, pred, i as int);
        }
        if name_matches(s.service_name.as_str(), &args.name_pattern) {
            r.push(service_entry(s, shows));
        }
        i += 1;
    }
    assert(servers@.take(i as int) =~= servers@);
    r
}

/// `e` holds one row per client, in order.
pub open spec fn are_client_rows(e: Seq<ClientEntry>, c: Seq<ClientInfo>, include_descriptors: bool) -> bool {
    &&& e.len() == c.len()
    &&& forall|i: int| 0 <= i < c.len() ==> is_client_row(#[trigger] e[i], c[i], include_descriptors)
}

/// The client rows of a listing, in the order of the snapshot.
pub open spec fn lists_clients(r: Seq<ClientEntry>, c: Seq<ClientInfo>, args: ListFilter) -> bool {
    are_client_rows(
        r,
        c.filter(|c: ClientInfo| fits_pattern(c.service_name@, opt_text(args.name_pattern))),
        shows_descriptors(args.include_descriptors),
    )
}

/// Lists the clients whose service name fits.
pub fn list_clients(clients: &Vec<ClientInfo>, args: &ListFilter) -> (r: Vec<ClientEntry>)
    ensures
        lists_clients(r@, clients@, *args),
{
    let shows = asks_descriptors(&args.include_descriptors);
    let ghost pred = |c: ClientInfo| fits_pattern(c.service_name@, opt_text(args.name_pattern));
    let mut r: Vec<ClientEntry> = Vec::new();
    let mut i: usize = 0;
    proof {
        filter_start(clients@, pred);
    }
    while i < clients.len()
        invariant
            i <= clients.len(),
            pred == (|c: ClientInfo| fits_pattern(c.service_name@, opt_text(args.name_pattern))),
            are_client_rows(r@, clients@.take(i as int).filter(pred), shows),
        decreases clients.len() - i,
    {
        let c = &clients[i];
        proof {
            filter_step(clients@, pred, i as int);
        }
        if name_matches(c.service_name.as_str(), &args.name_pattern) {
            r.push(client_entry(c, shows));
        }
        i += 1;
    }
    assert(clients@.take(i as int) =~= clients@);
    r
}

/// `e` holds one row per process, in order.
pub open spec fn are_process_rows(e: Seq<ProcessEntry>, p: Seq<ProcessInfo>) -> bool {
    &&& e.len() == p.len()
    &&& forall|i: int| 0 <= i < p.len() ==> is_process_row(#[trigger] e[i], p[i])
}

/// A process that a listing keeps: its unit or its process name fits.
pub open spec fn keeps_process(args: ListFilter, p: ProcessInfo) -> bool {
    fits_pattern(p.unit_name@, opt_text(args.name_pattern)) || fits_pattern(
        p.process_name@,
        opt_text(args.name_pattern),
    )
}

/// The process rows of a listing, in the order of the snapshot.
pub open spec fn lists_processes(r: Seq<ProcessEntry>, p: Seq<ProcessInfo>, args: ListFilter) -> bool {
    are_process_rows(r, p.filter(|p: ProcessInfo| keeps_process(args, p)))
}

/// Lists the processes that are kept.
pub fn list_processes(processes: &Vec<ProcessInfo>, args: &ListFilter) -> (r: Vec<ProcessEntry>)
    ensures
        lists_processes(r@, processes@, *args),
{
    let ghost pred = |p: ProcessInfo| keeps_process(*args, p);
    let mut r: Vec<ProcessEntry> = Vec::new();
    let mut i: usize = 0;
    proof {
        filter_start(processes@, pred);
    }
    while i < processes.len()
        invariant
            i <= processes.len(),
            pred == (|p: ProcessInfo| keeps_process(*args, p)),
            are_process_rows(r@, processes@.take(i as int).filter(pred)),
        decreases processes.len() - i,
    {
        let p = &processes[i];
        proof {
            filter_step(processes@, pred, i as int);
        }
        if name_matches(p.unit_name.as_str(), &args.name_pattern) || name_matches(
            p.process_name.as_str(),
            &args.name_pattern,
        ) {
            r.push(process_entry(p));
        }
        i += 1;
    }
    assert(processes@.take(i as int) =~= processes@);
    r
}

/// Everything of one snapshot, with the rollup by host.
#[derive(Debug)]
pub struct MonitoringResult {
    pub publishers: Vec<TopicEntry>,
    pub subscribers: Vec<TopicEntry>,
    pub servers: Vec<ServiceEntry>,
    pub clients: Vec<ClientEntry>,
    pub processes: Vec<ProcessEntry>,
    pub hosts: Vec<HostEntry>,
}

/// The places of a snapshot.
pub open spec fn snapshot_places(snap: MonitoringSnapshot) -> Places {
    Places {
        publishers: snap.publishers@.map_values(|t: TopicInfo| (t.host_name@, t.shm_transport_domain@)),
        subscribers: snap.subscribers@.map_values(
            |t: TopicInfo| (t.host_name@, t.shm_transport_domain@),
        ),
        servers: snap.servers@.map_values(|s: ServerInfo| (s.host_name@, s.service_name@)),
        clients: snap.clients@.map_values(|c: ClientInfo| (c.host_name@, c.service_name@)),
        versions: snap.processes@.map_values(|p: ProcessInfo| (p.host_name@, p.runtime_version@)),
        domains: snap.processes@.map_values(|p: ProcessInfo| (p.host_name@, p.shm_transport_domain@)),
    }
}

/// `r` is everything of `snap`, with descriptors where asked for.
pub open spec fn is_whole(r: MonitoringResult, snap: MonitoringSnapshot, include_descriptors: Option<bool>) -> bool {
    let shows = shows_descriptors(include_descriptors);
    &&& are_topic_rows(r.publishers@, snap.publishers@, Direction::Publisher, shows)
    &&& are_topic_rows(r.subscribers@, snap.subscribers@, Direction::Subscriber, shows)
    &&& are_service_rows(r.servers@, snap.servers@, shows)
    &&& are_client_rows(r.clients@, snap.clients@, shows)
    &&& are_process_rows(r.processes@, snap.processes@)
    &&& are_host_rows(r.hosts@, snapshot_places(snap))
}

/// Everything of a snapshot; descriptors where asked for.
pub fn whole_snapshot(snap: &MonitoringSnapshot, include_descriptors: Option<bool>) -> (r: MonitoringResult)
    ensures
        is_whole(r, *snap, include_descriptors),
{
    let all = ListFilter { name_pattern: None, type_name_pattern: None, include_descriptors };
    let publishers = list_topics(&snap.publishers, Direction::Publisher, &all);
    let subscribers = list_topics(&snap.subscribers, Direction::Subscriber, &all);
    let servers = list_services(&snap.servers, &all);
    let clients = list_clients(&snap.clients, &all);
    let processes = list_processes(&snap.processes, &all);
    proof {
        filter_all(snap.publishers@, |t: TopicInfo| keeps_topic(all, t));
        filter_all(snap.subscribers@, |t: TopicInfo| keeps_topic(all, t));
        filter_all(
            snap.servers@,
            |s: ServerInfo| fits_pattern(s.service_name@, opt_text(all.name_pattern)),
        );
        filter_all(
            snap.clients@,
            |c: ClientInfo| fits_pattern(c.service_name@, opt_text(all.name_pattern)),
        );
        filter_all(snap.processes@, |p: ProcessInfo| keeps_process(all, p));
        let p = snapshot_places(*snap);
        assert(topic_places(publishers@) =~= p.publishers);
        assert(topic_places(subscribers@) =~= p.subscribers);
        assert(service_places(servers@) =~= p.servers);
        assert(client_places(clients@) =~= p.clients);
        assert(version_places(processes@) =~= p.versions);
        assert(process_places(snap.processes@) =~= p.domains);
    }
    let hosts = build_hosts(
        publishers.as_slice(),
        subscribers.as_slice(),
        servers.as_slice(),
        clients.as_slice(),
        processes.as_slice(),
        snap.processes.as_slice(),
    );
    MonitoringResult { publishers, subscribers, servers, clients, processes, hosts }
}

/// A listing without patterns shows every registration, as the whole snapshot does.
pub proof fn unfiltered_listing_is_whole(
    r: Seq<TopicEntry>,
    s: Seq<TopicInfo>,
    direction: Direction,
    args: ListFilter,
)
    requires
        lists_topics(r, s, direction, args),
        args.name_pattern is None,
        args.type_name_pattern is None,
    ensures
        are_topic_rows(r, s, direction, shows_descriptors(args.include_descriptors)),
{
    filter_all(s, |t: TopicInfo| keeps_topic(args, t));
}

/// Every row of a listing comes from a registration whose names fit, and every such registration
/// has one.
pub proof fn listings_keep_what_fits(
    r: Seq<TopicEntry>,
    s: Seq<TopicInfo>,
    direction: Direction,
    args: ListFilter,
)
    requires
        lists_topics(r, s, direction, args),
    ensures
        forall|i: int|
            0 <= i < r.len() ==> fits_pattern((#[trigger] r[i]).topic_name@, opt_text(args.name_pattern))
                && fits_pattern(r[i].datatype_information.name@, opt_text(args.type_name_pattern)),
        forall|j: int|
            0 <= j < s.len() && keeps_topic(args, #[trigger] s[j]) ==> exists|i: int|
                0 <= i < r.len() && is_topic_row(
                    #[trigger] r[i],
                    s[j],
                    direction,
                    shows_descriptors(args.include_descriptors),
                ),
{
    let pred = |t: TopicInfo| keeps_topic(args, t);
    let kept = s.filter(pred);
    broadcast use vstd::seq_lib::group_filter_ensures;
    assert forall|i: int| 0 <= i < r.len() implies fits_pattern(
        (#[trigger] r[i]).topic_name@,
        opt_text(args.name_pattern),
    ) && fits_pattern(r[i].datatype_information.name@, opt_text(args.type_name_pattern)) by {
        assert(pred(kept[i]));
    }
    assert forall|j: int| 0 <= j < s.len() && keeps_topic(args, #[trigger] s[j]) implies exists|i: int|
        0 <= i < r.len() && is_topic_row(
            #[trigger] r[i],
            s[j],
            direction,
            shows_descriptors(args.include_descriptors),
        ) by {
        assert(pred(s[j]));
        assert(kept.contains(s[j]));
        let i = choose|i: int| 0 <= i < kept.len() && kept[i] == s[j];
        assert(is_topic_row(r[i], kept[i], direction, shows_descriptors(args.include_descriptors)));
    }
}

} // verus!
