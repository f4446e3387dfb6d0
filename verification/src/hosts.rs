//! Per-host rollup of a monitoring snapshot.

use vstd::prelude::*;

use crate::entries::{ClientEntry, ProcessEntry, ServiceEntry, TopicEntry};
use crate::monitoring::ProcessInfo;
use crate::seqs::{filter_start, filter_step, map_rows, prefix_set_step};
use crate::sort::{insert_text, insert_texts, lists_set, sorted_listing_is_unique, strictly_sorted, texts};
use crate::survey::{pair_of, pairs};
use crate::text::{same_text, text_before, text_order_is_total};

verus! {

/// One host: what is registered on it, and the distinct domains and runtime versions seen there.
#[derive(Debug)]
pub struct HostEntry {
    pub host_name: String,
    pub shm_transport_domains: Vec<String>,
    pub runtime_versions: Vec<String>,
    pub process_count: usize,
    pub publisher_count: usize,
    pub subscriber_count: usize,
    pub server_count: usize,
    pub client_count: usize,
}

/// Hosts and shared-memory domains of topic rows.
pub open spec fn topic_places(rows: Seq<TopicEntry>) -> Seq<(Seq<char>, Seq<char>)> {
    rows.map_values(|e: TopicEntry| (e.host_name@, e.shm_transport_domain@))
}

/// Hosts and names of service rows.
pub open spec fn service_places(rows: Seq<ServiceEntry>) -> Seq<(Seq<char>, Seq<char>)> {
    rows.map_values(|e: ServiceEntry| (e.host_name@, e.service_name@))
}

/// Hosts and names of client rows.
pub open spec fn client_places(rows: Seq<ClientEntry>) -> Seq<(Seq<char>, Seq<char>)> {
    rows.map_values(|e: ClientEntry| (e.host_name@, e.service_name@))
}

/// Hosts and runtime versions of process rows.
pub open spec fn version_places(rows: Seq<ProcessEntry>) -> Seq<(Seq<char>, Seq<char>)> {
    rows.map_values(|e: ProcessEntry| (e.host_name@, e.runtime_version@))
}

/// Hosts and shared-memory domains of registered processes.
pub open spec fn process_places(rows: Seq<ProcessInfo>) -> Seq<(Seq<char>, Seq<char>)> {
    rows.map_values(|e: ProcessInfo| (e.host_name@, e.shm_transport_domain@))
}

/// The hosts of a list of places.
pub open spec fn place_hosts(places: Seq<(Seq<char>, Seq<char>)>) -> Set<Seq<char>> {
    places.map_values(|p: (Seq<char>, Seq<char>)| p.0).to_set()
}

/// How many places are on `host`.
pub open spec fn count_at(places: Seq<(Seq<char>, Seq<char>)>, host: Seq<char>) -> nat {
    places.filter(|p: (Seq<char>, Seq<char>)| p.0 == host).len()
}

/// Where the parts of a snapshot are registered: host and, where it counts, domain or version.
pub struct Places {
    /// Host and domain of each publisher.
    pub publishers: Seq<(Seq<char>, Seq<char>)>,
    /// Host and domain of each subscriber.
    pub subscribers: Seq<(Seq<char>, Seq<char>)>,
    /// Host and name of each service server.
    pub servers: Seq<(Seq<char>, Seq<char>)>,
    /// Host and name of each service client.
    pub clients: Seq<(Seq<char>, Seq<char>)>,
    /// Host and runtime version of each process.
    pub versions: Seq<(Seq<char>, Seq<char>)>,
    /// Host and domain of each process.
    pub domains: Seq<(Seq<char>, Seq<char>)>,
}

/// The places of rows.
pub open spec fn row_places(
    pubs: Seq<TopicEntry>,
    subs: Seq<TopicEntry>,
    services: Seq<ServiceEntry>,
    clients: Seq<ClientEntry>,
    processes: Seq<ProcessEntry>,
    raw_processes: Seq<ProcessInfo>,
) -> Places {
    Places {
        publishers: topic_places(pubs),
        subscribers: topic_places(subs),
        servers: service_places(services),
        clients: client_places(clients),
        versions: version_places(processes),
        domains: process_places(raw_processes),
    }
}

/// All hosts of a snapshot.
pub open spec fn all_hosts(p: Places) -> Set<Seq<char>> {
    place_hosts(p.publishers).union(place_hosts(p.subscribers)).union(place_hosts(p.servers)).union(
        place_hosts(p.clients),
    ).union(place_hosts(p.versions)).union(place_hosts(p.domains))
}

/// The domains seen on `host`: every one that a publisher or subscriber names, and every
/// non-empty one that a process names.
pub open spec fn domains_on(host: Seq<char>, p: Places) -> Set<Seq<char>> {
    Set::new(
        |d: Seq<char>|
            p.publishers.contains((host, d)) || p.subscribers.contains((host, d)) || (d.len() > 0
                && p.domains.contains((host, d))),
    )
}

/// The non-empty runtime versions of the processes on `host`.
pub open spec fn versions_on(host: Seq<char>, p: Places) -> Set<Seq<char>> {
    Set::new(|v: Seq<char>| v.len() > 0 && p.versions.contains((host, v)))
}

/// `h` sums up its host.
pub open spec fn is_host_row(h: HostEntry, p: Places) -> bool {
    &&& h.publisher_count == count_at(p.publishers, h.host_name@)
    &&& h.subscriber_count == count_at(p.subscribers, h.host_name@)
    &&& h.server_count == count_at(p.servers, h.host_name@)
    &&& h.client_count == count_at(p.clients, h.host_name@)
    &&& h.process_count == count_at(p.versions, h.host_name@)
    &&& lists_set(h.shm_transport_domains@, domains_on(h.host_name@, p))
    &&& lists_set(h.runtime_versions@, versions_on(h.host_name@, p))
}

/// The names of a list of host rows.
pub open spec fn host_names(rows: Seq<HostEntry>) -> Seq<Seq<char>> {
    rows.map_values(|h: HostEntry| h.host_name@)
}

/// `rows` has one row per host, in the order of the host names.
pub open spec fn are_host_rows(rows: Seq<HostEntry>, p: Places) -> bool {
    &&& strictly_sorted(host_names(rows))
    &&& host_names(rows).to_set() == all_hosts(p)
    &&& forall|i: int| 0 <= i < rows.len() ==> is_host_row(#[trigger] rows[i], p)
}

fn topic_place(e: &TopicEntry) -> (r: (String, String))
    ensures
        pair_of(r) == (e.host_name@, e.shm_transport_domain@),
{
    (e.host_name.clone(), e.shm_transport_domain.clone())
}

fn service_place(e: &ServiceEntry) -> (r: (String, String))
    ensures
        pair_of(r) == (e.host_name@, e.service_name@),
{
    (e.host_name.clone(), e.service_name.clone())
}

fn client_place(e: &ClientEntry) -> (r: (String, String))
    ensures
        pair_of(r) == (e.host_name@, e.service_name@),
{
    (e.host_name.clone(), e.service_name.clone())
}

fn version_place(e: &ProcessEntry) -> (r: (String, String))
    ensures
        pair_of(r) == (e.host_name@, e.runtime_version@),
{
    (e.host_name.clone(), e.runtime_version.clone())
}

fn process_place(e: &ProcessInfo) -> (r: (String, String))
    ensures
        pair_of(r) == (e.host_name@, e.shm_transport_domain@),
{
    (e.host_name.clone(), e.shm_transport_domain.clone())
}

fn first_text(p: &(String, String)) -> (r: String)
    ensures
        r@ == p.0@,
{
    p.0.clone()
}

/// Adds the hosts of `places` to a sorted set of texts.
fn touch_hosts(list: &mut Vec<String>, places: &Vec<(String, String)>)
    requires
        strictly_sorted(texts(old(list)@)),
    ensures
        lists_set(final(list)@, texts(old(list)@).to_set().union(place_hosts(pairs(places@)))),
{
    let names = map_rows(places.as_slice(), first_text);
    assert(texts(names@) =~= pairs(places@).map_values(|p: (Seq<char>, Seq<char>)| p.0));
    insert_texts(list, &names);
}

fn count_places(places: &Vec<(String, String)>, host: &str) -> (r: usize)
    ensures
        r == count_at(pairs(places@), host@),
{
    let ghost all = pairs(places@);
    let ghost pred = |p: (Seq<char>, Seq<char>)| p.0 == host@;
    let mut r: usize = 0;
    let mut i: usize = 0;
    proof {
        filter_start(all, pred);
    }
    while i < places.len()
        invariant
            i <= places.len(),
            r <= i,
            all == pairs(places@),
            pred == (|p: (Seq<char>, Seq<char>)| p.0 == host@),
            r == all.take(i as int).filter(pred).len(),
        decreases places.len() - i,
    {
        proof {
            filter_step(all, pred, i as int);
        }
        if same_text(places[i].0.as_str(), host) {
            r += 1;
        }
        i += 1;
    }
    assert(all.take(i as int) =~= all);
    r
}

/// Adds the values on `host` to a sorted set of texts, empty ones only where `keep_empty`.
fn add_values(list: &mut Vec<String>, places: &Vec<(String, String)>, host: &str, keep_empty: bool)
    requires
        strictly_sorted(texts(old(list)@)),
    ensures
        lists_set(
            final(list)@,
            texts(old(list)@).to_set().union(
                Set::new(
                    |v: Seq<char>| (keep_empty || v.len() > 0) && pairs(places@).contains((host@, v)),
                ),
            ),
        ),
{
    let ghost base = texts(list@).to_set();
    let ghost all = pairs(places@);
    let mut i: usize = 0;
    assert(base =~= base.union(
        Set::new(|v: Seq<char>| (keep_empty || v.len() > 0) && all.take(0).contains((host@, v))),
    ));
    while i < places.len()
        invariant
            i <= places.len(),
            all == pairs(places@),
            lists_set(
                list@,
                base.union(
                    Set::new(
                        |v: Seq<char>|
                            (keep_empty || v.len() > 0) && all.take(i as int).contains((host@, v)),
                    ),
                ),
            ),
        decreases places.len() - i,
    {
        let ghost seen = Set::new(
            |v: Seq<char>| (keep_empty || v.len() > 0) && all.take(i as int).contains((host@, v)),
        );
        let ghost next = Set::new(
            |v: Seq<char>| (keep_empty || v.len() > 0) && all.take(i + 1).contains((host@, v)),
        );
        let value = places[i].1.as_str();
        proof {
            prefix_set_step(all, i as int);
            assert(all[i as int] == (places@[i as int].0@, value@));
            assert forall|q: (Seq<char>, Seq<char>)| #[trigger] all.take(i + 1).contains(q) <==> (all.take(
                i as int,
            ).contains(q) || q == all[i as int]) by {
                assert(all.take(i + 1).to_set().contains(q) <==> all.take(i + 1).contains(q));
                assert(all.take(i as int).to_set().contains(q) <==> all.take(i as int).contains(q));
            }
        }
        if same_text(places[i].0.as_str(), host) && (keep_empty || !same_text(value, "")) {
            insert_text(list, value);
            proof {
                reveal_strlit("");
                assert(keep_empty || value@.len() > 0) by {
                    if value@.len() == 0 {
                        assert(value@ =~= ""@);
                    }
                }
                assert(base.union(seen).insert(value@) =~= base.union(next));
            }
        } else {
            proof {
                reveal_strlit("");
                assert(base.union(seen) =~= base.union(next));
            }
        }
        i += 1;
    }
    assert(all.take(i as int) =~= all);
}

/// Counts and metadata per host over a whole snapshot.
pub fn build_hosts(
    pubs: &[TopicEntry],
    subs: &[TopicEntry],
    services: &[ServiceEntry],
    clients: &[ClientEntry],
    processes: &[ProcessEntry],
    raw_processes: &[ProcessInfo],
) -> (r: Vec<HostEntry>)
    ensures
        are_host_rows(r@, row_places(pubs@, subs@, services@, clients@, processes@, raw_processes@)),
{
    let ghost places = row_places(pubs@, subs@, services@, clients@, processes@, raw_processes@);
    let pub_places = map_rows(pubs, topic_place);
    let sub_places = map_rows(subs, topic_place);
    let server_places = map_rows(services, service_place);
    let caller_places = map_rows(clients, client_place);
    let run_places = map_rows(processes, version_place);
    let raw_places = map_rows(raw_processes, process_place);
    proof {
        assert(pairs(pub_places@) =~= places.publishers);
        assert(pairs(sub_places@) =~= places.subscribers);
        assert(pairs(server_places@) =~= places.servers);
        assert(pairs(caller_places@) =~= places.clients);
        assert(pairs(run_places@) =~= places.versions);
        assert(pairs(raw_places@) =~= places.domains);
    }
    let mut names: Vec<String> = Vec::new();
    touch_hosts(&mut names, &pub_places);
    touch_hosts(&mut names, &sub_places);
    touch_hosts(&mut names, &server_places);
    touch_hosts(&mut names, &caller_places);
    touch_hosts(&mut names, &run_places);
    touch_hosts(&mut names, &raw_places);
    proof {
        assert(texts(Seq::<String>::empty()).to_set() =~= Set::<Seq<char>>::empty());
        assert(Set::<Seq<char>>::empty().union(place_hosts(pairs(pub_places@))) =~= place_hosts(
            pairs(pub_places@),
        ));
    }
    let mut r: Vec<HostEntry> = Vec::new();
    let mut i: usize = 0;
    while i < names.len()
        invariant
            i <= names.len(),
            r.len() == i,
            pairs(pub_places@) == places.publishers,
            pairs(sub_places@) == places.subscribers,
            pairs(server_places@) == places.servers,
            pairs(caller_places@) == places.clients,
            pairs(run_places@) == places.versions,
            pairs(raw_places@) == places.domains,
            forall|k: int| 0 <= k < i ==> (#[trigger] r@[k]).host_name@ == names@[k]@,
            forall|k: int| 0 <= k < i ==> is_host_row(#[trigger] r@[k], places),
        decreases names.len() - i,
    {
        let host = names[i].as_str();
        let mut domains: Vec<String> = Vec::new();
        add_values(&mut domains, &pub_places, host, true);
        add_values(&mut domains, &sub_places, host, true);
        add_values(&mut domains, &raw_places, host, false);
        let mut versions: Vec<String> = Vec::new();
        add_values(&mut versions, &run_places, host, false);
        proof {
            assert(texts(Seq::<String>::empty()).to_set() =~= Set::<Seq<char>>::empty());
            assert(texts(domains@).to_set() =~= domains_on(host@, places));
            assert(texts(versions@).to_set() =~= versions_on(host@, places));
        }
        r.push(
            HostEntry {
                host_name: host.to_owned(),
                shm_transport_domains: domains,
                runtime_versions: versions,
                process_count: count_places(&run_places, host),
                publisher_count: count_places(&pub_places, host),
                subscriber_count: count_places(&sub_places, host),
                server_count: count_places(&server_places, host),
                client_count: count_places(&caller_places, host),
            },
        );
        i += 1;
    }
    assert(host_names(r@) =~= texts(names@));
    r
}

/// The sum of one count over rows.
pub open spec fn total_count(rows: Seq<HostEntry>, count: spec_fn(HostEntry) -> int) -> int
    decreases rows.len(),
{
    if rows.len() == 0 {
        0
    } else {
        total_count(rows.drop_last(), count) + count(rows.last())
    }
}

/// The sum over hosts of how many places each has.
spec fn total_at(names: Seq<Seq<char>>, places: Seq<(Seq<char>, Seq<char>)>) -> int
    decreases names.len(),
{
    if names.len() == 0 {
        0
    } else {
        total_at(names.drop_last(), places) + count_at(places, names.last())
    }
}

spec fn hits_in(names: Seq<Seq<char>>, host: Seq<char>) -> int
    decreases names.len(),
{
    if names.len() == 0 {
        0
    } else {
        hits_in(names.drop_last(), host) + if names.last() == host {
            1int
        } else {
            0
        }
    }
}

proof fn lemma_hits_absent(names: Seq<Seq<char>>, host: Seq<char>)
    requires
        !names.contains(host),
    ensures
        hits_in(names, host) == 0,
    decreases names.len(),
{
    if names.len() > 0 {
        assert(names[names.len() - 1] == names.last());
        if names.drop_last().contains(host) {
            let k = choose|k: int| 0 <= k < names.drop_last().len() && names.drop_last()[k] == host;
            assert(names[k] == host);
        }
        lemma_hits_absent(names.drop_last(), host);
    }
}

proof fn lemma_hits_once(names: Seq<Seq<char>>, host: Seq<char>)
    requires
        strictly_sorted(names),
        names.contains(host),
    ensures
        hits_in(names, host) == 1,
    decreases names.len(),
{
    let rest = names.drop_last();
    assert(strictly_sorted(rest)) by {
        assert forall|i: int, j: int| 0 <= i < j < rest.len() implies text_before(
            #[trigger] rest[i],
            #[trigger] rest[j],
        ) by {
            assert(text_before(names[i], names[j]));
        }
    }
    if names.last() == host {
        if rest.contains(host) {
            let k = choose|k: int| 0 <= k < rest.len() && rest[k] == host;
            assert(text_before(names[k], names[names.len() - 1]));
            text_order_is_total(host, host);
        }
        lemma_hits_absent(rest, host);
    } else {
        let k = choose|k: int| 0 <= k < names.len() && names[k] == host;
        assert(rest[k] == host);
        lemma_hits_once(rest, host);
    }
}

proof fn lemma_total_step(
    names: Seq<Seq<char>>,
    places: Seq<(Seq<char>, Seq<char>)>,
    p: (Seq<char>, Seq<char>),
)
    ensures
        total_at(names, places.push(p)) == total_at(names, places) + hits_in(names, p.0),
    decreases names.len(),
{
    if names.len() > 0 {
        lemma_total_step(names.drop_last(), places, p);
        reveal(Seq::filter);
        assert(places.push(p).drop_last() =~= places);
    }
}

proof fn lemma_total_empty(names: Seq<Seq<char>>)
    ensures
        total_at(names, Seq::empty()) == 0,
    decreases names.len(),
{
    if names.len() > 0 {
        lemma_total_empty(names.drop_last());
        reveal(Seq::filter);
    }
}

proof fn lemma_total(names: Seq<Seq<char>>, places: Seq<(Seq<char>, Seq<char>)>)
    requires
        strictly_sorted(names),
        forall|i: int| 0 <= i < places.len() ==> names.contains((#[trigger] places[i]).0),
    ensures
        total_at(names, places) == places.len(),
    decreases places.len(),
{
    if places.len() == 0 {
        assert(places =~= Seq::empty());
        lemma_total_empty(names);
    } else {
        let rest = places.drop_last();
        assert forall|i: int| 0 <= i < rest.len() implies names.contains((#[trigger] rest[i]).0) by {
            assert(names.contains(places[i].0));
        }
        lemma_total(names, rest);
        lemma_total_step(names, rest, places.last());
        assert(places =~= rest.push(places.last()));
        assert(names.contains(places[places.len() - 1].0));
        lemma_hits_once(names, places.last().0);
    }
}

proof fn lemma_covered(names: Seq<Seq<char>>, all: Set<Seq<char>>, places: Seq<(Seq<char>, Seq<char>)>)
    requires
        names.to_set() == all,
        forall|h: Seq<char>| #[trigger] place_hosts(places).contains(h) ==> all.contains(h),
    ensures
        forall|i: int| 0 <= i < places.len() ==> names.contains((#[trigger] places[i]).0),
{
    let hosts = places.map_values(|p: (Seq<char>, Seq<char>)| p.0);
    assert forall|i: int| 0 <= i < places.len() implies names.contains((#[trigger] places[i]).0) by {
        assert(hosts[i] == places[i].0);
        assert(hosts.contains(places[i].0));
        assert(place_hosts(places).contains(places[i].0));
        assert(names.to_set().contains(places[i].0));
    }
}

proof fn lemma_total_counts(rows: Seq<HostEntry>, places: Seq<(Seq<char>, Seq<char>)>, count: spec_fn(HostEntry) -> int)
    requires
        forall|i: int| 0 <= i < rows.len() ==> count(#[trigger] rows[i]) == count_at(places, rows[i].host_name@),
    ensures
        total_count(rows, count) == total_at(host_names(rows), places),
    decreases rows.len(),
{
    if rows.len() > 0 {
        let rest = rows.drop_last();
        assert forall|i: int| 0 <= i < rest.len() implies count(#[trigger] rest[i]) == count_at(
            places,
            rest[i].host_name@,
        ) by {
            assert(count(rows[i]) == count_at(places, rows[i].host_name@));
        }
        lemma_total_counts(rest, places, count);
        assert(host_names(rows).drop_last() =~= host_names(rest));
        assert(host_names(rows).last() == rows.last().host_name@);
        assert(count(rows[rows.len() - 1]) == count_at(places, rows[rows.len() - 1].host_name@));
    }
}

/// The rollup loses nothing and counts nothing twice: each count, summed over the hosts, is the
/// number of registrations.
pub proof fn host_counts_add_up(rows: Seq<HostEntry>, p: Places)
    requires
        are_host_rows(rows, p),
    ensures
        total_count(rows, |h: HostEntry| h.publisher_count as int) == p.publishers.len(),
        total_count(rows, |h: HostEntry| h.subscriber_count as int) == p.subscribers.len(),
        total_count(rows, |h: HostEntry| h.server_count as int) == p.servers.len(),
        total_count(rows, |h: HostEntry| h.client_count as int) == p.clients.len(),
        total_count(rows, |h: HostEntry| h.process_count as int) == p.versions.len(),
{
    let names = host_names(rows);
    let all = all_hosts(p);
    lemma_covered(names, all, p.publishers);
    lemma_covered(names, all, p.subscribers);
    lemma_covered(names, all, p.servers);
    lemma_covered(names, all, p.clients);
    lemma_covered(names, all, p.versions);
    lemma_total(names, p.publishers);
    lemma_total(names, p.subscribers);
    lemma_total(names, p.servers);
    lemma_total(names, p.clients);
    lemma_total(names, p.versions);
    lemma_total_counts(rows, p.publishers, |h: HostEntry| h.publisher_count as int);
    lemma_total_counts(rows, p.subscribers, |h: HostEntry| h.subscriber_count as int);
    lemma_total_counts(rows, p.servers, |h: HostEntry| h.server_count as int);
    lemma_total_counts(rows, p.clients, |h: HostEntry| h.client_count as int);
    lemma_total_counts(rows, p.versions, |h: HostEntry| h.process_count as int);
}

/// Two rows of one content.
pub open spec fn same_host_row(a: HostEntry, b: HostEntry) -> bool {
    &&& a.host_name@ == b.host_name@
    &&& texts(a.shm_transport_domains@) == texts(b.shm_transport_domains@)
    &&& texts(a.runtime_versions@) == texts(b.runtime_versions@)
    &&& a.process_count == b.process_count
    &&& a.publisher_count == b.publisher_count
    &&& a.subscriber_count == b.subscriber_count
    &&& a.server_count == b.server_count
    &&& a.client_count == b.client_count
}

/// One snapshot has one rollup.
pub proof fn host_rollup_is_unique(a: Seq<HostEntry>, b: Seq<HostEntry>, p: Places)
    requires
        are_host_rows(a, p),
        are_host_rows(b, p),
    ensures
        a.len() == b.len(),
        forall|i: int| 0 <= i < a.len() ==> same_host_row(#[trigger] a[i], b[i]),
{
    sorted_listing_is_unique(host_names(a), host_names(b));
    assert(host_names(a).len() == host_names(b).len());
    assert forall|i: int| 0 <= i < a.len() implies same_host_row(#[trigger] a[i], b[i]) by {
        assert(host_names(a)[i] == host_names(b)[i]);
        assert(is_host_row(a[i], p) && is_host_row(b[i], p));
        sorted_listing_is_unique(texts(a[i].shm_transport_domains@), texts(b[i].shm_transport_domains@));
        sorted_listing_is_unique(texts(a[i].runtime_versions@), texts(b[i].runtime_versions@));
    }
}

} // verus!
