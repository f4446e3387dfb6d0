//! Laws of the whole snapshot and of its rollup by host.

use vstd::prelude::*;

use crate::entries::{opt_text, Direction};
use crate::hosts::{are_host_rows, count_at, host_names, is_host_row, place_hosts, HostEntry};
use crate::listing::{
    fits_pattern, is_whole, keeps_process, keeps_topic, lists_clients, lists_processes,
    lists_services, lists_topics, snapshot_places, ListFilter, MonitoringResult,
};
use crate::monitoring::{ClientInfo, MonitoringSnapshot, ProcessInfo, ServerInfo, TopicInfo};
use crate::seqs::filter_all;
use crate::sort::{strictly_sorted, texts};

verus! {

/// The whole snapshot shows what listings without a pattern show.
pub proof fn whole_snapshot_is_all_listings(
    r: MonitoringResult,
    snap: MonitoringSnapshot,
    include_descriptors: Option<bool>,
    args: ListFilter,
)
    requires
        is_whole(r, snap, include_descriptors),
        args.name_pattern is None,
        args.type_name_pattern is None,
        args.include_descriptors == include_descriptors,
    ensures
        lists_topics(r.publishers@, snap.publishers@, Direction::Publisher, args),
        lists_topics(r.subscribers@, snap.subscribers@, Direction::Subscriber, args),
        lists_services(r.servers@, snap.servers@, args),
        lists_clients(r.clients@, snap.clients@, args),
        lists_processes(r.processes@, snap.processes@, args),
        r.publishers@.len() == snap.publishers@.len(),
        r.subscribers@.len() == snap.subscribers@.len(),
        r.servers@.len() == snap.servers@.len(),
        r.clients@.len() == snap.clients@.len(),
        r.processes@.len() == snap.processes@.len(),
        are_host_rows(r.hosts@, snapshot_places(snap)),
{
    filter_all(snap.publishers@, |t: TopicInfo| keeps_topic(args, t));
    filter_all(snap.subscribers@, |t: TopicInfo| keeps_topic(args, t));
    filter_all(
        snap.servers@,
        |s: ServerInfo| fits_pattern(s.service_name@, opt_text(args.name_pattern)),
    );
    filter_all(
        snap.clients@,
        |c: ClientInfo| fits_pattern(c.service_name@, opt_text(args.name_pattern)),
    );
    filter_all(snap.processes@, |p: ProcessInfo| keeps_process(args, p));
}

proof fn lemma_count<T>(
    s: Seq<T>,
    place: spec_fn(T) -> (Seq<char>, Seq<char>),
    host: Seq<char>,
    pred: spec_fn(T) -> bool,
)
    requires
        forall|t: T| #[trigger] pred(t) <==> place(t).0 == host,
    ensures
        count_at(s.map_values(place), host) == s.filter(pred).len(),
    decreases s.len(),
{
    reveal(Seq::filter);
    let p = s.map_values(place);
    if s.len() > 0 {
        lemma_count(s.drop_last(), place, host, pred);
        assert(p.drop_last() =~= s.drop_last().map_values(place));
        assert(p.last() == place(s.last()));
        assert(pred(s.last()) <==> place(s.last()).0 == host);
    }
}

/// The counts of a host row are the numbers of registrations of each kind whose host it is.
pub proof fn host_rows_count_registrations(rows: Seq<HostEntry>, snap: MonitoringSnapshot, i: int)
    requires
        are_host_rows(rows, snapshot_places(snap)),
        0 <= i < rows.len(),
    ensures
        rows[i].publisher_count == snap.publishers@.filter(
            |t: TopicInfo| t.host_name@ == rows[i].host_name@,
        ).len(),
        rows[i].subscriber_count == snap.subscribers@.filter(
            |t: TopicInfo| t.host_name@ == rows[i].host_name@,
        ).len(),
        rows[i].server_count == snap.servers@.filter(
            |s: ServerInfo| s.host_name@ == rows[i].host_name@,
        ).len(),
        rows[i].client_count == snap.clients@.filter(
            |c: ClientInfo| c.host_name@ == rows[i].host_name@,
        ).len(),
        rows[i].process_count == snap.processes@.filter(
            |p: ProcessInfo| p.host_name@ == rows[i].host_name@,
        ).len(),
{
    let h = rows[i].host_name@;
    assert(is_host_row(rows[i], snapshot_places(snap)));
    let topic = |t: TopicInfo| (t.host_name@, t.shm_transport_domain@);
    let server = |s: ServerInfo| (s.host_name@, s.service_name@);
    let client = |c: ClientInfo| (c.host_name@, c.service_name@);
    let version = |p: ProcessInfo| (p.host_name@, p.runtime_version@);
    lemma_count(snap.publishers@, topic, h, |t: TopicInfo| t.host_name@ == rows[i].host_name@);
    lemma_count(snap.subscribers@, topic, h, |t: TopicInfo| t.host_name@ == rows[i].host_name@);
    lemma_count(snap.servers@, server, h, |s: ServerInfo| s.host_name@ == rows[i].host_name@);
    lemma_count(snap.clients@, client, h, |c: ClientInfo| c.host_name@ == rows[i].host_name@);
    lemma_count(snap.processes@, version, h, |p: ProcessInfo| p.host_name@ == rows[i].host_name@);
}

/// A publisher or subscriber of `s` is on `host` and names domain `d`.
pub open spec fn names_domain(s: Seq<TopicInfo>, host: Seq<char>, d: Seq<char>) -> bool {
    exists|j: int|
        0 <= j < s.len() && (#[trigger] s[j]).host_name@ == host && s[j].shm_transport_domain@ == d
}

/// A process of `s` is on `host` and names domain `d`.
pub open spec fn process_names_domain(s: Seq<ProcessInfo>, host: Seq<char>, d: Seq<char>) -> bool {
    exists|j: int|
        0 <= j < s.len() && (#[trigger] s[j]).host_name@ == host && s[j].shm_transport_domain@ == d
}

/// A process of `s` is on `host` and runs version `v`.
pub open spec fn process_runs(s: Seq<ProcessInfo>, host: Seq<char>, v: Seq<char>) -> bool {
    exists|j: int| 0 <= j < s.len() && (#[trigger] s[j]).host_name@ == host && s[j].runtime_version@ == v
}

/// A host row lists, in order and once each, the domains that a publisher or subscriber on the
/// host names and those that a process on it names if not empty, and the versions that processes
/// on it run if not empty.
pub proof fn host_rows_list_domains_and_versions(
    rows: Seq<HostEntry>,
    snap: MonitoringSnapshot,
    i: int,
    x: Seq<char>,
)
    requires
        are_host_rows(rows, snapshot_places(snap)),
        0 <= i < rows.len(),
    ensures
        strictly_sorted(texts(rows[i].shm_transport_domains@)),
        strictly_sorted(texts(rows[i].runtime_versions@)),
        texts(rows[i].shm_transport_domains@).contains(x) <==> names_domain(
            snap.publishers@,
            rows[i].host_name@,
            x,
        ) || names_domain(snap.subscribers@, rows[i].host_name@, x) || (x.len() > 0
            && process_names_domain(snap.processes@, rows[i].host_name@, x)),
        texts(rows[i].runtime_versions@).contains(x) <==> x.len() > 0 && process_runs(
            snap.processes@,
            rows[i].host_name@,
            x,
        ),
{
    let p = snapshot_places(snap);
    let h = rows[i].host_name@;
    assert(is_host_row(rows[i], p));
    let d = texts(rows[i].shm_transport_domains@);
    let v = texts(rows[i].runtime_versions@);
    assert(d.to_set().contains(x) <==> d.contains(x));
    assert(v.to_set().contains(x) <==> v.contains(x));
    lemma_place(snap.publishers@, |t: TopicInfo| (t.host_name@, t.shm_transport_domain@), (h, x));
    lemma_place(snap.subscribers@, |t: TopicInfo| (t.host_name@, t.shm_transport_domain@), (h, x));
    lemma_place(snap.processes@, |q: ProcessInfo| (q.host_name@, q.shm_transport_domain@), (h, x));
    lemma_place(snap.processes@, |q: ProcessInfo| (q.host_name@, q.runtime_version@), (h, x));
}

proof fn lemma_place<T>(s: Seq<T>, place: spec_fn(T) -> (Seq<char>, Seq<char>), q: (Seq<char>, Seq<char>))
    ensures
        s.map_values(place).contains(q) <==> exists|j: int| 0 <= j < s.len() && place(#[trigger] s[j]) == q,
{
    let p = s.map_values(place);
    if p.contains(q) {
        let j = choose|j: int| 0 <= j < p.len() && p[j] == q;
        assert(place(s[j]) == q);
    }
    if exists|j: int| 0 <= j < s.len() && place(#[trigger] s[j]) == q {
        let j = choose|j: int| 0 <= j < s.len() && place(#[trigger] s[j]) == q;
        assert(p[j] == q);
    }
}

/// Something is registered on `host`.
pub open spec fn is_host_of(snap: MonitoringSnapshot, host: Seq<char>) -> bool {
    ||| exists|j: int| 0 <= j < snap.publishers@.len() && (#[trigger] snap.publishers@[j]).host_name@ == host
    ||| exists|j: int| 0 <= j < snap.subscribers@.len() && (#[trigger] snap.subscribers@[j]).host_name@ == host
    ||| exists|j: int| 0 <= j < snap.servers@.len() && (#[trigger] snap.servers@[j]).host_name@ == host
    ||| exists|j: int| 0 <= j < snap.clients@.len() && (#[trigger] snap.clients@[j]).host_name@ == host
    ||| exists|j: int| 0 <= j < snap.processes@.len() && (#[trigger] snap.processes@[j]).host_name@ == host
}

/// The rollup has a row for exactly the hosts on which something is registered, one each and in
/// order.
pub proof fn every_host_has_a_row(rows: Seq<HostEntry>, snap: MonitoringSnapshot, host: Seq<char>)
    requires
        are_host_rows(rows, snapshot_places(snap)),
    ensures
        strictly_sorted(rows.map_values(|h: HostEntry| h.host_name@)),
        (exists|i: int| 0 <= i < rows.len() && (#[trigger] rows[i]).host_name@ == host) <==> is_host_of(
            snap,
            host,
        ),
{
    let p = snapshot_places(snap);
    let names = host_names(rows);
    assert(names.contains(host) <==> names.to_set().contains(host));
    if names.contains(host) {
        let i = choose|i: int| 0 <= i < names.len() && names[i] == host;
        assert(rows[i].host_name@ == host);
    }
    if exists|i: int| 0 <= i < rows.len() && (#[trigger] rows[i]).host_name@ == host {
        let i = choose|i: int| 0 <= i < rows.len() && (#[trigger] rows[i]).host_name@ == host;
        assert(names[i] == host);
    }
    lemma_host(snap.publishers@, |t: TopicInfo| (t.host_name@, t.shm_transport_domain@), host);
    lemma_host(snap.subscribers@, |t: TopicInfo| (t.host_name@, t.shm_transport_domain@), host);
    lemma_host(snap.servers@, |s: ServerInfo| (s.host_name@, s.service_name@), host);
    lemma_host(snap.clients@, |c: ClientInfo| (c.host_name@, c.service_name@), host);
    lemma_host(snap.processes@, |q: ProcessInfo| (q.host_name@, q.runtime_version@), host);
    lemma_host(snap.processes@, |q: ProcessInfo| (q.host_name@, q.shm_transport_domain@), host);
}

proof fn lemma_host<T>(s: Seq<T>, place: spec_fn(T) -> (Seq<char>, Seq<char>), host: Seq<char>)
    ensures
        place_hosts(s.map_values(place)).contains(host) <==> exists|j: int|
            0 <= j < s.len() && place(#[trigger] s[j]).0 == host,
{
    let p = s.map_values(place);
    let n = p.map_values(|q: (Seq<char>, Seq<char>)| q.0);
    assert(n.to_set().contains(host) <==> n.contains(host));
    if n.contains(host) {
        let j = choose|j: int| 0 <= j < n.len() && n[j] == host;
        assert(place(s[j]).0 == host);
    }
    if exists|j: int| 0 <= j < s.len() && place(#[trigger] s[j]).0 == host {
        let j = choose|j: int| 0 <= j < s.len() && place(#[trigger] s[j]).0 == host;
        assert(n[j] == host);
    }
}

} // verus!
