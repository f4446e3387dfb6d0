//! What a monitoring snapshot says of one topic.

use vstd::prelude::*;

use crate::entries::{are_topic_rows, topic_entry, Direction, TopicEntry};
use crate::monitoring::{MonitoringSnapshot, TopicInfo};
use crate::seqs::{filter_start, filter_step, insert_set, map_rows, prefix_set_step};
use crate::sort::{
    in_order, insert_text, insert_texts, lists_set, sort_ints, strictly_sorted, text_set, texts,
};
use crate::text::{same_text, text_before, text_less, text_order_is_total, text_order_is_transitive};

verus! {

/// The registrations of one topic, in order.
pub open spec fn of_topic(s: Seq<TopicInfo>, topic: Seq<char>) -> Seq<TopicInfo> {
    s.filter(|t: TopicInfo| t.topic_name@ == topic)
}

/// The rows of the registrations of one topic.
pub fn topic_rows(registrations: &Vec<TopicInfo>, topic: &str, direction: Direction) -> (r: Vec<TopicEntry>)
    ensures
        are_topic_rows(r@, of_topic(registrations@, topic@), direction, false),
{
    let ghost pred = |t: TopicInfo| t.topic_name@ == topic@;
    let mut r: Vec<TopicEntry> = Vec::new();
    let mut i: usize = 0;
    proof {
        filter_start(registrations@, pred);
    }
    while i < registrations.len()
        invariant
            i <= registrations.len(),
            pred == (|t: TopicInfo| t.topic_name@ == topic@),
            are_topic_rows(r@, registrations@.take(i as int).filter(pred), direction, false),
        decreases registrations.len() - i,
    {
        let t = &registrations[i];
        proof {
            filter_step(registrations@, pred, i as int);
        }
        if same_text(t.topic_name.as_str(), topic) {
            r.push(topic_entry(t, direction, false));
        }
        i += 1;
    }
    assert(registrations@.take(i as int) =~= registrations@);
    r
}

/// `kind` is active on layer `j` of a row.
pub open spec fn active_at(e: TopicEntry, j: int, kind: Seq<char>) -> bool {
    &&& 0 <= j < e.transport_layer@.len()
    &&& e.transport_layer@[j].active
    &&& e.transport_layer@[j].layer_type@ == kind
}

/// `kind` is active on a row.
pub open spec fn active_on(e: TopicEntry, kind: Seq<char>) -> bool {
    exists|j: int| active_at(e, j, kind)
}

/// `kind` is active on every row.
pub open spec fn active_on_all(rows: Seq<TopicEntry>, kind: Seq<char>) -> bool {
    forall|i: int| 0 <= i < rows.len() ==> active_on(#[trigger] rows[i], kind)
}

/// `kind` is active on some row.
pub open spec fn active_on_some(rows: Seq<TopicEntry>, kind: Seq<char>) -> bool {
    exists|i: int| 0 <= i < rows.len() && active_on(#[trigger] rows[i], kind)
}

/// Some layer of some row is active.
pub open spec fn advertises(rows: Seq<TopicEntry>) -> bool {
    exists|kind: Seq<char>| active_on_some(rows, kind)
}

/// The transport kinds that are active on every publisher and every subscriber; none where a
/// side has no rows.
pub open spec fn common_kinds(pubs: Seq<TopicEntry>, subs: Seq<TopicEntry>) -> Set<Seq<char>> {
    Set::new(
        |kind: Seq<char>|
            pubs.len() > 0 && subs.len() > 0 && active_on_all(pubs, kind) && active_on_all(subs, kind),
    )
}

/// The two sides share a transport: some publisher and some subscriber have one kind active.
pub open spec fn sides_share(pubs: Seq<TopicEntry>, subs: Seq<TopicEntry>) -> bool {
    exists|kind: Seq<char>| active_on_some(pubs, kind) && active_on_some(subs, kind)
}

fn has_active(e: &TopicEntry, kind: &str) -> (r: bool)
    ensures
        r == active_on(*e, kind@),
{
    let mut j: usize = 0;
    while j < e.transport_layer.len()
        invariant
            j <= e.transport_layer.len(),
            forall|k: int| 0 <= k < j ==> !#[trigger] active_at(*e, k, kind@),
        decreases e.transport_layer.len() - j,
    {
        let layer = &e.transport_layer[j];
        if layer.active && same_text(layer.layer_type.as_str(), kind) {
            assert(active_at(*e, j as int, kind@));
            return true;
        }
        j += 1;
    }
    false
}

fn all_have_active(rows: &[TopicEntry], kind: &str) -> (r: bool)
    ensures
        r == active_on_all(rows@, kind@),
{
    let mut i: usize = 0;
    while i < rows.len()
        invariant
            i <= rows.len(),
            forall|k: int| 0 <= k < i ==> active_on(#[trigger] rows@[k], kind@),
        decreases rows.len() - i,
    {
        if !has_active(&rows[i], kind) {
            assert(!active_on(rows@[i as int], kind@));
            return false;
        }
        i += 1;
    }
    true
}

fn some_has_active(rows: &[TopicEntry], kind: &str) -> (r: bool)
    ensures
        r == active_on_some(rows@, kind@),
{
    let mut i: usize = 0;
    while i < rows.len()
        invariant
            i <= rows.len(),
            forall|k: int| 0 <= k < i ==> !active_on(#[trigger] rows@[k], kind@),
        decreases rows.len() - i,
    {
        if has_active(&rows[i], kind) {
            assert(active_on(rows@[i as int], kind@));
            return true;
        }
        i += 1;
    }
    false
}

/// Adds the kinds that are active on a row to a sorted set of texts.
fn add_active(list: &mut Vec<String>, e: &TopicEntry)
    requires
        strictly_sorted(texts(old(list)@)),
    ensures
        strictly_sorted(texts(final(list)@)),
        forall|kind: Seq<char>| #[trigger]
            texts(final(list)@).contains(kind) <==> texts(old(list)@).contains(kind) || active_on(
                *e,
                kind,
            ),
{
    let ghost start = texts(list@);
    let mut j: usize = 0;
    while j < e.transport_layer.len()
        invariant
            j <= e.transport_layer.len(),
            start == texts(old(list)@),
            strictly_sorted(texts(list@)),
            forall|kind: Seq<char>| #[trigger]
                texts(list@).contains(kind) <==> start.contains(kind) || exists|k: int|
                    k < j && #[trigger] active_at(*e, k, kind),
        decreases e.transport_layer.len() - j,
    {
        let layer = &e.transport_layer[j];
        let ghost before = texts(list@);
        let ghost this = layer.layer_type@;
        if layer.active {
            insert_text(list, layer.layer_type.as_str());
            assert(active_at(*e, j as int, this));
        }
        proof {
            assert forall|kind: Seq<char>| #[trigger]
                texts(list@).contains(kind) <==> start.contains(kind) || exists|k: int|
                    k < j + 1 && #[trigger] active_at(*e, k, kind) by {
                assert(texts(list@).contains(kind) <==> before.contains(kind) || (layer.active && kind
                    == this)) by {
                    assert(texts(list@).to_set().contains(kind) <==> texts(list@).contains(kind));
                    assert(before.to_set().contains(kind) <==> before.contains(kind));
                }
                if exists|k: int| k < j && #[trigger] active_at(*e, k, kind) {
                    let k = choose|k: int| k < j && #[trigger] active_at(*e, k, kind);
                    assert(k < j + 1 && active_at(*e, k, kind));
                }
                if exists|k: int| k < j + 1 && #[trigger] active_at(*e, k, kind) {
                    let k = choose|k: int| k < j + 1 && #[trigger] active_at(*e, k, kind);
                    if k < j {
                        assert(before.contains(kind));
                    }
                }
            }
        }
        j += 1;
    }
    proof {
        assert forall|kind: Seq<char>| #[trigger]
            texts(list@).contains(kind) <==> start.contains(kind) || active_on(*e, kind) by {
            if active_on(*e, kind) {
                let k = choose|k: int| active_at(*e, k, kind);
                assert(k < j && active_at(*e, k, kind));
            }
        }
    }
}

/// The kinds that are active on some row, in order.
fn merge_active(rows: &[TopicEntry]) -> (r: Vec<String>)
    ensures
        strictly_sorted(texts(r@)),
        forall|kind: Seq<char>| #[trigger] texts(r@).contains(kind) <==> active_on_some(rows@, kind),
        r.len() > 0 <==> advertises(rows@),
{
    let mut r: Vec<String> = Vec::new();
    let mut i: usize = 0;
    while i < rows.len()
        invariant
            i <= rows.len(),
            strictly_sorted(texts(r@)),
            forall|kind: Seq<char>| #[trigger]
                texts(r@).contains(kind) <==> active_on_some(rows@.take(i as int), kind),
        decreases rows.len() - i,
    {
        let ghost fewer = rows@.take(i as int);
        let ghost more = rows@.take(i + 1);
        add_active(&mut r, &rows[i]);
        proof {
            assert forall|kind: Seq<char>| #[trigger]
                texts(r@).contains(kind) <==> active_on_some(more, kind) by {
                if active_on_some(fewer, kind) {
                    let k = choose|k: int| 0 <= k < fewer.len() && active_on(#[trigger] fewer[k], kind);
                    assert(active_on(more[k], kind));
                }
                if active_on(rows@[i as int], kind) {
                    assert(active_on(more[i as int], kind));
                }
                if active_on_some(more, kind) {
                    let k = choose|k: int| 0 <= k < more.len() && active_on(#[trigger] more[k], kind);
                    if k < i {
                        assert(active_on(fewer[k], kind));
                    }
                }
            }
        }
        i += 1;
    }
    assert(rows@.take(i as int) =~= rows@);
    proof {
        if r.len() > 0 {
            assert(texts(r@).contains(texts(r@)[0]));
        }
        if advertises(rows@) {
            let kind = choose|kind: Seq<char>| active_on_some(rows@, kind);
            assert(texts(r@).contains(kind));
        }
    }
    r
}

/// The kinds that are active on every publisher and every subscriber, in order, and whether each
/// side has an active layer at all. A side that has moved no sample yet has none, and then an
/// empty first part says nothing.
pub fn intersect_active_transports(pubs: &[TopicEntry], subs: &[TopicEntry]) -> (r: (Vec<String>, bool))
    ensures
        lists_set(r.0@, common_kinds(pubs@, subs@)),
        r.1 == (advertises(pubs@) && advertises(subs@)),
{
    let p = merge_active(pubs);
    let s = merge_active(subs);
    let advertised = p.len() > 0 && s.len() > 0;
    let mut common: Vec<String> = Vec::new();
    let ghost wanted = common_kinds(pubs@, subs@);
    let ghost seen = texts(p@);
    let mut i: usize = 0;
    assert(texts(common@).to_set() =~= seen.take(0).to_set().intersect(wanted));
    while i < p.len()
        invariant
            i <= p.len(),
            seen == texts(p@),
            wanted == common_kinds(pubs@, subs@),
            lists_set(common@, seen.take(i as int).to_set().intersect(wanted)),
        decreases p.len() - i,
    {
        let kind = p[i].as_str();
        proof {
            prefix_set_step(seen, i as int);
        }
        if pubs.len() > 0 && subs.len() > 0 && all_have_active(pubs, kind) && all_have_active(subs, kind) {
            insert_text(&mut common, kind);
            assert(seen.take(i as int).to_set().intersect(wanted).insert(kind@) =~= seen.take(
                i + 1,
            ).to_set().intersect(wanted));
        } else {
            assert(seen.take(i as int).to_set().intersect(wanted) =~= seen.take(
                i + 1,
            ).to_set().intersect(wanted));
        }
        i += 1;
    }
    proof {
        assert(seen.take(i as int) =~= seen);
        assert forall|kind: Seq<char>| wanted.contains(kind) implies #[trigger] seen.to_set().contains(kind) by {
            assert(active_on(pubs@[0], kind));
            assert(active_on_some(pubs@, kind));
            assert(seen.contains(kind));
        }
        assert(seen.to_set().intersect(wanted) =~= wanted);
    }
    (common, advertised)
}

/// Whether some publisher and some subscriber have one kind active.
pub fn share_transport(pubs: &[TopicEntry], subs: &[TopicEntry]) -> (r: bool)
    ensures
        r == sides_share(pubs@, subs@),
{
    let p = merge_active(pubs);
    let mut i: usize = 0;
    while i < p.len()
        invariant
            i <= p.len(),
            forall|kind: Seq<char>| #[trigger]
                texts(p@).contains(kind) <==> active_on_some(pubs@, kind),
            forall|k: int| 0 <= k < i ==> !active_on_some(subs@, #[trigger] texts(p@)[k]),
        decreases p.len() - i,
    {
        if some_has_active(subs, p[i].as_str()) {
            proof {
                let kind = texts(p@)[i as int];
                assert(texts(p@).contains(kind));
                assert(active_on_some(pubs@, kind) && active_on_some(subs@, kind));
            }
            return true;
        }
        i += 1;
    }
    proof {
        if sides_share(pubs@, subs@) {
            let kind = choose|kind: Seq<char>| active_on_some(pubs@, kind) && active_on_some(subs@, kind);
            assert(texts(p@).contains(kind));
            let k = choose|k: int| 0 <= k < texts(p@).len() && texts(p@)[k] == kind;
            assert(!active_on_some(subs@, texts(p@)[k]));
        }
    }
    false
}

/// The shared-memory domains that the rows name.
pub open spec fn domains_of(rows: Seq<TopicEntry>) -> Set<Seq<char>> {
    rows.map_values(|e: TopicEntry| e.shm_transport_domain@).to_set()
}

/// The hosts that the rows name.
pub open spec fn hosts_of(rows: Seq<TopicEntry>) -> Set<Seq<char>> {
    rows.map_values(|e: TopicEntry| e.host_name@).to_set()
}

fn domain_name(e: &TopicEntry) -> (r: String)
    ensures
        r@ == e.shm_transport_domain@,
{
    e.shm_transport_domain.clone()
}

fn host_name(e: &TopicEntry) -> (r: String)
    ensures
        r@ == e.host_name@,
{
    e.host_name.clone()
}

/// The distinct shared-memory domains of two lists of rows, in order.
pub fn distinct_domains(pubs: &[TopicEntry], subs: &[TopicEntry]) -> (r: Vec<String>)
    ensures
        lists_set(r@, domains_of(pubs@).union(domains_of(subs@))),
{
    let p = map_rows(pubs, domain_name);
    let s = map_rows(subs, domain_name);
    assert(texts(p@) =~= pubs@.map_values(|e: TopicEntry| e.shm_transport_domain@));
    assert(texts(s@) =~= subs@.map_values(|e: TopicEntry| e.shm_transport_domain@));
    let mut r = text_set(&p);
    insert_texts(&mut r, &s);
    r
}

/// The distinct hosts of one list of rows, in order.
pub fn host_list(rows: &[TopicEntry]) -> (r: Vec<String>)
    ensures
        lists_set(r@, hosts_of(rows@)),
{
    let names = map_rows(rows, host_name);
    assert(texts(names@) =~= rows@.map_values(|e: TopicEntry| e.host_name@));
    text_set(&names)
}

/// The distinct hosts of two lists of rows, in order.
pub fn distinct_hosts(pubs: &[TopicEntry], subs: &[TopicEntry]) -> (r: Vec<String>)
    ensures
        lists_set(r@, hosts_of(pubs@).union(hosts_of(subs@))),
{
    let s = map_rows(subs, host_name);
    assert(texts(s@) =~= subs@.map_values(|e: TopicEntry| e.host_name@));
    let mut r = host_list(pubs);
    insert_texts(&mut r, &s);
    r
}

/// One `(name, encoding)` pair seen on a topic, with who advertised it. Identifiers ascend.
#[derive(Debug)]
pub struct TypeSignature {
    pub name: String,
    pub encoding: String,
    pub publisher_occurrences: usize,
    pub subscriber_occurrences: usize,
    pub publisher_topic_ids: Vec<i64>,
    pub subscriber_topic_ids: Vec<i64>,
}

/// The pair that a row advertises.
pub open spec fn signature(e: TopicEntry) -> (Seq<char>, Seq<char>) {
    (e.datatype_information.name@, e.datatype_information.encoding@)
}

/// The pairs that the rows advertise.
pub open spec fn signatures_of(rows: Seq<TopicEntry>) -> Set<(Seq<char>, Seq<char>)> {
    rows.map_values(|e: TopicEntry| signature(e)).to_set()
}

/// The rows that advertise one pair.
pub open spec fn with_signature(rows: Seq<TopicEntry>, sig: (Seq<char>, Seq<char>)) -> Seq<TopicEntry> {
    rows.filter(|e: TopicEntry| signature(e) == sig)
}

/// The identifiers of the rows that advertise one pair, in the order of the rows.
pub open spec fn ids_with(rows: Seq<TopicEntry>, sig: (Seq<char>, Seq<char>)) -> Seq<i64> {
    with_signature(rows, sig).map_values(|e: TopicEntry| e.topic_id)
}

/// Pairs sort by their first text, and by the second where the first is the same.
pub open spec fn pair_before(a: (Seq<char>, Seq<char>), b: (Seq<char>, Seq<char>)) -> bool {
    text_before(a.0, b.0) || (a.0 == b.0 && text_before(a.1, b.1))
}

/// The texts of a pair of strings.
pub open spec fn pair_of(p: (String, String)) -> (Seq<char>, Seq<char>) {
    (p.0@, p.1@)
}

/// The texts of a list of pairs.
pub open spec fn pairs(v: Seq<(String, String)>) -> Seq<(Seq<char>, Seq<char>)> {
    v.map_values(|p: (String, String)| pair_of(p))
}

/// Every pair sorts strictly before the next ones.
pub open spec fn pairs_sorted(s: Seq<(Seq<char>, Seq<char>)>) -> bool {
    forall|i: int, j: int| 0 <= i < j < s.len() ==> pair_before(#[trigger] s[i], #[trigger] s[j])
}

/// The order of pairs is strict and total.
pub proof fn pair_order_is_total(a: (Seq<char>, Seq<char>), b: (Seq<char>, Seq<char>))
    ensures
        !(pair_before(a, b) && pair_before(b, a)),
        pair_before(a, b) ==> a != b,
        a != b ==> pair_before(a, b) || pair_before(b, a),
{
    text_order_is_total(a.0, b.0);
    text_order_is_total(a.1, b.1);
}

/// The order of pairs is transitive.
pub proof fn pair_order_is_transitive(
    a: (Seq<char>, Seq<char>),
    b: (Seq<char>, Seq<char>),
    c: (Seq<char>, Seq<char>),
)
    requires
        pair_before(a, b),
        pair_before(b, c),
    ensures
        pair_before(a, c),
{
    if text_before(a.0, b.0) && text_before(b.0, c.0) {
        text_order_is_transitive(a.0, b.0, c.0);
    }
    if text_before(a.1, b.1) && text_before(b.1, c.1) {
        text_order_is_transitive(a.1, b.1, c.1);
    }
}

fn insert_pair(list: &mut Vec<(String, String)>, a: &str, b: &str)
    requires
        pairs_sorted(pairs(old(list)@)),
    ensures
        pairs_sorted(pairs(final(list)@)),
        pairs(final(list)@).to_set() == pairs(old(list)@).to_set().insert((a@, b@)),
{
    let ghost before = pairs(list@);
    let ghost x = (a@, b@);
    let mut at: usize = 0;
    while at < list.len() && (text_less(list[at].0.as_str(), a) || (same_text(list[at].0.as_str(), a)
        && text_less(list[at].1.as_str(), b)))
        invariant
            at <= list.len(),
            before == pairs(list@),
            x == (a@, b@),
            forall|k: int| 0 <= k < at ==> pair_before(#[trigger] before[k], x),
        decreases list.len() - at,
    {
        assert(before[at as int] == pair_of(list@[at as int]));
        at += 1;
    }
    proof {
        if at < list.len() {
            assert(before[at as int] == pair_of(list@[at as int]));
        }
    }
    if at < list.len() && same_text(list[at].0.as_str(), a) && same_text(list[at].1.as_str(), b) {
        proof {
            assert(before[at as int] == x);
            assert(before.contains(x));
            assert(before.to_set() =~= before.to_set().insert(x));
        }
        return;
    }
    list.insert(at, (a.to_owned(), b.to_owned()));
    proof {
        let after = pairs(list@);
        assert(after =~= before.insert(at as int, x));
        assert forall|i: int, j: int| 0 <= i < j < after.len() implies pair_before(
            #[trigger] after[i],
            #[trigger] after[j],
        ) by {
            if i == at {
                assert(after[j] == before[j - 1]);
                pair_order_is_total(before[at as int], x);
                if j - 1 > at {
                    pair_order_is_transitive(x, before[at as int], before[j - 1]);
                }
            } else if j == at {
                assert(after[i] == before[i]);
            } else {
                let i0 = if i < at { i } else { i - 1 };
                let j0 = if j < at { j } else { j - 1 };
                assert(after[i] == before[i0]);
                assert(after[j] == before[j0]);
            }
        }
        insert_set(before, at as int, x);
    }
}

fn add_signatures(list: &mut Vec<(String, String)>, rows: &[TopicEntry])
    requires
        pairs_sorted(pairs(old(list)@)),
    ensures
        pairs_sorted(pairs(final(list)@)),
        pairs(final(list)@).to_set() == pairs(old(list)@).to_set().union(signatures_of(rows@)),
{
    let ghost base = pairs(list@).to_set();
    let ghost all = rows@.map_values(|e: TopicEntry| signature(e));
    let mut i: usize = 0;
    assert(base =~= base.union(all.take(0).to_set()));
    while i < rows.len()
        invariant
            i <= rows.len(),
            all == rows@.map_values(|e: TopicEntry| signature(e)),
            pairs_sorted(pairs(list@)),
            pairs(list@).to_set() == base.union(all.take(i as int).to_set()),
        decreases rows.len() - i,
    {
        let d = &rows[i].datatype_information;
        insert_pair(list, d.name.as_str(), d.encoding.as_str());
        proof {
            prefix_set_step(all, i as int);
            assert(base.union(all.take(i as int).to_set()).insert(all[i as int]) =~= base.union(
                all.take(i + 1).to_set(),
            ));
        }
        i += 1;
    }
    assert(all.take(i as int) =~= all);
}

/// Whether a row advertises the pair.
fn has_signature(e: &TopicEntry, name: &str, encoding: &str) -> (r: bool)
    ensures
        r == (signature(*e) == (name@, encoding@)),
{
    same_text(e.datatype_information.name.as_str(), name) && same_text(
        e.datatype_information.encoding.as_str(),
        encoding,
    )
}

fn collect_ids(rows: &[TopicEntry], name: &str, encoding: &str) -> (r: Vec<i64>)
    ensures
        r@ == ids_with(rows@, (name@, encoding@)),
{
    let ghost sig = (name@, encoding@);
    let ghost pred = |e: TopicEntry| signature(e) == sig;
    let mut r: Vec<i64> = Vec::new();
    let mut i: usize = 0;
    proof {
        filter_start(rows@, pred);
        assert(r@ =~= ids_with(rows@.take(0), sig));
    }
    while i < rows.len()
        invariant
            i <= rows.len(),
            sig == (name@, encoding@),
            pred == (|e: TopicEntry| signature(e) == sig),
            r@ == ids_with(rows@.take(i as int), sig),
        decreases rows.len() - i,
    {
        proof {
            filter_step(rows@, pred, i as int);
        }
        if has_signature(&rows[i], name, encoding) {
            let ghost before = r@;
            r.push(rows[i].topic_id);
            assert(r@ =~= ids_with(rows@.take(i + 1), sig));
        }
        i += 1;
    }
    assert(rows@.take(i as int) =~= rows@);
    r
}

/// `s` counts who advertises its pair.
pub open spec fn is_signature_row(s: TypeSignature, pubs: Seq<TopicEntry>, subs: Seq<TopicEntry>) -> bool {
    let sig = (s.name@, s.encoding@);
    &&& s.publisher_occurrences == ids_with(pubs, sig).len()
    &&& s.subscriber_occurrences == ids_with(subs, sig).len()
    &&& s.publisher_topic_ids@ == in_order(ids_with(pubs, sig))
    &&& s.subscriber_topic_ids@ == in_order(ids_with(subs, sig))
}

/// The pairs of a list of signature rows.
pub open spec fn row_pairs(rows: Seq<TypeSignature>) -> Seq<(Seq<char>, Seq<char>)> {
    rows.map_values(|s: TypeSignature| (s.name@, s.encoding@))
}

/// `rows` has one row for each pair that a publisher or subscriber advertises, in order.
pub open spec fn are_signature_rows(
    rows: Seq<TypeSignature>,
    pubs: Seq<TopicEntry>,
    subs: Seq<TopicEntry>,
) -> bool {
    &&& pairs_sorted(row_pairs(rows))
    &&& row_pairs(rows).to_set() == signatures_of(pubs).union(signatures_of(subs))
    &&& forall|i: int| 0 <= i < rows.len() ==> is_signature_row(#[trigger] rows[i], pubs, subs)
}

/// The distinct signatures on a topic.
pub fn type_signatures(pubs: &[TopicEntry], subs: &[TopicEntry]) -> (r: Vec<TypeSignature>)
    ensures
        are_signature_rows(r@, pubs@, subs@),
{
    let mut keys: Vec<(String, String)> = Vec::new();
    add_signatures(&mut keys, pubs);
    add_signatures(&mut keys, subs);
    proof {
        assert(pairs(Seq::<(String, String)>::empty()).to_set() =~= Set::empty());
        assert(Set::empty().union(signatures_of(pubs@)) =~= signatures_of(pubs@));
    }
    let mut r: Vec<TypeSignature> = Vec::new();
    let mut i: usize = 0;
    while i < keys.len()
        invariant
            i <= keys.len(),
            r.len() == i,
            forall|k: int| 0 <= k < i ==> is_signature_row(#[trigger] r@[k], pubs@, subs@),
            forall|k: int| 0 <= k < i ==> ((#[trigger] r@[k]).name@, r@[k].encoding@) == pairs(keys@)[k],
        decreases keys.len() - i,
    {
        let name = keys[i].0.as_str();
        let encoding = keys[i].1.as_str();
        let p = collect_ids(pubs, name, encoding);
        let s = collect_ids(subs, name, encoding);
        r.push(
            TypeSignature {
                name: name.to_owned(),
                encoding: encoding.to_owned(),
                publisher_occurrences: p.len(),
                subscriber_occurrences: s.len(),
                publisher_topic_ids: sort_ints(p),
                subscriber_topic_ids: sort_ints(s),
            },
        );
        i += 1;
    }
    assert(row_pairs(r@) =~= pairs(keys@));
    r
}

/// What a snapshot says of one topic.
#[derive(Debug)]
pub struct TopicSurvey {
    pub publishers: Vec<TopicEntry>,
    pub subscribers: Vec<TopicEntry>,
    pub type_signatures: Vec<TypeSignature>,
    /// Transport kinds that are active on every publisher and every subscriber.
    pub common_active_transport_layers: Vec<String>,
    /// Whether each side has an active layer at all.
    pub both_sides_advertised: bool,
    /// Whether some publisher and some subscriber have one kind active.
    pub sides_share_transport: bool,
    pub shm_transport_domains: Vec<String>,
}

/// `sv` is what `snap` says of `topic`.
pub open spec fn is_survey(sv: TopicSurvey, snap: MonitoringSnapshot, topic: Seq<char>) -> bool {
    let pubs = sv.publishers@;
    let subs = sv.subscribers@;
    &&& are_topic_rows(pubs, of_topic(snap.publishers@, topic), Direction::Publisher, false)
    &&& are_topic_rows(subs, of_topic(snap.subscribers@, topic), Direction::Subscriber, false)
    &&& are_signature_rows(sv.type_signatures@, pubs, subs)
    &&& lists_set(sv.common_active_transport_layers@, common_kinds(pubs, subs))
    &&& sv.both_sides_advertised == (advertises(pubs) && advertises(subs))
    &&& sv.sides_share_transport == sides_share(pubs, subs)
    &&& lists_set(sv.shm_transport_domains@, domains_of(pubs).union(domains_of(subs)))
}

/// Gathers what a snapshot says of one topic.
pub fn survey_topic(snap: &MonitoringSnapshot, topic: &str) -> (r: TopicSurvey)
    ensures
        is_survey(r, *snap, topic@),
{
    let publishers = topic_rows(&snap.publishers, topic, Direction::Publisher);
    let subscribers = topic_rows(&snap.subscribers, topic, Direction::Subscriber);
    let signatures = type_signatures(publishers.as_slice(), subscribers.as_slice());
    let (common_active_transport_layers, both_sides_advertised) = intersect_active_transports(
        publishers.as_slice(),
        subscribers.as_slice(),
    );
    let sides_share_transport = share_transport(publishers.as_slice(), subscribers.as_slice());
    let shm_transport_domains = distinct_domains(publishers.as_slice(), subscribers.as_slice());
    TopicSurvey {
        publishers,
        subscribers,
        type_signatures: signatures,
        common_active_transport_layers,
        both_sides_advertised,
        sides_share_transport,
        shm_transport_domains,
    }
}

/// The names of registrations.
pub open spec fn names_of(s: Seq<TopicInfo>) -> Set<Seq<char>> {
    s.map_values(|t: TopicInfo| t.topic_name@).to_set()
}

fn registered_name(t: &TopicInfo) -> (r: String)
    ensures
        r@ == t.topic_name@,
{
    t.topic_name.clone()
}

/// The distinct topic names of registrations, in order.
pub fn topic_names(registrations: &Vec<TopicInfo>) -> (r: Vec<String>)
    ensures
        lists_set(r@, names_of(registrations@)),
{
    let names = map_rows(registrations.as_slice(), registered_name);
    assert(texts(names@) =~= registrations@.map_values(|t: TopicInfo| t.topic_name@));
    text_set(&names)
}

/// The distinct topic names of a snapshot, in order.
pub fn all_topic_names(snap: &MonitoringSnapshot) -> (r: Vec<String>)
    ensures
        lists_set(r@, names_of(snap.publishers@).union(names_of(snap.subscribers@))),
{
    let names = map_rows(snap.subscribers.as_slice(), registered_name);
    assert(texts(names@) =~= snap.subscribers@.map_values(|t: TopicInfo| t.topic_name@));
    let mut r = topic_names(&snap.publishers);
    insert_texts(&mut r, &names);
    r
}

/// One of several publishers of a topic.
#[derive(Debug)]
pub struct EchoedPublisher {
    pub host_name: String,
    pub unit_name: String,
    pub process_name: String,
    pub topic_id: i64,
    pub registered_data_frequency_mhz: i32,
}

/// `e` is the row of registration `t`.
pub open spec fn is_echo_row(e: EchoedPublisher, t: TopicInfo) -> bool {
    &&& e.host_name@ == t.host_name@
    &&& e.unit_name@ == t.unit_name@
    &&& e.process_name@ == t.process_name@
    &&& e.topic_id == t.topic_id
    &&& e.registered_data_frequency_mhz == t.data_frequency
}

/// `e` holds one row per registration, in order.
pub open spec fn are_echo_rows(e: Seq<EchoedPublisher>, t: Seq<TopicInfo>) -> bool {
    &&& e.len() == t.len()
    &&& forall|i: int| 0 <= i < t.len() ==> is_echo_row(#[trigger] e[i], t[i])
}

/// The publishers of a topic, where it has two or more: then a measured rate is that of all of
/// them together.
pub fn collect_echoed_publishers(snap: &MonitoringSnapshot, topic: &str) -> (r: Option<Vec<EchoedPublisher>>)
    ensures
        r is Some <==> of_topic(snap.publishers@, topic@).len() >= 2,
        r matches Some(rows) ==> are_echo_rows(rows@, of_topic(snap.publishers@, topic@)),
{
    let registrations = &snap.publishers;
    let ghost pred = |t: TopicInfo| t.topic_name@ == topic@;
    let mut rows: Vec<EchoedPublisher> = Vec::new();
    let mut i: usize = 0;
    proof {
        filter_start(registrations@, pred);
    }
    while i < registrations.len()
        invariant
            i <= registrations.len(),
            pred == (|t: TopicInfo| t.topic_name@ == topic@),
            are_echo_rows(rows@, registrations@.take(i as int).filter(pred)),
        decreases registrations.len() - i,
    {
        let t = &registrations[i];
        proof {
            filter_step(registrations@, pred, i as int);
        }
        if same_text(t.topic_name.as_str(), topic) {
            rows.push(
                EchoedPublisher {
                    host_name: t.host_name.clone(),
                    unit_name: t.unit_name.clone(),
                    process_name: t.process_name.clone(),
                    topic_id: t.topic_id,
                    registered_data_frequency_mhz: t.data_frequency,
                },
            );
        }
        i += 1;
    }
    assert(registrations@.take(i as int) =~= registrations@);
    if rows.len() >= 2 {
        Some(rows)
    } else {
        None
    }
}

/// Some endpoint advertises this pair.
pub open spec fn advertised(pubs: Seq<TopicEntry>, subs: Seq<TopicEntry>, sig: (Seq<char>, Seq<char>)) -> bool {
    signatures_of(pubs).union(signatures_of(subs)).contains(sig)
}

/// A topic has several signature rows exactly where two endpoints advertise different pairs.
pub proof fn signatures_differ(rows: Seq<TypeSignature>, pubs: Seq<TopicEntry>, subs: Seq<TopicEntry>)
    requires
        are_signature_rows(rows, pubs, subs),
    ensures
        rows.len() > 1 <==> exists|a: (Seq<char>, Seq<char>), b: (Seq<char>, Seq<char>)|
            a != b && #[trigger] advertised(pubs, subs, a) && #[trigger] advertised(pubs, subs, b),
{
    let p = row_pairs(rows);
    let set = signatures_of(pubs).union(signatures_of(subs));
    if rows.len() > 1 {
        assert(pair_before(p[0], p[1]));
        pair_order_is_total(p[0], p[1]);
        assert(p.contains(p[0]) && p.contains(p[1]));
        assert(p.to_set().contains(p[0]) && p.to_set().contains(p[1]));
        assert(advertised(pubs, subs, p[0]) && advertised(pubs, subs, p[1]));
    }
    if exists|a: (Seq<char>, Seq<char>), b: (Seq<char>, Seq<char>)|
        a != b && #[trigger] advertised(pubs, subs, a) && #[trigger] advertised(pubs, subs, b) {
        let (a, b) = choose|a: (Seq<char>, Seq<char>), b: (Seq<char>, Seq<char>)|
            a != b && #[trigger] advertised(pubs, subs, a) && #[trigger] advertised(pubs, subs, b);
        assert(p.to_set().contains(a) && p.to_set().contains(b));
        let i = choose|i: int| 0 <= i < p.len() && p[i] == a;
        let j = choose|j: int| 0 <= j < p.len() && p[j] == b;
        assert(i != j);
    }
}

/// The common transports are empty exactly where no kind is active on every publisher and every
/// subscriber; where there are some, the sides share a transport, and sides that share one have
/// an active layer each.
pub proof fn common_transport_means_shared_kind(sv: TopicSurvey, snap: MonitoringSnapshot, topic: Seq<char>)
    requires
        is_survey(sv, snap, topic),
    ensures
        sv.common_active_transport_layers@.len() > 0 <==> sv.publishers@.len() > 0 && sv.subscribers@.len()
            > 0 && exists|kind: Seq<char>|
            active_on_all(sv.publishers@, kind) && active_on_all(sv.subscribers@, kind),
        sv.common_active_transport_layers@.len() > 0 ==> sv.sides_share_transport,
        sv.sides_share_transport ==> sv.both_sides_advertised,
{
    let p = sv.publishers@;
    let s = sv.subscribers@;
    let t = texts(sv.common_active_transport_layers@);
    let set = common_kinds(p, s);
    if t.len() > 0 {
        let kind = t[0];
        assert(t.contains(kind));
        assert(t.to_set().contains(kind));
        assert(active_on_all(p, kind) && active_on_all(s, kind));
        assert(active_on(p[0], kind) && active_on(s[0], kind));
        assert(active_on_some(p, kind) && active_on_some(s, kind));
    }
    if p.len() > 0 && s.len() > 0 && exists|kind: Seq<char>| active_on_all(p, kind) && active_on_all(s, kind) {
        let kind = choose|kind: Seq<char>| active_on_all(p, kind) && active_on_all(s, kind);
        assert(set.contains(kind));
        assert(t.to_set().contains(kind));
        assert(t.contains(kind));
    }
}

/// Every publisher and every subscriber is counted under exactly one signature.
pub proof fn signature_counts_add_up(rows: Seq<TypeSignature>, pubs: Seq<TopicEntry>, subs: Seq<TopicEntry>)
    requires
        are_signature_rows(rows, pubs, subs),
    ensures
        total_occurrences(rows, |s: TypeSignature| s.publisher_occurrences as int) == pubs.len(),
        total_occurrences(rows, |s: TypeSignature| s.subscriber_occurrences as int) == subs.len(),
{
    let keys = row_pairs(rows);
    lemma_all_listed(keys, pubs, signatures_of(pubs).union(signatures_of(subs)));
    lemma_all_listed(keys, subs, signatures_of(pubs).union(signatures_of(subs)));
    lemma_ids_total(keys, pubs);
    lemma_ids_total(keys, subs);
    lemma_occurrences(rows, pubs, |s: TypeSignature| s.publisher_occurrences as int);
    lemma_occurrences(rows, subs, |s: TypeSignature| s.subscriber_occurrences as int);
}

/// The sum of one count over signature rows.
pub open spec fn total_occurrences(rows: Seq<TypeSignature>, count: spec_fn(TypeSignature) -> int) -> int
    decreases rows.len(),
{
    if rows.len() == 0 {
        0
    } else {
        total_occurrences(rows.drop_last(), count) + count(rows.last())
    }
}

spec fn ids_total(keys: Seq<(Seq<char>, Seq<char>)>, rows: Seq<TopicEntry>) -> int
    decreases keys.len(),
{
    if keys.len() == 0 {
        0
    } else {
        ids_total(keys.drop_last(), rows) + ids_with(rows, keys.last()).len()
    }
}

spec fn key_hits(keys: Seq<(Seq<char>, Seq<char>)>, sig: (Seq<char>, Seq<char>)) -> int
    decreases keys.len(),
{
    if keys.len() == 0 {
        0
    } else {
        key_hits(keys.drop_last(), sig) + if keys.last() == sig {
            1int
        } else {
            0
        }
    }
}

proof fn lemma_key_absent(keys: Seq<(Seq<char>, Seq<char>)>, sig: (Seq<char>, Seq<char>))
    requires
        !keys.contains(sig),
    ensures
        key_hits(keys, sig) == 0,
    decreases keys.len(),
{
    if keys.len() > 0 {
        let rest = keys.drop_last();
        assert(keys[keys.len() - 1] == keys.last());
        if rest.contains(sig) {
            let k = choose|k: int| 0 <= k < rest.len() && rest[k] == sig;
            assert(keys[k] == sig);
        }
        lemma_key_absent(rest, sig);
    }
}

proof fn lemma_key_once(keys: Seq<(Seq<char>, Seq<char>)>, sig: (Seq<char>, Seq<char>))
    requires
        pairs_sorted(keys),
        keys.contains(sig),
    ensures
        key_hits(keys, sig) == 1,
    decreases keys.len(),
{
    let rest = keys.drop_last();
    assert(pairs_sorted(rest)) by {
        assert forall|i: int, j: int| 0 <= i < j < rest.len() implies pair_before(
            #[trigger] rest[i],
            #[trigger] rest[j],
        ) by {
            assert(pair_before(keys[i], keys[j]));
        }
    }
    if keys.last() == sig {
        if rest.contains(sig) {
            let k = choose|k: int| 0 <= k < rest.len() && rest[k] == sig;
            assert(pair_before(keys[k], keys[keys.len() - 1]));
            pair_order_is_total(sig, sig);
        }
        lemma_key_absent(rest, sig);
    } else {
        let k = choose|k: int| 0 <= k < keys.len() && keys[k] == sig;
        assert(rest[k] == sig);
        lemma_key_once(rest, sig);
    }
}

proof fn lemma_ids_step(keys: Seq<(Seq<char>, Seq<char>)>, rows: Seq<TopicEntry>, e: TopicEntry)
    ensures
        ids_total(keys, rows.push(e)) == ids_total(keys, rows) + key_hits(keys, signature(e)),
    decreases keys.len(),
{
    if keys.len() > 0 {
        lemma_ids_step(keys.drop_last(), rows, e);
        reveal(Seq::filter);
        assert(rows.push(e).drop_last() =~= rows);
    }
}

proof fn lemma_ids_none(keys: Seq<(Seq<char>, Seq<char>)>)
    ensures
        ids_total(keys, Seq::empty()) == 0,
    decreases keys.len(),
{
    if keys.len() > 0 {
        lemma_ids_none(keys.drop_last());
        reveal(Seq::filter);
    }
}

proof fn lemma_ids_total(keys: Seq<(Seq<char>, Seq<char>)>, rows: Seq<TopicEntry>)
    requires
        pairs_sorted(keys),
        forall|i: int| 0 <= i < rows.len() ==> keys.contains(signature(#[trigger] rows[i])),
    ensures
        ids_total(keys, rows) == rows.len(),
    decreases rows.len(),
{
    if rows.len() == 0 {
        assert(rows =~= Seq::empty());
        lemma_ids_none(keys);
    } else {
        let rest = rows.drop_last();
        assert forall|i: int| 0 <= i < rest.len() implies keys.contains(signature(#[trigger] rest[i])) by {
            assert(keys.contains(signature(rows[i])));
        }
        lemma_ids_total(keys, rest);
        lemma_ids_step(keys, rest, rows.last());
        assert(rows =~= rest.push(rows.last()));
        assert(keys.contains(signature(rows[rows.len() - 1])));
        lemma_key_once(keys, signature(rows.last()));
    }
}

proof fn lemma_all_listed(
    keys: Seq<(Seq<char>, Seq<char>)>,
    rows: Seq<TopicEntry>,
    set: Set<(Seq<char>, Seq<char>)>,
)
    requires
        keys.to_set() == set,
        forall|sig: (Seq<char>, Seq<char>)| #[trigger] signatures_of(rows).contains(sig) ==> set.contains(sig),
    ensures
        forall|i: int| 0 <= i < rows.len() ==> keys.contains(signature(#[trigger] rows[i])),
{
    let sigs = rows.map_values(|e: TopicEntry| signature(e));
    assert forall|i: int| 0 <= i < rows.len() implies keys.contains(signature(#[trigger] rows[i])) by {
        assert(sigs[i] == signature(rows[i]));
        assert(sigs.contains(signature(rows[i])));
        assert(signatures_of(rows).contains(signature(rows[i])));
        assert(keys.to_set().contains(signature(rows[i])));
    }
}

proof fn lemma_occurrences(rows: Seq<TypeSignature>, entries: Seq<TopicEntry>, count: spec_fn(TypeSignature) -> int)
    requires
        forall|i: int|
            0 <= i < rows.len() ==> count(#[trigger] rows[i]) == ids_with(
                entries,
                (rows[i].name@, rows[i].encoding@),
            ).len(),
    ensures
        total_occurrences(rows, count) == ids_total(row_pairs(rows), entries),
    decreases rows.len(),
{
    if rows.len() > 0 {
        let rest = rows.drop_last();
        assert forall|i: int| 0 <= i < rest.len() implies count(#[trigger] rest[i]) == ids_with(
            entries,
            (rest[i].name@, rest[i].encoding@),
        ).len() by {
            assert(rest[i] == rows[i]);
        }
        lemma_occurrences(rest, entries, count);
        assert(row_pairs(rows).drop_last() =~= row_pairs(rest));
        assert(row_pairs(rows).last() == (rows.last().name@, rows.last().encoding@));
        assert(rows[rows.len() - 1] == rows.last());
    }
}

} // verus!
