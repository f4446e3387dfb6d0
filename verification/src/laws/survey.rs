//! Laws of the survey of one topic.

use vstd::prelude::*;

use crate::entries::{transport_label, Direction, TopicEntry};
use crate::monitoring::{MonitoringSnapshot, TopicInfo};
use crate::seqs::{ascends, filter_places};
use crate::sort::{ascending, ascending_order_exists, in_order, strictly_sorted, texts};
use crate::survey::{
    active_at, active_on, active_on_all, active_on_some, advertises, are_echo_rows,
    are_signature_rows, ids_with, is_signature_row, is_survey, of_topic, pair_before,
    pair_order_is_total, row_pairs, sides_share, signature, signatures_of, with_signature,
    EchoedPublisher, TopicSurvey, TypeSignature,
};

verus! {

/// `e` shows the registration `t`, seen from side `direction`, without its descriptor.
pub open spec fn endpoint_shows(e: TopicEntry, t: TopicInfo, direction: Direction) -> bool {
    &&& e.topic_name@ == t.topic_name@
    &&& e.direction == direction
    &&& e.host_name@ == t.host_name@
    &&& e.shm_transport_domain@ == t.shm_transport_domain@
    &&& e.process_id == t.process_id
    &&& e.process_name@ == t.process_name@
    &&& e.unit_name@ == t.unit_name@
    &&& e.topic_id == t.topic_id
    &&& e.connections_local == t.connections_local
    &&& e.connections_external == t.connections_external
    &&& e.message_drops == t.message_drops
    &&& e.registered_data_frequency_mhz == t.data_frequency
    &&& e.data_clock == t.data_clock
    &&& e.registration_clock == t.registration_clock
    &&& e.datatype_information.name@ == t.data_type.name@
    &&& e.datatype_information.encoding@ == t.data_type.encoding@
    &&& e.datatype_information.descriptor_len == t.data_type.descriptor@.len()
    &&& e.datatype_information.descriptor_fingerprint is Some <==> t.data_type.descriptor@.len() > 0
    &&& e.datatype_information.descriptor_base64 is None
    &&& e.transport_layer@.len() == t.transport_layers@.len()
    &&& forall|k: int|
        0 <= k < t.transport_layers@.len() ==> {
            let l = #[trigger] t.transport_layers@[k];
            &&& e.transport_layer@[k].layer_type@ == transport_label(l.transport_type)
            &&& e.transport_layer@[k].version == l.version
            &&& e.transport_layer@[k].active == l.active
        }
}

pub(crate) proof fn lemma_of_topic(s: Seq<TopicInfo>, topic: Seq<char>, pred: spec_fn(TopicInfo) -> bool)
    requires
        forall|t: TopicInfo| #[trigger] pred(t) <==> t.topic_name@ == topic,
    ensures
        of_topic(s, topic) == s.filter(pred),
    decreases s.len(),
{
    reveal(Seq::filter);
    if s.len() > 0 {
        lemma_of_topic(s.drop_last(), topic, pred);
        assert(pred(s.last()) <==> s.last().topic_name@ == topic);
    }
}

/// The registrations of a topic are exactly those of its very name, in the order of the snapshot.
pub proof fn topics_are_told_by_name(s: Seq<TopicInfo>, topic: Seq<char>) -> (from: Seq<int>)
    ensures
        from.len() == of_topic(s, topic).len(),
        ascends(from),
        forall|j: int| 0 <= j < s.len() ==> (from.contains(j) <==> (#[trigger] s[j]).topic_name@ == topic),
        forall|i: int|
            0 <= i < from.len() ==> 0 <= #[trigger] from[i] < s.len() && of_topic(s, topic)[i] == s[from[i]],
{
    let pred = |t: TopicInfo| t.topic_name@ == topic;
    let from = filter_places(s, pred);
    lemma_of_topic(s, topic, pred);
    assert forall|j: int| 0 <= j < s.len() implies (from.contains(j) <==> (#[trigger] s[j]).topic_name@ == topic) by {
        assert(pred(s[j]) <==> from.contains(j));
    }
    from
}

/// A survey has a row for every publisher and every subscriber whose topic name is the one asked
/// for, for no other, and in the order of the snapshot; each row shows what is registered.
pub proof fn surveys_show_the_topics_endpoints(sv: TopicSurvey, snap: MonitoringSnapshot, topic: Seq<char>) -> (from: (
    Seq<int>,
    Seq<int>,
))
    requires
        is_survey(sv, snap, topic),
    ensures
        from.0.len() == sv.publishers@.len(),
        from.1.len() == sv.subscribers@.len(),
        ascends(from.0),
        ascends(from.1),
        forall|j: int|
            0 <= j < snap.publishers@.len() ==> (from.0.contains(j) <==> (
            #[trigger] snap.publishers@[j]).topic_name@ == topic),
        forall|j: int|
            0 <= j < snap.subscribers@.len() ==> (from.1.contains(j) <==> (
            #[trigger] snap.subscribers@[j]).topic_name@ == topic),
        forall|i: int|
            0 <= i < sv.publishers@.len() ==> 0 <= from.0[i] < snap.publishers@.len() && endpoint_shows(
                #[trigger] sv.publishers@[i],
                snap.publishers@[from.0[i]],
                Direction::Publisher,
            ),
        forall|i: int|
            0 <= i < sv.subscribers@.len() ==> 0 <= from.1[i] < snap.subscribers@.len() && endpoint_shows(
                #[trigger] sv.subscribers@[i],
                snap.subscribers@[from.1[i]],
                Direction::Subscriber,
            ),
{
    let p = topics_are_told_by_name(snap.publishers@, topic);
    let s = topics_are_told_by_name(snap.subscribers@, topic);
    assert forall|i: int| 0 <= i < sv.publishers@.len() implies 0 <= p[i] < snap.publishers@.len()
        && endpoint_shows(#[trigger] sv.publishers@[i], snap.publishers@[p[i]], Direction::Publisher) by {
        assert(of_topic(snap.publishers@, topic)[i] == snap.publishers@[p[i]]);
    }
    assert forall|i: int| 0 <= i < sv.subscribers@.len() implies 0 <= s[i] < snap.subscribers@.len()
        && endpoint_shows(#[trigger] sv.subscribers@[i], snap.subscribers@[s[i]], Direction::Subscriber) by {
        assert(of_topic(snap.subscribers@, topic)[i] == snap.subscribers@[s[i]]);
    }
    (p, s)
}

/// The publishers that a rate measurement names are all that publish the topic, in order.
pub proof fn echoes_show_the_topics_publishers(
    rows: Seq<EchoedPublisher>,
    snap: MonitoringSnapshot,
    topic: Seq<char>,
) -> (from: Seq<int>)
    requires
        are_echo_rows(rows, of_topic(snap.publishers@, topic)),
    ensures
        from.len() == rows.len(),
        ascends(from),
        forall|j: int|
            0 <= j < snap.publishers@.len() ==> (from.contains(j) <==> (
            #[trigger] snap.publishers@[j]).topic_name@ == topic),
        forall|i: int|
            0 <= i < rows.len() ==> {
                let t = snap.publishers@[from[i]];
                &&& 0 <= from[i] < snap.publishers@.len()
                &&& (#[trigger] rows[i]).host_name@ == t.host_name@
                &&& rows[i].unit_name@ == t.unit_name@
                &&& rows[i].process_name@ == t.process_name@
                &&& rows[i].topic_id == t.topic_id
                &&& rows[i].registered_data_frequency_mhz == t.data_frequency
            },
{
    let from = topics_are_told_by_name(snap.publishers@, topic);
    assert forall|i: int| 0 <= i < rows.len() implies of_topic(snap.publishers@, topic)[i]
        == snap.publishers@[#[trigger] from[i]] && 0 <= from[i] < snap.publishers@.len() by {}
    from
}

/// Row `i` advertises a type of this name and encoding.
pub open spec fn row_has_type(rows: Seq<TopicEntry>, i: int, name: Seq<char>, encoding: Seq<char>) -> bool {
    &&& 0 <= i < rows.len()
    &&& rows[i].datatype_information.name@ == name
    &&& rows[i].datatype_information.encoding@ == encoding
}

proof fn lemma_ids(rows: Seq<TopicEntry>, name: Seq<char>, encoding: Seq<char>, ids: Seq<i64>, id: i64)
    requires
        ids == in_order(ids_with(rows, (name, encoding))),
    ensures
        ids.len() == ids_with(rows, (name, encoding)).len(),
        ascending(ids),
        ids.contains(id) <==> exists|i: int|
            #[trigger] row_has_type(rows, i, name, encoding) && rows[i].topic_id == id,
{
    let sig = (name, encoding);
    let pred = |e: TopicEntry| signature(e) == sig;
    let own = with_signature(rows, sig);
    let raw = ids_with(rows, sig);
    ascending_order_exists(raw);
    vstd::seq_lib::to_multiset_contains(ids, id);
    vstd::seq_lib::to_multiset_contains(raw, id);
    let from = filter_places(rows, pred);
    if raw.contains(id) {
        let k = choose|k: int| 0 <= k < raw.len() && raw[k] == id;
        assert(own[k] == rows[from[k]]);
        assert(from.contains(from[k]));
        assert(pred(rows[from[k]]));
        assert(row_has_type(rows, from[k], name, encoding));
    }
    if exists|i: int| #[trigger] row_has_type(rows, i, name, encoding) && rows[i].topic_id == id {
        let i = choose|i: int| #[trigger] row_has_type(rows, i, name, encoding) && rows[i].topic_id == id;
        assert(pred(rows[i]));
        let k = choose|k: int| 0 <= k < from.len() && from[k] == i;
        assert(own[k] == rows[from[k]]);
        assert(raw[k] == id);
    }
}

/// A signature row names, in ascending order, the identifiers of exactly the publishers and of
/// exactly the subscribers that advertise its name and encoding, and counts them.
pub proof fn signature_rows_name_their_endpoints(
    rows: Seq<TypeSignature>,
    pubs: Seq<TopicEntry>,
    subs: Seq<TopicEntry>,
    k: int,
    id: i64,
)
    requires
        are_signature_rows(rows, pubs, subs),
        0 <= k < rows.len(),
    ensures
        ascending(rows[k].publisher_topic_ids@),
        ascending(rows[k].subscriber_topic_ids@),
        rows[k].publisher_occurrences == rows[k].publisher_topic_ids@.len(),
        rows[k].subscriber_occurrences == rows[k].subscriber_topic_ids@.len(),
        rows[k].publisher_topic_ids@.contains(id) <==> exists|i: int|
            #[trigger] row_has_type(pubs, i, rows[k].name@, rows[k].encoding@) && pubs[i].topic_id == id,
        rows[k].subscriber_topic_ids@.contains(id) <==> exists|i: int|
            #[trigger] row_has_type(subs, i, rows[k].name@, rows[k].encoding@) && subs[i].topic_id == id,
{
    assert(is_signature_row(rows[k], pubs, subs));
    lemma_ids(pubs, rows[k].name@, rows[k].encoding@, rows[k].publisher_topic_ids@, id);
    lemma_ids(subs, rows[k].name@, rows[k].encoding@, rows[k].subscriber_topic_ids@, id);
}

/// There is a signature row for a name and encoding exactly where some endpoint advertises them,
/// and only one.
pub proof fn every_type_has_one_signature_row(
    rows: Seq<TypeSignature>,
    pubs: Seq<TopicEntry>,
    subs: Seq<TopicEntry>,
    name: Seq<char>,
    encoding: Seq<char>,
)
    requires
        are_signature_rows(rows, pubs, subs),
    ensures
        (exists|k: int| 0 <= k < rows.len() && (#[trigger] rows[k]).name@ == name && rows[k].encoding@
            == encoding) <==> ((exists|i: int| row_has_type(pubs, i, name, encoding)) || (exists|i: int|
            row_has_type(subs, i, name, encoding))),
        forall|a: int, b: int|
            0 <= a < rows.len() && 0 <= b < rows.len() && (#[trigger] rows[a]).name@ == (
            #[trigger] rows[b]).name@ && rows[a].encoding@ == rows[b].encoding@ ==> a == b,
{
    let p = row_pairs(rows);
    let sig = (name, encoding);
    lemma_advertised(pubs, name, encoding);
    lemma_advertised(subs, name, encoding);
    assert(p.to_set().contains(sig) <==> p.contains(sig));
    if exists|k: int| 0 <= k < rows.len() && (#[trigger] rows[k]).name@ == name && rows[k].encoding@ == encoding {
        let k = choose|k: int|
            0 <= k < rows.len() && (#[trigger] rows[k]).name@ == name && rows[k].encoding@ == encoding;
        assert(p[k] == sig);
    }
    if p.contains(sig) {
        let k = choose|k: int| 0 <= k < p.len() && p[k] == sig;
        assert(rows[k].name@ == name && rows[k].encoding@ == encoding);
    }
    assert forall|a: int, b: int|
        0 <= a < rows.len() && 0 <= b < rows.len() && (#[trigger] rows[a]).name@ == (
        #[trigger] rows[b]).name@ && rows[a].encoding@ == rows[b].encoding@ implies a == b by {
        pair_order_is_total(p[a], p[b]);
        if a < b {
            assert(pair_before(p[a], p[b]));
        } else if b < a {
            assert(pair_before(p[b], p[a]));
        }
    }
}

proof fn lemma_advertised(rows: Seq<TopicEntry>, name: Seq<char>, encoding: Seq<char>)
    ensures
        signatures_of(rows).contains((name, encoding)) <==> exists|i: int| row_has_type(rows, i, name, encoding),
{
    let s = rows.map_values(|e: TopicEntry| signature(e));
    assert(s.to_set().contains((name, encoding)) <==> s.contains((name, encoding)));
    if s.contains((name, encoding)) {
        let i = choose|i: int| 0 <= i < s.len() && s[i] == (name, encoding);
        assert(row_has_type(rows, i, name, encoding));
    }
    if exists|i: int| row_has_type(rows, i, name, encoding) {
        let i = choose|i: int| row_has_type(rows, i, name, encoding);
        assert(s[i] == (name, encoding));
    }
}

/// Layer `j` of row `i` is active and of this kind.
pub open spec fn layer_runs(rows: Seq<TopicEntry>, i: int, j: int, kind: Seq<char>) -> bool {
    &&& 0 <= i < rows.len()
    &&& 0 <= j < rows[i].transport_layer@.len()
    &&& rows[i].transport_layer@[j].active
    &&& rows[i].transport_layer@[j].layer_type@ == kind
}

/// Row `i` has an active layer of this kind.
pub open spec fn row_runs(rows: Seq<TopicEntry>, i: int, kind: Seq<char>) -> bool {
    exists|j: int| #[trigger] layer_runs(rows, i, j, kind)
}

/// Every row has an active layer of this kind.
pub open spec fn all_run(rows: Seq<TopicEntry>, kind: Seq<char>) -> bool {
    forall|i: int| 0 <= i < rows.len() ==> #[trigger] row_runs(rows, i, kind)
}

proof fn lemma_all_run(rows: Seq<TopicEntry>, kind: Seq<char>)
    ensures
        active_on_all(rows, kind) <==> all_run(rows, kind),
{
    if active_on_all(rows, kind) {
        assert forall|i: int| 0 <= i < rows.len() implies #[trigger] row_runs(rows, i, kind) by {
            assert(active_on(rows[i], kind));
            let j = choose|j: int| active_at(rows[i], j, kind);
            assert(layer_runs(rows, i, j, kind));
        }
    }
    if all_run(rows, kind) {
        assert forall|i: int| 0 <= i < rows.len() implies active_on(#[trigger] rows[i], kind) by {
            assert(row_runs(rows, i, kind));
            let j = choose|j: int| #[trigger] layer_runs(rows, i, j, kind);
            assert(active_at(rows[i], j, kind));
        }
    }
}

/// The common transports are, in order and once each, exactly the kinds of which every publisher
/// and every subscriber has an active layer, where there are both.
pub proof fn common_transports_run_everywhere(
    sv: TopicSurvey,
    snap: MonitoringSnapshot,
    topic: Seq<char>,
    kind: Seq<char>,
)
    requires
        is_survey(sv, snap, topic),
    ensures
        strictly_sorted(texts(sv.common_active_transport_layers@)),
        texts(sv.common_active_transport_layers@).contains(kind) <==> sv.publishers@.len() > 0
            && sv.subscribers@.len() > 0 && all_run(sv.publishers@, kind) && all_run(
            sv.subscribers@,
            kind,
        ),
{
    let t = texts(sv.common_active_transport_layers@);
    assert(t.to_set().contains(kind) <==> t.contains(kind));
    lemma_all_run(sv.publishers@, kind);
    lemma_all_run(sv.subscribers@, kind);
}

proof fn lemma_some_run(rows: Seq<TopicEntry>, kind: Seq<char>)
    ensures
        active_on_some(rows, kind) <==> exists|i: int, j: int| #[trigger] layer_runs(rows, i, j, kind),
{
    if active_on_some(rows, kind) {
        let i = choose|i: int| 0 <= i < rows.len() && active_on(#[trigger] rows[i], kind);
        let j = choose|j: int| active_at(rows[i], j, kind);
        assert(layer_runs(rows, i, j, kind));
    }
    if exists|i: int, j: int| #[trigger] layer_runs(rows, i, j, kind) {
        let (i, j) = choose|i: int, j: int| #[trigger] layer_runs(rows, i, j, kind);
        assert(active_at(rows[i], j, kind));
        assert(active_on(rows[i], kind));
    }
}

/// Some row has an active layer.
pub open spec fn some_layer_runs(rows: Seq<TopicEntry>) -> bool {
    exists|kind: Seq<char>, i: int, j: int| #[trigger] layer_runs(rows, i, j, kind)
}

/// Some publisher and some subscriber have an active layer of one kind.
pub open spec fn layers_meet(pubs: Seq<TopicEntry>, subs: Seq<TopicEntry>) -> bool {
    exists|kind: Seq<char>, i: int, j: int, k: int, l: int|
        #[trigger] layer_runs(pubs, i, j, kind) && #[trigger] layer_runs(subs, k, l, kind)
}

/// Whether both sides run a layer, and whether they run one of the same kind, is told from the
/// layers of the rows.
pub proof fn surveys_compare_active_layers(sv: TopicSurvey, snap: MonitoringSnapshot, topic: Seq<char>)
    requires
        is_survey(sv, snap, topic),
    ensures
        sv.both_sides_advertised <==> some_layer_runs(sv.publishers@) && some_layer_runs(sv.subscribers@),
        sv.sides_share_transport <==> layers_meet(sv.publishers@, sv.subscribers@),
{
    let p = sv.publishers@;
    let s = sv.subscribers@;
    assert forall|kind: Seq<char>| #[trigger] active_on_some(p, kind) <==> exists|i: int, j: int|
        #[trigger] layer_runs(p, i, j, kind) by {
        lemma_some_run(p, kind);
    }
    assert forall|kind: Seq<char>| #[trigger] active_on_some(s, kind) <==> exists|i: int, j: int|
        #[trigger] layer_runs(s, i, j, kind) by {
        lemma_some_run(s, kind);
    }
    if some_layer_runs(p) {
        let (kind, i, j) = choose|kind: Seq<char>, i: int, j: int| #[trigger] layer_runs(p, i, j, kind);
        assert(active_on_some(p, kind));
    }
    if some_layer_runs(s) {
        let (kind, i, j) = choose|kind: Seq<char>, i: int, j: int| #[trigger] layer_runs(s, i, j, kind);
        assert(active_on_some(s, kind));
    }
    if advertises(p) {
        let kind = choose|kind: Seq<char>| active_on_some(p, kind);
        let (i, j) = choose|i: int, j: int| #[trigger] layer_runs(p, i, j, kind);
        assert(layer_runs(p, i, j, kind));
    }
    if advertises(s) {
        let kind = choose|kind: Seq<char>| active_on_some(s, kind);
        let (i, j) = choose|i: int, j: int| #[trigger] layer_runs(s, i, j, kind);
        assert(layer_runs(s, i, j, kind));
    }
    if sides_share(p, s) {
        let kind = choose|kind: Seq<char>| active_on_some(p, kind) && active_on_some(s, kind);
        let (i, j) = choose|i: int, j: int| #[trigger] layer_runs(p, i, j, kind);
        let (k, l) = choose|k: int, l: int| #[trigger] layer_runs(s, k, l, kind);
        assert(layer_runs(p, i, j, kind) && layer_runs(s, k, l, kind));
    }
    if layers_meet(p, s) {
        let (kind, i, j, k, l) = choose|kind: Seq<char>, i: int, j: int, k: int, l: int|
            #[trigger] layer_runs(p, i, j, kind) && #[trigger] layer_runs(s, k, l, kind);
        assert(active_on_some(p, kind) && active_on_some(s, kind));
    }
}

/// The domains of a survey are, in order and once each, exactly those that its rows name.
pub proof fn surveys_list_every_domain(sv: TopicSurvey, snap: MonitoringSnapshot, topic: Seq<char>, d: Seq<char>)
    requires
        is_survey(sv, snap, topic),
    ensures
        strictly_sorted(texts(sv.shm_transport_domains@)),
        texts(sv.shm_transport_domains@).contains(d) <==> exists|i: int|
            0 <= i < (sv.publishers@ + sv.subscribers@).len() && (#[trigger] (sv.publishers@
                + sv.subscribers@)[i]).shm_transport_domain@ == d,
{
    let t = texts(sv.shm_transport_domains@);
    let p = sv.publishers@;
    let s = sv.subscribers@;
    let all = p + s;
    assert(t.to_set().contains(d) <==> t.contains(d));
    let pd = p.map_values(|e: TopicEntry| e.shm_transport_domain@);
    let sd = s.map_values(|e: TopicEntry| e.shm_transport_domain@);
    assert(pd.to_set().contains(d) <==> pd.contains(d));
    assert(sd.to_set().contains(d) <==> sd.contains(d));
    if pd.contains(d) {
        let i = choose|i: int| 0 <= i < pd.len() && pd[i] == d;
        assert(all[i].shm_transport_domain@ == d);
    }
    if sd.contains(d) {
        let i = choose|i: int| 0 <= i < sd.len() && sd[i] == d;
        assert(all[p.len() + i].shm_transport_domain@ == d);
    }
    if exists|i: int| 0 <= i < all.len() && (#[trigger] all[i]).shm_transport_domain@ == d {
        let i = choose|i: int| 0 <= i < all.len() && (#[trigger] all[i]).shm_transport_domain@ == d;
        if i < p.len() {
            assert(pd[i] == d);
        } else {
            assert(sd[i - p.len()] == d);
        }
    }
}

} // verus!
