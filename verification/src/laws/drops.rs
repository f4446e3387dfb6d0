//! Laws of drop counters across diagnoses.

use vstd::prelude::*;

use crate::drops::{
    counters_are_remembered, drop_finding, drop_findings, elapsed, first_sight_has_no_difference,
    lemma_finding_of, only_row, prior_of, pruned, publisher_keys, remembered, unseen, DropKey,
    DropMap,
};
use crate::entries::TopicEntry;
use crate::findings::{FindingCode, FindingView};
use crate::laws::details::lemma_parts;
use crate::laws::diagnosis::{is_diagnosis, Circumstances};
use crate::monitoring::MonitoringSnapshot;
use crate::survey::TopicSurvey;

verus! {

/// Finding `n` tells of the drops of subscriber `s`, with this difference and this window.
pub open spec fn drop_finding_at(
    f: Seq<FindingView>,
    n: int,
    s: TopicEntry,
    difference: Option<int>,
    window_ns: Option<int>,
) -> bool {
    &&& 0 <= n < f.len()
    &&& f[n].code == FindingCode::MessageDrops
    &&& f[n].detail is Some
    &&& f[n].detail->Some_0 is Drops
    &&& f[n].detail->Some_0->Drops_0.host_name == s.host_name@
    &&& f[n].detail->Some_0->Drops_0.unit_name == s.unit_name@
    &&& f[n].detail->Some_0->Drops_0.process_id == s.process_id
    &&& f[n].detail->Some_0->Drops_0.topic_id == s.topic_id
    &&& f[n].detail->Some_0->Drops_0.message_drops == s.message_drops
    &&& f[n].detail->Some_0->Drops_0.drops_since_last_snapshot == difference
    &&& f[n].detail->Some_0->Drops_0.window_ns == window_ns
}

/// `x` identifies a publisher, or is zero where there is none.
pub open spec fn is_publisher_key(pubs: Seq<TopicEntry>, x: i64) -> bool {
    if pubs.len() == 0 {
        x == 0
    } else {
        exists|i: int| 0 <= i < pubs.len() && (#[trigger] pubs[i]).topic_id == x
    }
}

proof fn lemma_keys(pubs: Seq<TopicEntry>, x: i64)
    ensures
        publisher_keys(pubs).contains(x) <==> is_publisher_key(pubs, x),
        publisher_keys(pubs).len() > 0,
{
    let keys = publisher_keys(pubs);
    if pubs.len() == 0 {
        assert(keys[0] == 0);
    } else {
        if keys.contains(x) {
            let i = choose|i: int| 0 <= i < keys.len() && keys[i] == x;
            assert(pubs[i].topic_id == x);
        }
        if exists|i: int| 0 <= i < pubs.len() && (#[trigger] pubs[i]).topic_id == x {
            let i = choose|i: int| 0 <= i < pubs.len() && (#[trigger] pubs[i]).topic_id == x;
            assert(keys[i] == x);
        }
    }
}

proof fn lemma_other_keys(m: DropMap, keys: Seq<i64>, subs: Seq<TopicEntry>, now: u64, key: DropKey)
    requires
        !keys.contains(key.0),
    ensures
        remembered(m, keys, subs, now).contains_key(key) == m.contains_key(key),
        m.contains_key(key) ==> remembered(m, keys, subs, now)[key] == m[key],
    decreases subs.len(),
{
    if subs.len() > 0 {
        lemma_other_keys(m, keys, subs.drop_last(), now, key);
    }
}

proof fn lemma_one_prior(m: DropMap, keys: Seq<i64>, id: i64, v: (i32, u64), k: int)
    requires
        0 <= k < keys.len(),
        m.contains_key((keys[k], id)),
        forall|j: int| 0 <= j < keys.len() && m.contains_key((#[trigger] keys[j], id)) ==> m[(keys[j], id)] == v,
    ensures
        prior_of(m, keys, id) == Some(v),
    decreases keys.len(),
{
    if m.contains_key((keys[0], id)) {
        assert(m[(keys[0], id)] == v);
    } else {
        let rest = keys.drop_first();
        assert forall|j: int| 0 <= j < rest.len() && m.contains_key((#[trigger] rest[j], id)) implies m[(
            rest[j],
            id,
        )] == v by {
            assert(rest[j] == keys[j + 1]);
        }
        assert(rest[k - 1] == keys[k]);
        lemma_one_prior(m, rest, id, v, k - 1);
    }
}

/// A diagnosis that follows another within sixty seconds, while a publisher of the one is still
/// one of the other, tells for a subscriber that dropped in both by how much its counter rose or
/// fell and how many nanoseconds lie between; after sixty seconds it tells of neither. A
/// subscriber is told by its identifier, which must occur once, and nothing older may be
/// remembered of it.
pub proof fn counters_are_compared_between_diagnoses(
    m: DropMap,
    pubs: Seq<TopicEntry>,
    subs: Seq<TopicEntry>,
    then: u64,
    i: int,
    f: Seq<FindingView>,
    sv: TopicSurvey,
    snap: MonitoringSnapshot,
    c: Circumstances,
    j: int,
    x: i64,
)
    requires
        is_diagnosis(f, sv, snap, c),
        c.drops == pruned(remembered(m, publisher_keys(pubs), subs, then), c.now),
        then <= c.now,
        is_publisher_key(pubs, x),
        is_publisher_key(sv.publishers@, x),
        0 <= i < subs.len(),
        0 <= j < sv.subscribers@.len(),
        only_row(subs, i),
        only_row(sv.subscribers@, j),
        subs[i].topic_id == sv.subscribers@[j].topic_id,
        subs[i].message_drops > 0,
        sv.subscribers@[j].message_drops > 0,
        forall|y: i64| #![auto] !m.contains_key((y, subs[i].topic_id)),
    ensures
        c.now - then <= 60_000_000_000 ==> exists|n: int|
            #[trigger] drop_finding_at(
                f,
                n,
                sv.subscribers@[j],
                Some(sv.subscribers@[j].message_drops - subs[i].message_drops),
                Some(c.now - then),
            ),
        c.now - then > 60_000_000_000 ==> exists|n: int|
            #[trigger] drop_finding_at(f, n, sv.subscribers@[j], None, None),
{
    let k1 = publisher_keys(pubs);
    let k2 = publisher_keys(sv.publishers@);
    let kept = remembered(m, k1, subs, then);
    let left = c.drops;
    let s = sv.subscribers@[j];
    let id = s.topic_id;
    let v = (subs[i].message_drops, then);
    lemma_keys(pubs, x);
    lemma_keys(sv.publishers@, x);
    assert forall|y: int| 0 <= y < k2.len() implies (kept.contains_key((#[trigger] k2[y], id)) <==> k1.contains(
        k2[y],
    )) && (kept.contains_key((k2[y], id)) ==> kept[(k2[y], id)] == v) by {
        if k1.contains(k2[y]) {
            let z = choose|z: int| 0 <= z < k1.len() && k1[z] == k2[y];
            counters_are_remembered(m, k1, subs, then, i, z);
        } else {
            lemma_other_keys(m, k1, subs, then, (k2[y], id));
            assert(!m.contains_key((k2[y], id)));
        }
    }
    let prior = if c.now - then <= 60_000_000_000 {
        Some(v)
    } else {
        None
    };
    if c.now - then <= 60_000_000_000 {
        let y = choose|y: int| 0 <= y < k2.len() && k2[y] == x;
        assert(left.contains_key((k2[y], id)));
        assert forall|z: int| 0 <= z < k2.len() && left.contains_key((#[trigger] k2[z], id)) implies left[(
            k2[z],
            id,
        )] == v by {}
        lemma_one_prior(left, k2, id, v, y);
    } else {
        assert(unseen(left, k2, id));
    }
    lemma_told_of_drops(f, sv, snap, c, j, prior);
}

spec fn difference(s: TopicEntry, prior: Option<(i32, u64)>) -> Option<int> {
    match prior {
        Some(p) => Some(s.message_drops - p.0),
        None => None,
    }
}

spec fn window(now: u64, prior: Option<(i32, u64)>) -> Option<int> {
    match prior {
        Some(p) => Some(now - p.1),
        None => None,
    }
}

proof fn lemma_told_of_drops(
    f: Seq<FindingView>,
    sv: TopicSurvey,
    snap: MonitoringSnapshot,
    c: Circumstances,
    j: int,
    prior: Option<(i32, u64)>,
)
    requires
        is_diagnosis(f, sv, snap, c),
        0 <= j < sv.subscribers@.len(),
        only_row(sv.subscribers@, j),
        sv.subscribers@[j].message_drops > 0,
        prior is Some ==> prior_of(c.drops, publisher_keys(sv.publishers@), sv.subscribers@[j].topic_id)
            == prior,
        prior is None ==> unseen(
            c.drops,
            publisher_keys(sv.publishers@),
            sv.subscribers@[j].topic_id,
        ),
        prior matches Some(p) ==> p.1 <= c.now,
    ensures
        exists|n: int|
            #[trigger] drop_finding_at(
                f,
                n,
                sv.subscribers@[j],
                difference(sv.subscribers@[j], prior),
                window(c.now, prior),
            ),
{
    let keys = publisher_keys(sv.publishers@);
    let s = sv.subscribers@[j];
    let x = drop_finding(s, prior, c.now);
    if prior is None {
        first_sight_has_no_difference(c.drops, keys, sv.subscribers@, c.now, j);
    } else {
        lemma_finding_of(c.drops, keys, sv.subscribers@, c.now, j);
    }
    lemma_parts(f, sv, snap, c, x);
    let n = choose|n: int| 0 <= n < f.len() && f[n] == x;
    assert(drop_finding_at(f, n, s, difference(s, prior), window(c.now, prior)));
}

/// Where nothing is remembered at all, as after start, a subscriber that drops is told of without
/// a difference.
pub proof fn the_first_diagnosis_has_no_difference(
    f: Seq<FindingView>,
    sv: TopicSurvey,
    snap: MonitoringSnapshot,
    c: Circumstances,
    j: int,
)
    requires
        is_diagnosis(f, sv, snap, c),
        c.drops == pruned(Map::empty(), c.now),
        0 <= j < sv.subscribers@.len(),
        only_row(sv.subscribers@, j),
        sv.subscribers@[j].message_drops > 0,
    ensures
        exists|n: int| #[trigger] drop_finding_at(f, n, sv.subscribers@[j], None, None),
{
    lemma_told_of_drops(f, sv, snap, c, j, None);
}

/// Every subscriber that drops is told of, whatever is remembered.
pub proof fn every_dropping_subscriber_is_told_of(
    f: Seq<FindingView>,
    sv: TopicSurvey,
    snap: MonitoringSnapshot,
    c: Circumstances,
    j: int,
)
    requires
        is_diagnosis(f, sv, snap, c),
        0 <= j < sv.subscribers@.len(),
        sv.subscribers@[j].message_drops > 0,
    ensures
        exists|n: int, a: Option<int>, b: Option<int>|
            #[trigger] drop_finding_at(f, n, sv.subscribers@[j], a, b),
{
    let keys = publisher_keys(sv.publishers@);
    let s = sv.subscribers@[j];
    let prior = lemma_some_drop(c.drops, keys, sv.subscribers@, c.now, j);
    let x = drop_finding(s, prior, c.now);
    lemma_parts(f, sv, snap, c, x);
    let n = choose|n: int| 0 <= n < f.len() && f[n] == x;
    let a = match prior {
        Some(p) => Some(s.message_drops - p.0),
        None => None,
    };
    let b = match prior {
        Some(p) => Some(elapsed(c.now, p.1)),
        None => None,
    };
    assert(drop_finding_at(f, n, s, a, b));
}

proof fn lemma_some_drop(m: DropMap, keys: Seq<i64>, subs: Seq<TopicEntry>, now: u64, j: int) -> (prior: Option<
    (i32, u64),
>)
    requires
        0 <= j < subs.len(),
        subs[j].message_drops > 0,
    ensures
        drop_findings(m, keys, subs, now).contains(drop_finding(subs[j], prior, now)),
    decreases subs.len(),
{
    let rest = subs.drop_last();
    let all = drop_findings(m, keys, subs, now);
    let before = drop_findings(m, keys, rest, now);
    if j < subs.len() - 1 {
        let prior = lemma_some_drop(m, keys, rest, now, j);
        let k = choose|k: int| 0 <= k < before.len() && before[k] == drop_finding(rest[j], prior, now);
        assert(all[k] == before[k]);
        prior
    } else {
        let prior = prior_of(remembered(m, keys, rest, now), keys, subs.last().topic_id);
        assert(all[all.len() - 1] == drop_finding(subs[j], prior, now));
        prior
    }
}

/// What is remembered after a diagnosis: the counter of each subscriber that drops, under every
/// publisher, and of others what was remembered before.
pub proof fn diagnoses_remember_what_they_saw(
    m: DropMap,
    pubs: Seq<TopicEntry>,
    subs: Seq<TopicEntry>,
    now: u64,
    x: i64,
    id: i64,
)
    ensures
        ({
            let after = remembered(m, publisher_keys(pubs), subs, now);
            &&& is_publisher_key(pubs, x) && (exists|i: int|
                0 <= i < subs.len() && (#[trigger] subs[i]).topic_id == id && subs[i].message_drops > 0)
                ==> after.contains_key((x, id)) && after[(x, id)].1 == now && exists|i: int|
                0 <= i < subs.len() && (#[trigger] subs[i]).topic_id == id && subs[i].message_drops
                    == after[(x, id)].0
            &&& !(is_publisher_key(pubs, x) && (exists|i: int|
                0 <= i < subs.len() && (#[trigger] subs[i]).topic_id == id && subs[i].message_drops > 0))
                ==> after.contains_key((x, id)) == m.contains_key((x, id)) && (m.contains_key((x, id))
                ==> after[(x, id)] == m[(x, id)])
        }),
{
    lemma_keys(pubs, x);
    lemma_remembered(m, publisher_keys(pubs), subs, now, x, id);
}

proof fn lemma_remembered(m: DropMap, keys: Seq<i64>, subs: Seq<TopicEntry>, now: u64, x: i64, id: i64)
    ensures
        ({
            let after = remembered(m, keys, subs, now);
            &&& keys.contains(x) && (exists|i: int|
                0 <= i < subs.len() && (#[trigger] subs[i]).topic_id == id && subs[i].message_drops > 0)
                ==> after.contains_key((x, id)) && after[(x, id)].1 == now && exists|i: int|
                0 <= i < subs.len() && (#[trigger] subs[i]).topic_id == id && subs[i].message_drops
                    == after[(x, id)].0
            &&& !(keys.contains(x) && (exists|i: int|
                0 <= i < subs.len() && (#[trigger] subs[i]).topic_id == id && subs[i].message_drops > 0))
                ==> after.contains_key((x, id)) == m.contains_key((x, id)) && (m.contains_key((x, id))
                ==> after[(x, id)] == m[(x, id)])
        }),
    decreases subs.len(),
{
    if subs.len() > 0 {
        let rest = subs.drop_last();
        let last = subs.len() - 1;
        lemma_remembered(m, keys, rest, now, x, id);
        assert forall|i: int| 0 <= i < rest.len() implies rest[i] == #[trigger] subs[i] by {}
        let before = remembered(m, keys, rest, now);
        let after = remembered(m, keys, subs, now);
        let s = subs.last();
        assert(subs[last] == s);
        if s.message_drops > 0 && s.topic_id == id && keys.contains(x) {
            assert(after[(x, id)] == (s.message_drops, now));
            assert(subs[last].topic_id == id && subs[last].message_drops == after[(x, id)].0);
        } else {
            assert(after.contains_key((x, id)) == before.contains_key((x, id)));
            if exists|i: int| 0 <= i < rest.len() && (#[trigger] rest[i]).topic_id == id && rest[i].message_drops > 0 {
                let i = choose|i: int|
                    0 <= i < rest.len() && (#[trigger] rest[i]).topic_id == id && rest[i].message_drops > 0;
                assert(subs[i].topic_id == id && subs[i].message_drops > 0);
            }
            if keys.contains(x) && exists|i: int|
                0 <= i < subs.len() && (#[trigger] subs[i]).topic_id == id && subs[i].message_drops > 0 {
                let i = choose|i: int|
                    0 <= i < subs.len() && (#[trigger] subs[i]).topic_id == id && subs[i].message_drops > 0;
                assert(rest[i].topic_id == id);
                let j = choose|j: int|
                    0 <= j < rest.len() && (#[trigger] rest[j]).topic_id == id && rest[j].message_drops
                        == before[(x, id)].0;
                assert(subs[j].topic_id == id && subs[j].message_drops == after[(x, id)].0);
            }
        }
    }
}

/// What is still remembered is exactly what was seen within sixty seconds.
pub proof fn counters_are_kept_for_a_minute(m: DropMap, now: u64, k: DropKey)
    ensures
        pruned(m, now).contains_key(k) <==> m.contains_key(k) && now - m[k].1 <= 60_000_000_000,
        pruned(m, now).contains_key(k) ==> pruned(m, now)[k] == m[k],
{
}

} // verus!
