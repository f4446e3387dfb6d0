//! Drop counters of subscribers as they were last seen, and what became of them since.

use vstd::prelude::*;

use crate::entries::TopicEntry;
use crate::findings::{
    finding, finding_views, found, DetailView, DropsDetail, DropsView, Finding, FindingCode,
    FindingDetail, FindingView,
};
use crate::seqs::prefix_set_step;
use crate::text::{push_signed, signed_decimal};

verus! {

/// How long a counter is remembered: sixty seconds, in nanoseconds.
pub const DROP_CACHE_TTL_NS: u64 = 60_000_000_000;

/// Counter of one subscriber, under one publisher, as it was at one moment.
#[derive(Debug, Clone, Copy)]
struct DropRecord {
    topic_id: i64,
    subscriber_topic_id: i64,
    message_drops: i32,
    /// Nanoseconds on the clock of the observer.
    observed_ns: u64,
}

/// Identifiers of a publisher and of a subscriber.
pub type DropKey = (i64, i64);

/// Remembered counters with the moments at which they were seen.
pub type DropMap = Map<DropKey, (i32, u64)>;

spec fn key_of(r: DropRecord) -> DropKey {
    (r.topic_id, r.subscriber_topic_id)
}

spec fn holds(s: Seq<DropRecord>, i: int, k: DropKey) -> bool {
    0 <= i < s.len() && key_of(s[i]) == k
}

spec fn content(s: Seq<DropRecord>) -> DropMap {
    Map::new(
        |k: DropKey| exists|i: int| holds(s, i, k),
        |k: DropKey|
            {
                let r = s[choose|i: int| holds(s, i, k)];
                (r.message_drops, r.observed_ns)
            },
    )
}

/// No key occurs twice, and only positive counters are kept.
spec fn tidy(s: Seq<DropRecord>) -> bool {
    &&& forall|i: int, j: int|
        0 <= i < s.len() && 0 <= j < s.len() && key_of(#[trigger] s[i]) == key_of(#[trigger] s[j]) ==> i == j
    &&& forall|i: int| 0 <= i < s.len() ==> (#[trigger] s[i]).message_drops > 0
}

proof fn lemma_content_at(s: Seq<DropRecord>, i: int)
    requires
        tidy(s),
        0 <= i < s.len(),
    ensures
        content(s).contains_key(key_of(s[i])),
        content(s)[key_of(s[i])] == (s[i].message_drops, s[i].observed_ns),
{
    let k = key_of(s[i]);
    assert(holds(s, i, k));
    let j = choose|j: int| holds(s, j, k);
    assert(holds(s, j, k));
    assert(i == j);
}

/// Time from `then` to `now`; none where the clock reads earlier.
pub open spec fn elapsed(now: u64, then: u64) -> int {
    if now >= then {
        now - then
    } else {
        0
    }
}

/// What is left of the remembered counters at `now`.
pub open spec fn pruned(m: DropMap, now: u64) -> DropMap {
    Map::new(
        |k: DropKey| m.contains_key(k) && elapsed(now, m[k].1) <= DROP_CACHE_TTL_NS,
        |k: DropKey| m[k],
    )
}

fn prune(records: &Vec<DropRecord>, now: u64) -> (r: Vec<DropRecord>)
    requires
        tidy(records@),
    ensures
        tidy(r@),
        content(r@) == pruned(content(records@), now),
{
    let mut r: Vec<DropRecord> = Vec::new();
    let mut i: usize = 0;
    let ghost mut from: Seq<int> = Seq::empty();
    while i < records.len()
        invariant
            i <= records.len(),
            from.len() == r.len(),
            forall|a: int| 0 <= a < r.len() ==> 0 <= #[trigger] from[a] < i && r@[a] == records@[from[a]],
            forall|a: int, b: int| 0 <= a < b < r.len() ==> #[trigger] from[a] < #[trigger] from[b],
            forall|a: int|
                0 <= a < r.len() ==> elapsed(now, (#[trigger] r@[a]).observed_ns) <= DROP_CACHE_TTL_NS,
            forall|k: int|
                0 <= k < i && elapsed(now, (#[trigger] records@[k]).observed_ns) <= DROP_CACHE_TTL_NS
                    ==> from.contains(k),
        decreases records.len() - i,
    {
        let rec = records[i];
        let age: u64 = if now >= rec.observed_ns {
            now - rec.observed_ns
        } else {
            0
        };
        let ghost from0 = from;
        if age <= DROP_CACHE_TTL_NS {
            r.push(rec);
            proof {
                from = from.push(i as int);
                assert(from[from0.len() as int] == i);
            }
        }
        proof {
            assert forall|k: int|
                0 <= k < i + 1 && elapsed(now, (#[trigger] records@[k]).observed_ns) <= DROP_CACHE_TTL_NS
                implies from.contains(k) by {
                if k < i {
                    assert(from0.contains(k));
                    let a = choose|a: int| 0 <= a < from0.len() && from0[a] == k;
                    assert(from[a] == k);
                }
            }
        }
        i += 1;
    }
    proof {
        let m = content(records@);
        let n = content(r@);
        assert forall|a: int, b: int|
            0 <= a < r.len() && 0 <= b < r.len() && key_of(#[trigger] r@[a]) == key_of(#[trigger] r@[b])
            implies a == b by {
            assert(r@[a] == records@[from[a]]);
            assert(r@[b] == records@[from[b]]);
            assert(from[a] == from[b]);
            if a < b {
                assert(from[a] < from[b]);
            } else if b < a {
                assert(from[b] < from[a]);
            }
        }
        assert forall|a: int| 0 <= a < r.len() implies (#[trigger] r@[a]).message_drops > 0 by {
            assert(r@[a] == records@[from[a]]);
        }
        assert forall|k: DropKey| #[trigger] n.contains_key(k) <==> pruned(m, now).contains_key(k) by {
            if n.contains_key(k) {
                let a = choose|a: int| holds(r@, a, k);
                assert(r@[a] == records@[from[a]]);
                lemma_content_at(records@, from[a]);
            }
            if pruned(m, now).contains_key(k) {
                let j = choose|j: int| holds(records@, j, k);
                lemma_content_at(records@, j);
                assert(from.contains(j));
                let a = choose|a: int| 0 <= a < from.len() && from[a] == j;
                assert(holds(r@, a, k));
            }
        }
        assert forall|k: DropKey| n.contains_key(k) implies #[trigger] n[k] == pruned(m, now)[k] by {
            let a = choose|a: int| holds(r@, a, k);
            lemma_content_at(r@, a);
            assert(r@[a] == records@[from[a]]);
            lemma_content_at(records@, from[a]);
        }
        assert(n =~= pruned(m, now));
    }
    r
}

fn index_of(records: &Vec<DropRecord>, publisher: i64, subscriber: i64) -> (r: Option<usize>)
    requires
        tidy(records@),
    ensures
        r matches Some(i) ==> i < records.len() && key_of(records@[i as int]) == (publisher, subscriber),
        r is None <==> !content(records@).contains_key((publisher, subscriber)),
{
    let ghost k = (publisher, subscriber);
    let mut i: usize = 0;
    while i < records.len()
        invariant
            i <= records.len(),
            k == (publisher, subscriber),
            tidy(records@),
            forall|j: int| 0 <= j < i ==> key_of(#[trigger] records@[j]) != k,
        decreases records.len() - i,
    {
        if records[i].topic_id == publisher && records[i].subscriber_topic_id == subscriber {
            proof {
                lemma_content_at(records@, i as int);
            }
            return Some(i);
        }
        i += 1;
    }
    proof {
        if content(records@).contains_key(k) {
            let j = choose|j: int| holds(records@, j, k);
            assert(key_of(records@[j]) == k);
        }
    }
    None
}

fn put(records: &mut Vec<DropRecord>, publisher: i64, subscriber: i64, drops: i32, now: u64)
    requires
        tidy(old(records)@),
        drops > 0,
    ensures
        tidy(final(records)@),
        content(final(records)@) == content(old(records)@).insert((publisher, subscriber), (drops, now)),
{
    let ghost k = (publisher, subscriber);
    let ghost s = records@;
    let rec = DropRecord {
        topic_id: publisher,
        subscriber_topic_id: subscriber,
        message_drops: drops,
        observed_ns: now,
    };
    let place = index_of(records, publisher, subscriber);
    match place {
        Some(i) => {
            records.set(i, rec);
        },
        None => {
            records.push(rec);
        },
    }
    proof {
        let t = records@;
        let at: int = match place {
            Some(i) => i as int,
            None => s.len() as int,
        };
        assert(t[at] == rec);
        assert forall|i: int| 0 <= i < t.len() && i != at implies #[trigger] t[i] == s[i] && key_of(s[i]) != k by {
            if place is None {
                lemma_content_at(s, i);
            } else {
                assert(key_of(s[i]) == key_of(s[at]) ==> i == at);
            }
        }
        assert(tidy(t));
        assert forall|q: DropKey| #[trigger] content(t).contains_key(q) <==> content(s).insert(k, (drops, now)).contains_key(q) by {
            if content(t).contains_key(q) {
                let i = choose|i: int| holds(t, i, q);
                if i != at {
                    assert(t[i] == s[i]);
                    assert(holds(s, i, q));
                }
            }
            if content(s).contains_key(q) {
                let i = choose|i: int| holds(s, i, q);
                if q != k {
                    assert(i != at);
                    assert(t[i] == s[i]);
                    assert(holds(t, i, q));
                }
            }
            if q == k {
                assert(holds(t, at, q));
            }
        }
        assert forall|q: DropKey| content(t).contains_key(q) implies #[trigger] content(t)[q] == content(s).insert(
            k,
            (drops, now),
        )[q] by {
            let i = choose|i: int| holds(t, i, q);
            lemma_content_at(t, i);
            if i != at {
                assert(t[i] == s[i]);
                lemma_content_at(s, i);
            }
        }
        assert(content(t) =~= content(s).insert(k, (drops, now)));
    }
}

/// The publishers under which a subscriber's counter is kept: all that are visible, since any
/// may have caused the drops, and zero where none is.
pub open spec fn publisher_keys(pubs: Seq<TopicEntry>) -> Seq<i64> {
    if pubs.len() == 0 {
        seq![0i64]
    } else {
        pubs.map_values(|p: TopicEntry| p.topic_id)
    }
}

/// The counter last seen: that under the first publisher that has one.
pub open spec fn prior_of(m: DropMap, keys: Seq<i64>, subscriber: i64) -> Option<(i32, u64)>
    decreases keys.len(),
{
    if keys.len() == 0 {
        None
    } else if m.contains_key((keys[0], subscriber)) {
        Some(m[(keys[0], subscriber)])
    } else {
        prior_of(m, keys.drop_first(), subscriber)
    }
}

/// The remembered counters once a subscriber's counter was kept under every publisher.
pub open spec fn recorded(m: DropMap, keys: Seq<i64>, subscriber: i64, drops: i32, now: u64) -> DropMap {
    Map::new(
        |k: DropKey| m.contains_key(k) || (k.1 == subscriber && keys.contains(k.0)),
        |k: DropKey|
            if k.1 == subscriber && keys.contains(k.0) {
                (drops, now)
            } else {
                m[k]
            },
    )
}

/// The remembered counters after the subscribers were gone through in turn.
pub open spec fn remembered(m: DropMap, keys: Seq<i64>, subs: Seq<TopicEntry>, now: u64) -> DropMap
    decreases subs.len(),
{
    if subs.len() == 0 {
        m
    } else {
        let before = remembered(m, keys, subs.drop_last(), now);
        let s = subs.last();
        if s.message_drops <= 0 {
            before
        } else {
            recorded(before, keys, s.topic_id, s.message_drops, now)
        }
    }
}

/// The wording of a drop finding.
pub open spec fn drop_message(s: TopicEntry) -> Seq<char> {
    "subscriber "@ + s.unit_name@ + " (pid "@ + signed_decimal(s.process_id as int) + ") on "@ + s.host_name@
        + " reports "@ + signed_decimal(s.message_drops as int) + " message drop(s) since registration"@
}

/// The finding on one subscriber that drops, given its counter as last seen.
pub open spec fn drop_finding(s: TopicEntry, prior: Option<(i32, u64)>, now: u64) -> FindingView {
    found(
        FindingCode::MessageDrops,
        drop_message(s),
        Some(
            DetailView::Drops(
                DropsView {
                    host_name: s.host_name@,
                    unit_name: s.unit_name@,
                    process_id: s.process_id,
                    topic_id: s.topic_id,
                    message_drops: s.message_drops,
                    drops_since_last_snapshot: match prior {
                        Some(p) => Some(s.message_drops - p.0),
                        None => None,
                    },
                    window_ns: match prior {
                        Some(p) => Some(elapsed(now, p.1)),
                        None => None,
                    },
                },
            ),
        ),
    )
}

/// One finding for each subscriber whose counter is positive, in order.
pub open spec fn drop_findings(m: DropMap, keys: Seq<i64>, subs: Seq<TopicEntry>, now: u64) -> Seq<FindingView>
    decreases subs.len(),
{
    if subs.len() == 0 {
        Seq::empty()
    } else {
        let before = drop_findings(m, keys, subs.drop_last(), now);
        let s = subs.last();
        if s.message_drops <= 0 {
            before
        } else {
            before.push(
                drop_finding(
                    s,
                    prior_of(remembered(m, keys, subs.drop_last(), now), keys, s.topic_id),
                    now,
                ),
            )
        }
    }
}

/// Drop counters by publisher and subscriber, each with the moment at which it was seen.
#[derive(Debug)]
pub struct DropsCache {
    records: Vec<DropRecord>,
}

impl View for DropsCache {
    type V = DropMap;

    closed spec fn view(&self) -> DropMap {
        content(self.records@)
    }
}

fn prior_record(records: &Vec<DropRecord>, keys: &Vec<i64>, subscriber: i64) -> (r: Option<(i32, u64)>)
    requires
        tidy(records@),
    ensures
        r == prior_of(content(records@), keys@, subscriber),
        r matches Some(p) ==> p.0 > 0,
{
    let mut i: usize = 0;
    assert(keys@.skip(0) =~= keys@);
    while i < keys.len()
        invariant
            i <= keys.len(),
            tidy(records@),
            prior_of(content(records@), keys@, subscriber) == prior_of(
                content(records@),
                keys@.skip(i as int),
                subscriber,
            ),
        decreases keys.len() - i,
    {
        assert(keys@.skip(i as int).drop_first() =~= keys@.skip(i + 1));
        if let Some(at) = index_of(records, keys[i], subscriber) {
            proof {
                lemma_content_at(records@, at as int);
            }
            return Some((records[at].message_drops, records[at].observed_ns));
        }
        i += 1;
    }
    None
}

fn record_all(records: &mut Vec<DropRecord>, keys: &Vec<i64>, subscriber: i64, drops: i32, now: u64)
    requires
        tidy(old(records)@),
        drops > 0,
    ensures
        tidy(final(records)@),
        content(final(records)@) == recorded(content(old(records)@), keys@, subscriber, drops, now),
{
    let ghost m = content(records@);
    let mut i: usize = 0;
    assert(m =~= recorded(m, keys@.take(0), subscriber, drops, now));
    while i < keys.len()
        invariant
            i <= keys.len(),
            tidy(records@),
            drops > 0,
            content(records@) == recorded(m, keys@.take(i as int), subscriber, drops, now),
        decreases keys.len() - i,
    {
        put(records, keys[i], subscriber, drops, now);
        proof {
            let a = keys@.take(i as int);
            let b = keys@.take(i + 1);
            prefix_set_step(keys@, i as int);
            assert forall|x: i64| #[trigger] b.contains(x) <==> (a.contains(x) || x == keys@[i as int]) by {
                assert(b.to_set().contains(x) <==> b.contains(x));
                assert(a.to_set().contains(x) <==> a.contains(x));
            }
            assert(recorded(m, a, subscriber, drops, now).insert(
                (keys@[i as int], subscriber),
                (drops, now),
            ) =~= recorded(m, b, subscriber, drops, now));
        }
        i += 1;
    }
    assert(keys@.take(i as int) =~= keys@);
}

fn keys_of(pubs: &[TopicEntry]) -> (r: Vec<i64>)
    ensures
        r@ == publisher_keys(pubs@),
{
    let mut r: Vec<i64> = Vec::new();
    if pubs.len() == 0 {
        r.push(0);
        assert(r@ =~= publisher_keys(pubs@));
        return r;
    }
    let mut i: usize = 0;
    while i < pubs.len()
        invariant
            i <= pubs.len(),
            r.len() == i,
            forall|k: int| 0 <= k < i ==> #[trigger] r@[k] == pubs@[k].topic_id,
        decreases pubs.len() - i,
    {
        r.push(pubs[i].topic_id);
        i += 1;
    }
    assert(r@ =~= publisher_keys(pubs@));
    r
}

fn build_drop_finding(s: &TopicEntry, prior: Option<(i32, u64)>, now: u64) -> (r: Finding)
    requires
        s.message_drops > 0,
        prior matches Some(p) ==> p.0 > 0,
    ensures
        r@ == drop_finding(*s, prior, now),
{
    let mut message = "subscriber ".to_owned();
    message.append(s.unit_name.as_str());
    message.append(" (pid ");
    push_signed(&mut message, s.process_id as i64);
    message.append(") on ");
    message.append(s.host_name.as_str());
    message.append(" reports ");
    push_signed(&mut message, s.message_drops as i64);
    message.append(" message drop(s) since registration");
    let (drops_since_last_snapshot, window_ns): (Option<i32>, Option<u64>) = match prior {
        Some(p) => {
            let window: u64 = if now >= p.1 {
                now - p.1
            } else {
                0
            };
            (Some(s.message_drops - p.0), Some(window))
        },
        None => (None, None),
    };
    finding(
        FindingCode::MessageDrops,
        message,
        Some(
            FindingDetail::Drops(
                DropsDetail {
                    host_name: s.host_name.clone(),
                    unit_name: s.unit_name.clone(),
                    process_id: s.process_id,
                    topic_id: s.topic_id,
                    message_drops: s.message_drops,
                    drops_since_last_snapshot,
                    window_ns,
                },
            ),
        ),
    )
}

impl DropsCache {
    #[verifier::type_invariant]
    spec fn well_formed(self) -> bool {
        tidy(self.records@)
    }

    /// Nothing seen yet.
    pub fn new() -> (r: DropsCache)
        ensures
            r@ == Map::<DropKey, (i32, u64)>::empty(),
    {
        let r = DropsCache { records: Vec::new() };
        assert(r@ =~= Map::<DropKey, (i32, u64)>::empty());
        r
    }

    /// Forgets what is too old, reports on each subscriber that drops, and remembers its counter.
    pub fn observe(&mut self, pubs: &[TopicEntry], subs: &[TopicEntry], now: u64) -> (r: Vec<Finding>)
        ensures
            final(self)@ == remembered(pruned(old(self)@, now), publisher_keys(pubs@), subs@, now),
            finding_views(r@) == drop_findings(pruned(old(self)@, now), publisher_keys(pubs@), subs@, now),
    {
        proof {
            use_type_invariant(&*self);
        }
        let mut records = prune(&self.records, now);
        let ghost m = content(records@);
        let keys = keys_of(pubs);
        let mut r: Vec<Finding> = Vec::new();
        let mut i: usize = 0;
        assert(subs@.take(0) =~= Seq::<TopicEntry>::empty());
        assert(finding_views(r@) =~= Seq::<FindingView>::empty());
        while i < subs.len()
            invariant
                i <= subs.len(),
                tidy(records@),
                keys@ == publisher_keys(pubs@),
                content(records@) == remembered(m, keys@, subs@.take(i as int), now),
                finding_views(r@) == drop_findings(m, keys@, subs@.take(i as int), now),
            decreases subs.len() - i,
        {
            let s = &subs[i];
            proof {
                assert(subs@.take(i + 1).drop_last() =~= subs@.take(i as int));
                assert(subs@.take(i + 1).last() == *s);
            }
            if s.message_drops > 0 {
                let prior = prior_record(&records, &keys, s.topic_id);
                record_all(&mut records, &keys, s.topic_id, s.message_drops, now);
                let ghost before = finding_views(r@);
                r.push(build_drop_finding(s, prior, now));
                assert(finding_views(r@) =~= before.push(drop_finding(*s, prior, now)));
            }
            i += 1;
        }
        assert(subs@.take(i as int) =~= subs@);
        *self = DropsCache { records };
        r
    }
}

/// No other row is of the endpoint of row `i`.
pub open spec fn only_row(rows: Seq<TopicEntry>, i: int) -> bool {
    forall|k: int| 0 <= k < rows.len() && (#[trigger] rows[k]).topic_id == rows[i].topic_id ==> k == i
}

/// Nothing is remembered of a subscriber under these publishers.
pub open spec fn unseen(m: DropMap, keys: Seq<i64>, subscriber: i64) -> bool {
    forall|k: int| 0 <= k < keys.len() ==> !m.contains_key((#[trigger] keys[k], subscriber))
}

proof fn lemma_prior_unseen(m: DropMap, keys: Seq<i64>, subscriber: i64)
    requires
        unseen(m, keys, subscriber),
    ensures
        prior_of(m, keys, subscriber) is None,
    decreases keys.len(),
{
    if keys.len() > 0 {
        assert(!m.contains_key((keys[0], subscriber)));
        assert forall|k: int| 0 <= k < keys.drop_first().len() implies !m.contains_key(
            (#[trigger] keys.drop_first()[k], subscriber),
        ) by {
            assert(keys.drop_first()[k] == keys[k + 1]);
        }
        lemma_prior_unseen(m, keys.drop_first(), subscriber);
    }
}

/// Going through subscribers does not touch what is remembered of another one.
proof fn lemma_others_untouched(m: DropMap, keys: Seq<i64>, subs: Seq<TopicEntry>, now: u64, key: DropKey)
    requires
        forall|i: int| 0 <= i < subs.len() ==> (#[trigger] subs[i]).topic_id != key.1,
    ensures
        remembered(m, keys, subs, now).contains_key(key) == m.contains_key(key),
        m.contains_key(key) ==> remembered(m, keys, subs, now)[key] == m[key],
    decreases subs.len(),
{
    if subs.len() > 0 {
        let rest = subs.drop_last();
        assert forall|i: int| 0 <= i < rest.len() implies (#[trigger] rest[i]).topic_id != key.1 by {
            assert(subs[i].topic_id != key.1);
        }
        lemma_others_untouched(m, keys, rest, now, key);
        assert(subs[subs.len() - 1].topic_id != key.1);
    }
}

/// The finding on subscriber `i` goes by what was remembered of it before this round.
pub(crate) proof fn lemma_finding_of(m: DropMap, keys: Seq<i64>, subs: Seq<TopicEntry>, now: u64, i: int)
    requires
        0 <= i < subs.len(),
        only_row(subs, i),
        subs[i].message_drops > 0,
    ensures
        drop_findings(m, keys, subs, now).contains(
            drop_finding(subs[i], prior_of(m, keys, subs[i].topic_id), now),
        ),
    decreases subs.len(),
{
    let rest = subs.drop_last();
    let all = drop_findings(m, keys, subs, now);
    let before = drop_findings(m, keys, rest, now);
    let want = drop_finding(subs[i], prior_of(m, keys, subs[i].topic_id), now);
    if i < subs.len() - 1 {
        assert(only_row(rest, i)) by {
            assert forall|k: int| 0 <= k < rest.len() && (#[trigger] rest[k]).topic_id == rest[i].topic_id implies k == i by {
                assert(subs[k].topic_id == subs[i].topic_id);
            }
        }
        lemma_finding_of(m, keys, rest, now, i);
        let k = choose|k: int| 0 <= k < before.len() && before[k] == want;
        assert(all[k] == want);
    } else {
        let later = remembered(m, keys, rest, now);
        let id = subs[i].topic_id;
        assert forall|k: int| 0 <= k < keys.len() implies later.contains_key((#[trigger] keys[k], id))
            == m.contains_key((keys[k], id)) && (m.contains_key((keys[k], id)) ==> later[(keys[k], id)]
            == m[(keys[k], id)]) by {
            assert forall|a: int| 0 <= a < rest.len() implies (#[trigger] rest[a]).topic_id != id by {
                assert(rest[a] == subs[a]);
            }
            lemma_others_untouched(m, keys, rest, now, (keys[k], id));
        }
        lemma_same_prior(m, later, keys, id);
        assert(all.last() == want);
        assert(all[all.len() - 1] == want);
    }
}

proof fn lemma_same_prior(a: DropMap, b: DropMap, keys: Seq<i64>, id: i64)
    requires
        forall|k: int|
            0 <= k < keys.len() ==> b.contains_key((#[trigger] keys[k], id)) == a.contains_key((keys[k], id))
                && (a.contains_key((keys[k], id)) ==> b[(keys[k], id)] == a[(keys[k], id)]),
    ensures
        prior_of(a, keys, id) == prior_of(b, keys, id),
    decreases keys.len(),
{
    if keys.len() > 0 {
        assert(b.contains_key((keys[0], id)) == a.contains_key((keys[0], id)));
        let rest = keys.drop_first();
        assert forall|k: int| 0 <= k < rest.len() implies b.contains_key((#[trigger] rest[k], id))
            == a.contains_key((rest[k], id)) && (a.contains_key((rest[k], id)) ==> b[(rest[k], id)] == a[(
            rest[k],
            id,
        )]) by {
            assert(rest[k] == keys[k + 1]);
        }
        lemma_same_prior(a, b, rest, id);
    }
}

/// Where nothing is remembered of a subscriber that drops, it is reported without a difference:
/// so on the first round after start, and once its last sighting is too old.
pub proof fn first_sight_has_no_difference(
    m: DropMap,
    keys: Seq<i64>,
    subs: Seq<TopicEntry>,
    now: u64,
    i: int,
)
    requires
        0 <= i < subs.len(),
        only_row(subs, i),
        subs[i].message_drops > 0,
        unseen(m, keys, subs[i].topic_id),
    ensures
        drop_findings(m, keys, subs, now).contains(drop_finding(subs[i], None, now)),
{
    lemma_prior_unseen(m, keys, subs[i].topic_id);
    lemma_finding_of(m, keys, subs, now, i);
}

/// After a round, the counter of each subscriber that drops is remembered under every publisher.
pub proof fn counters_are_remembered(
    m: DropMap,
    keys: Seq<i64>,
    subs: Seq<TopicEntry>,
    now: u64,
    i: int,
    k: int,
)
    requires
        0 <= i < subs.len(),
        only_row(subs, i),
        0 <= k < keys.len(),
        subs[i].message_drops > 0,
    ensures
        remembered(m, keys, subs, now).contains_key((keys[k], subs[i].topic_id)),
        remembered(m, keys, subs, now)[(keys[k], subs[i].topic_id)] == (subs[i].message_drops, now),
    decreases subs.len(),
{
    let rest = subs.drop_last();
    assert(keys.contains(keys[k]));
    if i < subs.len() - 1 {
        assert(only_row(rest, i)) by {
            assert forall|k: int| 0 <= k < rest.len() && (#[trigger] rest[k]).topic_id == rest[i].topic_id implies k == i by {
                assert(subs[k].topic_id == subs[i].topic_id);
            }
        }
        counters_are_remembered(m, keys, rest, now, i, k);
        assert(subs[subs.len() - 1].topic_id == subs[i].topic_id ==> i == subs.len() - 1);
    }
}

/// A later round within sixty seconds, with the same publishers, reports for each subscriber by
/// how much its counter moved and how long ago it was seen; after that time it is unknown again.
pub proof fn next_round_reports_the_difference(
    m: DropMap,
    keys: Seq<i64>,
    earlier: Seq<TopicEntry>,
    then: u64,
    i: int,
    later: Seq<TopicEntry>,
    now: u64,
    j: int,
)
    requires
        keys.len() > 0,
        0 <= i < earlier.len(),
        0 <= j < later.len(),
        only_row(earlier, i),
        only_row(later, j),
        earlier[i].topic_id == later[j].topic_id,
        earlier[i].message_drops > 0,
        later[j].message_drops > 0,
    ensures
        drop_findings(pruned(remembered(m, keys, earlier, then), now), keys, later, now).contains(
            drop_finding(
                later[j],
                if elapsed(now, then) <= DROP_CACHE_TTL_NS {
                    Some((earlier[i].message_drops, then))
                } else {
                    None
                },
                now,
            ),
        ),
{
    let kept = remembered(m, keys, earlier, then);
    let left = pruned(kept, now);
    let id = later[j].topic_id;
    counters_are_remembered(m, keys, earlier, then, i, 0);
    assert(kept.contains_key((keys[0], id)));
    if elapsed(now, then) <= DROP_CACHE_TTL_NS {
        assert(left.contains_key((keys[0], id)));
        assert(prior_of(left, keys, id) == Some((earlier[i].message_drops, then)));
        lemma_finding_of(left, keys, later, now, j);
    } else {
        assert forall|k: int| 0 <= k < keys.len() implies !left.contains_key((#[trigger] keys[k], id)) by {
            counters_are_remembered(m, keys, earlier, then, i, k);
            assert(kept[(keys[k], id)] == (earlier[i].message_drops, then));
        }
        first_sight_has_no_difference(left, keys, later, now, j);
    }
}

} // verus!
