//! Laws of the suggestions for a name that is missing.

use vstd::prelude::*;
use vstd::utf8::*;

use crate::checks::suggestions;
use crate::codec::at_most;
use crate::drops::{drop_findings, publisher_keys};
use crate::findings::{CandidateSide, DetailView, FindingCode, FindingView};
use crate::laws::details::{lemma_drop_part, lemma_health_part, lemma_parts};
use crate::laws::diagnosis::{is_diagnosis, lemma_union, Circumstances};
use crate::laws::survey::{lemma_of_topic, topics_are_told_by_name};
use crate::monitoring::{MonitoringSnapshot, TopicInfo};
use crate::seqs::{filter_keeps_order, filter_pair, filter_places};
use crate::similar::{
    best_matches, by_gap, fits_memory, folded, gap_key, hits, hits_before, hits_key, is_similar,
    is_true_match, lemma_ranked_matches, length_gap, matches_among, more_hits_rank_first, ranked,
    score, suggestions_are_ranked, ties_keep_the_order, MatchView,
};
use crate::sort::{has_key, listing, listing_exists, sorting_by_key_is_stable, strictly_sorted};
use crate::suggest::{candidate_of, peak_rate, registered_hosts, suggestions_for, SUGGESTION_LIMIT};
use crate::survey::{names_of, of_topic, TopicSurvey};
use crate::text::{ascii_lower, contains_run, text_before};

verus! {

/// Place `i` of the target starts three bytes that cut no character and occur in the name, letter
/// case aside.
pub open spec fn shares_gram_at(target: Seq<char>, name: Seq<char>, i: int) -> bool {
    let t = encode_utf8(ascii_lower(target));
    let c = encode_utf8(ascii_lower(name));
    &&& 0 <= i
    &&& i + 3 <= t.len()
    &&& is_char_boundary(t, i)
    &&& is_char_boundary(t, i + 3)
    &&& contains_run(c, t.subrange(i, i + 3))
}

/// The places at which the target shares a gram with the name.
pub open spec fn shared_grams(target: Seq<char>, name: Seq<char>) -> Set<int> {
    Set::new(|i: int| shares_gram_at(target, name, i))
}

proof fn lemma_hits_count(target: Seq<char>, name: Seq<char>, n: int)
    requires
        0 <= n <= folded(target).len(),
    ensures
        Set::new(|i: int| i < n && shares_gram_at(target, name, i)).finite(),
        Set::new(|i: int| i < n && shares_gram_at(target, name, i)).len() == hits_before(
            folded(target),
            folded(name),
            n,
        ),
    decreases n,
{
    let now = Set::new(|i: int| i < n && shares_gram_at(target, name, i));
    if n == 0 {
        assert(now =~= Set::<int>::empty());
    } else {
        lemma_hits_count(target, name, n - 1);
        let before = Set::new(|i: int| i < n - 1 && shares_gram_at(target, name, i));
        if shares_gram_at(target, name, n - 1) {
            assert(now =~= before.insert(n - 1));
        } else {
            assert(now =~= before);
        }
    }
}

/// The number of hits is the number of places at which the target shares a gram with the name.
pub proof fn hits_count_shared_grams(target: Seq<char>, name: Seq<char>)
    ensures
        shared_grams(target, name).finite(),
        hits(target, name) == shared_grams(target, name).len(),
{
    let n = folded(target).len() as int;
    lemma_hits_count(target, name, n);
    assert(shared_grams(target, name) =~= Set::new(|i: int| i < n && shares_gram_at(target, name, i)));
}

/// A name is worth suggesting exactly where it is another name and shares a gram with the target.
pub proof fn similar_names_share_a_gram(target: Seq<char>, name: Seq<char>)
    ensures
        is_similar(target, name) <==> name != target && exists|i: int| shares_gram_at(target, name, i),
{
    hits_count_shared_grams(target, name);
    let set = shared_grams(target, name);
    if exists|i: int| shares_gram_at(target, name, i) {
        let i = choose|i: int| shares_gram_at(target, name, i);
        assert(set.contains(i));
        if set.len() == 0 {
            assert(set =~= Set::<int>::empty());
        }
    }
    if set.len() > 0 {
        let i = set.choose();
        assert(set.contains(i));
        assert(shares_gram_at(target, name, i));
    }
}

/// The difference in length counts bytes, whichever name is the longer, and a score falls by one
/// for each, up to ninety-nine, from a hundred for each shared gram.
pub proof fn scores_weigh_grams_and_length(target: Seq<char>, name: Seq<char>)
    ensures
        ({
            let a = encode_utf8(ascii_lower(target)).len() as int;
            let b = encode_utf8(ascii_lower(name)).len() as int;
            &&& a <= b ==> a + length_gap(target, name) == b
            &&& b <= a ==> b + length_gap(target, name) == a
        }),
        score(target, name) <= 100 * shared_grams(target, name).len(),
        100 * shared_grams(target, name).len() - score(target, name) <= 99,
        length_gap(target, name) <= 99 ==> score(target, name) + length_gap(target, name) == 100
            * shared_grams(target, name).len(),
        length_gap(target, name) >= 99 ==> score(target, name) + 99 == 100 * shared_grams(target, name).len(),
{
    hits_count_shared_grams(target, name);
}

/// Every similar candidate is suggested as long as there is room, and as often as it is a
/// candidate; none is suggested that is not one.
pub proof fn similar_candidates_are_suggested(target: Seq<char>, candidates: Seq<Seq<char>>, limit: int, j: int)
    requires
        fits_memory(target, candidates),
        0 <= limit,
        0 <= j < candidates.len(),
        candidates[j] != target,
        exists|i: int| shares_gram_at(target, candidates[j], i),
        best_matches(target, candidates, limit).len() < limit,
    ensures
        exists|i: int|
            0 <= i < best_matches(target, candidates, limit).len() && (#[trigger] best_matches(
                target,
                candidates,
                limit,
            )[i]).0 == candidates[j],
{
    similar_names_share_a_gram(target, candidates[j]);
    let pred = |c: Seq<char>| is_similar(target, c);
    let u = matches_among(target, candidates);
    let a = by_gap(u);
    let r = ranked(target, candidates);
    let passing = candidates.filter(pred);
    sorting_by_key_is_stable(u, gap_key());
    sorting_by_key_is_stable(a, hits_key());
    let from = filter_places(candidates, pred);
    assert(pred(candidates[j]));
    assert(from.contains(j));
    let k = choose|k: int| 0 <= k < from.len() && from[k] == j;
    assert(passing[k] == candidates[j]);
    let m = u[k];
    assert(u.contains(m));
    assert(a.contains(m));
    assert(r.contains(m));
    let i = choose|i: int| 0 <= i < r.len() && r[i] == m;
    let best = best_matches(target, candidates, limit);
    assert(at_most(r, limit) == r);
    assert(best[i].0 == candidates[j]);
}

/// `a` shares more grams with the target than `b`, or as many and is no further from its length.
pub open spec fn no_worse(target: Seq<char>, a: Seq<char>, b: Seq<char>) -> bool {
    let x = shared_grams(target, a).len();
    let y = shared_grams(target, b).len();
    x > y || (x == y && length_gap(target, a) <= length_gap(target, b))
}

proof fn lemma_ranks(target: Seq<char>, candidates: Seq<Seq<char>>, i: int, j: int)
    requires
        fits_memory(target, candidates),
        0 <= i < j < ranked(target, candidates).len(),
    ensures
        no_worse(target, ranked(target, candidates)[i].name, ranked(target, candidates)[j].name),
{
    let r = ranked(target, candidates);
    more_hits_rank_first(target, candidates, i, j);
    lemma_ranked_matches(target, candidates);
    assert(is_true_match(r[i], target, candidates) && is_true_match(r[j], target, candidates));
    hits_count_shared_grams(target, r[i].name);
    hits_count_shared_grams(target, r[j].name);
}

/// Of two suggestions the earlier one is no worse.
pub proof fn earlier_suggestions_are_no_worse(
    target: Seq<char>,
    candidates: Seq<Seq<char>>,
    limit: int,
    i: int,
    j: int,
)
    requires
        fits_memory(target, candidates),
        0 <= limit,
        0 <= i < j < best_matches(target, candidates, limit).len(),
    ensures
        no_worse(
            target,
            best_matches(target, candidates, limit)[i].0,
            best_matches(target, candidates, limit)[j].0,
        ),
{
    lemma_ranks(target, candidates, i, j);
}

/// A similar candidate that is not suggested is left out for want of room: there are as many
/// suggestions as asked for, and none is worse.
pub proof fn left_out_candidates_are_no_better(
    target: Seq<char>,
    candidates: Seq<Seq<char>>,
    limit: int,
    j: int,
    i: int,
)
    requires
        fits_memory(target, candidates),
        0 <= limit,
        0 <= j < candidates.len(),
        candidates[j] != target,
        exists|k: int| shares_gram_at(target, candidates[j], k),
        forall|k: int|
            0 <= k < best_matches(target, candidates, limit).len() ==> (#[trigger] best_matches(
                target,
                candidates,
                limit,
            )[k]).0 != candidates[j],
    ensures
        best_matches(target, candidates, limit).len() == limit,
        0 <= i < limit ==> no_worse(target, best_matches(target, candidates, limit)[i].0, candidates[j]),
{
    let best = best_matches(target, candidates, limit);
    let r = ranked(target, candidates);
    if best.len() < limit {
        similar_candidates_are_suggested(target, candidates, limit, j);
        let k = choose|k: int| 0 <= k < best.len() && (#[trigger] best[k]).0 == candidates[j];
        assert(best[k].0 != candidates[j]);
    }
    similar_candidates_are_suggested(target, candidates, (r.len() + 1) as int, j);
    let all = best_matches(target, candidates, (r.len() + 1) as int);
    let k = choose|k: int| 0 <= k < all.len() && (#[trigger] all[k]).0 == candidates[j];
    assert(r[k].name == candidates[j]);
    if k < best.len() {
        assert(best[k].0 == r[k].name);
    }
    if 0 <= i < limit {
        assert(best[i].0 == r[i].name);
        lemma_ranks(target, candidates, i, k);
    }
}

proof fn lemma_matches_in_order(target: Seq<char>, candidates: Seq<Seq<char>>)
    requires
        strictly_sorted(candidates),
    ensures
        forall|x: int, y: int|
            0 <= x < y < matches_among(target, candidates).len() ==> text_before(
                (#[trigger] matches_among(target, candidates)[x]).name,
                (#[trigger] matches_among(target, candidates)[y]).name,
            ),
{
    let pred = |c: Seq<char>| is_similar(target, c);
    let rel = |a: Seq<char>, b: Seq<char>| text_before(a, b);
    filter_keeps_order(candidates, pred, rel);
    let u = matches_among(target, candidates);
    let c = candidates.filter(pred);
    assert forall|x: int, y: int| 0 <= x < y < u.len() implies text_before(
        (#[trigger] u[x]).name,
        (#[trigger] u[y]).name,
    ) by {
        assert(rel(c[x], c[y]));
    }
}

/// Suggestions that are equally good come in the order of the alphabet, as the candidates do.
pub proof fn equal_suggestions_come_in_order(
    target: Seq<char>,
    candidates: Seq<Seq<char>>,
    limit: int,
    i: int,
    j: int,
)
    requires
        fits_memory(target, candidates),
        strictly_sorted(candidates),
        0 <= limit,
        0 <= i < j < best_matches(target, candidates, limit).len(),
        no_worse(
            target,
            best_matches(target, candidates, limit)[j].0,
            best_matches(target, candidates, limit)[i].0,
        ),
    ensures
        text_before(
            best_matches(target, candidates, limit)[i].0,
            best_matches(target, candidates, limit)[j].0,
        ),
{
    let r = ranked(target, candidates);
    let u = matches_among(target, candidates);
    let a = r[i];
    let b = r[j];
    lemma_ranks(target, candidates, i, j);
    lemma_ranked_matches(target, candidates);
    assert(is_true_match(a, target, candidates) && is_true_match(b, target, candidates));
    hits_count_shared_grams(target, a.name);
    hits_count_shared_grams(target, b.name);
    assert(a.hits == b.hits && a.gap == b.gap);
    let h = hits_key()(a);
    let g = gap_key()(a);
    let of_hits = has_key(hits_key(), h);
    let of_gap = has_key(gap_key(), g);
    ties_keep_the_order(target, candidates, h, g);
    filter_pair(r, of_hits, i, j);
    let s = r.filter(of_hits);
    let (x, y) = choose|x: int, y: int| 0 <= x < y < s.len() && #[trigger] s[x] == a && #[trigger] s[y] == b;
    filter_pair(s, of_gap, x, y);
    let t = s.filter(of_gap);
    let (v, w) = choose|v: int, w: int| 0 <= v < w < t.len() && #[trigger] t[v] == a && #[trigger] t[w] == b;
    let rel = |p: MatchView, q: MatchView| text_before(p.name, q.name);
    lemma_matches_in_order(target, candidates);
    filter_keeps_order(u, of_gap, rel);
    filter_keeps_order(u.filter(of_gap), of_hits, rel);
    assert(t == u.filter(of_gap).filter(of_hits));
    assert(rel(t[v], t[w]));
}

/// Registration `i` of `s` is of this name.
pub open spec fn named_at(s: Seq<TopicInfo>, i: int, name: Seq<char>) -> bool {
    0 <= i < s.len() && s[i].topic_name@ == name
}

/// A registration of this name is in `s`.
pub open spec fn is_named_in(s: Seq<TopicInfo>, name: Seq<char>) -> bool {
    exists|i: int| named_at(s, i, name)
}

proof fn lemma_named(s: Seq<TopicInfo>, name: Seq<char>)
    ensures
        of_topic(s, name).len() > 0 <==> is_named_in(s, name),
        names_of(s).contains(name) <==> is_named_in(s, name),
        forall|h: Seq<char>| #[trigger]
            registered_hosts(of_topic(s, name)).contains(h) <==> exists|i: int|
                named_at(s, i, name) && s[i].host_name@ == h,
        peak_rate(of_topic(s, name)) >= 0,
        forall|i: int| #[trigger] named_at(s, i, name) ==> s[i].data_frequency <= peak_rate(of_topic(s, name)),
        peak_rate(of_topic(s, name)) > 0 ==> exists|i: int|
            named_at(s, i, name) && s[i].data_frequency == peak_rate(of_topic(s, name)),
{
    let own = of_topic(s, name);
    let from = topics_are_told_by_name(s, name);
    if own.len() > 0 {
        assert(own[0] == s[from[0]]);
        assert(from.contains(from[0]));
        assert(named_at(s, from[0], name));
    }
    if is_named_in(s, name) {
        let i = choose|i: int| named_at(s, i, name);
        assert(from.contains(i));
    }
    let all = s.map_values(|t: TopicInfo| t.topic_name@);
    assert(all.to_set().contains(name) <==> all.contains(name));
    if all.contains(name) {
        let i = choose|i: int| 0 <= i < all.len() && all[i] == name;
        assert(named_at(s, i, name));
    }
    if is_named_in(s, name) {
        let i = choose|i: int| named_at(s, i, name);
        assert(all[i] == name);
    }
    let hosts = own.map_values(|t: TopicInfo| t.host_name@);
    assert forall|h: Seq<char>| #[trigger] registered_hosts(own).contains(h) <==> exists|i: int|
        named_at(s, i, name) && s[i].host_name@ == h by {
        assert(hosts.to_set().contains(h) <==> hosts.contains(h));
        if hosts.contains(h) {
            let k = choose|k: int| 0 <= k < hosts.len() && hosts[k] == h;
            assert(own[k] == s[from[k]]);
            assert(from.contains(from[k]));
            assert(named_at(s, from[k], name) && s[from[k]].host_name@ == h);
        }
        if exists|i: int| named_at(s, i, name) && s[i].host_name@ == h {
            let i = choose|i: int| named_at(s, i, name) && s[i].host_name@ == h;
            assert(from.contains(i));
            let k = choose|k: int| 0 <= k < from.len() && from[k] == i;
            assert(own[k] == s[from[k]]);
            assert(hosts[k] == h);
        }
    }
    lemma_peak(own);
    assert forall|i: int| #[trigger] named_at(s, i, name) implies s[i].data_frequency <= peak_rate(own) by {
        assert(from.contains(i));
        let k = choose|k: int| 0 <= k < from.len() && from[k] == i;
        assert(own[k] == s[from[k]]);
    }
    if peak_rate(own) > 0 {
        let k = choose|k: int| 0 <= k < own.len() && (#[trigger] own[k]).data_frequency == peak_rate(own);
        assert(own[k] == s[from[k]]);
        assert(from.contains(from[k]));
        assert(named_at(s, from[k], name));
    }
}

proof fn lemma_peak(s: Seq<TopicInfo>)
    ensures
        0 <= peak_rate(s),
        forall|k: int| 0 <= k < s.len() ==> (#[trigger] s[k]).data_frequency <= peak_rate(s),
        peak_rate(s) > 0 ==> exists|k: int| 0 <= k < s.len() && (#[trigger] s[k]).data_frequency == peak_rate(s),
    decreases s.len(),
{
    if s.len() > 0 {
        let t = s.drop_last();
        lemma_peak(t);
        assert forall|k: int| 0 <= k < s.len() implies (#[trigger] s[k]).data_frequency <= peak_rate(s) by {
            if k < t.len() {
                assert(t[k] == s[k]);
            }
        }
        assert(s[s.len() - 1] == s.last());
        if peak_rate(t) > 0 {
            let k = choose|k: int| 0 <= k < t.len() && (#[trigger] t[k]).data_frequency == peak_rate(t);
            assert(s[k].data_frequency == peak_rate(t));
        }
    }
}

/// What is said of a suggested name: how often it is registered, on which sides, on which hosts in
/// order, and the highest rate with which it is registered, or zero.
pub proof fn candidates_show_registrations(
    target: Seq<char>,
    pool: Seq<Seq<char>>,
    snap: MonitoringSnapshot,
    k: int,
    host: Seq<char>,
)
    requires
        0 <= k < suggestions_for(target, pool, snap).candidates.len(),
    ensures
        ({
            let d = suggestions_for(target, pool, snap).candidates[k];
            let p = snap.publishers@;
            let s = snap.subscribers@;
            let name = d.topic_name;
            &&& d.occurrences == p.filter(|t: TopicInfo| t.topic_name@ == name).len() + s.filter(
                |t: TopicInfo| t.topic_name@ == name,
            ).len()
            &&& d.direction == CandidateSide::Both <==> is_named_in(p, name) && is_named_in(s, name)
            &&& d.direction == CandidateSide::Publisher <==> is_named_in(p, name) && !is_named_in(s, name)
            &&& d.direction == CandidateSide::Subscriber <==> !is_named_in(p, name) && is_named_in(s, name)
            &&& strictly_sorted(d.host_names)
            &&& d.host_names.contains(host) <==> (exists|i: int|
                named_at(p, i, name) && p[i].host_name@ == host) || (exists|i: int|
                named_at(s, i, name) && s[i].host_name@ == host)
            &&& d.registered_data_frequency_mhz >= 0
            &&& forall|i: int|
                #[trigger] named_at(p, i, name) ==> p[i].data_frequency <= d.registered_data_frequency_mhz
            &&& forall|i: int|
                #[trigger] named_at(s, i, name) ==> s[i].data_frequency <= d.registered_data_frequency_mhz
            &&& d.registered_data_frequency_mhz > 0 ==> (exists|i: int|
                named_at(p, i, name) && p[i].data_frequency == d.registered_data_frequency_mhz) || (exists|i: int|
                named_at(s, i, name) && s[i].data_frequency == d.registered_data_frequency_mhz)
        }),
{
    let best = best_matches(target, pool, SUGGESTION_LIMIT as int);
    let d = suggestions_for(target, pool, snap).candidates[k];
    let name = d.topic_name;
    let p = snap.publishers@;
    let s = snap.subscribers@;
    assert(d == candidate_of(best[k], snap));
    lemma_named(p, name);
    lemma_named(s, name);
    lemma_of_topic(p, name, |t: TopicInfo| t.topic_name@ == name);
    lemma_of_topic(s, name, |t: TopicInfo| t.topic_name@ == name);
    let ph = of_topic(p, name).map_values(|t: TopicInfo| t.host_name@);
    let sh = of_topic(s, name).map_values(|t: TopicInfo| t.host_name@);
    lemma_union(ph, sh);
    listing_exists(ph + sh);
    assert(d.host_names.to_set().contains(host) <==> d.host_names.contains(host));
}

/// Suggestions are at most ten; the one that is put forward is the first of them, and none is
/// where there are none; no later one scores more than an earlier one.
pub proof fn the_best_suggestion_comes_first(target: Seq<char>, pool: Seq<Seq<char>>, snap: MonitoringSnapshot)
    requires
        fits_memory(target, pool),
    ensures
        ({
            let g = suggestions_for(target, pool, snap);
            &&& g.candidates.len() <= 10
            &&& g.suggestion is None <==> g.candidates.len() == 0
            &&& g.candidates.len() > 0 ==> g.suggestion == Some(g.candidates[0].topic_name)
            &&& forall|i: int|
                0 <= i < g.candidates.len() ==> {
                    let d = #[trigger] g.candidates[i];
                    pool.contains(d.topic_name) && d.topic_name != target && d.score == score(
                        target,
                        d.topic_name,
                    ) && exists|k: int| shares_gram_at(target, d.topic_name, k)
                }
            &&& forall|i: int, j: int|
                0 <= i < j < g.candidates.len() ==> (#[trigger] g.candidates[i]).score >= (
                #[trigger] g.candidates[j]).score
            &&& forall|j: int|
                0 <= j < pool.len() && pool[j] != target && (exists|k: int|
                    shares_gram_at(target, #[trigger] pool[j], k)) && g.candidates.len() < 10 ==> exists|i: int|
                    0 <= i < g.candidates.len() && (#[trigger] g.candidates[i]).topic_name == pool[j]
        }),
{
    let g = suggestions_for(target, pool, snap);
    let best = best_matches(target, pool, 10);
    suggestions_are_ranked(target, pool, 10);
    assert forall|i: int| 0 <= i < g.candidates.len() implies (#[trigger] g.candidates[i]) == candidate_of(
        best[i],
        snap,
    ) by {}
    assert forall|i: int| 0 <= i < g.candidates.len() implies {
        let d = #[trigger] g.candidates[i];
        pool.contains(d.topic_name) && d.topic_name != target && d.score == score(target, d.topic_name)
            && exists|k: int| shares_gram_at(target, d.topic_name, k)
    } by {
        assert(best[i] == best[i]);
        similar_names_share_a_gram(target, best[i].0);
    }
    assert forall|i: int, j: int| 0 <= i < j < g.candidates.len() implies (#[trigger] g.candidates[i]).score >= (
    #[trigger] g.candidates[j]).score by {
        assert(best[i].1 >= best[j].1);
    }
    assert forall|j: int|
        0 <= j < pool.len() && pool[j] != target && (exists|k: int| shares_gram_at(target, #[trigger] pool[j], k))
            && g.candidates.len() < 10 implies exists|i: int|
        0 <= i < g.candidates.len() && (#[trigger] g.candidates[i]).topic_name == pool[j] by {
        similar_candidates_are_suggested(target, pool, 10, j);
        let i = choose|i: int| 0 <= i < best.len() && (#[trigger] best[i]).0 == pool[j];
        assert(g.candidates[i].topic_name == pool[j]);
    }
}

/// `name` may be suggested for a topic that lacks what it lacks: where both sides are missing,
/// whatever is registered, and else what has the side that is missing.
pub open spec fn may_be_suggested(sv: TopicSurvey, snap: MonitoringSnapshot, name: Seq<char>) -> bool {
    if sv.publishers@.len() == 0 && sv.subscribers@.len() == 0 {
        is_named_in(snap.publishers@, name) || is_named_in(snap.subscribers@, name)
    } else if sv.publishers@.len() == 0 {
        is_named_in(snap.publishers@, name)
    } else {
        is_named_in(snap.subscribers@, name)
    }
}

/// Suggestions come, in the order of the alphabet where they are equally good, from exactly the
/// names that may be suggested.
pub proof fn suggestions_are_drawn_from_what_is_missing(
    f: Seq<FindingView>,
    sv: TopicSurvey,
    snap: MonitoringSnapshot,
    c: Circumstances,
    n: int,
) -> (pool: Seq<Seq<char>>)
    requires
        is_diagnosis(f, sv, snap, c),
        0 <= n < f.len(),
        f[n].code == FindingCode::DidYouMean,
    ensures
        f[n].detail == Some(DetailView::Suggestions(suggestions_for(c.topic, pool, snap))),
        strictly_sorted(pool),
        forall|name: Seq<char>| #[trigger] pool.contains(name) <==> may_be_suggested(sv, snap, name),
{
    let x = f[n];
    assert(f.contains(x));
    lemma_parts(f, sv, snap, c, x);
    let keys = publisher_keys(sv.publishers@);
    if drop_findings(c.drops, keys, sv.subscribers@, c.now).contains(x) {
        lemma_drop_part(c.drops, keys, sv.subscribers@, c.now, x);
    }
    lemma_health_part("publisher"@, sv.publishers@, snap.processes@, x);
    lemma_health_part("subscriber"@, sv.subscribers@, snap.processes@, x);
    assert(suggestions(sv, snap, c.topic).contains(x));
    let p = snap.publishers@.map_values(|t: TopicInfo| t.topic_name@);
    let s = snap.subscribers@.map_values(|t: TopicInfo| t.topic_name@);
    lemma_union(p, s);
    listing_exists(p);
    listing_exists(s);
    listing_exists(p + s);
    let pool = if sv.publishers@.len() == 0 && sv.subscribers@.len() == 0 {
        listing(names_of(snap.publishers@).union(names_of(snap.subscribers@)))
    } else if sv.publishers@.len() == 0 {
        listing(names_of(snap.publishers@))
    } else {
        listing(names_of(snap.subscribers@))
    };
    assert forall|name: Seq<char>| #[trigger] pool.contains(name) <==> may_be_suggested(sv, snap, name) by {
        assert(pool.to_set().contains(name) <==> pool.contains(name));
        lemma_named(snap.publishers@, name);
        lemma_named(snap.subscribers@, name);
    }
    pool
}

} // verus!
