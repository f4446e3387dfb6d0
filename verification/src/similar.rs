//! Names that look like a given name.

use vstd::prelude::*;
use vstd::utf8::*;

use crate::codec::at_most;
use crate::seqs::{
    filter_keeps_order, filter_none, filter_pair, filter_start, filter_step, filter_subset,
    filters_commute, map_rows,
};
use crate::sort::{
    class_of, has_key, keyed, map_items, sort_items, sorted_by_key, sorted_images,
    sorting_by_key_is_stable, texts, zip_keys,
};
use crate::text::{ascii_lower, contains_bytes, contains_run, same_text, to_ascii_lowercase};

verus! {

/// Bytes of a gram.
pub const GRAM: usize = 3;

/// The UTF-8 bytes of a text in lower case.
pub open spec fn folded(s: Seq<char>) -> Seq<u8> {
    encode_utf8(ascii_lower(s))
}

/// The bytes of `t` from `i` on begin with a gram: three bytes that cut no character.
pub open spec fn is_gram(t: Seq<u8>, i: int) -> bool {
    &&& 0 <= i
    &&& i + GRAM <= t.len()
    &&& is_char_boundary(t, i)
    &&& is_char_boundary(t, i + GRAM)
}

/// How many of the first `n` positions of `t` start a gram that occurs in `c`.
pub open spec fn hits_before(t: Seq<u8>, c: Seq<u8>, n: int) -> int
    decreases n,
{
    if n <= 0 {
        0
    } else {
        hits_before(t, c, n - 1) + if is_gram(t, n - 1) && contains_run(
            c,
            t.subrange(n - 1, n - 1 + GRAM),
        ) {
            1int
        } else {
            0
        }
    }
}

/// How many grams of `target` occur in `name`, letter case aside.
pub open spec fn hits(target: Seq<char>, name: Seq<char>) -> int {
    hits_before(folded(target), folded(name), folded(target).len() as int)
}

/// How much the two names differ in length, in bytes.
pub open spec fn length_gap(target: Seq<char>, name: Seq<char>) -> int {
    let d = folded(name).len() - folded(target).len();
    if d < 0 {
        -d
    } else {
        d
    }
}

/// A hundred for each shared gram, less one for each byte of difference in length up to
/// ninety-nine: more grams always score more.
pub open spec fn points(hits: int, gap: int) -> int {
    hits * 100 - if gap < 99 {
        gap
    } else {
        99
    }
}

/// The score of a name.
pub open spec fn score(target: Seq<char>, name: Seq<char>) -> int {
    points(hits(target, name), length_gap(target, name))
}

/// `name` is worth suggesting for `target`: another name that shares a gram with it.
pub open spec fn is_similar(target: Seq<char>, name: Seq<char>) -> bool {
    name != target && hits(target, name) > 0
}

/// A name with how much it shares with the target.
pub struct MatchView {
    pub name: Seq<char>,
    pub hits: int,
    pub gap: int,
}

/// What `name` shares with `target`.
pub open spec fn match_of(target: Seq<char>, name: Seq<char>) -> MatchView {
    MatchView { name, hits: hits(target, name), gap: length_gap(target, name) }
}

/// The similar names among `candidates`, in order.
pub open spec fn matches_among(target: Seq<char>, candidates: Seq<Seq<char>>) -> Seq<MatchView> {
    candidates.filter(|c: Seq<char>| is_similar(target, c)).map_values(
        |c: Seq<char>| match_of(target, c),
    )
}

/// Smaller differences in length first.
pub open spec fn gap_key() -> spec_fn(MatchView) -> i128 {
    |m: MatchView| m.gap as i128
}

/// More shared grams first.
pub open spec fn hits_key() -> spec_fn(MatchView) -> i128 {
    |m: MatchView| (-m.hits) as i128
}

/// Matches by ascending difference in length; those of one difference stay in order.
pub open spec fn by_gap(s: Seq<MatchView>) -> Seq<MatchView> {
    sorted_by_key(s, gap_key())
}

/// Matches by descending number of shared grams; those of one number stay in order.
pub open spec fn by_hits(s: Seq<MatchView>) -> Seq<MatchView> {
    sorted_by_key(s, hits_key())
}

/// The similar names, those that share more grams first, of equal ones the closer in length
/// first, and else in the order in which they came.
pub open spec fn ranked(target: Seq<char>, candidates: Seq<Seq<char>>) -> Seq<MatchView> {
    by_hits(by_gap(matches_among(target, candidates)))
}

/// The best `limit` names with their scores.
pub open spec fn best_matches(target: Seq<char>, candidates: Seq<Seq<char>>, limit: int) -> Seq<
    (Seq<char>, int),
> {
    at_most(ranked(target, candidates), limit).map_values(
        |m: MatchView| (m.name, points(m.hits, m.gap)),
    )
}

proof fn lemma_hits_bound(t: Seq<u8>, c: Seq<u8>, n: int)
    requires
        0 <= n,
    ensures
        0 <= hits_before(t, c, n) <= n,
    decreases n,
{
    if n > 0 {
        lemma_hits_bound(t, c, n - 1);
    }
}

/// The names are short enough to be held in memory.
pub open spec fn fits_memory(target: Seq<char>, candidates: Seq<Seq<char>>) -> bool {
    &&& folded(target).len() <= usize::MAX
    &&& forall|i: int| 0 <= i < candidates.len() ==> folded(#[trigger] candidates[i]).len() <= usize::MAX
}

/// `m` is a candidate that is similar, with its true figures, which fit an `i128`.
pub open spec fn is_true_match(m: MatchView, target: Seq<char>, candidates: Seq<Seq<char>>) -> bool {
    &&& candidates.contains(m.name)
    &&& is_similar(target, m.name)
    &&& m == match_of(target, m.name)
    &&& 0 <= m.hits <= usize::MAX
    &&& 0 <= m.gap <= usize::MAX
}

pub(crate) proof fn lemma_ranked_matches(target: Seq<char>, candidates: Seq<Seq<char>>)
    requires
        fits_memory(target, candidates),
    ensures
        ranked(target, candidates).len() == matches_among(target, candidates).len(),
        ranked(target, candidates).len() <= candidates.len(),
        forall|i: int|
            0 <= i < ranked(target, candidates).len() ==> is_true_match(
                #[trigger] ranked(target, candidates)[i],
                target,
                candidates,
            ),
        forall|i: int|
            0 <= i < by_gap(matches_among(target, candidates)).len() ==> is_true_match(
                #[trigger] by_gap(matches_among(target, candidates))[i],
                target,
                candidates,
            ),
{
    let pred = |c: Seq<char>| is_similar(target, c);
    let passing = candidates.filter(pred);
    let u = matches_among(target, candidates);
    let a = by_gap(u);
    let r = ranked(target, candidates);
    sorting_by_key_is_stable(u, gap_key());
    sorting_by_key_is_stable(a, hits_key());
    candidates.lemma_filter_len(pred);
    assert forall|m: MatchView| #[trigger] u.contains(m) implies is_true_match(m, target, candidates) by {
        let k = choose|k: int| 0 <= k < u.len() && u[k] == m;
        let c = passing[k];
        candidates.lemma_filter_pred(pred, k);
        assert(pred(passing[k]));
        filter_subset(candidates, pred, k);
        let j = choose|j: int| 0 <= j < candidates.len() && candidates[j] == c;
        assert(folded(candidates[j]).len() <= usize::MAX);
        lemma_hits_bound(folded(target), folded(c), folded(target).len() as int);
        assert(m == match_of(target, c));
    }
    assert forall|i: int| 0 <= i < a.len() implies is_true_match(#[trigger] a[i], target, candidates) by {
        assert(a.contains(a[i]));
        assert(u.contains(a[i]));
    }
    assert forall|i: int| 0 <= i < r.len() implies is_true_match(#[trigger] r[i], target, candidates) by {
        assert(r.contains(r[i]));
        assert(a.contains(r[i]));
        assert(u.contains(r[i]));
    }
}

/// Of two similar names the one that shares more grams comes first, whatever their lengths; of two
/// that share as many, the one closer in length to the name does not come later.
pub proof fn more_hits_rank_first(target: Seq<char>, candidates: Seq<Seq<char>>, i: int, j: int)
    requires
        fits_memory(target, candidates),
        0 <= i < j < ranked(target, candidates).len(),
    ensures
        ({
            let a = ranked(target, candidates)[i];
            let b = ranked(target, candidates)[j];
            a.hits > b.hits || (a.hits == b.hits && a.gap <= b.gap)
        }),
{
    let u = matches_among(target, candidates);
    let by_length = by_gap(u);
    let r = ranked(target, candidates);
    lemma_ranked_matches(target, candidates);
    sorting_by_key_is_stable(u, gap_key());
    sorting_by_key_is_stable(by_length, hits_key());
    let a = r[i];
    let b = r[j];
    assert(is_true_match(a, target, candidates) && is_true_match(b, target, candidates));
    assert(hits_key()(sorted_by_key(by_length, hits_key())[i]) <= hits_key()(sorted_by_key(by_length, hits_key())[j]));
    assert(a.hits >= b.hits);
    if a.hits == b.hits {
        let k = hits_key()(a);
        let pred = has_key(hits_key(), k);
        let class = class_of(by_length, hits_key(), k);
        assert(class_of(sorted_by_key(by_length, hits_key()), hits_key(), k) == class);
        filter_pair(r, pred, i, j);
        let (x, y) = choose|x: int, y: int|
            0 <= x < y < r.filter(pred).len() && #[trigger] r.filter(pred)[x] == a && #[trigger] r.filter(
                pred,
            )[y] == b;
        assert(r.filter(pred) == class);
        let rel = |p: MatchView, q: MatchView| gap_key()(p) <= gap_key()(q);
        assert forall|p: int, q: int| 0 <= p < q < by_length.len() implies rel(
            #[trigger] by_length[p],
            #[trigger] by_length[q],
        ) by {
            assert(gap_key()(sorted_by_key(u, gap_key())[p]) <= gap_key()(sorted_by_key(u, gap_key())[q]));
        }
        filter_keeps_order(by_length, pred, rel);
        assert(rel(by_length.filter(pred)[x], by_length.filter(pred)[y]));
    }
}

/// Similar names that share as many grams and differ as much in length stay in the order of the
/// candidates.
pub proof fn ties_keep_the_order(target: Seq<char>, candidates: Seq<Seq<char>>, hits: i128, gap: i128)
    ensures
        class_of(
            class_of(ranked(target, candidates), hits_key(), hits),
            gap_key(),
            gap,
        ) == class_of(
            class_of(matches_among(target, candidates), gap_key(), gap),
            hits_key(),
            hits,
        ),
{
    let u = matches_among(target, candidates);
    sorting_by_key_is_stable(u, gap_key());
    sorting_by_key_is_stable(by_gap(u), hits_key());
    assert(class_of(sorted_by_key(by_gap(u), hits_key()), hits_key(), hits) == class_of(
        by_gap(u),
        hits_key(),
        hits,
    ));
    assert(class_of(sorted_by_key(u, gap_key()), gap_key(), gap) == class_of(u, gap_key(), gap));
    filters_commute(by_gap(u), has_key(hits_key(), hits), has_key(gap_key(), gap));
}

/// Suggestions are at most `limit` of the candidates, never the name itself, each shares a gram
/// with it, and no later one scores more than an earlier one.
pub proof fn suggestions_are_ranked(target: Seq<char>, candidates: Seq<Seq<char>>, limit: int)
    requires
        0 <= limit,
        fits_memory(target, candidates),
    ensures
        best_matches(target, candidates, limit).len() <= limit,
        best_matches(target, candidates, limit).len() <= candidates.len(),
        forall|i: int|
            0 <= i < best_matches(target, candidates, limit).len() ==> {
                let m = #[trigger] best_matches(target, candidates, limit)[i];
                candidates.contains(m.0) && is_similar(target, m.0) && m.1 == score(target, m.0)
            },
        forall|i: int, j: int|
            0 <= i < j < best_matches(target, candidates, limit).len() ==> (
            #[trigger] best_matches(target, candidates, limit)[i]).1 >= (#[trigger] best_matches(
                target,
                candidates,
                limit,
            )[j]).1,
{
    let r = ranked(target, candidates);
    let best = best_matches(target, candidates, limit);
    lemma_ranked_matches(target, candidates);
    assert forall|i: int| 0 <= i < best.len() implies {
        let m = #[trigger] best[i];
        &&& candidates.contains(m.0)
        &&& is_similar(target, m.0)
        &&& m.1 == score(target, m.0)
    } by {
        assert(is_true_match(r[i], target, candidates));
    }
    assert forall|i: int, j: int| 0 <= i < j < best.len() implies (#[trigger] best[i]).1 >= (
    #[trigger] best[j]).1 by {
        more_hits_rank_first(target, candidates, i, j);
        assert(is_true_match(r[i], target, candidates) && is_true_match(r[j], target, candidates));
    }
}

/// Name and score of a match.
pub open spec fn match_view(m: (String, i128)) -> (Seq<char>, int) {
    (m.0@, m.1 as int)
}

/// Names and scores of a list of matches.
pub open spec fn match_views(v: Seq<(String, i128)>) -> Seq<(Seq<char>, int)> {
    v.map_values(|m: (String, i128)| match_view(m))
}

fn count_hits(target: &str, name: &str) -> (r: usize)
    ensures
        r == hits_before(encode_utf8(target@), encode_utf8(name@), encode_utf8(target@).len() as int),
        r <= encode_utf8(target@).len(),
{
    let t = target.as_bytes();
    let c = name.as_bytes();
    let mut r: usize = 0;
    let mut i: usize = 0;
    while i < t.len()
        invariant
            t@ == encode_utf8(target@),
            c@ == encode_utf8(name@),
            i <= t.len(),
            r == hits_before(t@, c@, i as int),
            r <= i,
        decreases t.len() - i,
    {
        if t.len() - i >= GRAM && target.is_char_boundary(i) && target.is_char_boundary(i + GRAM) {
            let gram = vstd::slice::slice_subrange(t, i, i + GRAM);
            if contains_bytes(c, gram) {
                r += 1;
            }
        }
        i += 1;
    }
    r
}

/// A name with how much it shares with the target.
struct Match {
    name: String,
    hits: usize,
    gap: usize,
}

impl View for Match {
    type V = MatchView;

    closed spec fn view(&self) -> MatchView {
        MatchView { name: self.name@, hits: self.hits as int, gap: self.gap as int }
    }
}

spec fn views(v: Seq<Match>) -> Seq<MatchView> {
    v.map_values(|m: Match| m@)
}

/// The similar names, each keyed by its difference in length.
fn collect_matches(target: &str, candidates: &[String]) -> (r: Vec<(i128, Match)>)
    ensures
        map_items(r@, |m: Match| m@) == keyed(
            matches_among(target@, texts(candidates@)),
            gap_key(),
        ),
{
    let t_lower = to_ascii_lowercase(target);
    let t_len: usize = t_lower.as_str().as_bytes().len();
    let ghost pred = |c: Seq<char>| is_similar(target@, c);
    let ghost key = gap_key();
    let ghost all = texts(candidates@);
    let mut r: Vec<(i128, Match)> = Vec::new();
    let mut i: usize = 0;
    proof {
        filter_start(all, pred);
        assert(map_items(r@, |m: Match| m@) =~= keyed(matches_among(target@, all.take(0)), key));
    }
    while i < candidates.len()
        invariant
            i <= candidates.len(),
            all == texts(candidates@),
            pred == (|c: Seq<char>| is_similar(target@, c)),
            key == gap_key(),
            t_lower@ == ascii_lower(target@),
            t_len == folded(target@).len(),
            map_items(r@, |m: Match| m@) == keyed(matches_among(target@, all.take(i as int)), key),
        decreases candidates.len() - i,
    {
        let c = &candidates[i];
        let lower = to_ascii_lowercase(c.as_str());
        let hits: usize = count_hits(t_lower.as_str(), lower.as_str());
        let c_len: usize = lower.as_str().as_bytes().len();
        let gap: usize = if c_len < t_len {
            t_len - c_len
        } else {
            c_len - t_len
        };
        proof {
            assert(all[i as int] == c@);
            filter_step(all, pred, i as int);
        }
        if !same_text(c.as_str(), target) && hits > 0 {
            let ghost before = map_items(r@, |m: Match| m@);
            let ghost m = match_of(target@, c@);
            r.push((gap as i128, Match { name: c.clone(), hits, gap }));
            proof {
                assert(map_items(r@, |m: Match| m@) =~= before.push((gap as i128, m)));
                assert(matches_among(target@, all.take(i + 1)) =~= matches_among(
                    target@,
                    all.take(i as int),
                ).push(m));
                assert(keyed(matches_among(target@, all.take(i + 1)), key) =~= keyed(
                    matches_among(target@, all.take(i as int)),
                    key,
                ).push((gap as i128, m)));
            }
        }
        i += 1;
    }
    assert(all.take(i as int) =~= all);
    r
}

fn hits_rank(m: &Match) -> (r: i128)
    ensures
        r == hits_key()(m@),
{
    -(m.hits as i128)
}

/// Matches by descending number of shared grams.
fn order_by_hits(matches: Vec<Match>) -> (r: Vec<Match>)
    ensures
        views(r@) == by_hits(views(matches@)),
{
    let ranks = map_rows(matches.as_slice(), hits_rank);
    let items = zip_keys(ranks, matches);
    proof {
        assert(map_items(items@, |m: Match| m@) =~= keyed(views(matches@), hits_key()));
        sorted_images(items@, |m: Match| m@, views(matches@), hits_key());
    }
    sort_items(items)
}

fn scored(m: &Match) -> (r: (String, i128))
    ensures
        match_view(r) == (m@.name, points(m@.hits, m@.gap)),
{
    let off: i128 = if m.gap < 99 {
        m.gap as i128
    } else {
        99
    };
    (m.name.clone(), m.hits as i128 * 100 - off)
}

/// Up to `limit` names that look most like `target`, best first, each with its score.
pub fn similar_names_with_scores(target: &str, candidates: &[String], limit: usize) -> (r: Vec<
    (String, i128),
>)
    ensures
        match_views(r@) == best_matches(target@, texts(candidates@), limit as int),
{
    let ghost all = texts(candidates@);
    let keyed_matches = collect_matches(target, candidates);
    proof {
        sorted_images(
            keyed_matches@,
            |m: Match| m@,
            matches_among(target@, all),
            gap_key(),
        );
    }
    let mut matches = order_by_hits(sort_items(keyed_matches));
    assert(views(matches@) == ranked(target@, all));
    if matches.len() > limit {
        matches.truncate(limit);
    }
    assert(views(matches@) =~= at_most(ranked(target@, all), limit as int));
    let r = map_rows(matches.as_slice(), scored);
    proof {
        let best = best_matches(target@, all, limit as int);
        assert forall|k: int| 0 <= k < r.len() implies match_views(r@)[k] == #[trigger] best[k] by {
            assert(views(matches@)[k] == matches@[k]@);
        }
        assert(match_views(r@) =~= best);
    }
    r
}

/// Up to `limit` names from `candidates` that look most like `target`, best first: the names of
/// `similar_names_with_scores`.
pub fn similar_names(target: &str, candidates: &[String], limit: usize) -> (r: Vec<String>)
    ensures
        texts(r@) == best_matches(target@, texts(candidates@), limit as int).map_values(
            |m: (Seq<char>, int)| m.0,
        ),
{
    let ranked = similar_names_with_scores(target, candidates, limit);
    let mut r: Vec<String> = Vec::new();
    let mut i: usize = 0;
    while i < ranked.len()
        invariant
            i <= ranked.len(),
            r.len() == i,
            forall|k: int| 0 <= k < i ==> (#[trigger] r@[k])@ == ranked@[k].0@,
        decreases ranked.len() - i,
    {
        r.push(ranked[i].0.clone());
        i += 1;
    }
    proof {
        let best = best_matches(target@, texts(candidates@), limit as int);
        assert forall|k: int| 0 <= k < r.len() implies texts(r@)[k] == #[trigger] best[k].0 by {
            assert(match_views(ranked@)[k] == best[k]);
        }
        assert(match_views(ranked@).len() == best.len());
        assert(texts(r@) =~= best.map_values(|m: (Seq<char>, int)| m.0));
    }
    r
}

proof fn lemma_no_gram(t: Seq<u8>, c: Seq<u8>, n: int)
    requires
        t.len() < GRAM,
    ensures
        hits_before(t, c, n) == 0,
    decreases n,
{
    if n > 0 {
        lemma_no_gram(t, c, n - 1);
    }
}

/// A name of fewer than three bytes has no suggestions.
pub proof fn short_names_have_no_suggestions(target: Seq<char>, candidates: Seq<Seq<char>>, limit: int)
    requires
        folded(target).len() < GRAM,
        0 <= limit,
    ensures
        best_matches(target, candidates, limit).len() == 0,
{
    let pred = |c: Seq<char>| is_similar(target, c);
    assert forall|i: int| 0 <= i < candidates.len() implies !pred(#[trigger] candidates[i]) by {
        lemma_no_gram(folded(target), folded(candidates[i]), folded(target).len() as int);
    }
    filter_none(candidates, pred);
    let u = matches_among(target, candidates);
    sorting_by_key_is_stable(u, gap_key());
    sorting_by_key_is_stable(by_gap(u), hits_key());
}

} // verus!
