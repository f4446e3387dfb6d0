//! Suggestions for a topic name that is not registered.

use vstd::prelude::*;

use crate::findings::{CandidateDetail, CandidateSide, CandidateView, SuggestionsDetail, SuggestionsView};
use crate::monitoring::{MonitoringSnapshot, TopicInfo};
use crate::seqs::{filter_start, filter_step, prefix_set_step};
use crate::similar::{best_matches, match_view, match_views, similar_names_with_scores};
use crate::sort::{insert_text, listing, lists_set, sorted_list_is_listing, strictly_sorted, texts};
use crate::survey::of_topic;
use crate::text::same_text;

verus! {

/// How many suggestions are made at most.
pub const SUGGESTION_LIMIT: usize = 10;

/// The hosts of registrations.
pub open spec fn registered_hosts(s: Seq<TopicInfo>) -> Set<Seq<char>> {
    s.map_values(|t: TopicInfo| t.host_name@).to_set()
}

/// The greater of two numbers.
pub open spec fn greater(a: int, b: int) -> int {
    if a >= b {
        a
    } else {
        b
    }
}

/// The highest registered rate in millihertz, zero where none is positive.
pub open spec fn peak_rate(s: Seq<TopicInfo>) -> int
    decreases s.len(),
{
    if s.len() == 0 {
        0
    } else {
        greater(peak_rate(s.drop_last()), s.last().data_frequency as int)
    }
}

/// The sides on which a name occurs.
pub open spec fn side_of(in_pubs: bool, in_subs: bool) -> CandidateSide {
    if in_pubs && in_subs {
        CandidateSide::Both
    } else if in_pubs {
        CandidateSide::Publisher
    } else if in_subs {
        CandidateSide::Subscriber
    } else {
        CandidateSide::Unknown
    }
}

/// What a snapshot says of one suggested name.
pub open spec fn candidate_of(m: (Seq<char>, int), snap: MonitoringSnapshot) -> CandidateView {
    let p = of_topic(snap.publishers@, m.0);
    let s = of_topic(snap.subscribers@, m.0);
    CandidateView {
        topic_name: m.0,
        score: m.1,
        direction: side_of(p.len() > 0, s.len() > 0),
        occurrences: p.len() + s.len(),
        host_names: listing(registered_hosts(p).union(registered_hosts(s))),
        registered_data_frequency_mhz: greater(peak_rate(p), peak_rate(s)),
    }
}

/// The suggestions for `target` out of `pool`: the best few, the very best one first.
pub open spec fn suggestions_for(target: Seq<char>, pool: Seq<Seq<char>>, snap: MonitoringSnapshot) -> SuggestionsView {
    let ranked = best_matches(target, pool, SUGGESTION_LIMIT as int);
    SuggestionsView {
        suggestion: if ranked.len() > 0 {
            Some(ranked[0].0)
        } else {
            None
        },
        candidates: ranked.map_values(|m: (Seq<char>, int)| candidate_of(m, snap)),
    }
}

/// Counts the registrations of `name`, adds their hosts, and raises `peak` to their highest rate.
fn tally(registrations: &Vec<TopicInfo>, name: &str, hosts: &mut Vec<String>, peak: i32) -> (r: (usize, i32))
    requires
        strictly_sorted(texts(old(hosts)@)),
        0 <= peak,
    ensures
        r.0 == of_topic(registrations@, name@).len(),
        r.1 == greater(peak as int, peak_rate(of_topic(registrations@, name@))),
        lists_set(
            final(hosts)@,
            texts(old(hosts)@).to_set().union(registered_hosts(of_topic(registrations@, name@))),
        ),
{
    let ghost pred = |t: TopicInfo| t.topic_name@ == name@;
    let ghost base = texts(hosts@).to_set();
    let mut count: usize = 0;
    let mut top: i32 = peak;
    let mut i: usize = 0;
    proof {
        filter_start(registrations@, pred);
        assert(base.union(registered_hosts(Seq::empty())) =~= base);
    }
    while i < registrations.len()
        invariant
            i <= registrations.len(),
            count <= i,
            0 <= peak,
            pred == (|t: TopicInfo| t.topic_name@ == name@),
            count == registrations@.take(i as int).filter(pred).len(),
            top == greater(peak as int, peak_rate(registrations@.take(i as int).filter(pred))),
            lists_set(
                hosts@,
                base.union(registered_hosts(registrations@.take(i as int).filter(pred))),
            ),
        decreases registrations.len() - i,
    {
        let t = &registrations[i];
        let ghost before = registrations@.take(i as int).filter(pred);
        proof {
            filter_step(registrations@, pred, i as int);
        }
        if same_text(t.topic_name.as_str(), name) {
            let ghost after = before.push(*t);
            count += 1;
            insert_text(hosts, t.host_name.as_str());
            if t.data_frequency > top {
                top = t.data_frequency;
            }
            proof {
                assert(after.drop_last() =~= before);
                let names = after.map_values(|t: TopicInfo| t.host_name@);
                prefix_set_step(names, before.len() as int);
                assert(names.take(before.len() as int) =~= before.map_values(|t: TopicInfo| t.host_name@));
                assert(names.take(before.len() as int + 1) =~= names);
                assert(base.union(registered_hosts(before)).insert(t.host_name@) =~= base.union(
                    registered_hosts(after),
                ));
            }
        }
        i += 1;
    }
    assert(registrations@.take(i as int) =~= registrations@);
    (count, top)
}

fn build_candidate(name: &str, score: i128, snap: &MonitoringSnapshot) -> (r: CandidateDetail)
    ensures
        r@ == candidate_of((name@, score as int), *snap),
{
    let mut hosts: Vec<String> = Vec::new();
    let (in_pubs, top) = tally(&snap.publishers, name, &mut hosts, 0);
    let (in_subs, top) = tally(&snap.subscribers, name, &mut hosts, top);
    let direction = if in_pubs > 0 && in_subs > 0 {
        CandidateSide::Both
    } else if in_pubs > 0 {
        CandidateSide::Publisher
    } else if in_subs > 0 {
        CandidateSide::Subscriber
    } else {
        CandidateSide::Unknown
    };
    proof {
        let p = of_topic(snap.publishers@, name@);
        let s = of_topic(snap.subscribers@, name@);
        assert(texts(Seq::<String>::empty()).to_set() =~= Set::<Seq<char>>::empty());
        assert(Set::<Seq<char>>::empty().union(registered_hosts(p)) =~= registered_hosts(p));
        sorted_list_is_listing(hosts@, registered_hosts(p).union(registered_hosts(s)));
        lemma_peak_positive(p);
    }
    CandidateDetail {
        topic_name: name.to_owned(),
        score,
        direction,
        occurrences: in_pubs as u128 + in_subs as u128,
        host_names: hosts,
        registered_data_frequency_mhz: top,
    }
}

proof fn lemma_peak_positive(s: Seq<TopicInfo>)
    ensures
        0 <= peak_rate(s),
    decreases s.len(),
{
    if s.len() > 0 {
        lemma_peak_positive(s.drop_last());
    }
}

/// Suggestions for a name that is missing, drawn from `pool`. There always are some to report,
/// though the list may be empty: that says that nothing came close.
pub fn build_did_you_mean(target: &str, pool: &[String], snap: &MonitoringSnapshot) -> (r: Option<SuggestionsDetail>)
    ensures
        r is Some,
        r->Some_0@ == suggestions_for(target@, texts(pool@), *snap),
{
    let ranked = similar_names_with_scores(target, pool, SUGGESTION_LIMIT);
    let ghost best = best_matches(target@, texts(pool@), SUGGESTION_LIMIT as int);
    let mut candidates: Vec<CandidateDetail> = Vec::new();
    let mut i: usize = 0;
    while i < ranked.len()
        invariant
            i <= ranked.len(),
            candidates.len() == i,
            match_views(ranked@) == best,
            forall|k: int| 0 <= k < i ==> (#[trigger] candidates@[k])@ == candidate_of(best[k], *snap),
        decreases ranked.len() - i,
    {
        proof {
            assert(match_views(ranked@)[i as int] == match_view(ranked@[i as int]));
        }
        candidates.push(build_candidate(ranked[i].0.as_str(), ranked[i].1, snap));
        i += 1;
    }
    proof {
        assert(match_views(ranked@).len() == best.len());
        if ranked.len() > 0 {
            assert(match_views(ranked@)[0] == match_view(ranked@[0]));
        }
        assert(candidates@.map_values(|c: CandidateDetail| c@) =~= best.map_values(
            |m: (Seq<char>, int)| candidate_of(m, *snap),
        ));
    }
    let suggestion = if ranked.len() > 0 {
        Some(ranked[0].0.clone())
    } else {
        None
    };
    Some(SuggestionsDetail { suggestion, candidates })
}

} // verus!
