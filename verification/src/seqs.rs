//! Sequences: mapping and reversing, and facts about filtering.

use vstd::prelude::*;

verus! {

/// One more item of `s` adds itself to the filtered prefix, where it passes.
pub proof fn filter_step<T>(s: Seq<T>, pred: spec_fn(T) -> bool, i: int)
    requires
        0 <= i < s.len(),
    ensures
        s.take(i + 1).filter(pred) == (if pred(s[i]) {
            s.take(i).filter(pred).push(s[i])
        } else {
            s.take(i).filter(pred)
        }),
{
    reveal(Seq::filter);
    assert(s.take(i + 1).drop_last() =~= s.take(i));
    assert(s.take(i + 1).last() == s[i]);
}

/// Nothing is left of an empty prefix.
pub proof fn filter_start<T>(s: Seq<T>, pred: spec_fn(T) -> bool)
    ensures
        s.take(0).filter(pred) == Seq::<T>::empty(),
{
    reveal(Seq::filter);
    assert(s.take(0) =~= Seq::<T>::empty());
}

/// Nothing passes, nothing is left.
pub proof fn filter_none<T>(s: Seq<T>, pred: spec_fn(T) -> bool)
    requires
        forall|k: int| 0 <= k < s.len() ==> !pred(#[trigger] s[k]),
    ensures
        s.filter(pred) == Seq::<T>::empty(),
    decreases s.len(),
{
    reveal(Seq::filter);
    if s.len() > 0 {
        assert forall|k: int| 0 <= k < s.drop_last().len() implies !pred(#[trigger] s.drop_last()[k]) by {
            assert(!pred(s[k]));
        }
        filter_none(s.drop_last(), pred);
        assert(s.last() == s[s.len() - 1]);
    }
}

/// Everything passes, everything is left.
pub proof fn filter_all<T>(s: Seq<T>, pred: spec_fn(T) -> bool)
    requires
        forall|i: int| 0 <= i < s.len() ==> pred(#[trigger] s[i]),
    ensures
        s.filter(pred) == s,
    decreases s.len(),
{
    reveal(Seq::filter);
    if s.len() > 0 {
        assert forall|i: int| 0 <= i < s.drop_last().len() implies pred(#[trigger] s.drop_last()[i]) by {
            assert(pred(s[i]));
        }
        filter_all(s.drop_last(), pred);
        assert(pred(s[s.len() - 1]));
        assert(s =~= s.drop_last().push(s.last()));
    }
}

/// The first item that passes is the first of what is left.
pub proof fn filter_first<T>(s: Seq<T>, pred: spec_fn(T) -> bool, i: int)
    requires
        0 <= i < s.len(),
        pred(s[i]),
        forall|k: int| 0 <= k < i ==> !pred(#[trigger] s[k]),
    ensures
        s.filter(pred).len() > 0,
        s.filter(pred)[0] == s[i],
{
    assert forall|k: int| 0 <= k < s.take(i).len() implies !pred(#[trigger] s.take(i)[k]) by {
        assert(!pred(s[k]));
    }
    filter_none(s.take(i), pred);
    filter_step(s, pred, i);
    assert(s =~= s.take(i + 1) + s.skip(i + 1));
    Seq::filter_distributes_over_add(s.take(i + 1), s.skip(i + 1), pred);
    assert(s.take(i + 1).filter(pred) =~= seq![s[i]]);
}

/// The items of a longer prefix.
pub proof fn prefix_set_step<T>(s: Seq<T>, i: int)
    requires
        0 <= i < s.len(),
    ensures
        s.take(i + 1).to_set() == s.take(i).to_set().insert(s[i]),
{
    let a = s.take(i);
    let b = s.take(i + 1);
    assert forall|x: T| b.to_set().contains(x) <==> #[trigger] a.to_set().insert(s[i]).contains(x) by {
        if b.contains(x) {
            let k = choose|k: int| 0 <= k < b.len() && b[k] == x;
            if k < i {
                assert(a[k] == x);
            }
        }
        if a.contains(x) {
            let k = choose|k: int| 0 <= k < a.len() && a[k] == x;
            assert(b[k] == x);
        }
        assert(b[i] == s[i]);
    }
    assert(b.to_set() =~= a.to_set().insert(s[i]));
}

/// Putting an item in adds it to the items.
pub proof fn insert_set<T>(s: Seq<T>, at: int, x: T)
    requires
        0 <= at <= s.len(),
    ensures
        s.insert(at, x).to_set() == s.to_set().insert(x),
{
    let t = s.insert(at, x);
    assert forall|y: T| t.to_set().contains(y) <==> #[trigger] s.to_set().insert(x).contains(y) by {
        if t.contains(y) {
            let i = choose|i: int| 0 <= i < t.len() && t[i] == y;
            if i < at {
                assert(s[i] == y);
            } else if i > at {
                assert(s[i - 1] == y);
            }
        }
        if s.contains(y) {
            let i = choose|i: int| 0 <= i < s.len() && s[i] == y;
            if i < at {
                assert(t[i] == y);
            } else {
                assert(t[i + 1] == y);
            }
        }
        assert(t[at] == x);
    }
    assert(t.to_set() =~= s.to_set().insert(x));
}

/// What is left is of the sequence.
pub proof fn filter_subset<T>(s: Seq<T>, pred: spec_fn(T) -> bool, k: int)
    requires
        0 <= k < s.filter(pred).len(),
    ensures
        s.contains(s.filter(pred)[k]),
    decreases s.len(),
{
    reveal(Seq::filter);
    if s.len() > 0 {
        let t = s.drop_last();
        if k < t.filter(pred).len() {
            filter_subset(t, pred, k);
            let j = choose|j: int| 0 <= j < t.len() && t[j] == t.filter(pred)[k];
            assert(s[j] == t.filter(pred)[k]);
        } else {
            assert(s[s.len() - 1] == s.last());
        }
    }
}

/// Two items that pass are left in their order.
pub proof fn filter_pair<T>(s: Seq<T>, pred: spec_fn(T) -> bool, i: int, j: int)
    requires
        0 <= i < j < s.len(),
        pred(s[i]),
        pred(s[j]),
    ensures
        exists|x: int, y: int|
            0 <= x < y < s.filter(pred).len() && #[trigger] s.filter(pred)[x] == s[i] && #[trigger] s.filter(
                pred,
            )[y] == s[j],
{
    let t = s.take(j);
    let f = t.filter(pred);
    let all = s.filter(pred);
    assert(t[i] == s[i]);
    t.lemma_filter_contains(pred, i);
    let x = choose|x: int| 0 <= x < f.len() && f[x] == s[i];
    filter_step(s, pred, j);
    assert(s =~= s.take(j + 1) + s.skip(j + 1));
    Seq::filter_distributes_over_add(s.take(j + 1), s.skip(j + 1), pred);
    assert(all[x] == s[i]);
    assert(all[f.len() as int] == s[j]);
}

/// What holds of every item and every later one still does of what is left.
pub proof fn filter_keeps_order<T>(s: Seq<T>, pred: spec_fn(T) -> bool, rel: spec_fn(T, T) -> bool)
    requires
        forall|i: int, j: int| 0 <= i < j < s.len() ==> rel(#[trigger] s[i], #[trigger] s[j]),
    ensures
        forall|i: int, j: int|
            0 <= i < j < s.filter(pred).len() ==> rel(
                #[trigger] s.filter(pred)[i],
                #[trigger] s.filter(pred)[j],
            ),
    decreases s.len(),
{
    reveal(Seq::filter);
    if s.len() > 0 {
        let t = s.drop_last();
        assert forall|i: int, j: int| 0 <= i < j < t.len() implies rel(#[trigger] t[i], #[trigger] t[j]) by {
            assert(rel(s[i], s[j]));
        }
        filter_keeps_order(t, pred, rel);
        let f = s.filter(pred);
        let g = t.filter(pred);
        assert forall|i: int, j: int| 0 <= i < j < f.len() implies rel(#[trigger] f[i], #[trigger] f[j]) by {
            if j < g.len() {
                assert(f[i] == g[i] && f[j] == g[j]);
            } else {
                assert(f[i] == g[i]);
                filter_subset(t, pred, i);
                let k = choose|k: int| 0 <= k < t.len() && t[k] == g[i];
                assert(rel(s[k], s[s.len() - 1]));
            }
        }
    }
}

/// Filtering twice leaves the same whichever filter comes first.
pub proof fn filters_commute<T>(s: Seq<T>, p: spec_fn(T) -> bool, q: spec_fn(T) -> bool)
    ensures
        s.filter(p).filter(q) == s.filter(q).filter(p),
    decreases s.len(),
{
    reveal(Seq::filter);
    if s.len() > 0 {
        let t = s.drop_last();
        filters_commute(t, p, q);
        let x = s.last();
        if p(x) {
            assert(t.filter(p).push(x).drop_last() =~= t.filter(p));
        }
        if q(x) {
            assert(t.filter(q).push(x).drop_last() =~= t.filter(q));
        }
    }
}

/// What `f` makes of each item, in order.
pub fn map_rows<T, U, F: Fn(&T) -> U>(rows: &[T], f: F) -> (r: Vec<U>)
    requires
        forall|i: int| 0 <= i < rows@.len() ==> call_requires(f, (&#[trigger] rows@[i],)),
    ensures
        r@.len() == rows@.len(),
        forall|i: int| 0 <= i < rows@.len() ==> call_ensures(f, (&rows@[i],), #[trigger] r@[i]),
{
    let mut r: Vec<U> = Vec::new();
    let mut i: usize = 0;
    while i < rows.len()
        invariant
            i <= rows.len(),
            r.len() == i,
            forall|k: int| 0 <= k < rows@.len() ==> call_requires(f, (&#[trigger] rows@[k],)),
            forall|k: int| 0 <= k < i ==> call_ensures(f, (&rows@[k],), #[trigger] r@[k]),
        decreases rows.len() - i,
    {
        assert(call_requires(f, (&rows@[i as int],)));
        r.push(f(&rows[i]));
        i += 1;
    }
    r
}

/// The items in reverse order.
pub fn reversed<T>(items: Vec<T>) -> (r: Vec<T>)
    ensures
        r@ == items@.reverse(),
{
    let mut source = items;
    let mut r: Vec<T> = Vec::new();
    while source.len() > 0
        invariant
            source.len() + r.len() == items.len(),
            source@ == items@.take(source.len() as int),
            forall|k: int| 0 <= k < r.len() ==> #[trigger] r@[k] == items@[items.len() - 1 - k],
        decreases source.len(),
    {
        if let Some(x) = source.pop() {
            r.push(x);
            assert(source@ =~= items@.take(source.len() as int));
        }
    }
    assert(r@ =~= items@.reverse());
    r
}

/// Numbers that ascend strictly.
pub open spec fn ascends(s: Seq<int>) -> bool {
    forall|i: int, j: int| 0 <= i < j < s.len() ==> #[trigger] s[i] < #[trigger] s[j]
}

/// Where the items of a filtered sequence stood: at ascending places, and at all places whose item
/// passes.
pub proof fn filter_places<T>(s: Seq<T>, pred: spec_fn(T) -> bool) -> (from: Seq<int>)
    ensures
        from.len() == s.filter(pred).len(),
        ascends(from),
        forall|i: int|
            0 <= i < from.len() ==> 0 <= #[trigger] from[i] < s.len() && s.filter(pred)[i] == s[from[i]],
        forall|j: int| 0 <= j < s.len() ==> (pred(#[trigger] s[j]) <==> from.contains(j)),
    decreases s.len(),
{
    reveal(Seq::filter);
    if s.len() == 0 {
        Seq::empty()
    } else {
        let t = s.drop_last();
        let last = s.len() - 1;
        let rest = filter_places(t, pred);
        let from = if pred(s.last()) {
            rest.push(last)
        } else {
            rest
        };
        assert forall|i: int| 0 <= i < from.len() implies 0 <= #[trigger] from[i] < s.len() && s.filter(
            pred,
        )[i] == s[from[i]] by {
            if i < rest.len() {
                assert(from[i] == rest[i]);
                assert(0 <= rest[i] < t.len() && t.filter(pred)[i] == t[rest[i]]);
            }
        }
        assert(ascends(from)) by {
            assert forall|i: int, j: int| 0 <= i < j < from.len() implies #[trigger] from[i] < #[trigger] from[j] by {
                assert(0 <= rest[i] < t.len());
                if j < rest.len() {
                    assert(rest[i] < rest[j]);
                }
            }
        }
        assert forall|j: int| 0 <= j < s.len() implies (pred(#[trigger] s[j]) <==> from.contains(j)) by {
            if j < last {
                assert(t[j] == s[j]);
                if rest.contains(j) {
                    let k = choose|k: int| 0 <= k < rest.len() && rest[k] == j;
                    assert(from[k] == j);
                }
                if from.contains(j) {
                    let k = choose|k: int| 0 <= k < from.len() && from[k] == j;
                    assert(rest[k] == j);
                }
            } else {
                if pred(s.last()) {
                    assert(from[rest.len() as int] == last);
                } else if from.contains(j) {
                    let k = choose|k: int| 0 <= k < from.len() && from[k] == j;
                    assert(0 <= rest[k] < t.len());
                }
            }
        }
        from
    }
}

} // verus!
