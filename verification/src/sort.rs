//! Stable sorting by an integer key, and sets of texts kept as strictly sorted lists.

use std::collections::VecDeque;

use vstd::prelude::*;

use crate::seqs::{insert_set, prefix_set_step, reversed};
use crate::text::{same_text, text_before, text_less, text_order_is_total, text_order_is_transitive};

verus! {

broadcast use vstd::seq_lib::group_seq_properties;

/// The items with key `k`, in order.
pub open spec fn with_key<T>(s: Seq<(i128, T)>, k: i128) -> Seq<(i128, T)> {
    s.filter(|p: (i128, T)| p.0 == k)
}

/// The keys ascend.
pub open spec fn key_sorted<T>(s: Seq<(i128, T)>) -> bool {
    forall|i: int, j: int| 0 <= i < j < s.len() ==> (#[trigger] s[i]).0 <= (#[trigger] s[j]).0
}

/// `r` is `s` sorted by key, items of one key in the order in which `s` has them.
pub open spec fn stable_sort_of<T>(r: Seq<(i128, T)>, s: Seq<(i128, T)>) -> bool {
    &&& key_sorted(r)
    &&& forall|k: i128| #[trigger] with_key(r, k) == with_key(s, k)
}

proof fn lemma_with_key_add<T>(a: Seq<(i128, T)>, b: Seq<(i128, T)>, k: i128)
    ensures
        with_key(a + b, k) == with_key(a, k) + with_key(b, k),
{
    Seq::filter_distributes_over_add(a, b, |p: (i128, T)| p.0 == k);
}

proof fn lemma_with_key_none<T>(s: Seq<(i128, T)>, k: i128)
    requires
        forall|i: int| 0 <= i < s.len() ==> (#[trigger] s[i]).0 != k,
    ensures
        with_key(s, k) == Seq::<(i128, T)>::empty(),
    decreases s.len(),
{
    reveal(Seq::filter);
    if s.len() > 0 {
        lemma_with_key_none(s.drop_last(), k);
    }
}

proof fn lemma_with_key_one<T>(x: (i128, T), k: i128)
    ensures
        with_key(seq![x], k) == (if x.0 == k { seq![x] } else { Seq::<(i128, T)>::empty() }),
{
    reveal(Seq::filter);
    let s = seq![x];
    assert(s.drop_last() =~= Seq::<(i128, T)>::empty());
    lemma_with_key_none(s.drop_last(), k);
    assert(s.last() == x);
}

/// Taking the front of `a` over to `out` keeps what `out`, `a` and `b` hold for every key.
proof fn lemma_take_left<T>(
    out: Seq<(i128, T)>,
    a: Seq<(i128, T)>,
    b: Seq<(i128, T)>,
    k: i128,
)
    requires
        a.len() > 0,
    ensures
        with_key(out.push(a[0]), k) + with_key(a.drop_first(), k) + with_key(b, k) == with_key(out, k)
            + with_key(a, k) + with_key(b, k),
{
    let x = seq![a[0]];
    assert(out.push(a[0]) =~= out + x);
    assert(a =~= x + a.drop_first());
    lemma_with_key_add(out, x, k);
    lemma_with_key_add(x, a.drop_first(), k);
    assert((with_key(out, k) + with_key(x, k)) + with_key(a.drop_first(), k) =~= with_key(out, k) + (
    with_key(x, k) + with_key(a.drop_first(), k)));
}

/// The same for the front of `b`, where every key left in `a` is greater.
proof fn lemma_take_right<T>(
    out: Seq<(i128, T)>,
    a: Seq<(i128, T)>,
    b: Seq<(i128, T)>,
    k: i128,
)
    requires
        b.len() > 0,
        forall|i: int| 0 <= i < a.len() ==> b[0].0 < (#[trigger] a[i]).0,
    ensures
        with_key(out.push(b[0]), k) + with_key(a, k) + with_key(b.drop_first(), k) == with_key(out, k)
            + with_key(a, k) + with_key(b, k),
{
    let x = seq![b[0]];
    assert(out.push(b[0]) =~= out + x);
    assert(b =~= x + b.drop_first());
    lemma_with_key_add(out, x, k);
    lemma_with_key_add(x, b.drop_first(), k);
    lemma_with_key_one(b[0], k);
    if k == b[0].0 {
        lemma_with_key_none(a, k);
    }
    assert(with_key(out.push(b[0]), k) + with_key(a, k) + with_key(b.drop_first(), k) =~= with_key(
        out,
        k,
    ) + with_key(a, k) + with_key(b, k));
}

fn merge<T>(left: VecDeque<(i128, T)>, right: VecDeque<(i128, T)>) -> (r: VecDeque<(i128, T)>)
    requires
        key_sorted(left@),
        key_sorted(right@),
    ensures
        key_sorted(r@),
        r@.len() == left@.len() + right@.len(),
        forall|k: i128| #[trigger] with_key(r@, k) == with_key(left@, k) + with_key(right@, k),
{
    let mut a = left;
    let mut b = right;
    let mut out: VecDeque<(i128, T)> = VecDeque::new();
    proof {
        assert forall|k: i128|
            with_key(out@, k) + with_key(a@, k) + with_key(b@, k) == #[trigger] with_key(left@, k)
                + with_key(right@, k) by {
            lemma_with_key_none(out@, k);
            assert(Seq::<(i128, T)>::empty() + with_key(a@, k) =~= with_key(a@, k));
        }
    }
    while a.len() > 0 || b.len() > 0
        invariant
            key_sorted(a@),
            key_sorted(b@),
            key_sorted(out@),
            out@.len() + a@.len() + b@.len() == left@.len() + right@.len(),
            forall|i: int, j: int|
                0 <= i < out@.len() && 0 <= j < a@.len() ==> (#[trigger] out@[i]).0 <= (
                #[trigger] a@[j]).0,
            forall|i: int, j: int|
                0 <= i < out@.len() && 0 <= j < b@.len() ==> (#[trigger] out@[i]).0 <= (
                #[trigger] b@[j]).0,
            forall|k: i128|
                with_key(out@, k) + with_key(a@, k) + with_key(b@, k) == #[trigger] with_key(left@, k)
                    + with_key(right@, k),
        decreases a@.len() + b@.len(),
    {
        let ghost out0 = out@;
        let ghost a0 = a@;
        let ghost b0 = b@;
        let from_left: bool = if a.len() == 0 {
            false
        } else if b.len() == 0 {
            true
        } else {
            a[0].0 <= b[0].0
        };
        if from_left {
            proof {
                assert forall|k: i128|
                    with_key(out0.push(a0[0]), k) + with_key(a0.drop_first(), k) + with_key(b0, k)
                        == #[trigger] with_key(left@, k) + with_key(right@, k) by {
                    lemma_take_left(out0, a0, b0, k);
                }
            }
            if let Some(x) = a.pop_front() {
                out.push_back(x);
            }
            assert(a@ =~= a0.drop_first());
            assert(out@ =~= out0.push(a0[0]));
        } else {
            proof {
                assert forall|k: i128|
                    with_key(out0.push(b0[0]), k) + with_key(a0, k) + with_key(b0.drop_first(), k)
                        == #[trigger] with_key(left@, k) + with_key(right@, k) by {
                    lemma_take_right(out0, a0, b0, k);
                }
            }
            if let Some(x) = b.pop_front() {
                out.push_back(x);
            }
            assert(b@ =~= b0.drop_first());
            assert(out@ =~= out0.push(b0[0]));
        }
    }
    proof {
        assert forall|k: i128| #[trigger]
            with_key(out@, k) == with_key(left@, k) + with_key(right@, k) by {
            lemma_with_key_none(a@, k);
            lemma_with_key_none(b@, k);
            assert(with_key(out@, k) + with_key(a@, k) + with_key(b@, k) =~= with_key(out@, k));
            assert(with_key(left@, k) + with_key(right@, k) == with_key(out@, k));
        }
    }
    out
}

fn sort_deque<T>(items: VecDeque<(i128, T)>) -> (r: VecDeque<(i128, T)>)
    ensures
        stable_sort_of(r@, items@),
        r@.len() == items@.len(),
    decreases items@.len(),
{
    let n: usize = items.len();
    if n <= 1 {
        return items;
    }
    let mut left = items;
    let right = left.split_off(n / 2);
    assert(items@ =~= left@ + right@);
    let a = sort_deque(left);
    let b = sort_deque(right);
    let r = merge(a, b);
    proof {
        assert forall|k: i128| #[trigger] with_key(r@, k) == with_key(items@, k) by {
            lemma_with_key_add(left@, right@, k);
            assert(with_key(a@, k) == with_key(left@, k));
            assert(with_key(b@, k) == with_key(right@, k));
        }
    }
    r
}

/// Sorts by the integer key, keeping the order of items of one key.
pub fn stable_sort<T>(items: Vec<(i128, T)>) -> (r: Vec<(i128, T)>)
    ensures
        stable_sort_of(r@, items@),
        r@ == stably_sorted(items@),
        r@.len() == items@.len(),
{
    let mut source = items;
    let mut deque: VecDeque<(i128, T)> = VecDeque::new();
    while source.len() > 0
        invariant
            source@ + deque@ == items@,
        decreases source@.len(),
    {
        let ghost s0 = source@;
        let ghost d0 = deque@;
        if let Some(x) = source.pop() {
            deque.push_front(x);
            assert(source@ + deque@ =~= s0 + d0);
        }
    }
    assert(deque@ =~= items@);
    let mut sorted = sort_deque(deque);
    let ghost whole = sorted@;
    let mut r: Vec<(i128, T)> = Vec::new();
    while sorted.len() > 0
        invariant
            r@ + sorted@ == whole,
        decreases sorted@.len(),
    {
        let ghost s0 = sorted@;
        let ghost r0 = r@;
        if let Some(x) = sorted.pop_front() {
            r.push(x);
            assert(r@ + sorted@ =~= r0 + s0);
        }
    }
    assert(r@ =~= whole);
    proof {
        stable_sort_is_unique(r@, items@);
    }
    r
}

/// The items without their keys.
pub fn items_of<T>(keyed: Vec<(i128, T)>) -> (r: Vec<T>)
    ensures
        r@ == keyed@.map_values(|p: (i128, T)| p.1),
{
    let mut source = keyed;
    let mut back: Vec<T> = Vec::new();
    while source.len() > 0
        invariant
            source.len() + back.len() == keyed.len(),
            source@ == keyed@.take(source.len() as int),
            forall|k: int| 0 <= k < back.len() ==> #[trigger] back@[k] == keyed@[keyed.len() - 1 - k].1,
        decreases source.len(),
    {
        if let Some(x) = source.pop() {
            back.push(x.1);
            assert(source@ =~= keyed@.take(source.len() as int));
        }
    }
    assert(back@.reverse() =~= keyed@.map_values(|p: (i128, T)| p.1));
    reversed(back)
}

/// Puts each key before its item.
pub fn zip_keys<T>(keys: Vec<i128>, items: Vec<T>) -> (r: Vec<(i128, T)>)
    requires
        keys.len() == items.len(),
    ensures
        r@.len() == items@.len(),
        forall|i: int| 0 <= i < items@.len() ==> #[trigger] r@[i] == (keys@[i], items@[i]),
{
    let mut source = items;
    let mut back: Vec<(i128, T)> = Vec::new();
    while source.len() > 0
        invariant
            keys.len() == items.len(),
            source.len() + back.len() == items.len(),
            source@ == items@.take(source.len() as int),
            forall|k: int|
                0 <= k < back.len() ==> #[trigger] back@[k] == (
                    keys@[items.len() - 1 - k],
                    items@[items.len() - 1 - k],
                ),
        decreases source.len(),
    {
        if let Some(x) = source.pop() {
            back.push((keys[source.len()], x));
            assert(source@ =~= items@.take(source.len() as int));
        }
    }
    reversed(back)
}

/// Each item with its key.
pub open spec fn keyed<T>(s: Seq<T>, key: spec_fn(T) -> i128) -> Seq<(i128, T)> {
    s.map_values(|x: T| (key(x), x))
}

/// The items by ascending key; those of one key stay in order.
pub open spec fn sorted_by_key<T>(s: Seq<T>, key: spec_fn(T) -> i128) -> Seq<T> {
    stably_sorted(keyed(s, key)).map_values(|p: (i128, T)| p.1)
}

/// Whether an item has key `k`.
pub open spec fn has_key<T>(key: spec_fn(T) -> i128, k: i128) -> spec_fn(T) -> bool {
    |x: T| key(x) == k
}

/// The items with key `k`, in order.
pub open spec fn class_of<T>(s: Seq<T>, key: spec_fn(T) -> i128, k: i128) -> Seq<T> {
    s.filter(has_key(key, k))
}

proof fn lemma_class<T>(s: Seq<(i128, T)>, key: spec_fn(T) -> i128, k: i128)
    requires
        forall|i: int| 0 <= i < s.len() ==> (#[trigger] s[i]).0 == key(s[i].1),
    ensures
        class_of(s.map_values(|p: (i128, T)| p.1), key, k) == with_key(s, k).map_values(
            |p: (i128, T)| p.1,
        ),
    decreases s.len(),
{
    reveal(Seq::filter);
    let item = |p: (i128, T)| p.1;
    let t = s.map_values(item);
    if s.len() == 0 {
        assert(t =~= Seq::<T>::empty());
        assert(class_of(t, key, k) =~= with_key(s, k).map_values(item));
    } else {
        assert forall|i: int| 0 <= i < s.drop_last().len() implies (#[trigger] s.drop_last()[i]).0 == key(
            s.drop_last()[i].1,
        ) by {
            assert(s[i].0 == key(s[i].1));
        }
        lemma_class(s.drop_last(), key, k);
        assert(t.drop_last() =~= s.drop_last().map_values(item));
        assert(t.last() == s.last().1);
        assert(s[s.len() - 1].0 == key(s[s.len() - 1].1));
        assert(class_of(t, key, k) =~= with_key(s, k).map_values(item));
    }
}

/// Sorting by a key puts lower keys first, neither adds nor loses an item, and leaves the items of
/// one key in the order in which they came.
pub proof fn sorting_by_key_is_stable<T>(s: Seq<T>, key: spec_fn(T) -> i128)
    ensures
        sorted_by_key(s, key).len() == s.len(),
        sorted_by_key(s, key).to_multiset() == s.to_multiset(),
        forall|i: int, j: int|
            0 <= i < j < s.len() ==> key(#[trigger] sorted_by_key(s, key)[i]) <= key(
                #[trigger] sorted_by_key(s, key)[j],
            ),
        forall|k: i128| #[trigger] class_of(sorted_by_key(s, key), key, k) == class_of(s, key, k),
        forall|x: T| #[trigger] sorted_by_key(s, key).contains(x) <==> s.contains(x),
{
    let p = keyed(s, key);
    let r = stably_sorted(p);
    let o = sorted_by_key(s, key);
    stable_sort_exists(p);
    assert(p.map_values(|q: (i128, T)| q.1) =~= s);
    sorted_items_permute(p, key);
    assert forall|i: int| 0 <= i < r.len() implies (#[trigger] r[i]).0 == key(r[i].1) by {
        vstd::seq_lib::to_multiset_contains(r, r[i]);
        assert(r.contains(r[i]));
        vstd::seq_lib::to_multiset_contains(p, r[i]);
        let k = choose|k: int| 0 <= k < p.len() && p[k] == r[i];
        assert(p[k] == (key(s[k]), s[k]));
    }
    assert forall|i: int, j: int| 0 <= i < j < o.len() implies key(#[trigger] o[i]) <= key(#[trigger] o[j]) by {
        assert(r[i].0 <= r[j].0);
        assert(r[i].0 == key(r[i].1) && r[j].0 == key(r[j].1));
    }
    assert forall|k: i128| #[trigger] class_of(o, key, k) == class_of(s, key, k) by {
        lemma_class(r, key, k);
        lemma_class(p, key, k);
        assert(with_key(r, k) == with_key(p, k));
    }
    assert forall|x: T| #[trigger] o.contains(x) <==> s.contains(x) by {
        vstd::seq_lib::to_multiset_contains(o, x);
        vstd::seq_lib::to_multiset_contains(s, x);
    }
}

/// Sorts items by their keys and drops the keys.
pub fn sort_items<T>(items: Vec<(i128, T)>) -> (r: Vec<T>)
    ensures
        r@ == stably_sorted(items@).map_values(|p: (i128, T)| p.1),
        r@.len() == items@.len(),
{
    items_of(stable_sort(items))
}

/// The images of sorted items are the sorted images, where `items` holds items whose images `s`
/// has, each under the key of its image.
pub proof fn sorted_images<T, U>(items: Seq<(i128, T)>, f: spec_fn(T) -> U, s: Seq<U>, key: spec_fn(U) -> i128)
    requires
        map_items(items, f) == keyed(s, key),
    ensures
        stably_sorted(items).map_values(|p: (i128, T)| p.1).map_values(f) == sorted_by_key(s, key),
{
    stable_sort_exists(items);
    let r = stably_sorted(items);
    stable_sort_maps(r, items, f);
    assert(r.map_values(|p: (i128, T)| p.1).map_values(f) =~= map_items(r, f).map_values(
        |p: (i128, U)| p.1,
    ));
}

proof fn lemma_count_with_key<T>(s: Seq<(i128, T)>, x: (i128, T))
    ensures
        s.to_multiset().count(x) == with_key(s, x.0).to_multiset().count(x),
    decreases s.len(),
{
    reveal(Seq::filter);
    broadcast use vstd::seq_lib::group_to_multiset_ensures;
    if s.len() > 0 {
        let t = s.drop_last();
        lemma_count_with_key(t, x);
        assert(s =~= t.push(s.last()));
        assert(s.to_multiset() == t.to_multiset().insert(s.last()));
        if s.last().0 == x.0 {
            assert(with_key(s, x.0) == with_key(t, x.0).push(s.last()));
        }
    }
}

/// A stable sort neither adds nor loses an item.
pub proof fn stable_sort_permutes<T>(r: Seq<(i128, T)>, s: Seq<(i128, T)>)
    requires
        stable_sort_of(r, s),
    ensures
        r.to_multiset() == s.to_multiset(),
{
    assert forall|x: (i128, T)| #[trigger] r.to_multiset().count(x) == s.to_multiset().count(x) by {
        lemma_count_with_key(r, x);
        lemma_count_with_key(s, x);
        assert(with_key(r, x.0) == with_key(s, x.0));
    }
    assert(r.to_multiset() =~= s.to_multiset());
}

/// The stable sort of `s`.
pub open spec fn stably_sorted<T>(s: Seq<(i128, T)>) -> Seq<(i128, T)> {
    choose|r: Seq<(i128, T)>| stable_sort_of(r, s)
}

/// There is only one stable sort of a sequence.
pub proof fn stable_sort_is_unique<T>(r: Seq<(i128, T)>, s: Seq<(i128, T)>)
    requires
        stable_sort_of(r, s),
    ensures
        r == stably_sorted(s),
{
    let t = stably_sorted(s);
    assert(stable_sort_of(t, s));
    assert forall|k: i128| #[trigger] with_key(r, k) == with_key(t, k) by {
        assert(with_key(t, k) == with_key(s, k));
    }
    lemma_same_classes(r, t);
}

/// Every sequence has a stable sort, as long as the sequence and of the same items.
pub proof fn stable_sort_exists<T>(s: Seq<(i128, T)>)
    ensures
        stable_sort_of(stably_sorted(s), s),
        stably_sorted(s).len() == s.len(),
        stably_sorted(s).to_multiset() == s.to_multiset(),
{
    lemma_stable_sort_exists(s);
    let r = stably_sorted(s);
    stable_sort_permutes(r, s);
    broadcast use vstd::seq_lib::group_to_multiset_ensures;
    assert(r.to_multiset().len() == r.len());
    assert(s.to_multiset().len() == s.len());
}

/// The keys before `q` are at most `k`, those from `q` on are greater.
spec fn splits_at<T>(r: Seq<(i128, T)>, k: i128, q: int) -> bool {
    &&& 0 <= q <= r.len()
    &&& forall|i: int| 0 <= i < q ==> (#[trigger] r[i]).0 <= k
    &&& forall|i: int| q <= i < r.len() ==> k < (#[trigger] r[i]).0
}

proof fn lemma_place_after<T>(r: Seq<(i128, T)>, k: i128, p: int)
    requires
        key_sorted(r),
        0 <= p <= r.len(),
        forall|i: int| p <= i < r.len() ==> k < (#[trigger] r[i]).0,
    ensures
        exists|q: int| splits_at(r, k, q),
    decreases p,
{
    if p > 0 && k < r[p - 1].0 {
        lemma_place_after(r, k, p - 1);
    } else {
        assert forall|i: int| 0 <= i < p implies (#[trigger] r[i]).0 <= k by {
            if i < p - 1 {
                assert(r[i].0 <= r[p - 1].0);
            }
        }
        assert(splits_at(r, k, p));
    }
}

proof fn lemma_stable_sort_exists<T>(s: Seq<(i128, T)>)
    ensures
        exists|r: Seq<(i128, T)>| stable_sort_of(r, s),
    decreases s.len(),
{
    if s.len() == 0 {
        assert(stable_sort_of(s, s));
    } else {
        let t = s.drop_last();
        let x = s.last();
        lemma_stable_sort_exists(t);
        let r = stably_sorted(t);
        lemma_place_after(r, x.0, r.len() as int);
        let q = choose|q: int| splits_at(r, x.0, q);
        let a = r.take(q);
        let b = r.skip(q);
        let one = seq![x];
        let n = a + one + b;
        assert forall|k: i128| #[trigger] with_key(n, k) == with_key(s, k) by {
            lemma_with_key_add(a + one, b, k);
            lemma_with_key_add(a, one, k);
            lemma_with_key_one(x, k);
            assert(r =~= a + b);
            lemma_with_key_add(a, b, k);
            assert(with_key(r, k) == with_key(t, k));
            assert(s =~= t + one);
            lemma_with_key_add(t, one, k);
            if k == x.0 {
                lemma_with_key_none(b, k);
                assert(with_key(n, k) =~= with_key(s, k));
            } else {
                assert(with_key(n, k) =~= with_key(s, k));
            }
        }
        assert forall|i: int, j: int| 0 <= i < j < n.len() implies (#[trigger] n[i]).0 <= (#[trigger] n[j]).0 by {
            let i0 = if i < q { i } else { i - 1 };
            let j0 = if j < q { j } else { j - 1 };
            if i != q {
                assert(n[i] == r[i0]);
            }
            if j != q {
                assert(n[j] == r[j0]);
            }
            if i != q && j != q {
                assert(r[i0].0 <= r[j0].0);
            }
        }
        assert(stable_sort_of(n, s));
    }
}

proof fn lemma_first_key<T>(a: Seq<(i128, T)>, b: Seq<(i128, T)>)
    requires
        a.len() > 0,
        with_key(a, a[0].0) == with_key(b, a[0].0),
    ensures
        exists|j: int| 0 <= j < b.len() && (#[trigger] b[j]).0 == a[0].0,
{
    let k = a[0].0;
    lemma_with_key_front(a);
    if forall|j: int| 0 <= j < b.len() ==> (#[trigger] b[j]).0 != k {
        lemma_with_key_none(b, k);
    }
}

proof fn lemma_with_key_front<T>(a: Seq<(i128, T)>)
    requires
        a.len() > 0,
    ensures
        forall|k: i128| #[trigger]
            with_key(a, k) == (if a[0].0 == k {
                seq![a[0]]
            } else {
                Seq::<(i128, T)>::empty()
            }) + with_key(a.drop_first(), k),
{
    assert(a =~= seq![a[0]] + a.drop_first());
    assert forall|k: i128| #[trigger]
        with_key(a, k) == (if a[0].0 == k {
            seq![a[0]]
        } else {
            Seq::<(i128, T)>::empty()
        }) + with_key(a.drop_first(), k) by {
        lemma_with_key_add(seq![a[0]], a.drop_first(), k);
        lemma_with_key_one(a[0], k);
    }
}

proof fn lemma_same_classes<T>(a: Seq<(i128, T)>, b: Seq<(i128, T)>)
    requires
        key_sorted(a),
        key_sorted(b),
        forall|k: i128| #[trigger] with_key(a, k) == with_key(b, k),
    ensures
        a == b,
    decreases a.len(),
{
    if a.len() == 0 {
        if b.len() > 0 {
            assert(with_key(a, b[0].0) == with_key(b, b[0].0));
            lemma_first_key(b, a);
        }
        assert(a =~= b);
    } else {
        assert(with_key(a, a[0].0) == with_key(b, a[0].0));
        lemma_first_key(a, b);
        assert(with_key(a, b[0].0) == with_key(b, b[0].0));
        lemma_first_key(b, a);
        lemma_with_key_front(a);
        lemma_with_key_front(b);
        let k = a[0].0;
        assert(b[0].0 == k);
        assert(with_key(a, k)[0] == a[0]);
        assert(with_key(b, k)[0] == b[0]);
        let a1 = a.drop_first();
        let b1 = b.drop_first();
        assert forall|j: i128| #[trigger] with_key(a1, j) == with_key(b1, j) by {
            assert(with_key(a, j) == with_key(b, j));
            if j == k {
                assert(with_key(a1, j) =~= with_key(a, j).drop_first());
                assert(with_key(b1, j) =~= with_key(b, j).drop_first());
            } else {
                assert(with_key(a1, j) =~= with_key(a, j));
                assert(with_key(b1, j) =~= with_key(b, j));
            }
        }
        lemma_same_classes(a1, b1);
        assert(a =~= seq![a[0]] + a1);
        assert(b =~= seq![b[0]] + b1);
    }
}

proof fn lemma_count_items<T>(s: Seq<(i128, T)>, key: spec_fn(T) -> i128, x: T)
    requires
        forall|i: int| 0 <= i < s.len() ==> (#[trigger] s[i]).0 == key(s[i].1),
    ensures
        s.map_values(|p: (i128, T)| p.1).to_multiset().count(x) == s.to_multiset().count((key(x), x)),
    decreases s.len(),
{
    broadcast use vstd::seq_lib::group_to_multiset_ensures;
    let item = |p: (i128, T)| p.1;
    if s.len() > 0 {
        let t = s.drop_last();
        assert forall|i: int| 0 <= i < t.len() implies (#[trigger] t[i]).0 == key(t[i].1) by {
            assert(s[i].0 == key(s[i].1));
        }
        lemma_count_items(t, key, x);
        assert(s =~= t.push(s.last()));
        assert(s.map_values(item) =~= t.map_values(item).push(s.last().1));
        assert(s[s.len() - 1].0 == key(s[s.len() - 1].1));
    } else {
        assert(s.map_values(item) =~= Seq::<T>::empty());
        assert(s =~= Seq::<(i128, T)>::empty());
    }
}

/// Where the keys are a matter of the items, sorting neither adds nor loses an item.
pub proof fn sorted_items_permute<T>(s: Seq<(i128, T)>, key: spec_fn(T) -> i128)
    requires
        forall|i: int| 0 <= i < s.len() ==> (#[trigger] s[i]).0 == key(s[i].1),
    ensures
        stably_sorted(s).map_values(|p: (i128, T)| p.1).to_multiset() == s.map_values(
            |p: (i128, T)| p.1,
        ).to_multiset(),
{
    let r = stably_sorted(s);
    let item = |p: (i128, T)| p.1;
    stable_sort_exists(s);
    assert forall|i: int| 0 <= i < r.len() implies (#[trigger] r[i]).0 == key(r[i].1) by {
        vstd::seq_lib::to_multiset_contains(r, r[i]);
        assert(r.contains(r[i]));
        vstd::seq_lib::to_multiset_contains(s, r[i]);
        let k = choose|k: int| 0 <= k < s.len() && s[k] == r[i];
        assert(s[k].0 == key(s[k].1));
    }
    assert forall|x: T| #[trigger] r.map_values(item).to_multiset().count(x) == s.map_values(
        item,
    ).to_multiset().count(x) by {
        lemma_count_items(r, key, x);
        lemma_count_items(s, key, x);
    }
    assert(r.map_values(item).to_multiset() =~= s.map_values(item).to_multiset());
}

/// Every item replaced by its image, keys kept.
pub open spec fn map_items<T, U>(s: Seq<(i128, T)>, f: spec_fn(T) -> U) -> Seq<(i128, U)> {
    s.map_values(|p: (i128, T)| (p.0, f(p.1)))
}

proof fn lemma_with_key_map<T, U>(s: Seq<(i128, T)>, f: spec_fn(T) -> U, k: i128)
    ensures
        with_key(map_items(s, f), k) == map_items(with_key(s, k), f),
    decreases s.len(),
{
    reveal(Seq::filter);
    let m = map_items(s, f);
    if s.len() == 0 {
        assert(m =~= Seq::<(i128, U)>::empty());
        assert(with_key(m, k) =~= map_items(with_key(s, k), f));
    } else {
        lemma_with_key_map(s.drop_last(), f, k);
        assert(m.drop_last() =~= map_items(s.drop_last(), f));
        assert(m.last() == (s.last().0, f(s.last().1)));
        assert(with_key(m, k) =~= map_items(with_key(s, k), f));
    }
}

/// Sorting and mapping the items commute.
pub proof fn stable_sort_maps<T, U>(r: Seq<(i128, T)>, s: Seq<(i128, T)>, f: spec_fn(T) -> U)
    requires
        stable_sort_of(r, s),
    ensures
        map_items(r, f) == stably_sorted(map_items(s, f)),
{
    assert forall|k: i128| #[trigger] with_key(map_items(r, f), k) == with_key(map_items(s, f), k) by {
        lemma_with_key_map(r, f, k);
        lemma_with_key_map(s, f, k);
        assert(with_key(r, k) == with_key(s, k));
    }
    assert forall|i: int, j: int| 0 <= i < j < map_items(r, f).len() implies (#[trigger] map_items(
        r,
        f,
    )[i]).0 <= (#[trigger] map_items(r, f)[j]).0 by {
        assert(r[i].0 <= r[j].0);
    }
    stable_sort_is_unique(map_items(r, f), map_items(s, f));
}

/// The integers ascend.
pub open spec fn ascending(s: Seq<i64>) -> bool {
    forall|i: int, j: int| 0 <= i < j < s.len() ==> #[trigger] s[i] <= #[trigger] s[j]
}

/// The integers of `s` in ascending order.
pub open spec fn in_order(s: Seq<i64>) -> Seq<i64> {
    choose|r: Seq<i64>| ascending(r) && r.to_multiset() == s.to_multiset()
}

/// There is only one ascending order of given integers.
pub proof fn ascending_order_is_unique(r: Seq<i64>, s: Seq<i64>)
    requires
        ascending(r),
        r.to_multiset() == s.to_multiset(),
    ensures
        r == in_order(s),
{
    let t = in_order(s);
    assert(ascending(t) && t.to_multiset() == s.to_multiset());
    vstd::seq_lib::lemma_sorted_unique(r, t, |x: i64, y: i64| x <= y);
}

/// Integers can always be put in ascending order.
pub proof fn ascending_order_exists(s: Seq<i64>)
    ensures
        ascending(in_order(s)),
        in_order(s).to_multiset() == s.to_multiset(),
        in_order(s).len() == s.len(),
{
    let leq = |x: i64, y: i64| x <= y;
    s.lemma_sort_by_ensures(leq);
    let r = s.sort_by(leq);
    assert forall|i: int, j: int| 0 <= i < j < r.len() implies #[trigger] r[i] <= #[trigger] r[j] by {
        assert(leq(r[i], r[j]));
    }
    assert(ascending(r) && r.to_multiset() == s.to_multiset());
    broadcast use vstd::seq_lib::group_to_multiset_ensures;
    assert(in_order(s).to_multiset().len() == in_order(s).len());
}

proof fn lemma_count_keyed(v: Seq<i64>, p: Seq<(i128, ())>, x: i64)
    requires
        p.len() == v.len(),
        forall|i: int| 0 <= i < v.len() ==> #[trigger] p[i] == (v[i] as i128, ()),
    ensures
        v.to_multiset().count(x) == p.to_multiset().count((x as i128, ())),
    decreases v.len(),
{
    broadcast use vstd::seq_lib::group_to_multiset_ensures;
    if v.len() > 0 {
        lemma_count_keyed(v.drop_last(), p.drop_last(), x);
        assert(v =~= v.drop_last().push(v.last()));
        assert(p =~= p.drop_last().push(p.last()));
        assert(p.last() == (v.last() as i128, ()));
    }
}

/// Sorts integers in ascending order.
pub fn sort_ints(items: Vec<i64>) -> (r: Vec<i64>)
    ensures
        ascending(r@),
        r@.to_multiset() == items@.to_multiset(),
        r@ == in_order(items@),
        r@.len() == items@.len(),
{
    let mut keyed: Vec<(i128, ())> = Vec::new();
    let mut i: usize = 0;
    while i < items.len()
        invariant
            i <= items.len(),
            keyed.len() == i,
            forall|k: int| 0 <= k < i ==> #[trigger] keyed@[k] == (items@[k] as i128, ()),
        decreases items.len() - i,
    {
        keyed.push((items[i] as i128, ()));
        i += 1;
    }
    let sorted = stable_sort(keyed);
    proof {
        stable_sort_permutes(sorted@, keyed@);
        assert forall|k: int| 0 <= k < sorted.len() implies i64::MIN <= (#[trigger] sorted@[k]).0 <= i64::MAX by {
            vstd::seq_lib::to_multiset_contains(sorted@, sorted@[k]);
            vstd::seq_lib::to_multiset_contains(keyed@, sorted@[k]);
            assert(sorted@.contains(sorted@[k]));
            assert(keyed@.contains(sorted@[k]));
        }
    }
    let mut r: Vec<i64> = Vec::new();
    let mut j: usize = 0;
    while j < sorted.len()
        invariant
            j <= sorted.len(),
            r.len() == j,
            forall|k: int| 0 <= k < sorted.len() ==> i64::MIN <= (#[trigger] sorted@[k]).0 <= i64::MAX,
            forall|k: int| 0 <= k < j ==> sorted@[k] == (#[trigger] r@[k] as i128, ()),
        decreases sorted.len() - j,
    {
        assert(i64::MIN <= sorted@[j as int].0 <= i64::MAX);
        r.push(sorted[j].0 as i64);
        j += 1;
    }
    proof {
        assert forall|x: i64| #[trigger] r@.to_multiset().count(x) == items@.to_multiset().count(x) by {
            assert forall|k: int| 0 <= k < r.len() implies #[trigger] sorted@[k] == (r@[k] as i128, ()) by {
                assert(r@[k] == r@[k]);
            }
            lemma_count_keyed(r@, sorted@, x);
            lemma_count_keyed(items@, keyed@, x);
        }
        assert(r@.to_multiset() =~= items@.to_multiset());
        assert forall|a: int, b: int| 0 <= a < b < r.len() implies #[trigger] r@[a] <= #[trigger] r@[b] by {
            assert(sorted@[a].0 <= sorted@[b].0);
        }
        ascending_order_is_unique(r@, items@);
    }
    r
}

/// The texts of a list of strings.
pub open spec fn texts(v: Seq<String>) -> Seq<Seq<char>> {
    v.map_values(|s: String| s@)
}

/// Every text sorts strictly before the next ones: a set, written in order.
pub open spec fn strictly_sorted(s: Seq<Seq<char>>) -> bool {
    forall|i: int, j: int|
        0 <= i < j < s.len() ==> text_before(#[trigger] s[i], #[trigger] s[j])
}

/// `v` lists exactly the texts of `set`, each once, in order.
pub open spec fn lists_set(v: Seq<String>, set: Set<Seq<char>>) -> bool {
    &&& strictly_sorted(texts(v))
    &&& texts(v).to_set() == set
}

/// The sorted listing of a finite set of texts.
pub open spec fn listing(set: Set<Seq<char>>) -> Seq<Seq<char>> {
    choose|s: Seq<Seq<char>>| strictly_sorted(s) && s.to_set() == set
}

/// A list that holds a set in order is the listing of the set.
pub proof fn sorted_list_is_listing(v: Seq<String>, set: Set<Seq<char>>)
    requires
        lists_set(v, set),
    ensures
        texts(v) == listing(set),
{
    sorted_listing_is_unique(texts(v), listing(set));
}

/// A set of texts has one sorted listing.
pub proof fn sorted_listing_is_unique(s: Seq<Seq<char>>, t: Seq<Seq<char>>)
    requires
        strictly_sorted(s),
        strictly_sorted(t),
        s.to_set() == t.to_set(),
    ensures
        s == t,
    decreases s.len(),
{
    assert forall|x: Seq<char>| s.contains(x) <==> #[trigger] t.contains(x) by {
        assert(s.to_set().contains(x) <==> s.contains(x));
        assert(t.to_set().contains(x) <==> t.contains(x));
    }
    if s.len() == 0 {
        if t.len() > 0 {
            assert(t.contains(t[0]));
        }
        assert(s =~= t);
    } else {
        assert(s.contains(s.last()));
        assert(t.contains(s.last()));
        let j = choose|j: int| 0 <= j < t.len() && t[j] == s.last();
        assert(t.contains(t.last()));
        assert(s.contains(t.last()));
        let k = choose|k: int| 0 <= k < s.len() && s[k] == t.last();
        if j < t.len() - 1 {
            assert(text_before(t[j], t[t.len() - 1]));
            text_order_is_total(s.last(), t.last());
            if k < s.len() - 1 {
                assert(text_before(s[k], s[s.len() - 1]));
            }
        }
        assert(s.last() == t.last());
        let s1 = s.drop_last();
        let t1 = t.drop_last();
        assert forall|x: Seq<char>| s1.to_set().contains(x) <==> #[trigger] t1.to_set().contains(x) by {
            lemma_drop_last_contains(s, x);
            lemma_drop_last_contains(t, x);
            assert(s.contains(x) <==> t.contains(x));
        }
        assert(s1.to_set() =~= t1.to_set());
        sorted_listing_is_unique(s1, t1);
        assert(s =~= s1.push(s.last()));
        assert(t =~= t1.push(t.last()));
    }
}

/// The place of `x` in a sorted list that does not hold it.
spec fn parts_at(l: Seq<Seq<char>>, x: Seq<char>, q: int) -> bool {
    &&& 0 <= q <= l.len()
    &&& forall|i: int| 0 <= i < q ==> text_before(#[trigger] l[i], x)
    &&& forall|i: int| q <= i < l.len() ==> text_before(x, #[trigger] l[i])
}

proof fn lemma_parts(l: Seq<Seq<char>>, x: Seq<char>, p: int)
    requires
        strictly_sorted(l),
        !l.contains(x),
        0 <= p <= l.len(),
        forall|i: int| p <= i < l.len() ==> text_before(x, #[trigger] l[i]),
    ensures
        exists|q: int| parts_at(l, x, q),
    decreases p,
{
    if p > 0 && text_before(x, l[p - 1]) {
        lemma_parts(l, x, p - 1);
    } else {
        assert forall|i: int| 0 <= i < p implies text_before(#[trigger] l[i], x) by {
            assert(l.contains(l[p - 1]));
            text_order_is_total(l[p - 1], x);
            if i < p - 1 {
                text_order_is_transitive(l[i], l[p - 1], x);
            }
        }
        assert(parts_at(l, x, p));
    }
}

/// Whatever texts there are, their set has a sorted listing.
pub proof fn listing_exists(s: Seq<Seq<char>>)
    ensures
        strictly_sorted(listing(s.to_set())),
        listing(s.to_set()).to_set() == s.to_set(),
{
    lemma_listing_exists(s);
}

proof fn lemma_listing_exists(s: Seq<Seq<char>>)
    ensures
        exists|l: Seq<Seq<char>>| strictly_sorted(l) && #[trigger] l.to_set() == s.to_set(),
    decreases s.len(),
{
    if s.len() == 0 {
        assert(strictly_sorted(s) && s.to_set() == s.to_set());
    } else {
        let t = s.drop_last();
        let x = s.last();
        lemma_listing_exists(t);
        let l = choose|l: Seq<Seq<char>>| strictly_sorted(l) && #[trigger] l.to_set() == t.to_set();
        assert(s.take(s.len() - 1) =~= t);
        assert(s.take(s.len() as int) =~= s);
        prefix_set_step(s, s.len() - 1);
        if l.contains(x) {
            assert(l.to_set().contains(x));
            assert(l.to_set() =~= s.to_set());
            assert(strictly_sorted(l) && l.to_set() == s.to_set());
        } else {
            lemma_parts(l, x, l.len() as int);
            let q = choose|q: int| parts_at(l, x, q);
            let n = l.insert(q, x);
            assert forall|i: int, j: int| 0 <= i < j < n.len() implies text_before(
                #[trigger] n[i],
                #[trigger] n[j],
            ) by {
                let i0 = if i < q { i } else { i - 1 };
                let j0 = if j < q { j } else { j - 1 };
                if i != q {
                    assert(n[i] == l[i0]);
                }
                if j != q {
                    assert(n[j] == l[j0]);
                }
            }
            insert_set(l, q, x);
            assert(strictly_sorted(n) && n.to_set() == s.to_set());
        }
    }
}

proof fn lemma_drop_last_contains(s: Seq<Seq<char>>, x: Seq<char>)
    requires
        strictly_sorted(s),
        s.len() > 0,
    ensures
        s.drop_last().contains(x) <==> (s.contains(x) && x != s.last()),
{
    if s.drop_last().contains(x) {
        let i = choose|i: int| 0 <= i < s.drop_last().len() && s.drop_last()[i] == x;
        assert(s[i] == x);
        assert(text_before(s[i], s[s.len() - 1]));
        text_order_is_total(x, s.last());
    }
    if s.contains(x) && x != s.last() {
        let i = choose|i: int| 0 <= i < s.len() && s[i] == x;
        assert(s.drop_last()[i] == x);
    }
}

/// The first place in a sorted list whose text does not sort before `name`.
pub fn place_of(list: &Vec<String>, name: &str) -> (r: usize)
    requires
        strictly_sorted(texts(list@)),
    ensures
        r <= list.len(),
        forall|i: int| 0 <= i < r ==> text_before(#[trigger] list@[i]@, name@),
        forall|i: int| r <= i < list.len() ==> !text_before(#[trigger] list@[i]@, name@),
        texts(list@).contains(name@) <==> (r < list.len() && list@[r as int]@ == name@),
{
    let mut i: usize = 0;
    while i < list.len() && text_less(list[i].as_str(), name)
        invariant
            i <= list.len(),
            forall|k: int| 0 <= k < i ==> text_before(#[trigger] list@[k]@, name@),
        decreases list.len() - i,
    {
        i += 1;
    }
    proof {
        let t = texts(list@);
        assert forall|k: int| i <= k < list.len() implies !text_before(#[trigger] list@[k]@, name@) by {
            if i < k {
                assert(text_before(t[i as int], t[k]));
                if text_before(list@[k]@, name@) {
                    text_order_is_transitive(t[i as int], t[k], name@);
                }
            }
        }
        if t.contains(name@) {
            let k = choose|k: int| 0 <= k < t.len() && t[k] == name@;
            assert(list@[k]@ == name@);
            text_order_is_total(name@, name@);
            if i < k {
                assert(text_before(t[i as int], t[k]));
            }
        }
        if i < list.len() && list@[i as int]@ == name@ {
            assert(t[i as int] == name@);
        }
    }
    i
}

/// Adds a text to a set that is kept as a sorted list.
pub fn insert_text(list: &mut Vec<String>, name: &str)
    requires
        strictly_sorted(texts(old(list)@)),
    ensures
        strictly_sorted(texts(final(list)@)),
        texts(final(list)@).to_set() == texts(old(list)@).to_set().insert(name@),
{
    let at: usize = place_of(list, name);
    let ghost before = texts(list@);
    if at < list.len() && same_text(list[at].as_str(), name) {
        proof {
            assert(before.contains(name@));
            assert(before.to_set() =~= before.to_set().insert(name@));
        }
        return;
    }
    list.insert(at, name.to_owned());
    proof {
        let after = texts(list@);
        assert(after =~= before.insert(at as int, name@));
        assert forall|i: int, j: int| 0 <= i < j < after.len() implies text_before(
            #[trigger] after[i],
            #[trigger] after[j],
        ) by {
            let o = old(list)@;
            if i == at {
                assert(after[j] == before[j - 1]);
                assert(!text_before(o[j - 1]@, name@));
                if j - 1 == at && o[j - 1]@ == name@ {
                    assert(false);
                }
                text_order_is_total(name@, o[j - 1]@);
                if o[j - 1]@ == name@ {
                    assert(before.contains(name@)) by {
                        assert(before[j - 1] == name@);
                    }
                }
            } else if j == at {
                assert(after[i] == before[i]);
                assert(text_before(o[i]@, name@));
            } else {
                let i0 = if i < at { i } else { i - 1 };
                let j0 = if j < at { j } else { j - 1 };
                assert(after[i] == before[i0]);
                assert(after[j] == before[j0]);
            }
        }
        insert_set(before, at as int, name@);
    }
}

/// Adds texts to a set that is kept as a sorted list.
pub fn insert_texts(list: &mut Vec<String>, names: &Vec<String>)
    requires
        strictly_sorted(texts(old(list)@)),
    ensures
        lists_set(final(list)@, texts(old(list)@).to_set().union(texts(names@).to_set())),
{
    let ghost base = texts(list@).to_set();
    let ghost all = texts(names@);
    let mut i: usize = 0;
    assert(base =~= base.union(all.take(0).to_set()));
    while i < names.len()
        invariant
            i <= names.len(),
            all == texts(names@),
            lists_set(list@, base.union(all.take(i as int).to_set())),
        decreases names.len() - i,
    {
        insert_text(list, names[i].as_str());
        proof {
            prefix_set_step(all, i as int);
            assert(base.union(all.take(i as int).to_set()).insert(all[i as int]) =~= base.union(
                all.take(i + 1).to_set(),
            ));
        }
        i += 1;
    }
    assert(all.take(i as int) =~= all);
}

/// The set of some texts as a sorted list.
pub fn text_set(names: &Vec<String>) -> (r: Vec<String>)
    ensures
        lists_set(r@, texts(names@).to_set()),
{
    let mut r: Vec<String> = Vec::new();
    insert_texts(&mut r, names);
    assert(texts(Seq::<String>::empty()).to_set().union(texts(names@).to_set()) =~= texts(
        names@,
    ).to_set());
    r
}

} // verus!
