//! Live measurement window of a topic: what arrived, how large, and how far apart.

use vstd::prelude::*;
use vstd::slice::slice_to_vec;

use crate::entries::opt_text;
use crate::sort::{ascending, ascending_order_exists, in_order, sort_ints};

verus! {

/// Longest measurement window, in milliseconds.
pub const MAX_WINDOW_MS: u64 = 60_000;

/// Window of a rate measurement where the caller names none.
pub const DEFAULT_STATS_MS: u64 = 2000;

/// Window of a diagnosis where the caller names none.
pub const DEFAULT_DIAGNOSE_MS: u64 = 1500;

/// The window asked for, or the default, and never more than the longest.
pub open spec fn window_length(asked: Option<u64>, default_ms: u64) -> u64 {
    let ms = match asked {
        Some(d) => d,
        None => default_ms,
    };
    if ms > MAX_WINDOW_MS {
        MAX_WINDOW_MS
    } else {
        ms
    }
}

fn capped(asked: Option<u64>, default_ms: u64) -> (r: u64)
    ensures
        r == window_length(asked, default_ms),
        r <= MAX_WINDOW_MS,
{
    let ms: u64 = match asked {
        Some(d) => d,
        None => default_ms,
    };
    if ms > MAX_WINDOW_MS {
        MAX_WINDOW_MS
    } else {
        ms
    }
}

/// Window of a rate measurement.
pub fn stats_window(asked: Option<u64>) -> (r: u64)
    ensures
        r == window_length(asked, DEFAULT_STATS_MS),
        r <= MAX_WINDOW_MS,
{
    capped(asked, DEFAULT_STATS_MS)
}

/// Window of a diagnosis.
pub fn diagnose_window(asked: Option<u64>) -> (r: u64)
    ensures
        r == window_length(asked, DEFAULT_DIAGNOSE_MS),
        r <= MAX_WINDOW_MS,
{
    capped(asked, DEFAULT_DIAGNOSE_MS)
}

/// What a window has received so far.
#[derive(Debug)]
pub struct WindowAcc {
    /// Send times in microseconds, in the order of arrival.
    pub timestamps: Vec<i64>,
    /// Payload sizes in bytes, in the order of arrival.
    pub sizes: Vec<usize>,
    /// Type name of the first sample.
    pub name: Option<String>,
    /// Encoding of the first sample.
    pub encoding: Option<String>,
}

/// A sample as a window sees it arrive.
pub struct Arrival {
    pub timestamp: i64,
    pub size: usize,
    pub name: Seq<char>,
    pub encoding: Seq<char>,
}

impl WindowAcc {
    /// What the window holds after `arrivals`: their send times and sizes, and the type of the
    /// first.
    pub open spec fn after(self, arrivals: Seq<Arrival>) -> bool {
        &&& self.timestamps@ == arrivals.map_values(|a: Arrival| a.timestamp)
        &&& self.sizes@ == arrivals.map_values(|a: Arrival| a.size)
        &&& arrivals.len() == 0 ==> self.name is None && self.encoding is None
        &&& arrivals.len() > 0 ==> opt_text(self.name) == Some(arrivals[0].name) && opt_text(self.encoding)
            == Some(arrivals[0].encoding)
    }

    /// One size per timestamp.
    pub open spec fn paired(self) -> bool {
        self.timestamps@.len() == self.sizes@.len()
    }

    /// Nothing received.
    pub fn new() -> (r: WindowAcc)
        ensures
            r.timestamps@ == Seq::<i64>::empty(),
            r.sizes@ == Seq::<usize>::empty(),
            r.name is None,
            r.encoding is None,
            r.paired(),
            r.after(Seq::empty()),
    {
        let r = WindowAcc { timestamps: Vec::new(), sizes: Vec::new(), name: None, encoding: None };
        assert(r.timestamps@ =~= Seq::<Arrival>::empty().map_values(|a: Arrival| a.timestamp));
        assert(r.sizes@ =~= Seq::<Arrival>::empty().map_values(|a: Arrival| a.size));
        r
    }

    /// Takes in one sample. Type and encoding are those of the first.
    pub fn record(&mut self, timestamp: i64, size: usize, name: String, encoding: String)
        ensures
            final(self).timestamps@ == old(self).timestamps@.push(timestamp),
            final(self).sizes@ == old(self).sizes@.push(size),
            old(self).name is None ==> {
                &&& opt_text(final(self).name) == Some(name@)
                &&& opt_text(final(self).encoding) == Some(encoding@)
            },
            old(self).name is Some ==> {
                &&& final(self).name == old(self).name
                &&& final(self).encoding == old(self).encoding
            },
            old(self).paired() ==> final(self).paired(),
            forall|arrivals: Seq<Arrival>| #[trigger]
                old(self).after(arrivals) ==> final(self).after(
                    arrivals.push(Arrival { timestamp, size, name: name@, encoding: encoding@ }),
                ),
    {
        let ghost arrival = Arrival { timestamp, size, name: name@, encoding: encoding@ };
        let ghost before = *self;
        self.timestamps.push(timestamp);
        self.sizes.push(size);
        if self.name.is_none() {
            self.name = Some(name);
            self.encoding = Some(encoding);
        }
        proof {
            assert forall|arrivals: Seq<Arrival>| #[trigger] before.after(arrivals) implies self.after(
                arrivals.push(arrival),
            ) by {
                let more = arrivals.push(arrival);
                assert(self.timestamps@ =~= more.map_values(|a: Arrival| a.timestamp));
                assert(self.sizes@ =~= more.map_values(|a: Arrival| a.size));
            }
        }
    }
}

/// The sum of the sizes.
pub open spec fn total_size(s: Seq<usize>) -> int
    decreases s.len(),
{
    if s.len() == 0 {
        0
    } else {
        total_size(s.drop_last()) + s.last()
    }
}

/// The gaps between consecutive send times, once those are in order.
pub open spec fn gaps(timestamps: Seq<i64>) -> Seq<i64> {
    let t = in_order(timestamps);
    if t.len() == 0 {
        Seq::empty()
    } else {
        Seq::new((t.len() - 1) as nat, |i: int| (t[i + 1] - t[i]) as i64)
    }
}

/// The send times lie no further apart than an `i64` can tell, and the sizes sum to a `u64`.
pub open spec fn measurable(timestamps: Seq<i64>, sizes: Seq<usize>) -> bool {
    &&& total_size(sizes) <= u64::MAX
    &&& forall|i: int, j: int|
        0 <= i < timestamps.len() && 0 <= j < timestamps.len() ==> #[trigger] timestamps[i]
            - #[trigger] timestamps[j] <= i64::MAX
}

/// `m` is the least item of `s`; none where there is no item.
pub open spec fn is_least_size(m: Option<usize>, s: Seq<usize>) -> bool {
    match m {
        None => s.len() == 0,
        Some(x) => s.contains(x) && forall|i: int| 0 <= i < s.len() ==> x <= #[trigger] s[i],
    }
}

/// `m` is the greatest item of `s`; none where there is no item.
pub open spec fn is_greatest_size(m: Option<usize>, s: Seq<usize>) -> bool {
    match m {
        None => s.len() == 0,
        Some(x) => s.contains(x) && forall|i: int| 0 <= i < s.len() ==> #[trigger] s[i] <= x,
    }
}

/// The first item, where there is one.
pub open spec fn first_of(s: Seq<i64>) -> Option<i64> {
    if s.len() > 0 {
        Some(s[0])
    } else {
        None
    }
}

/// The last item, where there is one.
pub open spec fn last_of(s: Seq<i64>) -> Option<i64> {
    if s.len() > 0 {
        Some(s.last())
    } else {
        None
    }
}

/// What a window adds up to. Means, deviations and rates are left to the caller, who has the
/// sum, the count and the gaps in order.
#[derive(Debug)]
pub struct WindowStats {
    pub samples_observed: u64,
    pub total_bytes: u64,
    pub min_size_bytes: Option<usize>,
    pub max_size_bytes: Option<usize>,
    /// Gaps between consecutive send times in microseconds, ascending.
    pub gaps_us: Vec<i64>,
    pub min_gap_us: Option<i64>,
    pub max_gap_us: Option<i64>,
    pub first_timestamp_us: Option<i64>,
    pub last_timestamp_us: Option<i64>,
    pub name: Option<String>,
    pub encoding: Option<String>,
}

/// `r` adds up what `acc` received.
pub open spec fn are_stats_of(r: WindowStats, acc: WindowAcc) -> bool {
    &&& r.samples_observed == acc.timestamps@.len()
    &&& r.total_bytes == total_size(acc.sizes@)
    &&& is_least_size(r.min_size_bytes, acc.sizes@)
    &&& is_greatest_size(r.max_size_bytes, acc.sizes@)
    &&& r.gaps_us@ == in_order(gaps(acc.timestamps@))
    &&& r.min_gap_us == first_of(in_order(gaps(acc.timestamps@)))
    &&& r.max_gap_us == last_of(in_order(gaps(acc.timestamps@)))
    &&& r.first_timestamp_us == first_of(in_order(acc.timestamps@))
    &&& r.last_timestamp_us == last_of(in_order(acc.timestamps@))
    &&& r.name == acc.name
    &&& r.encoding == acc.encoding
}

fn least_size(s: &Vec<usize>) -> (r: Option<usize>)
    ensures
        is_least_size(r, s@),
{
    if s.len() == 0 {
        return None;
    }
    let mut m: usize = s[0];
    let mut i: usize = 1;
    while i < s.len()
        invariant
            1 <= i <= s.len(),
            s@.contains(m),
            forall|k: int| 0 <= k < i ==> m <= #[trigger] s@[k],
        decreases s.len() - i,
    {
        if s[i] < m {
            m = s[i];
        }
        i += 1;
    }
    Some(m)
}

fn greatest_size(s: &Vec<usize>) -> (r: Option<usize>)
    ensures
        is_greatest_size(r, s@),
{
    if s.len() == 0 {
        return None;
    }
    let mut m: usize = s[0];
    let mut i: usize = 1;
    while i < s.len()
        invariant
            1 <= i <= s.len(),
            s@.contains(m),
            forall|k: int| 0 <= k < i ==> #[trigger] s@[k] <= m,
        decreases s.len() - i,
    {
        if s[i] > m {
            m = s[i];
        }
        i += 1;
    }
    Some(m)
}

proof fn lemma_total_grows(s: Seq<usize>, i: int)
    requires
        0 <= i <= s.len(),
    ensures
        0 <= total_size(s.take(i)) <= total_size(s),
    decreases s.len(),
{
    if i < s.len() {
        lemma_total_grows(s.drop_last(), i);
        assert(s.drop_last().take(i) =~= s.take(i));
    } else {
        assert(s.take(i) =~= s);
        if s.len() > 0 {
            lemma_total_grows(s.drop_last(), s.len() - 1);
        }
    }
}

/// Whether the window can be added up without overflow.
pub fn is_measurable(acc: &WindowAcc) -> (r: bool)
    ensures
        r == measurable(acc.timestamps@, acc.sizes@),
{
    let sizes = &acc.sizes;
    let mut total: u64 = 0;
    let mut i: usize = 0;
    assert(sizes@.take(0) =~= Seq::<usize>::empty());
    while i < sizes.len()
        invariant
            i <= sizes.len(),
            *sizes == acc.sizes,
            total == total_size(sizes@.take(i as int)),
        decreases sizes.len() - i,
    {
        proof {
            assert(sizes@.take(i + 1).drop_last() =~= sizes@.take(i as int));
            assert(sizes@.take(i + 1).last() == sizes@[i as int]);
            lemma_total_grows(sizes@, i + 1);
        }
        if (sizes[i] as u64) > u64::MAX - total {
            return false;
        }
        total = total + sizes[i] as u64;
        i += 1;
    }
    assert(sizes@.take(i as int) =~= sizes@);
    let times = &acc.timestamps;
    if times.len() == 0 {
        return true;
    }
    let mut low: i64 = times[0];
    let mut high: i64 = times[0];
    let mut j: usize = 1;
    while j < times.len()
        invariant
            1 <= j <= times.len(),
            times@.contains(low),
            times@.contains(high),
            forall|k: int| 0 <= k < j ==> low <= #[trigger] times@[k] <= high,
        decreases times.len() - j,
    {
        if times[j] < low {
            low = times[j];
        }
        if times[j] > high {
            high = times[j];
        }
        j += 1;
    }
    high as i128 - low as i128 <= i64::MAX as i128
}

proof fn lemma_in_order_bounds(s: Seq<i64>)
    ensures
        ascending(in_order(s)),
        in_order(s).len() == s.len(),
        forall|i: int| 0 <= i < s.len() ==> s.contains(#[trigger] in_order(s)[i]),
{
    ascending_order_exists(s);
    let t = in_order(s);
    broadcast use vstd::seq_lib::group_to_multiset_ensures;
    assert forall|i: int| 0 <= i < s.len() implies s.contains(#[trigger] t[i]) by {
        vstd::seq_lib::to_multiset_contains(t, t[i]);
        assert(t.contains(t[i]));
        vstd::seq_lib::to_multiset_contains(s, t[i]);
    }
}

/// Adds up what a window received.
pub fn window_stats(acc: WindowAcc) -> (r: WindowStats)
    requires
        measurable(acc.timestamps@, acc.sizes@),
    ensures
        are_stats_of(r, acc),
{
    let mut total: u64 = 0;
    let mut i: usize = 0;
    let sizes = &acc.sizes;
    assert(sizes@.take(0) =~= Seq::<usize>::empty());
    while i < sizes.len()
        invariant
            i <= sizes.len(),
            *sizes == acc.sizes,
            total_size(sizes@) <= u64::MAX,
            total == total_size(sizes@.take(i as int)),
        decreases sizes.len() - i,
    {
        proof {
            assert(sizes@.take(i + 1).drop_last() =~= sizes@.take(i as int));
            assert(sizes@.take(i + 1).last() == sizes@[i as int]);
            lemma_total_grows(sizes@, i + 1);
        }
        total = total + sizes[i] as u64;
        i += 1;
    }
    assert(sizes@.take(i as int) =~= sizes@);
    let times = sort_ints(slice_to_vec(acc.timestamps.as_slice()));
    proof {
        lemma_in_order_bounds(acc.timestamps@);
    }
    let ghost spread = gaps(acc.timestamps@);
    let mut steps: Vec<i64> = Vec::new();
    let mut j: usize = 1;
    while j < times.len()
        invariant
            1 <= j,
            times.len() > 0 ==> j <= times.len(),
            times.len() == 0 ==> j == 1,
            times@ == in_order(acc.timestamps@),
            times.len() == acc.timestamps@.len(),
            ascending(times@),
            forall|k: int| 0 <= k < times.len() ==> acc.timestamps@.contains(#[trigger] times@[k]),
            measurable(acc.timestamps@, acc.sizes@),
            spread == gaps(acc.timestamps@),
            steps.len() == j - 1,
            forall|k: int| 0 <= k < j - 1 ==> #[trigger] steps@[k] == spread[k],
        decreases times.len() - j,
    {
        proof {
            let a = times@[j as int];
            let b = times@[j - 1];
            assert(acc.timestamps@.contains(a) && acc.timestamps@.contains(b));
            let p = choose|p: int| 0 <= p < acc.timestamps@.len() && acc.timestamps@[p] == a;
            let q = choose|q: int| 0 <= q < acc.timestamps@.len() && acc.timestamps@[q] == b;
            assert(acc.timestamps@[p] - acc.timestamps@[q] <= i64::MAX);
            assert(b <= a);
        }
        steps.push(times[j] - times[j - 1]);
        j += 1;
    }
    assert(steps@ =~= spread);
    let gaps_us = sort_ints(steps);
    let (min_gap_us, max_gap_us): (Option<i64>, Option<i64>) = if gaps_us.len() > 0 {
        (Some(gaps_us[0]), Some(gaps_us[gaps_us.len() - 1]))
    } else {
        (None, None)
    };
    let (first_timestamp_us, last_timestamp_us): (Option<i64>, Option<i64>) = if times.len() > 0 {
        (Some(times[0]), Some(times[times.len() - 1]))
    } else {
        (None, None)
    };
    WindowStats {
        samples_observed: acc.timestamps.len() as u64,
        total_bytes: total,
        min_size_bytes: least_size(&acc.sizes),
        max_size_bytes: greatest_size(&acc.sizes),
        gaps_us,
        min_gap_us,
        max_gap_us,
        first_timestamp_us,
        last_timestamp_us,
        name: acc.name,
        encoding: acc.encoding,
    }
}

/// The sum of the gaps.
pub open spec fn total_gap(s: Seq<i64>) -> int
    decreases s.len(),
{
    if s.len() == 0 {
        0
    } else {
        total_gap(s.drop_last()) + s.last()
    }
}

proof fn lemma_gap_values(timestamps: Seq<i64>, i: int)
    requires
        measurable(timestamps, Seq::empty()),
        0 <= i < gaps(timestamps).len(),
    ensures
        gaps(timestamps)[i] == in_order(timestamps)[i + 1] - in_order(timestamps)[i],
        0 <= gaps(timestamps)[i],
{
    lemma_in_order_bounds(timestamps);
    let t = in_order(timestamps);
    let a = t[i + 1];
    let b = t[i];
    assert(b <= a);
    let p = choose|p: int| 0 <= p < timestamps.len() && timestamps[p] == a;
    let q = choose|q: int| 0 <= q < timestamps.len() && timestamps[q] == b;
    assert(timestamps[p] - timestamps[q] <= i64::MAX);
}

proof fn lemma_gap_prefix(timestamps: Seq<i64>, n: int)
    requires
        measurable(timestamps, Seq::empty()),
        0 <= n <= gaps(timestamps).len(),
        timestamps.len() > 0,
    ensures
        total_gap(gaps(timestamps).take(n)) == in_order(timestamps)[n] - in_order(timestamps)[0],
    decreases n,
{
    let g = gaps(timestamps);
    if n > 0 {
        lemma_gap_prefix(timestamps, n - 1);
        lemma_gap_values(timestamps, n - 1);
        assert(g.take(n).drop_last() =~= g.take(n - 1));
        assert(g.take(n).last() == g[n - 1]);
    }
}

proof fn lemma_gap_total_bounds(s: Seq<i64>, low: int, high: int)
    requires
        forall|i: int| 0 <= i < s.len() ==> low <= #[trigger] s[i] <= high,
    ensures
        s.len() * low <= total_gap(s) <= s.len() * high,
    decreases s.len(),
{
    if s.len() > 0 {
        let t = s.drop_last();
        assert forall|i: int| 0 <= i < t.len() implies low <= #[trigger] t[i] <= high by {
            assert(t[i] == s[i]);
        }
        lemma_gap_total_bounds(t, low, high);
        assert(s.last() == s[s.len() - 1]);
        assert(s.len() * low == t.len() * low + low) by (nonlinear_arith)
            requires
                s.len() == t.len() + 1,
        ;
        assert(s.len() * high == t.len() * high + high) by (nonlinear_arith)
            requires
                s.len() == t.len() + 1,
        ;
    }
}

/// In whatever order samples arrive, no gap is negative, and the gaps add up to the time between
/// the first and the last.
pub proof fn gaps_span_the_window(timestamps: Seq<i64>)
    requires
        measurable(timestamps, Seq::empty()),
        timestamps.len() > 0,
    ensures
        gaps(timestamps).len() == timestamps.len() - 1,
        forall|i: int| 0 <= i < gaps(timestamps).len() ==> 0 <= #[trigger] gaps(timestamps)[i],
        total_gap(gaps(timestamps)) == last_of(in_order(timestamps))->Some_0 - first_of(
            in_order(timestamps),
        )->Some_0,
{
    lemma_in_order_bounds(timestamps);
    let g = gaps(timestamps);
    assert forall|i: int| 0 <= i < g.len() implies 0 <= #[trigger] g[i] by {
        lemma_gap_values(timestamps, i);
    }
    lemma_gap_prefix(timestamps, g.len() as int);
    assert(g.take(g.len() as int) =~= g);
}

/// The mean gap lies between the least and the greatest: both are stated times the number of
/// gaps.
pub proof fn mean_gap_is_between_extremes(r: WindowStats, acc: WindowAcc)
    requires
        measurable(acc.timestamps@, acc.sizes@),
        are_stats_of(r, acc),
        acc.timestamps@.len() >= 2,
    ensures
        r.min_gap_us is Some,
        r.max_gap_us is Some,
        r.gaps_us@.len() == acc.timestamps@.len() - 1,
        r.gaps_us@.len() * r.min_gap_us->Some_0 <= total_gap(gaps(acc.timestamps@)),
        total_gap(gaps(acc.timestamps@)) <= r.gaps_us@.len() * r.max_gap_us->Some_0,
{
    let ts = acc.timestamps@;
    assert(total_size(Seq::<usize>::empty()) == 0);
    assert(measurable(ts, Seq::empty()));
    gaps_span_the_window(ts);
    let g = gaps(ts);
    lemma_in_order_bounds(g);
    ascending_order_exists(g);
    let o = in_order(g);
    let low = o[0] as int;
    let high = o.last() as int;
    assert forall|i: int| 0 <= i < g.len() implies low <= #[trigger] g[i] <= high by {
        vstd::seq_lib::to_multiset_contains(g, g[i]);
        assert(g.contains(g[i]));
        vstd::seq_lib::to_multiset_contains(o, g[i]);
        let k = choose|k: int| 0 <= k < o.len() && o[k] == g[i];
        assert(o[k] == g[i]);
        if k > 0 {
            assert(o[0] <= o[k]);
        }
        if k < o.len() - 1 {
            assert(o[k] <= o[o.len() - 1]);
        }
    }
    lemma_gap_total_bounds(g, low, high);
}

proof fn lemma_total_size_bounds(s: Seq<usize>, low: int, high: int)
    requires
        forall|i: int| 0 <= i < s.len() ==> low <= #[trigger] s[i] <= high,
    ensures
        s.len() * low <= total_size(s) <= s.len() * high,
    decreases s.len(),
{
    if s.len() > 0 {
        let t = s.drop_last();
        assert forall|i: int| 0 <= i < t.len() implies low <= #[trigger] t[i] <= high by {
            assert(t[i] == s[i]);
        }
        lemma_total_size_bounds(t, low, high);
        assert(s.last() == s[s.len() - 1]);
        assert(s.len() * low == t.len() * low + low) by (nonlinear_arith)
            requires
                s.len() == t.len() + 1,
        ;
        assert(s.len() * high == t.len() * high + high) by (nonlinear_arith)
            requires
                s.len() == t.len() + 1,
        ;
    }
}

/// The mean size lies between the least and the greatest: both are stated times the number of
/// samples.
pub proof fn mean_size_is_between_extremes(r: WindowStats, acc: WindowAcc)
    requires
        are_stats_of(r, acc),
        acc.paired(),
        acc.timestamps@.len() > 0,
    ensures
        r.min_size_bytes is Some,
        r.max_size_bytes is Some,
        r.samples_observed * r.min_size_bytes->Some_0 <= r.total_bytes,
        r.total_bytes <= r.samples_observed * r.max_size_bytes->Some_0,
{
    lemma_total_size_bounds(
        acc.sizes@,
        r.min_size_bytes->Some_0 as int,
        r.max_size_bytes->Some_0 as int,
    );
}

/// A measurement without samples has no sizes, gaps or times; one sample has no gap.
pub proof fn short_windows_leave_fields_out(r: WindowStats, acc: WindowAcc)
    requires
        are_stats_of(r, acc),
        acc.paired(),
    ensures
        r.min_size_bytes is None <==> r.samples_observed == 0,
        r.max_size_bytes is None <==> r.samples_observed == 0,
        r.first_timestamp_us is None <==> r.samples_observed == 0,
        r.last_timestamp_us is None <==> r.samples_observed == 0,
        r.min_gap_us is None <==> r.samples_observed < 2,
        r.max_gap_us is None <==> r.samples_observed < 2,
{
    lemma_in_order_bounds(acc.timestamps@);
    lemma_in_order_bounds(gaps(acc.timestamps@));
}

} // verus!
