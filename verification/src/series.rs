use vstd::prelude::*;

verus! {

/// A time series: observed values paired with timestamps (millisecond epoch).
///
/// The two vectors are public and may differ in length; every operation
/// states what it reads from each of them.
#[derive(Clone, Debug)]
pub struct TimeSeries<V> {
    pub values: Vec<V>,
    pub timestamps: Vec<u64>,
}

/// Where a series of `len` observations is split when `proposed`
/// observations are asked for in the training part: at least one, and at most
/// all but one (none at all when the series has fewer than two).
pub open spec fn split_point(len: nat, proposed: nat) -> nat {
    let lo: nat = if proposed < 1 { 1 } else { proposed };
    let hi: nat = if len >= 1 { (len - 1) as nat } else { 0 };
    if lo < hi { lo } else { hi }
}

/// How many trailing observations a moving average over `window` reads from a
/// series of `len`: at least one, and never more than the series holds.
pub open spec fn window_len(window: nat, len: nat) -> nat {
    let w: nat = if window < 1 { 1 } else { window };
    if w < len { w } else { len }
}

/// The trailing `w` observations of `s`, most recent first.
pub open spec fn recent_first<V>(s: Seq<V>, w: nat) -> Seq<V> {
    s.skip(s.len() - w).reverse()
}

/// Append `src[start..end]` to `dst`.
pub(crate) fn extend_from_range<V: Copy>(dst: &mut Vec<V>, src: &Vec<V>, start: usize, end: usize)
    requires
        start <= end <= src@.len(),
    ensures
        final(dst)@ == old(dst)@ + src@.subrange(start as int, end as int),
{
    let ghost prefix = dst@;
    let mut i: usize = start;
    while i < end
        invariant
            start <= i <= end <= src@.len(),
            dst@ == prefix + src@.subrange(start as int, i as int),
        decreases end - i,
    {
        dst.push(src[i]);
        i = i + 1;
        assert(dst@ =~= prefix + src@.subrange(start as int, i as int));
    }
}

/// Copy `v[start..end]` into a new vector.
pub(crate) fn copy_range<V: Copy>(v: &Vec<V>, start: usize, end: usize) -> (r: Vec<V>)
    requires
        start <= end <= v@.len(),
    ensures
        r@ == v@.subrange(start as int, end as int),
{
    let mut r: Vec<V> = Vec::new();
    extend_from_range(&mut r, v, start, end);
    assert(r@ =~= v@.subrange(start as int, end as int));
    r
}

impl<V: Copy> TimeSeries<V> {
    /// Build a series from `(timestamp, value)` tiles, keeping their order.
    pub fn from_tiles(tiles: &[(u64, V)]) -> (ts: Self)
        ensures
            ts.values@.len() == tiles@.len(),
            ts.timestamps@.len() == tiles@.len(),
            forall|i: int| 0 <= i < tiles@.len() ==> ts.values@[i] == (#[trigger] tiles@[i]).1,
            forall|i: int| 0 <= i < tiles@.len() ==> ts.timestamps@[i] == (#[trigger] tiles@[i]).0,
    {
        let mut values: Vec<V> = Vec::new();
        let mut timestamps: Vec<u64> = Vec::new();
        let n = tiles.len();
        let mut i: usize = 0;
        while i < n
            invariant
                n == tiles@.len(),
                i <= n,
                values@.len() == i,
                timestamps@.len() == i,
                forall|j: int| 0 <= j < i ==> values@[j] == (#[trigger] tiles@[j]).1,
                forall|j: int| 0 <= j < i ==> timestamps@[j] == (#[trigger] tiles@[j]).0,
            decreases n - i,
        {
            let (t, v) = tiles[i];
            values.push(v);
            timestamps.push(t);
            i = i + 1;
        }
        TimeSeries { values, timestamps }
    }

    /// Where this series is split when `proposed` observations are asked for
    /// in the training part.
    pub fn split_index(&self, proposed: usize) -> (split: usize)
        ensures
            split == split_point(self.values@.len(), proposed as nat),
            self.values@.len() >= 2 && 1 <= proposed < self.values@.len() ==> split == proposed,
            self.values@.len() >= 2 && proposed == 0 ==> split == 1,
            self.values@.len() >= 2 && proposed >= self.values@.len() ==> split == self.values@.len() - 1,
            self.values@.len() < 2 ==> split == 0,
    {
        let lo: usize = if proposed < 1 { 1 } else { proposed };
        let hi: usize = if self.values.len() >= 1 { self.values.len() - 1 } else { 0 };
        if lo < hi { lo } else { hi }
    }

    /// Split into a training and a test series at the split point for
    /// `proposed` training observations. Both the values and the timestamps
    /// are cut at that point.
    pub fn train_test_split_at(&self, proposed: usize) -> (parts: (Self, Self))
        requires
            split_point(self.values@.len(), proposed as nat) <= self.timestamps@.len(),
        ensures
            ({
                let split = split_point(self.values@.len(), proposed as nat) as int;
                &&& parts.0.values@ == self.values@.take(split)
                &&& parts.1.values@ == self.values@.skip(split)
                &&& parts.0.timestamps@ == self.timestamps@.take(split)
                &&& parts.1.timestamps@ == self.timestamps@.skip(split)
            }),
    {
        let split = self.split_index(proposed);
        let n = self.values.len();
        let m = self.timestamps.len();
        let train = TimeSeries {
            values: copy_range(&self.values, 0, split),
            timestamps: copy_range(&self.timestamps, 0, split),
        };
        let test = TimeSeries {
            values: copy_range(&self.values, split, n),
            timestamps: copy_range(&self.timestamps, split, m),
        };
        (train, test)
    }

    /// The last observed value, if any.
    pub fn last_value(&self) -> (last: Option<V>)
        ensures
            last == (if self.values@.len() == 0 { None } else { Some(self.values@.last()) }),
    {
        let n = self.values.len();
        if n == 0 {
            None
        } else {
            Some(self.values[n - 1])
        }
    }

    /// The trailing observations that a moving average over `window` reads,
    /// most recent first.
    pub fn recent_values(&self, window: usize) -> (r: Vec<V>)
        ensures
            r@ == recent_first(self.values@, window_len(window as nat, self.values@.len())),
            1 <= window <= self.values@.len() ==> r@.len() == window,
            window == 0 && self.values@.len() > 0 ==> r@.len() == 1,
            window >= self.values@.len() ==> r@.len() == self.values@.len(),
            forall|i: int| 0 <= i < r@.len() ==> #[trigger] r@[i] == self.values@[self.values@.len() - 1 - i],
    {
        let n = self.values.len();
        let w0: usize = if window < 1 { 1 } else { window };
        let w: usize = if w0 < n { w0 } else { n };
        let mut r: Vec<V> = Vec::new();
        let mut i: usize = 0;
        while i < w
            invariant
                n == self.values@.len(),
                w <= n,
                i <= w,
                r@.len() == i,
                forall|j: int| 0 <= j < i ==> #[trigger] r@[j] == self.values@[n - 1 - j],
            decreases w - i,
        {
            r.push(self.values[n - 1 - i]);
            i = i + 1;
        }
        assert(r@ =~= recent_first(self.values@, w as nat));
        r
    }
}

/// Pair up two sequences position by position, as far as the shorter one
/// reaches.
pub fn paired<V: Copy>(a: &[V], b: &[V]) -> (r: Vec<(V, V)>)
    ensures
        r@.len() == (if a@.len() < b@.len() { a@.len() } else { b@.len() }),
        forall|i: int| 0 <= i < r@.len() ==> #[trigger] r@[i] == (a@[i], b@[i]),
{
    let n: usize = if a.len() < b.len() { a.len() } else { b.len() };
    let mut r: Vec<(V, V)> = Vec::new();
    let mut i: usize = 0;
    while i < n
        invariant
            n <= a@.len(),
            n <= b@.len(),
            i <= n,
            r@.len() == i,
            forall|j: int| 0 <= j < i ==> #[trigger] r@[j] == (a@[j], b@[j]),
        decreases n - i,
    {
        r.push((a[i], b[i]));
        i = i + 1;
    }
    r
}

/// The split point is exactly the requested training size whenever that
/// leaves at least one observation on each side; a smaller request is raised
/// to one observation, a larger one lowered to all but one, and a series of
/// fewer than two observations is split at its start.
pub proof fn lemma_split_point_honours_request(len: nat, proposed: nat)
    ensures
        len >= 2 && 1 <= proposed < len ==> split_point(len, proposed) == proposed,
        len >= 2 && proposed == 0 ==> split_point(len, proposed) == 1,
        len >= 2 && proposed >= len ==> split_point(len, proposed) == len - 1,
        len < 2 ==> split_point(len, proposed) == 0,
        len >= 2 ==> 1 <= split_point(len, proposed) < len,
{
}

/// A moving average reads exactly as many trailing observations as its
/// window asks for, as long as the series holds that many; a window of zero
/// reads one observation, and a window beyond the series reads all of it.
pub proof fn lemma_window_len_honours_request(window: nat, len: nat)
    ensures
        1 <= window <= len ==> window_len(window, len) == window,
        window == 0 && len > 0 ==> window_len(window, len) == 1,
        window >= len ==> window_len(window, len) == len,
        window_len(window, len) <= len,
        len > 0 ==> window_len(window, len) >= 1,
{
}

/// A moving average over a window of one reads exactly the last observation,
/// the one that the naive forecast propagates.
pub proof fn lemma_unit_window_reads_last<V>(s: Seq<V>)
    requires
        s.len() > 0,
    ensures
        recent_first(s, window_len(1, s.len())) == seq![s.last()],
{
    assert(recent_first(s, window_len(1, s.len())) =~= seq![s.last()]);
}

/// A moving average over a window at least as long as the series reads every
/// observation of it, once each.
pub proof fn lemma_wide_window_reads_all<V>(s: Seq<V>, window: nat)
    requires
        window >= s.len(),
    ensures
        recent_first(s, window_len(window, s.len())) == s.reverse(),
        recent_first(s, window_len(window, s.len())).to_multiset() == s.to_multiset(),
{
    assert(s.skip(0) =~= s);
    assert(recent_first(s, window_len(window, s.len())) =~= s.reverse());
    s.lemma_reverse_to_multiset();
}

/// Splitting keeps every observation, in order, and leaves both parts
/// non-empty once the series has at least two observations.
pub proof fn lemma_split_keeps_everything<V>(s: Seq<V>, proposed: nat)
    ensures
        s.take(split_point(s.len(), proposed) as int) + s.skip(split_point(s.len(), proposed) as int) == s,
        s.len() >= 2 ==> 1 <= split_point(s.len(), proposed) < s.len(),
        split_point(s.len(), proposed) <= s.len(),
{
    let k = split_point(s.len(), proposed) as int;
    assert(s.take(k) + s.skip(k) =~= s);
}

} // verus!
