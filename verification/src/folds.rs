use vstd::prelude::*;

use crate::model::{forecast_plan, ForecastPlan, PredictionModel};
use crate::series::{copy_range, extend_from_range, TimeSeries};

verus! {

/// How many folds cross-validation makes of `len` observations when `folds`
/// are asked for: at least two, but never more than there are observations.
pub open spec fn fold_count(folds: nat, len: nat) -> nat {
    let f: nat = if folds < 2 { 2 } else { folds };
    if f < len { f } else { len }
}

/// How many observations each fold but the last tests.
pub open spec fn fold_size(folds: nat, len: nat) -> nat {
    len / fold_count(folds, len)
}

/// Index of the first observation that fold `k` tests.
pub open spec fn fold_start(folds: nat, len: nat, k: nat) -> nat {
    k * fold_size(folds, len)
}

/// Index one past the last observation that fold `k` tests; the last fold
/// also takes the remainder of the division.
pub open spec fn fold_end(folds: nat, len: nat, k: nat) -> nat {
    if k + 1 == fold_count(folds, len) {
        len
    } else {
        (k + 1) * fold_size(folds, len)
    }
}

/// The elements of `s` whose positions lie outside `[start, end)`, in order.
pub open spec fn outside<T>(s: Seq<T>, start: nat, end: nat) -> Seq<T> {
    let a: int = if start < s.len() { start as int } else { s.len() as int };
    let b: int = if end < s.len() { end as int } else { s.len() as int };
    s.subrange(0, a) + s.subrange(b, s.len() as int)
}

/// The timestamp at which a trend model is evaluated on a fold that starts at
/// `start`; other models read no timestamp.
pub open spec fn anchor_of(model: PredictionModel, timestamps: Seq<u64>, start: nat) -> u64 {
    if model == PredictionModel::LinearRegression { timestamps[start as int] } else { 0 }
}

/// The timestamps suffice for cross-validation: a trend model evaluated on a
/// fold with training data reads the timestamp at which that fold starts.
pub open spec fn timestamps_cover_folds(model: PredictionModel, folds: nat, len: nat, ts_len: nat) -> bool {
    (model == PredictionModel::LinearRegression && len >= 2) ==> fold_start(folds, len, (fold_count(folds, len) - 1) as nat) < ts_len
}

/// One fold of a cross-validation: the range of observations it tests, the
/// training series made of all the others, the tested values, and the
/// forecast made from the training series (none when it is empty).
#[derive(Clone, Debug)]
pub struct Fold<V> {
    pub test_start: usize,
    pub test_end: usize,
    pub train: TimeSeries<V>,
    pub test: Vec<V>,
    pub forecast: Option<ForecastPlan>,
}

impl<V> Fold<V> {
    /// This fold, of a series with these `values` and `timestamps`, tests
    /// `values[start..end]` under `model` and trains on all the others.
    pub open spec fn describes(
        self,
        values: Seq<V>,
        timestamps: Seq<u64>,
        model: PredictionModel,
        start: nat,
        end: nat,
    ) -> bool {
        &&& self.test_start == start
        &&& self.test_end == end
        &&& self.test@ == values.subrange(start as int, end as int)
        &&& self.train.values@ == outside(values, start, end)
        &&& self.train.timestamps@ == outside(timestamps, start, end)
        &&& self.forecast == if self.train.values@.len() == 0 {
            None
        } else {
            Some(crate::model::planned_forecast(model, self.train.values@.len(), anchor_of(model, timestamps, start)))
        }
    }
}

/// The elements of `v` whose positions lie outside `[start, end)`.
fn without_range<T: Copy>(v: &Vec<T>, start: usize, end: usize) -> (r: Vec<T>)
    requires
        start <= end,
    ensures
        r@ == outside(v@, start as nat, end as nat),
{
    let n = v.len();
    let a: usize = if start < n { start } else { n };
    let b: usize = if end < n { end } else { n };
    let mut r = copy_range(v, 0, a);
    extend_from_range(&mut r, v, b, n);
    r
}

/// Cross-validation makes exactly the requested number of folds whenever
/// that is at least two and no more than the observations; fewer than two
/// requested gives two (or one for a single observation), and more than the
/// observations gives one fold per observation.
pub proof fn lemma_fold_count_honours_request(folds: nat, len: nat)
    ensures
        2 <= folds <= len ==> fold_count(folds, len) == folds,
        folds < 2 && len >= 2 ==> fold_count(folds, len) == 2,
        folds < 2 && len < 2 ==> fold_count(folds, len) == len,
        folds >= len && len >= 2 ==> fold_count(folds, len) == len,
        fold_count(folds, len) <= len,
{
}

/// Every fold but the last tests the same number of observations, the
/// largest number that fits `fold_count` times into the series; the last fold
/// tests that many plus whatever is left over.
pub proof fn lemma_fold_sizes(folds: nat, len: nat)
    requires
        len > 0,
    ensures
        fold_size(folds, len) * fold_count(folds, len) <= len,
        len < (fold_size(folds, len) + 1) * fold_count(folds, len),
        forall|k: nat| k + 1 < fold_count(folds, len) ==>
            #[trigger] fold_end(folds, len, k) - fold_start(folds, len, k) == fold_size(folds, len),
        fold_end(folds, len, (fold_count(folds, len) - 1) as nat)
            - fold_start(folds, len, (fold_count(folds, len) - 1) as nat)
            == len - (fold_count(folds, len) - 1) * fold_size(folds, len),
{
    let c = fold_count(folds, len);
    let z = fold_size(folds, len);
    lemma_fold_layout(folds, len);
    assert(z * c <= len && len < (z + 1) * c) by (nonlinear_arith)
        requires
            c >= 1,
            z == len / c,
    ;
    assert forall|k: nat| k + 1 < c implies #[trigger] fold_end(folds, len, k) - fold_start(folds, len, k) == z by {
        assert((k + 1) * z == k * z + z) by (nonlinear_arith);
    }
}

/// A trend model can be cross-validated exactly when every fold starts at a
/// position that has a timestamp (a series of one observation has no fold with
/// training data, so it reads none); the other models read no timestamps.
pub proof fn lemma_timestamps_cover_iff_every_fold_start(model: PredictionModel, folds: nat, len: nat, ts_len: nat)
    requires
        len > 0,
    ensures
        model != PredictionModel::LinearRegression ==> timestamps_cover_folds(model, folds, len, ts_len),
        len < 2 ==> timestamps_cover_folds(model, folds, len, ts_len),
        ts_len >= len ==> timestamps_cover_folds(model, folds, len, ts_len),
        model == PredictionModel::LinearRegression && len >= 2 ==> (timestamps_cover_folds(model, folds, len, ts_len)
            <==> forall|k: nat| k < fold_count(folds, len) ==> #[trigger] fold_start(folds, len, k) < ts_len),
{
    let c = fold_count(folds, len);
    let z = fold_size(folds, len);
    lemma_fold_layout(folds, len);
    let last = (c - 1) as nat;
    assert(fold_start(folds, len, last) < fold_end(folds, len, last));
    if model == PredictionModel::LinearRegression && len >= 2 {
        if timestamps_cover_folds(model, folds, len, ts_len) {
            assert forall|k: nat| k < c implies #[trigger] fold_start(folds, len, k) < ts_len by {
                assert(k * z <= last * z) by (nonlinear_arith)
                    requires k <= last;
            }
        }
    }
}

/// A trend model evaluated on a fold reads the timestamp at which the fold
/// starts.
pub proof fn lemma_trend_anchor_is_fold_start(timestamps: Seq<u64>, start: nat)
    ensures
        anchor_of(PredictionModel::LinearRegression, timestamps, start) == timestamps[start as int],
{
}

/// Facts about the fold layout of `len > 0` observations.
pub proof fn lemma_fold_layout(folds: nat, len: nat)
    requires
        len > 0,
    ensures
        1 <= fold_count(folds, len) <= len,
        fold_size(folds, len) >= 1,
        fold_count(folds, len) * fold_size(folds, len) <= len,
        forall|k: nat| k < fold_count(folds, len) ==> #[trigger] fold_start(folds, len, k) < fold_end(folds, len, k) <= len,
{
    let c = fold_count(folds, len);
    let s = fold_size(folds, len);
    assert(s >= 1 && c * s <= len) by (nonlinear_arith)
        requires
            1 <= c <= len,
            s == len / c,
    ;
    assert forall|k: nat| k < c implies #[trigger] fold_start(folds, len, k) < fold_end(folds, len, k) <= len by {
        assert(k * s < (k + 1) * s) by (nonlinear_arith)
            requires s >= 1;
        if k + 1 < c {
            assert((k + 1) * s <= c * s) by (nonlinear_arith)
                requires k + 1 <= c;
        } else {
            assert(k * s <= (c - 1) * s) by (nonlinear_arith)
                requires k <= c - 1, s >= 1;
            assert((c - 1) * s < c * s) by (nonlinear_arith)
                requires c >= 1, s >= 1;
        }
    }
}

/// A fold with training data leaves out part of a series of at least two.
proof fn lemma_train_nonempty_needs_two<T>(s: Seq<T>, start: nat, end: nat)
    requires
        start < end <= s.len(),
        outside(s, start, end).len() > 0,
    ensures
        s.len() >= 2,
{
}


/// The folds tile the series: the first starts at the beginning, each one
/// starts where the one before it ends, and the last ends at the end.
pub proof fn lemma_folds_tile_series(folds: nat, len: nat)
    requires
        len > 0,
    ensures
        fold_start(folds, len, 0) == 0,
        fold_end(folds, len, (fold_count(folds, len) - 1) as nat) == len,
        forall|k: nat| k + 1 < fold_count(folds, len) ==> #[trigger] fold_end(folds, len, k) == fold_start(folds, len, k + 1),
{
    lemma_fold_layout(folds, len);
    assert(0 * fold_size(folds, len) == 0) by (nonlinear_arith);
}

/// The observations that the first `k` folds test, one segment per fold.
pub open spec fn tested_segments<T>(s: Seq<T>, folds: nat, k: nat) -> Seq<Seq<T>> {
    Seq::new(
        k,
        |j: int| s.subrange(fold_start(folds, s.len(), j as nat) as int, fold_end(folds, s.len(), j as nat) as int),
    )
}

proof fn lemma_tested_prefix<T>(s: Seq<T>, folds: nat, k: nat)
    requires
        s.len() > 0,
        1 <= k <= fold_count(folds, s.len()),
    ensures
        tested_segments(s, folds, k).flatten_alt() == s.subrange(0, fold_end(folds, s.len(), (k - 1) as nat) as int),
    decreases k,
{
    let len = s.len();
    lemma_folds_tile_series(folds, len);
    lemma_fold_layout(folds, len);
    let segs = tested_segments(s, folds, k);
    assert(segs.drop_last() =~= tested_segments(s, folds, (k - 1) as nat));
    let kk = (k - 1) as nat;
    assert(fold_start(folds, len, kk) < fold_end(folds, len, kk) <= len);
    if k == 1 {
        assert(tested_segments(s, folds, 0).flatten_alt() =~= Seq::<T>::empty());
        assert(segs.flatten_alt() =~= s.subrange(0, fold_end(folds, len, 0) as int));
    } else {
        lemma_tested_prefix(s, folds, kk);
        let prev = (k - 2) as nat;
        assert(fold_end(folds, len, prev) == fold_start(folds, len, prev + 1));
        assert(fold_start(folds, len, prev) < fold_end(folds, len, prev) <= len);
        assert(segs.flatten_alt() =~= s.subrange(0, fold_end(folds, len, kk) as int));
    }
}

/// Every observation is tested by exactly one fold: the segments that the
/// folds test, taken in fold order, make up the whole series.
pub proof fn lemma_every_observation_tested_once<T>(s: Seq<T>, folds: nat)
    requires
        s.len() > 0,
    ensures
        tested_segments(s, folds, fold_count(folds, s.len())).flatten() == s,
{
    let c = fold_count(folds, s.len());
    lemma_fold_layout(folds, s.len());
    lemma_folds_tile_series(folds, s.len());
    lemma_tested_prefix(s, folds, c);
    tested_segments(s, folds, c).lemma_flatten_and_flatten_alt_are_equivalent();
    assert(s.subrange(0, s.len() as int) =~= s);
}

/// A fold's training data and its tested segment put back together give the
/// series: the training data is the series with exactly the tested segment
/// cut out.
pub proof fn lemma_fold_reassembles<T>(s: Seq<T>, start: nat, end: nat)
    requires
        start <= end <= s.len(),
    ensures
        outside(s, start, end).take(start as int) + s.subrange(start as int, end as int)
            + outside(s, start, end).skip(start as int) == s,
        outside(s, start, end).len() + (end - start) == s.len(),
{
    let o = outside(s, start, end);
    assert(o.take(start as int) =~= s.subrange(0, start as int));
    assert(o.skip(start as int) =~= s.subrange(end as int, s.len() as int));
    assert(o.take(start as int) + s.subrange(start as int, end as int) + o.skip(start as int) =~= s);
}

/// A fold has no training data only when the series holds a single
/// observation; cross-validation then has nothing to forecast from.
pub proof fn lemma_train_empty_iff_single<T>(s: Seq<T>, folds: nat, k: nat)
    requires
        s.len() > 0,
        k < fold_count(folds, s.len()),
    ensures
        outside(s, fold_start(folds, s.len(), k), fold_end(folds, s.len(), k)).len() == 0 <==> s.len() == 1,
{
    let len = s.len();
    let c = fold_count(folds, len);
    let z = fold_size(folds, len);
    lemma_fold_layout(folds, len);
    lemma_folds_tile_series(folds, len);
    let a = fold_start(folds, len, k);
    let b = fold_end(folds, len, k);
    if len >= 2 {
        if k + 1 == c {
            assert(k * z >= z) by (nonlinear_arith)
                requires k >= 1, z >= 1;
        } else {
            assert((k + 1) * z <= (c - 1) * z) by (nonlinear_arith)
                requires k + 1 <= c - 1;
            assert((c - 1) * z + z == c * z) by (nonlinear_arith);
        }
    }
}

/// Whether the timestamps suffice for cross-validation of `len > 0`
/// observations into `folds` folds under `model`.
pub fn timestamps_suffice(model: PredictionModel, folds: usize, len: usize, ts_len: usize) -> (ok: bool)
    requires
        len > 0,
    ensures
        ok == timestamps_cover_folds(model, folds as nat, len as nat, ts_len as nat),
{
    proof {
        lemma_fold_layout(folds as nat, len as nat);
    }
    let f: usize = if folds < 2 { 2 } else { folds };
    let count: usize = if f < len { f } else { len };
    let size = len / count;
    assert((count - 1) * size <= count * size) by (nonlinear_arith)
        requires count >= 1;
    let last_start = (count - 1) * size;
    match model {
        PredictionModel::LinearRegression => len < 2 || last_start < ts_len,
        _ => true,
    }
}

impl<V: Copy> TimeSeries<V> {
    /// The fold that tests `values[start..end]` under `model`.
    pub fn fold_at(&self, model: PredictionModel, start: usize, end: usize) -> (f: Fold<V>)
        requires
            start <= end <= self.values@.len(),
            outside(self.values@, start as nat, end as nat).len() > 0 && model == PredictionModel::LinearRegression
                ==> start < self.timestamps@.len(),
        ensures
            f.describes(self.values@, self.timestamps@, model, start as nat, end as nat),
            f.test@ == self.values@.subrange(start as int, end as int),
            f.train.values@.len() == 0 <==> f.forecast is None,
            model == PredictionModel::LinearRegression && f.train.values@.len() > 0
                ==> f.forecast == Some(ForecastPlan::TrendAt { at: self.timestamps@[start as int] }),
    {
        let train = TimeSeries {
            values: without_range(&self.values, start, end),
            timestamps: without_range(&self.timestamps, start, end),
        };
        let test = copy_range(&self.values, start, end);
        let forecast = if train.values.len() == 0 {
            None
        } else {
            let anchor: u64 = match model {
                PredictionModel::LinearRegression => self.timestamps[start],
                _ => 0,
            };
            Some(forecast_plan(model, train.values.len(), anchor))
        };
        Fold { test_start: start, test_end: end, train, test, forecast }
    }

    /// Cross-validation folds, or `None` on a series that cross-validation
    /// cannot handle: an empty one, or one whose timestamps stop before the
    /// start of a fold at which a trend model is evaluated.
    pub fn checked_cross_validation_folds(&self, model: PredictionModel, folds: usize) -> (plan: Option<Vec<Fold<V>>>)
        ensures
            plan is Some <==> self.values@.len() > 0 && timestamps_cover_folds(
                model,
                folds as nat,
                self.values@.len(),
                self.timestamps@.len(),
            ),
            plan matches Some(p) ==> {
                &&& p@.len() == fold_count(folds as nat, self.values@.len())
                &&& forall|k: int| 0 <= k < p@.len() ==> (#[trigger] p@[k]).describes(
                    self.values@,
                    self.timestamps@,
                    model,
                    fold_start(folds as nat, self.values@.len(), k as nat),
                    fold_end(folds as nat, self.values@.len(), k as nat),
                )
            },
    {
        let n = self.values.len();
        if n == 0 {
            return None;
        }
        if !timestamps_suffice(model, folds, n, self.timestamps.len()) {
            return None;
        }
        Some(self.cross_validation_folds(model, folds))
    }

    /// The folds of a k-fold cross-validation of this series under `model`:
    /// fold `k` tests the observations from `fold_start` to `fold_end` and
    /// trains on all the others.
    pub fn cross_validation_folds(&self, model: PredictionModel, folds: usize) -> (plan: Vec<Fold<V>>)
        requires
            self.values@.len() > 0,
            timestamps_cover_folds(model, folds as nat, self.values@.len(), self.timestamps@.len()),
        ensures
            plan@.len() == fold_count(folds as nat, self.values@.len()),
            2 <= folds <= self.values@.len() ==> plan@.len() == folds,
            folds < 2 ==> plan@.len() == (if self.values@.len() < 2 { self.values@.len() } else { 2 }),
            folds > self.values@.len() ==> plan@.len() == self.values@.len(),
            forall|k: int| 0 <= k < plan@.len() ==> (#[trigger] plan@[k]).describes(
                self.values@,
                self.timestamps@,
                model,
                fold_start(folds as nat, self.values@.len(), k as nat),
                fold_end(folds as nat, self.values@.len(), k as nat),
            ),
    {
        let n = self.values.len();
        let f: usize = if folds < 2 { 2 } else { folds };
        let count: usize = if f < n { f } else { n };
        proof {
            lemma_fold_layout(folds as nat, n as nat);
        }
        let size = n / count;
        if size == 0 {
            return Vec::new();
        }
        let ghost len = n as nat;
        let ghost fl = folds as nat;
        let mut plan: Vec<Fold<V>> = Vec::new();
        let mut k: usize = 0;
        while k < count
            invariant
                n == self.values@.len(),
                len == n,
                fl == folds,
                count == fold_count(fl, len),
                size == fold_size(fl, len),
                1 <= count <= n,
                size >= 1,
                count * size <= n,
                forall|j: nat| j < count ==> #[trigger] fold_start(fl, len, j) < fold_end(fl, len, j) <= len,
                timestamps_cover_folds(model, fl, len, self.timestamps@.len()),
                k <= count,
                plan@.len() == k,
                forall|j: int| 0 <= j < k ==> (#[trigger] plan@[j]).describes(
                    self.values@,
                    self.timestamps@,
                    model,
                    fold_start(fl, len, j as nat),
                    fold_end(fl, len, j as nat),
                ),
            decreases count - k,
        {
            assert(fold_start(fl, len, k as nat) < fold_end(fl, len, k as nat) <= len);
            assert(k * size <= (count - 1) * size) by (nonlinear_arith)
                requires k <= count - 1;
            assert((k + 1) * size == k * size + size) by (nonlinear_arith);
            assert(k + 1 < count ==> (k + 1) * size <= count * size) by (nonlinear_arith);
            let start = k * size;
            let end = if k == count - 1 { n } else { start + size };
            assert(start == fold_start(fl, len, k as nat));
            assert(end == fold_end(fl, len, k as nat));
            proof {
                if outside(self.values@, start as nat, end as nat).len() > 0 {
                    lemma_train_nonempty_needs_two(self.values@, start as nat, end as nat);
                }
            }
            let fold = self.fold_at(model, start, end);
            plan.push(fold);
            k = k + 1;
        }
        plan
    }
}

} // verus!
