# plato-predict

Time series prediction primitives for PLATO tile streams: naive, moving
average, exponential smoothing, linear regression and an ARIMA fallback, with
anomaly scoring, k-fold cross-validation and error metrics.

Layout:

- `src/` is the library whose contracts Verus proves. It is generic in the
  observation type and decides which observations every step reads:
  - `series.rs`: `TimeSeries<V>`, building it from tiles, the clamped
    train/test split, the trailing window of a moving average, the last
    observation, and position-wise pairing of two sequences.
  - `folds.rs`: the fold layout of k-fold cross-validation (fold count,
    fold bounds, training data of each fold) and its laws: the folds tile the
    series, every observation is tested exactly once, a fold's training data
    is the series with the tested segment cut out, and only a one-observation
    series leaves a fold without training data.
  - `model.rs`: the prediction models and the forecast each one makes on a
    fold.
- `app/` holds the floating-point statistics (means, standard deviations,
  smoothing, least squares, z-scores, error metrics) on `f64` observations,
  and the public types with their serde derives.
- `tests/` runs the library on concrete series.
