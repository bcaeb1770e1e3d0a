use vstd::prelude::*;

verus! {

/// Available prediction models.
#[derive(Clone, Copy, Debug, PartialEq, Eq, Structural)]
pub enum PredictionModel {
    Naive,
    MovingAverage,
    ExponentialSmoothing,
    LinearRegression,
    Arima,
}

/// The forecast that a model makes from a training series, described by the
/// observations it reads rather than by the arithmetic it does on them.
#[derive(Clone, Copy, Debug, PartialEq, Eq, Structural)]
pub enum ForecastPlan {
    /// Propagate the last training observation.
    LastValue,
    /// Average the trailing `window` training observations.
    TrailingMean { window: usize },
    /// Simple exponential smoothing with the default smoothing factor.
    Smoothing,
    /// Fit a least-squares trend and evaluate it at timestamp `at`.
    TrendAt { at: u64 },
}

/// The trailing window that a moving-average forecast reads during
/// cross-validation: three observations, or fewer when the training data is
/// shorter.
pub open spec fn cv_window(train_len: nat) -> nat {
    if train_len < 3 { train_len } else { 3 }
}

/// The forecast each model makes during cross-validation on a training set of
/// `train_len` observations; `anchor` is the timestamp at which a trend is
/// evaluated. ARIMA falls back to exponential smoothing.
pub open spec fn planned_forecast(model: PredictionModel, train_len: nat, anchor: u64) -> ForecastPlan {
    match model {
        PredictionModel::Naive => ForecastPlan::LastValue,
        PredictionModel::MovingAverage => ForecastPlan::TrailingMean { window: cv_window(train_len) as usize },
        PredictionModel::ExponentialSmoothing => ForecastPlan::Smoothing,
        PredictionModel::LinearRegression => ForecastPlan::TrendAt { at: anchor },
        PredictionModel::Arima => ForecastPlan::Smoothing,
    }
}

/// The moving-average forecast of cross-validation reads three trailing
/// observations, or all of the training data when it holds fewer than three.
pub proof fn lemma_cv_moving_average_window(train_len: nat, anchor: u64)
    ensures
        train_len >= 3 ==> planned_forecast(PredictionModel::MovingAverage, train_len, anchor)
            == (ForecastPlan::TrailingMean { window: 3 }),
        train_len < 3 ==> planned_forecast(PredictionModel::MovingAverage, train_len, anchor)
            == (ForecastPlan::TrailingMean { window: train_len as usize }),
{
}

/// Apart from the moving-average window, the forecast that a model makes does
/// not depend on how much training data there is: naive propagates the last
/// value, exponential smoothing and ARIMA both smooth, and a trend is
/// evaluated at the anchor timestamp.
pub proof fn lemma_forecast_ignores_training_length(train_a: nat, train_b: nat, anchor: u64)
    ensures
        planned_forecast(PredictionModel::Naive, train_a, anchor) == ForecastPlan::LastValue,
        planned_forecast(PredictionModel::ExponentialSmoothing, train_a, anchor) == ForecastPlan::Smoothing,
        planned_forecast(PredictionModel::Arima, train_a, anchor) == ForecastPlan::Smoothing,
        planned_forecast(PredictionModel::LinearRegression, train_a, anchor) == (ForecastPlan::TrendAt { at: anchor }),
        forall|m: PredictionModel| m != PredictionModel::MovingAverage ==>
            #[trigger] planned_forecast(m, train_a, anchor) == planned_forecast(m, train_b, anchor),
{
}

/// Choose the forecast that `model` makes during cross-validation.
pub fn forecast_plan(model: PredictionModel, train_len: usize, anchor: u64) -> (plan: ForecastPlan)
    ensures
        plan == planned_forecast(model, train_len as nat, anchor),
        model == PredictionModel::Naive ==> plan == ForecastPlan::LastValue,
        model == PredictionModel::MovingAverage && train_len >= 3 ==> plan == (ForecastPlan::TrailingMean { window: 3 }),
        model == PredictionModel::MovingAverage && train_len < 3 ==> plan == (ForecastPlan::TrailingMean { window: train_len }),
        model == PredictionModel::ExponentialSmoothing ==> plan == ForecastPlan::Smoothing,
        model == PredictionModel::Arima ==> plan == ForecastPlan::Smoothing,
        model == PredictionModel::LinearRegression ==> plan == (ForecastPlan::TrendAt { at: anchor }),
{
    match model {
        PredictionModel::Naive => ForecastPlan::LastValue,
        PredictionModel::MovingAverage => {
            let window: usize = if train_len < 3 { train_len } else { 3 };
            ForecastPlan::TrailingMean { window }
        },
        PredictionModel::ExponentialSmoothing => ForecastPlan::Smoothing,
        PredictionModel::LinearRegression => ForecastPlan::TrendAt { at: anchor },
        PredictionModel::Arima => ForecastPlan::Smoothing,
    }
}

} // verus!
