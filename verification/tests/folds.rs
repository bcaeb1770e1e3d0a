use plato_predict::{forecast_plan, timestamps_suffice, ForecastPlan, PredictionModel, TimeSeries};

fn linear_series(n: usize, slope: f64, intercept: f64) -> TimeSeries<f64> {
    TimeSeries {
        values: (0..n).map(|i| slope * i as f64 + intercept).collect(),
        timestamps: (0..n).map(|i| i as u64 * 1000).collect(),
    }
}

#[test]
fn cv_folds_count() {
    let ts = linear_series(30, 2.0, 1.0);
    let folds = ts.cross_validation_folds(PredictionModel::MovingAverage, 3);
    assert_eq!(folds.len(), 3);
}

#[test]
fn cv_five_folds_of_twenty() {
    let ts = linear_series(20, 1.0, 0.0);
    let folds = ts.cross_validation_folds(PredictionModel::Naive, 5);
    assert_eq!(folds.len(), 5);
    for (k, f) in folds.iter().enumerate() {
        assert_eq!(f.test_start, 4 * k);
        assert_eq!(f.test_end, 4 * k + 4);
        assert_eq!(f.test.len(), 4);
        assert_eq!(f.train.values.len(), 16);
        assert_eq!(f.forecast, Some(ForecastPlan::LastValue));
    }
}

#[test]
fn cv_last_fold_takes_remainder() {
    let ts = linear_series(10, 1.0, 0.0);
    let folds = ts.cross_validation_folds(PredictionModel::Naive, 3);
    let bounds: Vec<(usize, usize)> = folds.iter().map(|f| (f.test_start, f.test_end)).collect();
    assert_eq!(bounds, vec![(0, 3), (3, 6), (6, 10)]);
}

#[test]
fn cv_tests_every_observation_once() {
    let ts = linear_series(11, 1.0, 0.0);
    let folds = ts.cross_validation_folds(PredictionModel::ExponentialSmoothing, 4);
    let tested: Vec<f64> = folds.iter().flat_map(|f| f.test.clone()).collect();
    assert_eq!(tested, ts.values);
}

#[test]
fn cv_train_is_the_rest() {
    let ts = linear_series(6, 1.0, 0.0);
    let folds = ts.cross_validation_folds(PredictionModel::Naive, 3);
    assert_eq!(folds[1].train.values, vec![0.0, 1.0, 4.0, 5.0]);
    assert_eq!(folds[1].train.timestamps, vec![0, 1000, 4000, 5000]);
    assert_eq!(folds[1].test, vec![2.0, 3.0]);
}

#[test]
fn cv_folds_clamped() {
    let ts = linear_series(4, 1.0, 0.0);
    assert_eq!(ts.cross_validation_folds(PredictionModel::Naive, 0).len(), 2);
    assert_eq!(ts.cross_validation_folds(PredictionModel::Naive, 1).len(), 2);
    assert_eq!(ts.cross_validation_folds(PredictionModel::Naive, 100).len(), 4);
}

#[test]
fn cv_single_observation_has_no_training_data() {
    let ts = linear_series(1, 1.0, 0.0);
    let folds = ts.cross_validation_folds(PredictionModel::Naive, 5);
    assert_eq!(folds.len(), 1);
    assert!(folds[0].train.values.is_empty());
    assert_eq!(folds[0].forecast, None);
}

#[test]
fn cv_forecast_per_model() {
    let ts = linear_series(10, 1.0, 0.0);
    let ma = ts.cross_validation_folds(PredictionModel::MovingAverage, 2);
    assert_eq!(ma[0].forecast, Some(ForecastPlan::TrailingMean { window: 3 }));
    let es = ts.cross_validation_folds(PredictionModel::ExponentialSmoothing, 2);
    assert_eq!(es[0].forecast, Some(ForecastPlan::Smoothing));
    let arima = ts.cross_validation_folds(PredictionModel::Arima, 2);
    assert_eq!(arima[0].forecast, Some(ForecastPlan::Smoothing));
    let lr = ts.cross_validation_folds(PredictionModel::LinearRegression, 2);
    assert_eq!(lr[0].forecast, Some(ForecastPlan::TrendAt { at: 0 }));
    assert_eq!(lr[1].forecast, Some(ForecastPlan::TrendAt { at: 5000 }));
}

#[test]
fn cv_moving_average_window_shrinks() {
    let ts = linear_series(3, 1.0, 0.0);
    let ma = ts.cross_validation_folds(PredictionModel::MovingAverage, 3);
    assert_eq!(ma[0].forecast, Some(ForecastPlan::TrailingMean { window: 2 }));
}

#[test]
fn checked_cv_refuses_empty_series() {
    let ts = linear_series(0, 1.0, 0.0);
    assert!(ts.checked_cross_validation_folds(PredictionModel::Naive, 3).is_none());
}

#[test]
fn checked_cv_refuses_short_timestamps_for_trend() {
    let ts = TimeSeries { values: vec![1.0, 2.0, 3.0, 4.0], timestamps: vec![0, 1] };
    assert!(ts.checked_cross_validation_folds(PredictionModel::LinearRegression, 2).is_none());
    assert!(ts.checked_cross_validation_folds(PredictionModel::Naive, 2).is_some());
    assert!(!timestamps_suffice(PredictionModel::LinearRegression, 2, 4, 2));
    assert!(timestamps_suffice(PredictionModel::LinearRegression, 2, 4, 3));
    assert!(timestamps_suffice(PredictionModel::LinearRegression, 2, 1, 0));
}

#[test]
fn forecast_plan_choices() {
    assert_eq!(forecast_plan(PredictionModel::Naive, 7, 9), ForecastPlan::LastValue);
    assert_eq!(forecast_plan(PredictionModel::MovingAverage, 7, 9), ForecastPlan::TrailingMean { window: 3 });
    assert_eq!(forecast_plan(PredictionModel::MovingAverage, 1, 9), ForecastPlan::TrailingMean { window: 1 });
    assert_eq!(forecast_plan(PredictionModel::LinearRegression, 7, 9), ForecastPlan::TrendAt { at: 9 });
    assert_eq!(forecast_plan(PredictionModel::Arima, 7, 9), ForecastPlan::Smoothing);
}
