//! Structural core of a small time-series prediction toolkit.
//!
//! The statistical arithmetic of the toolkit works on floating-point
//! observations; this crate holds the logic around it that decides *which*
//! observations each model reads: how a series is built from tiles, where it
//! is split into training and test data, which trailing window a moving
//! average reads, how cross-validation partitions a series into folds, and
//! which forecast each model makes on a fold. Observations are generic, so
//! every contract here holds whatever the observation type is.
//!
//! - `model`: the prediction models and the forecast each makes on a fold.
//! - `series`: the series type, its construction, splitting and windows.
//! - `folds`: the fold layout of k-fold cross-validation and its laws.

pub mod folds;
pub mod model;
pub mod series;

pub use folds::{timestamps_suffice, Fold};
pub use model::{forecast_plan, ForecastPlan, PredictionModel};
pub use series::{paired, TimeSeries};
