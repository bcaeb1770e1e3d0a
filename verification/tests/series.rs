use plato_predict::{paired, TimeSeries};

fn linear_series(n: usize, slope: f64, intercept: f64) -> TimeSeries<f64> {
    TimeSeries {
        values: (0..n).map(|i| slope * i as f64 + intercept).collect(),
        timestamps: (0..n).map(|i| i as u64 * 1000).collect(),
    }
}

#[test]
fn from_tiles_unzips_in_order() {
    let ts = TimeSeries::from_tiles(&[(100, 1.0), (200, 2.0), (300, 3.0)]);
    assert_eq!(ts.values, vec![1.0, 2.0, 3.0]);
    assert_eq!(ts.timestamps, vec![100, 200, 300]);
}

#[test]
fn from_tiles_empty() {
    let ts: TimeSeries<f64> = TimeSeries::from_tiles(&[]);
    assert!(ts.values.is_empty());
    assert!(ts.timestamps.is_empty());
}

#[test]
fn split_index_is_clamped() {
    let ts = linear_series(10, 1.0, 0.0);
    assert_eq!(ts.split_index(5), 5);
    assert_eq!(ts.split_index(0), 1);
    assert_eq!(ts.split_index(10), 9);
    assert_eq!(ts.split_index(1000), 9);
    let one = linear_series(1, 1.0, 0.0);
    assert_eq!(one.split_index(1), 0);
    let none = linear_series(0, 1.0, 0.0);
    assert_eq!(none.split_index(3), 0);
}

#[test]
fn split_at_keeps_every_observation() {
    let ts = linear_series(10, 1.0, 0.0);
    let (train, test) = ts.train_test_split_at(5);
    assert_eq!(train.values.len() + test.values.len(), 10);
    assert_eq!(train.values, vec![0.0, 1.0, 2.0, 3.0, 4.0]);
    assert_eq!(test.values, vec![5.0, 6.0, 7.0, 8.0, 9.0]);
    assert_eq!(train.timestamps, vec![0, 1000, 2000, 3000, 4000]);
    assert_eq!(test.timestamps, vec![5000, 6000, 7000, 8000, 9000]);
}

#[test]
fn split_at_eighty_of_a_hundred() {
    let ts = linear_series(100, 1.0, 0.0);
    let (train, test) = ts.train_test_split_at(80);
    assert_eq!(train.values.len(), 80);
    assert_eq!(test.values.len(), 20);
}

#[test]
fn split_at_never_empties_a_part() {
    let ts = linear_series(4, 1.0, 0.0);
    let (train, test) = ts.train_test_split_at(0);
    assert_eq!(train.values.len(), 1);
    assert_eq!(test.values.len(), 3);
    let (train, test) = ts.train_test_split_at(4);
    assert_eq!(train.values.len(), 3);
    assert_eq!(test.values.len(), 1);
}

#[test]
fn last_value_of_series() {
    let ts = TimeSeries::from_tiles(&[(100, 1.0), (200, 2.0), (500, 5.0)]);
    assert_eq!(ts.last_value(), Some(5.0));
    let empty: TimeSeries<f64> = TimeSeries { values: vec![], timestamps: vec![] };
    assert_eq!(empty.last_value(), None);
}

#[test]
fn recent_values_window_three() {
    let ts = TimeSeries::from_tiles(&[(1, 10.0), (2, 20.0), (3, 30.0), (4, 40.0), (5, 50.0)]);
    assert_eq!(ts.recent_values(3), vec![50.0, 40.0, 30.0]);
}

#[test]
fn recent_values_window_exceeds_length() {
    let ts = TimeSeries::from_tiles(&[(1, 10.0), (2, 20.0)]);
    assert_eq!(ts.recent_values(10), vec![20.0, 10.0]);
}

#[test]
fn recent_values_window_one_is_last() {
    let ts = TimeSeries::from_tiles(&[(1, 7.0), (2, 9.0), (3, 11.0)]);
    assert_eq!(ts.recent_values(1), vec![11.0]);
    assert_eq!(ts.recent_values(0), vec![11.0]);
    assert_eq!(Some(ts.recent_values(1)[0]), ts.last_value());
}

#[test]
fn recent_values_of_empty_series() {
    let empty: TimeSeries<f64> = TimeSeries { values: vec![], timestamps: vec![] };
    assert!(empty.recent_values(3).is_empty());
}

#[test]
fn paired_stops_at_shorter() {
    let p = paired(&[1.0, 2.0, 3.0], &[4.0, 5.0]);
    assert_eq!(p, vec![(1.0, 4.0), (2.0, 5.0)]);
    let q: Vec<(f64, f64)> = paired(&[], &[]);
    assert!(q.is_empty());
}
