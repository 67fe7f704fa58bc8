use densmap::radial_density::{get_percentile_values, last_bin_at_or_above, PercentileError};

fn keys(values: &[f64]) -> Vec<u64> {
    values.iter().map(|v| v.to_bits()).collect()
}

#[test]
fn test_get_20th_and_80th_percentile_values_of_reversed_array() {
    // In this array, 20% of the values lie below (or at) 1.0 and 80% below (or at) 2.0.
    let values = keys(&[3.0, 2.0, 2.0, 2.0, 2.0, 2.0, 2.0, 1.0, 1.0, 0.0]);
    assert_eq!(
        Ok((1.0f64.to_bits(), 2.0f64.to_bits())),
        get_percentile_values(&values, 20, 80)
    );
}

#[test]
fn test_getting_percentiles_from_empty_array_returns_error() {
    assert!(get_percentile_values(&Vec::new(), 0, 0).is_err());
}

#[test]
fn test_getting_invalid_percentiles_returns_error() {
    let values = keys(&[3.0, 2.0, 2.0, 2.0, 2.0, 2.0, 2.0, 1.0, 1.0, 0.0]);
    assert!(get_percentile_values(&values, -1, 0).is_err());
    assert!(get_percentile_values(&values, 0, -1).is_err());
    assert!(get_percentile_values(&values, 101, 0).is_err());
    assert!(get_percentile_values(&values, 0, 101).is_err());
}

#[test]
fn percentile_errors_name_their_cause() {
    let values = keys(&[1.0, 2.0]);
    assert_eq!(Err(PercentileError::Empty), get_percentile_values(&Vec::new(), 200, 0));
    assert_eq!(Err(PercentileError::LowerOutOfRange), get_percentile_values(&values, 101, -5));
    assert_eq!(Err(PercentileError::UpperOutOfRange), get_percentile_values(&values, 100, -5));
}

#[test]
fn percentile_of_sorted_values() {
    let values = keys(&[0.0, 1.0, 1.0, 2.0, 2.0, 2.0, 2.0, 2.0, 2.0, 3.0]);
    assert_eq!(
        Ok((1.0f64.to_bits(), 2.0f64.to_bits())),
        get_percentile_values(&values, 20, 80)
    );
    assert_eq!(
        Ok((0.0f64.to_bits(), 3.0f64.to_bits())),
        get_percentile_values(&values, 0, 95)
    );
}

#[test]
fn percentile_index_rounds_half_up_and_stops_at_last() {
    let values: Vec<u64> = (0..10).rev().collect();
    assert_eq!(Ok((1, 9)), get_percentile_values(&values, 10, 90));
    assert_eq!(Ok((2, 9)), get_percentile_values(&values, 15, 100));
    assert_eq!(Ok((1, 2)), get_percentile_values(&values, 14, 24));
    assert_eq!(Ok((7, 7)), get_percentile_values(&vec![7], 0, 100));
}

#[test]
fn reverse_scan_finds_outermost_bin_reaching_threshold() {
    let values = keys(&[5.0, 1.0, 4.0, 4.0, 0.5, 0.0]);
    assert_eq!(Some(3), last_bin_at_or_above(&values, 4.0f64.to_bits()));
    assert_eq!(Some(0), last_bin_at_or_above(&values, 4.5f64.to_bits()));
    assert_eq!(Some(5), last_bin_at_or_above(&values, 0.0f64.to_bits()));
    assert_eq!(None, last_bin_at_or_above(&values, 6.0f64.to_bits()));
    assert_eq!(None, last_bin_at_or_above(&Vec::new(), 0));
}
