use matbench::bench::{
    multiplication_op_count, strassen_included, sweep_sizes, validate_bench_params,
};
use matbench::matrix::MatError;

#[test]
fn test_sweep_sizes_basic() {
    assert_eq!(sweep_sizes(2, 8, 2).unwrap(), vec![2, 4, 8]);
}

#[test]
fn test_sweep_sizes_default_range() {
    assert_eq!(sweep_sizes(64, 1024, 2).unwrap(), vec![64, 128, 256, 512, 1024]);
}

#[test]
fn test_sweep_sizes_not_hitting_end() {
    assert_eq!(sweep_sizes(3, 100, 3).unwrap(), vec![3, 9, 27, 81]);
    assert_eq!(sweep_sizes(5, 5, 2).unwrap(), vec![5]);
}

#[test]
fn test_sweep_sizes_invalid_parameters() {
    assert_eq!(sweep_sizes(0, 8, 2).unwrap_err(), MatError::InvalidParameter);
    assert_eq!(sweep_sizes(2, 8, 1).unwrap_err(), MatError::InvalidParameter);
    assert_eq!(sweep_sizes(2, 8, 0).unwrap_err(), MatError::InvalidParameter);
    assert_eq!(sweep_sizes(9, 8, 2).unwrap_err(), MatError::InvalidParameter);
}

#[test]
fn test_strassen_included_rule() {
    assert!(strassen_included(512));
    assert!(strassen_included(64));
    assert!(strassen_included(2));
    assert!(!strassen_included(100));
    assert!(!strassen_included(513));
    assert!(!strassen_included(1024));
    assert!(!strassen_included(0));
}

#[test]
fn test_validate_bench_params() {
    assert!(validate_bench_params(512, 3).is_ok());
    assert_eq!(validate_bench_params(0, 3).unwrap_err(), MatError::InvalidParameter);
    assert_eq!(validate_bench_params(512, 0).unwrap_err(), MatError::InvalidParameter);
}

#[test]
fn test_multiplication_op_count() {
    assert_eq!(multiplication_op_count(512), Some(268_435_456));
    assert_eq!(multiplication_op_count(1), Some(2));
    assert_eq!(multiplication_op_count(0), Some(0));
}
