use matbench::matrix::{MatError, Matrix};
use matbench::blocked::multiply_blocked;
use matbench::multiply::multiply_baseline;
use matbench::parallel::{multiply_parallel_blocked, multiply_parallel_rows};
use matbench::strassen::multiply_strassen;

fn mk(rows: usize, cols: usize, elems: &[i64]) -> Matrix {
    assert_eq!(elems.len(), rows * cols);
    Matrix { rows, cols, data: elems.to_vec() }
}

fn all_strategies(a: &Matrix, b: &Matrix) -> Vec<Result<Matrix, MatError>> {
    vec![
        multiply_baseline(a, b),
        multiply_parallel_rows(a, b),
        multiply_blocked(a, b, 1),
        multiply_blocked(a, b, 7),
        multiply_blocked(a, b, 64),
        multiply_parallel_blocked(a, b, 3),
        multiply_parallel_blocked(a, b, 64),
        multiply_strassen(a, b),
    ]
}

#[test]
fn test_construct_zero() {
    let m = Matrix::construct(3, 4);
    assert_eq!(m.rows, 3);
    assert_eq!(m.cols, 4);
    assert_eq!(m.data, vec![0i64; 12]);
}

#[test]
fn test_get_set_roundtrip() {
    let mut m = Matrix::construct(2, 3);
    m.set(1, 2, -7);
    m.set(0, 0, 11);
    assert_eq!(m.get(1, 2), -7);
    assert_eq!(m.get(0, 0), 11);
    assert_eq!(m.get(0, 1), 0);
}

#[test]
fn test_construct_random_deterministic() {
    let m1 = Matrix::construct_random(4, 4, 42);
    let m2 = Matrix::construct_random(4, 4, 42);
    assert_eq!(m1.rows, m2.rows);
    assert_eq!(m1.cols, m2.cols);
    assert_eq!(m1.data, m2.data);
    // every element lies in the fixed-point image of [-1, 1)
    for &v in m1.data.iter() {
        assert!((-1000..1000).contains(&v));
    }
    // a different seed gives a different matrix
    let m3 = Matrix::construct_random(4, 4, 84);
    assert_ne!(m1.data, m3.data);
}

#[test]
fn test_identity_times_matrix_every_strategy() {
    let a = mk(2, 2, &[1, 0, 0, 1]);
    let b = mk(2, 2, &[5, 6, 7, 8]);
    for r in all_strategies(&a, &b) {
        let m = r.expect("2x2 product must succeed");
        assert_eq!(m.rows, 2);
        assert_eq!(m.cols, 2);
        assert_eq!(m.data, vec![5, 6, 7, 8]);
    }
}

#[test]
fn test_small_product_exact_value() {
    // [[1,2,3],[4,5,6]] * [[7,8],[9,10],[11,12]] == [[58,64],[139,154]]
    let a = mk(2, 3, &[1, 2, 3, 4, 5, 6]);
    let b = mk(3, 2, &[7, 8, 9, 10, 11, 12]);
    let p = multiply_baseline(&a, &b).unwrap();
    assert_eq!(p.data, vec![58, 64, 139, 154]);
    let q = multiply_parallel_rows(&a, &b).unwrap();
    assert_eq!(q.data, p.data);
    let r = multiply_blocked(&a, &b, 2).unwrap();
    assert_eq!(r.data, p.data);
    let s = multiply_parallel_blocked(&a, &b, 2).unwrap();
    assert_eq!(s.data, p.data);
}

#[test]
fn test_dimension_mismatch_every_strategy() {
    let a = Matrix::construct_random(2, 3, 1);
    let b = Matrix::construct_random(4, 2, 2);
    for r in all_strategies(&a, &b) {
        assert_eq!(r.unwrap_err(), MatError::DimensionMismatch);
    }
}

#[test]
fn test_strategies_agree_rectangular() {
    let a = Matrix::construct_random(7, 5, 42);
    let b = Matrix::construct_random(5, 9, 84);
    let baseline = multiply_baseline(&a, &b).unwrap();
    assert_eq!(baseline.rows, 7);
    assert_eq!(baseline.cols, 9);
    let parallel = multiply_parallel_rows(&a, &b).unwrap();
    assert_eq!(parallel.data, baseline.data);
    let blocked = multiply_blocked(&a, &b, 4).unwrap();
    assert_eq!(blocked.data, baseline.data);
    let par_blocked = multiply_parallel_blocked(&a, &b, 3).unwrap();
    assert_eq!(par_blocked.data, baseline.data);
}

#[test]
fn test_blocked_block_size_invariant() {
    // 13 x 17 times 17 x 11: no block size divides any extent evenly.
    let a = Matrix::construct_random(13, 17, 7);
    let b = Matrix::construct_random(17, 11, 9);
    let r1 = multiply_blocked(&a, &b, 1).unwrap();
    let r7 = multiply_blocked(&a, &b, 7).unwrap();
    let r16 = multiply_blocked(&a, &b, 16).unwrap();
    let r64 = multiply_blocked(&a, &b, 64).unwrap();
    assert_eq!(r1.data, r7.data);
    assert_eq!(r1.data, r16.data);
    assert_eq!(r1.data, r64.data);
    assert!(r1.equals_within_tolerance(&r64, 0));
    let pb_one = multiply_parallel_blocked(&a, &b, 1).unwrap();
    let pb_five = multiply_parallel_blocked(&a, &b, 5).unwrap();
    assert_eq!(pb_one.data, r1.data);
    assert_eq!(pb_five.data, r1.data);
}

#[test]
fn test_blocked_zero_block_size_invalid() {
    let a = Matrix::construct_random(4, 4, 3);
    let b = Matrix::construct_random(4, 4, 4);
    assert_eq!(multiply_blocked(&a, &b, 0).unwrap_err(), MatError::InvalidParameter);
    assert_eq!(multiply_parallel_blocked(&a, &b, 0).unwrap_err(), MatError::InvalidParameter);
    // a dimension mismatch is reported first
    let c = Matrix::construct_random(3, 4, 5);
    assert_eq!(multiply_blocked(&c, &c, 0).unwrap_err(), MatError::DimensionMismatch);
}

#[test]
fn test_strassen_base_case_exact() {
    let a = Matrix::construct_random(64, 64, 42);
    let b = Matrix::construct_random(64, 64, 84);
    let baseline = multiply_baseline(&a, &b).unwrap();
    let strassen = multiply_strassen(&a, &b).unwrap();
    assert_eq!(strassen.data, baseline.data);
}

#[test]
fn test_strassen_recursive_128() {
    let a = Matrix::construct_random(128, 128, 42);
    let b = Matrix::construct_random(128, 128, 84);
    let baseline = multiply_baseline(&a, &b).unwrap();
    let strassen = multiply_strassen(&a, &b).unwrap();
    assert_eq!(strassen.data, baseline.data);
    assert!(strassen.equals_within_tolerance(&baseline, 0));
}

#[test]
fn test_strassen_recursive_256() {
    let a = Matrix::construct_random(256, 256, 42);
    let b = Matrix::construct_random(256, 256, 84);
    let baseline = multiply_baseline(&a, &b).unwrap();
    let strassen = multiply_strassen(&a, &b).unwrap();
    assert_eq!(strassen.data, baseline.data);
}

#[test]
fn test_strassen_non_power_of_two_falls_back() {
    let a = Matrix::construct_random(100, 100, 42);
    let b = Matrix::construct_random(100, 100, 84);
    let baseline = multiply_baseline(&a, &b).unwrap();
    let strassen = multiply_strassen(&a, &b).unwrap();
    assert_eq!(strassen.data, baseline.data);
}

#[test]
fn test_strassen_rejects_non_square() {
    let a = Matrix::construct_random(2, 3, 1);
    let b = Matrix::construct_random(3, 2, 2);
    assert_eq!(multiply_strassen(&a, &b).unwrap_err(), MatError::DimensionMismatch);
    let c = Matrix::construct_random(4, 4, 3);
    let d = Matrix::construct_random(4, 5, 4);
    assert_eq!(multiply_strassen(&c, &d).unwrap_err(), MatError::DimensionMismatch);
}

#[test]
fn test_equals_within_tolerance() {
    let a = mk(2, 2, &[1, 2, 3, 4]);
    let b = mk(2, 2, &[2, 1, 4, 3]);
    assert!(a.equals_within_tolerance(&b, 1));
    assert!(!a.equals_within_tolerance(&b, 0));
    let c = mk(1, 4, &[1, 2, 3, 4]);
    assert!(!a.equals_within_tolerance(&c, 100));
    assert!(a.equals_within_tolerance(&a, 0));
}

#[test]
fn test_wrapping_products_agree() {
    // products that overflow i64 still agree across all strategies
    let a = mk(2, 2, &[i64::MAX, 1, i64::MIN, -1]);
    let b = mk(2, 2, &[i64::MAX, -2, 3, i64::MIN]);
    let baseline = multiply_baseline(&a, &b).unwrap();
    for r in all_strategies(&a, &b) {
        assert_eq!(r.unwrap().data, baseline.data);
    }
}
