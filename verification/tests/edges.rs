use cfavml::{
    f64_xany_avx2_nofma_sum_horizontal,
    f64_xany_avx2_nofma_sum_vertical,
    f64_xconst_avx2_nofma_sum_horizontal,
    f64_xconst_avx2_nofma_sum_vertical,
};

fn plus(a: f64, b: f64) -> f64 {
    a + b
}

fn ramp(size: usize) -> Vec<f64> {
    (0..size).map(|i| (i as f64 * 0.37).sin() * 100.0).collect()
}

#[test]
fn empty_vector_sums_to_zero() {
    let x: Vec<f64> = Vec::new();
    let any = f64_xany_avx2_nofma_sum_horizontal(&x, 0.0, plus);
    assert_eq!(any.to_bits(), 0.0f64.to_bits());
    let fixed = f64_xconst_avx2_nofma_sum_horizontal::<f64, _, 0>(&x, 0.0, plus);
    assert_eq!(fixed.to_bits(), 0.0f64.to_bits());
}

#[test]
fn matrix_without_rows_leaves_zeroed_output() {
    let matrix: Vec<f64> = Vec::new();

    let mut output = vec![0.0; 537];
    f64_xany_avx2_nofma_sum_vertical(&matrix, &mut output, 0.0, plus);
    assert_eq!(output, vec![0.0; 537]);

    let mut output = vec![0.0; 512];
    f64_xconst_avx2_nofma_sum_vertical::<f64, _, 512>(&matrix, &mut output, 0.0, plus);
    assert_eq!(output, vec![0.0; 512]);
}

#[test]
fn matrix_without_rows_overwrites_all_but_the_last_columns() {
    let matrix: Vec<f64> = Vec::new();
    let mut output = vec![9.0; 39];
    f64_xany_avx2_nofma_sum_vertical(&matrix, &mut output, 0.0, plus);
    let mut expected = vec![0.0; 39];
    expected[36] = 9.0;
    expected[37] = 9.0;
    expected[38] = 9.0;
    assert_eq!(output, expected);
}

#[test]
fn output_without_columns_is_left_empty() {
    let matrix: Vec<f64> = Vec::new();
    let mut output: Vec<f64> = Vec::new();
    f64_xany_avx2_nofma_sum_vertical(&matrix, &mut output, 0.0, plus);
    assert!(output.is_empty());
    f64_xconst_avx2_nofma_sum_vertical::<f64, _, 0>(&matrix, &mut output, 0.0, plus);
    assert!(output.is_empty());
}

#[test]
fn repeated_calls_give_identical_bits() {
    for len in [0usize, 3, 36, 131, 768] {
        let x = ramp(len);
        let first = f64_xany_avx2_nofma_sum_horizontal(&x, 0.0, plus);
        let second = f64_xany_avx2_nofma_sum_horizontal(&x, 0.0, plus);
        assert_eq!(first.to_bits(), second.to_bits(), "length {len}");
    }
    let x = ramp(768);
    let first = f64_xconst_avx2_nofma_sum_horizontal::<f64, _, 768>(&x, 0.0, plus);
    let second = f64_xconst_avx2_nofma_sum_horizontal::<f64, _, 768>(&x, 0.0, plus);
    assert_eq!(first.to_bits(), second.to_bits());
}

#[test]
fn every_remainder_tier_is_close_to_the_sequential_sum() {
    // Whole blocks only; one group of four and no single element; one to
    // three single elements; and all three together.
    for len in [32usize, 64, 768, 36, 4, 33, 34, 35, 1, 2, 3, 131, 63] {
        let x = ramp(len);
        let sequential: f64 = x.iter().sum();
        let r = f64_xany_avx2_nofma_sum_horizontal(&x, 0.0, plus);
        let bound = 1.0e-12 * x.iter().map(|v| v.abs()).sum::<f64>();
        assert!((r - sequential).abs() <= bound, "length {len}: {r} and {sequential}");
    }
}

#[test]
fn nan_reaches_the_result_from_every_tier() {
    for at in [0usize, 40, 64, 67, 70] {
        let mut x = ramp(71);
        x[at] = f64::NAN;
        assert!(f64_xany_avx2_nofma_sum_horizontal(&x, 0.0, plus).is_nan(), "index {at}");
    }
    let mut x = ramp(64);
    x[17] = f64::NAN;
    assert!(f64_xconst_avx2_nofma_sum_horizontal::<f64, _, 64>(&x, 0.0, plus).is_nan());
}

#[test]
fn infinity_reaches_the_result() {
    let mut x = ramp(131);
    x[5] = f64::INFINITY;
    assert_eq!(f64_xany_avx2_nofma_sum_horizontal(&x, 0.0, plus), f64::INFINITY);
    x[129] = f64::NEG_INFINITY;
    assert!(f64_xany_avx2_nofma_sum_horizontal(&x, 0.0, plus).is_nan());
}

#[test]
fn nan_stays_in_its_column() {
    let dims = 37;
    let mut matrix = ramp(3 * dims);
    matrix[dims + 2] = f64::NAN;
    matrix[2 * dims + 36] = f64::NAN;
    let mut output = vec![0.0; dims];
    f64_xany_avx2_nofma_sum_vertical(&matrix, &mut output, 0.0, plus);
    for col in 0..dims {
        assert_eq!(output[col].is_nan(), col == 2 || col == 36, "column {col}");
    }
}

#[test]
fn integral_columns_sum_exactly() {
    let rows = 25;
    let dims = 537;
    let matrix: Vec<f64> = (0..rows * dims).map(|i| (i % 101) as f64).collect();
    let mut expected = vec![0.0; dims];
    for col in 0..dims {
        let mut total: u64 = 0;
        for row in 0..rows {
            total += ((row * dims + col) % 101) as u64;
        }
        expected[col] = total as f64;
    }
    let mut output = vec![0.0; dims];
    f64_xany_avx2_nofma_sum_vertical(&matrix, &mut output, 0.0, plus);
    assert_eq!(output, expected);
}
