use cfavml::{
    f64_xany_avx2_nofma_sum_horizontal,
    f64_xany_avx2_nofma_sum_vertical,
    f64_xconst_avx2_nofma_sum_horizontal,
    f64_xconst_avx2_nofma_sum_vertical,
};

/// Two vectors of `size` reproducible pseudo-random doubles in `[0, 1)`.
fn get_sample_vectors(size: usize) -> (Vec<f64>, Vec<f64>) {
    let mut state: u64 = 2837564324875;
    let mut next = move || {
        state = state.wrapping_add(0x9E37_79B9_7F4A_7C15);
        let mut z = state;
        z = (z ^ (z >> 30)).wrapping_mul(0xBF58_476D_1CE4_E5B9);
        z = (z ^ (z >> 27)).wrapping_mul(0x94D0_49BB_1331_11EB);
        z ^= z >> 31;
        (z >> 11) as f64 / (1u64 << 53) as f64
    };
    let mut x = Vec::new();
    let mut y = Vec::new();
    for _ in 0..size {
        x.push(next());
        y.push(next());
    }
    (x, y)
}

fn assert_is_close(x: f32, y: f32) {
    let max = x.max(y);
    let min = x.min(y);
    let diff = max - min;
    assert!(diff <= 0.00015, "{x} and {y} differ by {diff}");
}

/// Each column summed row after row from 0.0 on.
fn sum_axis_0(matrix: &[f64], rows: usize, dims: usize) -> Vec<f64> {
    let mut result = vec![0.0; dims];
    for row in 0..rows {
        for col in 0..dims {
            result[col] = result[col] + matrix[row * dims + col];
        }
    }
    result
}

#[test]
fn test_xconst_nofma_sum() {
    let (x, _) = get_sample_vectors(768);
    let sum = f64_xconst_avx2_nofma_sum_horizontal::<f64, _, 768>(&x, 0.0, |a, b| a + b);
    assert_is_close(sum as f32, x.iter().sum::<f64>() as f32);
}

#[test]
fn test_xany_nofma_sum() {
    let (x, _) = get_sample_vectors(131);
    let sum = f64_xany_avx2_nofma_sum_horizontal(&x, 0.0, |a, b| a + b);
    assert_is_close(sum as f32, x.iter().sum::<f64>() as f32);
}

#[test]
fn test_xconst_nofma_sum_vertical() {
    let (matrix, _) = get_sample_vectors(512 * 25);

    let result = sum_axis_0(&matrix, 25, 512);

    let mut output = vec![0.0; 512];
    f64_xconst_avx2_nofma_sum_vertical::<f64, _, 512>(&matrix, &mut output, 0.0, |a, b| a + b);
    assert_eq!(output, result);
}

#[test]
fn test_xany_nofma_sum_vertical() {
    let (matrix, _) = get_sample_vectors(537 * 25);

    let result = sum_axis_0(&matrix, 25, 537);

    let mut output = vec![0.0; 537];
    f64_xany_avx2_nofma_sum_vertical(&matrix, &mut output, 0.0, |a, b| a + b);
    assert_eq!(output, result);
}
