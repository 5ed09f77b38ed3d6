use cfavml::{
    f64_xany_avx2_nofma_sum_horizontal,
    f64_xany_avx2_nofma_sum_vertical,
    f64_xconst_avx2_nofma_sum_horizontal,
    f64_xconst_avx2_nofma_sum_vertical,
};

/// Not associative, not commutative: the digits of a result show the order
/// and grouping in which the values were combined.
fn shift(a: u64, b: u64) -> u64 {
    a.wrapping_mul(10).wrapping_add(b)
}

fn wrapping(a: u64, b: u64) -> u64 {
    a.wrapping_add(b)
}

fn sample_integers(size: usize) -> Vec<u64> {
    let mut state: u64 = 0x2545_F491_4F6C_DD1D;
    let mut x = Vec::new();
    for _ in 0..size {
        state ^= state << 13;
        state ^= state >> 7;
        state ^= state << 17;
        x.push(state);
    }
    x
}

fn sample_doubles(size: usize) -> Vec<f64> {
    sample_integers(size)
        .into_iter()
        .map(|bits| ((bits >> 11) as f64 / (1u64 << 53) as f64 - 0.5) * 1.0e6)
        .collect()
}

/// The grouping of the horizontal kernel for any length, lane by lane.
fn grouped<T: Copy>(x: &[T], zero: T, op: impl Fn(T, T) -> T) -> T {
    let blocks = x.len() / 32;
    let groups = (x.len() % 32) / 4;
    let short = x.len() % 4;
    let mut lanes = [zero; 32];
    for b in 0..blocks {
        for k in 0..32 {
            lanes[k] = op(lanes[k], x[32 * b + k]);
        }
    }
    for g in 0..groups {
        for l in 0..4 {
            lanes[l] = op(lanes[l], x[32 * blocks + 4 * g + l]);
        }
    }
    let mut carry = zero;
    for i in (x.len() - short)..x.len() {
        carry = op(carry, x[i]);
    }
    op(carry, rolled(&lanes, &op))
}

/// Eight registers of four lanes rolled up, and the lanes combined.
fn rolled<T: Copy>(lanes: &[T; 32], op: &impl Fn(T, T) -> T) -> T {
    let mut v = [lanes[0]; 4];
    for l in 0..4 {
        let r01 = op(lanes[l], lanes[4 + l]);
        let r23 = op(lanes[8 + l], lanes[12 + l]);
        let r45 = op(lanes[16 + l], lanes[20 + l]);
        let r67 = op(lanes[24 + l], lanes[28 + l]);
        v[l] = op(op(r01, r23), op(r45, r67));
    }
    op(op(v[0], v[2]), op(v[1], v[3]))
}

#[test]
fn three_elements_go_to_the_carry() {
    // carry = ((0 1) 2) 3 = 123; the registers hold 0 and roll up to 0.
    let r = f64_xany_avx2_nofma_sum_horizontal(&[1u64, 2, 3], 0, shift);
    assert_eq!(r, 1230);
}

#[test]
fn four_elements_go_to_the_first_register() {
    // register 1 = [1, 2, 3, 4]; three levels of roll-up with registers of 0
    // give [1000, 2000, 3000, 4000]; the lanes combine as (l0 l2) (l1 l3).
    let r = f64_xany_avx2_nofma_sum_horizontal(&[1u64, 2, 3, 4], 0, shift);
    assert_eq!(r, 154000);
}

#[test]
fn five_elements_use_group_and_carry() {
    // carry = 5, the registers give 154000: carry on the left.
    let r = f64_xany_avx2_nofma_sum_horizontal(&[1u64, 2, 3, 4, 5], 0, shift);
    assert_eq!(r, 154050);
}

#[test]
fn one_block_fills_every_lane_once() {
    let x: Vec<u64> = (1..=32).collect();
    // lane l of register j holds x[4 j + l] = 4 j + l + 1.
    let mut lanes = [0u64; 32];
    for k in 0..32 {
        lanes[k] = k as u64 + 1;
    }
    let expected = rolled(&lanes, &shift);
    let fixed = f64_xconst_avx2_nofma_sum_horizontal::<u64, _, 32>(&x, 0, shift);
    assert_eq!(fixed, expected);
    // The kernel for any length puts its carry, 0, in front.
    let any = f64_xany_avx2_nofma_sum_horizontal(&x, 0, shift);
    assert_eq!(any, shift(0, expected));
    assert_eq!(any, expected);
}

#[test]
fn any_length_follows_the_grouping() {
    for len in 0..=200 {
        let x = sample_integers(len);
        let r = f64_xany_avx2_nofma_sum_horizontal(&x, 0, shift);
        assert_eq!(r, grouped(&x, 0, shift), "length {len}");
    }
}

#[test]
fn any_length_follows_the_grouping_in_doubles() {
    for len in [0, 1, 3, 4, 5, 31, 32, 33, 35, 36, 39, 63, 64, 100, 131, 768, 1000] {
        let x = sample_doubles(len);
        let r = f64_xany_avx2_nofma_sum_horizontal(&x, 0.0, |a, b| a + b);
        let expected = grouped(&x, 0.0, |a, b| a + b);
        assert_eq!(r.to_bits(), expected.to_bits(), "length {len}");
    }
}

#[test]
fn fixed_length_follows_the_grouping_in_doubles() {
    let x = sample_doubles(768);
    let r = f64_xconst_avx2_nofma_sum_horizontal::<f64, _, 768>(&x, 0.0, |a, b| a + b);
    let expected = grouped(&x, 0.0, |a, b| a + b);
    assert_eq!(r.to_bits(), expected.to_bits());
}

#[test]
fn grouping_differs_from_the_sequential_sum_in_doubles() {
    // One after the other, each 1.0 is lost against 1.0e16; lane by lane,
    // the three 1.0 of lane 1 add up to 3.0 before they meet it.
    let mut x = vec![0.0f64; 96];
    x[0] = 1.0e16;
    x[1] = 1.0;
    x[33] = 1.0;
    x[65] = 1.0;
    let sequential = x.iter().fold(0.0, |a, b| a + b);
    let r = f64_xany_avx2_nofma_sum_horizontal(&x, 0.0, |a, b| a + b);
    assert_eq!(sequential, 1.0e16);
    assert_eq!(r, 1.0e16 + 4.0);
    assert_eq!(r, grouped(&x, 0.0, |a, b| a + b));
}

#[test]
fn exact_operation_gives_the_sequential_sum() {
    for len in 0..=200 {
        let x = sample_integers(len);
        let sequential = x.iter().fold(0u64, |a, b| a.wrapping_add(*b));
        assert_eq!(f64_xany_avx2_nofma_sum_horizontal(&x, 0, wrapping), sequential, "length {len}");
    }
    let x = sample_integers(768);
    let sequential = x.iter().fold(0u64, |a, b| a.wrapping_add(*b));
    assert_eq!(f64_xconst_avx2_nofma_sum_horizontal::<u64, _, 768>(&x, 0, wrapping), sequential);
}

#[test]
fn fixed_and_any_length_agree_on_whole_blocks() {
    let x = sample_doubles(512);
    let fixed = f64_xconst_avx2_nofma_sum_horizontal::<f64, _, 512>(&x, 0.0, |a, b| a + b);
    let any = f64_xany_avx2_nofma_sum_horizontal(&x, 0.0, |a, b| a + b);
    assert_eq!(fixed.to_bits(), any.to_bits());
}

#[test]
fn integral_doubles_sum_exactly() {
    let x: Vec<f64> = (1..=131).map(|v| v as f64).collect();
    let r = f64_xany_avx2_nofma_sum_horizontal(&x, 0.0, |a, b| a + b);
    assert_eq!(r, 8646.0);
}

#[test]
fn columns_are_summed_row_after_row() {
    // Three rows of 37 columns: one block, one group of four, one column
    // more. Every column but the last is ((0 a) b) c.
    let dims = 37;
    let matrix: Vec<u64> = (0..3 * dims as u64).map(|v| v % 9 + 1).collect();
    let mut output = vec![7u64; dims];
    f64_xany_avx2_nofma_sum_vertical(&matrix, &mut output, 0, shift);
    for col in 0..dims {
        let start = if col < 36 { 0 } else { 7 };
        let first = shift(start, matrix[col]);
        let second = shift(first, matrix[dims + col]);
        let expected = shift(second, matrix[2 * dims + col]);
        assert_eq!(output[col], expected, "column {col}");
    }
}

#[test]
fn last_columns_are_added_onto_the_buffer() {
    let matrix: Vec<u64> = vec![1, 2, 3, 4, 5, 6, 7, 8, 9, 10];
    let mut output = vec![100u64; 5];
    f64_xany_avx2_nofma_sum_vertical(&matrix, &mut output, 0, wrapping);
    assert_eq!(output, vec![7, 9, 11, 13, 115]);

    let matrix: Vec<u64> = vec![1, 2, 3, 4, 5, 6];
    let mut output = vec![10u64, 0, 0];
    f64_xany_avx2_nofma_sum_vertical(&matrix, &mut output, 0, wrapping);
    assert_eq!(output, vec![15, 7, 9]);
}

#[test]
fn whole_blocks_of_columns_are_overwritten() {
    let dims = 64;
    let matrix: Vec<u64> = sample_integers(4 * dims);
    let mut expected = vec![0u64; dims];
    for row in 0..4 {
        for col in 0..dims {
            expected[col] = shift(expected[col], matrix[row * dims + col]);
        }
    }
    let mut fixed = vec![99u64; dims];
    f64_xconst_avx2_nofma_sum_vertical::<u64, _, 64>(&matrix, &mut fixed, 0, shift);
    assert_eq!(fixed, expected);
    let mut any = vec![99u64; dims];
    f64_xany_avx2_nofma_sum_vertical(&matrix, &mut any, 0, shift);
    assert_eq!(any, expected);
}

#[test]
fn every_row_length_gives_the_column_sums() {
    for dims in 1..=70 {
        for rows in [0usize, 1, 2, 5] {
            let matrix = sample_integers(rows * dims);
            let mut expected = vec![0u64; dims];
            for row in 0..rows {
                for col in 0..dims {
                    expected[col] = shift(expected[col], matrix[row * dims + col]);
                }
            }
            let mut output = vec![0u64; dims];
            f64_xany_avx2_nofma_sum_vertical(&matrix, &mut output, 0, shift);
            assert_eq!(output, expected, "{rows} rows of {dims}");
        }
    }
}
