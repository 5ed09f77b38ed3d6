//! How a bad value reaches the result, where the operation gives a bad value
//! whenever one of its arguments is bad: so it is with the values that are
//! no numbers, under an addition that gives no number whenever one of its
//! arguments is none.
use crate::model::{
    accumulators,
    across,
    carry,
    column,
    column_sum,
    column_sums,
    horizontal_sum,
    lane_sum,
    lanewise,
    register_sum,
    rolled_up,
    rollup,
    rows_of,
    strided,
    vertical_sum,
    zeros,
};
use crate::steps::lemma_tiers;
use vstd::prelude::*;

verus! {

/// Whether `op` hands `bad` on: its result is bad whenever one of its
/// arguments is.
#[verifier::opaque]
pub open spec fn hands_on<T>(op: spec_fn(T, T) -> T, bad: spec_fn(T) -> bool) -> bool {
    forall|a: T, b: T| bad(a) || bad(b) ==> #[trigger] bad(op(a, b))
}

/// One instance of handing on.
proof fn lemma_handed_on<T>(op: spec_fn(T, T) -> T, bad: spec_fn(T) -> bool, a: T, b: T)
    requires
        hands_on(op, bad),
        bad(a) || bad(b),
    ensures
        bad(op(a, b)),
{
    reveal(hands_on);
}

/// A sum that starts at a bad value, or takes one up, is bad.
proof fn lemma_fold_hands_on<T>(
    op: spec_fn(T, T) -> T,
    bad: spec_fn(T) -> bool,
    init: T,
    s: Seq<T>,
    k: int,
)
    requires
        hands_on(op, bad),
        bad(init) || (0 <= k < s.len() && bad(s[k])),
    ensures
        bad(s.fold_left(init, op)),
    decreases s.len(),
{
    if s.len() > 0 {
        if bad(init) || k < s.len() - 1 {
            lemma_fold_hands_on(op, bad, init, s.drop_last(), k);
        }
        lemma_handed_on(op, bad, s.drop_last().fold_left(init, op), s.last());
    }
}

/// A lane that starts at a bad value, or takes one up, holds one.
proof fn lemma_lane_hands_on<T>(
    op: spec_fn(T, T) -> T,
    bad: spec_fn(T) -> bool,
    init: T,
    x: Seq<T>,
    first: int,
    stride: int,
    count: int,
    k: int,
)
    requires
        hands_on(op, bad),
        bad(init) || (0 <= k < count && bad(x[first + k * stride])),
    ensures
        bad(lane_sum(op, init, x, first, stride, count)),
{
    lemma_fold_hands_on(op, bad, init, strided(x, first, stride, count), k);
}

/// A bad lane in one of two registers gives a bad lane in what they combine
/// into.
proof fn lemma_lanewise_hands_on<T>(
    op: spec_fn(T, T) -> T,
    bad: spec_fn(T) -> bool,
    a: Seq<T>,
    b: Seq<T>,
    l: int,
)
    requires
        hands_on(op, bad),
        0 <= l < 4,
        bad(a[l]) || bad(b[l]),
    ensures
        bad(lanewise(op, a, b)[l]),
{
    lemma_handed_on(op, bad, a[l], b[l]);
}

/// A bad lane in one of eight registers gives a bad value when the
/// registers are rolled up and the lanes combined.
proof fn lemma_rollup_hands_on<T>(
    op: spec_fn(T, T) -> T,
    bad: spec_fn(T) -> bool,
    regs: Seq<Seq<T>>,
    j: int,
    l: int,
)
    requires
        hands_on(op, bad),
        0 <= j < 8,
        0 <= l < 4,
        bad(regs[j][l]),
    ensures
        bad(across(op, rollup(op, regs))),
{
    let r01 = lanewise(op, regs[0], regs[1]);
    let r23 = lanewise(op, regs[2], regs[3]);
    let r45 = lanewise(op, regs[4], regs[5]);
    let r67 = lanewise(op, regs[6], regs[7]);
    let lower = lanewise(op, r01, r23);
    let upper = lanewise(op, r45, r67);
    let all = lanewise(op, lower, upper);
    if j < 4 {
        if j < 2 {
            lemma_lanewise_hands_on(op, bad, regs[0], regs[1], l);
        } else {
            lemma_lanewise_hands_on(op, bad, regs[2], regs[3], l);
        }
        lemma_lanewise_hands_on(op, bad, r01, r23, l);
    } else {
        if j < 6 {
            lemma_lanewise_hands_on(op, bad, regs[4], regs[5], l);
        } else {
            lemma_lanewise_hands_on(op, bad, regs[6], regs[7], l);
        }
        lemma_lanewise_hands_on(op, bad, r45, r67, l);
    }
    lemma_lanewise_hands_on(op, bad, lower, upper, l);
    if l == 0 || l == 2 {
        lemma_handed_on(op, bad, all[0], all[2]);
    } else {
        lemma_handed_on(op, bad, all[1], all[3]);
    }
    lemma_handed_on(op, bad, op(all[0], all[2]), op(all[1], all[3]));
}

/// A bad element among those that the registers take up gives a bad value
/// when the registers are rolled up and the lanes combined.
proof fn lemma_registers_hand_on<T>(
    op: spec_fn(T, T) -> T,
    bad: spec_fn(T) -> bool,
    zero: T,
    x: Seq<T>,
    i: int,
)
    requires
        hands_on(op, bad),
        0 <= i < x.len() - x.len() % 4,
        bad(x[i]),
    ensures
        bad(rolled_up(op, zero, x)),
{
    let len = x.len() as int;
    let blocks = len / 32;
    let groups = (len % 32) / 4;
    let regs = accumulators(op, zero, x);
    lemma_tiers(len);
    if i < 32 * blocks {
        let b = i / 32;
        let j = (i % 32) / 4;
        let l = i % 4;
        assert(i == 4 * j + l + b * 32);
        let whole = register_sum(op, zeros(zero), x, 4 * j, 32, blocks);
        lemma_lane_hands_on(op, bad, zero, x, 4 * j + l, 32, blocks, b);
        if j == 0 {
            lemma_lane_hands_on(op, bad, whole[l], x, 32 * blocks + l, 4, groups, 0);
        }
        lemma_rollup_hands_on(op, bad, regs, j, l);
    } else {
        let g = (i - 32 * blocks) / 4;
        let l = (i - 32 * blocks) % 4;
        assert(i == 32 * blocks + l + g * 4);
        let whole = register_sum(op, zeros(zero), x, 0, 32, blocks);
        lemma_lane_hands_on(op, bad, whole[l], x, 32 * blocks + l, 4, groups, g);
        lemma_rollup_hands_on(op, bad, regs, 0, l);
    }
}

/// Where the operation hands `bad` on, one bad element makes the result of
/// the horizontal kernel for any length bad.
pub proof fn lemma_horizontal_sum_hands_on<T>(
    op: spec_fn(T, T) -> T,
    bad: spec_fn(T) -> bool,
    zero: T,
    x: Seq<T>,
    i: int,
)
    requires
        hands_on(op, bad),
        0 <= i < x.len(),
        bad(x[i]),
    ensures
        bad(horizontal_sum(op, zero, x)),
{
    let len = x.len() as int;
    let short = len % 4;
    if i < len - short {
        lemma_registers_hand_on(op, bad, zero, x, i);
    } else {
        let last = x.subrange(len - short, len);
        lemma_fold_hands_on(op, bad, zero, last, i - (len - short));
    }
    lemma_handed_on(op, bad, carry(op, zero, x), rolled_up(op, zero, x));
}

/// Where the operation hands `bad` on, one bad element makes the result of
/// the horizontal kernel for whole blocks bad.
pub proof fn lemma_rolled_up_hands_on<T>(
    op: spec_fn(T, T) -> T,
    bad: spec_fn(T) -> bool,
    zero: T,
    x: Seq<T>,
    i: int,
)
    requires
        hands_on(op, bad),
        x.len() % 32 == 0,
        0 <= i < x.len(),
        bad(x[i]),
    ensures
        bad(rolled_up(op, zero, x)),
{
    lemma_registers_hand_on(op, bad, zero, x, i);
}

/// Where the operation hands `bad` on, one bad element in a column makes
/// the sum of that column bad, whatever the sum starts at.
pub proof fn lemma_column_sum_hands_on<T>(
    op: spec_fn(T, T) -> T,
    bad: spec_fn(T) -> bool,
    init: T,
    matrix: Seq<T>,
    dims: int,
    row: int,
    col: int,
)
    requires
        hands_on(op, bad),
        0 <= row < rows_of(matrix.len() as int, dims),
        bad(matrix[col + row * dims]),
    ensures
        bad(column_sum(op, init, matrix, dims, col)),
{
    lemma_fold_hands_on(op, bad, init, column(matrix, dims, col), row);
}

/// Where the operation hands `bad` on, one bad element in a column makes
/// the slot of that column bad in both vertical kernels.
pub proof fn lemma_vertical_sum_hands_on<T>(
    op: spec_fn(T, T) -> T,
    bad: spec_fn(T) -> bool,
    zero: T,
    matrix: Seq<T>,
    before: Seq<T>,
    row: int,
    col: int,
)
    requires
        hands_on(op, bad),
        0 <= col < before.len(),
        0 <= row < rows_of(matrix.len() as int, before.len() as int),
        bad(matrix[col + row * before.len()]),
    ensures
        bad(vertical_sum(op, zero, matrix, before)[col]),
        bad(column_sums(op, zero, matrix, before.len() as int)[col]),
{
    let dims = before.len() as int;
    lemma_column_sum_hands_on(op, bad, zero, matrix, dims, row, col);
    lemma_column_sum_hands_on(op, bad, before[col], matrix, dims, row, col);
}

} // verus!
