//! Steps of the kernels' proofs: what one more block, group or row adds to
//! what the registers hold.
use crate::model::{
    lane_sum,
    lanewise,
    register_sum,
    registers_after,
    rows_of,
    strided,
    vertical_sum,
    zeros,
};
use vstd::prelude::*;

verus! {

/// A register that takes up nothing holds what it held.
pub proof fn lemma_register_sum_none<T>(
    op: spec_fn(T, T) -> T,
    init: Seq<T>,
    x: Seq<T>,
    first: int,
    stride: int,
)
    requires
        init.len() == 4,
    ensures
        register_sum(op, init, x, first, stride, 0) == init,
{
}

/// Taking up one more element in each lane of a register adds, lane by
/// lane, the four elements that follow the ones taken up last.
pub proof fn lemma_register_sum_step<T>(
    op: spec_fn(T, T) -> T,
    init: Seq<T>,
    x: Seq<T>,
    first: int,
    stride: int,
    count: int,
)
    requires
        0 <= count,
        0 <= first + count * stride,
        first + count * stride + 4 <= x.len(),
    ensures
        register_sum(op, init, x, first, stride, count + 1) == lanewise(
            op,
            register_sum(op, init, x, first, stride, count),
            x.subrange(first + count * stride, first + count * stride + 4),
        ),
{
    assert forall|l: int| 0 <= l < 4 implies lane_sum(op, init[l], x, first + l, stride, count + 1)
        == op(
        lane_sum(op, init[l], x, first + l, stride, count),
        x[first + count * stride + l],
    ) by {
        lemma_lane_sum_step(op, init[l], x, first + l, stride, count);
    }
}

/// Taking up one more element in a lane adds the element that follows the
/// one taken up last.
pub proof fn lemma_lane_sum_step<T>(
    op: spec_fn(T, T) -> T,
    init: T,
    x: Seq<T>,
    first: int,
    stride: int,
    count: int,
)
    requires
        0 <= count,
    ensures
        lane_sum(op, init, x, first, stride, count + 1) == op(
            lane_sum(op, init, x, first, stride, count),
            x[first + count * stride],
        ),
{
    let longer = strided(x, first, stride, count + 1);
    assert(longer.drop_last() =~= strided(x, first, stride, count));
}

/// Whether eight registers hold what they hold when they started at `zero`
/// and lane `l` of register `j` took up the elements
/// `strided(x, first + 4 * j + l, stride, count)`.
pub open spec fn holds_strided<T>(
    op: spec_fn(T, T) -> T,
    zero: T,
    x: Seq<T>,
    first: int,
    stride: int,
    count: int,
    regs: Seq<Seq<T>>,
) -> bool {
    forall|j: int|
        0 <= j < 8 ==> #[trigger] regs[j] == register_sum(
            op,
            zeros(zero),
            x,
            first + 4 * j,
            stride,
            count,
        )
}

/// Registers that hold `zero` hold what they hold when nothing is taken up.
pub proof fn lemma_holds_none<T>(
    op: spec_fn(T, T) -> T,
    zero: T,
    x: Seq<T>,
    first: int,
    stride: int,
    regs: Seq<Seq<T>>,
)
    requires
        forall|j: int| 0 <= j < 8 ==> #[trigger] regs[j] == zeros(zero),
    ensures
        holds_strided(op, zero, x, first, stride, 0, regs),
{
    assert forall|j: int| 0 <= j < 8 implies #[trigger] regs[j] == register_sum(
        op,
        zeros(zero),
        x,
        first + 4 * j,
        stride,
        0,
    ) by {
        lemma_register_sum_none(op, zeros(zero), x, first + 4 * j, stride);
    }
}

/// Adding, lane by lane, the 32 elements that follow the ones taken up last
/// gives what the registers hold when each lane has taken up one element
/// more.
pub proof fn lemma_holds_next<T>(
    op: spec_fn(T, T) -> T,
    zero: T,
    x: Seq<T>,
    first: int,
    stride: int,
    count: int,
    regs: Seq<Seq<T>>,
    next: Seq<Seq<T>>,
)
    requires
        0 <= count,
        0 <= first + count * stride,
        first + count * stride + 32 <= x.len(),
        holds_strided(op, zero, x, first, stride, count, regs),
        forall|j: int|
            0 <= j < 8 ==> #[trigger] next[j] == lanewise(
                op,
                regs[j],
                x.subrange(first + count * stride + 4 * j, first + count * stride + 4 * j + 4),
            ),
    ensures
        holds_strided(op, zero, x, first, stride, count + 1, next),
{
    assert forall|j: int| 0 <= j < 8 implies #[trigger] next[j] == register_sum(
        op,
        zeros(zero),
        x,
        first + 4 * j,
        stride,
        count + 1,
    ) by {
        lemma_register_sum_step(op, zeros(zero), x, first + 4 * j, stride, count);
    }
}

/// Registers that held what `blocks` blocks give, and of which the first
/// then took up `groups` groups of four, are the registers after both.
pub proof fn lemma_registers_after<T>(
    op: spec_fn(T, T) -> T,
    zero: T,
    x: Seq<T>,
    blocks: int,
    groups: int,
    whole: Seq<Seq<T>>,
    regs: Seq<Seq<T>>,
)
    requires
        regs.len() == 8,
        holds_strided(op, zero, x, 0, 32, blocks, whole),
        regs[0] == register_sum(op, whole[0], x, 32 * blocks, 4, groups),
        forall|j: int| 1 <= j < 8 ==> #[trigger] regs[j] == whole[j],
    ensures
        registers_after(op, zero, x, blocks, groups) == regs,
{
    assert(registers_after(op, zero, x, blocks, groups) =~= regs);
}

/// A matrix of whole rows has `rows_of` rows.
pub proof fn lemma_rows(len: int, dims: int)
    requires
        0 <= len,
        0 < dims,
        len % dims == 0,
    ensures
        len == rows_of(len, dims) * dims,
        0 <= rows_of(len, dims),
{
    vstd::arithmetic::div_mod::lemma_fundamental_div_mod(len, dims);
    vstd::arithmetic::div_mod::lemma_div_pos_is_pos(len, dims);
    assert(dims * (len / dims) == (len / dims) * dims) by (nonlinear_arith);
}

/// The row that starts at `row * dims` lies in a matrix of `rows` rows
/// wherever it starts before the matrix ends.
pub proof fn lemma_row_fits(row: int, rows: int, dims: int)
    requires
        0 <= row,
        0 < dims,
        row * dims < rows * dims,
    ensures
        (row + 1) * dims <= rows * dims,
        (row + 1) * dims == row * dims + dims,
        row < rows,
{
    assert(row < rows) by (nonlinear_arith)
        requires
            row * dims < rows * dims,
            0 < dims,
    ;
    assert((row + 1) * dims <= rows * dims) by (nonlinear_arith)
        requires
            row + 1 <= rows,
            0 < dims,
    ;
    assert((row + 1) * dims == row * dims + dims) by (nonlinear_arith);
}

/// No whole number of rows but `rows` itself ends where the matrix ends.
pub proof fn lemma_last_row(row: int, rows: int, dims: int)
    requires
        0 < dims,
        row * dims == rows * dims,
    ensures
        row == rows,
{
    assert(row == rows) by (nonlinear_arith)
        requires
            row * dims == rows * dims,
            0 < dims,
    ;
}

/// Whether the first `done` slots of `output` hold what the vertical kernel
/// for any row length leaves in them, for a buffer that held `before`.
pub open spec fn holds_columns<T>(
    op: spec_fn(T, T) -> T,
    zero: T,
    matrix: Seq<T>,
    before: Seq<T>,
    done: int,
    output: Seq<T>,
) -> bool {
    forall|col: int|
        0 <= col < done ==> #[trigger] output[col] == vertical_sum(op, zero, matrix, before)[col]
}

/// How a length splits into whole blocks of 32, groups of four and single
/// elements.
pub proof fn lemma_tiers(len: int)
    requires
        0 <= len,
    ensures
        (len % 32) % 4 == len % 4,
        0 <= len / 32,
        0 <= (len % 32) / 4,
        len - len % 32 == 32 * (len / 32),
        len - len % 4 == 32 * (len / 32) + 4 * ((len % 32) / 4),
{
    let blocks = len / 32;
    let rest = len % 32;
    let groups = rest / 4;
    let short = rest % 4;
    vstd::arithmetic::div_mod::lemma_fundamental_div_mod_converse(
        len,
        4,
        8 * blocks + groups,
        short,
    );
}

} // verus!
