//! The mathematical model: which elements each lane accumulates, and how the
//! lanes are combined.
use vstd::prelude::*;

verus! {

/// Every `stride`-th element of `x` from index `first` on, `count` of them.
pub open spec fn strided<T>(x: Seq<T>, first: int, stride: int, count: int) -> Seq<T> {
    Seq::new(count as nat, |i: int| x[first + i * stride])
}

/// What one lane holds that started at `init` and took up, one after the
/// other, the elements `strided(x, first, stride, count)`.
pub open spec fn lane_sum<T>(
    op: spec_fn(T, T) -> T,
    init: T,
    x: Seq<T>,
    first: int,
    stride: int,
    count: int,
) -> T {
    strided(x, first, stride, count).fold_left(init, op)
}

/// What a register holds that started at `init` and whose lane `l` took up
/// the elements `strided(x, first + l, stride, count)`.
pub open spec fn register_sum<T>(
    op: spec_fn(T, T) -> T,
    init: Seq<T>,
    x: Seq<T>,
    first: int,
    stride: int,
    count: int,
) -> Seq<T> {
    Seq::new(4, |l: int| lane_sum(op, init[l], x, first + l, stride, count))
}

/// A register with `zero` in each lane.
pub open spec fn zeros<T>(zero: T) -> Seq<T> {
    Seq::new(4, |l: int| zero)
}

/// Lane by lane, `a` combined with `b`.
pub open spec fn lanewise<T>(op: spec_fn(T, T) -> T, a: Seq<T>, b: Seq<T>) -> Seq<T> {
    Seq::new(4, |l: int| op(a[l], b[l]))
}

/// Eight registers combined into one as a tree: each with its neighbour, then
/// the four pairs two by two, then the two halves.
pub open spec fn rollup<T>(op: spec_fn(T, T) -> T, regs: Seq<Seq<T>>) -> Seq<T> {
    lanewise(
        op,
        lanewise(op, lanewise(op, regs[0], regs[1]), lanewise(op, regs[2], regs[3])),
        lanewise(op, lanewise(op, regs[4], regs[5]), lanewise(op, regs[6], regs[7])),
    )
}

/// The four lanes of a register combined into one value: the upper half onto
/// the lower half, then the two lanes that remain.
pub open spec fn across<T>(op: spec_fn(T, T) -> T, v: Seq<T>) -> T {
    op(op(v[0], v[2]), op(v[1], v[3]))
}

/// The eight registers when `blocks` blocks of 32 and then `groups` groups
/// of four have been taken up. Lane `l` of register `j` holds the elements at
/// `4 * j + l` of each block; the first register then takes up the groups,
/// lane `l` the element at `l` of each.
pub open spec fn registers_after<T>(
    op: spec_fn(T, T) -> T,
    zero: T,
    x: Seq<T>,
    blocks: int,
    groups: int,
) -> Seq<Seq<T>> {
    Seq::new(
        8,
        |j: int|
            {
                let whole = register_sum(op, zeros(zero), x, 4 * j, 32, blocks);
                if j == 0 {
                    register_sum(op, whole, x, 32 * blocks, 4, groups)
                } else {
                    whole
                }
            },
    )
}

/// The eight registers of a horizontal sum when all of `x` but its last
/// `x.len() % 4` elements has been taken up: the whole blocks of 32, then
/// the groups of four that follow them.
pub open spec fn accumulators<T>(op: spec_fn(T, T) -> T, zero: T, x: Seq<T>) -> Seq<Seq<T>> {
    registers_after(op, zero, x, x.len() as int / 32, (x.len() as int % 32) / 4)
}

/// The elements of `s` summed one after the other, from `zero` on.
pub open spec fn sequential_sum<T>(op: spec_fn(T, T) -> T, zero: T, s: Seq<T>) -> T {
    s.fold_left(zero, op)
}

/// The last `x.len() % 4` elements of `x`, summed from `zero` on.
pub open spec fn carry<T>(op: spec_fn(T, T) -> T, zero: T, x: Seq<T>) -> T {
    sequential_sum(op, zero, x.subrange(x.len() - x.len() % 4, x.len() as int))
}

/// The eight registers rolled up, and the lanes of the result combined.
pub open spec fn rolled_up<T>(op: spec_fn(T, T) -> T, zero: T, x: Seq<T>) -> T {
    across(op, rollup(op, accumulators(op, zero, x)))
}

/// The sum of `x` in the grouping of the horizontal kernel for any length:
/// the carry, combined with what the registers hold.
pub open spec fn horizontal_sum<T>(op: spec_fn(T, T) -> T, zero: T, x: Seq<T>) -> T {
    op(carry(op, zero, x), rolled_up(op, zero, x))
}

/// Whether `len` elements are a whole number of rows of `dims` elements.
pub open spec fn is_whole_rows(len: int, dims: int) -> bool {
    dims > 0 ==> len % dims == 0
}

/// Rows of a matrix of `len` elements in rows of `dims`.
pub open spec fn rows_of(len: int, dims: int) -> int {
    if dims > 0 {
        len / dims
    } else {
        0
    }
}

/// Column `col` of a row-major matrix with rows of `dims` elements, from the
/// first row to the last.
pub open spec fn column<T>(matrix: Seq<T>, dims: int, col: int) -> Seq<T> {
    strided(matrix, col, dims, rows_of(matrix.len() as int, dims))
}

/// Column `col` summed row after row, from `init` on.
pub open spec fn column_sum<T>(
    op: spec_fn(T, T) -> T,
    init: T,
    matrix: Seq<T>,
    dims: int,
    col: int,
) -> T {
    column(matrix, dims, col).fold_left(init, op)
}

/// Each of the `dims` columns summed row after row, from `zero` on.
pub open spec fn column_sums<T>(
    op: spec_fn(T, T) -> T,
    zero: T,
    matrix: Seq<T>,
    dims: int,
) -> Seq<T> {
    Seq::new(dims as nat, |col: int| column_sum(op, zero, matrix, dims, col))
}

/// The columns summed into a buffer that held `before`: all columns start at
/// `zero` but the last `before.len() % 4`, which start at what the buffer
/// held.
pub open spec fn vertical_sum<T>(
    op: spec_fn(T, T) -> T,
    zero: T,
    matrix: Seq<T>,
    before: Seq<T>,
) -> Seq<T> {
    let dims = before.len() as int;
    Seq::new(
        before.len(),
        |col: int|
            column_sum(
                op,
                if col < dims - dims % 4 {
                    zero
                } else {
                    before[col]
                },
                matrix,
                dims,
                col,
            ),
    )
}

} // verus!
