//! Vertical reduction: the rows of a matrix to one row of column sums.
use crate::lanes::{add_pd, loadu_pd, setzero_pd, storeu_pd, sum_x64_block};
use crate::model::{
    column_sum,
    column_sums,
    is_whole_rows,
    lane_sum,
    register_sum,
    rows_of,
    vertical_sum,
    zeros,
};
use crate::operator::{accepts_all, apply, computes};
use crate::steps::{
    holds_columns,
    holds_strided,
    lemma_holds_next,
    lemma_holds_none,
    lemma_lane_sum_step,
    lemma_last_row,
    lemma_register_sum_none,
    lemma_register_sum_step,
    lemma_row_fits,
    lemma_rows,
    lemma_tiers,
};
use vstd::prelude::*;

verus! {

/// Sums the 32 columns from `i` on over all rows of `matrix`, and writes the
/// sums to `output[i..i + 32]`.
///
/// Eight registers start at `zero` and take up, row after row, the 32
/// elements of the row from column `i` on; each lane then holds the sum of
/// one column.
pub fn sum_vertical_component<T: Copy, F: Fn(T, T) -> T>(
    i: usize,
    matrix: &[T],
    output: &mut [T],
    dims: usize,
    zero: T,
    plus: &F,
)
    requires
        accepts_all(*plus),
        old(output).len() == dims,
        i + 32 <= dims,
        is_whole_rows(matrix.len() as int, dims as int),
    ensures
        final(output).len() == dims,
        forall|col: int|
            0 <= col < i || i + 32 <= col < dims ==> #[trigger] final(output)[col] == old(
                output,
            )[col],
        forall|op: spec_fn(T, T) -> T| #[trigger]
            computes(*plus, op) ==> forall|col: int|
                i <= col < i + 32 ==> #[trigger] final(output)[col] == column_sum(
                    op,
                    zero,
                    matrix@,
                    dims as int,
                    col,
                ),
{
    let matrix_len = matrix.len();

    let mut acc1 = setzero_pd(zero);
    let mut acc2 = setzero_pd(zero);
    let mut acc3 = setzero_pd(zero);
    let mut acc4 = setzero_pd(zero);
    let mut acc5 = setzero_pd(zero);
    let mut acc6 = setzero_pd(zero);
    let mut acc7 = setzero_pd(zero);
    let mut acc8 = setzero_pd(zero);

    let ghost rows = rows_of(matrix_len as int, dims as int);
    let ghost mut row: int = 0;
    proof {
        lemma_rows(matrix_len as int, dims as int);
        assert forall|op: spec_fn(T, T) -> T| #[trigger] computes(*plus, op) implies holds_strided(
            op,
            zero,
            matrix@,
            i as int,
            dims as int,
            0,
            seq![acc1@, acc2@, acc3@, acc4@, acc5@, acc6@, acc7@, acc8@],
        ) by {
            lemma_holds_none(
                op,
                zero,
                matrix@,
                i as int,
                dims as int,
                seq![acc1@, acc2@, acc3@, acc4@, acc5@, acc6@, acc7@, acc8@],
            );
        }
    }

    let mut j: usize = 0;
    while j < matrix_len
        invariant
            accepts_all(*plus),
            matrix_len == matrix.len(),
            matrix_len == rows * dims,
            i + 32 <= dims,
            0 <= row,
            j == row * dims,
            j <= matrix_len,
            forall|op: spec_fn(T, T) -> T| #[trigger]
                computes(*plus, op) ==> holds_strided(
                    op,
                    zero,
                    matrix@,
                    i as int,
                    dims as int,
                    row,
                    seq![acc1@, acc2@, acc3@, acc4@, acc5@, acc6@, acc7@, acc8@],
                ),
        decreases matrix_len - j,
    {
        let ghost regs = seq![acc1@, acc2@, acc3@, acc4@, acc5@, acc6@, acc7@, acc8@];
        proof {
            lemma_row_fits(row, rows, dims as int);
        }
        sum_x64_block(
            matrix,
            j + i,
            &mut acc1,
            &mut acc2,
            &mut acc3,
            &mut acc4,
            &mut acc5,
            &mut acc6,
            &mut acc7,
            &mut acc8,
            plus,
        );
        proof {
            let next = seq![acc1@, acc2@, acc3@, acc4@, acc5@, acc6@, acc7@, acc8@];
            assert forall|op: spec_fn(T, T) -> T| #[trigger]
                computes(*plus, op) implies holds_strided(
                op,
                zero,
                matrix@,
                i as int,
                dims as int,
                row + 1,
                next,
            ) by {
                lemma_holds_next(op, zero, matrix@, i as int, dims as int, row, regs, next);
            }
            row = row + 1;
        }

        j += dims;
    }
    proof {
        lemma_last_row(row, rows, dims as int);
    }

    storeu_pd(output, i, &acc1);
    storeu_pd(output, i + 4, &acc2);
    storeu_pd(output, i + 8, &acc3);
    storeu_pd(output, i + 12, &acc4);
    storeu_pd(output, i + 16, &acc5);
    storeu_pd(output, i + 20, &acc6);
    storeu_pd(output, i + 24, &acc7);
    storeu_pd(output, i + 28, &acc8);

    proof {
        let regs = seq![acc1@, acc2@, acc3@, acc4@, acc5@, acc6@, acc7@, acc8@];
        assert forall|op: spec_fn(T, T) -> T| #[trigger] computes(*plus, op) implies forall|
            col: int,
        |
            i <= col < i + 32 ==> #[trigger] output[col] == column_sum(
                op,
                zero,
                matrix@,
                dims as int,
                col,
            ) by {
            assert forall|col: int| i <= col < i + 32 implies #[trigger] output[col] == column_sum(
                op,
                zero,
                matrix@,
                dims as int,
                col,
            ) by {
                let j = (col - i) / 4;
                let l = (col - i) % 4;
                assert(output[col] == regs[j][l]);
                assert(regs[j] == register_sum(
                    op,
                    zeros(zero),
                    matrix@,
                    i + 4 * j,
                    dims as int,
                    rows,
                ));
            }
        }
    }
}

/// Sums each of the `DIMS` columns of `matrix` over its rows into `output`,
/// where `DIMS` is a whole number of blocks of 32.
///
/// Each column is summed row after row from `zero` on, and each slot of
/// `output` is overwritten with the sum of its column. The result is stated
/// for every function `op` that `plus` computes.
pub fn f64_xconst_avx2_nofma_sum_vertical<T: Copy, F: Fn(T, T) -> T, const DIMS: usize>(
    matrix: &[T],
    output: &mut [T],
    zero: T,
    plus: F,
)
    requires
        accepts_all(plus),
        DIMS % 32 == 0,
        is_whole_rows(matrix.len() as int, DIMS as int),
        old(output).len() == DIMS,
    ensures
        final(output).len() == DIMS,
        forall|op: spec_fn(T, T) -> T| #[trigger]
            computes(plus, op) ==> final(output)@ == column_sums(op, zero, matrix@, DIMS as int),
{
    let mut i: usize = 0;
    while i < DIMS
        invariant
            accepts_all(plus),
            DIMS % 32 == 0,
            is_whole_rows(matrix.len() as int, DIMS as int),
            output.len() == DIMS,
            i % 32 == 0,
            i <= DIMS,
            forall|op: spec_fn(T, T) -> T| #[trigger]
                computes(plus, op) ==> forall|col: int|
                    0 <= col < i ==> #[trigger] output[col] == column_sum(
                        op,
                        zero,
                        matrix@,
                        DIMS as int,
                        col,
                    ),
        decreases DIMS - i,
    {
        sum_vertical_component(i, matrix, output, DIMS, zero, &plus);

        i += 32;
    }
}

/// Sums the four columns from `i` on over all rows of `matrix`, and writes
/// the sums to `output[i..i + 4]`.
///
/// One register starts at `zero` and takes up, row after row, the four
/// elements of the row from column `i` on.
pub fn sum_vertical_group<T: Copy, F: Fn(T, T) -> T>(
    i: usize,
    matrix: &[T],
    output: &mut [T],
    dims: usize,
    zero: T,
    plus: &F,
)
    requires
        accepts_all(*plus),
        old(output).len() == dims,
        i + 4 <= dims,
        is_whole_rows(matrix.len() as int, dims as int),
    ensures
        final(output).len() == dims,
        forall|col: int|
            0 <= col < i || i + 4 <= col < dims ==> #[trigger] final(output)[col] == old(
                output,
            )[col],
        forall|op: spec_fn(T, T) -> T| #[trigger]
            computes(*plus, op) ==> forall|col: int|
                i <= col < i + 4 ==> #[trigger] final(output)[col] == column_sum(
                    op,
                    zero,
                    matrix@,
                    dims as int,
                    col,
                ),
{
    let matrix_len = matrix.len();

    let mut acc = setzero_pd(zero);

    let ghost rows = rows_of(matrix_len as int, dims as int);
    let ghost mut row: int = 0;
    proof {
        lemma_rows(matrix_len as int, dims as int);
        assert forall|op: spec_fn(T, T) -> T| #[trigger] computes(*plus, op) implies acc@
            == register_sum(op, zeros(zero), matrix@, i as int, dims as int, 0) by {
            lemma_register_sum_none(op, zeros(zero), matrix@, i as int, dims as int);
        }
    }

    let mut j: usize = 0;
    while j < matrix_len
        invariant
            accepts_all(*plus),
            matrix_len == matrix.len(),
            matrix_len == rows * dims,
            i + 4 <= dims,
            0 <= row,
            j == row * dims,
            j <= matrix_len,
            forall|op: spec_fn(T, T) -> T| #[trigger]
                computes(*plus, op) ==> acc@ == register_sum(
                    op,
                    zeros(zero),
                    matrix@,
                    i as int,
                    dims as int,
                    row,
                ),
        decreases matrix_len - j,
    {
        proof {
            lemma_row_fits(row, rows, dims as int);
        }
        let x = loadu_pd(matrix, j + i);
        acc = add_pd(&acc, &x, plus);
        proof {
            assert forall|op: spec_fn(T, T) -> T| #[trigger] computes(*plus, op) implies acc@
                == register_sum(op, zeros(zero), matrix@, i as int, dims as int, row + 1) by {
                lemma_register_sum_step(op, zeros(zero), matrix@, i as int, dims as int, row);
            }
            row = row + 1;
        }

        j += dims;
    }
    proof {
        lemma_last_row(row, rows, dims as int);
    }

    storeu_pd(output, i, &acc);

}

/// Adds column `i` of `matrix`, row after row, onto what `output[i]` holds.
pub fn sum_vertical_single<T: Copy, F: Fn(T, T) -> T>(
    i: usize,
    matrix: &[T],
    output: &mut [T],
    dims: usize,
    plus: &F,
)
    requires
        accepts_all(*plus),
        old(output).len() == dims,
        i < dims,
        is_whole_rows(matrix.len() as int, dims as int),
    ensures
        final(output).len() == dims,
        forall|col: int|
            0 <= col < dims && col != i ==> #[trigger] final(output)[col] == old(output)[col],
        forall|op: spec_fn(T, T) -> T| #[trigger]
            computes(*plus, op) ==> final(output)[i as int] == column_sum(
                op,
                old(output)[i as int],
                matrix@,
                dims as int,
                i as int,
            ),
{
    let matrix_len = matrix.len();

    let ghost before = output@;
    let ghost rows = rows_of(matrix_len as int, dims as int);
    let ghost mut row: int = 0;
    proof {
        lemma_rows(matrix_len as int, dims as int);
    }

    let mut j: usize = 0;
    while j < matrix_len
        invariant
            accepts_all(*plus),
            matrix_len == matrix.len(),
            matrix_len == rows * dims,
            output.len() == dims,
            before.len() == dims,
            i < dims,
            0 <= row,
            j == row * dims,
            j <= matrix_len,
            forall|op: spec_fn(T, T) -> T| #[trigger]
                computes(*plus, op) ==> output[i as int] == lane_sum(
                    op,
                    before[i as int],
                    matrix@,
                    i as int,
                    dims as int,
                    row,
                ),
            forall|col: int| 0 <= col < dims && col != i ==> #[trigger] output[col] == before[col],
        decreases matrix_len - j,
    {
        proof {
            lemma_row_fits(row, rows, dims as int);
        }
        output[i] = apply(plus, output[i], matrix[j + i]);
        proof {
            assert forall|op: spec_fn(T, T) -> T| #[trigger]
                computes(*plus, op) implies output[i as int] == lane_sum(
                op,
                before[i as int],
                matrix@,
                i as int,
                dims as int,
                row + 1,
            ) by {
                lemma_lane_sum_step(op, before[i as int], matrix@, i as int, dims as int, row);
            }
            row = row + 1;
        }

        j += dims;
    }
    proof {
        lemma_last_row(row, rows, dims as int);
    }
}

/// Sums each column of `matrix` over its rows into `output`, whose length is
/// the length of a row.
///
/// The whole blocks of 32 columns are summed as in the kernel for a fixed
/// length, and the groups of four columns that follow in one register each:
/// these slots of `output` are overwritten with the sum of their column from
/// `zero` on. The last `output.len() % 4` columns are added, row after row,
/// onto what their slots held: they hold the sum of their column only where
/// they held `zero` before the call. The result is stated for every function
/// `op` that `plus` computes.
pub fn f64_xany_avx2_nofma_sum_vertical<T: Copy, F: Fn(T, T) -> T>(
    matrix: &[T],
    output: &mut [T],
    zero: T,
    plus: F,
)
    requires
        accepts_all(plus),
        is_whole_rows(matrix.len() as int, old(output).len() as int),
    ensures
        final(output).len() == old(output).len(),
        forall|op: spec_fn(T, T) -> T| #[trigger]
            computes(plus, op) ==> final(output)@ == vertical_sum(
                op,
                zero,
                matrix@,
                old(output)@,
            ),
{
    let dims = output.len();
    let offset_from = dims % 32;

    let ghost before = output@;
    let ghost blocks = dims as int / 32;
    let ghost groups = offset_from as int / 4;
    let ghost short = dims as int % 4;
    let ghost mut done: int = 0;
    let ghost mut taken: int = 0;
    proof {
        lemma_tiers(dims as int);
    }

    let mut i: usize = 0;
    while i < (dims - offset_from)
        invariant
            accepts_all(plus),
            is_whole_rows(matrix.len() as int, dims as int),
            output.len() == dims,
            before.len() == dims,
            dims - offset_from == 32 * blocks,
            offset_from <= dims,
            i == 32 * done,
            i <= dims - offset_from,
            short == dims % 4,
            forall|op: spec_fn(T, T) -> T| #[trigger]
                computes(plus, op) ==> holds_columns(op, zero, matrix@, before, i as int, output@),
            forall|col: int| i <= col < dims ==> #[trigger] output[col] == before[col],
        decreases dims - i,
    {
        sum_vertical_component(i, matrix, output, dims, zero, &plus);
        proof {
            done = done + 1;
        }

        i += 32;
    }

    if offset_from != 0 {
        let tail = offset_from % 4;

        while i < (dims - tail)
            invariant
                accepts_all(plus),
                is_whole_rows(matrix.len() as int, dims as int),
                output.len() == dims,
                before.len() == dims,
                tail == short,
                short == dims % 4,
                tail <= dims,
                dims - tail == 32 * blocks + 4 * groups,
                i == 32 * blocks + 4 * taken,
                i <= dims - tail,
                forall|op: spec_fn(T, T) -> T| #[trigger]
                    computes(plus, op) ==> holds_columns(
                        op,
                        zero,
                        matrix@,
                        before,
                        i as int,
                        output@,
                    ),
                forall|col: int| i <= col < dims ==> #[trigger] output[col] == before[col],
            decreases dims - i,
        {
            sum_vertical_group(i, matrix, output, dims, zero, &plus);
            proof {
                taken = taken + 1;
            }

            i += 4;
        }

        while i < dims
            invariant
                accepts_all(plus),
                is_whole_rows(matrix.len() as int, dims as int),
                output.len() == dims,
                before.len() == dims,
                tail == short,
                short == dims % 4,
                dims - tail <= i <= dims,
                forall|op: spec_fn(T, T) -> T| #[trigger]
                    computes(plus, op) ==> holds_columns(
                        op,
                        zero,
                        matrix@,
                        before,
                        i as int,
                        output@,
                    ),
                forall|col: int| i <= col < dims ==> #[trigger] output[col] == before[col],
            decreases dims - i,
        {
            sum_vertical_single(i, matrix, output, dims, &plus);

            i += 1;
        }
    }
}

} // verus!
