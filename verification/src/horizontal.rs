//! Horizontal reduction: one vector to one value.
use crate::lanes::{add_pd, loadu_pd, rollup_x8_pd, setzero_pd, sum_avx2_pd, sum_x64_block};
use crate::model::{horizontal_sum, register_sum, rolled_up, sequential_sum};
use crate::operator::{accepts_all, apply, computes};
use crate::steps::{
    holds_strided,
    lemma_holds_next,
    lemma_holds_none,
    lemma_register_sum_none,
    lemma_register_sum_step,
    lemma_registers_after,
    lemma_tiers,
};
use vstd::prelude::*;

verus! {

/// Sums the `DIMS` elements of `x`, a whole number of blocks of 32.
///
/// Eight registers of four lanes start at `zero`; lane `l` of register `j`
/// takes up, block after block, the element at `4 * j + l` of the block. The
/// registers are then rolled up and the four lanes of the result combined.
/// The result is stated for every function `op` that `plus` computes.
pub fn f64_xconst_avx2_nofma_sum_horizontal<T: Copy, F: Fn(T, T) -> T, const DIMS: usize>(
    x: &[T],
    zero: T,
    plus: F,
) -> (r: T)
    requires
        DIMS % 32 == 0,
        x.len() == DIMS,
        accepts_all(plus),
    ensures
        forall|op: spec_fn(T, T) -> T| #[trigger]
            computes(plus, op) ==> r == rolled_up(op, zero, x@),
{
    let mut acc1 = setzero_pd(zero);
    let mut acc2 = setzero_pd(zero);
    let mut acc3 = setzero_pd(zero);
    let mut acc4 = setzero_pd(zero);
    let mut acc5 = setzero_pd(zero);
    let mut acc6 = setzero_pd(zero);
    let mut acc7 = setzero_pd(zero);
    let mut acc8 = setzero_pd(zero);

    let ghost mut done: int = 0;
    proof {
        assert forall|op: spec_fn(T, T) -> T| #[trigger] computes(plus, op) implies holds_strided(
            op,
            zero,
            x@,
            0,
            32,
            0,
            seq![acc1@, acc2@, acc3@, acc4@, acc5@, acc6@, acc7@, acc8@],
        ) by {
            lemma_holds_none(
                op,
                zero,
                x@,
                0,
                32,
                seq![acc1@, acc2@, acc3@, acc4@, acc5@, acc6@, acc7@, acc8@],
            );
        }
    }

    let mut i: usize = 0;
    while i < DIMS
        invariant
            accepts_all(plus),
            DIMS % 32 == 0,
            x.len() == DIMS,
            i == 32 * done,
            i <= DIMS,
            forall|op: spec_fn(T, T) -> T| #[trigger]
                computes(plus, op) ==> holds_strided(
                    op,
                    zero,
                    x@,
                    0,
                    32,
                    done,
                    seq![acc1@, acc2@, acc3@, acc4@, acc5@, acc6@, acc7@, acc8@],
                ),
        decreases DIMS - i,
    {
        let ghost regs = seq![acc1@, acc2@, acc3@, acc4@, acc5@, acc6@, acc7@, acc8@];
        sum_x64_block(
            x,
            i,
            &mut acc1,
            &mut acc2,
            &mut acc3,
            &mut acc4,
            &mut acc5,
            &mut acc6,
            &mut acc7,
            &mut acc8,
            &plus,
        );
        proof {
            let next = seq![acc1@, acc2@, acc3@, acc4@, acc5@, acc6@, acc7@, acc8@];
            assert forall|op: spec_fn(T, T) -> T| #[trigger]
                computes(plus, op) implies holds_strided(op, zero, x@, 0, 32, done + 1, next) by {
                lemma_holds_next(op, zero, x@, 0, 32, done, regs, next);
            }
            done = done + 1;
        }

        i += 32;
    }

    let ghost regs = seq![acc1@, acc2@, acc3@, acc4@, acc5@, acc6@, acc7@, acc8@];
    let acc = rollup_x8_pd(acc1, acc2, acc3, acc4, acc5, acc6, acc7, acc8, &plus);
    let r = sum_avx2_pd(acc, &plus);
    proof {
        assert forall|op: spec_fn(T, T) -> T| #[trigger] computes(plus, op) implies r == rolled_up(
            op,
            zero,
            x@,
        ) by {
            lemma_register_sum_none(op, regs[0], x@, 32 * done, 4);
            lemma_registers_after(op, zero, x@, done, 0, regs, regs);
        }
    }
    r
}

/// Sums the elements of `x`, whatever its length.
///
/// The whole blocks of 32 go into eight registers as in the kernel for a
/// fixed length. Of what remains, each group of four goes into the first
/// register, and the last `x.len() % 4` elements are summed one by one into
/// a carry that starts at `zero`. The result is the carry combined with what
/// the rolled-up registers give; it is stated for every function `op` that
/// `plus` computes.
pub fn f64_xany_avx2_nofma_sum_horizontal<T: Copy, F: Fn(T, T) -> T>(
    x: &[T],
    zero: T,
    plus: F,
) -> (r: T)
    requires
        accepts_all(plus),
    ensures
        forall|op: spec_fn(T, T) -> T| #[trigger]
            computes(plus, op) ==> r == horizontal_sum(op, zero, x@),
{
    let len = x.len();
    let offset_from = len % 32;

    let mut extra = zero;

    let mut acc1 = setzero_pd(zero);
    let mut acc2 = setzero_pd(zero);
    let mut acc3 = setzero_pd(zero);
    let mut acc4 = setzero_pd(zero);
    let mut acc5 = setzero_pd(zero);
    let mut acc6 = setzero_pd(zero);
    let mut acc7 = setzero_pd(zero);
    let mut acc8 = setzero_pd(zero);

    let ghost blocks = len as int / 32;
    let ghost groups = offset_from as int / 4;
    let ghost short = len as int % 4;
    let ghost aligned = 32 * blocks;
    let ghost mut done: int = 0;
    proof {
        assert forall|op: spec_fn(T, T) -> T| #[trigger] computes(plus, op) implies holds_strided(
            op,
            zero,
            x@,
            0,
            32,
            0,
            seq![acc1@, acc2@, acc3@, acc4@, acc5@, acc6@, acc7@, acc8@],
        ) by {
            lemma_holds_none(
                op,
                zero,
                x@,
                0,
                32,
                seq![acc1@, acc2@, acc3@, acc4@, acc5@, acc6@, acc7@, acc8@],
            );
        }
    }

    let mut i: usize = 0;
    while i < (len - offset_from)
        invariant
            accepts_all(plus),
            len == x.len(),
            offset_from == len % 32,
            i == 32 * done,
            i <= len - offset_from,
            forall|op: spec_fn(T, T) -> T| #[trigger]
                computes(plus, op) ==> holds_strided(
                    op,
                    zero,
                    x@,
                    0,
                    32,
                    done,
                    seq![acc1@, acc2@, acc3@, acc4@, acc5@, acc6@, acc7@, acc8@],
                ),
        decreases len - i,
    {
        let ghost regs = seq![acc1@, acc2@, acc3@, acc4@, acc5@, acc6@, acc7@, acc8@];
        sum_x64_block(
            x,
            i,
            &mut acc1,
            &mut acc2,
            &mut acc3,
            &mut acc4,
            &mut acc5,
            &mut acc6,
            &mut acc7,
            &mut acc8,
            &plus,
        );
        proof {
            let next = seq![acc1@, acc2@, acc3@, acc4@, acc5@, acc6@, acc7@, acc8@];
            assert forall|op: spec_fn(T, T) -> T| #[trigger]
                computes(plus, op) implies holds_strided(op, zero, x@, 0, 32, done + 1, next) by {
                lemma_holds_next(op, zero, x@, 0, 32, done, regs, next);
            }
            done = done + 1;
        }

        i += 32;
    }

    let ghost after_blocks = seq![acc1@, acc2@, acc3@, acc4@, acc5@, acc6@, acc7@, acc8@];
    let ghost whole = acc1@;
    let ghost mut taken: int = 0;
    proof {
        lemma_tiers(len as int);
        assert forall|op: spec_fn(T, T) -> T| #[trigger]
            computes(plus, op) implies acc1@ == register_sum(op, whole, x@, aligned, 4, 0) by {
            lemma_register_sum_none(op, whole, x@, aligned, 4);
        }
    }

    if offset_from != 0 {
        let tail = offset_from % 4;

        while i < (len - tail)
            invariant
                accepts_all(plus),
                len == x.len(),
                tail == short,
                tail <= len,
                0 <= aligned,
                0 <= taken,
                i == aligned + 4 * taken,
                i <= len - tail,
                aligned + 4 * groups == len - short,
                forall|op: spec_fn(T, T) -> T| #[trigger]
                    computes(plus, op) ==> acc1@ == register_sum(op, whole, x@, aligned, 4, taken),
            decreases len - i,
        {
            let x4 = loadu_pd(x, i);
            acc1 = add_pd(&acc1, &x4, &plus);
            proof {
                assert forall|op: spec_fn(T, T) -> T| #[trigger]
                    computes(plus, op) implies acc1@ == register_sum(
                    op,
                    whole,
                    x@,
                    aligned,
                    4,
                    taken + 1,
                ) by {
                    lemma_register_sum_step(op, whole, x@, aligned, 4, taken);
                }
                taken = taken + 1;
            }

            i += 4;
        }

        while i < len
            invariant
                accepts_all(plus),
                len == x.len(),
                tail == short,
                short == len % 4,
                len - tail <= i <= len,
                forall|op: spec_fn(T, T) -> T| #[trigger]
                    computes(plus, op) ==> extra == sequential_sum(
                        op,
                        zero,
                        x@.subrange(len - tail, i as int),
                    ),
            decreases len - i,
        {
            assert(x@.subrange(len - tail, i + 1).drop_last() =~= x@.subrange(
                len - tail,
                i as int,
            ));
            extra = apply(&plus, extra, x[i]);

            i += 1;
        }
    }

    let ghost regs = seq![acc1@, acc2@, acc3@, acc4@, acc5@, acc6@, acc7@, acc8@];
    let acc = rollup_x8_pd(acc1, acc2, acc3, acc4, acc5, acc6, acc7, acc8, &plus);
    let lanes = sum_avx2_pd(acc, &plus);
    let r = apply(&plus, extra, lanes);
    proof {
        assert forall|op: spec_fn(T, T) -> T| #[trigger]
            computes(plus, op) implies r == horizontal_sum(op, zero, x@) by {
            lemma_registers_after(op, zero, x@, blocks, groups, after_blocks, regs);
        }
    }
    r
}

} // verus!
