//! Registers of four lanes, and the operations on them.
use crate::model::{across, lanewise, rollup, zeros};
use crate::operator::{accepts_all, apply, computes};
use vstd::prelude::*;

verus! {

/// A register whose four lanes all hold `zero`.
pub fn setzero_pd<T: Copy>(zero: T) -> (r: [T; 4])
    ensures
        r@ == zeros(zero),
{
    let r = [zero, zero, zero, zero];
    r
}

/// The four elements of `x` from index `at` on.
pub fn loadu_pd<T: Copy>(x: &[T], at: usize) -> (r: [T; 4])
    requires
        at + 4 <= x.len(),
    ensures
        r@ == x@.subrange(at as int, at + 4),
{
    let r = [x[at], x[at + 1], x[at + 2], x[at + 3]];
    r
}

/// Writes the four lanes of `v` to `out` from index `at` on.
pub fn storeu_pd<T: Copy>(out: &mut [T], at: usize, v: &[T; 4])
    requires
        at + 4 <= old(out).len(),
    ensures
        final(out).len() == old(out).len(),
        forall|k: int|
            0 <= k < old(out).len() ==> #[trigger] final(out)[k] == if at <= k < at + 4 {
                v[k - at]
            } else {
                old(out)[k]
            },
{
    out[at] = v[0];
    out[at + 1] = v[1];
    out[at + 2] = v[2];
    out[at + 3] = v[3];
}

/// Lane by lane, `a` combined with `b`.
pub fn add_pd<T: Copy, F: Fn(T, T) -> T>(a: &[T; 4], b: &[T; 4], plus: &F) -> (r: [T; 4])
    requires
        accepts_all(*plus),
    ensures
        forall|op: spec_fn(T, T) -> T| #[trigger]
            computes(*plus, op) ==> r@ == lanewise(op, a@, b@),
{
    let r = [
        apply(plus, a[0], b[0]),
        apply(plus, a[1], b[1]),
        apply(plus, a[2], b[2]),
        apply(plus, a[3], b[3]),
    ];
    r
}

/// The eight registers combined into one as a tree: each with its neighbour,
/// then the four pairs two by two, then the two halves.
pub fn rollup_x8_pd<T: Copy, F: Fn(T, T) -> T>(
    acc1: [T; 4],
    acc2: [T; 4],
    acc3: [T; 4],
    acc4: [T; 4],
    acc5: [T; 4],
    acc6: [T; 4],
    acc7: [T; 4],
    acc8: [T; 4],
    plus: &F,
) -> (r: [T; 4])
    requires
        accepts_all(*plus),
    ensures
        forall|op: spec_fn(T, T) -> T| #[trigger]
            computes(*plus, op) ==> r@ == rollup(
                op,
                seq![acc1@, acc2@, acc3@, acc4@, acc5@, acc6@, acc7@, acc8@],
            ),
{
    let acc1 = add_pd(&acc1, &acc2, plus);
    let acc3 = add_pd(&acc3, &acc4, plus);
    let acc5 = add_pd(&acc5, &acc6, plus);
    let acc7 = add_pd(&acc7, &acc8, plus);

    let acc1 = add_pd(&acc1, &acc3, plus);
    let acc5 = add_pd(&acc5, &acc7, plus);

    add_pd(&acc1, &acc5, plus)
}

/// The four lanes of `v` combined into one value: the upper half onto the
/// lower half, then the two lanes that remain.
pub fn sum_avx2_pd<T: Copy, F: Fn(T, T) -> T>(v: [T; 4], plus: &F) -> (r: T)
    requires
        accepts_all(*plus),
    ensures
        forall|op: spec_fn(T, T) -> T| #[trigger] computes(*plus, op) ==> r == across(op, v@),
{
    let even = apply(plus, v[0], v[2]);
    let odd = apply(plus, v[1], v[3]);
    apply(plus, even, odd)
}

/// The first half of a block.
pub const CHUNK_0: usize = 0;

/// The second half of a block.
pub const CHUNK_1: usize = 1;

/// Where the four registers of chunk `CHUNK` start in a block that starts at
/// index `at`: a chunk is 16 elements, a register 4.
pub fn offsets_avx2_pd<const CHUNK: usize>(at: usize) -> (r: [usize; 4])
    requires
        at + CHUNK * 16 + 16 <= usize::MAX,
    ensures
        forall|k: int| 0 <= k < 4 ==> #[trigger] r[k] == at + CHUNK * 16 + 4 * k,
{
    let base = at + CHUNK * 16;
    [base, base + 4, base + 8, base + 12]
}

/// Adds the 32 elements of `x` from index `at` on into the eight registers:
/// the elements `at + 4 * j` to `at + 4 * j + 3` go, lane by lane, into
/// register `j` (counted from 0).
pub fn sum_x64_block<T: Copy, F: Fn(T, T) -> T>(
    x: &[T],
    at: usize,
    acc1: &mut [T; 4],
    acc2: &mut [T; 4],
    acc3: &mut [T; 4],
    acc4: &mut [T; 4],
    acc5: &mut [T; 4],
    acc6: &mut [T; 4],
    acc7: &mut [T; 4],
    acc8: &mut [T; 4],
    plus: &F,
)
    requires
        at + 32 <= x.len(),
        accepts_all(*plus),
    ensures
        forall|op: spec_fn(T, T) -> T| #[trigger]
            computes(*plus, op) ==> {
                &&& final(acc1)@ == lanewise(op, old(acc1)@, x@.subrange(at + 0, at + 4))
                &&& final(acc2)@ == lanewise(op, old(acc2)@, x@.subrange(at + 4, at + 8))
                &&& final(acc3)@ == lanewise(op, old(acc3)@, x@.subrange(at + 8, at + 12))
                &&& final(acc4)@ == lanewise(op, old(acc4)@, x@.subrange(at + 12, at + 16))
                &&& final(acc5)@ == lanewise(op, old(acc5)@, x@.subrange(at + 16, at + 20))
                &&& final(acc6)@ == lanewise(op, old(acc6)@, x@.subrange(at + 20, at + 24))
                &&& final(acc7)@ == lanewise(op, old(acc7)@, x@.subrange(at + 24, at + 28))
                &&& final(acc8)@ == lanewise(op, old(acc8)@, x@.subrange(at + 28, at + 32))
            },
{
    let first = offsets_avx2_pd::<CHUNK_0>(at);
    let second = offsets_avx2_pd::<CHUNK_1>(at);

    let x1 = loadu_pd(x, first[0]);
    let x2 = loadu_pd(x, first[1]);
    let x3 = loadu_pd(x, first[2]);
    let x4 = loadu_pd(x, first[3]);
    let x5 = loadu_pd(x, second[0]);
    let x6 = loadu_pd(x, second[1]);
    let x7 = loadu_pd(x, second[2]);
    let x8 = loadu_pd(x, second[3]);

    *acc1 = add_pd(acc1, &x1, plus);
    *acc2 = add_pd(acc2, &x2, plus);
    *acc3 = add_pd(acc3, &x3, plus);
    *acc4 = add_pd(acc4, &x4, plus);
    *acc5 = add_pd(acc5, &x5, plus);
    *acc6 = add_pd(acc6, &x6, plus);
    *acc7 = add_pd(acc7, &x7, plus);
    *acc8 = add_pd(acc8, &x8, plus);
}

} // verus!
