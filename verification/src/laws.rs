//! What holds of the kernels' results: when the grouping does not matter,
//! and what the edge cases give.
use crate::model::{
    accumulators,
    across,
    carry,
    column_sums,
    horizontal_sum,
    lanewise,
    register_sum,
    registers_after,
    rolled_up,
    rollup,
    sequential_sum,
    vertical_sum,
    zeros,
};
use crate::operator::{computes, is_associative, is_commutative, is_left_identity};
use crate::steps::{lemma_register_sum_none, lemma_register_sum_step};
use vstd::prelude::*;

verus! {

/// Whether sums under `op` do not depend on grouping or order, and `zero`
/// adds nothing.
pub open spec fn is_exact<T>(op: spec_fn(T, T) -> T, zero: T) -> bool {
    &&& is_associative(op)
    &&& is_commutative(op)
    &&& is_left_identity(op, zero)
}

/// Wrapping addition of 64-bit integers is exact, with 0 for `zero`.
pub proof fn lemma_wrapping_add_is_exact(op: spec_fn(u64, u64) -> u64)
    requires
        forall|a: u64, b: u64| #[trigger] op(a, b) == a.wrapping_add(b),
    ensures
        is_exact(op, 0u64),
{
    reveal(is_associative);
    reveal(is_commutative);
    reveal(is_left_identity);
}

/// One instance of associativity.
proof fn lemma_assoc<T>(op: spec_fn(T, T) -> T, a: T, b: T, c: T)
    requires
        is_associative(op),
    ensures
        op(op(a, b), c) == op(a, op(b, c)),
{
    reveal(is_associative);
}

/// One instance of commutativity.
proof fn lemma_comm<T>(op: spec_fn(T, T) -> T, a: T, b: T)
    requires
        is_commutative(op),
    ensures
        op(a, b) == op(b, a),
{
    reveal(is_commutative);
}

/// One instance of `zero` adding nothing.
proof fn lemma_zero<T>(op: spec_fn(T, T) -> T, zero: T, a: T)
    requires
        is_left_identity(op, zero),
    ensures
        op(zero, a) == a,
{
    reveal(is_left_identity);
}

/// Two sums of two can exchange their inner terms.
proof fn lemma_medial<T>(op: spec_fn(T, T) -> T, a: T, b: T, c: T, d: T)
    requires
        is_associative(op),
        is_commutative(op),
    ensures
        op(op(a, b), op(c, d)) == op(op(a, c), op(b, d)),
{
    lemma_assoc(op, a, b, op(c, d));
    lemma_assoc(op, b, c, d);
    lemma_comm(op, b, c);
    lemma_assoc(op, c, b, d);
    lemma_assoc(op, a, c, op(b, d));
}

/// A term added to the left part of a sum can be added to the whole sum.
proof fn lemma_move_out<T>(op: spec_fn(T, T) -> T, a: T, c: T, b: T)
    requires
        is_associative(op),
        is_commutative(op),
    ensures
        op(op(a, c), b) == op(op(a, b), c),
{
    lemma_assoc(op, a, c, b);
    lemma_comm(op, c, b);
    lemma_assoc(op, a, b, c);
}

/// A sum that starts at `a` is `a` plus the sum that starts at `zero`.
proof fn lemma_sum_from<T>(op: spec_fn(T, T) -> T, zero: T, a: T, s: Seq<T>)
    requires
        is_exact(op, zero),
    ensures
        s.fold_left(a, op) == op(a, sequential_sum(op, zero, s)),
    decreases s.len(),
{
    if s.len() == 0 {
        lemma_comm(op, a, zero);
        lemma_zero(op, zero, a);
    } else {
        lemma_sum_from(op, zero, a, s.drop_last());
        lemma_assoc(op, a, sequential_sum(op, zero, s.drop_last()), s.last());
    }
}

/// The sum of a stretch of `x` is the sum of its first part plus the sum of
/// the rest.
proof fn lemma_sum_split<T>(
    op: spec_fn(T, T) -> T,
    zero: T,
    x: Seq<T>,
    from: int,
    mid: int,
    to: int,
)
    requires
        is_exact(op, zero),
        0 <= from <= mid <= to <= x.len(),
    ensures
        sequential_sum(op, zero, x.subrange(from, to)) == op(
            sequential_sum(op, zero, x.subrange(from, mid)),
            sequential_sum(op, zero, x.subrange(mid, to)),
        ),
{
    let whole = x.subrange(from, to);
    whole.lemma_fold_left_split(zero, op, mid - from);
    assert(whole.subrange(0, mid - from) =~= x.subrange(from, mid));
    assert(whole.subrange(mid - from, whole.len() as int) =~= x.subrange(mid, to));
    lemma_sum_from(
        op,
        zero,
        sequential_sum(op, zero, x.subrange(from, mid)),
        x.subrange(mid, to),
    );
}

/// The lanes of a register of four, combined, are the sum of the four.
proof fn lemma_across_is_sum<T>(op: spec_fn(T, T) -> T, zero: T, v: Seq<T>)
    requires
        is_exact(op, zero),
        v.len() == 4,
    ensures
        across(op, v) == sequential_sum(op, zero, v),
{
    let s1 = v.subrange(0, 1);
    let s2 = v.subrange(0, 2);
    let s3 = v.subrange(0, 3);
    assert(s1.drop_last() =~= Seq::<T>::empty());
    assert(s2.drop_last() =~= s1);
    assert(s3.drop_last() =~= s2);
    assert(v.drop_last() =~= s3);
    assert(Seq::<T>::empty().fold_left(zero, op) == zero);
    lemma_zero(op, zero, v[0]);
    lemma_assoc(op, op(v[0], v[1]), v[2], v[3]);
    lemma_medial(op, v[0], v[1], v[2], v[3]);
}

/// Combining the lanes of two registers added lane by lane gives the sum of
/// what each register's lanes combine into.
proof fn lemma_across_lanewise<T>(op: spec_fn(T, T) -> T, a: Seq<T>, b: Seq<T>)
    requires
        is_associative(op),
        is_commutative(op),
    ensures
        across(op, lanewise(op, a, b)) == op(across(op, a), across(op, b)),
{
    lemma_medial(op, a[0], b[0], a[2], b[2]);
    lemma_medial(op, a[1], b[1], a[3], b[3]);
    lemma_medial(op, op(a[0], a[2]), op(b[0], b[2]), op(a[1], a[3]), op(b[1], b[3]));
}

/// Eight values combined in the shape of the roll-up.
pub open spec fn tree<T>(op: spec_fn(T, T) -> T, q: Seq<T>) -> T {
    op(op(op(q[0], q[1]), op(q[2], q[3])), op(op(q[4], q[5]), op(q[6], q[7])))
}

/// What the lanes of each of eight registers combine into.
pub open spec fn each_across<T>(op: spec_fn(T, T) -> T, regs: Seq<Seq<T>>) -> Seq<T> {
    Seq::new(8, |j: int| across(op, regs[j]))
}

/// Rolling up and then combining the lanes gives the tree of what each
/// register's lanes combine into.
proof fn lemma_rollup_across<T>(op: spec_fn(T, T) -> T, regs: Seq<Seq<T>>)
    requires
        is_associative(op),
        is_commutative(op),
    ensures
        across(op, rollup(op, regs)) == tree(op, each_across(op, regs)),
{
    let r01 = lanewise(op, regs[0], regs[1]);
    let r23 = lanewise(op, regs[2], regs[3]);
    let r45 = lanewise(op, regs[4], regs[5]);
    let r67 = lanewise(op, regs[6], regs[7]);
    let lower = lanewise(op, r01, r23);
    let upper = lanewise(op, r45, r67);
    lemma_across_lanewise(op, regs[0], regs[1]);
    lemma_across_lanewise(op, regs[2], regs[3]);
    lemma_across_lanewise(op, regs[4], regs[5]);
    lemma_across_lanewise(op, regs[6], regs[7]);
    lemma_across_lanewise(op, r01, r23);
    lemma_across_lanewise(op, r45, r67);
    lemma_across_lanewise(op, lower, upper);
}

/// The tree of eight sums of two is the sum of the two trees.
proof fn lemma_tree_pairs<T>(op: spec_fn(T, T) -> T, q: Seq<T>, c: Seq<T>, both: Seq<T>)
    requires
        is_associative(op),
        is_commutative(op),
        forall|j: int| 0 <= j < 8 ==> both[j] == op(q[j], c[j]),
    ensures
        tree(op, both) == op(tree(op, q), tree(op, c)),
{
    lemma_medial(op, q[0], c[0], q[1], c[1]);
    lemma_medial(op, q[2], c[2], q[3], c[3]);
    lemma_medial(op, q[4], c[4], q[5], c[5]);
    lemma_medial(op, q[6], c[6], q[7], c[7]);
    lemma_medial(op, op(q[0], q[1]), op(c[0], c[1]), op(q[2], q[3]), op(c[2], c[3]));
    lemma_medial(op, op(q[4], q[5]), op(c[4], c[5]), op(q[6], q[7]), op(c[6], c[7]));
    lemma_medial(
        op,
        op(op(q[0], q[1]), op(q[2], q[3])),
        op(op(c[0], c[1]), op(c[2], c[3])),
        op(op(q[4], q[5]), op(q[6], q[7])),
        op(op(c[4], c[5]), op(c[6], c[7])),
    );
}

/// The tree with one more term in its first leaf is the tree plus that term.
proof fn lemma_tree_first<T>(op: spec_fn(T, T) -> T, q: Seq<T>, c: T, more: Seq<T>)
    requires
        is_associative(op),
        is_commutative(op),
        more[0] == op(q[0], c),
        forall|j: int| 1 <= j < 8 ==> more[j] == q[j],
    ensures
        tree(op, more) == op(tree(op, q), c),
{
    lemma_move_out(op, q[0], c, q[1]);
    lemma_move_out(op, op(q[0], q[1]), c, op(q[2], q[3]));
    lemma_move_out(op, op(op(q[0], q[1]), op(q[2], q[3])), c, op(op(q[4], q[5]), op(q[6], q[7])));
}

/// The tree of the sums of the eight groups of four of a block is the sum
/// of the block.
proof fn lemma_tree_of_block<T>(op: spec_fn(T, T) -> T, zero: T, x: Seq<T>, at: int, c: Seq<T>)
    requires
        is_exact(op, zero),
        0 <= at,
        at + 32 <= x.len(),
        forall|j: int|
            0 <= j < 8 ==> c[j] == sequential_sum(op, zero, x.subrange(at + 4 * j, at + 4 * j + 4)),
    ensures
        tree(op, c) == sequential_sum(op, zero, x.subrange(at, at + 32)),
{
    lemma_sum_split(op, zero, x, at, at + 4, at + 8);
    lemma_sum_split(op, zero, x, at + 8, at + 12, at + 16);
    lemma_sum_split(op, zero, x, at + 16, at + 20, at + 24);
    lemma_sum_split(op, zero, x, at + 24, at + 28, at + 32);
    lemma_sum_split(op, zero, x, at, at + 8, at + 16);
    lemma_sum_split(op, zero, x, at + 16, at + 24, at + 32);
    lemma_sum_split(op, zero, x, at, at + 16, at + 32);
}

/// After `blocks` whole blocks the registers hold, rolled up and combined,
/// the sum of the elements taken up.
proof fn lemma_blocks<T>(op: spec_fn(T, T) -> T, zero: T, x: Seq<T>, blocks: int)
    requires
        is_exact(op, zero),
        0 <= blocks,
        32 * blocks <= x.len(),
    ensures
        across(op, rollup(op, registers_after(op, zero, x, blocks, 0))) == sequential_sum(
            op,
            zero,
            x.subrange(0, 32 * blocks),
        ),
    decreases blocks,
{
    let regs = registers_after(op, zero, x, blocks, 0);
    lemma_rollup_across(op, regs);
    if blocks == 0 {
        lemma_zero(op, zero, zero);
        assert forall|j: int| 0 <= j < 8 implies #[trigger] each_across(op, regs)[j] == zero by {
            lemma_register_sum_none(op, zeros(zero), x, 4 * j, 32);
            lemma_register_sum_none(op, zeros(zero), x, 0, 4);
        }
    } else {
        let before = registers_after(op, zero, x, blocks - 1, 0);
        let at = 32 * (blocks - 1);
        lemma_blocks(op, zero, x, blocks - 1);
        lemma_rollup_across(op, before);
        let c = Seq::new(
            8,
            |j: int| sequential_sum(op, zero, x.subrange(at + 4 * j, at + 4 * j + 4)),
        );
        assert forall|j: int| 0 <= j < 8 implies #[trigger] each_across(op, regs)[j] == op(
            each_across(op, before)[j],
            c[j],
        ) by {
            let was = register_sum(op, zeros(zero), x, 4 * j, 32, blocks - 1);
            let now = register_sum(op, zeros(zero), x, 4 * j, 32, blocks);
            let chunk = x.subrange(at + 4 * j, at + 4 * j + 4);
            lemma_register_sum_step(op, zeros(zero), x, 4 * j, 32, blocks - 1);
            lemma_register_sum_none(op, was, x, 32 * (blocks - 1), 4);
            lemma_register_sum_none(op, now, x, 32 * blocks, 4);
            lemma_across_lanewise(op, was, chunk);
            lemma_across_is_sum(op, zero, chunk);
        }
        lemma_tree_pairs(op, each_across(op, before), c, each_across(op, regs));
        lemma_tree_of_block(op, zero, x, at, c);
        lemma_sum_split(op, zero, x, 0, at, at + 32);
    }
}

/// After the whole blocks and `groups` groups of four the registers hold,
/// rolled up and combined, the sum of the elements taken up.
proof fn lemma_groups<T>(op: spec_fn(T, T) -> T, zero: T, x: Seq<T>, blocks: int, groups: int)
    requires
        is_exact(op, zero),
        0 <= blocks,
        0 <= groups,
        32 * blocks + 4 * groups <= x.len(),
    ensures
        across(op, rollup(op, registers_after(op, zero, x, blocks, groups))) == sequential_sum(
            op,
            zero,
            x.subrange(0, 32 * blocks + 4 * groups),
        ),
    decreases groups,
{
    if groups == 0 {
        lemma_blocks(op, zero, x, blocks);
    } else {
        let regs = registers_after(op, zero, x, blocks, groups);
        let before = registers_after(op, zero, x, blocks, groups - 1);
        let at = 32 * blocks + 4 * (groups - 1);
        let chunk = x.subrange(at, at + 4);
        let whole = register_sum(op, zeros(zero), x, 0, 32, blocks);
        lemma_groups(op, zero, x, blocks, groups - 1);
        lemma_rollup_across(op, regs);
        lemma_rollup_across(op, before);
        lemma_register_sum_step(op, whole, x, 32 * blocks, 4, groups - 1);
        lemma_across_lanewise(op, before[0], chunk);
        lemma_across_is_sum(op, zero, chunk);
        lemma_tree_first(
            op,
            each_across(op, before),
            sequential_sum(op, zero, chunk),
            each_across(op, regs),
        );
        lemma_sum_split(op, zero, x, 0, at, at + 4);
    }
}

/// Where sums under `op` do not depend on grouping or order and `zero` adds
/// nothing, the grouping of the horizontal kernel for any length gives the
/// sum of the elements one after the other.
pub proof fn lemma_horizontal_sum_is_sequential<T>(op: spec_fn(T, T) -> T, zero: T, x: Seq<T>)
    requires
        is_exact(op, zero),
    ensures
        horizontal_sum(op, zero, x) == sequential_sum(op, zero, x),
{
    let len = x.len() as int;
    let blocks = len / 32;
    let groups = (len % 32) / 4;
    let short = len % 4;
    assert(32 * blocks + 4 * groups == len - short);
    lemma_groups(op, zero, x, blocks, groups);
    lemma_sum_split(op, zero, x, 0, len - short, len);
    lemma_comm(op, carry(op, zero, x), rolled_up(op, zero, x));
}

/// Where sums under `op` do not depend on grouping or order and `zero` adds
/// nothing, the grouping of the horizontal kernel for whole blocks gives,
/// on whole blocks, the sum of the elements one after the other.
pub proof fn lemma_rolled_up_is_sequential<T>(op: spec_fn(T, T) -> T, zero: T, x: Seq<T>)
    requires
        is_exact(op, zero),
        x.len() % 32 == 0,
    ensures
        rolled_up(op, zero, x) == sequential_sum(op, zero, x),
{
    let len = x.len() as int;
    lemma_groups(op, zero, x, len / 32, 0);
}

/// Where `zero` adds nothing, the two horizontal kernels give the same
/// value on whole blocks of 32: the carry of the kernel for any length is
/// then `zero`.
pub proof fn lemma_horizontal_kernels_agree<T>(op: spec_fn(T, T) -> T, zero: T, x: Seq<T>)
    requires
        is_left_identity(op, zero),
        x.len() % 32 == 0,
    ensures
        horizontal_sum(op, zero, x) == rolled_up(op, zero, x),
{
    lemma_zero(op, zero, rolled_up(op, zero, x));
}

/// Two calls of the horizontal kernel for any length on one vector give one
/// value, where the operation computes a function: nothing but the
/// elements, `zero` and the operation goes into the result. `first` and
/// `second` are any two values of which the kernel's contract holds.
pub proof fn lemma_horizontal_sum_repeats<T, F: Fn(T, T) -> T>(
    plus: F,
    op: spec_fn(T, T) -> T,
    zero: T,
    x: Seq<T>,
    first: T,
    second: T,
)
    requires
        computes(plus, op),
        forall|o: spec_fn(T, T) -> T| #[trigger]
            computes(plus, o) ==> first == horizontal_sum(o, zero, x),
        forall|o: spec_fn(T, T) -> T| #[trigger]
            computes(plus, o) ==> second == horizontal_sum(o, zero, x),
    ensures
        first == second,
{
}

/// Two calls of the horizontal kernel for whole blocks on one vector give
/// one value, where the operation computes a function.
pub proof fn lemma_rolled_up_repeats<T, F: Fn(T, T) -> T>(
    plus: F,
    op: spec_fn(T, T) -> T,
    zero: T,
    x: Seq<T>,
    first: T,
    second: T,
)
    requires
        computes(plus, op),
        forall|o: spec_fn(T, T) -> T| #[trigger]
            computes(plus, o) ==> first == rolled_up(o, zero, x),
        forall|o: spec_fn(T, T) -> T| #[trigger]
            computes(plus, o) ==> second == rolled_up(o, zero, x),
    ensures
        first == second,
{
}

/// Where `zero` plus `zero` is `zero`, the vector without elements sums to
/// `zero` in both horizontal kernels.
pub proof fn lemma_empty_vector_sums_to_zero<T>(op: spec_fn(T, T) -> T, zero: T)
    requires
        op(zero, zero) == zero,
    ensures
        horizontal_sum(op, zero, Seq::<T>::empty()) == zero,
        rolled_up(op, zero, Seq::<T>::empty()) == zero,
{
    let x = Seq::<T>::empty();
    let regs = accumulators(op, zero, x);
    assert forall|j: int| 0 <= j < 8 implies #[trigger] regs[j] == zeros(zero) by {
        lemma_register_sum_none(op, zeros(zero), x, 4 * j, 32);
        lemma_register_sum_none(op, zeros(zero), x, 0, 4);
    }
}

/// Where the last `before.len() % 4` slots of the buffer held `zero`, the
/// vertical kernel for any row length leaves in each slot the sum of its
/// column from `zero` on, as the kernel for whole blocks does.
pub proof fn lemma_vertical_sum_is_column_sums<T>(
    op: spec_fn(T, T) -> T,
    zero: T,
    matrix: Seq<T>,
    before: Seq<T>,
)
    requires
        forall|col: int|
            before.len() - before.len() % 4 <= col < before.len() ==> before[col] == zero,
    ensures
        vertical_sum(op, zero, matrix, before) == column_sums(
            op,
            zero,
            matrix,
            before.len() as int,
        ),
{
}

/// A matrix without rows leaves a buffer as it was, where the slots that the
/// kernel overwrites held `zero`: all but the last `before.len() % 4`.
pub proof fn lemma_no_rows_keep_zeroed_buffer<T>(op: spec_fn(T, T) -> T, zero: T, before: Seq<T>)
    requires
        forall|col: int| 0 <= col < before.len() - before.len() % 4 ==> before[col] == zero,
    ensures
        vertical_sum(op, zero, Seq::<T>::empty(), before) == before,
{
}

/// A matrix without rows gives `zero` for each column in the kernel for
/// whole blocks.
pub proof fn lemma_no_rows_column_sums<T>(op: spec_fn(T, T) -> T, zero: T, dims: int)
    requires
        0 <= dims,
    ensures
        column_sums(op, zero, Seq::<T>::empty(), dims) == Seq::new(dims as nat, |col: int| zero),
{
}

} // verus!
