//! Closed forms of affine recurrence kernels.

use crate::ir::{stmts_view, LoweredStmt, StmtView};
use vstd::arithmetic::div_mod::{lemma_add_mod_noop, lemma_mul_mod_noop, lemma_small_mod};
use vstd::prelude::*;

verus! {

/// The word congruent to a number modulo 2^64.
pub open spec fn word(number: int) -> u64 {
    (number % 0x1_0000_0000_0000_0000) as u64
}

/// Wrapping arithmetic on words is arithmetic on numbers up to congruence.
pub proof fn lemma_word_ops(x: int, y: int)
    ensures
        word(x).wrapping_mul(word(y)) == word(x * y),
        word(x).wrapping_add(word(y)) == word(x + y),
{
    let m = 0x1_0000_0000_0000_0000int;
    lemma_mul_mod_noop(x, y, m);
    lemma_add_mod_noop(x, y, m);
    let sum = x % m + y % m;
    if sum >= m {
        assert(sum % m == sum - m) by (nonlinear_arith)
            requires
                m <= sum < 2 * m,
                m > 0,
        ;
    } else {
        lemma_small_mod(sum as nat, m as nat);
    }
    assert((x % m) * (y % m) >= 0) by (nonlinear_arith)
        requires
            x % m >= 0,
            y % m >= 0,
    ;
}

/// A word stands for itself.
pub proof fn lemma_word_of_word(x: u64)
    ensures
        word(x as int) == x,
{
    lemma_small_mod(x as nat, 0x1_0000_0000_0000_0000nat);
}

/// An affine map `state -> mul * state + add` over the integers.
pub struct Affine {
    pub mul: int,
    pub add: int,
}

/// The map that applies `state -> mul * state + add` n times.
pub open spec fn affine_iterate(mul: int, add: int, n: nat) -> Affine
    decreases n,
{
    if n == 0 {
        Affine { mul: 1, add: 0 }
    } else {
        let before = affine_iterate(mul, add, (n - 1) as nat);
        Affine { mul: before.mul * mul, add: before.add * mul + add }
    }
}

/// Iterating `n + k` times is iterating n times, then k times.
proof fn lemma_affine_sum(mul: int, add: int, n: nat, k: nat)
    ensures
        affine_iterate(mul, add, n + k).mul == affine_iterate(mul, add, n).mul * affine_iterate(
            mul,
            add,
            k,
        ).mul,
        affine_iterate(mul, add, n + k).add == affine_iterate(mul, add, n).add * affine_iterate(
            mul,
            add,
            k,
        ).mul + affine_iterate(mul, add, k).add,
    decreases k,
{
    if k > 0 {
        lemma_affine_sum(mul, add, n, (k - 1) as nat);
        let a = affine_iterate(mul, add, n);
        let b = affine_iterate(mul, add, (k - 1) as nat);
        assert((n + k - 1) as nat == n + (k - 1) as nat);
        assert((a.mul * b.mul) * mul == a.mul * (b.mul * mul)) by (nonlinear_arith);
        assert((a.add * b.mul + b.add) * mul + add == a.add * (b.mul * mul) + (b.add * mul + add))
            by (nonlinear_arith);
    } else {
        let a = affine_iterate(mul, add, n);
        assert(a.mul * 1 == a.mul && a.add * 1 == a.add) by (nonlinear_arith);
    }
}

/// Iterating a map `2w` times from its w-fold iterate.
proof fn lemma_affine_once(mul: int, add: int)
    ensures
        affine_iterate(mul, add, 1) == (Affine { mul, add }),
{
    reveal_with_fuel(affine_iterate, 2);
    assert(1 * mul == mul && 0 * mul == 0) by (nonlinear_arith);
}

/// The word map `state -> mul * state + add` applied `exp` times, as one such
/// map.
pub fn affine_pow(mul: u64, add: u64, exp: u64) -> (folded: (u64, u64))
    ensures
        folded.0 == word(affine_iterate(mul as int, add as int, exp as nat).mul),
        folded.1 == word(affine_iterate(mul as int, add as int, exp as nat).add),
{
    let mut acc_mul: u64 = 1;
    let mut acc_add: u64 = 0;
    let mut step_mul: u64 = mul;
    let mut step_add: u64 = add;
    let mut left: u64 = exp;
    let ghost mut done: nat = 0;
    let ghost mut weight: nat = 1;
    proof {
        lemma_affine_once(mul as int, add as int);
        lemma_word_of_word(mul);
        lemma_word_of_word(add);
        lemma_word_of_word(1);
        lemma_word_of_word(0);
    }
    while left > 0
        invariant
            done + weight * left == exp,
            acc_mul == word(affine_iterate(mul as int, add as int, done).mul),
            acc_add == word(affine_iterate(mul as int, add as int, done).add),
            step_mul == word(affine_iterate(mul as int, add as int, weight).mul),
            step_add == word(affine_iterate(mul as int, add as int, weight).add),
        decreases left,
    {
        let ghost step = affine_iterate(mul as int, add as int, weight);
        assert(left & 1 == left % 2) by (bit_vector);
        assert(left >> 1 == left / 2) by (bit_vector);
        if left & 1 == 1 {
            proof {
                let acc = affine_iterate(mul as int, add as int, done);
                lemma_affine_sum(mul as int, add as int, done, weight);
                lemma_word_ops(acc.add, step.mul);
                lemma_word_ops(acc.add * step.mul, step.add);
                lemma_word_ops(acc.mul, step.mul);
            }
            acc_add = acc_add.wrapping_mul(step_mul).wrapping_add(step_add);
            acc_mul = acc_mul.wrapping_mul(step_mul);
            proof {
                done = done + weight;
            }
        }
        proof {
            lemma_affine_sum(mul as int, add as int, weight, weight);
            lemma_word_ops(step.mul, step.mul);
            lemma_word_ops(step.add, step.mul);
            lemma_word_ops(step.add * step.mul, step.add);
            assert(weight * left == weight * (left % 2) + (weight + weight) * (left / 2))
                by (nonlinear_arith)
                requires
                    left == 2 * (left / 2) + left % 2,
            ;
            if left % 2 == 1 {
                assert(weight * (left % 2) == weight) by (nonlinear_arith)
                    requires
                        left % 2 == 1,
                ;
            } else {
                assert(weight * (left % 2) == 0) by (nonlinear_arith)
                    requires
                        left % 2 == 0,
                ;
            }
            weight = weight + weight;
        }
        step_add = step_add.wrapping_mul(step_mul).wrapping_add(step_add);
        step_mul = step_mul.wrapping_mul(step_mul);
        left = left >> 1;
    }
    proof {
        assert(weight * 0 == 0) by (nonlinear_arith);
    }
    (acc_mul, acc_add)
}

/// The state after n steps `state -> state * mul + add` of a linear
/// congruential generator on words.
pub open spec fn lcg_state(mul: u64, add: u64, state: u64, n: nat) -> u64
    decreases n,
{
    if n == 0 {
        state
    } else {
        lcg_state(mul, add, state, (n - 1) as nat).wrapping_mul(mul).wrapping_add(add)
    }
}

/// The closed form of a linear congruential generator is exact: the folded map
/// applied once to any state is the generator stepped n times.
pub proof fn law_lcg_closed_form(mul: u64, add: u64, state: u64, n: nat)
    ensures
        lcg_state(mul, add, state, n) == word(
            affine_iterate(mul as int, add as int, n).mul,
        ).wrapping_mul(state).wrapping_add(word(affine_iterate(mul as int, add as int, n).add)),
    decreases n,
{
    let m = affine_iterate(mul as int, add as int, n);
    let s = state as int;
    lemma_word_of_word(state);
    lemma_word_ops(m.mul, s);
    lemma_word_ops(m.mul * s, m.add);
    if n == 0 {
        assert(1 * s == s) by (nonlinear_arith);
    } else {
        law_lcg_closed_form(mul, add, state, (n - 1) as nat);
        let b = affine_iterate(mul as int, add as int, (n - 1) as nat);
        lemma_word_ops(b.mul, s);
        lemma_word_ops(b.mul * s, b.add);
        lemma_word_of_word(mul);
        lemma_word_of_word(add);
        lemma_word_ops(b.mul * s + b.add, mul as int);
        lemma_word_ops((b.mul * s + b.add) * mul, add as int);
        assert((b.mul * s + b.add) * mul + add == (b.mul * mul) * s + (b.add * mul + add))
            by (nonlinear_arith);
    }
}

/// The map `(state, index) -> (state_mul * state + index_mul * index + add,
/// index + index_delta)` on words.
#[derive(Clone, Copy)]
pub struct AffineIndexTransform {
    pub state_mul: u64,
    pub index_mul: u64,
    pub add: u64,
    pub index_delta: u64,
}

/// The same map over the integers.
pub struct AffineIndex {
    pub state_mul: int,
    pub index_mul: int,
    pub add: int,
    pub index_delta: int,
}

impl AffineIndex {
    /// The map taken on words.
    pub open spec fn on_words(self) -> AffineIndexTransform {
        AffineIndexTransform {
            state_mul: word(self.state_mul),
            index_mul: word(self.index_mul),
            add: word(self.add),
            index_delta: word(self.index_delta),
        }
    }

    /// The map that applies `self` and then `next`.
    pub open spec fn and_after(self, next: AffineIndex) -> AffineIndex {
        AffineIndex {
            state_mul: next.state_mul * self.state_mul,
            index_mul: next.state_mul * self.index_mul + next.index_mul,
            add: next.state_mul * self.add + next.index_mul * self.index_delta + next.add,
            index_delta: self.index_delta + next.index_delta,
        }
    }
}

/// The map that applies one step n times.
pub open spec fn affine_index_iterate(step: AffineIndex, n: nat) -> AffineIndex
    decreases n,
{
    if n == 0 {
        AffineIndex { state_mul: 1, index_mul: 0, add: 0, index_delta: 0 }
    } else {
        affine_index_iterate(step, (n - 1) as nat).and_after(step)
    }
}

/// Applying maps in a row does not depend on how they are grouped.
proof fn lemma_and_after_associates(f: AffineIndex, g: AffineIndex, h: AffineIndex)
    ensures
        f.and_after(g).and_after(h) == f.and_after(g.and_after(h)),
{
    assert(h.state_mul * (g.state_mul * f.state_mul) == (h.state_mul * g.state_mul) * f.state_mul)
        by (nonlinear_arith);
    assert(h.state_mul * (g.state_mul * f.index_mul + g.index_mul) + h.index_mul == (h.state_mul
        * g.state_mul) * f.index_mul + (h.state_mul * g.index_mul + h.index_mul))
        by (nonlinear_arith);
    assert(h.state_mul * (g.state_mul * f.add + g.index_mul * f.index_delta + g.add) + h.index_mul
        * (f.index_delta + g.index_delta) + h.add == (h.state_mul * g.state_mul) * f.add + (
    h.state_mul * g.index_mul + h.index_mul) * f.index_delta + (h.state_mul * g.add + h.index_mul
        * g.index_delta + h.add)) by (nonlinear_arith);
}

/// Iterating `n + k` times is iterating n times, then k times.
proof fn lemma_affine_index_sum(step: AffineIndex, n: nat, k: nat)
    ensures
        affine_index_iterate(step, n + k) == affine_index_iterate(step, n).and_after(
            affine_index_iterate(step, k),
        ),
    decreases k,
{
    let a = affine_index_iterate(step, n);
    if k > 0 {
        lemma_affine_index_sum(step, n, (k - 1) as nat);
        assert((n + k - 1) as nat == n + (k - 1) as nat);
        lemma_and_after_associates(a, affine_index_iterate(step, (k - 1) as nat), step);
    } else {
        assert(1 * a.state_mul == a.state_mul && 1 * a.index_mul == a.index_mul && 1 * a.add
            == a.add && 0 * a.index_delta == 0) by (nonlinear_arith);
    }
}

impl AffineIndexTransform {
    /// The map that changes nothing.
    pub fn identity() -> (map: Self)
        ensures
            map.state_mul == 1,
            map.index_mul == 0,
            map.add == 0,
            map.index_delta == 0,
    {
        Self { state_mul: 1, index_mul: 0, add: 0, index_delta: 0 }
    }

    /// One step, which advances the index by one.
    pub fn step(state_mul: u64, index_mul: u64, add: u64) -> (map: Self)
        ensures
            map.state_mul == state_mul,
            map.index_mul == index_mul,
            map.add == add,
            map.index_delta == 1,
    {
        Self { state_mul, index_mul, add, index_delta: 1 }
    }
}

/// The map that applies `first` and then `second`.
pub open spec fn composed(
    first: AffineIndexTransform,
    second: AffineIndexTransform,
) -> AffineIndexTransform {
    AffineIndexTransform {
        state_mul: second.state_mul.wrapping_mul(first.state_mul),
        index_mul: second.state_mul.wrapping_mul(first.index_mul).wrapping_add(second.index_mul),
        add: second.state_mul.wrapping_mul(first.add).wrapping_add(
            second.index_mul.wrapping_mul(first.index_delta),
        ).wrapping_add(second.add),
        index_delta: first.index_delta.wrapping_add(second.index_delta),
    }
}

/// Composing word maps is composing integer maps up to congruence.
proof fn lemma_composed(f: AffineIndex, g: AffineIndex)
    ensures
        composed(f.on_words(), g.on_words()) == f.and_after(g).on_words(),
{
    lemma_word_ops(g.state_mul, f.state_mul);
    lemma_word_ops(g.state_mul, f.index_mul);
    lemma_word_ops(g.state_mul * f.index_mul, g.index_mul);
    lemma_word_ops(g.state_mul, f.add);
    lemma_word_ops(g.index_mul, f.index_delta);
    lemma_word_ops(g.state_mul * f.add, g.index_mul * f.index_delta);
    lemma_word_ops(g.state_mul * f.add + g.index_mul * f.index_delta, g.add);
    lemma_word_ops(f.index_delta, g.index_delta);
}

/// Composes two maps: `first`, then `second`.
pub fn compose_affine_index(
    first: AffineIndexTransform,
    second: AffineIndexTransform,
) -> (map: AffineIndexTransform)
    ensures
        map == composed(first, second),
{
    AffineIndexTransform {
        state_mul: second.state_mul.wrapping_mul(first.state_mul),
        index_mul: second.state_mul.wrapping_mul(first.index_mul).wrapping_add(second.index_mul),
        add: second.state_mul.wrapping_mul(first.add).wrapping_add(
            second.index_mul.wrapping_mul(first.index_delta),
        ).wrapping_add(second.add),
        index_delta: first.index_delta.wrapping_add(second.index_delta),
    }
}

/// One step over the integers.
pub open spec fn affine_index_step(step_a: u64, step_b: u64, step_c: u64) -> AffineIndex {
    AffineIndex {
        state_mul: step_a as int,
        index_mul: step_b as int,
        add: step_c as int,
        index_delta: 1,
    }
}

/// The step `(state, index) -> (a * state + b * index + c, index + 1)` applied
/// `iterations` times: the factors of the state and of the index in the final
/// state, and the constant.
pub fn affine_index_pow(step_a: u64, step_b: u64, step_c: u64, iterations: u64) -> (folded: (
    u64,
    u64,
    u64,
))
    ensures
        ({
            let map = affine_index_iterate(
                affine_index_step(step_a, step_b, step_c),
                iterations as nat,
            ).on_words();
            folded == (map.state_mul, map.index_mul, map.add)
        }),
{
    let ghost one = affine_index_step(step_a, step_b, step_c);
    let mut acc = AffineIndexTransform::identity();
    let mut base = AffineIndexTransform::step(step_a, step_b, step_c);
    let mut left: u64 = iterations;
    let ghost mut done: nat = 0;
    let ghost mut weight: nat = 1;
    proof {
        reveal_with_fuel(affine_index_iterate, 2);
        assert(step_a * 1 == step_a && step_a * 0 == 0 && step_b * 0 == 0) by (nonlinear_arith);
        lemma_word_of_word(step_a);
        lemma_word_of_word(step_b);
        lemma_word_of_word(step_c);
        lemma_word_of_word(1);
        lemma_word_of_word(0);
        assert(affine_index_iterate(one, 1) == one);
    }
    while left > 0
        invariant
            one == affine_index_step(step_a, step_b, step_c),
            done + weight * left == iterations,
            acc == affine_index_iterate(one, done).on_words(),
            base == affine_index_iterate(one, weight).on_words(),
        decreases left,
    {
        let ghost step = affine_index_iterate(one, weight);
        assert(left & 1 == left % 2) by (bit_vector);
        assert(left >> 1 == left / 2) by (bit_vector);
        if left & 1 == 1 {
            proof {
                lemma_affine_index_sum(one, done, weight);
                lemma_composed(affine_index_iterate(one, done), step);
            }
            acc = compose_affine_index(acc, base);
            proof {
                done = done + weight;
            }
        }
        proof {
            lemma_affine_index_sum(one, weight, weight);
            lemma_composed(step, step);
            assert(weight * left == weight * (left % 2) + (weight + weight) * (left / 2))
                by (nonlinear_arith)
                requires
                    left == 2 * (left / 2) + left % 2,
            ;
            if left % 2 == 1 {
                assert(weight * (left % 2) == weight) by (nonlinear_arith)
                    requires
                        left % 2 == 1,
                ;
            } else {
                assert(weight * (left % 2) == 0) by (nonlinear_arith)
                    requires
                        left % 2 == 0,
                ;
            }
            weight = weight + weight;
        }
        base = compose_affine_index(base, base);
        left = left >> 1;
    }
    proof {
        assert(weight * 0 == 0) by (nonlinear_arith);
    }
    (acc.state_mul, acc.index_mul, acc.add)
}

/// The state after n steps `(state, index) -> (a * state + b * index + c,
/// index + 1)` on words.
pub open spec fn affine_index_state(
    a: u64,
    b: u64,
    c: u64,
    state: u64,
    index: u64,
    n: nat,
) -> u64
    decreases n,
{
    if n == 0 {
        state
    } else {
        let before = affine_index_state(a, b, c, state, index, (n - 1) as nat);
        a.wrapping_mul(before).wrapping_add(
            b.wrapping_mul(index.wrapping_add(word(n - 1))),
        ).wrapping_add(c)
    }
}

/// After n steps the index has advanced by n.
proof fn lemma_index_delta(step: AffineIndex, n: nat)
    requires
        step.index_delta == 1,
    ensures
        affine_index_iterate(step, n).index_delta == n,
    decreases n,
{
    if n > 0 {
        lemma_index_delta(step, (n - 1) as nat);
    }
}

/// The closed form of the indexed recurrence is exact: the folded factors and
/// constant give the state after n steps from any state and index.
pub proof fn law_affine_index_closed_form(
    a: u64,
    b: u64,
    c: u64,
    state: u64,
    index: u64,
    n: nat,
)
    ensures
        ({
            let map = affine_index_iterate(affine_index_step(a, b, c), n).on_words();
            affine_index_state(a, b, c, state, index, n) == map.state_mul.wrapping_mul(
                state,
            ).wrapping_add(map.index_mul.wrapping_mul(index).wrapping_add(map.add))
        }),
    decreases n,
{
    let step = affine_index_step(a, b, c);
    let f = affine_index_iterate(step, n);
    let s = state as int;
    let x = index as int;
    lemma_word_of_word(state);
    lemma_word_of_word(index);
    lemma_word_ops(f.state_mul, s);
    lemma_word_ops(f.index_mul, x);
    lemma_word_ops(f.index_mul * x, f.add);
    lemma_word_ops(f.state_mul * s, f.index_mul * x + f.add);
    if n == 0 {
        assert(1 * s == s && 0 * x == 0) by (nonlinear_arith);
    } else {
        law_affine_index_closed_form(a, b, c, state, index, (n - 1) as nat);
        let g = affine_index_iterate(step, (n - 1) as nat);
        lemma_index_delta(step, (n - 1) as nat);
        lemma_word_of_word(a);
        lemma_word_of_word(b);
        lemma_word_of_word(c);
        let before = g.state_mul * s + (g.index_mul * x + g.add);
        lemma_word_ops(g.state_mul, s);
        lemma_word_ops(g.index_mul, x);
        lemma_word_ops(g.index_mul * x, g.add);
        lemma_word_ops(g.state_mul * s, g.index_mul * x + g.add);
        lemma_word_ops(a as int, before);
        lemma_word_ops(x, n - 1);
        lemma_word_ops(b as int, x + (n - 1));
        lemma_word_ops(a * before, b * (x + (n - 1)));
        lemma_word_ops(a * before + b * (x + (n - 1)), c as int);
        assert(a * (g.state_mul * s + (g.index_mul * x + g.add)) + b * (x + (n - 1)) + c == (a
            * g.state_mul) * s + ((a * g.index_mul + b) * x + (a * g.add + b * (n - 1) + c)))
            by (nonlinear_arith);
    }
}

/// Whether an exit mask keeps the whole word.
pub open spec fn mask_is_full(mask: Option<u64>) -> bool {
    mask is None || mask == Some(u64::MAX)
}

/// What an affine kernel that exits with its state reduces to.
pub open spec fn closed_form(state_mul: u64, add: u64) -> StmtView {
    if state_mul == 0 {
        StmtView::Exit(add)
    } else {
        StmtView::RuntimeSeededAffineClosedForm { state_mul, add, exit_with_state: true }
    }
}

/// A 32-bit word extended to 64 bits with copies of its top bit.
pub open spec fn sign_extended(half: u32) -> u64 {
    if half < 0x8000_0000 {
        half as u64
    } else {
        (half + 0xffff_ffff_0000_0000) as u64
    }
}

/// A statement with its recurrence replaced by a closed form, if it has one
/// and ends with the recurrence's own value.
pub open spec fn fold_kernel(stmt: StmtView) -> StmtView {
    match stmt {
        StmtView::RuntimeSeededLcgLoop { iterations, mul, add, exit_with_state, exit_mask } => {
            if exit_with_state && mask_is_full(exit_mask) {
                let map = affine_iterate(mul as int, add as int, iterations as nat);
                closed_form(word(map.mul), word(map.add))
            } else {
                stmt
            }
        },
        StmtView::RuntimeSeededAffineIndexLoop {
            iterations,
            index_init,
            state_mul,
            index_mul,
            add,
            state_mask,
            exit_with_state,
            exit_mask,
        } => {
            if exit_with_state && state_mask == u64::MAX && mask_is_full(exit_mask) {
                let map = affine_index_iterate(
                    affine_index_step(state_mul as u64, index_mul as u64, sign_extended(add)),
                    iterations as nat,
                ).on_words();
                closed_form(
                    map.state_mul,
                    map.index_mul.wrapping_mul(index_init).wrapping_add(map.add),
                )
            } else {
                stmt
            }
        },
        StmtView::RuntimeSeededAffineClosedForm { state_mul, add, exit_with_state } => {
            if exit_with_state {
                closed_form(state_mul, add)
            } else {
                StmtView::Exit(0)
            }
        },
        _ => stmt,
    }
}

/// A kernel after which the rest of the program is dropped.
pub open spec fn kernel_ends_program(stmt: StmtView) -> bool {
    match stmt {
        StmtView::RuntimeLcgLoop { .. }
        | StmtView::RuntimeRingWriteLoop { .. }
        | StmtView::RuntimePrefixScanLoop { .. }
        | StmtView::RuntimeBloomFilterLoop { .. }
        | StmtView::RuntimeAffineIndexLoop { .. } => true,
        _ => false,
    }
}

/// The statements from `start` on with kernels folded, up to the first kernel
/// that ends the program.
pub open spec fn fold_kernels(stmts: Seq<StmtView>, start: int) -> Seq<StmtView>
    decreases stmts.len() - start,
{
    if start >= stmts.len() {
        seq![]
    } else if kernel_ends_program(stmts[start]) {
        seq![stmts[start]]
    } else {
        seq![fold_kernel(stmts[start])] + fold_kernels(stmts, start + 1)
    }
}

/// Whether an exit mask keeps the whole word.
fn exit_mask_is_full(mask: Option<u64>) -> (full: bool)
    ensures
        full == mask_is_full(mask),
{
    match mask {
        Some(bits) => bits == u64::MAX,
        None => true,
    }
}

/// The statement an affine kernel reduces to.
fn closed_form_stmt(state_mul: u64, add: u64) -> (stmt: LoweredStmt)
    ensures
        stmt@ == closed_form(state_mul, add),
{
    if state_mul == 0 {
        LoweredStmt::Exit(add)
    } else {
        LoweredStmt::RuntimeSeededAffineClosedForm { state_mul, add, exit_with_state: true }
    }
}

/// Extends a 32-bit word to 64 bits with copies of its top bit.
fn sign_extend(half: u32) -> (extended: u64)
    ensures
        extended == sign_extended(half),
{
    assert(half < 0x8000_0000 ==> (half as i32 as i64) as u64 == half as u64) by (bit_vector);
    assert(half >= 0x8000_0000 ==> (half as i32 as i64) as u64 as int == half as int
        + 0xffff_ffff_0000_0000) by (bit_vector);
    (half as i32 as i64) as u64
}

/// Replaces the recurrence of one kernel by its closed form.
fn fold_runtime_kernel(stmt: &LoweredStmt) -> (folded: LoweredStmt)
    ensures
        folded@ == fold_kernel(stmt@),
{
    match stmt {
        LoweredStmt::RuntimeSeededLcgLoop { iterations, mul, add, exit_with_state, exit_mask } => {
            if *exit_with_state && exit_mask_is_full(*exit_mask) {
                let (state_mul, folded_add) = affine_pow(*mul as u64, *add as u64, *iterations);
                closed_form_stmt(state_mul, folded_add)
            } else {
                stmt.clone()
            }
        },
        LoweredStmt::RuntimeSeededAffineIndexLoop {
            iterations,
            index_init,
            state_mul,
            index_mul,
            add,
            state_mask,
            exit_with_state,
            exit_mask,
        } => {
            if *exit_with_state && *state_mask == u64::MAX && exit_mask_is_full(*exit_mask) {
                let (a, b, c) = affine_index_pow(
                    *state_mul as u64,
                    *index_mul as u64,
                    sign_extend(*add),
                    *iterations,
                );
                let folded_add: u64 = b.wrapping_mul(*index_init).wrapping_add(c);
                closed_form_stmt(a, folded_add)
            } else {
                stmt.clone()
            }
        },
        LoweredStmt::RuntimeSeededAffineClosedForm { state_mul, add, exit_with_state } => {
            if *exit_with_state {
                closed_form_stmt(*state_mul, *add)
            } else {
                LoweredStmt::Exit(0)
            }
        },
        _ => stmt.clone(),
    }
}

/// Replaces affine recurrence kernels by their closed forms. Kernels whose loop
/// is the workload itself stay, and end the program.
pub fn fold_runtime_kernels(stmts: Vec<LoweredStmt>) -> (folded: Vec<LoweredStmt>)
    ensures
        stmts_view(folded@) == fold_kernels(stmts_view(stmts@), 0),
{
    let ghost input = stmts_view(stmts@);
    let mut out: Vec<LoweredStmt> = Vec::with_capacity(stmts.len());
    let mut i: usize = 0;
    while i < stmts.len()
        invariant
            i <= stmts@.len(),
            input == stmts_view(stmts@),
            stmts_view(out@) + fold_kernels(input, i as int) == fold_kernels(input, 0),
        decreases stmts@.len() - i,
    {
        assert(input[i as int] == stmts@[i as int]@);
        let ghost before = stmts_view(out@);
        match &stmts[i] {
            LoweredStmt::RuntimeLcgLoop { .. }
            | LoweredStmt::RuntimeRingWriteLoop { .. }
            | LoweredStmt::RuntimePrefixScanLoop { .. }
            | LoweredStmt::RuntimeBloomFilterLoop { .. }
            | LoweredStmt::RuntimeAffineIndexLoop { .. } => {
                out.push(stmts[i].clone());
                assert(stmts_view(out@) =~= before + seq![input[i as int]]);
                return out;
            },
            other => {
                out.push(fold_runtime_kernel(other));
                proof {
                    assert(stmts_view(out@) =~= before + seq![fold_kernel(input[i as int])]);
                    assert(stmts_view(out@) + fold_kernels(input, i + 1) =~= before + (
                    seq![fold_kernel(input[i as int])] + fold_kernels(input, i + 1)));
                }
            },
        }
        i = i + 1;
    }
    assert(stmts_view(out@) + fold_kernels(input, i as int) =~= stmts_view(out@));
    out
}

} // verus!
