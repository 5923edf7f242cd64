//! Programs before and after optimization, on a machine that runs them.

use aziky::ir::{
    LoweredStmt, RuntimeBinOp, RuntimeCmpOp, RuntimeFloatBinOp, RuntimeInstr, RuntimeLoadKind,
    RuntimeOperand, RuntimeProgram,
};
use aziky::optimizer::consts::{
    eval_runtime_binop, eval_runtime_comparison, fold_binop_identity, fold_binop_in_place_is_nop,
    normalize_const_int,
};
use aziky::optimizer::control_flow::simplify_runtime_control_flow_instrs;
use aziky::optimizer::copies::copy_propagate_runtime_instrs;
use aziky::optimizer::facts::{upper_bound_for_binop_facts, SlotFacts};
use aziky::optimizer::kernels::{affine_index_pow, affine_pow, fold_runtime_kernels};
use aziky::optimizer::lookahead::optimize_lcg_lookahead;
use aziky::optimizer::moves::drop_overwritten_moves_in_program;
use aziky::optimizer::peephole::peephole_optimize_runtime_instrs;
use aziky::optimizer::pipeline::{
    compact_runtime_generic_slots, copy_propagate_runtime_generic,
    eliminate_overwritten_runtime_moves, eliminate_runtime_loop_bounds_checks,
    inline_runtime_generic_leaf_calls, lcg_lookahead_optimize_runtime_generic,
    optimize_semantics_ir, peephole_optimize_runtime_generic,
    simplify_runtime_generic_control_flow, specialize_runtime_generic_invariant_constants,
    tail_call_optimization, unroll_runtime_small_counted_loops,
};
use aziky::optimizer::prints::{const_fold, dead_print_elimination, hoist_loop_invariants};
use aziky::optimizer::ready::{is_program_ready, is_ready};
use aziky::optimizer::search::{
    binary_log, eliminate_canonical_binary_search_bounds_checks,
};
use aziky::optimizer::slots::compact_runtime_program_slots;
use aziky::optimizer::specialize::specialize_runtime_invariant_constants_instrs;
use aziky::optimizer::unroll::unroll_runtime_small_counted_loops_in_program;

const BIN_OPS: [RuntimeBinOp; 13] = [
    RuntimeBinOp::Add,
    RuntimeBinOp::Sub,
    RuntimeBinOp::Mul,
    RuntimeBinOp::DivUnsigned,
    RuntimeBinOp::DivSigned,
    RuntimeBinOp::ModUnsigned,
    RuntimeBinOp::ModSigned,
    RuntimeBinOp::BitAnd,
    RuntimeBinOp::BitOr,
    RuntimeBinOp::BitXor,
    RuntimeBinOp::Shl,
    RuntimeBinOp::ShrUnsigned,
    RuntimeBinOp::ShrSigned,
];

const CMP_OPS: [RuntimeCmpOp; 10] = [
    RuntimeCmpOp::Eq,
    RuntimeCmpOp::Ne,
    RuntimeCmpOp::LtUnsigned,
    RuntimeCmpOp::LeUnsigned,
    RuntimeCmpOp::GtUnsigned,
    RuntimeCmpOp::GeUnsigned,
    RuntimeCmpOp::LtSigned,
    RuntimeCmpOp::LeSigned,
    RuntimeCmpOp::GtSigned,
    RuntimeCmpOp::GeSigned,
];

const SLOTS: usize = 5;

fn no_floats(_bits: u16, _op: RuntimeFloatBinOp, _lhs: u64, _rhs: u64) -> Option<u64> {
    None
}

fn slot(number: usize) -> RuntimeOperand {
    RuntimeOperand::Slot(number)
}

fn imm(value: u64) -> RuntimeOperand {
    RuntimeOperand::Imm(value)
}

/// Numbers that look random and are the same in every run.
struct Numbers(u64);

impl Numbers {
    fn next(&mut self, below: u64) -> u64 {
        self.0 = self.0.wrapping_mul(6364136223846793005).wrapping_add(1442695040888963407);
        (self.0 >> 33) % below
    }

    fn operand(&mut self) -> RuntimeOperand {
        match self.next(6) {
            0 => imm(0),
            1 => imm(1),
            2 => imm(u64::MAX),
            3 => imm(self.next(100)),
            _ => slot(self.next(SLOTS as u64) as usize),
        }
    }

    fn instr(&mut self) -> RuntimeInstr {
        let dst = self.next(SLOTS as u64) as usize;
        let op = BIN_OPS[self.next(13) as usize];
        match self.next(6) {
            0 | 1 => RuntimeInstr::Mov { dst, src: self.operand() },
            2 => RuntimeInstr::BinOp { dst, op, lhs: self.operand(), rhs: self.operand() },
            3 => RuntimeInstr::BinOpInPlace { dst, op, rhs: self.operand() },
            4 => {
                let op = CMP_OPS[self.next(10) as usize];
                RuntimeInstr::Cmp { dst, op, lhs: self.operand(), rhs: self.operand() }
            }
            _ => {
                let bits = [8, 16, 32, 64][self.next(4) as usize];
                RuntimeInstr::NormalizeInt { dst, signed: self.next(2) == 0, bits }
            }
        }
    }
}

/// How a run ends: with the slots at the end of the code, with a code, or in a
/// trap.
#[derive(Debug, PartialEq)]
enum Outcome {
    End(Vec<u64>),
    Exit(u64),
    Trap,
}

/// Runs code on slots; the seed is what a load of entropy gives.
fn run(instrs: &[RuntimeInstr], mut slots: Vec<u64>, seed: u64) -> Outcome {
    let mut at = 0;
    for _ in 0..100_000 {
        let Some(instr) = instrs.get(at) else {
            return Outcome::End(slots);
        };
        let value = |operand: &RuntimeOperand| match operand {
            RuntimeOperand::Slot(number) => slots[*number],
            RuntimeOperand::Imm(value) => *value,
        };
        at += 1;
        let (dst, result) = match instr {
            RuntimeInstr::LoadSeed { dst, .. } => (*dst, Some(seed)),
            RuntimeInstr::Mov { dst, src } => (*dst, Some(value(src))),
            RuntimeInstr::BinOp { dst, op, lhs, rhs } => {
                (*dst, eval_runtime_binop(*op, value(lhs), value(rhs)))
            }
            RuntimeInstr::BinOpInPlace { dst, op, rhs } => {
                (*dst, eval_runtime_binop(*op, slots[*dst], value(rhs)))
            }
            RuntimeInstr::Cmp { dst, op, lhs, rhs } => {
                (*dst, Some(eval_runtime_comparison(*op, value(lhs), value(rhs))))
            }
            RuntimeInstr::NormalizeInt { dst, signed, bits } => {
                (*dst, Some(normalize_const_int(slots[*dst], *signed, *bits)))
            }
            RuntimeInstr::LoadIndex { dst, base_slots, index } => {
                let number = base_slots.get(value(index) as usize);
                (*dst, number.map(|number| slots[*number]))
            }
            RuntimeInstr::LoadIndexUnchecked { dst, base_slots, index } => {
                (*dst, Some(slots[base_slots[value(index) as usize]]))
            }
            RuntimeInstr::Jump { target } => {
                at = *target;
                continue;
            }
            RuntimeInstr::JumpIfZero { cond_slot, target } => {
                if slots[*cond_slot] == 0 {
                    at = *target;
                }
                continue;
            }
            RuntimeInstr::JumpIfCmpFalse { op, lhs, rhs, target } => {
                if eval_runtime_comparison(*op, value(lhs), value(rhs)) == 0 {
                    at = *target;
                }
                continue;
            }
            RuntimeInstr::Exit { code } => return Outcome::Exit(value(code)),
            other => panic!("unexpected instruction {other:?}"),
        };
        match result {
            Some(result) => slots[dst] = result,
            None => return Outcome::Trap,
        }
    }
    panic!("the code does not end")
}

/// A word of one or two patterns, or one that looks random.
fn words() -> Vec<u64> {
    let mut numbers = Numbers(5);
    let mut words = vec![0, 1, 2, 63, 64, 127, 128, 255, 256, 1 << 31, 1 << 32, 1 << 63, u64::MAX];
    for _ in 0..20 {
        words.push(numbers.next(1 << 30) << numbers.next(35));
    }
    words
}

#[test]
fn normalizing_twice_is_normalizing_once() {
    for word in words() {
        for bits in 1..=64 {
            for signed in [false, true] {
                let once = normalize_const_int(word, signed, bits);
                assert_eq!(normalize_const_int(once, signed, bits), once);
                if !signed && bits < 64 {
                    assert!(once < 1 << bits);
                }
            }
        }
    }
    assert_eq!(normalize_const_int(0x1ff, true, 8), u64::MAX);
    assert_eq!(normalize_const_int(0x1ff, false, 8), 0xff);
    assert_eq!(normalize_const_int(0x17f, true, 8), 0x7f);
}

#[test]
fn operations_that_trap_have_no_value() {
    for op in [RuntimeBinOp::DivUnsigned, RuntimeBinOp::ModUnsigned, RuntimeBinOp::DivSigned] {
        assert_eq!(eval_runtime_binop(op, 7, 0), None);
    }
    assert_eq!(eval_runtime_binop(RuntimeBinOp::DivSigned, 1 << 63, u64::MAX), None);
    assert_eq!(eval_runtime_binop(RuntimeBinOp::ModSigned, 7, 0), None);
    let minus = |value: u64| value.wrapping_neg();
    assert_eq!(eval_runtime_binop(RuntimeBinOp::DivSigned, minus(7), 2), Some(minus(3)));
    assert_eq!(eval_runtime_binop(RuntimeBinOp::ModSigned, minus(7), 2), Some(minus(1)));
    assert_eq!(eval_runtime_binop(RuntimeBinOp::Shl, 1, 65), Some(2));
    assert_eq!(eval_runtime_binop(RuntimeBinOp::ShrSigned, minus(8), 1), Some(minus(4)));
    assert_eq!(eval_runtime_comparison(RuntimeCmpOp::LtSigned, minus(1), 0), 1);
    assert_eq!(eval_runtime_comparison(RuntimeCmpOp::LtUnsigned, minus(1), 0), 0);
}

#[test]
fn operands_that_change_nothing_are_left_out() {
    for op in BIN_OPS {
        for left in words() {
            for right in words() {
                if fold_binop_in_place_is_nop(op, &imm(right)) {
                    assert_eq!(eval_runtime_binop(op, left, right), Some(left));
                }
                for (lhs, rhs) in [(slot(0), imm(right)), (imm(left), slot(1))] {
                    let folded = fold_binop_identity(op, &lhs, &rhs);
                    let value = |operand: RuntimeOperand| match operand {
                        RuntimeOperand::Slot(0) => left,
                        RuntimeOperand::Slot(_) => right,
                        RuntimeOperand::Imm(value) => value,
                    };
                    if let (Some(operand), Some(result)) =
                        (folded, eval_runtime_binop(op, left, right))
                    {
                        assert_eq!(value(operand), result, "{op:?} {left} {right}");
                    }
                }
            }
        }
    }
}

#[test]
fn closed_forms_are_the_steps() {
    let mut numbers = Numbers(9);
    for steps in 0..40 {
        let (mul, add) = (numbers.next(1 << 30) << 20, numbers.next(1 << 30));
        let (a, b, c) = (numbers.next(1 << 30), numbers.next(1 << 30), numbers.next(1 << 30));
        let (state, first) = (numbers.next(1 << 30), numbers.next(1 << 30));
        let (power, sum) = affine_pow(mul, add, steps);
        let (state_mul, index_mul, constant) = affine_index_pow(a, b, c, steps);
        let (mut lcg, mut indexed) = (state, state);
        for step in 0..steps {
            lcg = lcg.wrapping_mul(mul).wrapping_add(add);
            let index = first.wrapping_add(step);
            indexed = a.wrapping_mul(indexed).wrapping_add(b.wrapping_mul(index)).wrapping_add(c);
        }
        assert_eq!(state.wrapping_mul(power).wrapping_add(sum), lcg);
        let folded = state_mul
            .wrapping_mul(state)
            .wrapping_add(index_mul.wrapping_mul(first))
            .wrapping_add(constant);
        assert_eq!(folded, indexed);
    }
}

#[test]
fn straight_code_keeps_its_effect() {
    let mut numbers = Numbers(1);
    let mut ended = 0;
    for _ in 0..3000 {
        let count = 1 + numbers.next(12);
        let code: Vec<RuntimeInstr> = (0..count).map(|_| numbers.instr()).collect();
        let start: Vec<u64> =
            (0..SLOTS).map(|_| numbers.next(1 << 30) << numbers.next(35)).collect();
        let before = run(&code, start.clone(), 0);
        if before == Outcome::Trap {
            continue;
        }
        ended += 1;
        let folded = peephole_optimize_runtime_instrs(SLOTS, &code, &no_floats);
        assert_eq!(run(&folded, start.clone(), 0), before, "{code:?}");
        let renamed = copy_propagate_runtime_instrs(SLOTS, &code);
        assert_eq!(run(&renamed, start.clone(), 0), before, "{code:?}");
        let program = RuntimeProgram { slots: SLOTS, instrs: code };
        let smaller = drop_overwritten_moves_in_program(program);
        assert_eq!(run(&smaller.instrs, start, 0), before);
    }
    assert!(ended > 1000);
}

/// What a program prints and leaves with, from slots of zero.
fn seen(instrs: &[RuntimeInstr], count: usize) -> Vec<String> {
    let mut slots = vec![0u64; count];
    let mut out = Vec::new();
    let mut at = 0;
    for _ in 0..100_000 {
        let Some(instr) = instrs.get(at) else {
            return out;
        };
        let value = |operand: &RuntimeOperand| match operand {
            RuntimeOperand::Slot(number) => slots[*number],
            RuntimeOperand::Imm(value) => *value,
        };
        at += 1;
        match instr {
            RuntimeInstr::PrintInt { value: number, signed, bits } => {
                out.push(format!("{} {signed} {bits}", value(number)));
            }
            RuntimeInstr::PrintConst { text } => out.push(text.clone()),
            RuntimeInstr::Exit { code } => {
                out.push(format!("exit {}", value(code)));
                return out;
            }
            RuntimeInstr::Jump { target } => at = *target,
            RuntimeInstr::JumpIfZero { cond_slot, target } => {
                if slots[*cond_slot] == 0 {
                    at = *target;
                }
            }
            RuntimeInstr::JumpIfCmpFalse { op, lhs, rhs, target } => {
                if eval_runtime_comparison(*op, value(lhs), value(rhs)) == 0 {
                    at = *target;
                }
            }
            _ => match run(&instrs[at - 1..at], slots.clone(), 0) {
                Outcome::End(after) => slots = after,
                other => panic!("unexpected end {other:?}"),
            },
        }
    }
    panic!("the code does not end")
}

/// Doubles a number until it is large, and prints it where it is even in the third
/// bit.
fn doubling(start: u64, limit: u64) -> Vec<RuntimeInstr> {
    let binop = |dst: usize, op: RuntimeBinOp, lhs: usize, rhs: u64| RuntimeInstr::BinOp {
        dst,
        op,
        lhs: slot(lhs),
        rhs: imm(rhs),
    };
    vec![
        RuntimeInstr::Mov { dst: 1, src: imm(start) },
        RuntimeInstr::Mov { dst: 4, src: slot(1) },
        RuntimeInstr::JumpIfCmpFalse {
            op: RuntimeCmpOp::LtUnsigned,
            lhs: slot(4),
            rhs: imm(limit),
            target: 12,
        },
        binop(6, RuntimeBinOp::BitAnd, 4, 4),
        RuntimeInstr::JumpIfZero { cond_slot: 6, target: 6 },
        RuntimeInstr::Jump { target: 8 },
        RuntimeInstr::Jump { target: 7 },
        RuntimeInstr::PrintInt { value: slot(4), signed: false, bits: 64 },
        binop(4, RuntimeBinOp::Mul, 4, 2),
        binop(4, RuntimeBinOp::Add, 4, 1),
        RuntimeInstr::Mov { dst: 6, src: imm(9) },
        RuntimeInstr::Jump { target: 2 },
        RuntimeInstr::PrintConst { text: "end".to_string() },
        RuntimeInstr::Exit { code: slot(6) },
    ]
}

#[test]
fn optimized_branches_print_the_same() {
    assert_eq!(
        seen(&doubling(0, 20), 8),
        ["0 false 64", "1 false 64", "3 false 64", "end", "exit 9"]
    );
    for start in 0..40 {
        for limit in [0, 1, 10, 1000] {
            let code = doubling(start, limit);
            let program = RuntimeProgram { slots: 8, instrs: code.clone() };
            let stmts = optimize_semantics_ir(
                vec![LoweredStmt::RuntimeGeneric { program }],
                &no_floats,
            );
            let LoweredStmt::RuntimeGeneric { program } = &stmts[0] else {
                panic!("the program is gone");
            };
            assert!(program.slots < 8 && program.instrs.len() < code.len());
            assert_eq!(seen(&program.instrs, program.slots), seen(&code, 8));
        }
    }
}

#[test]
fn unrolled_loops_print_the_same() {
    let code = vec![
        RuntimeInstr::Mov { dst: 3, src: imm(0) },
        RuntimeInstr::JumpIfCmpFalse {
            op: RuntimeCmpOp::LtUnsigned,
            lhs: slot(3),
            rhs: imm(4),
            target: 6,
        },
        RuntimeInstr::BinOp { dst: 5, op: RuntimeBinOp::Mul, lhs: slot(3), rhs: imm(3) },
        RuntimeInstr::PrintInt { value: slot(5), signed: false, bits: 64 },
        RuntimeInstr::BinOpInPlace { dst: 3, op: RuntimeBinOp::Add, rhs: imm(1) },
        RuntimeInstr::Jump { target: 1 },
        RuntimeInstr::Exit { code: slot(3) },
    ];
    let before = seen(&code, 6);
    assert_eq!(before, ["0 false 64", "3 false 64", "6 false 64", "9 false 64", "exit 4"]);
    let program = RuntimeProgram { slots: 6, instrs: code };
    let stmts =
        optimize_semantics_ir(vec![LoweredStmt::RuntimeGeneric { program }], &no_floats);
    let LoweredStmt::RuntimeGeneric { program } = &stmts[0] else {
        panic!("the program is gone");
    };
    assert!(!program.instrs.iter().any(|instr| {
        matches!(instr, RuntimeInstr::JumpIfCmpFalse { .. })
    }));
    assert_eq!(seen(&program.instrs, program.slots), before);
}

#[test]
fn versioned_loops_print_the_same() {
    let code = vec![
        RuntimeInstr::Mov { dst: 0, src: imm(7) },
        RuntimeInstr::Mov { dst: 1, src: imm(8) },
        RuntimeInstr::Mov { dst: 2, src: imm(9) },
        RuntimeInstr::BinOp { dst: 5, op: RuntimeBinOp::Add, lhs: slot(6), rhs: imm(3) },
        RuntimeInstr::Mov { dst: 4, src: imm(0) },
        RuntimeInstr::JumpIfCmpFalse {
            op: RuntimeCmpOp::LtUnsigned,
            lhs: slot(4),
            rhs: slot(5),
            target: 10,
        },
        RuntimeInstr::LoadIndex { dst: 7, base_slots: vec![0, 1, 2], index: slot(4) },
        RuntimeInstr::PrintInt { value: slot(7), signed: false, bits: 64 },
        RuntimeInstr::BinOpInPlace { dst: 4, op: RuntimeBinOp::Add, rhs: imm(1) },
        RuntimeInstr::Jump { target: 5 },
        RuntimeInstr::Exit { code: slot(4) },
    ];
    let before = seen(&code, 8);
    assert_eq!(before, ["7 false 64", "8 false 64", "9 false 64", "exit 3"]);
    let program = RuntimeProgram { slots: 8, instrs: code };
    let stmts =
        optimize_semantics_ir(vec![LoweredStmt::RuntimeGeneric { program }], &no_floats);
    let LoweredStmt::RuntimeGeneric { program } = &stmts[0] else {
        panic!("the program is gone");
    };
    assert!(program.instrs.iter().any(|instr| {
        matches!(instr, RuntimeInstr::LoadIndexUnchecked { .. })
    }));
    assert!(program.instrs.iter().any(|instr| {
        matches!(instr, RuntimeInstr::Exit { code: RuntimeOperand::Imm(255) })
    }));
    assert_eq!(seen(&program.instrs, program.slots), before);
}

#[test]
fn optimized_straight_code_prints_the_same() {
    let mut numbers = Numbers(9);
    let mut ended = 0;
    for _ in 0..1000 {
        let count = 1 + numbers.next(12);
        let mut code: Vec<RuntimeInstr> = (0..count).map(|_| numbers.instr()).collect();
        if run(&code, vec![0; SLOTS], 0) == Outcome::Trap {
            continue;
        }
        ended += 1;
        let value = numbers.operand();
        code.insert(
            numbers.next(count) as usize,
            RuntimeInstr::PrintInt { value, signed: false, bits: 64 },
        );
        code.push(RuntimeInstr::PrintConst { text: "end".to_string() });
        code.push(RuntimeInstr::Exit { code: numbers.operand() });
        let before = seen(&code, SLOTS);
        let program = RuntimeProgram { slots: SLOTS, instrs: code.clone() };
        let stmts = optimize_semantics_ir(
            vec![LoweredStmt::RuntimeGeneric { program }],
            &no_floats,
        );
        match &stmts[0] {
            LoweredStmt::RuntimeGeneric { program } => {
                assert_eq!(seen(&program.instrs, program.slots), before, "{code:?}");
            }
            other => panic!("unexpected statement {other:?}"),
        }
    }
    assert!(ended > 300);
}

/// A loop that counts a slot from a start to a limit around a body.
fn counted_loop(
    start: u64,
    limit: u64,
    body: Vec<RuntimeInstr>,
    code: RuntimeOperand,
) -> Vec<RuntimeInstr> {
    let seed = RuntimeInstr::LoadSeed {
        dst: 0,
        kind: RuntimeLoadKind::EntropySeed,
        input: None,
    };
    let end = body.len() + 5;
    let mut instrs = vec![
        seed,
        RuntimeInstr::Mov { dst: 1, src: imm(start) },
        RuntimeInstr::JumpIfCmpFalse {
            op: RuntimeCmpOp::LtUnsigned,
            lhs: slot(1),
            rhs: imm(limit),
            target: end,
        },
    ];
    instrs.extend(body);
    instrs.push(RuntimeInstr::BinOpInPlace { dst: 1, op: RuntimeBinOp::Add, rhs: imm(1) });
    instrs.push(RuntimeInstr::Jump { target: 2 });
    instrs.push(RuntimeInstr::Exit { code });
    instrs
}

/// A body for a counted loop: the counter plays into it and stays as it is.
fn body(seed: u64) -> Vec<RuntimeInstr> {
    let mut numbers = Numbers(seed);
    let mut body = vec![RuntimeInstr::BinOpInPlace {
        dst: 0,
        op: RuntimeBinOp::BitXor,
        rhs: slot(1),
    }];
    for _ in 0..1 + numbers.next(3) {
        let op = [RuntimeBinOp::Add, RuntimeBinOp::BitXor, RuntimeBinOp::ShrUnsigned]
            [numbers.next(3) as usize];
        body.push(RuntimeInstr::BinOp {
            dst: [0, 2][numbers.next(2) as usize],
            op,
            lhs: slot(numbers.next(3) as usize),
            rhs: imm(numbers.next(7)),
        });
    }
    body
}

#[test]
fn unrolled_loops_keep_their_effect() {
    let mut smaller = 0;
    for seed in 0..40 {
        for limit in 0..12 {
            let code = counted_loop(2, limit, body(seed), slot(0));
            let mut unrolled = counted_loop(2, limit, body(seed), slot(0));
            unroll_runtime_small_counted_loops_in_program(&mut unrolled);
            if unrolled != code {
                smaller += 1;
            }
            for start in words() {
                let slots = vec![0, 0, 11];
                assert_eq!(run(&unrolled, slots.clone(), start), run(&code, slots, start));
            }
        }
    }
    assert!(smaller > 100);
}

#[test]
fn optimized_loops_end_with_the_same_code() {
    for seed in 0..40 {
        for limit in [0, 1, 3, 8, 40] {
            let code = counted_loop(0, limit, body(seed), slot(0));
            let instrs = counted_loop(0, limit, body(seed), slot(0));
            let program = RuntimeProgram { slots: 3, instrs };
            let stmts = vec![LoweredStmt::RuntimeGeneric { program }];
            let out = optimize_semantics_ir(stmts, &no_floats);
            let Some(LoweredStmt::RuntimeGeneric { program }) = out.first() else {
                panic!("expected runtime generic program");
            };
            for start in words() {
                let after = run(&program.instrs, vec![0; program.slots], start);
                assert_eq!(after, run(&code, vec![0; 3], start), "{seed} {limit}");
            }
        }
    }
}

#[test]
fn simplified_control_flow_stays_in_bounds() {
    let mut numbers = Numbers(3);
    for _ in 0..500 {
        let count = 1 + numbers.next(9);
        let instrs: Vec<RuntimeInstr> = (0..count)
            .map(|_| match numbers.next(4) {
                0 => RuntimeInstr::Jump { target: numbers.next(2 * count) as usize },
                1 => RuntimeInstr::JumpIfZero {
                    cond_slot: 0,
                    target: numbers.next(2 * count) as usize,
                },
                2 => RuntimeInstr::Exit { code: imm(1) },
                _ => numbers.instr(),
            })
            .collect();
        let simple = simplify_runtime_control_flow_instrs(instrs);
        for instr in simple.iter() {
            if let RuntimeInstr::Jump { target } | RuntimeInstr::JumpIfZero { target, .. } = instr {
                assert!(*target <= simple.len());
            }
        }
    }
}

#[test]
fn compaction_keeps_slots_apart() {
    let mut program = RuntimeProgram {
        slots: 20,
        instrs: vec![
            RuntimeInstr::Mov { dst: 17, src: imm(1) },
            RuntimeInstr::BinOp { dst: 4, op: RuntimeBinOp::Add, lhs: slot(17), rhs: slot(9) },
            RuntimeInstr::Jump { target: 3 },
            RuntimeInstr::Exit { code: slot(4) },
        ],
    };
    compact_runtime_program_slots(&mut program);
    assert_eq!(program.slots, 3);
    let expected = vec![
        RuntimeInstr::Mov { dst: 2, src: imm(1) },
        RuntimeInstr::BinOp { dst: 0, op: RuntimeBinOp::Add, lhs: slot(2), rhs: slot(1) },
        RuntimeInstr::Jump { target: 3 },
        RuntimeInstr::Exit { code: slot(0) },
    ];
    assert_eq!(program.instrs, expected);
}

#[test]
fn programs_are_ready_if_their_slots_are_declared() {
    let program = |slots: usize| RuntimeProgram {
        slots,
        instrs: vec![RuntimeInstr::Mov { dst: 3, src: imm(1) }],
    };
    assert!(is_program_ready(&program(4)));
    assert!(!is_program_ready(&program(3)));
    assert!(is_ready(&vec![LoweredStmt::RuntimeGeneric { program: program(4) }]));
    assert!(!is_ready(&vec![
        LoweredStmt::Print("x".into()),
        LoweredStmt::RuntimeGeneric { program: program(3) },
    ]));
}

#[test]
fn logarithms_are_rounded_down() {
    for (value, log) in [(1, 0), (2, 1), (3, 1), (4, 2), (1023, 9), (1024, 10), (u64::MAX, 63)] {
        assert_eq!(binary_log(value), log);
    }
}

/// What statements print before they end, and how they end.
fn printed(stmts: &[LoweredStmt]) -> (String, Option<u64>) {
    let mut text = String::new();
    for stmt in stmts {
        match stmt {
            LoweredStmt::Print(part) => text.push_str(part),
            LoweredStmt::Exit(code) => return (text, Some(*code)),
            other => panic!("unexpected statement {other:?}"),
        }
    }
    (text, None)
}

#[test]
fn passes_on_prints_keep_the_output() {
    let mut numbers = Numbers(21);
    for _ in 0..300 {
        let count = numbers.next(8);
        let drawn: Vec<u64> = (0..count).map(|_| numbers.next(5)).collect();
        let stmts = || -> Vec<LoweredStmt> {
            drawn
                .iter()
                .map(|kind| match kind {
                    0 | 1 => LoweredStmt::Print("x".into()),
                    2 => LoweredStmt::Print("yz".into()),
                    3 => LoweredStmt::Print("".into()),
                    _ => LoweredStmt::Exit(4),
                })
                .collect()
        };
        let before = printed(&stmts());
        assert_eq!(printed(&hoist_loop_invariants(stmts())), before);
        assert_eq!(printed(&const_fold(stmts())), before);
        assert_eq!(printed(&dead_print_elimination(stmts())), before);
        assert_eq!(printed(&optimize_semantics_ir(stmts(), &no_floats)), before);
    }
}

/// A lower-bound search in a table for the seed, of which a mask leaves the low
/// bits. It ends with the position.
fn search(table: &[u64], mask: u64) -> Vec<RuntimeInstr> {
    let count = table.len();
    let (target, low, high, delta, half, middle, copy, loaded, next) = (0, 1, 2, 3, 4, 5, 6, 7, 8);
    let base_slots: Vec<usize> = (9..9 + count).collect();
    let kind = RuntimeLoadKind::EntropySeed;
    let mut instrs = vec![
        RuntimeInstr::LoadSeed { dst: target, kind, input: None },
        RuntimeInstr::BinOp {
            dst: target,
            op: RuntimeBinOp::BitAnd,
            lhs: slot(target),
            rhs: imm(mask),
        },
    ];
    for (at, value) in table.iter().enumerate() {
        instrs.push(RuntimeInstr::Mov { dst: base_slots[at], src: imm(*value) });
    }
    let guard = count + 4;
    let less = |left: usize, right: usize, target: usize| RuntimeInstr::JumpIfCmpFalse {
        op: RuntimeCmpOp::LtUnsigned,
        lhs: slot(left),
        rhs: slot(right),
        target,
    };
    let binary = |dst: usize, op: RuntimeBinOp, left: usize, rhs: RuntimeOperand| {
        RuntimeInstr::BinOp { dst, op, lhs: slot(left), rhs }
    };
    instrs.extend([
        RuntimeInstr::Mov { dst: low, src: imm(0) },
        RuntimeInstr::Mov { dst: high, src: imm(count as u64) },
        less(low, high, guard + 12),
        binary(delta, RuntimeBinOp::Sub, high, slot(low)),
        binary(half, RuntimeBinOp::ShrUnsigned, delta, imm(1)),
        binary(middle, RuntimeBinOp::Add, low, slot(half)),
        RuntimeInstr::Mov { dst: copy, src: slot(middle) },
        RuntimeInstr::LoadIndex { dst: loaded, base_slots, index: slot(middle) },
        less(loaded, target, guard + 10),
        binary(next, RuntimeBinOp::Add, copy, imm(1)),
        RuntimeInstr::Mov { dst: low, src: slot(next) },
        RuntimeInstr::Jump { target: guard },
        RuntimeInstr::Mov { dst: high, src: slot(copy) },
        RuntimeInstr::Jump { target: guard },
        RuntimeInstr::Exit { code: slot(low) },
    ]);
    instrs
}

#[test]
fn searches_load_without_checks() {
    let table = [1, 4, 9, 16, 25, 36, 49];
    let mut instrs = search(&table, 63);
    eliminate_canonical_binary_search_bounds_checks(&mut instrs);
    let is_checked = |instr: &RuntimeInstr| matches!(instr, RuntimeInstr::LoadIndex { .. });
    assert!(search(&table, 63).iter().any(is_checked));
    assert!(!instrs.iter().any(is_checked));
    for wanted in 0..64 {
        let expected = table.iter().filter(|entry| **entry < wanted).count() as u64;
        assert_eq!(run(&instrs, vec![0; 16], wanted), Outcome::Exit(expected));
        assert_eq!(run(&search(&table, 63), vec![0; 16], wanted), Outcome::Exit(expected));
    }
}

#[test]
fn searches_in_even_tables_have_a_closed_form() {
    let table = [0, 4, 8, 12, 16, 20, 24, 28];
    let mut instrs = search(&table, 31);
    eliminate_canonical_binary_search_bounds_checks(&mut instrs);
    assert_eq!(instrs[14], RuntimeInstr::Jump { target: 24 });
    for wanted in 0..32 {
        let expected = Outcome::Exit((wanted + 3) / 4);
        assert_eq!(run(&instrs, vec![0; 17], wanted), expected);
        assert_eq!(run(&search(&table, 31), vec![0; 17], wanted), expected);
    }
    let mut wide = search(&table, 63);
    eliminate_canonical_binary_search_bounds_checks(&mut wide);
    assert!(matches!(wide[12], RuntimeInstr::JumpIfCmpFalse { .. }));
}

/// Steps of a linear congruential generator, each with its factor and summand.
fn steps(pairs: &[(u64, u64)]) -> Vec<RuntimeInstr> {
    let in_place = |op: RuntimeBinOp, value: u64| RuntimeInstr::BinOpInPlace {
        dst: 0,
        op,
        rhs: imm(value),
    };
    pairs
        .iter()
        .flat_map(|(mul, add)| {
            [in_place(RuntimeBinOp::Mul, *mul), in_place(RuntimeBinOp::Add, *add)]
        })
        .collect()
}

#[test]
fn generator_steps_look_ahead_from_four_on() {
    let mut four = steps(&[(3, 1), (3, 1), (3, 1), (3, 1)]);
    optimize_lcg_lookahead(&mut four);
    assert_eq!(four, steps(&[(1, 0), (1, 0), (1, 0), (81, 40)]));
    let mut three = steps(&[(3, 1), (3, 1), (3, 1)]);
    optimize_lcg_lookahead(&mut three);
    assert_eq!(three, steps(&[(3, 1), (3, 1), (3, 1)]));
    let mut read = steps(&[(3, 1), (3, 1), (3, 1), (3, 1)]);
    read.push(RuntimeInstr::Exit { code: slot(0) });
    optimize_lcg_lookahead(&mut read);
    assert_eq!(read[..8], steps(&[(3, 1), (3, 1), (3, 1), (3, 1)]));
}

#[test]
fn generator_steps_that_look_ahead_keep_the_value() {
    for count in 4..10 {
        let code = steps(&vec![(2, 1); count]);
        let mut ahead = code.clone();
        optimize_lcg_lookahead(&mut ahead);
        assert_ne!(ahead, code);
        let end = |code: &[RuntimeInstr]| {
            let mut code = code.to_vec();
            code.push(RuntimeInstr::Exit { code: slot(0) });
            run(&code, vec![5; SLOTS], 0)
        };
        assert_eq!(end(&ahead), end(&code));
    }
    let mut four = steps(&[(2, 1), (2, 1), (2, 1), (2, 1)]);
    optimize_lcg_lookahead(&mut four);
    assert_eq!(four[6..], steps(&[(16, 15)]));
}

/// A program with a call, a thread, a branch and two bodies behind its end.
fn program_with_call_and_thread() -> Vec<LoweredStmt> {
    let add = |dst: usize, value: u64| RuntimeInstr::BinOpInPlace {
        dst,
        op: RuntimeBinOp::Add,
        rhs: imm(value),
    };
    let print = |from: usize| RuntimeInstr::PrintInt { value: slot(from), signed: false, bits: 64 };
    let kind = RuntimeLoadKind::EntropySeed;
    let instrs = vec![
        RuntimeInstr::LoadSeed { dst: 0, kind, input: None },
        RuntimeInstr::Mov { dst: 1, src: imm(3) },
        RuntimeInstr::Call { target: 8 },
        RuntimeInstr::ThreadSpawn { handle_dst: 2, target: 11, return_slot: None },
        RuntimeInstr::ThreadJoin { dst: 3, handle: slot(2) },
        RuntimeInstr::JumpIfZero { cond_slot: 0, target: 7 },
        RuntimeInstr::Jump { target: 7 },
        RuntimeInstr::Exit { code: slot(3) },
        add(1, 5),
        print(1),
        RuntimeInstr::Return,
        add(1, 8),
        print(1),
        RuntimeInstr::Return,
    ];
    vec![LoweredStmt::RuntimeGeneric { program: RuntimeProgram { slots: 6, instrs } }]
}

#[test]
fn every_pass_keeps_all_control_flow_targets_in_bounds() {
    let fold = |stmts: Vec<LoweredStmt>| peephole_optimize_runtime_generic(stmts, &no_floats);
    type Pass<'a> = (&'a str, &'a dyn Fn(Vec<LoweredStmt>) -> Vec<LoweredStmt>);
    let passes: [Pass; 16] = [
        ("hoist_loop_invariants", &hoist_loop_invariants),
        ("const_fold", &const_fold),
        ("fold_runtime_kernels", &fold_runtime_kernels),
        ("inline_leaf_calls", &inline_runtime_generic_leaf_calls),
        ("tail_calls", &tail_call_optimization),
        ("simplify_cfg_1", &simplify_runtime_generic_control_flow),
        ("copy_propagation", &copy_propagate_runtime_generic),
        ("invariant_constants", &specialize_runtime_generic_invariant_constants),
        ("simplify_cfg_2", &simplify_runtime_generic_control_flow),
        ("bounds_checks", &eliminate_runtime_loop_bounds_checks),
        ("small_loop_unroll", &unroll_runtime_small_counted_loops),
        ("lcg_lookahead", &lcg_lookahead_optimize_runtime_generic),
        ("peephole", &fold),
        ("overwritten_moves", &eliminate_overwritten_runtime_moves),
        ("slot_compaction", &compact_runtime_generic_slots),
        ("dead_prints", &dead_print_elimination),
    ];
    let threads = |instrs: &[RuntimeInstr]| -> usize {
        instrs.iter().filter(|instr| matches!(instr, RuntimeInstr::ThreadSpawn { .. })).count()
    };
    let check = |name: &str, stmts: &[LoweredStmt]| {
        let Some(LoweredStmt::RuntimeGeneric { program }) = stmts.first() else {
            panic!("{name} discarded the program");
        };
        assert_eq!(threads(&program.instrs), 1);
        for instr in &program.instrs {
            let target = match instr {
                RuntimeInstr::Jump { target }
                | RuntimeInstr::JumpIfZero { target, .. }
                | RuntimeInstr::JumpIfCmpFalse { target, .. }
                | RuntimeInstr::Call { target } => *target,
                _ => continue,
            };
            assert!(target < program.instrs.len(), "{name}");
        }
    };
    let mut stmts = program_with_call_and_thread();
    for (name, pass) in passes {
        stmts = pass(stmts);
        check(name, &stmts);
    }
    let optimized = optimize_semantics_ir(program_with_call_and_thread(), &no_floats);
    check("optimize", &optimized);
    let Some(LoweredStmt::RuntimeGeneric { program }) = optimized.first() else {
        panic!("the program is gone");
    };
    assert_eq!(program.slots, 4);
}

#[test]
fn what_a_thread_starts_with_is_not_known() {
    let print = RuntimeInstr::PrintInt { value: slot(0), signed: false, bits: 64 };
    let code = vec![
        RuntimeInstr::ThreadSpawn { handle_dst: 1, target: 2, return_slot: None },
        RuntimeInstr::Mov { dst: 0, src: imm(5) },
        print.clone(),
        RuntimeInstr::Return,
    ];
    assert_eq!(peephole_optimize_runtime_instrs(2, &code, &no_floats), code);
    let copies = vec![
        RuntimeInstr::ThreadSpawn { handle_dst: 1, target: 2, return_slot: None },
        RuntimeInstr::Mov { dst: 0, src: slot(1) },
        print,
        RuntimeInstr::Return,
    ];
    assert_eq!(copy_propagate_runtime_instrs(2, &copies), copies);
}

#[test]
fn slots_that_are_only_read_may_lie_anywhere() {
    let code = vec![
        RuntimeInstr::Mov { dst: 0, src: slot(9) },
        RuntimeInstr::Exit { code: slot(9) },
    ];
    assert_eq!(peephole_optimize_runtime_instrs(1, &code, &no_floats), code);
    let beyond = vec![
        RuntimeInstr::BinOp { dst: 9, op: RuntimeBinOp::Add, lhs: slot(0), rhs: imm(1) },
        RuntimeInstr::Mov { dst: 8, src: imm(7) },
        RuntimeInstr::Exit { code: slot(0) },
    ];
    assert_eq!(copy_propagate_runtime_instrs(1, &beyond), beyond);
}

#[test]
fn searches_whose_slots_overlap_keep_their_checks() {
    let table = [1, 4, 9, 16, 25, 36, 49];
    let mut instrs = search(&table, 63);
    for instr in instrs.iter_mut() {
        let same = match instr {
            RuntimeInstr::BinOp { dst, op: RuntimeBinOp::ShrUnsigned, .. } => {
                *dst = 1;
                None
            }
            RuntimeInstr::BinOp { op: RuntimeBinOp::Add, rhs, .. } if *rhs == slot(4) => Some(rhs),
            _ => None,
        };
        if let Some(rhs) = same {
            *rhs = slot(1);
        }
    }
    let before = instrs.clone();
    eliminate_canonical_binary_search_bounds_checks(&mut instrs);
    assert_eq!(instrs, before);
}

#[test]
fn compaction_counts_what_is_used() {
    let instrs = vec![
        RuntimeInstr::Mov { dst: 2, src: slot(7) },
        RuntimeInstr::Exit { code: slot(2) },
    ];
    let mut program = RuntimeProgram { slots: 9, instrs };
    compact_runtime_program_slots(&mut program);
    assert_eq!(program.slots, 2);
    assert_eq!(program.instrs[0], RuntimeInstr::Mov { dst: 0, src: slot(1) });
    let once = program.clone();
    compact_runtime_program_slots(&mut program);
    assert_eq!((program.slots, &program.instrs), (once.slots, &once.instrs));
}

#[test]
fn shifts_by_constants_have_bounds() {
    let at_most = |value: u64| SlotFacts { upper: Some(value), exact: None };
    let shl = |value: u64, by: u64| {
        upper_bound_for_binop_facts(RuntimeBinOp::Shl, at_most(value), SlotFacts::imm(by))
    };
    assert_eq!(shl(3, 2), Some(12));
    assert_eq!(shl(3, 62), Some(3 << 62));
    assert_eq!(shl(3, 63), Some(1 << 63));
    assert_eq!(shl(3, 66), Some(0));
    let shr = |value: u64, by: u64| {
        upper_bound_for_binop_facts(RuntimeBinOp::ShrUnsigned, at_most(value), SlotFacts::imm(by))
    };
    assert_eq!(shr(12, 2), Some(3));
    assert_eq!(shr(12, 64), Some(0));
}

#[test]
fn constants_settle_branches() {
    let code = |value: u64| {
        vec![
            RuntimeInstr::Mov { dst: 0, src: imm(value) },
            RuntimeInstr::NormalizeInt { dst: 0, signed: true, bits: 16 },
            RuntimeInstr::JumpIfZero { cond_slot: 0, target: 4 },
            RuntimeInstr::Exit { code: imm(1) },
            RuntimeInstr::Exit { code: imm(2) },
        ]
    };
    for (value, target) in [(0, 4), (256, 3)] {
        let settled = specialize_runtime_invariant_constants_instrs(code(value));
        assert_eq!(settled[2], RuntimeInstr::Jump { target });
        assert_eq!(run(&settled, vec![0; SLOTS], 0), run(&code(value), vec![0; SLOTS], 0));
    }
}
