//! The optimizer on small programs.

use aziky::ir::{
    LoweredStmt, RuntimeBinOp, RuntimeCmpOp, RuntimeFloatBinOp, RuntimeInstr, RuntimeLoadKind,
    RuntimeOperand, RuntimeProgram,
};
use aziky::optimizer::copies::copy_propagate_runtime_instrs;
use aziky::optimizer::peephole::peephole_optimize_runtime_instrs;
use aziky::optimizer::pipeline::{eliminate_overwritten_runtime_moves, optimize_semantics_ir};
use aziky::optimizer::slots::compact_runtime_program_slots;

/// Evaluates a floating-point operation on the bits of its operands.
fn eval_float(bits: u16, op: RuntimeFloatBinOp, lhs: u64, rhs: u64) -> Option<u64> {
    match bits {
        32 => {
            let (a, b) = (f32::from_bits(lhs as u32), f32::from_bits(rhs as u32));
            let value = match op {
                RuntimeFloatBinOp::Add => a + b,
                RuntimeFloatBinOp::Sub => a - b,
                RuntimeFloatBinOp::Mul => a * b,
                RuntimeFloatBinOp::Div => a / b,
            };
            Some(u64::from(value.to_bits()))
        }
        64 => {
            let (a, b) = (f64::from_bits(lhs), f64::from_bits(rhs));
            let value = match op {
                RuntimeFloatBinOp::Add => a + b,
                RuntimeFloatBinOp::Sub => a - b,
                RuntimeFloatBinOp::Mul => a * b,
                RuntimeFloatBinOp::Div => a / b,
            };
            Some(value.to_bits())
        }
        _ => None,
    }
}

fn optimize(stmts: Vec<LoweredStmt>) -> Vec<LoweredStmt> {
    optimize_semantics_ir(stmts, &eval_float)
}

#[test]
fn optimize_pipeline_merges_and_prunes() {
    let input = vec![
        LoweredStmt::Print("x".into()),
        LoweredStmt::Print("x".into()),
        LoweredStmt::Print("".into()),
        LoweredStmt::Print("y".into()),
        LoweredStmt::Exit(0),
        LoweredStmt::Print("z".into()),
    ];
    let out = optimize(input);
    assert_eq!(out.len(), 2);
    match &out[0] {
        LoweredStmt::Print(text) => assert_eq!(text, "xxy"),
        _ => panic!("expected first stmt to be print"),
    }
    assert!(matches!(out[1], LoweredStmt::Exit(0)));
}

#[test]
fn peephole_does_not_leak_exit_path_constants_into_a_branch_target() {
    let instrs = vec![
        RuntimeInstr::JumpIfCmpFalse {
            op: RuntimeCmpOp::Eq,
            lhs: RuntimeOperand::Slot(1),
            rhs: RuntimeOperand::Imm(1),
            target: 3,
        },
        RuntimeInstr::Mov {
            dst: 0,
            src: RuntimeOperand::Imm(0),
        },
        RuntimeInstr::Exit {
            code: RuntimeOperand::Imm(101),
        },
        RuntimeInstr::HeapCopy {
            dst_ptr: RuntimeOperand::Slot(2),
            src_ptr: RuntimeOperand::Slot(0),
            bytes: RuntimeOperand::Slot(3),
        },
    ];

    let optimized = peephole_optimize_runtime_instrs(4, &instrs, &eval_float);
    assert!(matches!(
        optimized.last(),
        Some(RuntimeInstr::HeapCopy {
            src_ptr: RuntimeOperand::Slot(0),
            ..
        })
    ));
}

#[test]
fn peephole_does_not_leak_constants_across_forward_merge_points() {
    let instrs = vec![
        RuntimeInstr::JumpIfCmpFalse {
            op: RuntimeCmpOp::Eq,
            lhs: RuntimeOperand::Slot(2),
            rhs: RuntimeOperand::Imm(0),
            target: 3,
        },
        RuntimeInstr::Mov {
            dst: 0,
            src: RuntimeOperand::Imm(13),
        },
        RuntimeInstr::Jump { target: 4 },
        RuntimeInstr::Mov {
            dst: 0,
            src: RuntimeOperand::Imm(99),
        },
        RuntimeInstr::Mov {
            dst: 1,
            src: RuntimeOperand::Slot(0),
        },
        RuntimeInstr::Exit {
            code: RuntimeOperand::Slot(1),
        },
    ];

    let optimized = peephole_optimize_runtime_instrs(3, &instrs, &eval_float);
    assert!(matches!(
        optimized.last(),
        Some(RuntimeInstr::Exit {
            code: RuntimeOperand::Slot(1),
        })
    ));
}

#[test]
fn overwritten_move_elimination_stops_at_reads_and_control_flow() {
    let program = RuntimeProgram {
        slots: 3,
        instrs: vec![
            RuntimeInstr::Mov {
                dst: 0,
                src: RuntimeOperand::Imm(1),
            },
            RuntimeInstr::Mov {
                dst: 1,
                src: RuntimeOperand::Slot(0),
            },
            RuntimeInstr::Mov {
                dst: 0,
                src: RuntimeOperand::Imm(2),
            },
            RuntimeInstr::Mov {
                dst: 2,
                src: RuntimeOperand::Imm(3),
            },
            RuntimeInstr::Mov {
                dst: 2,
                src: RuntimeOperand::Imm(4),
            },
            RuntimeInstr::Jump { target: 7 },
            RuntimeInstr::Mov {
                dst: 1,
                src: RuntimeOperand::Imm(9),
            },
            RuntimeInstr::Exit {
                code: RuntimeOperand::Slot(1),
            },
        ],
    };
    let out = eliminate_overwritten_runtime_moves(vec![LoweredStmt::RuntimeGeneric { program }]);
    let LoweredStmt::RuntimeGeneric { program } = &out[0] else {
        panic!("expected runtime generic program");
    };

    assert!(program.instrs.iter().any(|instr| matches!(
        instr,
        RuntimeInstr::Mov {
            dst: 0,
            src: RuntimeOperand::Imm(1)
        }
    )));
    assert!(!program.instrs.iter().any(|instr| matches!(
        instr,
        RuntimeInstr::Mov {
            dst: 2,
            src: RuntimeOperand::Imm(3)
        }
    )));
    assert!(matches!(
        program
            .instrs
            .iter()
            .find(|instr| matches!(instr, RuntimeInstr::Jump { .. })),
        Some(RuntimeInstr::Jump { target: 6 })
    ));
}

#[test]
fn optimize_keeps_runtime_lcg_for_runtime_measurement() {
    let input = vec![LoweredStmt::RuntimeLcgLoop {
        iterations: 32,
        state_init: 1,
        mul: 1_664_525,
        add: 1_013_904_223,
        exit_with_state: true,
        exit_mask: Some(u64::MAX),
    }];
    let out = optimize(input);
    assert_eq!(out.len(), 1);
    assert!(matches!(
        out.first(),
        Some(LoweredStmt::RuntimeLcgLoop {
            iterations: 32,
            state_init: 1,
            ..
        })
    ));
}

#[test]
fn optimize_folds_seeded_runtime_lcg_to_closed_form() {
    let input = vec![LoweredStmt::RuntimeSeededLcgLoop {
        iterations: 32,
        mul: 1_664_525,
        add: 1_013_904_223,
        exit_with_state: true,
        exit_mask: Some(u64::MAX),
    }];
    let out = optimize(input);
    assert!(matches!(
        out.first(),
        Some(LoweredStmt::RuntimeSeededAffineClosedForm { .. })
    ));
}

#[test]
fn optimize_keeps_seeded_alloc_runtime_lcg() {
    let input = vec![LoweredStmt::RuntimeSeededLcgAllocLoop {
        iterations: 32,
        mul: 1_664_525,
        add: 1_013_904_223,
        alloc_bytes: 65_536,
        exit_with_state: true,
    }];
    let out = optimize(input);
    assert!(matches!(
        out.first(),
        Some(LoweredStmt::RuntimeSeededLcgAllocLoop { alloc_bytes, .. }) if *alloc_bytes == 65_536
    ));
}

#[test]
fn optimize_keeps_seeded_branch_runtime_lcg() {
    let out = optimize(vec![LoweredStmt::RuntimeSeededPredictableBranchLcgLoop {
        iterations: 64,
        then_iterations: 16,
        then_mul: 1_664_525,
        then_add: 1_013_904_223,
        else_mul: 22_695_477,
        else_add: 1,
        exit_with_state: true,
        exit_mask: Some(u64::MAX),
    }]);
    assert!(matches!(
        out.first(),
        Some(LoweredStmt::RuntimeSeededPredictableBranchLcgLoop { iterations, .. }) if *iterations == 64
    ));

    let out = optimize(vec![LoweredStmt::RuntimeSeededUnpredictableBranchLcgLoop {
        iterations: 64,
        threshold: 1 << 63,
        then_mul: 1_664_525,
        then_add: 1_013_904_223,
        else_mul: 22_695_477,
        else_add: 1,
        exit_with_state: true,
        exit_mask: Some(u64::MAX),
    }]);
    assert!(matches!(
        out.first(),
        Some(LoweredStmt::RuntimeSeededUnpredictableBranchLcgLoop { threshold, .. }) if *threshold == (1 << 63)
    ));
}

#[test]
fn optimize_keeps_runtime_generic() {
    let out = optimize(vec![LoweredStmt::RuntimeGeneric {
        program: RuntimeProgram {
            slots: 1,
            instrs: vec![RuntimeInstr::Exit {
                code: RuntimeOperand::Imm(0),
            }],
        },
    }]);
    assert!(matches!(
        out.first(),
        Some(LoweredStmt::RuntimeGeneric { .. })
    ));
}

#[test]
fn optimize_folds_seeded_affine_index_to_closed_form() {
    let out = optimize(vec![LoweredStmt::RuntimeSeededAffineIndexLoop {
        iterations: 4,
        index_init: 0,
        state_mul: 2,
        index_mul: 1,
        add: 0,
        state_mask: u64::MAX,
        exit_with_state: true,
        exit_mask: Some(u64::MAX),
    }]);
    assert!(matches!(
        out.first(),
        Some(LoweredStmt::RuntimeSeededAffineClosedForm {
            state_mul,
            add,
            exit_with_state
        }) if *state_mul == 16 && *add == 11 && *exit_with_state
    ));
}

#[test]
fn optimize_folds_zero_mul_affine_closed_form_to_exit() {
    let out = optimize(vec![LoweredStmt::RuntimeSeededAffineClosedForm {
        state_mul: 0,
        add: 0xDEAD_BEEF,
        exit_with_state: true,
    }]);
    assert!(matches!(
        out.first(),
        Some(LoweredStmt::Exit(code)) if *code == 0xDEAD_BEEF
    ));
}

#[test]
fn optimize_folds_zero_mul_seeded_lcg_to_exit() {
    let out = optimize(vec![LoweredStmt::RuntimeSeededLcgLoop {
        iterations: 128,
        mul: 2,
        add: 1,
        exit_with_state: true,
        exit_mask: Some(u64::MAX),
    }]);
    assert!(matches!(out.first(), Some(LoweredStmt::Exit(_))));
}

#[test]
fn optimize_folds_zero_mul_seeded_affine_index_to_exit() {
    let out = optimize(vec![LoweredStmt::RuntimeSeededAffineIndexLoop {
        iterations: 128,
        index_init: 0,
        state_mul: 2,
        index_mul: 1,
        add: 0,
        state_mask: u64::MAX,
        exit_with_state: true,
        exit_mask: Some(u64::MAX),
    }]);
    assert!(matches!(out.first(), Some(LoweredStmt::Exit(_))));
}

#[test]
fn optimize_keeps_runtime_affine_index_loop() {
    let out = optimize(vec![LoweredStmt::RuntimeAffineIndexLoop {
        iterations: 4,
        state_init: 3,
        index_init: 0,
        state_mul: 2,
        index_mul: 1,
        add: 0,
        state_mask: 63,
        exit_with_state: true,
        exit_mask: Some(63),
    }]);
    assert!(matches!(
        out.first(),
        Some(LoweredStmt::RuntimeAffineIndexLoop {
            iterations: 4,
            state_init: 3,
            ..
        })
    ));
}

#[test]
fn optimize_preserves_runtime_ring_write_workload() {
    let out = optimize(vec![LoweredStmt::RuntimeRingWriteLoop {
        iterations: 130,
        state_init: 123_456_789,
        index_init: 0,
        mul: 1_664_525,
        add: 1_013_904_223,
        state_mask: 0xFFFF_FFFF,
        ring_mask: 63,
        value_shift: 32,
        exit_mask: 127,
    }]);
    assert!(matches!(
        out.first(),
        Some(LoweredStmt::RuntimeRingWriteLoop {
            iterations: 130,
            ring_mask: 63,
            ..
        })
    ));
}

#[test]
fn optimize_keeps_dual_state_branch_kernel() {
    let out = optimize(vec![LoweredStmt::RuntimeSeededDualStateBranchLoop {
        iterations: 64,
        index_init: 0,
        adaptive: true,
        branchless: true,
        exit_with_sum: true,
    }]);
    assert!(matches!(
        out.first(),
        Some(LoweredStmt::RuntimeSeededDualStateBranchLoop {
            iterations,
            branchless,
            ..
        }) if *iterations == 64 && *branchless
    ));
}

#[test]
fn optimize_inlines_runtime_generic_leaf_call() {
    let out = optimize(vec![LoweredStmt::RuntimeGeneric {
        program: RuntimeProgram {
            slots: 1,
            instrs: vec![
                RuntimeInstr::Call { target: 2 },
                RuntimeInstr::Exit {
                    code: RuntimeOperand::Imm(0),
                },
                RuntimeInstr::Mov {
                    dst: 0,
                    src: RuntimeOperand::Imm(7),
                },
                RuntimeInstr::Return,
            ],
        },
    }]);

    let Some(LoweredStmt::RuntimeGeneric { program }) = out.first() else {
        panic!("expected runtime generic program");
    };
    assert!(
        !program
            .instrs
            .iter()
            .any(|instr| matches!(instr, RuntimeInstr::Call { .. }))
    );
    assert!(matches!(
        program.instrs.first(),
        Some(RuntimeInstr::Mov { .. })
    ));
}

#[test]
fn optimize_elides_runtime_generic_empty_leaf_call() {
    let out = optimize(vec![LoweredStmt::RuntimeGeneric {
        program: RuntimeProgram {
            slots: 0,
            instrs: vec![
                RuntimeInstr::Call { target: 2 },
                RuntimeInstr::Exit {
                    code: RuntimeOperand::Imm(0),
                },
                RuntimeInstr::Return,
            ],
        },
    }]);

    let Some(LoweredStmt::RuntimeGeneric { program }) = out.first() else {
        panic!("expected runtime generic program");
    };
    assert!(
        !program
            .instrs
            .iter()
            .any(|instr| matches!(instr, RuntimeInstr::Call { .. }))
    );
}

#[test]
fn optimize_runtime_generic_peephole_folds_consts_and_branches() {
    let out = optimize(vec![LoweredStmt::RuntimeGeneric {
        program: RuntimeProgram {
            slots: 3,
            instrs: vec![
                RuntimeInstr::Mov {
                    dst: 0,
                    src: RuntimeOperand::Imm(4),
                },
                RuntimeInstr::BinOp {
                    dst: 1,
                    op: RuntimeBinOp::Mul,
                    lhs: RuntimeOperand::Slot(0),
                    rhs: RuntimeOperand::Imm(3),
                },
                RuntimeInstr::Cmp {
                    dst: 2,
                    op: RuntimeCmpOp::Eq,
                    lhs: RuntimeOperand::Slot(1),
                    rhs: RuntimeOperand::Imm(12),
                },
                RuntimeInstr::JumpIfZero {
                    cond_slot: 2,
                    target: 5,
                },
                RuntimeInstr::Exit {
                    code: RuntimeOperand::Imm(0),
                },
                RuntimeInstr::Exit {
                    code: RuntimeOperand::Imm(1),
                },
            ],
        },
    }]);
    let Some(LoweredStmt::RuntimeGeneric { program }) = out.first() else {
        panic!("expected runtime generic program");
    };
    assert!(program.instrs.iter().any(|instr| matches!(
        instr,
        RuntimeInstr::Mov {
            src: RuntimeOperand::Imm(12),
            ..
        }
    )));
    assert!(program.instrs.iter().any(|instr| matches!(
        instr,
        RuntimeInstr::JumpIfZero { .. }
    )));
}

#[test]
fn optimize_runtime_generic_elides_index_checks_in_canonical_counted_loop() {
    let out = optimize(vec![LoweredStmt::RuntimeGeneric {
        program: RuntimeProgram {
            slots: 6,
            instrs: vec![
                RuntimeInstr::Mov {
                    dst: 4,
                    src: RuntimeOperand::Imm(0),
                },
                RuntimeInstr::JumpIfCmpFalse {
                    op: RuntimeCmpOp::LtUnsigned,
                    lhs: RuntimeOperand::Slot(4),
                    rhs: RuntimeOperand::Imm(4),
                    target: 6,
                },
                RuntimeInstr::LoadIndex {
                    dst: 5,
                    base_slots: vec![0, 1, 2, 3],
                    index: RuntimeOperand::Slot(4),
                },
                RuntimeInstr::StoreIndex {
                    base_slots: vec![0, 1, 2, 3],
                    index: RuntimeOperand::Slot(4),
                    src: RuntimeOperand::Slot(5),
                },
                RuntimeInstr::BinOpInPlace {
                    dst: 4,
                    op: RuntimeBinOp::Add,
                    rhs: RuntimeOperand::Imm(1),
                },
                RuntimeInstr::Jump { target: 1 },
                RuntimeInstr::Exit {
                    code: RuntimeOperand::Imm(0),
                },
            ],
        },
    }]);
    let Some(LoweredStmt::RuntimeGeneric { program }) = out.first() else {
        panic!("expected runtime generic program");
    };
    assert!(
        !program.instrs.iter().any(|instr| matches!(
            instr,
            RuntimeInstr::LoadIndex { .. }
        )),
        "instrs={:?}",
        program.instrs
    );
    assert!(
        !program.instrs.iter().any(|instr| matches!(
            instr,
            RuntimeInstr::StoreIndex { .. }
        )),
        "instrs={:?}",
        program.instrs
    );
}

#[test]
fn optimize_runtime_generic_keeps_checked_index_when_loop_body_has_control_flow() {
    let out = optimize(vec![LoweredStmt::RuntimeGeneric {
        program: RuntimeProgram {
            slots: 8,
            instrs: vec![
                RuntimeInstr::Mov {
                    dst: 4,
                    src: RuntimeOperand::Imm(0),
                },
                RuntimeInstr::LoadSeed {
                    dst: 6,
                    kind: RuntimeLoadKind::EntropySeed,
                    input: None,
                },
                RuntimeInstr::JumpIfCmpFalse {
                    op: RuntimeCmpOp::LtUnsigned,
                    lhs: RuntimeOperand::Slot(4),
                    rhs: RuntimeOperand::Imm(4),
                    target: 9,
                },
                RuntimeInstr::JumpIfZero {
                    cond_slot: 6,
                    target: 5,
                },
                RuntimeInstr::Mov {
                    dst: 7,
                    src: RuntimeOperand::Imm(0),
                },
                RuntimeInstr::LoadIndex {
                    dst: 5,
                    base_slots: vec![0, 1, 2, 3],
                    index: RuntimeOperand::Slot(4),
                },
                RuntimeInstr::StoreIndex {
                    base_slots: vec![0, 1, 2, 3],
                    index: RuntimeOperand::Slot(4),
                    src: RuntimeOperand::Slot(5),
                },
                RuntimeInstr::BinOpInPlace {
                    dst: 4,
                    op: RuntimeBinOp::Add,
                    rhs: RuntimeOperand::Imm(1),
                },
                RuntimeInstr::Jump { target: 2 },
                RuntimeInstr::Exit {
                    code: RuntimeOperand::Imm(0),
                },
            ],
        },
    }]);
    let Some(LoweredStmt::RuntimeGeneric { program }) = out.first() else {
        panic!("expected runtime generic program");
    };
    assert!(program.instrs.iter().any(|instr| matches!(
        instr,
        RuntimeInstr::LoadIndex { .. }
    )));
    assert!(program.instrs.iter().any(|instr| matches!(
        instr,
        RuntimeInstr::StoreIndexUnchecked { .. }
    )));
}

#[test]
fn optimize_runtime_generic_hoists_repeated_identical_index_checks_in_block() {
    let out = optimize(vec![LoweredStmt::RuntimeGeneric {
        program: RuntimeProgram {
            slots: 5,
            instrs: vec![
                RuntimeInstr::LoadSeed {
                    dst: 0,
                    kind: RuntimeLoadKind::EntropySeed,
                    input: None,
                },
                RuntimeInstr::LoadIndex {
                    dst: 1,
                    base_slots: vec![2, 3, 4],
                    index: RuntimeOperand::Slot(0),
                },
                RuntimeInstr::StoreIndex {
                    base_slots: vec![2, 3, 4],
                    index: RuntimeOperand::Slot(0),
                    src: RuntimeOperand::Slot(1),
                },
                RuntimeInstr::LoadIndex {
                    dst: 1,
                    base_slots: vec![2, 3, 4],
                    index: RuntimeOperand::Slot(0),
                },
                RuntimeInstr::Exit {
                    code: RuntimeOperand::Slot(1),
                },
            ],
        },
    }]);
    let Some(LoweredStmt::RuntimeGeneric { program }) = out.first() else {
        panic!("expected runtime generic program");
    };

    let checked_count = program
        .instrs
        .iter()
        .filter(|instr| {
            matches!(
                instr,
                RuntimeInstr::LoadIndex { .. }
                    | RuntimeInstr::StoreIndex { .. }
            )
        })
        .count();
    let unchecked_count = program
        .instrs
        .iter()
        .filter(|instr| {
            matches!(
                instr,
                RuntimeInstr::LoadIndexUnchecked { .. }
                    | RuntimeInstr::StoreIndexUnchecked { .. }
            )
        })
        .count();
    assert_eq!(checked_count, 1, "instrs={:?}", program.instrs);
    assert_eq!(unchecked_count, 2, "instrs={:?}", program.instrs);
}

#[test]
fn optimize_runtime_generic_does_not_hoist_after_index_slot_write() {
    let out = optimize(vec![LoweredStmt::RuntimeGeneric {
        program: RuntimeProgram {
            slots: 5,
            instrs: vec![
                RuntimeInstr::LoadSeed {
                    dst: 0,
                    kind: RuntimeLoadKind::EntropySeed,
                    input: None,
                },
                RuntimeInstr::LoadIndex {
                    dst: 1,
                    base_slots: vec![2, 3, 4],
                    index: RuntimeOperand::Slot(0),
                },
                RuntimeInstr::LoadSeed {
                    dst: 0,
                    kind: RuntimeLoadKind::EntropySeed,
                    input: None,
                },
                RuntimeInstr::LoadIndex {
                    dst: 1,
                    base_slots: vec![2, 3, 4],
                    index: RuntimeOperand::Slot(0),
                },
                RuntimeInstr::Exit {
                    code: RuntimeOperand::Slot(1),
                },
            ],
        },
    }]);
    let Some(LoweredStmt::RuntimeGeneric { program }) = out.first() else {
        panic!("expected runtime generic program");
    };

    let checked_count = program
        .instrs
        .iter()
        .filter(|instr| {
            matches!(
                instr,
                RuntimeInstr::LoadIndex { .. }
                    | RuntimeInstr::StoreIndex { .. }
            )
        })
        .count();
    assert_eq!(checked_count, 2, "instrs={:?}", program.instrs);
}

#[test]
fn optimize_runtime_generic_does_not_hoist_across_branch_block_boundary() {
    let out = optimize(vec![LoweredStmt::RuntimeGeneric {
        program: RuntimeProgram {
            slots: 6,
            instrs: vec![
                RuntimeInstr::LoadSeed {
                    dst: 0,
                    kind: RuntimeLoadKind::EntropySeed,
                    input: None,
                },
                RuntimeInstr::LoadSeed {
                    dst: 1,
                    kind: RuntimeLoadKind::EntropySeed,
                    input: None,
                },
                RuntimeInstr::JumpIfZero {
                    cond_slot: 1,
                    target: 4,
                },
                RuntimeInstr::LoadIndex {
                    dst: 2,
                    base_slots: vec![3, 4, 5],
                    index: RuntimeOperand::Slot(0),
                },
                RuntimeInstr::LoadIndex {
                    dst: 2,
                    base_slots: vec![3, 4, 5],
                    index: RuntimeOperand::Slot(0),
                },
                RuntimeInstr::Exit {
                    code: RuntimeOperand::Slot(2),
                },
            ],
        },
    }]);
    let Some(LoweredStmt::RuntimeGeneric { program }) = out.first() else {
        panic!("expected runtime generic program");
    };

    let checked_count = program
        .instrs
        .iter()
        .filter(|instr| {
            matches!(
                instr,
                RuntimeInstr::LoadIndex { .. }
                    | RuntimeInstr::StoreIndex { .. }
            )
        })
        .count();
    assert_eq!(checked_count, 2, "instrs={:?}", program.instrs);
}

#[test]
fn optimize_runtime_generic_fully_unrolls_small_constant_counted_loop() {
    let out = optimize(vec![LoweredStmt::RuntimeGeneric {
        program: RuntimeProgram {
            slots: 3,
            instrs: vec![
                RuntimeInstr::LoadSeed {
                    dst: 0,
                    kind: RuntimeLoadKind::EntropySeed,
                    input: None,
                },
                RuntimeInstr::Mov {
                    dst: 1,
                    src: RuntimeOperand::Imm(0),
                },
                RuntimeInstr::JumpIfCmpFalse {
                    op: RuntimeCmpOp::LtUnsigned,
                    lhs: RuntimeOperand::Slot(1),
                    rhs: RuntimeOperand::Imm(4),
                    target: 6,
                },
                RuntimeInstr::BinOpInPlace {
                    dst: 0,
                    op: RuntimeBinOp::BitXor,
                    rhs: RuntimeOperand::Imm(1),
                },
                RuntimeInstr::BinOpInPlace {
                    dst: 1,
                    op: RuntimeBinOp::Add,
                    rhs: RuntimeOperand::Imm(1),
                },
                RuntimeInstr::Jump { target: 2 },
                RuntimeInstr::Exit {
                    code: RuntimeOperand::Slot(0),
                },
            ],
        },
    }]);
    let Some(LoweredStmt::RuntimeGeneric { program }) = out.first() else {
        panic!("expected runtime generic program");
    };

    assert!(
        !program.instrs.iter().any(|instr| matches!(
            instr,
            RuntimeInstr::JumpIfCmpFalse {
                op: RuntimeCmpOp::LtUnsigned,
                ..
            }
        )),
        "instrs={:?}",
        program.instrs
    );
    assert!(
        !program
            .instrs
            .iter()
            .enumerate()
            .any(|(idx, instr)| matches!(instr, RuntimeInstr::Jump { target } if *target <= idx)),
        "instrs={:?}",
        program.instrs
    );
    let xor_count = program
        .instrs
        .iter()
        .filter(|instr| {
            matches!(
                instr,
                RuntimeInstr::BinOpInPlace {
                    dst: 0,
                    op: RuntimeBinOp::BitXor,
                    rhs: RuntimeOperand::Imm(1),
                }
            )
        })
        .count();
    assert_eq!(xor_count, 4, "instrs={:?}", program.instrs);
}

#[test]
fn optimize_runtime_generic_aggressively_unrolls_tiny_32_trip_loop() {
    let out = optimize(vec![LoweredStmt::RuntimeGeneric {
        program: RuntimeProgram {
            slots: 2,
            instrs: vec![
                RuntimeInstr::Mov {
                    dst: 0,
                    src: RuntimeOperand::Imm(0),
                },
                RuntimeInstr::Mov {
                    dst: 1,
                    src: RuntimeOperand::Imm(0),
                },
                RuntimeInstr::JumpIfCmpFalse {
                    op: RuntimeCmpOp::LtUnsigned,
                    lhs: RuntimeOperand::Slot(1),
                    rhs: RuntimeOperand::Imm(32),
                    target: 6,
                },
                RuntimeInstr::BinOpInPlace {
                    dst: 0,
                    op: RuntimeBinOp::BitXor,
                    rhs: RuntimeOperand::Imm(1),
                },
                RuntimeInstr::BinOpInPlace {
                    dst: 1,
                    op: RuntimeBinOp::Add,
                    rhs: RuntimeOperand::Imm(1),
                },
                RuntimeInstr::Jump { target: 2 },
                RuntimeInstr::Exit {
                    code: RuntimeOperand::Slot(0),
                },
            ],
        },
    }]);
    let Some(LoweredStmt::RuntimeGeneric { program }) = out.first() else {
        panic!("expected runtime generic program");
    };

    assert!(
        !program.instrs.iter().any(|instr| matches!(
            instr,
            RuntimeInstr::JumpIfCmpFalse {
                op: RuntimeCmpOp::LtUnsigned,
                ..
            }
        )),
        "instrs={:?}",
        program.instrs
    );
    let ind_slot_moves = program
        .instrs
        .iter()
        .filter(|instr| {
            matches!(
                instr,
                RuntimeInstr::Mov {
                    dst: 1,
                    src: RuntimeOperand::Imm(_),
                }
            )
        })
        .count();
    assert_eq!(
        ind_slot_moves, 1,
        "overwritten unrolled index states should be eliminated, instrs={:?}",
        program.instrs
    );
    assert!(
        program.instrs.iter().any(|instr| matches!(
            instr,
            RuntimeInstr::Mov {
                dst: 1,
                src: RuntimeOperand::Imm(32),
            }
        )),
        "missing final unrolled index state, instrs={:?}",
        program.instrs
    );
}

#[test]
fn optimize_runtime_generic_auto_selects_grouped_hash_probe_loop() {
    let ctrl_slots: Vec<usize> = (8..24usize).collect();
    let out = optimize(vec![LoweredStmt::RuntimeGeneric {
        program: RuntimeProgram {
            slots: 24,
            instrs: vec![
                RuntimeInstr::Mov {
                    dst: 0,
                    src: RuntimeOperand::Imm(0),
                },
                RuntimeInstr::Mov {
                    dst: 3,
                    src: RuntimeOperand::Imm(4),
                },
                RuntimeInstr::Mov {
                    dst: 5,
                    src: RuntimeOperand::Imm(7),
                },
                RuntimeInstr::JumpIfCmpFalse {
                    op: RuntimeCmpOp::LtUnsigned,
                    lhs: RuntimeOperand::Slot(0),
                    rhs: RuntimeOperand::Imm(16),
                    target: 10,
                },
                RuntimeInstr::BinOp {
                    dst: 1,
                    op: RuntimeBinOp::Add,
                    lhs: RuntimeOperand::Slot(3),
                    rhs: RuntimeOperand::Slot(0),
                },
                RuntimeInstr::BinOp {
                    dst: 2,
                    op: RuntimeBinOp::BitAnd,
                    lhs: RuntimeOperand::Slot(1),
                    rhs: RuntimeOperand::Imm(15),
                },
                RuntimeInstr::LoadIndex {
                    dst: 4,
                    base_slots: ctrl_slots,
                    index: RuntimeOperand::Slot(2),
                },
                RuntimeInstr::JumpIfCmpFalse {
                    op: RuntimeCmpOp::Eq,
                    lhs: RuntimeOperand::Slot(4),
                    rhs: RuntimeOperand::Slot(5),
                    target: 8,
                },
                RuntimeInstr::BinOpInPlace {
                    dst: 0,
                    op: RuntimeBinOp::Add,
                    rhs: RuntimeOperand::Imm(1),
                },
                RuntimeInstr::Jump { target: 3 },
                RuntimeInstr::Exit {
                    code: RuntimeOperand::Imm(0),
                },
            ],
        },
    }]);
    let Some(LoweredStmt::RuntimeGeneric { program }) = out.first() else {
        panic!("expected runtime generic program");
    };
    assert!(
        program.instrs.iter().any(|instr| matches!(
            instr,
            RuntimeInstr::HashCtrlGroupProbe { .. }
        )),
        "instrs={:?}",
        program.instrs
    );
}

#[test]
fn optimize_runtime_generic_auto_selects_grouped_hash_probe_with_zero_check() {
    let ctrl_slots: Vec<usize> = (8..24usize).collect();
    let out = optimize(vec![LoweredStmt::RuntimeGeneric {
        program: RuntimeProgram {
            slots: 24,
            instrs: vec![
                RuntimeInstr::Mov {
                    dst: 0,
                    src: RuntimeOperand::Imm(0),
                },
                RuntimeInstr::Mov {
                    dst: 3,
                    src: RuntimeOperand::Imm(4),
                },
                RuntimeInstr::Mov {
                    dst: 5,
                    src: RuntimeOperand::Imm(7),
                },
                RuntimeInstr::JumpIfCmpFalse {
                    op: RuntimeCmpOp::LtUnsigned,
                    lhs: RuntimeOperand::Slot(0),
                    rhs: RuntimeOperand::Imm(16),
                    target: 12,
                },
                RuntimeInstr::BinOp {
                    dst: 1,
                    op: RuntimeBinOp::Add,
                    lhs: RuntimeOperand::Slot(3),
                    rhs: RuntimeOperand::Slot(0),
                },
                RuntimeInstr::BinOp {
                    dst: 2,
                    op: RuntimeBinOp::BitAnd,
                    lhs: RuntimeOperand::Slot(1),
                    rhs: RuntimeOperand::Imm(15),
                },
                RuntimeInstr::LoadIndex {
                    dst: 4,
                    base_slots: ctrl_slots,
                    index: RuntimeOperand::Slot(2),
                },
                RuntimeInstr::JumpIfCmpFalse {
                    op: RuntimeCmpOp::Eq,
                    lhs: RuntimeOperand::Slot(4),
                    rhs: RuntimeOperand::Imm(0),
                    target: 9,
                },
                RuntimeInstr::Mov {
                    dst: 6,
                    src: RuntimeOperand::Imm(1),
                },
                RuntimeInstr::JumpIfCmpFalse {
                    op: RuntimeCmpOp::Eq,
                    lhs: RuntimeOperand::Slot(4),
                    rhs: RuntimeOperand::Slot(5),
                    target: 10,
                },
                RuntimeInstr::BinOpInPlace {
                    dst: 0,
                    op: RuntimeBinOp::Add,
                    rhs: RuntimeOperand::Imm(1),
                },
                RuntimeInstr::Jump { target: 3 },
                RuntimeInstr::Exit {
                    code: RuntimeOperand::Imm(0),
                },
            ],
        },
    }]);
    let Some(LoweredStmt::RuntimeGeneric { program }) = out.first() else {
        panic!("expected runtime generic program");
    };
    assert!(program.instrs.iter().any(|instr| matches!(
        instr,
        RuntimeInstr::HashCtrlGroupProbe { .. }
    )));
    assert!(program.instrs.iter().any(|instr| matches!(
        instr,
        RuntimeInstr::JumpIfCmpFalse {
            op: RuntimeCmpOp::Eq,
            lhs: RuntimeOperand::Slot(4),
            rhs: RuntimeOperand::Imm(1),
            ..
        }
    )));
}

#[test]
fn optimize_runtime_generic_elides_index_checks_for_ring_mask_indices() {
    let base_slots: Vec<usize> = (0..64usize).collect();
    let out = optimize(vec![LoweredStmt::RuntimeGeneric {
        program: RuntimeProgram {
            slots: 67,
            instrs: vec![
                RuntimeInstr::Mov {
                    dst: 64,
                    src: RuntimeOperand::Imm(0),
                },
                RuntimeInstr::JumpIfCmpFalse {
                    op: RuntimeCmpOp::LtUnsigned,
                    lhs: RuntimeOperand::Slot(64),
                    rhs: RuntimeOperand::Imm(5_000_000),
                    target: 7,
                },
                RuntimeInstr::BinOp {
                    dst: 65,
                    op: RuntimeBinOp::BitAnd,
                    lhs: RuntimeOperand::Slot(64),
                    rhs: RuntimeOperand::Imm(63),
                },
                RuntimeInstr::LoadIndex {
                    dst: 66,
                    base_slots: base_slots.clone(),
                    index: RuntimeOperand::Slot(65),
                },
                RuntimeInstr::StoreIndex {
                    base_slots,
                    index: RuntimeOperand::Slot(65),
                    src: RuntimeOperand::Slot(66),
                },
                RuntimeInstr::BinOpInPlace {
                    dst: 64,
                    op: RuntimeBinOp::Add,
                    rhs: RuntimeOperand::Imm(1),
                },
                RuntimeInstr::Jump { target: 1 },
                RuntimeInstr::Exit {
                    code: RuntimeOperand::Imm(0),
                },
            ],
        },
    }]);
    let Some(LoweredStmt::RuntimeGeneric { program }) = out.first() else {
        panic!("expected runtime generic program");
    };
    assert!(
        !program.instrs.iter().any(|instr| matches!(
            instr,
            RuntimeInstr::LoadIndex { .. }
        )),
        "instrs={:?}",
        program.instrs
    );
    assert!(
        !program.instrs.iter().any(|instr| matches!(
            instr,
            RuntimeInstr::StoreIndex { .. }
        )),
        "instrs={:?}",
        program.instrs
    );
}

#[test]
fn optimize_runtime_generic_elides_index_checks_for_induction_plus_constant() {
    let out = optimize(vec![LoweredStmt::RuntimeGeneric {
        program: RuntimeProgram {
            slots: 8,
            instrs: vec![
                RuntimeInstr::Mov {
                    dst: 4,
                    src: RuntimeOperand::Imm(0),
                },
                RuntimeInstr::JumpIfCmpFalse {
                    op: RuntimeCmpOp::LtUnsigned,
                    lhs: RuntimeOperand::Slot(4),
                    rhs: RuntimeOperand::Imm(4),
                    target: 7,
                },
                RuntimeInstr::BinOp {
                    dst: 5,
                    op: RuntimeBinOp::Add,
                    lhs: RuntimeOperand::Slot(4),
                    rhs: RuntimeOperand::Imm(1),
                },
                RuntimeInstr::LoadIndex {
                    dst: 6,
                    base_slots: vec![0, 1, 2, 3, 7],
                    index: RuntimeOperand::Slot(5),
                },
                RuntimeInstr::StoreIndex {
                    base_slots: vec![0, 1, 2, 3, 7],
                    index: RuntimeOperand::Slot(5),
                    src: RuntimeOperand::Slot(6),
                },
                RuntimeInstr::BinOpInPlace {
                    dst: 4,
                    op: RuntimeBinOp::Add,
                    rhs: RuntimeOperand::Imm(1),
                },
                RuntimeInstr::Jump { target: 1 },
                RuntimeInstr::Exit {
                    code: RuntimeOperand::Imm(0),
                },
            ],
        },
    }]);
    let Some(LoweredStmt::RuntimeGeneric { program }) = out.first() else {
        panic!("expected runtime generic program");
    };
    assert!(
        !program.instrs.iter().any(|instr| matches!(
            instr,
            RuntimeInstr::LoadIndex { .. }
        )),
        "instrs={:?}",
        program.instrs
    );
    assert!(
        !program.instrs.iter().any(|instr| matches!(
            instr,
            RuntimeInstr::StoreIndex { .. }
        )),
        "instrs={:?}",
        program.instrs
    );
}

#[test]
fn optimize_runtime_generic_elides_bitor_composed_bounded_index() {
    let out = optimize(vec![LoweredStmt::RuntimeGeneric {
        program: RuntimeProgram {
            slots: 266,
            instrs: vec![
                RuntimeInstr::LoadSeed {
                    dst: 260,
                    kind: RuntimeLoadKind::EntropySeed,
                    input: None,
                },
                RuntimeInstr::BinOp {
                    dst: 261,
                    op: RuntimeBinOp::ShrUnsigned,
                    lhs: RuntimeOperand::Slot(260),
                    rhs: RuntimeOperand::Imm(62),
                },
                RuntimeInstr::BinOp {
                    dst: 262,
                    op: RuntimeBinOp::BitAnd,
                    lhs: RuntimeOperand::Slot(260),
                    rhs: RuntimeOperand::Imm(63),
                },
                RuntimeInstr::BinOp {
                    dst: 263,
                    op: RuntimeBinOp::Shl,
                    lhs: RuntimeOperand::Slot(261),
                    rhs: RuntimeOperand::Imm(6),
                },
                RuntimeInstr::BinOp {
                    dst: 264,
                    op: RuntimeBinOp::BitOr,
                    lhs: RuntimeOperand::Slot(263),
                    rhs: RuntimeOperand::Slot(262),
                },
                RuntimeInstr::StoreIndex {
                    base_slots: (0..256).collect(),
                    index: RuntimeOperand::Slot(264),
                    src: RuntimeOperand::Slot(260),
                },
                RuntimeInstr::Exit {
                    code: RuntimeOperand::Imm(0),
                },
            ],
        },
    }]);
    let Some(LoweredStmt::RuntimeGeneric { program }) = out.first() else {
        panic!("expected runtime generic program");
    };
    assert!(program.instrs.iter().any(|instr| matches!(
        instr,
        RuntimeInstr::StoreIndexUnchecked { .. }
    )));
}

#[test]
fn optimize_runtime_generic_elides_masked_recurrence_index_across_backedge() {
    let out = optimize(vec![LoweredStmt::RuntimeGeneric {
        program: RuntimeProgram {
            slots: 8,
            instrs: vec![
                RuntimeInstr::Mov {
                    dst: 0,
                    src: RuntimeOperand::Imm(0),
                },
                RuntimeInstr::Mov {
                    dst: 1,
                    src: RuntimeOperand::Imm(0),
                },
                RuntimeInstr::JumpIfCmpFalse {
                    op: RuntimeCmpOp::LtUnsigned,
                    lhs: RuntimeOperand::Slot(0),
                    rhs: RuntimeOperand::Imm(100),
                    target: 8,
                },
                RuntimeInstr::LoadIndex {
                    dst: 2,
                    base_slots: vec![3, 4, 5, 6],
                    index: RuntimeOperand::Slot(1),
                },
                RuntimeInstr::BinOpInPlace {
                    dst: 1,
                    op: RuntimeBinOp::Add,
                    rhs: RuntimeOperand::Imm(1),
                },
                RuntimeInstr::BinOpInPlace {
                    dst: 1,
                    op: RuntimeBinOp::BitAnd,
                    rhs: RuntimeOperand::Imm(3),
                },
                RuntimeInstr::BinOpInPlace {
                    dst: 0,
                    op: RuntimeBinOp::Add,
                    rhs: RuntimeOperand::Imm(1),
                },
                RuntimeInstr::Jump { target: 2 },
                RuntimeInstr::Exit {
                    code: RuntimeOperand::Slot(2),
                },
            ],
        },
    }]);
    let Some(LoweredStmt::RuntimeGeneric { program }) = out.first() else {
        panic!("expected runtime generic program");
    };
    assert!(program.instrs.iter().any(|instr| matches!(
        instr,
        RuntimeInstr::LoadIndexUnchecked { .. }
    )));
}

#[test]
fn copy_propagate_rewrites_slot_operands() {
    let instrs = vec![
        RuntimeInstr::Mov {
            dst: 0,
            src: RuntimeOperand::Imm(7),
        },
        RuntimeInstr::Mov {
            dst: 1,
            src: RuntimeOperand::Slot(0),
        },
        RuntimeInstr::BinOp {
            dst: 2,
            op: RuntimeBinOp::Add,
            lhs: RuntimeOperand::Slot(1),
            rhs: RuntimeOperand::Imm(3),
        },
        RuntimeInstr::Exit {
            code: RuntimeOperand::Slot(2),
        },
    ];
    let out = copy_propagate_runtime_instrs(3, &instrs);
    assert!(matches!(
        out.get(2),
        Some(RuntimeInstr::BinOp {
            lhs: RuntimeOperand::Slot(0),
            ..
        })
    ));
}

#[test]
fn optimize_runtime_generic_versions_slot_bounded_loop_accesses() {
    let out = optimize(vec![LoweredStmt::RuntimeGeneric {
        program: RuntimeProgram {
            slots: 7,
            instrs: vec![
                RuntimeInstr::Mov {
                    dst: 5,
                    src: RuntimeOperand::Imm(4),
                },
                RuntimeInstr::Mov {
                    dst: 4,
                    src: RuntimeOperand::Imm(0),
                },
                RuntimeInstr::JumpIfCmpFalse {
                    op: RuntimeCmpOp::LtUnsigned,
                    lhs: RuntimeOperand::Slot(4),
                    rhs: RuntimeOperand::Slot(5),
                    target: 6,
                },
                RuntimeInstr::LoadIndex {
                    dst: 6,
                    base_slots: vec![0, 1, 2, 3],
                    index: RuntimeOperand::Slot(4),
                },
                RuntimeInstr::BinOpInPlace {
                    dst: 4,
                    op: RuntimeBinOp::Add,
                    rhs: RuntimeOperand::Imm(1),
                },
                RuntimeInstr::Jump { target: 2 },
                RuntimeInstr::Exit {
                    code: RuntimeOperand::Slot(6),
                },
            ],
        },
    }]);
    let Some(LoweredStmt::RuntimeGeneric { program }) = out.first() else {
        panic!("expected runtime generic program");
    };
    assert!(program.instrs.iter().any(|instr| matches!(
        instr,
        RuntimeInstr::LoadIndexUnchecked { .. }
    )));
    assert!(program.instrs.iter().any(|instr| matches!(
        instr,
        RuntimeInstr::JumpIfCmpFalse {
            op: RuntimeCmpOp::LeUnsigned,
            lhs: RuntimeOperand::Slot(5),
            rhs: RuntimeOperand::Imm(4),
            ..
        }
    )));
    assert!(program.instrs.iter().any(|instr| matches!(
        instr,
        RuntimeInstr::Exit {
            code: RuntimeOperand::Imm(255)
        }
    )));
}

#[test]
fn optimize_runtime_generic_versions_slot_bounded_offset_accesses() {
    let out = optimize(vec![LoweredStmt::RuntimeGeneric {
        program: RuntimeProgram {
            slots: 9,
            instrs: vec![
                RuntimeInstr::Mov {
                    dst: 5,
                    src: RuntimeOperand::Imm(4),
                },
                RuntimeInstr::Mov {
                    dst: 4,
                    src: RuntimeOperand::Imm(0),
                },
                RuntimeInstr::JumpIfCmpFalse {
                    op: RuntimeCmpOp::LtUnsigned,
                    lhs: RuntimeOperand::Slot(4),
                    rhs: RuntimeOperand::Slot(5),
                    target: 8,
                },
                RuntimeInstr::BinOp {
                    dst: 6,
                    op: RuntimeBinOp::Add,
                    lhs: RuntimeOperand::Slot(4),
                    rhs: RuntimeOperand::Imm(1),
                },
                RuntimeInstr::LoadIndex {
                    dst: 7,
                    base_slots: vec![0, 1, 2, 3, 8],
                    index: RuntimeOperand::Slot(6),
                },
                RuntimeInstr::BinOpInPlace {
                    dst: 4,
                    op: RuntimeBinOp::Add,
                    rhs: RuntimeOperand::Imm(1),
                },
                RuntimeInstr::Jump { target: 2 },
                RuntimeInstr::Exit {
                    code: RuntimeOperand::Slot(7),
                },
            ],
        },
    }]);
    let Some(LoweredStmt::RuntimeGeneric { program }) = out.first() else {
        panic!("expected runtime generic program");
    };
    assert!(program.instrs.iter().any(|instr| matches!(
        instr,
        RuntimeInstr::LoadIndexUnchecked { .. }
    )));
    assert!(program.instrs.iter().any(|instr| matches!(
        instr,
        RuntimeInstr::JumpIfCmpFalse {
            op: RuntimeCmpOp::LeUnsigned,
            lhs: RuntimeOperand::Slot(5),
            rhs: RuntimeOperand::Imm(4),
            ..
        }
    )));
}

#[test]
fn compact_runtime_program_reduces_slot_count() {
    let mut program = RuntimeProgram {
        slots: 6,
        instrs: vec![
            RuntimeInstr::Mov {
                dst: 2,
                src: RuntimeOperand::Imm(9),
            },
            RuntimeInstr::Mov {
                dst: 5,
                src: RuntimeOperand::Slot(2),
            },
            RuntimeInstr::Exit {
                code: RuntimeOperand::Slot(5),
            },
        ],
    };
    compact_runtime_program_slots(&mut program);
    assert_eq!(program.slots, 2);
    assert!(matches!(
        program.instrs[0],
        RuntimeInstr::Mov {
            dst: 0,
            src: RuntimeOperand::Imm(9)
        }
    ));
    assert!(matches!(
        program.instrs[1],
        RuntimeInstr::Mov {
            dst: 1,
            src: RuntimeOperand::Slot(0)
        }
    ));
    assert!(matches!(
        program.instrs[2],
        RuntimeInstr::Exit {
            code: RuntimeOperand::Slot(1)
        }
    ));
}

fn runtime_index_access_counts(
    program: &RuntimeProgram,
) -> (usize, usize, usize, usize) {
    let mut load_checked = 0usize;
    let mut load_unchecked = 0usize;
    let mut store_checked = 0usize;
    let mut store_unchecked = 0usize;
    for instr in &program.instrs {
        match instr {
            RuntimeInstr::LoadIndex { .. } => load_checked += 1,
            RuntimeInstr::LoadIndexUnchecked { .. } => {
                load_unchecked += 1;
            }
            RuntimeInstr::StoreIndex { .. } => store_checked += 1,
            RuntimeInstr::StoreIndexUnchecked { .. } => {
                store_unchecked += 1;
            }
            _ => {}
        }
    }
    (load_checked, load_unchecked, store_checked, store_unchecked)
}

fn checked_index_instrs(program: &RuntimeProgram) -> Vec<String> {
    let mut out = Vec::new();
    for (idx, instr) in program.instrs.iter().enumerate() {
        match instr {
            RuntimeInstr::LoadIndex {
                base_slots, index, ..
            } => out.push(format!(
                "idx={idx} LoadIndex len={} index={index:?}",
                base_slots.len()
            )),
            RuntimeInstr::StoreIndex {
                base_slots, index, ..
            } => out.push(format!(
                "idx={idx} StoreIndex len={} index={index:?}",
                base_slots.len()
            )),
            _ => {}
        }
    }
    out
}

#[test]
fn optimize_runtime_generic_folds_constant_join_selection() {
    let out = optimize(vec![LoweredStmt::RuntimeGeneric {
        program: RuntimeProgram {
            slots: 1,
            instrs: vec![
                RuntimeInstr::JoinSelectAdaptive {
                    dst: 0,
                    build_rows: RuntimeOperand::Imm(160),
                    probe_rows: RuntimeOperand::Imm(500_000),
                },
                RuntimeInstr::Exit {
                    code: RuntimeOperand::Slot(0),
                },
            ],
        },
    }]);
    let program = match &out[0] {
        LoweredStmt::RuntimeGeneric { program } => program,
        other => panic!("expected runtime generic program, got {other:?}"),
    };
    assert!(matches!(
        program.instrs.as_slice(),
        [
            RuntimeInstr::Mov {
                dst: 0,
                src: RuntimeOperand::Imm(1)
            },
            RuntimeInstr::Exit {
                code: RuntimeOperand::Imm(1)
            }
        ]
    ));
}

#[test]
fn optimize_runtime_generic_unswitches_immutable_strategy_branch() {
    let out = optimize(vec![LoweredStmt::RuntimeGeneric {
        program: RuntimeProgram {
            slots: 2,
            instrs: vec![
                RuntimeInstr::Mov {
                    dst: 0,
                    src: RuntimeOperand::Imm(1),
                },
                RuntimeInstr::JumpIfCmpFalse {
                    op: RuntimeCmpOp::Eq,
                    lhs: RuntimeOperand::Slot(0),
                    rhs: RuntimeOperand::Imm(1),
                    target: 4,
                },
                RuntimeInstr::Mov {
                    dst: 1,
                    src: RuntimeOperand::Imm(7),
                },
                RuntimeInstr::Jump { target: 5 },
                RuntimeInstr::Mov {
                    dst: 1,
                    src: RuntimeOperand::Imm(9),
                },
                RuntimeInstr::Exit {
                    code: RuntimeOperand::Slot(1),
                },
            ],
        },
    }]);
    let program = match &out[0] {
        LoweredStmt::RuntimeGeneric { program } => program,
        other => panic!("expected runtime generic program, got {other:?}"),
    };
    assert!(
        !program
            .instrs
            .iter()
            .any(|instr| matches!(instr, RuntimeInstr::JumpIfCmpFalse { .. })),
        "unexpected conditional left after unswitching: {:?}",
        program.instrs
    );
    assert!(
        !program.instrs.iter().any(|instr| matches!(
            instr,
            RuntimeInstr::Mov {
                dst: 1,
                src: RuntimeOperand::Imm(9)
            }
        )),
        "cold branch should be gone after unswitching: {:?}",
        program.instrs
    );
}
