//! The runtime instruction set: a flat program over numbered 64-bit slots.
//!
//! Each executable type that holds a vector or a string has a mathematical
//! counterpart ending in `View`, in which they are sequences. Contracts speak
//! of the views.

use vstd::prelude::*;

verus! {

/// An instruction operand: the contents of a slot or an immediate value.
#[derive(Clone, Copy, Debug, PartialEq, Eq, Structural)]
pub enum RuntimeOperand {
    Slot(usize),
    Imm(u64),
}

/// Two-operand integer operations on 64-bit words.
#[derive(Clone, Copy, Debug, PartialEq, Eq, Structural)]
pub enum RuntimeBinOp {
    Add,
    Sub,
    Mul,
    DivUnsigned,
    DivSigned,
    ModUnsigned,
    ModSigned,
    BitAnd,
    BitOr,
    BitXor,
    Shl,
    ShrUnsigned,
    ShrSigned,
}

/// Two-operand floating-point operations on the bit patterns of the operands.
#[derive(Clone, Copy, Debug, PartialEq, Eq, Structural)]
pub enum RuntimeFloatBinOp {
    Add,
    Sub,
    Mul,
    Div,
}

/// Comparisons of 64-bit words.
#[derive(Clone, Copy, Debug, PartialEq, Eq, Structural)]
pub enum RuntimeCmpOp {
    Eq,
    Ne,
    LtUnsigned,
    LeUnsigned,
    GtUnsigned,
    GeUnsigned,
    LtSigned,
    LeSigned,
    GtSigned,
    GeSigned,
}

/// Sources a program may read a run-time value from.
#[derive(Clone, Copy, Debug, PartialEq, Eq, Structural)]
pub enum RuntimeLoadKind {
    EntropySeed,
}

/// One instruction of a runtime program.
#[allow(inconsistent_fields)]
#[derive(Debug, PartialEq, Eq)]
pub enum RuntimeInstr {
    LoadSeed { dst: usize, kind: RuntimeLoadKind, input: Option<RuntimeOperand> },
    Mov { dst: usize, src: RuntimeOperand },
    BinOp { dst: usize, op: RuntimeBinOp, lhs: RuntimeOperand, rhs: RuntimeOperand },
    BinOpInPlace { dst: usize, op: RuntimeBinOp, rhs: RuntimeOperand },
    FloatBinOp {
        dst: usize,
        bits: u16,
        op: RuntimeFloatBinOp,
        lhs: RuntimeOperand,
        rhs: RuntimeOperand,
    },
    Cmp { dst: usize, op: RuntimeCmpOp, lhs: RuntimeOperand, rhs: RuntimeOperand },
    NormalizeInt { dst: usize, signed: bool, bits: u16 },
    Jump { target: usize },
    JumpIfZero { cond_slot: usize, target: usize },
    JumpIfCmpFalse { op: RuntimeCmpOp, lhs: RuntimeOperand, rhs: RuntimeOperand, target: usize },
    CompareSwap { left: usize, right: usize, signed: bool },
    RadixSortFixedInt { slots: Vec<usize>, bits: u16, signed: bool, stable: bool },
    Call { target: usize },
    LoadIndex { dst: usize, base_slots: Vec<usize>, index: RuntimeOperand },
    LoadIndexUnchecked { dst: usize, base_slots: Vec<usize>, index: RuntimeOperand },
    StoreIndex { base_slots: Vec<usize>, index: RuntimeOperand, src: RuntimeOperand },
    StoreIndexUnchecked { base_slots: Vec<usize>, index: RuntimeOperand, src: RuntimeOperand },
    HeapLoadInt { dst: usize, ptr: RuntimeOperand, index: RuntimeOperand, bytes: u8 },
    HeapStoreInt { ptr: RuntimeOperand, index: RuntimeOperand, src: RuntimeOperand, bytes: u8 },
    HeapCopy { dst_ptr: RuntimeOperand, src_ptr: RuntimeOperand, bytes: RuntimeOperand },
    BloomSplitBlockInsert { filter_slots: Vec<usize>, hash: RuntimeOperand },
    BloomSplitBlockCheck { dst: usize, filter_slots: Vec<usize>, hash: RuntimeOperand },
    BloomClassic4Check {
        dst: usize,
        lanes_checked: usize,
        filter_slots: Vec<usize>,
        hash: RuntimeOperand,
    },
    HashCtrlGroupProbe {
        dst_mask: usize,
        ctrl_slots: Vec<usize>,
        group_start: RuntimeOperand,
        fingerprint: RuntimeOperand,
    },
    JoinSelectAdaptive { dst: usize, build_rows: RuntimeOperand, probe_rows: RuntimeOperand },
    Alloc { dst: usize, size: RuntimeOperand },
    Free { ptr: RuntimeOperand, size: RuntimeOperand },
    FileOpen { dst: usize, path_ptr: RuntimeOperand, flags: u64, mode: u64 },
    FileWrite { dst: usize, fd: RuntimeOperand, ptr: RuntimeOperand, len: RuntimeOperand },
    FileRead { dst: usize, fd: RuntimeOperand, ptr: RuntimeOperand, len: RuntimeOperand },
    FileClose { fd: RuntimeOperand },
    ThreadSpawn { handle_dst: usize, target: usize, return_slot: Option<usize> },
    ThreadJoin { dst: usize, handle: RuntimeOperand },
    ChannelCreate { dst: usize, capacity: RuntimeOperand, unbounded: bool },
    ChannelSend { handle: RuntimeOperand, value: RuntimeOperand },
    ChannelRecv { dst: usize, handle: RuntimeOperand },
    ChannelClose { handle: RuntimeOperand, sender: bool },
    ChannelDestroy { handle: RuntimeOperand },
    PrintConst { text: String },
    PrintInt { value: RuntimeOperand, signed: bool, bits: u16 },
    Return,
    Exit { code: RuntimeOperand },
}

/// An instruction as a mathematical value.
#[allow(inconsistent_fields)]
#[verifier::ext_equal]
pub enum InstrView {
    LoadSeed { dst: usize, kind: RuntimeLoadKind, input: Option<RuntimeOperand> },
    Mov { dst: usize, src: RuntimeOperand },
    BinOp { dst: usize, op: RuntimeBinOp, lhs: RuntimeOperand, rhs: RuntimeOperand },
    BinOpInPlace { dst: usize, op: RuntimeBinOp, rhs: RuntimeOperand },
    FloatBinOp {
        dst: usize,
        bits: u16,
        op: RuntimeFloatBinOp,
        lhs: RuntimeOperand,
        rhs: RuntimeOperand,
    },
    Cmp { dst: usize, op: RuntimeCmpOp, lhs: RuntimeOperand, rhs: RuntimeOperand },
    NormalizeInt { dst: usize, signed: bool, bits: u16 },
    Jump { target: usize },
    JumpIfZero { cond_slot: usize, target: usize },
    JumpIfCmpFalse { op: RuntimeCmpOp, lhs: RuntimeOperand, rhs: RuntimeOperand, target: usize },
    CompareSwap { left: usize, right: usize, signed: bool },
    RadixSortFixedInt { slots: Seq<usize>, bits: u16, signed: bool, stable: bool },
    Call { target: usize },
    LoadIndex { dst: usize, base_slots: Seq<usize>, index: RuntimeOperand },
    LoadIndexUnchecked { dst: usize, base_slots: Seq<usize>, index: RuntimeOperand },
    StoreIndex { base_slots: Seq<usize>, index: RuntimeOperand, src: RuntimeOperand },
    StoreIndexUnchecked { base_slots: Seq<usize>, index: RuntimeOperand, src: RuntimeOperand },
    HeapLoadInt { dst: usize, ptr: RuntimeOperand, index: RuntimeOperand, bytes: u8 },
    HeapStoreInt { ptr: RuntimeOperand, index: RuntimeOperand, src: RuntimeOperand, bytes: u8 },
    HeapCopy { dst_ptr: RuntimeOperand, src_ptr: RuntimeOperand, bytes: RuntimeOperand },
    BloomSplitBlockInsert { filter_slots: Seq<usize>, hash: RuntimeOperand },
    BloomSplitBlockCheck { dst: usize, filter_slots: Seq<usize>, hash: RuntimeOperand },
    BloomClassic4Check {
        dst: usize,
        lanes_checked: usize,
        filter_slots: Seq<usize>,
        hash: RuntimeOperand,
    },
    HashCtrlGroupProbe {
        dst_mask: usize,
        ctrl_slots: Seq<usize>,
        group_start: RuntimeOperand,
        fingerprint: RuntimeOperand,
    },
    JoinSelectAdaptive { dst: usize, build_rows: RuntimeOperand, probe_rows: RuntimeOperand },
    Alloc { dst: usize, size: RuntimeOperand },
    Free { ptr: RuntimeOperand, size: RuntimeOperand },
    FileOpen { dst: usize, path_ptr: RuntimeOperand, flags: u64, mode: u64 },
    FileWrite { dst: usize, fd: RuntimeOperand, ptr: RuntimeOperand, len: RuntimeOperand },
    FileRead { dst: usize, fd: RuntimeOperand, ptr: RuntimeOperand, len: RuntimeOperand },
    FileClose { fd: RuntimeOperand },
    ThreadSpawn { handle_dst: usize, target: usize, return_slot: Option<usize> },
    ThreadJoin { dst: usize, handle: RuntimeOperand },
    ChannelCreate { dst: usize, capacity: RuntimeOperand, unbounded: bool },
    ChannelSend { handle: RuntimeOperand, value: RuntimeOperand },
    ChannelRecv { dst: usize, handle: RuntimeOperand },
    ChannelClose { handle: RuntimeOperand, sender: bool },
    ChannelDestroy { handle: RuntimeOperand },
    PrintConst { text: Seq<char> },
    PrintInt { value: RuntimeOperand, signed: bool, bits: u16 },
    Return,
    Exit { code: RuntimeOperand },
}

impl View for RuntimeInstr {
    type V = InstrView;

    open spec fn view(&self) -> InstrView {
        match *self {
            RuntimeInstr::LoadSeed { dst, kind, input } => InstrView::LoadSeed { dst, kind, input },
            RuntimeInstr::Mov { dst, src } => InstrView::Mov { dst, src },
            RuntimeInstr::BinOp { dst, op, lhs, rhs } => InstrView::BinOp { dst, op, lhs, rhs },
            RuntimeInstr::BinOpInPlace { dst, op, rhs } => InstrView::BinOpInPlace { dst, op, rhs },
            RuntimeInstr::FloatBinOp { dst, bits, op, lhs, rhs } => {
                InstrView::FloatBinOp { dst, bits, op, lhs, rhs }
            },
            RuntimeInstr::Cmp { dst, op, lhs, rhs } => InstrView::Cmp { dst, op, lhs, rhs },
            RuntimeInstr::NormalizeInt { dst, signed, bits } => {
                InstrView::NormalizeInt { dst, signed, bits }
            },
            RuntimeInstr::Jump { target } => InstrView::Jump { target },
            RuntimeInstr::JumpIfZero { cond_slot, target } => {
                InstrView::JumpIfZero { cond_slot, target }
            },
            RuntimeInstr::JumpIfCmpFalse { op, lhs, rhs, target } => {
                InstrView::JumpIfCmpFalse { op, lhs, rhs, target }
            },
            RuntimeInstr::CompareSwap { left, right, signed } => {
                InstrView::CompareSwap { left, right, signed }
            },
            RuntimeInstr::RadixSortFixedInt { slots, bits, signed, stable } => {
                InstrView::RadixSortFixedInt { slots: slots@, bits, signed, stable }
            },
            RuntimeInstr::Call { target } => InstrView::Call { target },
            RuntimeInstr::LoadIndex { dst, base_slots, index } => {
                InstrView::LoadIndex { dst, base_slots: base_slots@, index }
            },
            RuntimeInstr::LoadIndexUnchecked { dst, base_slots, index } => {
                InstrView::LoadIndexUnchecked { dst, base_slots: base_slots@, index }
            },
            RuntimeInstr::StoreIndex { base_slots, index, src } => {
                InstrView::StoreIndex { base_slots: base_slots@, index, src }
            },
            RuntimeInstr::StoreIndexUnchecked { base_slots, index, src } => {
                InstrView::StoreIndexUnchecked { base_slots: base_slots@, index, src }
            },
            RuntimeInstr::HeapLoadInt { dst, ptr, index, bytes } => {
                InstrView::HeapLoadInt { dst, ptr, index, bytes }
            },
            RuntimeInstr::HeapStoreInt { ptr, index, src, bytes } => {
                InstrView::HeapStoreInt { ptr, index, src, bytes }
            },
            RuntimeInstr::HeapCopy { dst_ptr, src_ptr, bytes } => {
                InstrView::HeapCopy { dst_ptr, src_ptr, bytes }
            },
            RuntimeInstr::BloomSplitBlockInsert { filter_slots, hash } => {
                InstrView::BloomSplitBlockInsert { filter_slots: filter_slots@, hash }
            },
            RuntimeInstr::BloomSplitBlockCheck { dst, filter_slots, hash } => {
                InstrView::BloomSplitBlockCheck { dst, filter_slots: filter_slots@, hash }
            },
            RuntimeInstr::BloomClassic4Check {
                dst,
                lanes_checked,
                filter_slots,
                hash,
            } => InstrView::BloomClassic4Check {
                dst,
                lanes_checked,
                filter_slots: filter_slots@,
                hash,
            },
            RuntimeInstr::HashCtrlGroupProbe {
                dst_mask,
                ctrl_slots,
                group_start,
                fingerprint,
            } => InstrView::HashCtrlGroupProbe {
                dst_mask,
                ctrl_slots: ctrl_slots@,
                group_start,
                fingerprint,
            },
            RuntimeInstr::JoinSelectAdaptive { dst, build_rows, probe_rows } => {
                InstrView::JoinSelectAdaptive { dst, build_rows, probe_rows }
            },
            RuntimeInstr::Alloc { dst, size } => InstrView::Alloc { dst, size },
            RuntimeInstr::Free { ptr, size } => InstrView::Free { ptr, size },
            RuntimeInstr::FileOpen { dst, path_ptr, flags, mode } => {
                InstrView::FileOpen { dst, path_ptr, flags, mode }
            },
            RuntimeInstr::FileWrite { dst, fd, ptr, len } => {
                InstrView::FileWrite { dst, fd, ptr, len }
            },
            RuntimeInstr::FileRead { dst, fd, ptr, len } => {
                InstrView::FileRead { dst, fd, ptr, len }
            },
            RuntimeInstr::FileClose { fd } => InstrView::FileClose { fd },
            RuntimeInstr::ThreadSpawn { handle_dst, target, return_slot } => {
                InstrView::ThreadSpawn { handle_dst, target, return_slot }
            },
            RuntimeInstr::ThreadJoin { dst, handle } => InstrView::ThreadJoin { dst, handle },
            RuntimeInstr::ChannelCreate { dst, capacity, unbounded } => {
                InstrView::ChannelCreate { dst, capacity, unbounded }
            },
            RuntimeInstr::ChannelSend { handle, value } => InstrView::ChannelSend { handle, value },
            RuntimeInstr::ChannelRecv { dst, handle } => InstrView::ChannelRecv { dst, handle },
            RuntimeInstr::ChannelClose { handle, sender } => {
                InstrView::ChannelClose { handle, sender }
            },
            RuntimeInstr::ChannelDestroy { handle } => InstrView::ChannelDestroy { handle },
            RuntimeInstr::PrintConst { text } => InstrView::PrintConst { text: text@ },
            RuntimeInstr::PrintInt { value, signed, bits } => {
                InstrView::PrintInt { value, signed, bits }
            },
            RuntimeInstr::Return => InstrView::Return,
            RuntimeInstr::Exit { code } => InstrView::Exit { code },
        }
    }
}

impl Clone for RuntimeInstr {
    fn clone(&self) -> (copy: Self)
        ensures
            copy@ == self@,
    {
        match self {
            RuntimeInstr::LoadSeed { dst, kind, input } => {
                RuntimeInstr::LoadSeed { dst: *dst, kind: *kind, input: *input }
            },
            RuntimeInstr::Mov { dst, src } => RuntimeInstr::Mov { dst: *dst, src: *src },
            RuntimeInstr::BinOp { dst, op, lhs, rhs } => {
                RuntimeInstr::BinOp { dst: *dst, op: *op, lhs: *lhs, rhs: *rhs }
            },
            RuntimeInstr::BinOpInPlace { dst, op, rhs } => {
                RuntimeInstr::BinOpInPlace { dst: *dst, op: *op, rhs: *rhs }
            },
            RuntimeInstr::FloatBinOp { dst, bits, op, lhs, rhs } => {
                RuntimeInstr::FloatBinOp { dst: *dst, bits: *bits, op: *op, lhs: *lhs, rhs: *rhs }
            },
            RuntimeInstr::Cmp { dst, op, lhs, rhs } => {
                RuntimeInstr::Cmp { dst: *dst, op: *op, lhs: *lhs, rhs: *rhs }
            },
            RuntimeInstr::NormalizeInt { dst, signed, bits } => {
                RuntimeInstr::NormalizeInt { dst: *dst, signed: *signed, bits: *bits }
            },
            RuntimeInstr::Jump { target } => RuntimeInstr::Jump { target: *target },
            RuntimeInstr::JumpIfZero { cond_slot, target } => {
                RuntimeInstr::JumpIfZero { cond_slot: *cond_slot, target: *target }
            },
            RuntimeInstr::JumpIfCmpFalse { op, lhs, rhs, target } => {
                RuntimeInstr::JumpIfCmpFalse { op: *op, lhs: *lhs, rhs: *rhs, target: *target }
            },
            RuntimeInstr::CompareSwap { left, right, signed } => {
                RuntimeInstr::CompareSwap { left: *left, right: *right, signed: *signed }
            },
            RuntimeInstr::RadixSortFixedInt {
                slots,
                bits,
                signed,
                stable,
            } => RuntimeInstr::RadixSortFixedInt {
                slots: copy_slots(slots),
                bits: *bits,
                signed: *signed,
                stable: *stable,
            },
            RuntimeInstr::Call { target } => RuntimeInstr::Call { target: *target },
            RuntimeInstr::LoadIndex { dst, base_slots, index } => RuntimeInstr::LoadIndex {
                dst: *dst,
                base_slots: copy_slots(base_slots),
                index: *index,
            },
            RuntimeInstr::LoadIndexUnchecked {
                dst,
                base_slots,
                index,
            } => RuntimeInstr::LoadIndexUnchecked {
                dst: *dst,
                base_slots: copy_slots(base_slots),
                index: *index,
            },
            RuntimeInstr::StoreIndex { base_slots, index, src } => RuntimeInstr::StoreIndex {
                base_slots: copy_slots(base_slots),
                index: *index,
                src: *src,
            },
            RuntimeInstr::StoreIndexUnchecked {
                base_slots,
                index,
                src,
            } => RuntimeInstr::StoreIndexUnchecked {
                base_slots: copy_slots(base_slots),
                index: *index,
                src: *src,
            },
            RuntimeInstr::HeapLoadInt { dst, ptr, index, bytes } => {
                RuntimeInstr::HeapLoadInt { dst: *dst, ptr: *ptr, index: *index, bytes: *bytes }
            },
            RuntimeInstr::HeapStoreInt { ptr, index, src, bytes } => {
                RuntimeInstr::HeapStoreInt { ptr: *ptr, index: *index, src: *src, bytes: *bytes }
            },
            RuntimeInstr::HeapCopy { dst_ptr, src_ptr, bytes } => {
                RuntimeInstr::HeapCopy { dst_ptr: *dst_ptr, src_ptr: *src_ptr, bytes: *bytes }
            },
            RuntimeInstr::BloomSplitBlockInsert {
                filter_slots,
                hash,
            } => RuntimeInstr::BloomSplitBlockInsert {
                filter_slots: copy_slots(filter_slots),
                hash: *hash,
            },
            RuntimeInstr::BloomSplitBlockCheck {
                dst,
                filter_slots,
                hash,
            } => RuntimeInstr::BloomSplitBlockCheck {
                dst: *dst,
                filter_slots: copy_slots(filter_slots),
                hash: *hash,
            },
            RuntimeInstr::BloomClassic4Check {
                dst,
                lanes_checked,
                filter_slots,
                hash,
            } => RuntimeInstr::BloomClassic4Check {
                dst: *dst,
                lanes_checked: *lanes_checked,
                filter_slots: copy_slots(filter_slots),
                hash: *hash,
            },
            RuntimeInstr::HashCtrlGroupProbe {
                dst_mask,
                ctrl_slots,
                group_start,
                fingerprint,
            } => RuntimeInstr::HashCtrlGroupProbe {
                dst_mask: *dst_mask,
                ctrl_slots: copy_slots(ctrl_slots),
                group_start: *group_start,
                fingerprint: *fingerprint,
            },
            RuntimeInstr::JoinSelectAdaptive {
                dst,
                build_rows,
                probe_rows,
            } => RuntimeInstr::JoinSelectAdaptive {
                dst: *dst,
                build_rows: *build_rows,
                probe_rows: *probe_rows,
            },
            RuntimeInstr::Alloc { dst, size } => RuntimeInstr::Alloc { dst: *dst, size: *size },
            RuntimeInstr::Free { ptr, size } => RuntimeInstr::Free { ptr: *ptr, size: *size },
            RuntimeInstr::FileOpen { dst, path_ptr, flags, mode } => RuntimeInstr::FileOpen {
                dst: *dst,
                path_ptr: *path_ptr,
                flags: *flags,
                mode: *mode,
            },
            RuntimeInstr::FileWrite { dst, fd, ptr, len } => {
                RuntimeInstr::FileWrite { dst: *dst, fd: *fd, ptr: *ptr, len: *len }
            },
            RuntimeInstr::FileRead { dst, fd, ptr, len } => {
                RuntimeInstr::FileRead { dst: *dst, fd: *fd, ptr: *ptr, len: *len }
            },
            RuntimeInstr::FileClose { fd } => RuntimeInstr::FileClose { fd: *fd },
            RuntimeInstr::ThreadSpawn {
                handle_dst,
                target,
                return_slot,
            } => RuntimeInstr::ThreadSpawn {
                handle_dst: *handle_dst,
                target: *target,
                return_slot: *return_slot,
            },
            RuntimeInstr::ThreadJoin { dst, handle } => {
                RuntimeInstr::ThreadJoin { dst: *dst, handle: *handle }
            },
            RuntimeInstr::ChannelCreate {
                dst,
                capacity,
                unbounded,
            } => RuntimeInstr::ChannelCreate {
                dst: *dst,
                capacity: *capacity,
                unbounded: *unbounded,
            },
            RuntimeInstr::ChannelSend { handle, value } => {
                RuntimeInstr::ChannelSend { handle: *handle, value: *value }
            },
            RuntimeInstr::ChannelRecv { dst, handle } => {
                RuntimeInstr::ChannelRecv { dst: *dst, handle: *handle }
            },
            RuntimeInstr::ChannelClose { handle, sender } => {
                RuntimeInstr::ChannelClose { handle: *handle, sender: *sender }
            },
            RuntimeInstr::ChannelDestroy { handle } => {
                RuntimeInstr::ChannelDestroy { handle: *handle }
            },
            RuntimeInstr::PrintConst { text } => RuntimeInstr::PrintConst { text: text.clone() },
            RuntimeInstr::PrintInt { value, signed, bits } => {
                RuntimeInstr::PrintInt { value: *value, signed: *signed, bits: *bits }
            },
            RuntimeInstr::Return => RuntimeInstr::Return,
            RuntimeInstr::Exit { code } => RuntimeInstr::Exit { code: *code },
        }
    }
}

/// Copies a list of slots.
pub fn copy_slots(slots: &Vec<usize>) -> (copy: Vec<usize>)
    ensures
        copy@ == slots@,
{
    let copy: Vec<usize> = slots.clone();
    assert(copy@ =~= slots@);
    copy
}

/// The view of an optional instruction.
pub open spec fn optional_view(instr: Option<RuntimeInstr>) -> Option<InstrView> {
    match instr {
        Some(instr) => Some(instr@),
        None => None,
    }
}

/// The mathematical value of an instruction list.
pub open spec fn instrs_view(instrs: Seq<RuntimeInstr>) -> Seq<InstrView> {
    Seq::new(instrs.len(), |i: int| instrs[i]@)
}

/// Copies an instruction list.
pub fn copy_instrs(instrs: &[RuntimeInstr]) -> (copy: Vec<RuntimeInstr>)
    ensures
        instrs_view(copy@) == instrs_view(instrs@),
{
    let mut copy: Vec<RuntimeInstr> = Vec::with_capacity(instrs.len());
    for i in 0..instrs.len()
        invariant
            copy.len() == i,
            forall|j: int| 0 <= j < i ==> copy@[j]@ == instrs@[j]@,
    {
        copy.push(instrs[i].clone());
    }
    assert(instrs_view(copy@) =~= instrs_view(instrs@));
    copy
}

/// A runtime program: how many slots it uses and its instructions.
#[derive(Debug, PartialEq, Eq)]
pub struct RuntimeProgram {
    pub slots: usize,
    pub instrs: Vec<RuntimeInstr>,
}

/// A program as a mathematical value.
#[verifier::ext_equal]
pub struct ProgramView {
    pub slots: usize,
    pub instrs: Seq<InstrView>,
}

impl View for RuntimeProgram {
    type V = ProgramView;

    open spec fn view(&self) -> ProgramView {
        ProgramView { slots: self.slots, instrs: instrs_view(self.instrs@) }
    }
}


/// One statement of a lowered program. Statements other than `Print` end the
/// program: what follows them never runs.
#[allow(inconsistent_fields)]
#[derive(Debug, PartialEq, Eq)]
pub enum LoweredStmt {
    Print(String),
    Exit(u64),
    RuntimeBenchLoop { iterations: u64 },
    RuntimeLcgLoop {
        iterations: u64,
        state_init: u64,
        mul: u32,
        add: u32,
        exit_with_state: bool,
        exit_mask: Option<u64>,
    },
    RuntimeSeededLcgLoop {
        iterations: u64,
        mul: u32,
        add: u32,
        exit_with_state: bool,
        exit_mask: Option<u64>,
    },
    RuntimeRingWriteLoop {
        iterations: u64,
        state_init: u64,
        index_init: u64,
        mul: u32,
        add: u32,
        state_mask: u64,
        ring_mask: u64,
        value_shift: u32,
        exit_mask: u64,
    },
    RuntimePrefixScanLoop { iterations: u64 },
    RuntimeBloomFilterLoop { build_iterations: u64, query_iterations: u64 },
    RuntimeBranchLcgLoop { iterations: u64 },
    RuntimeSeededLcgAllocLoop {
        iterations: u64,
        mul: u32,
        add: u32,
        alloc_bytes: u64,
        exit_with_state: bool,
    },
    RuntimeSeededPredictableBranchLcgLoop {
        iterations: u64,
        then_iterations: u64,
        then_mul: u32,
        then_add: u32,
        else_mul: u32,
        else_add: u32,
        exit_with_state: bool,
        exit_mask: Option<u64>,
    },
    RuntimeSeededUnpredictableBranchLcgLoop {
        iterations: u64,
        threshold: u64,
        then_mul: u32,
        then_add: u32,
        else_mul: u32,
        else_add: u32,
        exit_with_state: bool,
        exit_mask: Option<u64>,
    },
    RuntimeSeededDualStateBranchLoop {
        iterations: u64,
        index_init: u64,
        adaptive: bool,
        branchless: bool,
        exit_with_sum: bool,
    },
    RuntimeAffineIndexLoop {
        iterations: u64,
        state_init: u64,
        index_init: u64,
        state_mul: u32,
        index_mul: u32,
        add: u32,
        state_mask: u64,
        exit_with_state: bool,
        exit_mask: Option<u64>,
    },
    RuntimeSeededAffineIndexLoop {
        iterations: u64,
        index_init: u64,
        state_mul: u32,
        index_mul: u32,
        add: u32,
        state_mask: u64,
        exit_with_state: bool,
        exit_mask: Option<u64>,
    },
    RuntimeSeededAffineClosedForm { state_mul: u64, add: u64, exit_with_state: bool },
    RuntimeSeededStructLatencyLoop { iterations: u64, mul: u32, add: u32, exit_with_sum: bool },
    RuntimeGeneric { program: RuntimeProgram },
}

/// A lowered statement as a mathematical value.
#[allow(inconsistent_fields)]
#[verifier::ext_equal]
pub enum StmtView {
    Print(Seq<char>),
    Exit(u64),
    RuntimeBenchLoop { iterations: u64 },
    RuntimeLcgLoop {
        iterations: u64,
        state_init: u64,
        mul: u32,
        add: u32,
        exit_with_state: bool,
        exit_mask: Option<u64>,
    },
    RuntimeSeededLcgLoop {
        iterations: u64,
        mul: u32,
        add: u32,
        exit_with_state: bool,
        exit_mask: Option<u64>,
    },
    RuntimeRingWriteLoop {
        iterations: u64,
        state_init: u64,
        index_init: u64,
        mul: u32,
        add: u32,
        state_mask: u64,
        ring_mask: u64,
        value_shift: u32,
        exit_mask: u64,
    },
    RuntimePrefixScanLoop { iterations: u64 },
    RuntimeBloomFilterLoop { build_iterations: u64, query_iterations: u64 },
    RuntimeBranchLcgLoop { iterations: u64 },
    RuntimeSeededLcgAllocLoop {
        iterations: u64,
        mul: u32,
        add: u32,
        alloc_bytes: u64,
        exit_with_state: bool,
    },
    RuntimeSeededPredictableBranchLcgLoop {
        iterations: u64,
        then_iterations: u64,
        then_mul: u32,
        then_add: u32,
        else_mul: u32,
        else_add: u32,
        exit_with_state: bool,
        exit_mask: Option<u64>,
    },
    RuntimeSeededUnpredictableBranchLcgLoop {
        iterations: u64,
        threshold: u64,
        then_mul: u32,
        then_add: u32,
        else_mul: u32,
        else_add: u32,
        exit_with_state: bool,
        exit_mask: Option<u64>,
    },
    RuntimeSeededDualStateBranchLoop {
        iterations: u64,
        index_init: u64,
        adaptive: bool,
        branchless: bool,
        exit_with_sum: bool,
    },
    RuntimeAffineIndexLoop {
        iterations: u64,
        state_init: u64,
        index_init: u64,
        state_mul: u32,
        index_mul: u32,
        add: u32,
        state_mask: u64,
        exit_with_state: bool,
        exit_mask: Option<u64>,
    },
    RuntimeSeededAffineIndexLoop {
        iterations: u64,
        index_init: u64,
        state_mul: u32,
        index_mul: u32,
        add: u32,
        state_mask: u64,
        exit_with_state: bool,
        exit_mask: Option<u64>,
    },
    RuntimeSeededAffineClosedForm { state_mul: u64, add: u64, exit_with_state: bool },
    RuntimeSeededStructLatencyLoop { iterations: u64, mul: u32, add: u32, exit_with_sum: bool },
    RuntimeGeneric { program: ProgramView },
}

impl View for LoweredStmt {
    type V = StmtView;

    open spec fn view(&self) -> StmtView {
        match *self {
            LoweredStmt::Print(text) => StmtView::Print(text@),
            LoweredStmt::Exit(code) => StmtView::Exit(code),
            LoweredStmt::RuntimeBenchLoop { iterations } => {
                StmtView::RuntimeBenchLoop { iterations }
            },
            LoweredStmt::RuntimeLcgLoop {
                iterations,
                state_init,
                mul,
                add,
                exit_with_state,
                exit_mask,
            } => StmtView::RuntimeLcgLoop {
                iterations,
                state_init,
                mul,
                add,
                exit_with_state,
                exit_mask,
            },
            LoweredStmt::RuntimeSeededLcgLoop {
                iterations,
                mul,
                add,
                exit_with_state,
                exit_mask,
            } => StmtView::RuntimeSeededLcgLoop {
                iterations,
                mul,
                add,
                exit_with_state,
                exit_mask,
            },
            LoweredStmt::RuntimeRingWriteLoop {
                iterations,
                state_init,
                index_init,
                mul,
                add,
                state_mask,
                ring_mask,
                value_shift,
                exit_mask,
            } => StmtView::RuntimeRingWriteLoop {
                iterations,
                state_init,
                index_init,
                mul,
                add,
                state_mask,
                ring_mask,
                value_shift,
                exit_mask,
            },
            LoweredStmt::RuntimePrefixScanLoop { iterations } => {
                StmtView::RuntimePrefixScanLoop { iterations }
            },
            LoweredStmt::RuntimeBloomFilterLoop { build_iterations, query_iterations } => {
                StmtView::RuntimeBloomFilterLoop { build_iterations, query_iterations }
            },
            LoweredStmt::RuntimeBranchLcgLoop { iterations } => {
                StmtView::RuntimeBranchLcgLoop { iterations }
            },
            LoweredStmt::RuntimeSeededLcgAllocLoop {
                iterations,
                mul,
                add,
                alloc_bytes,
                exit_with_state,
            } => StmtView::RuntimeSeededLcgAllocLoop {
                iterations,
                mul,
                add,
                alloc_bytes,
                exit_with_state,
            },
            LoweredStmt::RuntimeSeededPredictableBranchLcgLoop {
                iterations,
                then_iterations,
                then_mul,
                then_add,
                else_mul,
                else_add,
                exit_with_state,
                exit_mask,
            } => StmtView::RuntimeSeededPredictableBranchLcgLoop {
                iterations,
                then_iterations,
                then_mul,
                then_add,
                else_mul,
                else_add,
                exit_with_state,
                exit_mask,
            },
            LoweredStmt::RuntimeSeededUnpredictableBranchLcgLoop {
                iterations,
                threshold,
                then_mul,
                then_add,
                else_mul,
                else_add,
                exit_with_state,
                exit_mask,
            } => StmtView::RuntimeSeededUnpredictableBranchLcgLoop {
                iterations,
                threshold,
                then_mul,
                then_add,
                else_mul,
                else_add,
                exit_with_state,
                exit_mask,
            },
            LoweredStmt::RuntimeSeededDualStateBranchLoop {
                iterations,
                index_init,
                adaptive,
                branchless,
                exit_with_sum,
            } => StmtView::RuntimeSeededDualStateBranchLoop {
                iterations,
                index_init,
                adaptive,
                branchless,
                exit_with_sum,
            },
            LoweredStmt::RuntimeAffineIndexLoop {
                iterations,
                state_init,
                index_init,
                state_mul,
                index_mul,
                add,
                state_mask,
                exit_with_state,
                exit_mask,
            } => StmtView::RuntimeAffineIndexLoop {
                iterations,
                state_init,
                index_init,
                state_mul,
                index_mul,
                add,
                state_mask,
                exit_with_state,
                exit_mask,
            },
            LoweredStmt::RuntimeSeededAffineIndexLoop {
                iterations,
                index_init,
                state_mul,
                index_mul,
                add,
                state_mask,
                exit_with_state,
                exit_mask,
            } => StmtView::RuntimeSeededAffineIndexLoop {
                iterations,
                index_init,
                state_mul,
                index_mul,
                add,
                state_mask,
                exit_with_state,
                exit_mask,
            },
            LoweredStmt::RuntimeSeededAffineClosedForm { state_mul, add, exit_with_state } => {
                StmtView::RuntimeSeededAffineClosedForm { state_mul, add, exit_with_state }
            },
            LoweredStmt::RuntimeSeededStructLatencyLoop { iterations, mul, add, exit_with_sum } => {
                StmtView::RuntimeSeededStructLatencyLoop { iterations, mul, add, exit_with_sum }
            },
            LoweredStmt::RuntimeGeneric {
                program,
            } => StmtView::RuntimeGeneric { program: program@ },
        }
    }
}

impl Clone for RuntimeProgram {
    fn clone(&self) -> (copy: Self)
        ensures
            copy@ == self@,
    {
        RuntimeProgram { slots: self.slots, instrs: copy_instrs(&self.instrs) }
    }
}

impl Clone for LoweredStmt {
    fn clone(&self) -> (copy: Self)
        ensures
            copy@ == self@,
    {
        match self {
            LoweredStmt::Print(text) => LoweredStmt::Print(text.clone()),
            LoweredStmt::Exit(code) => LoweredStmt::Exit(*code),
            LoweredStmt::RuntimeBenchLoop { iterations } => {
                LoweredStmt::RuntimeBenchLoop { iterations: *iterations }
            },
            LoweredStmt::RuntimeLcgLoop {
                iterations,
                state_init,
                mul,
                add,
                exit_with_state,
                exit_mask,
            } => LoweredStmt::RuntimeLcgLoop {
                iterations: *iterations,
                state_init: *state_init,
                mul: *mul,
                add: *add,
                exit_with_state: *exit_with_state,
                exit_mask: *exit_mask,
            },
            LoweredStmt::RuntimeSeededLcgLoop {
                iterations,
                mul,
                add,
                exit_with_state,
                exit_mask,
            } => LoweredStmt::RuntimeSeededLcgLoop {
                iterations: *iterations,
                mul: *mul,
                add: *add,
                exit_with_state: *exit_with_state,
                exit_mask: *exit_mask,
            },
            LoweredStmt::RuntimeRingWriteLoop {
                iterations,
                state_init,
                index_init,
                mul,
                add,
                state_mask,
                ring_mask,
                value_shift,
                exit_mask,
            } => LoweredStmt::RuntimeRingWriteLoop {
                iterations: *iterations,
                state_init: *state_init,
                index_init: *index_init,
                mul: *mul,
                add: *add,
                state_mask: *state_mask,
                ring_mask: *ring_mask,
                value_shift: *value_shift,
                exit_mask: *exit_mask,
            },
            LoweredStmt::RuntimePrefixScanLoop { iterations } => {
                LoweredStmt::RuntimePrefixScanLoop { iterations: *iterations }
            },
            LoweredStmt::RuntimeBloomFilterLoop {
                build_iterations,
                query_iterations,
            } => LoweredStmt::RuntimeBloomFilterLoop {
                build_iterations: *build_iterations,
                query_iterations: *query_iterations,
            },
            LoweredStmt::RuntimeBranchLcgLoop { iterations } => {
                LoweredStmt::RuntimeBranchLcgLoop { iterations: *iterations }
            },
            LoweredStmt::RuntimeSeededLcgAllocLoop {
                iterations,
                mul,
                add,
                alloc_bytes,
                exit_with_state,
            } => LoweredStmt::RuntimeSeededLcgAllocLoop {
                iterations: *iterations,
                mul: *mul,
                add: *add,
                alloc_bytes: *alloc_bytes,
                exit_with_state: *exit_with_state,
            },
            LoweredStmt::RuntimeSeededPredictableBranchLcgLoop {
                iterations,
                then_iterations,
                then_mul,
                then_add,
                else_mul,
                else_add,
                exit_with_state,
                exit_mask,
            } => LoweredStmt::RuntimeSeededPredictableBranchLcgLoop {
                iterations: *iterations,
                then_iterations: *then_iterations,
                then_mul: *then_mul,
                then_add: *then_add,
                else_mul: *else_mul,
                else_add: *else_add,
                exit_with_state: *exit_with_state,
                exit_mask: *exit_mask,
            },
            LoweredStmt::RuntimeSeededUnpredictableBranchLcgLoop {
                iterations,
                threshold,
                then_mul,
                then_add,
                else_mul,
                else_add,
                exit_with_state,
                exit_mask,
            } => LoweredStmt::RuntimeSeededUnpredictableBranchLcgLoop {
                iterations: *iterations,
                threshold: *threshold,
                then_mul: *then_mul,
                then_add: *then_add,
                else_mul: *else_mul,
                else_add: *else_add,
                exit_with_state: *exit_with_state,
                exit_mask: *exit_mask,
            },
            LoweredStmt::RuntimeSeededDualStateBranchLoop {
                iterations,
                index_init,
                adaptive,
                branchless,
                exit_with_sum,
            } => LoweredStmt::RuntimeSeededDualStateBranchLoop {
                iterations: *iterations,
                index_init: *index_init,
                adaptive: *adaptive,
                branchless: *branchless,
                exit_with_sum: *exit_with_sum,
            },
            LoweredStmt::RuntimeAffineIndexLoop {
                iterations,
                state_init,
                index_init,
                state_mul,
                index_mul,
                add,
                state_mask,
                exit_with_state,
                exit_mask,
            } => LoweredStmt::RuntimeAffineIndexLoop {
                iterations: *iterations,
                state_init: *state_init,
                index_init: *index_init,
                state_mul: *state_mul,
                index_mul: *index_mul,
                add: *add,
                state_mask: *state_mask,
                exit_with_state: *exit_with_state,
                exit_mask: *exit_mask,
            },
            LoweredStmt::RuntimeSeededAffineIndexLoop {
                iterations,
                index_init,
                state_mul,
                index_mul,
                add,
                state_mask,
                exit_with_state,
                exit_mask,
            } => LoweredStmt::RuntimeSeededAffineIndexLoop {
                iterations: *iterations,
                index_init: *index_init,
                state_mul: *state_mul,
                index_mul: *index_mul,
                add: *add,
                state_mask: *state_mask,
                exit_with_state: *exit_with_state,
                exit_mask: *exit_mask,
            },
            LoweredStmt::RuntimeSeededAffineClosedForm {
                state_mul,
                add,
                exit_with_state,
            } => LoweredStmt::RuntimeSeededAffineClosedForm {
                state_mul: *state_mul,
                add: *add,
                exit_with_state: *exit_with_state,
            },
            LoweredStmt::RuntimeSeededStructLatencyLoop {
                iterations,
                mul,
                add,
                exit_with_sum,
            } => LoweredStmt::RuntimeSeededStructLatencyLoop {
                iterations: *iterations,
                mul: *mul,
                add: *add,
                exit_with_sum: *exit_with_sum,
            },
            LoweredStmt::RuntimeGeneric { program } => {
                LoweredStmt::RuntimeGeneric { program: program.clone() }
            },
        }
    }
}

/// The mathematical value of a statement list.
pub open spec fn stmts_view(stmts: Seq<LoweredStmt>) -> Seq<StmtView> {
    Seq::new(stmts.len(), |i: int| stmts[i]@)
}

} // verus!
