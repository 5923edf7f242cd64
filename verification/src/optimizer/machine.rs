//! What straight-line code does when it runs: the reference for the soundness of
//! the passes that rewrite it.

use crate::ir::{InstrView, RuntimeLoadKind, RuntimeOperand};
use crate::optimizer::consts::{binop_value, comparison_value, normalized};
use vstd::prelude::*;

verus! {

/// What each slot holds.
pub type SlotState = Seq<u64>;

/// What an operand evaluates to.
pub open spec fn value_of(operand: RuntimeOperand, state: SlotState) -> u64 {
    match operand {
        RuntimeOperand::Slot(slot) => state[slot as int],
        RuntimeOperand::Imm(value) => value,
    }
}

/// Instructions that do nothing but compute slots from slots.
pub open spec fn is_slot_arithmetic(instr: InstrView) -> bool {
    match instr {
        InstrView::Mov { .. }
        | InstrView::BinOp { .. }
        | InstrView::BinOpInPlace { .. }
        | InstrView::Cmp { .. }
        | InstrView::NormalizeInt { .. }
        | InstrView::LoadIndex { .. }
        | InstrView::LoadIndexUnchecked { .. }
        | InstrView::StoreIndex { .. }
        | InstrView::StoreIndexUnchecked { .. } => true,
        _ => false,
    }
}

/// Instructions of straight-line code: slot arithmetic, prints, and what leaves
/// the program.
pub open spec fn is_straight(instr: InstrView) -> bool {
    is_slot_arithmetic(instr) || instr is PrintInt || instr is PrintConst || instr is Exit
}

/// The slots after an instruction of straight-line code, or nothing if it traps:
/// where the operation has no value or the index is out of bounds.
pub open spec fn step(instr: InstrView, state: SlotState) -> Option<SlotState> {
    match instr {
        InstrView::Mov { dst, src } => Some(state.update(dst as int, value_of(src, state))),
        InstrView::BinOp { dst, op, lhs, rhs } => match binop_value(
            op,
            value_of(lhs, state),
            value_of(rhs, state),
        ) {
            Some(value) => Some(state.update(dst as int, value)),
            None => None,
        },
        InstrView::BinOpInPlace { dst, op, rhs } => match binop_value(
            op,
            state[dst as int],
            value_of(rhs, state),
        ) {
            Some(value) => Some(state.update(dst as int, value)),
            None => None,
        },
        InstrView::Cmp { dst, op, lhs, rhs } => Some(
            state.update(
                dst as int,
                comparison_value(op, value_of(lhs, state), value_of(rhs, state)),
            ),
        ),
        InstrView::NormalizeInt { dst, signed, bits } => Some(
            state.update(dst as int, normalized(state[dst as int], signed, bits)),
        ),
        InstrView::LoadIndex { dst, base_slots, index }
        | InstrView::LoadIndexUnchecked { dst, base_slots, index } => {
            let i = value_of(index, state);
            if i < base_slots.len() {
                Some(state.update(dst as int, state[base_slots[i as int] as int]))
            } else {
                None
            }
        },
        InstrView::StoreIndex { base_slots, index, src }
        | InstrView::StoreIndexUnchecked { base_slots, index, src } => {
            let i = value_of(index, state);
            if i < base_slots.len() {
                Some(state.update(base_slots[i as int] as int, value_of(src, state)))
            } else {
                None
            }
        },
        InstrView::PrintInt { .. } | InstrView::PrintConst { .. } | InstrView::Exit { .. } => {
            Some(state)
        },
        _ => None,
    }
}

/// What a program asks of the machine that it runs on, with the values of its
/// operands: a seed, something of the heap, of files or of channels.
pub enum Request {
    Seed { kind: RuntimeLoadKind, input: Option<u64> },
    Load { ptr: u64, index: u64, bytes: u8 },
    Store { ptr: u64, index: u64, value: u64, bytes: u8 },
    Copy { to: u64, from: u64, bytes: u64 },
    Allocate { size: u64 },
    Free { ptr: u64, size: u64 },
    Open { path_ptr: u64, flags: u64, mode: u64 },
    Write { file: u64, ptr: u64, len: u64 },
    Read { file: u64, ptr: u64, len: u64 },
    Close { file: u64 },
    Channel { capacity: u64, unbounded: bool },
    Send { channel: u64, value: u64 },
    Receive { channel: u64 },
    Leave { channel: u64, sender: bool },
    Destroy { channel: u64 },
}

/// What is seen of a program.
pub enum Event {
    Number { value: u64, signed: bool, bits: u16 },
    Text { text: Seq<char> },
    Asked { request: Request },
    Left { code: u64 },
}

/// The machine that a program runs on: what it answers to the last request, by
/// everything that was seen up to it. So what a program finds in the heap, in files
/// and in channels is settled by what it has put there.
pub type World = spec_fn(Seq<Event>) -> u64;

/// What an instruction asks of the machine, if anything.
pub open spec fn request(instr: InstrView, state: SlotState) -> Option<Request> {
    match instr {
        InstrView::LoadSeed { kind, input, .. } => Some(
            Request::Seed {
                kind,
                input: match input {
                    Some(operand) => Some(value_of(operand, state)),
                    None => None,
                },
            },
        ),
        InstrView::HeapLoadInt { ptr, index, bytes, .. } => Some(
            Request::Load { ptr: value_of(ptr, state), index: value_of(index, state), bytes },
        ),
        InstrView::HeapStoreInt { ptr, index, src, bytes } => Some(
            Request::Store {
                ptr: value_of(ptr, state),
                index: value_of(index, state),
                value: value_of(src, state),
                bytes,
            },
        ),
        InstrView::HeapCopy { dst_ptr, src_ptr, bytes } => Some(
            Request::Copy {
                to: value_of(dst_ptr, state),
                from: value_of(src_ptr, state),
                bytes: value_of(bytes, state),
            },
        ),
        InstrView::Alloc { size, .. } => Some(Request::Allocate { size: value_of(size, state) }),
        InstrView::Free { ptr, size } => Some(
            Request::Free { ptr: value_of(ptr, state), size: value_of(size, state) },
        ),
        InstrView::FileOpen { path_ptr, flags, mode, .. } => Some(
            Request::Open { path_ptr: value_of(path_ptr, state), flags, mode },
        ),
        InstrView::FileWrite { fd, ptr, len, .. } => Some(
            Request::Write {
                file: value_of(fd, state),
                ptr: value_of(ptr, state),
                len: value_of(len, state),
            },
        ),
        InstrView::FileRead { fd, ptr, len, .. } => Some(
            Request::Read {
                file: value_of(fd, state),
                ptr: value_of(ptr, state),
                len: value_of(len, state),
            },
        ),
        InstrView::FileClose { fd } => Some(Request::Close { file: value_of(fd, state) }),
        InstrView::ChannelCreate { capacity, unbounded, .. } => Some(
            Request::Channel { capacity: value_of(capacity, state), unbounded },
        ),
        InstrView::ChannelSend { handle, value } => Some(
            Request::Send { channel: value_of(handle, state), value: value_of(value, state) },
        ),
        InstrView::ChannelRecv { handle, .. } => Some(
            Request::Receive { channel: value_of(handle, state) },
        ),
        InstrView::ChannelClose { handle, sender } => Some(
            Request::Leave { channel: value_of(handle, state), sender },
        ),
        InstrView::ChannelDestroy { handle } => Some(
            Request::Destroy { channel: value_of(handle, state) },
        ),
        _ => None,
    }
}

/// The slot that the answer of the machine is put into.
pub open spec fn answer_slot(instr: InstrView) -> Option<usize> {
    match instr {
        InstrView::LoadSeed { dst, .. }
        | InstrView::HeapLoadInt { dst, .. }
        | InstrView::Alloc { dst, .. }
        | InstrView::FileOpen { dst, .. }
        | InstrView::FileWrite { dst, .. }
        | InstrView::FileRead { dst, .. }
        | InstrView::ChannelCreate { dst, .. }
        | InstrView::ChannelRecv { dst, .. } => Some(dst),
        _ => None,
    }
}

/// Instructions that ask something of the machine.
pub open spec fn is_request(instr: InstrView) -> bool {
    match instr {
        InstrView::LoadSeed { .. }
        | InstrView::HeapLoadInt { .. }
        | InstrView::HeapStoreInt { .. }
        | InstrView::HeapCopy { .. }
        | InstrView::Alloc { .. }
        | InstrView::Free { .. }
        | InstrView::FileOpen { .. }
        | InstrView::FileWrite { .. }
        | InstrView::FileRead { .. }
        | InstrView::FileClose { .. }
        | InstrView::ChannelCreate { .. }
        | InstrView::ChannelSend { .. }
        | InstrView::ChannelRecv { .. }
        | InstrView::ChannelClose { .. }
        | InstrView::ChannelDestroy { .. } => true,
        _ => false,
    }
}

/// Instructions that fall through or leave: straight-line code, and requests.
pub open spec fn is_plain(instr: InstrView) -> bool {
    is_straight(instr) || is_request(instr)
}

/// The slots after an instruction to which the machine answers, or nothing if it
/// traps.
pub open spec fn effect(instr: InstrView, state: SlotState, answer: u64) -> Option<SlotState> {
    if is_request(instr) {
        Some(
            match answer_slot(instr) {
                Some(dst) => state.update(dst as int, answer),
                None => state,
            },
        )
    } else {
        step(instr, state)
    }
}

/// Only the last instruction may leave the program.
pub open spec fn leaves_at_end(instrs: Seq<InstrView>) -> bool {
    forall|i: int| 0 <= i < instrs.len() - 1 ==> !(#[trigger] instrs[i] is Exit)
}

/// What is seen of an instruction, if anything is.
pub open spec fn event(instr: InstrView, state: SlotState) -> Option<Event> {
    match instr {
        InstrView::PrintInt { value, signed, bits } => Some(
            Event::Number { value: value_of(value, state), signed, bits },
        ),
        InstrView::PrintConst { text } => Some(Event::Text { text }),
        InstrView::Exit { code } => Some(Event::Left { code: value_of(code, state) }),
        _ => match request(instr, state) {
            Some(request) => Some(Event::Asked { request }),
            None => None,
        },
    }
}

/// The slots after straight-line code, or nothing if it traps.
pub open spec fn run(instrs: Seq<InstrView>, state: SlotState) -> Option<SlotState>
    decreases instrs.len(),
{
    if instrs.len() == 0 {
        Some(state)
    } else {
        match run(instrs.drop_last(), state) {
            Some(before) => step(instrs.last(), before),
            None => None,
        }
    }
}

/// The slots after running straight-line code n times.
pub open spec fn run_times(instrs: Seq<InstrView>, n: nat, state: SlotState) -> Option<SlotState>
    decreases n,
{
    if n == 0 {
        Some(state)
    } else {
        match run_times(instrs, (n - 1) as nat, state) {
            Some(before) => run(instrs, before),
            None => None,
        }
    }
}

/// Running code in two parts is running it whole.
pub proof fn lemma_run_append(a: Seq<InstrView>, b: Seq<InstrView>, state: SlotState)
    ensures
        run(a + b, state) == (match run(a, state) {
            Some(middle) => run(b, middle),
            None => None,
        }),
    decreases b.len(),
{
    if b.len() == 0 {
        assert(a + b =~= a);
    } else {
        assert((a + b).drop_last() =~= a + b.drop_last());
        assert((a + b).last() == b.last());
        lemma_run_append(a, b.drop_last(), state);
    }
}

/// What is seen of straight-line code, in order: what it prints, and with what it
/// leaves at its end.
pub open spec fn events(instrs: Seq<InstrView>, state: SlotState) -> Seq<Event>
    decreases instrs.len(),
{
    if instrs.len() == 0 {
        Seq::empty()
    } else {
        let before = events(instrs.drop_last(), state);
        match run(instrs.drop_last(), state) {
            Some(middle) => match event(instrs.last(), middle) {
                Some(seen) => before.push(seen),
                None => before,
            },
            None => before,
        }
    }
}

/// One instruction more.
pub proof fn lemma_run_push(instrs: Seq<InstrView>, instr: InstrView, state: SlotState)
    ensures
        run(instrs.push(instr), state) == (match run(instrs, state) {
            Some(middle) => step(instr, middle),
            None => None,
        }),
        events(instrs.push(instr), state) == (match run(instrs, state) {
            Some(middle) => match event(instr, middle) {
                Some(seen) => events(instrs, state).push(seen),
                None => events(instrs, state),
            },
            None => events(instrs, state),
        }),
{
    assert(instrs.push(instr).drop_last() =~= instrs);
}

/// What is seen of code and of code behind it.
pub proof fn lemma_events_append(a: Seq<InstrView>, b: Seq<InstrView>, state: SlotState)
    ensures
        events(a + b, state) == (match run(a, state) {
            Some(middle) => events(a, state) + events(b, middle),
            None => events(a, state),
        }),
    decreases b.len(),
{
    if b.len() == 0 {
        assert(a + b =~= a);
        if let Some(middle) = run(a, state) {
            assert(events(a, state) + events(b, middle) =~= events(a, state));
        }
    } else {
        assert((a + b).drop_last() =~= a + b.drop_last());
        assert((a + b).last() == b.last());
        lemma_run_append(a, b.drop_last(), state);
        lemma_events_append(a, b.drop_last(), state);
        if let Some(middle) = run(a, state) {
            assert(events(a + b, state) =~= events(a, state) + events(b, middle));
        }
    }
}

/// Nothing is seen of slot arithmetic.
pub proof fn lemma_arithmetic_is_unseen(instrs: Seq<InstrView>, state: SlotState)
    requires
        forall|i: int| 0 <= i < instrs.len() ==> is_slot_arithmetic(#[trigger] instrs[i]),
    ensures
        events(instrs, state) == Seq::<Event>::empty(),
    decreases instrs.len(),
{
    if instrs.len() > 0 {
        let before = instrs.drop_last();
        assert forall|i: int| 0 <= i < before.len() implies is_slot_arithmetic(
            #[trigger] before[i],
        ) by {
            assert(is_slot_arithmetic(instrs[i]));
        }
        lemma_arithmetic_is_unseen(before, state);
        assert(is_slot_arithmetic(instrs[instrs.len() - 1]));
    }
}

} // verus!
