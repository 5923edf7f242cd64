//! What calls made jumps leave of the ways of control.

use crate::ir::InstrView;
use crate::optimizer::arrivals::{arrives, comes_back_to, is_path, passes_at};
use crate::optimizer::inline::tail_calls;
use crate::optimizer::machine::SlotState;
use crate::optimizer::peephole::FloatFn;
use crate::optimizer::ways::{lemma_still_passes, lemma_way_on, passes_through};
use vstd::prelude::*;

verus! {

/// The instruction is a call with a return behind it.
spec fn is_tail_call(instrs: Seq<InstrView>, at: int) -> bool {
    &&& 0 <= at < instrs.len()
    &&& instrs[at] is Call
    &&& at + 1 < instrs.len()
    &&& instrs[at + 1] is Return
}

/// The instruction is a return.
spec fn is_return(instrs: Seq<InstrView>, at: int) -> bool {
    0 <= at < instrs.len() && instrs[at] is Return
}

/// What becomes of an instruction when calls become jumps: the same, but for a
/// call with a return behind it.
proof fn lemma_tail_instr(instrs: Seq<InstrView>, at: int)
    requires
        0 <= at < instrs.len(),
    ensures
        tail_calls(instrs).len() == instrs.len(),
        is_tail_call(instrs, at) ==> tail_calls(instrs)[at] == (InstrView::Jump {
            target: instrs[at]->Call_target,
        }),
        !is_tail_call(instrs, at) ==> tail_calls(instrs)[at] == instrs[at],
{
}

/// The way that control takes with tail calls made jumps while it takes another
/// without: it ends at the same place with the same slots, or at another return.
proof fn lemma_tail_way(
    instrs: Seq<InstrView>,
    slots: nat,
    floats: FloatFn,
    path: Seq<(int, SlotState)>,
    n: int,
) -> (way: Seq<(int, SlotState)>)
    requires
        is_path(instrs, slots, floats, path),
        0 <= n < path.len(),
    ensures
        is_path(tail_calls(instrs), slots, floats, way),
        way.last().1 == path[n].1,
        way.last().0 == path[n].0 || (is_return(instrs, way.last().0) && is_return(
            instrs,
            path[n].0,
        )),
        forall|j: int|
            0 <= j <= n && 0 <= path[j].0 < instrs.len() && !is_return(instrs, path[j].0)
                ==> passes_through(way, (#[trigger] path[j]).0),
    decreases n,
{
    let new = tail_calls(instrs);
    if n == 0 {
        let way = seq![path[0]];
        assert(way[0].0 == path[0].0);
        way
    } else {
        let before = lemma_tail_way(instrs, slots, floats, path, n - 1);
        let (at, state) = path[n - 1];
        let (to, next) = path[n];
        assert(passes_at(instrs, floats, path, n));
        let here = before.last().0;
        lemma_tail_instr(instrs, at);
        if 0 <= here < instrs.len() {
            lemma_tail_instr(instrs, here);
        }
        if instrs[at] is Return {
            let j = choose|j: int| 0 <= j < n && #[trigger] comes_back_to(instrs, path, j, to);
            let call = path[j].0;
            lemma_tail_instr(instrs, call);
            assert(passes_through(before, path[j].0));
            if is_tail_call(instrs, call) {
                before
            } else {
                lemma_way_on(new, slots, floats, before, to, next);
                let way = before.push((to, next));
                lemma_still_passes(before, (to, next));
                assert(way[before.len() as int].0 == to);
                way
            }
        } else {
            assert(here == at);
            lemma_way_on(new, slots, floats, before, to, next);
            let way = before.push((to, next));
            lemma_still_passes(before, (to, next));
            assert(way[before.len() as int].0 == to);
            way
        }
    }
}

/// Calls with a return behind them made jumps change no way of control: it
/// arrives nowhere else, and it still arrives, with the same slots, at every
/// instruction that is no return.
pub proof fn law_tail_calls_keep_arrivals(
    instrs: Seq<InstrView>,
    slots: nat,
    floats: FloatFn,
    at: int,
    state: SlotState,
)
    requires
        0 <= at < instrs.len(),
    ensures
        arrives(tail_calls(instrs), slots, floats, at, state) ==> arrives(
            instrs,
            slots,
            floats,
            at,
            state,
        ),
        arrives(instrs, slots, floats, at, state) && !(instrs[at] is Return) ==> arrives(
            tail_calls(instrs),
            slots,
            floats,
            at,
            state,
        ),
{
    let new = tail_calls(instrs);
    if arrives(new, slots, floats, at, state) {
        let path = choose|path: Seq<(int, SlotState)>| #[trigger]
            is_path(new, slots, floats, path) && path.last() == (at, state);
        assert forall|i: int| 0 < i < path.len() implies #[trigger] passes_at(
            instrs,
            floats,
            path,
            i,
        ) by {
            assert(passes_at(new, floats, path, i));
            lemma_tail_instr(instrs, path[i - 1].0);
            if new[path[i - 1].0] is Return {
                let j = choose|j: int|
                    0 <= j < i && #[trigger] comes_back_to(new, path, j, path[i].0);
                lemma_tail_instr(instrs, path[j].0);
                assert(comes_back_to(instrs, path, j, path[i].0));
            }
        }
        assert(is_path(instrs, slots, floats, path));
    }
    if arrives(instrs, slots, floats, at, state) && !(instrs[at] is Return) {
        let path = choose|path: Seq<(int, SlotState)>| #[trigger]
            is_path(instrs, slots, floats, path) && path.last() == (at, state);
        assert(path[path.len() - 1] == path.last());
        let way = lemma_tail_way(instrs, slots, floats, path, path.len() - 1);
        assert(way.last() == (at, state));
    }
}

} // verus!
