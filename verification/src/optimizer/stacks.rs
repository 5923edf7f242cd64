//! Ways of control on which each return goes behind the call that it belongs to.

use crate::ir::InstrView;
use crate::optimizer::arrivals::{arrives, comes_back_to, is_path, may_become, may_pass, passes_at};
use crate::optimizer::machine::SlotState;
use crate::optimizer::peephole::FloatFn;
use vstd::prelude::*;

verus! {

/// Where control stands: at an instruction, inside of calls, with slots.
pub struct Standing {
    pub at: int,
    pub calls: Seq<int>,
    pub state: SlotState,
}

/// Control may pass from one standing to another. A call is left by a return; a
/// thread starts inside of no call.
pub open spec fn may_go(
    instrs: Seq<InstrView>,
    floats: FloatFn,
    from: Standing,
    to: Standing,
) -> bool {
    &&& 0 <= from.at < instrs.len()
    &&& match instrs[from.at] {
        InstrView::Call { target } => to == Standing {
            at: target as int,
            calls: from.calls.push(from.at),
            state: from.state,
        },
        InstrView::Return => {
            &&& from.calls.len() > 0
            &&& to == Standing {
                at: from.calls.last() + 1,
                calls: from.calls.drop_last(),
                state: from.state,
            }
        },
        InstrView::ThreadSpawn { target, .. } => {
            ||| to.at == from.at + 1 && to.calls == from.calls && may_become(
                instrs[from.at],
                floats,
                from.state,
                to.state,
            )
            ||| to.at == target && to.calls == Seq::<int>::empty() && to.state.len()
                == from.state.len()
        },
        _ => {
            &&& may_pass(instrs, floats, from.at, from.state, to.at, to.state)
            &&& to.calls == from.calls
        },
    }
}

/// A way that control can take from the first instruction.
pub open spec fn is_run(
    instrs: Seq<InstrView>,
    slots: nat,
    floats: FloatFn,
    way: Seq<Standing>,
) -> bool {
    &&& way.len() > 0
    &&& way[0].at == 0
    &&& way[0].calls == Seq::<int>::empty()
    &&& way[0].state.len() == slots
    &&& forall|i: int|
        0 <= i < way.len() - 1 ==> may_go(instrs, floats, #[trigger] way[i], way[i + 1])
}

/// Control comes to stand somewhere.
pub open spec fn comes_to(
    instrs: Seq<InstrView>,
    slots: nat,
    floats: FloatFn,
    place: Standing,
) -> bool {
    exists|way: Seq<Standing>| #[trigger] is_run(instrs, slots, floats, way) && way.last() == place
}

/// Control comes to an instruction with these slots, inside of some calls.
pub open spec fn reaches(
    instrs: Seq<InstrView>,
    slots: nat,
    floats: FloatFn,
    at: int,
    state: SlotState,
) -> bool {
    exists|calls: Seq<int>| #[trigger]
        comes_to(instrs, slots, floats, Standing { at, calls, state })
}

/// Control comes to where it starts.
pub proof fn lemma_comes_to_start(
    instrs: Seq<InstrView>,
    slots: nat,
    floats: FloatFn,
    state: SlotState,
)
    requires
        state.len() == slots,
    ensures
        comes_to(instrs, slots, floats, Standing { at: 0, calls: Seq::empty(), state }),
{
    let way = seq![Standing { at: 0, calls: Seq::empty(), state }];
    assert(is_run(instrs, slots, floats, way));
    assert(way.last() == way[0]);
}

/// Control comes to where it goes from where it comes to.
pub proof fn lemma_comes_on(
    instrs: Seq<InstrView>,
    slots: nat,
    floats: FloatFn,
    from: Standing,
    to: Standing,
)
    requires
        comes_to(instrs, slots, floats, from),
        may_go(instrs, floats, from, to),
    ensures
        comes_to(instrs, slots, floats, to),
{
    let way = choose|way: Seq<Standing>| #[trigger]
        is_run(instrs, slots, floats, way) && way.last() == from;
    let longer = way.push(to);
    assert forall|i: int| 0 <= i < longer.len() - 1 implies may_go(
        instrs,
        floats,
        #[trigger] longer[i],
        longer[i + 1],
    ) by {
        if i < way.len() - 1 {
            assert(longer[i] == way[i] && longer[i + 1] == way[i + 1]);
        } else {
            assert(longer[i] == from);
        }
    }
    assert(is_run(instrs, slots, floats, longer));
    assert(longer.last() == to);
}

/// The calls that control stands inside of were made on the way.
proof fn lemma_calls_made(
    instrs: Seq<InstrView>,
    slots: nat,
    floats: FloatFn,
    way: Seq<Standing>,
    n: int,
    k: int,
)
    requires
        is_run(instrs, slots, floats, way),
        0 <= n < way.len(),
        0 <= k < way[n].calls.len(),
    ensures
        exists|j: int|
            0 <= j < n && (#[trigger] way[j]).at == way[n].calls[k] && 0 <= way[j].at
                < instrs.len() && instrs[way[j].at] is Call,
    decreases n,
{
    if n > 0 {
        assert(may_go(instrs, floats, way[n - 1], way[n - 1 + 1]));
        if k < way[n - 1].calls.len() {
            if way[n].calls[k] == way[n - 1].calls[k] {
                lemma_calls_made(instrs, slots, floats, way, n - 1, k);
            }
        } else {
            assert(way[n - 1].at == way[n].calls[k]);
        }
    }
}

/// Where control comes to with its calls it arrives: what holds on arrival holds
/// there.
pub proof fn law_what_is_reached_is_arrived_at(
    instrs: Seq<InstrView>,
    slots: nat,
    floats: FloatFn,
    at: int,
    state: SlotState,
)
    requires
        reaches(instrs, slots, floats, at, state),
    ensures
        arrives(instrs, slots, floats, at, state),
{
    let calls = choose|calls: Seq<int>| #[trigger]
        comes_to(instrs, slots, floats, Standing { at, calls, state });
    let way = choose|way: Seq<Standing>| #[trigger]
        is_run(instrs, slots, floats, way) && way.last() == (Standing { at, calls, state });
    let path = Seq::new(way.len(), |i: int| (way[i].at, way[i].state));
    assert forall|i: int| 0 < i < path.len() implies #[trigger] passes_at(
        instrs,
        floats,
        path,
        i,
    ) by {
        let before = way[i - 1];
        assert(may_go(instrs, floats, before, way[i - 1 + 1]));
        if instrs[before.at] is Return {
            let k = before.calls.len() - 1;
            lemma_calls_made(instrs, slots, floats, way, i - 1, k);
            let j = choose|j: int|
                0 <= j < i - 1 && (#[trigger] way[j]).at == before.calls[k] && 0 <= way[j].at
                    < instrs.len() && instrs[way[j].at] is Call;
            assert(path[j].0 == way[j].at);
            assert(comes_back_to(instrs, path, j, path[i].0));
        }
    }
    assert(is_path(instrs, slots, floats, path));
    assert(path.last() == (at, state));
}

} // verus!
