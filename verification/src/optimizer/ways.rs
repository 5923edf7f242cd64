//! Ways of control, made longer step by step.

use crate::ir::InstrView;
use crate::optimizer::arrivals::{comes_back_to, is_path, may_pass, passes_at};
use crate::optimizer::machine::SlotState;
use crate::optimizer::peephole::FloatFn;
use vstd::prelude::*;

verus! {

/// A way on which control passes through an instruction.
pub open spec fn passes_through(way: Seq<(int, SlotState)>, at: int) -> bool {
    exists|k: int| 0 <= k < way.len() && (#[trigger] way[k]).0 == at
}

/// A longer way.
pub proof fn lemma_way_on(
    instrs: Seq<InstrView>,
    slots: nat,
    floats: FloatFn,
    way: Seq<(int, SlotState)>,
    to: int,
    next: SlotState,
)
    requires
        is_path(instrs, slots, floats, way),
        0 <= way.last().0 < instrs.len(),
        if instrs[way.last().0] is Return {
            next == way.last().1 && exists|call: int|
                #[trigger] passes_through(way, call) && 0 <= call < instrs.len()
                    && instrs[call] is Call && to == call + 1
        } else {
            may_pass(instrs, floats, way.last().0, way.last().1, to, next)
        },
    ensures
        is_path(instrs, slots, floats, way.push((to, next))),
{
    let longer = way.push((to, next));
    let n = way.len() as int;
    assert(longer[n - 1] == way.last());
    assert forall|i: int| 0 < i < longer.len() implies #[trigger] passes_at(
        instrs,
        floats,
        longer,
        i,
    ) by {
        if i < n {
            assert(passes_at(instrs, floats, way, i));
            assert(longer[i] == way[i] && longer[i - 1] == way[i - 1]);
            if instrs[way[i - 1].0] is Return {
                let j = choose|j: int|
                    0 <= j < i && #[trigger] comes_back_to(instrs, way, j, way[i].0);
                assert(longer[j] == way[j]);
                assert(comes_back_to(instrs, longer, j, longer[i].0));
            }
        } else {
            assert(i == n);
            assert(longer[i] == (to, next));
            assert(longer[i - 1] == way.last());
            if instrs[way.last().0] is Return {
                let call = choose|call: int|
                    #[trigger] passes_through(way, call) && 0 <= call < instrs.len()
                        && instrs[call] is Call && to == call + 1;
                let k = choose|k: int| 0 <= k < way.len() && (#[trigger] way[k]).0 == call;
                assert(longer[k] == way[k]);
                assert(0 <= k < i);
                assert(comes_back_to(instrs, longer, k, longer[i].0));
            }
            assert(passes_at(instrs, floats, longer, i));
        }
    }
}

/// A longer way passes through what it passed through.
pub proof fn lemma_still_passes(way: Seq<(int, SlotState)>, place: (int, SlotState))
    ensures
        forall|at: int| #[trigger]
            passes_through(way, at) ==> passes_through(way.push(place), at),
{
    let longer = way.push(place);
    assert forall|at: int| #[trigger] passes_through(way, at) implies passes_through(
        longer,
        at,
    ) by {
        let k = choose|k: int| 0 <= k < way.len() && (#[trigger] way[k]).0 == at;
        assert(longer[k].0 == at);
    }
}

} // verus!
