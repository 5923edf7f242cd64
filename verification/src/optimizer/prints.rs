//! Merging and pruning of the text a program prints before it starts.

use crate::ir::{stmts_view, LoweredStmt, StmtView};
use vstd::prelude::*;
use vstd::string::StringExecFns;

verus! {

/// The text that the statements from `start` on print before the first
/// statement that does anything else.
pub open spec fn printed(stmts: Seq<StmtView>, start: int) -> Seq<char>
    decreases stmts.len() - start,
{
    if 0 <= start < stmts.len() {
        match stmts[start] {
            StmtView::Print(text) => text + printed(stmts, start + 1),
            _ => seq![],
        }
    } else {
        seq![]
    }
}

/// The first statement from `start` on that does not print.
pub open spec fn ending(stmts: Seq<StmtView>, start: int) -> Option<StmtView>
    decreases stmts.len() - start,
{
    if 0 <= start < stmts.len() {
        match stmts[start] {
            StmtView::Print(_) => ending(stmts, start + 1),
            other => Some(other),
        }
    } else {
        None
    }
}

/// A statement in front of a list prints first.
proof fn lemma_printed_front(stmt: StmtView, rest: Seq<StmtView>, start: int)
    requires
        0 <= start,
    ensures
        printed(seq![stmt] + rest, start + 1) == printed(rest, start),
        ending(seq![stmt] + rest, start + 1) == ending(rest, start),
    decreases rest.len() - start,
{
    let all = seq![stmt] + rest;
    if start < rest.len() {
        assert(all[start + 1] == rest[start]);
        lemma_printed_front(stmt, rest, start + 1);
    }
}

/// What a list with one more statement in front prints and ends with.
pub proof fn lemma_printed_cons(stmt: StmtView, rest: Seq<StmtView>)
    ensures
        printed(seq![stmt] + rest, 0) == match stmt {
            StmtView::Print(text) => text + printed(rest, 0),
            _ => seq![],
        },
        ending(seq![stmt] + rest, 0) == match stmt {
            StmtView::Print(text) => ending(rest, 0),
            other => Some(other),
        },
{
    assert((seq![stmt] + rest)[0] == stmt);
    lemma_printed_front(stmt, rest, 0);
}

/// How many statements in a row from `start` on print exactly `text`.
pub open spec fn run_length(stmts: Seq<StmtView>, start: int, text: Seq<char>) -> nat
    decreases stmts.len() - start,
{
    if 0 <= start < stmts.len() && stmts[start] == StmtView::Print(text) {
        1 + run_length(stmts, start + 1, text)
    } else {
        0
    }
}

/// The text n times in a row.
pub open spec fn repeated(text: Seq<char>, n: nat) -> Seq<char>
    decreases n,
{
    if n == 0 {
        seq![]
    } else {
        repeated(text, (n - 1) as nat) + text
    }
}

/// The statements from `start` on with each run of equal prints made one.
pub open spec fn merge_runs(stmts: Seq<StmtView>, start: int) -> Seq<StmtView>
    decreases stmts.len() - start,
    when 0 <= start <= stmts.len()
{
    if start >= stmts.len() {
        seq![]
    } else {
        match stmts[start] {
            StmtView::Print(text) => {
                proof {
                    lemma_run_length(stmts, start, text);
                }
                let n = run_length(stmts, start, text);
                seq![StmtView::Print(repeated(text, n))] + merge_runs(stmts, start + n)
            },
            other => seq![other] + merge_runs(stmts, start + 1),
        }
    }
}

/// A run lies within the list, and its length is settled by where it stops.
pub proof fn lemma_run_length(stmts: Seq<StmtView>, start: int, text: Seq<char>)
    requires
        0 <= start <= stmts.len(),
    ensures
        start + run_length(stmts, start, text) <= stmts.len(),
    decreases stmts.len() - start,
{
    if start < stmts.len() && stmts[start] == StmtView::Print(text) {
        lemma_run_length(stmts, start + 1, text);
    }
}

/// A run of n equal prints that nothing extends has length n.
proof fn lemma_run_length_exact(stmts: Seq<StmtView>, start: int, text: Seq<char>, n: nat)
    requires
        0 <= start,
        start + n <= stmts.len(),
        forall|j: int| start <= j < start + n ==> stmts[j] == StmtView::Print(text),
        start + n < stmts.len() ==> stmts[start + n] != StmtView::Print(text),
    ensures
        run_length(stmts, start, text) == n,
    decreases n,
{
    if n > 0 {
        assert(stmts[start] == StmtView::Print(text));
        lemma_run_length_exact(stmts, start + 1, text, (n - 1) as nat);
    }
}

/// A run prints its text that many times.
proof fn lemma_run_prints(stmts: Seq<StmtView>, start: int, text: Seq<char>)
    requires
        0 <= start <= stmts.len(),
    ensures
        printed(stmts, start) == repeated(text, run_length(stmts, start, text)) + printed(
            stmts,
            start + run_length(stmts, start, text),
        ),
        ending(stmts, start) == ending(stmts, start + run_length(stmts, start, text)),
    decreases stmts.len() - start,
{
    let n = run_length(stmts, start, text);
    if start < stmts.len() && stmts[start] == StmtView::Print(text) {
        lemma_run_prints(stmts, start + 1, text);
        let rest = printed(stmts, start + n);
        let k = (n - 1) as nat;
        lemma_repeated_front(text, k);
        assert(printed(stmts, start) =~= text + (repeated(text, k) + rest));
        assert(text + (repeated(text, k) + rest) =~= (text + repeated(text, k)) + rest);
    } else {
        assert(printed(stmts, start) =~= seq![] + printed(stmts, start));
    }
}

/// Repeating can be counted from either end.
proof fn lemma_repeated_front(text: Seq<char>, n: nat)
    ensures
        repeated(text, n + 1) == text + repeated(text, n),
    decreases n,
{
    if n > 0 {
        lemma_repeated_front(text, (n - 1) as nat);
        let less = repeated(text, (n - 1) as nat);
        assert((text + less) + text =~= text + (less + text));
    } else {
        assert(repeated(text, 1) == repeated(text, 0) + text);
        assert(repeated(text, 0) + text =~= text + repeated(text, 0));
    }
}

/// Merging runs changes neither the printed text nor what follows it.
pub proof fn law_merging_runs_keeps_output(stmts: Seq<StmtView>, start: int)
    requires
        0 <= start <= stmts.len(),
    ensures
        printed(merge_runs(stmts, start), 0) == printed(stmts, start),
        ending(merge_runs(stmts, start), 0) == ending(stmts, start),
    decreases stmts.len() - start,
{
    if start < stmts.len() {
        match stmts[start] {
            StmtView::Print(text) => {
                let n = run_length(stmts, start, text);
                lemma_run_length(stmts, start, text);
                lemma_run_prints(stmts, start, text);
                law_merging_runs_keeps_output(stmts, start + n);
                lemma_printed_cons(
                    StmtView::Print(repeated(text, n)),
                    merge_runs(stmts, start + n),
                );
            },
            other => {
                lemma_printed_cons(other, merge_runs(stmts, start + 1));
            },
        }
    }
}

/// The text printed `times` times in a row, as one string.
fn repeat_text(text: &String, times: usize) -> (repetition: String)
    ensures
        repetition@ == repeated(text@, times as nat),
{
    let mut repetition = String::new();
    for i in 0..times
        invariant
            repetition@ == repeated(text@, i as nat),
    {
        repetition.append(text.as_str());
    }
    repetition
}

/// Merges each run of statements that print the same text into one statement.
pub fn hoist_loop_invariants(stmts: Vec<LoweredStmt>) -> (merged: Vec<LoweredStmt>)
    ensures
        stmts_view(merged@) == merge_runs(stmts_view(stmts@), 0),
{
    let ghost input = stmts_view(stmts@);
    let mut out: Vec<LoweredStmt> = Vec::new();
    let mut i: usize = 0;
    while i < stmts.len()
        invariant
            i <= stmts@.len(),
            input == stmts_view(stmts@),
            stmts_view(out@) + merge_runs(input, i as int) == merge_runs(input, 0),
        decreases stmts@.len() - i,
    {
        assert(input[i as int] == stmts@[i as int]@);
        let ghost before = stmts_view(out@);
        match &stmts[i] {
            LoweredStmt::Print(text) => {
                let mut repeats: usize = 1;
                while i + repeats < stmts.len()
                    invariant_except_break
                        1 <= repeats,
                        i + repeats <= stmts@.len(),
                        forall|j: int|
                            i <= j < i + repeats ==> #[trigger] input[j] == StmtView::Print(text@),
                    invariant
                        input == stmts_view(stmts@),
                    ensures
                        1 <= repeats,
                        i + repeats <= stmts@.len(),
                        forall|j: int|
                            i <= j < i + repeats ==> #[trigger] input[j] == StmtView::Print(text@),
                        i + repeats < stmts@.len() ==> input[i + repeats] != StmtView::Print(text@),
                    decreases stmts@.len() - repeats,
                {
                    assert(input[i + repeats] == stmts@[i + repeats]@);
                    let same = match &stmts[i + repeats] {
                        LoweredStmt::Print(next) => *next == *text,
                        _ => false,
                    };
                    if !same {
                        break;
                    }
                    repeats = repeats + 1;
                }
                proof {
                    lemma_run_length_exact(input, i as int, text@, repeats as nat);
                }
                if repeats > 1 {
                    out.push(LoweredStmt::Print(repeat_text(text, repeats)));
                } else {
                    out.push(stmts[i].clone());
                    proof {
                        reveal_with_fuel(repeated, 2);
                        assert(repeated(text@, 1) =~= text@);
                    }
                }
                proof {
                    let whole = StmtView::Print(repeated(text@, repeats as nat));
                    assert(stmts_view(out@) =~= before + seq![whole]);
                    assert(stmts_view(out@) + merge_runs(input, i + repeats) =~= before + (
                    seq![whole] + merge_runs(input, i + repeats)));
                }
                i = i + repeats;
            },
            other => {
                out.push(other.clone());
                proof {
                    assert(stmts_view(out@) =~= before + seq![input[i as int]]);
                    assert(stmts_view(out@) + merge_runs(input, i + 1) =~= before + (
                    seq![input[i as int]] + merge_runs(input, i + 1)));
                }
                i = i + 1;
            },
        }
    }
    assert(stmts_view(out@) + merge_runs(input, i as int) =~= stmts_view(out@));
    out
}

/// A list of statements extended by one: empty text is dropped, and text that
/// follows text joins it.
pub open spec fn joined(out: Seq<StmtView>, stmt: StmtView) -> Seq<StmtView> {
    match stmt {
        StmtView::Print(text) => if text.len() == 0 {
            out
        } else {
            match out.last() {
                StmtView::Print(before) if out.len() > 0 => out.drop_last().push(
                    StmtView::Print(before + text),
                ),
                _ => out.push(stmt),
            }
        },
        _ => out.push(stmt),
    }
}

/// The first n statements with adjacent prints joined and empty ones dropped.
pub open spec fn join_prints(stmts: Seq<StmtView>, n: nat) -> Seq<StmtView>
    decreases n,
{
    if n == 0 {
        seq![]
    } else {
        joined(join_prints(stmts, (n - 1) as nat), stmts[n - 1])
    }
}

/// What `out`, then `stmt`, then the rest print and end with.
pub open spec fn same_output(a: Seq<StmtView>, b: Seq<StmtView>) -> bool {
    &&& printed(a, 0) == printed(b, 0)
    &&& ending(a, 0) == ending(b, 0)
}

/// The output of a list followed by another.
proof fn lemma_output_append(front: Seq<StmtView>, rest: Seq<StmtView>, start: int)
    requires
        0 <= start <= front.len(),
    ensures
        ending(front, start) is None ==> printed(front + rest, start) == printed(front, start)
            + printed(rest, 0),
        ending(front, start) is None ==> ending(front + rest, start) == ending(rest, 0),
        ending(front, start) is Some ==> printed(front + rest, start) == printed(front, start),
        ending(front, start) is Some ==> ending(front + rest, start) == ending(front, start),
    decreases front.len() - start,
{
    let all = front + rest;
    if start < front.len() {
        assert(all[start] == front[start]);
        lemma_output_append(front, rest, start + 1);
        if let StmtView::Print(text) = front[start] {
            if ending(front, start) is None {
                assert(text + (printed(front, start + 1) + printed(rest, 0)) =~= (text + printed(
                    front,
                    start + 1,
                )) + printed(rest, 0));
            }
        }
    } else {
        lemma_output_shift(front, rest, 0);
        assert(seq![] + printed(rest, 0) =~= printed(rest, 0));
    }
}

/// The output of the second part of a list.
proof fn lemma_output_shift(front: Seq<StmtView>, rest: Seq<StmtView>, k: int)
    requires
        0 <= k <= rest.len(),
    ensures
        printed(front + rest, front.len() + k) == printed(rest, k),
        ending(front + rest, front.len() + k) == ending(rest, k),
    decreases rest.len() - k,
{
    if k < rest.len() {
        assert((front + rest)[front.len() + k] == rest[k]);
        lemma_output_shift(front, rest, k + 1);
    }
}

/// The output of a single statement.
proof fn lemma_output_one(stmt: StmtView)
    ensures
        printed(seq![stmt], 0) == match stmt {
            StmtView::Print(text) => text,
            _ => seq![],
        },
        ending(seq![stmt], 0) == match stmt {
            StmtView::Print(text) => None,
            other => Some(other),
        },
{
    reveal_with_fuel(printed, 2);
    reveal_with_fuel(ending, 2);
    if let StmtView::Print(text) = stmt {
        assert(text + Seq::<char>::empty() =~= text);
    }
}

/// Joining a statement to a list prints what appending it prints.
proof fn lemma_joined_output(out: Seq<StmtView>, stmt: StmtView)
    ensures
        same_output(joined(out, stmt), out + seq![stmt]),
{
    lemma_output_append(out, seq![stmt], 0);
    lemma_output_one(stmt);
    if let StmtView::Print(text) = stmt {
        if text.len() == 0 {
            assert(printed(out, 0) + text =~= printed(out, 0));
        } else if out.len() > 0 && out.last() is Print {
            let before = out.last()->Print_0;
            let front = out.drop_last();
            assert(out =~= front + seq![StmtView::Print(before)]);
            lemma_output_append(front, seq![StmtView::Print(before)], 0);
            lemma_output_one(StmtView::Print(before));
            let merged = StmtView::Print(before + text);
            lemma_output_append(front, seq![merged], 0);
            lemma_output_one(merged);
            assert(front.push(merged) =~= front + seq![merged]);
            assert((printed(front, 0) + before) + text =~= printed(front, 0) + (before + text));
        } else {
            assert(out.push(stmt) =~= out + seq![stmt]);
        }
    } else {
        assert(out.push(stmt) =~= out + seq![stmt]);
    }
}

/// Lists with the same output keep it when the same statement follows.
proof fn lemma_same_output_push(a: Seq<StmtView>, b: Seq<StmtView>, stmt: StmtView)
    requires
        same_output(a, b),
    ensures
        same_output(a + seq![stmt], b + seq![stmt]),
{
    lemma_output_append(a, seq![stmt], 0);
    lemma_output_append(b, seq![stmt], 0);
}

/// Joining prints changes neither the printed text nor what follows it.
pub proof fn law_joining_prints_keeps_output(stmts: Seq<StmtView>, n: nat)
    requires
        n <= stmts.len(),
    ensures
        same_output(join_prints(stmts, n), stmts.take(n as int)),
    decreases n,
{
    if n > 0 {
        let k = (n - 1) as nat;
        law_joining_prints_keeps_output(stmts, k);
        lemma_joined_output(join_prints(stmts, k), stmts[n - 1]);
        lemma_same_output_push(join_prints(stmts, k), stmts.take(k as int), stmts[n - 1]);
        assert(stmts.take(n as int) =~= stmts.take(k as int) + seq![stmts[n - 1]]);
    } else {
        assert(stmts.take(0) =~= seq![]);
    }
}

/// Joins adjacent prints and drops empty ones.
pub fn const_fold(stmts: Vec<LoweredStmt>) -> (folded: Vec<LoweredStmt>)
    ensures
        stmts_view(folded@) == join_prints(stmts_view(stmts@), stmts@.len()),
{
    let ghost input = stmts_view(stmts@);
    let mut out: Vec<LoweredStmt> = Vec::new();
    for i in 0..stmts.len()
        invariant
            input == stmts_view(stmts@),
            stmts_view(out@) == join_prints(input, i as nat),
    {
        assert(input[i as int] == stmts@[i as int]@);
        let ghost before = stmts_view(out@);
        match &stmts[i] {
            LoweredStmt::Print(text) => {
                if !text.as_str().is_empty() {
                    let last = out.pop();
                    match last {
                        Some(LoweredStmt::Print(mut previous)) => {
                            assert(before.last() == StmtView::Print(previous@));
                            let ghost previous_text = previous@;
                            previous.append(text.as_str());
                            out.push(LoweredStmt::Print(previous));
                            assert(stmts_view(out@) =~= before.drop_last().push(
                                StmtView::Print(previous_text + text@),
                            ));
                        },
                        Some(other) => {
                            assert(before.last() == other@);
                            out.push(other);
                            out.push(LoweredStmt::Print(text.clone()));
                            assert(stmts_view(out@) =~= before.push(input[i as int]));
                        },
                        None => {
                            out.push(LoweredStmt::Print(text.clone()));
                            assert(stmts_view(out@) =~= before.push(input[i as int]));
                        },
                    }
                }
            },
            other => {
                out.push(other.clone());
                assert(stmts_view(out@) =~= before.push(input[i as int]));
            },
        }
    }
    out
}

/// The statements from `start` on without empty prints, up to and with the
/// first that does not print.
pub open spec fn prune_prints(stmts: Seq<StmtView>, start: int) -> Seq<StmtView>
    decreases stmts.len() - start,
{
    if 0 <= start < stmts.len() {
        match stmts[start] {
            StmtView::Print(text) => if text.len() == 0 {
                prune_prints(stmts, start + 1)
            } else {
                seq![stmts[start]] + prune_prints(stmts, start + 1)
            },
            other => seq![other],
        }
    } else {
        seq![]
    }
}

/// Pruning changes neither the printed text nor what follows it.
pub proof fn law_pruning_keeps_output(stmts: Seq<StmtView>, start: int)
    requires
        0 <= start <= stmts.len(),
    ensures
        printed(prune_prints(stmts, start), 0) == printed(stmts, start),
        ending(prune_prints(stmts, start), 0) == ending(stmts, start),
    decreases stmts.len() - start,
{
    if start < stmts.len() {
        match stmts[start] {
            StmtView::Print(text) => {
                law_pruning_keeps_output(stmts, start + 1);
                if text.len() == 0 {
                    assert(text + printed(stmts, start + 1) =~= printed(stmts, start + 1));
                } else {
                    lemma_printed_cons(stmts[start], prune_prints(stmts, start + 1));
                }
            },
            other => {
                lemma_output_one(other);
            },
        }
    }
}

/// Drops empty prints and everything after the first statement that does not
/// print, since that statement ends the program.
pub fn dead_print_elimination(stmts: Vec<LoweredStmt>) -> (pruned: Vec<LoweredStmt>)
    ensures
        stmts_view(pruned@) == prune_prints(stmts_view(stmts@), 0),
{
    let ghost input = stmts_view(stmts@);
    let mut out: Vec<LoweredStmt> = Vec::new();
    let mut i: usize = 0;
    while i < stmts.len()
        invariant
            i <= stmts@.len(),
            input == stmts_view(stmts@),
            stmts_view(out@) + prune_prints(input, i as int) == prune_prints(input, 0),
        decreases stmts@.len() - i,
    {
        assert(input[i as int] == stmts@[i as int]@);
        let ghost before = stmts_view(out@);
        match &stmts[i] {
            LoweredStmt::Print(text) => {
                if !text.as_str().is_empty() {
                    out.push(stmts[i].clone());
                    proof {
                        assert(stmts_view(out@) =~= before + seq![input[i as int]]);
                        assert(stmts_view(out@) + prune_prints(input, i + 1) =~= before + (
                        seq![input[i as int]] + prune_prints(input, i + 1)));
                    }
                }
            },
            other => {
                out.push(other.clone());
                assert(stmts_view(out@) =~= before + seq![input[i as int]]);
                return out;
            },
        }
        i = i + 1;
    }
    assert(stmts_view(out@) + prune_prints(input, i as int) =~= stmts_view(out@));
    out
}

} // verus!
