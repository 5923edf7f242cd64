//! What holds of every parsed program: operators bind as their levels say, and
//! the items of a program are read one after another to the end.

use crate::ast::{BinaryOp, ExprView, ItemView, SyntaxView};
use crate::diagnostic::DiagnosticView;
use crate::parser::cursor::{is_ahead, kind_at, span_at};
use crate::parser::exprs::{
    accesses_after, accesses_at, binary_after, binary_at, binary_op, expr_after, expr_at,
    operator_of, operators_after, operators_at, postfix_at, primary_at, unary_at, unary_op,
    BINARY_LEVELS,
};
use crate::parser::items::{item_at, item_list, program_of};
use crate::token::{KindView, TokenView};
use vstd::prelude::*;

verus! {

/// The operator at a position, where there is one, and its level.
pub open spec fn operator_at(toks: Seq<TokenView>, pos: int) -> (BinaryOp, u8) {
    operator_of(kind_at(toks, pos)).unwrap()
}

/// Two expressions and the operator between them.
pub open spec fn joined_by(
    toks: Seq<TokenView>,
    pos: int,
    left: ExprView,
    right: ExprView,
) -> ExprView {
    ExprView::Binary {
        op: operator_at(toks, pos).0,
        left: Box::new(left),
        right: Box::new(right),
        span: span_at(toks, pos),
    }
}

/// An operand is read between two positions: a unary expression, and the tokens
/// do not end before it does.
pub open spec fn is_operand(toks: Seq<TokenView>, pos: int, operand: ExprView, end: int) -> bool {
    &&& is_ahead(toks, pos, end)
    &&& unary_at(toks, pos) == Ok::<(ExprView, int), DiagnosticView>((operand, end))
}

/// The level of the operator at a position.
pub open spec fn level_at(toks: Seq<TokenView>, pos: int) -> nat {
    operator_at(toks, pos).1 as nat
}

/// What is read at a level is what is read at each looser one, down to that of
/// the operator behind it.
pub proof fn lemma_looser_levels(
    toks: Seq<TokenView>,
    pos: int,
    tight: nat,
    loose: nat,
    expr: ExprView,
    end: int,
)
    requires
        loose <= tight <= BINARY_LEVELS,
        is_ahead(toks, pos, end),
        binary_at(toks, pos, tight) == Ok::<(ExprView, int), DiagnosticView>((expr, end)),
        forall|level: nat|
            loose <= level < tight ==> #[trigger] binary_op(level, kind_at(toks, end)) is None,
    ensures
        binary_at(toks, pos, loose) == Ok::<(ExprView, int), DiagnosticView>((expr, end)),
    decreases tight - loose,
{
    if loose < tight {
        let level = (tight - 1) as nat;
        assert(binary_op(level, kind_at(toks, end)) is None);
        assert(operators_after(toks, pos, end, level, expr) == operators_at(
            toks,
            end,
            level,
            expr,
        ));
        assert(binary_at(toks, pos, level) == Ok::<(ExprView, int), DiagnosticView>((expr, end)));
        lemma_looser_levels(toks, pos, level, loose, expr, end);
    }
}

/// An operand and an operator that does not stand at a level or a tighter one.
pub proof fn lemma_operand_at_level(
    toks: Seq<TokenView>,
    pos: int,
    level: nat,
    operand: ExprView,
    end: int,
)
    requires
        level <= BINARY_LEVELS,
        is_operand(toks, pos, operand, end),
        operator_of(kind_at(toks, end)) is Some ==> level_at(toks, end) < level,
    ensures
        binary_at(toks, pos, level) == Ok::<(ExprView, int), DiagnosticView>((operand, end)),
{
    assert(binary_at(toks, pos, BINARY_LEVELS as nat) == unary_at(toks, pos));
    lemma_looser_levels(toks, pos, BINARY_LEVELS as nat, level, operand, end);
}

/// One step along the operators of a level: an operator of the level and what is
/// read behind it at the next level.
pub proof fn lemma_operator_step(
    toks: Seq<TokenView>,
    at: int,
    left: ExprView,
    right: ExprView,
    end: int,
)
    requires
        operator_of(kind_at(toks, at)) is Some,
        is_ahead(toks, at, at + 1),
        is_ahead(toks, at + 1, end),
        binary_at(toks, at + 1, level_at(toks, at) + 1) == Ok::<(ExprView, int), DiagnosticView>(
            (right, end),
        ),
    ensures
        operators_at(toks, at, level_at(toks, at), left) == operators_at(
            toks,
            end,
            level_at(toks, at),
            joined_by(toks, at, left, right),
        ),
{
    let level = level_at(toks, at);
    assert(binary_after(toks, at, at + 1, level + 1) == binary_at(toks, at + 1, level + 1));
    assert(binary_op(level, kind_at(toks, at)) == Some(operator_at(toks, at).0));
    assert(operators_after(toks, at, end, level, joined_by(toks, at, left, right))
        == operators_at(toks, end, level, joined_by(toks, at, left, right)));
}

/// Operators bind as their levels say: of two operators between three operands
/// the second takes the middle one if its level is tighter, and else the first
/// does, so operators of one level group from the left.
pub proof fn law_tighter_operators_bind_first(
    toks: Seq<TokenView>,
    pos: int,
    first: ExprView,
    at: int,
    second: ExprView,
    next_at: int,
    third: ExprView,
    end: int,
)
    requires
        is_operand(toks, pos, first, at),
        operator_of(kind_at(toks, at)) is Some,
        is_operand(toks, at + 1, second, next_at),
        operator_of(kind_at(toks, next_at)) is Some,
        is_operand(toks, next_at + 1, third, end),
        operator_of(kind_at(toks, end)) is None,
    ensures
        expr_at(toks, pos) == Ok::<(ExprView, int), DiagnosticView>(
            (
                if level_at(toks, at) < level_at(toks, next_at) {
                    joined_by(toks, at, first, joined_by(toks, next_at, second, third))
                } else {
                    joined_by(toks, next_at, joined_by(toks, at, first, second), third)
                },
                end,
            ),
        ),
{
    let outer = level_at(toks, at);
    let inner = level_at(toks, next_at);
    lemma_operand_at_level(toks, next_at + 1, inner + 1, third, end);
    lemma_operand_at_level(toks, pos, outer + 1, first, at);
    assert(operators_after(toks, pos, at, outer, first) == operators_at(toks, at, outer, first));
    if outer < inner {
        let tight = joined_by(toks, next_at, second, third);
        let whole = joined_by(toks, at, first, tight);
        lemma_operand_at_level(toks, at + 1, inner + 1, second, next_at);
        lemma_operator_step(toks, next_at, second, third, end);
        assert(operators_after(toks, at + 1, next_at, inner, second) == operators_at(
            toks,
            next_at,
            inner,
            second,
        ));
        assert(operators_at(toks, end, inner, tight) == Ok::<(ExprView, int), DiagnosticView>(
            (tight, end),
        ));
        lemma_looser_levels(toks, at + 1, inner, outer + 1, tight, end);
        lemma_operator_step(toks, at, first, tight, end);
        assert(operators_at(toks, end, outer, whole) == Ok::<(ExprView, int), DiagnosticView>(
            (whole, end),
        ));
        lemma_looser_levels(toks, pos, outer, 0, whole, end);
    } else {
        let left = joined_by(toks, at, first, second);
        let whole = joined_by(toks, next_at, left, third);
        lemma_operand_at_level(toks, at + 1, outer + 1, second, next_at);
        lemma_operator_step(toks, at, first, second, next_at);
        if inner < outer {
            assert(operators_at(toks, next_at, outer, left) == Ok::<
                (ExprView, int),
                DiagnosticView,
            >((left, next_at)));
            lemma_looser_levels(toks, pos, outer, inner + 1, left, next_at);
            assert(operators_after(toks, pos, next_at, inner, left) == operators_at(
                toks,
                next_at,
                inner,
                left,
            ));
        }
        lemma_operator_step(toks, next_at, left, third, end);
        assert(operators_at(toks, end, inner, whole) == Ok::<(ExprView, int), DiagnosticView>(
            (whole, end),
        ));
        lemma_looser_levels(toks, pos, inner, 0, whole, end);
    }
}

/// Brackets group: what stands between them is one operand, whatever operators
/// it holds, unless an access follows.
pub proof fn law_brackets_group(toks: Seq<TokenView>, pos: int, inner: ExprView, close: int)
    requires
        kind_at(toks, pos) == KindView::LParen,
        is_ahead(toks, pos, pos + 1),
        is_ahead(toks, pos + 1, close),
        expr_at(toks, pos + 1) == Ok::<(ExprView, int), DiagnosticView>((inner, close)),
        close < toks.len(),
        kind_at(toks, close) == KindView::RParen,
        kind_at(toks, close + 1) != KindView::Dot,
        kind_at(toks, close + 1) != KindView::LBracket,
    ensures
        is_operand(toks, pos, inner, close + 1),
{
    assert(expr_after(toks, pos, pos + 1) == expr_at(toks, pos + 1));
    assert(primary_at(toks, pos) == Ok::<(ExprView, int), DiagnosticView>((inner, close + 1)));
    assert(accesses_after(toks, pos, close + 1, inner) == accesses_at(toks, close + 1, inner));
    assert(postfix_at(toks, pos) == Ok::<(ExprView, int), DiagnosticView>((inner, close + 1)));
    assert(unary_op(toks, pos) is None);
}

/// The items are read one after another from a position on, each from where the
/// one before it ends, and behind the last the tokens end.
pub open spec fn reads_items(
    toks: Seq<TokenView>,
    pos: int,
    items: Seq<ItemView>,
    starts: Seq<int>,
) -> bool {
    &&& starts.len() == items.len() + 1
    &&& starts[0] == pos
    &&& forall|i: int|
        0 <= i < items.len() ==> {
            &&& kind_at(toks, #[trigger] starts[i]) != KindView::Eof
            &&& is_ahead(toks, starts[i], starts[i + 1])
            &&& item_at(toks, starts[i]) == Ok::<(ItemView, int), DiagnosticView>(
                (items[i], starts[i + 1]),
            )
        }
    &&& kind_at(toks, starts.last()) == KindView::Eof
}

/// Items are read from a position on if the first is, and the others behind it.
proof fn lemma_one_more_is_read(
    toks: Seq<TokenView>,
    pos: int,
    item: ItemView,
    rest: Seq<ItemView>,
    tail: Seq<int>,
)
    requires
        tail.len() > 0,
        reads_items(toks, tail[0], rest, tail),
        kind_at(toks, pos) != KindView::Eof,
        is_ahead(toks, pos, tail[0]),
        item_at(toks, pos) == Ok::<(ItemView, int), DiagnosticView>((item, tail[0])),
    ensures
        reads_items(toks, pos, seq![item] + rest, seq![pos] + tail),
{
    let items = seq![item] + rest;
    let starts = seq![pos] + tail;
    assert forall|i: int| 0 <= i < items.len() implies {
        &&& kind_at(toks, #[trigger] starts[i]) != KindView::Eof
        &&& is_ahead(toks, starts[i], starts[i + 1])
        &&& item_at(toks, starts[i]) == Ok::<(ItemView, int), DiagnosticView>(
            (items[i], starts[i + 1]),
        )
    } by {
        if i > 0 {
            assert(starts[i] == tail[i - 1]);
            assert(starts[i + 1] == tail[i]);
            assert(items[i] == rest[i - 1]);
        }
    }
    assert(starts.last() == tail.last());
}

/// The items before a list and those behind them, with one moved over.
proof fn lemma_moved_item(before: Seq<ItemView>, items: Seq<ItemView>, item: ItemView)
    requires
        (before + items).len() > before.len(),
        (before + items).subrange(0, before.len() as int + 1) == before.push(item),
    ensures
        items == seq![item] + items.skip(1),
        before.push(item) + items.skip(1) == before + items,
{
    let all = before + items;
    assert(all.subrange(0, before.len() as int + 1)[before.len() as int] == item);
    assert(items[0] == item);
    assert(items =~= seq![item] + items.skip(1));
    assert(before.push(item) + items.skip(1) =~= all);
}

/// What the list of items gives is read item by item.
proof fn lemma_list_is_read(
    toks: Seq<TokenView>,
    pos: int,
    before: Seq<ItemView>,
    items: Seq<ItemView>,
    end: int,
) -> (starts: Seq<int>)
    requires
        item_list(toks, pos, before) == Ok::<(Seq<ItemView>, int), DiagnosticView>(
            (before + items, end),
        ),
    ensures
        reads_items(toks, pos, items, starts),
    decreases toks.len() - pos,
{
    if kind_at(toks, pos) == KindView::Eof {
        assert((before + items).len() == before.len());
        seq![pos]
    } else {
        let (item, next) = item_at(toks, pos)->Ok_0;
        lemma_list_extends(toks, next, before.push(item));
        lemma_moved_item(before, items, item);
        let tail = lemma_list_is_read(toks, next, before.push(item), items.skip(1), end);
        lemma_one_more_is_read(toks, pos, item, items.skip(1), tail);
        seq![pos] + tail
    }
}

/// The list of items starts with the items before it.
proof fn lemma_list_extends(toks: Seq<TokenView>, pos: int, before: Seq<ItemView>)
    ensures
        item_list(toks, pos, before) matches Ok((items, _)) ==> {
            &&& items.len() >= before.len()
            &&& items.subrange(0, before.len() as int) == before
        },
    decreases toks.len() - pos,
{
    if kind_at(toks, pos) != KindView::Eof {
        match item_at(toks, pos) {
            Ok((item, next)) => {
                if is_ahead(toks, pos, next) {
                    lemma_list_extends(toks, next, before.push(item));
                    if let Ok((items, _)) = item_list(toks, pos, before) {
                        assert(items.subrange(0, before.len() as int) =~= items.subrange(
                            0,
                            before.len() as int + 1,
                        ).drop_last());
                        assert(before.push(item).drop_last() =~= before);
                    }
                }
            },
            Err(_) => {},
        }
    } else {
        assert(before.subrange(0, before.len() as int) =~= before);
    }
}

/// Items that are read one after another make up the list.
proof fn lemma_read_is_listed(
    toks: Seq<TokenView>,
    pos: int,
    before: Seq<ItemView>,
    items: Seq<ItemView>,
    starts: Seq<int>,
)
    requires
        reads_items(toks, pos, items, starts),
    ensures
        item_list(toks, pos, before) == Ok::<(Seq<ItemView>, int), DiagnosticView>(
            (before + items, starts.last()),
        ),
    decreases items.len(),
{
    if items.len() == 0 {
        assert(before + items =~= before);
    } else {
        assert(starts[0] == pos);
        let rest = items.skip(1);
        let tail = starts.skip(1);
        assert forall|i: int| 0 <= i < rest.len() implies {
            &&& kind_at(toks, #[trigger] tail[i]) != KindView::Eof
            &&& is_ahead(toks, tail[i], tail[i + 1])
            &&& item_at(toks, tail[i]) == Ok::<(ItemView, int), DiagnosticView>(
                (rest[i], tail[i + 1]),
            )
        } by {
            assert(tail[i] == starts[i + 1]);
            assert(tail[i + 1] == starts[i + 2]);
            assert(rest[i] == items[i + 1]);
        }
        lemma_read_is_listed(toks, starts[1], before.push(items[0]), rest, tail);
        assert(before.push(items[0]) + rest =~= before + items);
        assert(tail.last() == starts.last());
    }
}

/// A program is its items: tokens stand for items exactly if these can be read
/// one after another from the first token on, and nothing is left behind them
/// but the mark of the end.
pub proof fn law_program_is_its_items(toks: Seq<TokenView>, items: Seq<ItemView>)
    ensures
        program_of(toks) == Ok::<SyntaxView, DiagnosticView>(SyntaxView { items })
            <==> exists|starts: Seq<int>| #[trigger] reads_items(toks, 0, items, starts),
{
    assert(Seq::<ItemView>::empty() + items =~= items);
    if program_of(toks) == Ok::<SyntaxView, DiagnosticView>(SyntaxView { items }) {
        let (_, end) = item_list(toks, 0, Seq::empty())->Ok_0;
        let starts = lemma_list_is_read(toks, 0, Seq::empty(), items, end);
        assert(reads_items(toks, 0, items, starts));
    }
    if exists|starts: Seq<int>| #[trigger] reads_items(toks, 0, items, starts) {
        let starts = choose|starts: Seq<int>| #[trigger] reads_items(toks, 0, items, starts);
        lemma_read_is_listed(toks, 0, Seq::empty(), items, starts);
    }
}

} // verus!
