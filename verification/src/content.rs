//! Laws of the conversion: what the output holds of the input.

use vstd::multiset::Multiset;
use vstd::prelude::*;
use crate::rpn::{flush, gives_way, read, rpn, shift, unwind_for, unwind_to_parenthesis, Yard};
use crate::token::{KindView, OperatorKind, TokenView};

verus! {

/// The tokens of `tokens` that are no parentheses, in their order.
pub open spec fn without_parentheses(tokens: Seq<TokenView>) -> Seq<TokenView> {
    tokens.filter(|token: TokenView| !token.kind.is_parenthesis())
}

/// The tokens of a stack that can leave it for the output: all but the
/// opening parentheses.
spec fn movable(stack: Seq<TokenView>) -> Seq<TokenView> {
    stack.filter(|token: TokenView| !(token.kind is LeftParenthesis))
}

/// What a yard holds that is, or will be, output.
spec fn cargo(yard: Yard) -> Multiset<TokenView> {
    yard.output.to_multiset().add(movable(yard.stack).to_multiset())
}

/// An empty sequence holds nothing.
proof fn nothing_in_nothing()
    ensures
        Seq::<TokenView>::empty().to_multiset() == Multiset::<TokenView>::empty(),
{
    let none = Seq::<TokenView>::empty();
    vstd::seq_lib::to_multiset_len(none);
    vstd::multiset::lemma_multiset_empty_len(none.to_multiset());
    assert(none.to_multiset() =~= Multiset::<TokenView>::empty());
}

/// A token that goes to the output joins the cargo.
proof fn cargo_output_push(yard: Yard, token: TokenView)
    ensures
        cargo(Yard { output: yard.output.push(token), stack: yard.stack }) == cargo(yard).insert(
            token,
        ),
{
    vstd::seq_lib::to_multiset_build(yard.output, token);
    assert(cargo(Yard { output: yard.output.push(token), stack: yard.stack }) =~= cargo(
        yard,
    ).insert(token));
}

/// A token that goes onto the stack joins the cargo, unless it is an
/// opening parenthesis.
proof fn cargo_stack_push(yard: Yard, token: TokenView)
    ensures
        cargo(Yard { output: yard.output, stack: yard.stack.push(token) }) == if token.kind
            is LeftParenthesis {
            cargo(yard)
        } else {
            cargo(yard).insert(token)
        },
{
    let keep = |token: TokenView| !(token.kind is LeftParenthesis);
    Seq::lemma_filter_push(yard.stack, token, keep);
    vstd::seq_lib::to_multiset_build(movable(yard.stack), token);
    assert(cargo(Yard { output: yard.output, stack: yard.stack.push(token) }) =~= if token.kind
        is LeftParenthesis {
        cargo(yard)
    } else {
        cargo(yard).insert(token)
    });
}

/// The top of the stack is part of the cargo, unless it is an opening
/// parenthesis.
proof fn cargo_stack_drop(yard: Yard)
    requires
        yard.stack.len() > 0,
    ensures
        cargo(yard) == if yard.stack.last().kind is LeftParenthesis {
            cargo(Yard { output: yard.output, stack: yard.stack.drop_last() })
        } else {
            cargo(Yard { output: yard.output, stack: yard.stack.drop_last() }).insert(
                yard.stack.last(),
            )
        },
{
    assert(yard.stack.drop_last().push(yard.stack.last()) == yard.stack);
    cargo_stack_push(
        Yard { output: yard.output, stack: yard.stack.drop_last() },
        yard.stack.last(),
    );
}

/// Moving a token from the stack to the output changes nothing of the
/// cargo, unless the token is an opening parenthesis.
proof fn cargo_popped(yard: Yard)
    requires
        yard.stack.len() > 0,
        !(yard.stack.last().kind is LeftParenthesis),
    ensures
        cargo(yard.popped()) == cargo(yard),
{
    cargo_stack_drop(yard);
    cargo_output_push(
        Yard { output: yard.output, stack: yard.stack.drop_last() },
        yard.stack.last(),
    );
}

/// Making way for an operator changes nothing of the cargo.
proof fn unwind_for_keeps_cargo(yard: Yard, operator: OperatorKind)
    ensures
        cargo(unwind_for(yard, operator)) == cargo(yard),
    decreases yard.stack.len(),
{
    if yard.stack.len() > 0 && gives_way(yard.stack.last().kind, operator) {
        cargo_popped(yard);
        unwind_for_keeps_cargo(yard.popped(), operator);
    }
}

/// Unwinding to a parenthesis changes nothing of the cargo.
proof fn unwind_to_parenthesis_keeps_cargo(yard: Yard)
    ensures
        cargo(unwind_to_parenthesis(yard)) == cargo(yard),
    decreases yard.stack.len(),
{
    if yard.stack.len() > 0 && !(yard.stack.last().kind is LeftParenthesis) {
        cargo_popped(yard);
        unwind_to_parenthesis_keeps_cargo(yard.popped());
    }
}

/// Unwinding stops at an opening parenthesis, if it stops before the stack
/// is empty.
proof fn unwind_stops_at_parenthesis(yard: Yard)
    ensures
        unwind_to_parenthesis(yard).stack.len() > 0 ==> unwind_to_parenthesis(
            yard,
        ).stack.last().kind is LeftParenthesis,
    decreases yard.stack.len(),
{
    if yard.stack.len() > 0 && !(yard.stack.last().kind is LeftParenthesis) {
        unwind_stops_at_parenthesis(yard.popped());
    }
}

/// Reading a token adds it to the cargo, unless it is a parenthesis.
proof fn shift_loads_token(yard: Yard, token: TokenView)
    ensures
        shift(yard, token) matches Some(next) ==> cargo(next) == if token.kind.is_parenthesis() {
            cargo(yard)
        } else {
            cargo(yard).insert(token)
        },
{
    match token.kind {
        KindView::Number(_) | KindView::Identifier(_) => {
            cargo_output_push(yard, token);
        },
        KindView::Function(_) | KindView::LeftParenthesis => {
            cargo_stack_push(yard, token);
        },
        KindView::Operator(operator) => {
            unwind_for_keeps_cargo(yard, operator);
            cargo_stack_push(unwind_for(yard, operator), token);
        },
        KindView::RightParenthesis => {
            unwind_to_parenthesis_keeps_cargo(yard);
            unwind_stops_at_parenthesis(yard);
            let unwound = unwind_to_parenthesis(yard);
            if unwound.stack.len() > 0 {
                cargo_stack_drop(unwound);
                let opened = Yard { output: unwound.output, stack: unwound.stack.drop_last() };
                if opened.stack.len() > 0 && opened.stack.last().kind is Function {
                    cargo_popped(opened);
                }
            }
        },
    }
}

/// The cargo after reading is what was read, less the parentheses.
proof fn read_loads_tokens(tokens: Seq<TokenView>)
    ensures
        read(tokens) matches Ok(yard) ==> cargo(yard) == without_parentheses(
            tokens,
        ).to_multiset(),
    decreases tokens.len(),
{
    let keep = |token: TokenView| !token.kind.is_parenthesis();
    if tokens.len() == 0 {
        reveal(Seq::filter);
        assert(movable(Yard::empty().stack) =~= Seq::<TokenView>::empty());
        assert(without_parentheses(tokens) =~= Seq::<TokenView>::empty());
        nothing_in_nothing();
        assert(cargo(Yard::empty()) =~= without_parentheses(tokens).to_multiset());
    } else {
        let before = tokens.drop_last();
        read_loads_tokens(before);
        if let Ok(yard) = read(before) {
            shift_loads_token(yard, tokens.last());
            assert(before.push(tokens.last()) == tokens);
            Seq::lemma_filter_push(before, tokens.last(), keep);
            vstd::seq_lib::to_multiset_build(without_parentheses(before), tokens.last());
        }
    }
}

/// Emptying the stack turns the cargo into the output.
proof fn flush_unloads(yard: Yard)
    ensures
        flush(yard) matches Ok(output) ==> output.to_multiset() == cargo(yard),
    decreases yard.stack.len(),
{
    if yard.stack.len() == 0 {
        reveal(Seq::filter);
        assert(movable(yard.stack) =~= Seq::<TokenView>::empty());
        nothing_in_nothing();
        assert(yard.output.to_multiset() =~= cargo(yard));
    } else if !(yard.stack.last().kind is LeftParenthesis) {
        cargo_popped(yard);
        flush_unloads(yard.popped());
    }
}

/// A conversion keeps every token but the parentheses: each token of the
/// input that is no parenthesis occurs in the output as often as in the
/// input, and nothing else occurs there.
pub proof fn keeps_all_but_parentheses(tokens: Seq<TokenView>)
    requires
        rpn(tokens) is Ok,
    ensures
        rpn(tokens)->Ok_0.to_multiset() == without_parentheses(tokens).to_multiset(),
{
    read_loads_tokens(tokens);
    flush_unloads(read(tokens)->Ok_0);
}

/// The numbers and identifiers of `tokens`, in their order.
pub open spec fn operands(tokens: Seq<TokenView>) -> Seq<TokenView> {
    tokens.filter(|token: TokenView| token.kind is Number || token.kind is Identifier)
}

/// Whether no number and no identifier is on the stack.
spec fn holds_no_operand(stack: Seq<TokenView>) -> bool {
    forall|i: int|
        0 <= i < stack.len() ==> !((#[trigger] stack[i]).kind is Number || stack[i].kind
            is Identifier)
}

/// A token at the end is the last operand, if it is an operand at all.
proof fn operands_push(tokens: Seq<TokenView>, token: TokenView)
    ensures
        operands(tokens.push(token)) == if token.kind is Number || token.kind is Identifier {
            operands(tokens).push(token)
        } else {
            operands(tokens)
        },
{
    Seq::lemma_filter_push(
        tokens,
        token,
        |token: TokenView| token.kind is Number || token.kind is Identifier,
    );
}

/// A token that leaves a stack without operands adds no operand to the
/// output.
proof fn popped_keeps_operands(yard: Yard)
    requires
        yard.stack.len() > 0,
        holds_no_operand(yard.stack),
    ensures
        operands(yard.popped().output) == operands(yard.output),
        holds_no_operand(yard.popped().stack),
{
    operands_push(yard.output, yard.stack.last());
}

/// Making way for an operator adds no operand to the output.
proof fn unwind_for_keeps_operands(yard: Yard, operator: OperatorKind)
    requires
        holds_no_operand(yard.stack),
    ensures
        operands(unwind_for(yard, operator).output) == operands(yard.output),
        holds_no_operand(unwind_for(yard, operator).stack),
    decreases yard.stack.len(),
{
    if yard.stack.len() > 0 && gives_way(yard.stack.last().kind, operator) {
        popped_keeps_operands(yard);
        unwind_for_keeps_operands(yard.popped(), operator);
    }
}

/// Unwinding to a parenthesis adds no operand to the output.
proof fn unwind_to_parenthesis_keeps_operands(yard: Yard)
    requires
        holds_no_operand(yard.stack),
    ensures
        operands(unwind_to_parenthesis(yard).output) == operands(yard.output),
        holds_no_operand(unwind_to_parenthesis(yard).stack),
    decreases yard.stack.len(),
{
    if yard.stack.len() > 0 && !(yard.stack.last().kind is LeftParenthesis) {
        popped_keeps_operands(yard);
        unwind_to_parenthesis_keeps_operands(yard.popped());
    }
}

/// Reading a token puts it behind the operands of the output if it is an
/// operand, and leaves the operands as they are if it is not.
proof fn shift_keeps_operands(yard: Yard, token: TokenView)
    requires
        holds_no_operand(yard.stack),
    ensures
        shift(yard, token) matches Some(next) ==> holds_no_operand(next.stack) && operands(
            next.output,
        ) == if token.kind is Number || token.kind is Identifier {
            operands(yard.output).push(token)
        } else {
            operands(yard.output)
        },
{
    match token.kind {
        KindView::Number(_) | KindView::Identifier(_) => {
            operands_push(yard.output, token);
        },
        KindView::Function(_) | KindView::LeftParenthesis => {},
        KindView::Operator(operator) => {
            unwind_for_keeps_operands(yard, operator);
        },
        KindView::RightParenthesis => {
            unwind_to_parenthesis_keeps_operands(yard);
            let unwound = unwind_to_parenthesis(yard);
            if unwound.stack.len() > 0 {
                let opened = Yard { output: unwound.output, stack: unwound.stack.drop_last() };
                if opened.stack.len() > 0 && opened.stack.last().kind is Function {
                    popped_keeps_operands(opened);
                }
            }
        },
    }
}

/// The operands of the output after reading are those that were read.
proof fn read_keeps_operands(tokens: Seq<TokenView>)
    ensures
        read(tokens) matches Ok(yard) ==> holds_no_operand(yard.stack) && operands(yard.output)
            == operands(tokens),
    decreases tokens.len(),
{
    if tokens.len() > 0 {
        let before = tokens.drop_last();
        read_keeps_operands(before);
        if let Ok(yard) = read(before) {
            shift_keeps_operands(yard, tokens.last());
            assert(before.push(tokens.last()) == tokens);
            operands_push(before, tokens.last());
        }
    }
}

/// Emptying a stack without operands adds no operand to the output.
proof fn flush_keeps_operands(yard: Yard)
    requires
        holds_no_operand(yard.stack),
    ensures
        flush(yard) matches Ok(output) ==> operands(output) == operands(yard.output),
    decreases yard.stack.len(),
{
    if yard.stack.len() > 0 && !(yard.stack.last().kind is LeftParenthesis) {
        popped_keeps_operands(yard);
        flush_keeps_operands(yard.popped());
    }
}

/// A conversion leaves the numbers and identifiers in the order in which
/// they were written: only operators and functions change their place.
pub proof fn keeps_operands_in_order(tokens: Seq<TokenView>)
    requires
        rpn(tokens) is Ok,
    ensures
        operands(rpn(tokens)->Ok_0) == operands(tokens),
{
    read_keeps_operands(tokens);
    flush_keeps_operands(read(tokens)->Ok_0);
}

} // verus!
