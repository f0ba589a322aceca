//! Laws of the conversion: when it succeeds, and on which token it fails.

use vstd::prelude::*;
use crate::rpn::{
    close_group, flush, gives_way, read, rpn, shift, unwind_for, unwind_to_parenthesis, Yard,
};
use crate::token::{KindView, OperatorKind, TokenView};

verus! {

/// What a token adds to the nesting depth: an opening parenthesis one, a
/// closing parenthesis minus one, any other token nothing.
pub open spec fn step(token: TokenView) -> int {
    match token.kind {
        KindView::LeftParenthesis => 1,
        KindView::RightParenthesis => -1,
        _ => 0,
    }
}

/// The number of opening parentheses in `tokens` less the number of closing
/// ones.
pub open spec fn depth(tokens: Seq<TokenView>) -> int
    decreases tokens.len(),
{
    if tokens.len() == 0 {
        0
    } else {
        depth(tokens.drop_last()) + step(tokens.last())
    }
}

/// Whether no prefix of `tokens` closes more parentheses than it opens.
pub open spec fn never_negative(tokens: Seq<TokenView>) -> bool {
    forall|n: int| 0 <= n <= tokens.len() ==> depth(#[trigger] tokens.take(n)) >= 0
}

/// Whether the parentheses of `tokens` pair up.
pub open spec fn balanced(tokens: Seq<TokenView>) -> bool {
    never_negative(tokens) && depth(tokens) == 0
}

/// The opening parentheses on a stack.
spec fn open_groups(stack: Seq<TokenView>) -> int
    decreases stack.len(),
{
    if stack.len() == 0 {
        0
    } else {
        open_groups(stack.drop_last()) + if stack.last().kind is LeftParenthesis {
            1int
        } else {
            0int
        }
    }
}

/// A token on top of a stack adds itself to the count if it opens a group.
proof fn open_groups_push(stack: Seq<TokenView>, token: TokenView)
    ensures
        open_groups(stack.push(token)) == open_groups(stack) + if token.kind is LeftParenthesis {
            1int
        } else {
            0int
        },
        open_groups(stack) >= 0,
    decreases stack.len(),
{
    assert(stack.push(token).drop_last() == stack);
    if stack.len() > 0 {
        open_groups_push(stack.drop_last(), stack.last());
        assert(stack.drop_last().push(stack.last()) == stack);
    }
}

/// Making way for an operator moves no opening parenthesis.
proof fn unwind_for_keeps_groups(yard: Yard, operator: OperatorKind)
    ensures
        open_groups(unwind_for(yard, operator).stack) == open_groups(yard.stack),
    decreases yard.stack.len(),
{
    if yard.stack.len() > 0 && gives_way(yard.stack.last().kind, operator) {
        unwind_for_keeps_groups(yard.popped(), operator);
    }
}

/// Unwinding moves no opening parenthesis, and stops at one if there is
/// one.
proof fn unwind_to_parenthesis_keeps_groups(yard: Yard)
    ensures
        open_groups(unwind_to_parenthesis(yard).stack) == open_groups(yard.stack),
        unwind_to_parenthesis(yard).stack.len() == 0 <==> open_groups(yard.stack) == 0,
        unwind_to_parenthesis(yard).stack.len() > 0 ==> unwind_to_parenthesis(
            yard,
        ).stack.last().kind is LeftParenthesis,
    decreases yard.stack.len(),
{
    if yard.stack.len() > 0 {
        open_groups_push(yard.stack.drop_last(), yard.stack.last());
        assert(yard.stack.drop_last().push(yard.stack.last()) == yard.stack);
        if !(yard.stack.last().kind is LeftParenthesis) {
            unwind_to_parenthesis_keeps_groups(yard.popped());
        }
    }
}

/// A closing parenthesis takes one opening parenthesis off the stack, and
/// closes nothing if there is none.
proof fn close_group_takes_one(yard: Yard)
    ensures
        close_group(yard) is Some <==> open_groups(yard.stack) > 0,
        close_group(yard) matches Some(next) ==> open_groups(next.stack) == open_groups(
            yard.stack,
        ) - 1,
{
    unwind_to_parenthesis_keeps_groups(yard);
    let unwound = unwind_to_parenthesis(yard);
    open_groups_push(yard.stack, yard.stack.last());
    if unwound.stack.len() > 0 {
        let opened = unwound.stack.drop_last();
        open_groups_push(opened, unwound.stack.last());
        assert(opened.push(unwound.stack.last()) == unwound.stack);
        if opened.len() > 0 {
            open_groups_push(opened.drop_last(), opened.last());
            assert(opened.drop_last().push(opened.last()) == opened);
        }
    }
}

/// A token is read exactly if the depth stays at or above zero, and then
/// changes the count of opening parentheses on the stack by its step.
proof fn shift_follows_depth(yard: Yard, token: TokenView)
    ensures
        shift(yard, token) is Some <==> open_groups(yard.stack) + step(token) >= 0,
        shift(yard, token) matches Some(next) ==> open_groups(next.stack) == open_groups(
            yard.stack,
        ) + step(token),
{
    open_groups_push(yard.stack, token);
    match token.kind {
        KindView::Operator(operator) => {
            unwind_for_keeps_groups(yard, operator);
            open_groups_push(unwind_for(yard, operator).stack, token);
        },
        KindView::RightParenthesis => {
            close_group_takes_one(yard);
        },
        _ => {},
    }
}

/// The stack can be emptied exactly if it holds no opening parenthesis.
proof fn flush_needs_no_groups(yard: Yard)
    ensures
        flush(yard) is Ok <==> open_groups(yard.stack) == 0,
    decreases yard.stack.len(),
{
    if yard.stack.len() > 0 {
        open_groups_push(yard.stack.drop_last(), yard.stack.last());
        assert(yard.stack.drop_last().push(yard.stack.last()) == yard.stack);
        if !(yard.stack.last().kind is LeftParenthesis) {
            flush_needs_no_groups(yard.popped());
        }
    }
}

/// Reading goes on for as long as the depth stays at or above zero, and the
/// stack then holds as many opening parentheses as the depth says.
proof fn read_follows_depth(tokens: Seq<TokenView>)
    ensures
        read(tokens) is Ok <==> never_negative(tokens),
        read(tokens) matches Ok(yard) ==> open_groups(yard.stack) == depth(tokens),
    decreases tokens.len(),
{
    assert(tokens.take(tokens.len() as int) == tokens);
    if tokens.len() == 0 {
        assert forall|n: int| 0 <= n <= tokens.len() implies depth(#[trigger] tokens.take(n))
            >= 0 by {
            assert(tokens.take(n) == tokens);
        }
    } else {
        let before = tokens.drop_last();
        read_follows_depth(before);
        assert forall|n: int| 0 <= n < tokens.len() implies tokens.take(n) == before.take(n) by {
            assert(tokens.take(n) =~= before.take(n));
        }
        match read(before) {
            Err(_) => {
                let n = choose|n: int|
                    0 <= n <= before.len() && depth(#[trigger] before.take(n)) < 0;
                assert(tokens.take(n) == before.take(n));
            },
            Ok(yard) => {
                shift_follows_depth(yard, tokens.last());
                if never_negative(tokens) {
                    assert(depth(tokens.take(tokens.len() as int)) >= 0);
                }
                if shift(yard, tokens.last()) is Some {
                    assert forall|n: int| 0 <= n <= tokens.len() implies depth(
                        #[trigger] tokens.take(n),
                    ) >= 0 by {
                        if n < tokens.len() {
                            assert(tokens.take(n) == before.take(n));
                        }
                    }
                }
            },
        }
    }
}

/// A token sequence has a Reverse Polish Notation exactly if its
/// parentheses pair up.
pub proof fn converts_iff_balanced(tokens: Seq<TokenView>)
    ensures
        rpn(tokens) is Ok <==> balanced(tokens),
{
    read_follows_depth(tokens);
    if let Ok(yard) = read(tokens) {
        flush_needs_no_groups(yard);
    }
}

/// Emptying the stack can only fail on an opening parenthesis.
proof fn flush_fails_at_opening(yard: Yard)
    ensures
        flush(yard) matches Err(token) ==> token.kind is LeftParenthesis,
    decreases yard.stack.len(),
{
    if yard.stack.len() > 0 && !(yard.stack.last().kind is LeftParenthesis) {
        flush_fails_at_opening(yard.popped());
    }
}

/// Reading can only fail on a closing parenthesis, and only where all
/// parentheses before it pair up.
proof fn read_fails_at_closing(tokens: Seq<TokenView>)
    ensures
        read(tokens) matches Err(at) ==> {
            &&& 0 <= at < tokens.len()
            &&& tokens[at].kind is RightParenthesis
            &&& balanced(tokens.take(at))
        },
    decreases tokens.len(),
{
    if tokens.len() > 0 {
        let before = tokens.drop_last();
        read_fails_at_closing(before);
        match read(before) {
            Err(at) => {
                assert(before.take(at) == tokens.take(at));
            },
            Ok(yard) => {
                read_follows_depth(before);
                shift_follows_depth(yard, tokens.last());
                open_groups_push(yard.stack, tokens.last());
                assert(tokens.take(tokens.len() - 1) == before);
            },
        }
    }
}

/// A conversion fails on a parenthesis that has no partner: on the first
/// closing parenthesis before which all parentheses pair up, or, if there
/// is none, on an opening parenthesis that is never closed.
pub proof fn fails_at_unmatched_parenthesis(tokens: Seq<TokenView>)
    ensures
        rpn(tokens) matches Err(token) ==> if never_negative(tokens) {
            token.kind is LeftParenthesis && depth(tokens) > 0
        } else {
            exists|at: int|
                0 <= at < tokens.len() && token == #[trigger] tokens[at] && token.kind
                    is RightParenthesis && balanced(tokens.take(at))
        },
{
    read_follows_depth(tokens);
    read_fails_at_closing(tokens);
    match read(tokens) {
        Ok(yard) => {
            flush_fails_at_opening(yard);
            flush_needs_no_groups(yard);
            open_groups_push(yard.stack, yard.stack.last());
        },
        Err(at) => {},
    }
}

} // verus!
