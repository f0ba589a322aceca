//! What it means to put a token sequence into Reverse Polish Notation.
//!
//! The tokens are read once, from first to last, with an output queue and an
//! operator stack at hand (the yard):
//!
//! * a number or an identifier goes straight to the output;
//! * a function and an opening parenthesis go onto the stack;
//! * an operator first sends to the output every operator on top of the
//!   stack that binds at least as tightly (more tightly, if the new operator
//!   groups to the right), then goes onto the stack;
//! * a closing parenthesis sends the stack to the output down to the nearest
//!   opening parenthesis, drops that parenthesis, and sends the function
//!   that stood below it, if any, to the output as well.
//!
//! When all tokens are read, what is left on the stack goes to the output,
//! top first. Parentheses never reach the output. A closing parenthesis with
//! no opening one below it on the stack, and an opening parenthesis that is
//! still on the stack at the end, have no partner: the conversion fails on
//! the first such token that it meets.

use vstd::prelude::*;
use crate::token::{KindView, OperatorAssociativity, OperatorKind, TokenView};

verus! {

/// The output queue (its head first) and the operator stack (its top last).
pub struct Yard {
    pub output: Seq<TokenView>,
    pub stack: Seq<TokenView>,
}

impl Yard {
    /// The yard before any token is read.
    pub open spec fn empty() -> Yard {
        Yard { output: Seq::empty(), stack: Seq::empty() }
    }

    /// The yard with the top of the stack moved to the end of the output.
    pub open spec fn popped(self) -> Yard {
        Yard { output: self.output.push(self.stack.last()), stack: self.stack.drop_last() }
    }
}

/// Whether a token of kind `top` on the stack goes to the output before
/// `operator` goes onto the stack.
pub open spec fn gives_way(top: KindView, operator: OperatorKind) -> bool {
    top matches KindView::Operator(above) && (above.rank() > operator.rank() || (above.rank()
        == operator.rank() && operator.spec_associativity() == OperatorAssociativity::Left))
}

/// The yard after every operator that gives way to `operator` has left the
/// top of the stack.
pub open spec fn unwind_for(yard: Yard, operator: OperatorKind) -> Yard
    decreases yard.stack.len(),
{
    if yard.stack.len() > 0 && gives_way(yard.stack.last().kind, operator) {
        unwind_for(yard.popped(), operator)
    } else {
        yard
    }
}

/// The yard after the stack has gone to the output down to the nearest
/// opening parenthesis, which stays.
pub open spec fn unwind_to_parenthesis(yard: Yard) -> Yard
    decreases yard.stack.len(),
{
    if yard.stack.len() > 0 && !(yard.stack.last().kind is LeftParenthesis) {
        unwind_to_parenthesis(yard.popped())
    } else {
        yard
    }
}

/// The yard after a closing parenthesis, or `None` if the stack holds no
/// opening parenthesis.
pub open spec fn close_group(yard: Yard) -> Option<Yard> {
    let unwound = unwind_to_parenthesis(yard);
    if unwound.stack.len() == 0 {
        None
    } else {
        let opened = Yard { output: unwound.output, stack: unwound.stack.drop_last() };
        if opened.stack.len() > 0 && opened.stack.last().kind is Function {
            Some(opened.popped())
        } else {
            Some(opened)
        }
    }
}

/// The yard after `token` is read, or `None` if `token` is a closing
/// parenthesis that closes nothing.
pub open spec fn shift(yard: Yard, token: TokenView) -> Option<Yard> {
    match token.kind {
        KindView::Number(_) | KindView::Identifier(_) => Some(
            Yard { output: yard.output.push(token), stack: yard.stack },
        ),
        KindView::Function(_) | KindView::LeftParenthesis => Some(
            Yard { output: yard.output, stack: yard.stack.push(token) },
        ),
        KindView::Operator(operator) => {
            let unwound = unwind_for(yard, operator);
            Some(Yard { output: unwound.output, stack: unwound.stack.push(token) })
        },
        KindView::RightParenthesis => close_group(yard),
    }
}

/// The yard after all of `tokens` are read, or the index of the first
/// closing parenthesis that closes nothing.
pub open spec fn read(tokens: Seq<TokenView>) -> Result<Yard, int>
    decreases tokens.len(),
{
    if tokens.len() == 0 {
        Ok(Yard::empty())
    } else {
        match read(tokens.drop_last()) {
            Err(at) => Err(at),
            Ok(yard) => match shift(yard, tokens.last()) {
                Some(next) => Ok(next),
                None => Err(tokens.len() - 1),
            },
        }
    }
}

/// The output once the stack has been emptied onto it, or the topmost
/// opening parenthesis that the stack still holds.
pub open spec fn flush(yard: Yard) -> Result<Seq<TokenView>, TokenView>
    decreases yard.stack.len(),
{
    if yard.stack.len() == 0 {
        Ok(yard.output)
    } else if yard.stack.last().kind is LeftParenthesis {
        Err(yard.stack.last())
    } else {
        flush(yard.popped())
    }
}

/// `tokens` in Reverse Polish Notation, or the parenthesis that has no
/// partner.
pub open spec fn rpn(tokens: Seq<TokenView>) -> Result<Seq<TokenView>, TokenView> {
    match read(tokens) {
        Err(at) => Err(tokens[at]),
        Ok(yard) => flush(yard),
    }
}

/// How many of `tokens` a conversion reads: all of them, or those up to and
/// including the closing parenthesis at which it fails.
pub open spec fn consumed(tokens: Seq<TokenView>) -> int {
    match read(tokens) {
        Err(at) => at + 1,
        Ok(_) => tokens.len() as int,
    }
}

/// The texts of `tokens`, each separated from the next by one space.
pub open spec fn rendering(tokens: Seq<TokenView>) -> Seq<char>
    decreases tokens.len(),
{
    if tokens.len() == 0 {
        Seq::empty()
    } else if tokens.len() == 1 {
        tokens[0].value
    } else {
        rendering(tokens.drop_last()) + seq![' '] + tokens.last().value
    }
}

/// A failure is final: tokens that follow the failing one change nothing.
pub proof fn read_failure_persists(tokens: Seq<TokenView>, n: int)
    requires
        0 <= n <= tokens.len(),
        read(tokens.take(n)) is Err,
    ensures
        read(tokens) == read(tokens.take(n)),
    decreases tokens.len() - n,
{
    if n < tokens.len() {
        assert(tokens.take(n + 1).drop_last() == tokens.take(n));
        read_failure_persists(tokens, n + 1);
    } else {
        assert(tokens.take(n) == tokens);
    }
}

} // verus!
