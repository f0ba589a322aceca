//! The shunting-yard converter.

use std::collections::VecDeque;
use vstd::prelude::*;
use vstd::string::StringExecFns;
use crate::balance::{balanced, converts_iff_balanced};
use crate::content::{
    keeps_all_but_parentheses, keeps_operands_in_order, operands, without_parentheses,
};
use crate::rpn::{
    close_group, consumed, flush, read, read_failure_persists, rendering, rpn, unwind_for,
    unwind_to_parenthesis, Yard,
};
use crate::token::{
    views, OperatorAssociativity, OperatorKind, Precedent, Token, TokenKind, TokenView,
};

verus! {

/// Why a token sequence has no Reverse Polish Notation.
#[derive(Debug)]
pub enum ParsingError {
    /// This parenthesis has no partner.
    UnbalancedParens(Token),
}

/// A first-in, first-out queue.
trait Queue<T>: View<V = Seq<T>> {
    fn enqueue(&mut self, value: T)
        ensures
            final(self)@ == old(self)@.push(value),
    ;

    fn dequeue(&mut self) -> (value: Option<T>)
        ensures
            old(self)@.len() == 0 ==> value is None && final(self)@ == old(self)@,
            old(self)@.len() > 0 ==> value == Some(old(self)@.first()) && final(self)@ == old(
                self,
            )@.drop_first(),
    ;
}

impl<T> Queue<T> for VecDeque<T> {
    fn enqueue(&mut self, value: T) {
        self.push_back(value)
    }

    fn dequeue(&mut self) -> (value: Option<T>) {
        self.pop_front()
    }
}

/// A last-in, first-out stack.
trait Stack<T>: View<V = Seq<T>> {
    fn push(&mut self, value: T)
        ensures
            final(self)@ == old(self)@.push(value),
    ;

    fn pop(&mut self) -> (value: Option<T>)
        ensures
            old(self)@.len() == 0 ==> value is None && final(self)@ == old(self)@,
            old(self)@.len() > 0 ==> value == Some(old(self)@.last()) && final(self)@ == old(
                self,
            )@.drop_last(),
    ;

    fn peek(&self) -> (value: Option<&T>)
        ensures
            self@.len() == 0 ==> value is None,
            self@.len() > 0 ==> value == Some(&self@.last()),
    ;
}

impl<T> Stack<T> for VecDeque<T> {
    fn push(&mut self, value: T) {
        self.push_back(value)
    }

    fn pop(&mut self) -> (value: Option<T>) {
        self.pop_back()
    }

    fn peek(&self) -> (value: Option<&T>) {
        if self.len() == 0 {
            None
        } else {
            Some(&self[self.len() - 1])
        }
    }
}

/// The yard that an output queue and an operator stack stand for.
pub open spec fn yard(output: Seq<Token>, stack: Seq<Token>) -> Yard {
    Yard { output: views(output), stack: views(stack) }
}

/// Moving the top of the stack to the output is `Yard::popped`.
proof fn yard_popped(output: Seq<Token>, stack: Seq<Token>)
    requires
        stack.len() > 0,
    ensures
        yard(output.push(stack.last()), stack.drop_last()) == yard(output, stack).popped(),
{
    assert(views(output.push(stack.last())) =~= views(output).push(views(stack).last()));
    assert(views(stack.drop_last()) =~= views(stack).drop_last());
}

/// Sends to the output every operator on top of the stack that gives way
/// to `o1`.
fn make_way(
    operator_stack: &mut VecDeque<Token>,
    output_queue: &mut VecDeque<Token>,
    o1: OperatorKind,
)
    ensures
        yard(final(output_queue)@, final(operator_stack)@) == unwind_for(
            yard(old(output_queue)@, old(operator_stack)@),
            o1,
        ),
{
    while operator_stack.len() > 0
        invariant
            unwind_for(yard(output_queue@, operator_stack@), o1) == unwind_for(
                yard(old(output_queue)@, old(operator_stack)@),
                o1,
            ),
        ensures
            yard(output_queue@, operator_stack@) == unwind_for(
                yard(old(output_queue)@, old(operator_stack)@),
                o1,
            ),
        decreases operator_stack@.len(),
    {
        let o2 = operator_stack.peek().unwrap();
        if !matches!(o2.kind, TokenKind::Operator(_)) {
            break ;
        }
        if o2.precedence() > o1.precedence() || (o2.precedence() == o1.precedence() && matches!(
            o1.associativity(),
            OperatorAssociativity::Left
        )) {
            proof {
                yard_popped(output_queue@, operator_stack@);
            }
            let operator = operator_stack.pop().unwrap();
            output_queue.enqueue(operator);
        } else {
            break ;
        }
    }
}

/// Handles a closing parenthesis. Returns whether the stack held an opening
/// parenthesis for it.
fn close_parenthesis(
    operator_stack: &mut VecDeque<Token>,
    output_queue: &mut VecDeque<Token>,
) -> (closed: bool)
    ensures
        closed == close_group(yard(old(output_queue)@, old(operator_stack)@)) is Some,
        closed ==> Some(yard(final(output_queue)@, final(operator_stack)@)) == close_group(
            yard(old(output_queue)@, old(operator_stack)@),
        ),
{
    while operator_stack.len() > 0
        invariant
            unwind_to_parenthesis(yard(output_queue@, operator_stack@)) == unwind_to_parenthesis(
                yard(old(output_queue)@, old(operator_stack)@),
            ),
        ensures
            yard(output_queue@, operator_stack@) == unwind_to_parenthesis(
                yard(old(output_queue)@, old(operator_stack)@),
            ),
        decreases operator_stack@.len(),
    {
        let operator = operator_stack.peek().unwrap();
        if matches!(operator.kind, TokenKind::LeftParenthesis) {
            break ;
        } else {
            proof {
                yard_popped(output_queue@, operator_stack@);
            }
            let operator = operator_stack.pop().unwrap();
            output_queue.enqueue(operator);
        }
    }
    if operator_stack.len() == 0 {
        return false;
    }
    proof {
        assert(views(operator_stack@.drop_last()) =~= views(operator_stack@).drop_last());
    }
    let _ = operator_stack.pop();
    if operator_stack.len() > 0 && matches!(
        operator_stack.peek().unwrap().kind,
        TokenKind::Function(_)
    ) {
        proof {
            yard_popped(output_queue@, operator_stack@);
        }
        let function = operator_stack.pop().unwrap();
        output_queue.enqueue(function);
    }
    true
}

/// Empties the stack onto the output. Returns the topmost opening
/// parenthesis instead, if the stack holds one.
fn flush_stack(operator_stack: &mut VecDeque<Token>, output_queue: &mut VecDeque<Token>) -> (left:
    Option<Token>)
    ensures
        match left {
            Some(token) => flush(yard(old(output_queue)@, old(operator_stack)@)) == Err::<
                Seq<TokenView>,
                TokenView,
            >(token@),
            None => flush(yard(old(output_queue)@, old(operator_stack)@)) == Ok::<
                Seq<TokenView>,
                TokenView,
            >(views(final(output_queue)@)),
        },
{
    while operator_stack.len() > 0
        invariant
            flush(yard(output_queue@, operator_stack@)) == flush(
                yard(old(output_queue)@, old(operator_stack)@),
            ),
        decreases operator_stack@.len(),
    {
        proof {
            yard_popped(output_queue@, operator_stack@);
        }
        let operator = operator_stack.pop().unwrap();
        if matches!(operator.kind, TokenKind::LeftParenthesis) {
            return Some(operator);
        }
        output_queue.enqueue(operator);
    }
    None
}

/// Puts a token sequence into Reverse Polish Notation.
///
/// The tokens are taken from the front of `tokens`. On success none is
/// left. On failure the result holds the parenthesis that has no partner,
/// and `tokens` keeps what stood behind the point of failure.
pub fn to_rpn_sequence(tokens: &mut VecDeque<Token>) -> (result: Result<
    VecDeque<Token>,
    ParsingError,
>)
    ensures
        match result {
            Ok(output) => rpn(views(old(tokens)@)) == Ok::<Seq<TokenView>, TokenView>(
                views(output@),
            ),
            Err(ParsingError::UnbalancedParens(token)) => rpn(views(old(tokens)@)) == Err::<
                Seq<TokenView>,
                TokenView,
            >(token@),
        },
        0 <= consumed(views(old(tokens)@)) <= old(tokens)@.len(),
        final(tokens)@ == old(tokens)@.skip(consumed(views(old(tokens)@))),
        result is Ok <==> balanced(views(old(tokens)@)),
        result matches Ok(output) ==> {
            &&& views(output@).to_multiset() == without_parentheses(
                views(old(tokens)@),
            ).to_multiset()
            &&& operands(views(output@)) == operands(views(old(tokens)@))
        },
{
    proof {
        converts_iff_balanced(views(tokens@));
        if rpn(views(tokens@)) is Ok {
            keeps_all_but_parentheses(views(tokens@));
            keeps_operands_in_order(views(tokens@));
        }
    }
    let mut output_queue: VecDeque<Token> = VecDeque::new();
    let mut operator_stack: VecDeque<Token> = VecDeque::new();
    let ghost all = tokens@;
    let ghost mut done: int = 0;
    assert(views(all.take(0)) =~= Seq::<TokenView>::empty());
    assert(all.skip(0) =~= all);
    assert(yard(output_queue@, operator_stack@) == Yard::empty()) by {
        assert(views(output_queue@) =~= Seq::<TokenView>::empty());
        assert(views(operator_stack@) =~= Seq::<TokenView>::empty());
    }
    while tokens.len() > 0
        invariant
            all == old(tokens)@,
            0 <= done <= all.len(),
            tokens@ == all.skip(done),
            read(views(all.take(done))) == Ok::<Yard, int>(yard(output_queue@, operator_stack@)),
        decreases tokens@.len(),
    {
        let token = tokens.dequeue().unwrap();
        proof {
            let prefix = views(all.take(done + 1));
            assert(prefix.drop_last() =~= views(all.take(done)));
            assert(prefix.last() == token@);
            assert(views(all).take(done + 1) =~= prefix);
            assert(all.skip(done).drop_first() =~= all.skip(done + 1));
            assert(views(output_queue@.push(token)) =~= views(output_queue@).push(token@));
            assert(views(operator_stack@.push(token)) =~= views(operator_stack@).push(token@));
        }
        match token.kind {
            TokenKind::Number(_) => output_queue.enqueue(token),
            TokenKind::Identifier(_) => output_queue.enqueue(token),
            TokenKind::Function(_) => operator_stack.push(token),
            TokenKind::Operator(o1) => {
                make_way(&mut operator_stack, &mut output_queue, o1);
                proof {
                    assert(views(operator_stack@.push(token)) =~= views(operator_stack@).push(
                        token@,
                    ));
                }
                operator_stack.push(token);
            },
            TokenKind::LeftParenthesis => operator_stack.push(token),
            TokenKind::RightParenthesis => {
                if !close_parenthesis(&mut operator_stack, &mut output_queue) {
                    proof {
                        assert(read(views(all.take(done + 1))) == Err::<Yard, int>(done));
                        read_failure_persists(views(all), done + 1);
                        assert(views(all)[done] == token@);
                        converts_iff_balanced(views(all));
                    }
                    return Err(ParsingError::UnbalancedParens(token));
                }
            },
        }
        proof {
            done = done + 1;
        }
    }
    assert(all.take(done) =~= all);
    match flush_stack(&mut operator_stack, &mut output_queue) {
        Some(left) => Err(ParsingError::UnbalancedParens(left)),
        None => Ok(output_queue),
    }
}

/// The texts of `tokens`, joined by single spaces.
pub fn render(tokens: &VecDeque<Token>) -> (text: String)
    ensures
        text@ == rendering(views(tokens@)),
{
    let mut text = String::new();
    let mut i: usize = 0;
    assert(views(tokens@.take(0)) =~= Seq::<TokenView>::empty());
    while i < tokens.len()
        invariant
            i <= tokens.len(),
            text@ == rendering(views(tokens@.take(i as int))),
        decreases tokens.len() - i,
    {
        proof {
            reveal_strlit(" ");
            let read = views(tokens@.take(i + 1));
            assert(read.drop_last() =~= views(tokens@.take(i as int)));
            assert(read.last() == tokens@[i as int]@);
            assert(" "@ =~= seq![' ']);
            if i == 0 {
                assert(Seq::<char>::empty() + tokens@[0]@.value =~= tokens@[0]@.value);
            }
        }
        if i > 0 {
            text.append(" ");
        }
        let word = tokens[i].to_string();
        text.append(word.as_str());
        i += 1;
    }
    assert(tokens@.take(tokens@.len() as int) =~= tokens@);
    text
}

/// Puts a token sequence into Reverse Polish Notation and renders it as
/// text: the tokens' texts in their new order, joined by single spaces.
///
/// The tokens are taken from the front of `tokens`, as `to_rpn_sequence`
/// takes them.
pub fn to_rpn(tokens: &mut VecDeque<Token>) -> (result: Result<String, ParsingError>)
    ensures
        match result {
            Ok(text) => rpn(views(old(tokens)@)) matches Ok(output) && text@ == rendering(output),
            Err(ParsingError::UnbalancedParens(token)) => rpn(views(old(tokens)@)) == Err::<
                Seq<TokenView>,
                TokenView,
            >(token@),
        },
        0 <= consumed(views(old(tokens)@)) <= old(tokens)@.len(),
        final(tokens)@ == old(tokens)@.skip(consumed(views(old(tokens)@))),
        result is Ok <==> balanced(views(old(tokens)@)),
{
    match to_rpn_sequence(tokens) {
        Ok(output) => Ok(render(&output)),
        Err(error) => Err(error),
    }
}

} // verus!
