//! Laws of the two stages together: from a text to its Reverse Polish
//! Notation.

use vstd::prelude::*;
use crate::balance::{balanced, converts_iff_balanced, depth, step};
use crate::content::{keeps_all_but_parentheses, without_parentheses};
use crate::coverage::{plain, plain_input_has_tokens};
use crate::lexing::{
    in_numeral, is_digit, is_letter, letter_run, lex, lex_from, lowered, numeral_run,
    run_length_is_maximal,
};
use crate::rpn::rpn;
use crate::token::TokenView;

verus! {

/// What a character adds to the nesting depth of a text.
pub open spec fn char_step(c: char) -> int {
    if c == '(' {
        1
    } else if c == ')' {
        -1
    } else {
        0
    }
}

/// The number of `(` in `text` less the number of `)`.
pub open spec fn text_depth(text: Seq<char>) -> int
    decreases text.len(),
{
    if text.len() == 0 {
        0
    } else {
        text_depth(text.drop_last()) + char_step(text.last())
    }
}

/// Whether the parentheses of `text` pair up: no prefix closes more than it
/// opens, and the whole closes all that it opens.
pub open spec fn balanced_text(text: Seq<char>) -> bool {
    &&& forall|n: int| 0 <= n <= text.len() ==> text_depth(#[trigger] text.take(n)) >= 0
    &&& text_depth(text) == 0
}

/// One token is as deep as its step.
proof fn depth_of_one(token: TokenView)
    ensures
        depth(seq![token]) == step(token),
{
    reveal_with_fuel(depth, 2);
    assert(seq![token].drop_last() == Seq::<TokenView>::empty());
}

/// One character is as deep as its step.
proof fn text_depth_of_one(c: char)
    ensures
        text_depth(seq![c]) == char_step(c),
{
    reveal_with_fuel(text_depth, 2);
    assert(seq![c].drop_last() == Seq::<char>::empty());
}

/// The depth of two sequences in a row is the sum of their depths.
proof fn depth_adds(front: Seq<TokenView>, back: Seq<TokenView>)
    ensures
        depth(front + back) == depth(front) + depth(back),
    decreases back.len(),
{
    if back.len() == 0 {
        assert(front + back == front);
    } else {
        assert((front + back).drop_last() == front + back.drop_last());
        depth_adds(front, back.drop_last());
    }
}

/// The depth of two texts in a row is the sum of their depths.
proof fn text_depth_adds(front: Seq<char>, back: Seq<char>)
    ensures
        text_depth(front + back) == text_depth(front) + text_depth(back),
    decreases back.len(),
{
    if back.len() == 0 {
        assert(front + back == front);
    } else {
        assert((front + back).drop_last() == front + back.drop_last());
        text_depth_adds(front, back.drop_last());
    }
}

/// A text without parentheses has depth zero.
proof fn text_depth_flat(text: Seq<char>)
    requires
        forall|k: int| 0 <= k < text.len() ==> char_step(#[trigger] text[k]) == 0,
    ensures
        text_depth(text) == 0,
    decreases text.len(),
{
    if text.len() > 0 {
        text_depth_flat(text.drop_last());
    }
}

/// Whether some prefix of `text` has the depth `level`.
spec fn reaches(text: Seq<char>, level: int) -> bool {
    exists|m: int| 0 <= m <= text.len() && level == text_depth(#[trigger] text.take(m))
}

/// Whether each prefix of `tokens` is as deep as some prefix of `text`.
spec fn follows(tokens: Seq<TokenView>, text: Seq<char>) -> bool {
    forall|n: int| 0 <= n <= tokens.len() ==> reaches(text, depth(#[trigger] tokens.take(n)))
}

/// Tokens that follow the rest of a text, behind a token for its first
/// `width` characters that is as deep as they are, follow the whole text.
proof fn follows_behind(
    first: Seq<TokenView>,
    rest: Seq<TokenView>,
    text: Seq<char>,
    width: int,
)
    requires
        0 <= width <= text.len(),
        first.len() <= 1,
        depth(first) == text_depth(text.take(width)),
        follows(rest, text.skip(width)),
    ensures
        follows(first + rest, text),
{
    let all = first + rest;
    let head = text.take(width);
    let tail = text.skip(width);
    assert forall|n: int| 0 <= n <= all.len() implies reaches(
        text,
        depth(#[trigger] all.take(n)),
    ) by {
        if n < first.len() {
            assert(all.take(n) == Seq::<TokenView>::empty());
            assert(text.take(0) == Seq::<char>::empty());
        } else {
            let behind = rest.take(n - first.len());
            assert(reaches(tail, depth(behind)));
            let m = choose|m: int|
                0 <= m <= tail.len() && depth(behind) == text_depth(#[trigger] tail.take(m));
            assert(all.take(n) == first + behind);
            assert(text.take(width + m) == head + tail.take(m));
            depth_adds(first, behind);
            text_depth_adds(head, tail.take(m));
        }
    }
}

/// The tokens that are read from a text are as deep as the text, prefix by
/// prefix.
proof fn lex_from_follows(text: Seq<char>, offset: int, after_operand: bool)
    ensures
        lex_from(text, offset, after_operand) matches Ok(tokens) ==> follows(tokens, text)
            && depth(tokens) == text_depth(text),
    decreases text.len(),
{
    if text.len() == 0 {
        let tokens = Seq::<TokenView>::empty();
        assert forall|n: int| 0 <= n <= tokens.len() implies reaches(
            text,
            depth(#[trigger] tokens.take(n)),
        ) by {
            assert(tokens.take(n) == tokens);
            assert(text.take(0) == text);
        }
    } else if lex_from(text, offset, after_operand) is Ok {
        let c = lowered(text[0]);
        let tail = text.skip(1);
        let tokens = lex_from(text, offset, after_operand)->Ok_0;
        if is_letter(c) || is_digit(c) || (c == '-' && !after_operand) {
            let n = if is_letter(c) {
                letter_run(tail) as int
            } else {
                numeral_run(tail) as int
            };
            if is_letter(c) {
                run_length_is_maximal(tail, |c: char| is_letter(c));
            } else {
                run_length_is_maximal(tail, |c: char| in_numeral(c));
            }
            let head = text.take(1 + n);
            let behind = text.skip(1 + n);
            assert(tail.skip(n) == behind);
            lex_from_follows(behind, offset + 1 + n, !is_letter(c));
            let rest = lex_from(behind, offset + 1 + n, !is_letter(c))->Ok_0;
            let first = seq![tokens[0]];
            assert(tokens == first + rest);
            assert forall|k: int| 0 <= k < head.len() implies char_step(#[trigger] head[k])
                == 0 by {
                if k > 0 {
                    assert(head[k] == tail[k - 1]);
                }
            }
            text_depth_flat(head);
            depth_of_one(tokens[0]);
            step_behind(first, rest, text, 1 + n);
        } else if c == ' ' {
            let head = text.take(1);
            lex_from_follows(tail, offset + 1, after_operand);
            let first = Seq::<TokenView>::empty();
            assert(tokens == first + tokens);
            assert(head == seq![text[0]]);
            text_depth_of_one(text[0]);
            step_behind(first, tokens, text, 1);
        } else {
            let head = text.take(1);
            lex_from_follows(tail, offset + 1, c == ')');
            let rest = lex_from(tail, offset + 1, c == ')')->Ok_0;
            let first = seq![tokens[0]];
            assert(tokens == first + rest);
            assert(head == seq![text[0]]);
            text_depth_of_one(text[0]);
            depth_of_one(tokens[0]);
            assert(step(tokens[0]) == char_step(text[0]));
            step_behind(first, rest, text, 1);
        }
    }
}

/// Tokens that are as deep as the rest of a text, prefix by prefix, behind
/// at most one token that is as deep as the first `width` characters, are
/// as deep as the whole text, prefix by prefix.
proof fn step_behind(first: Seq<TokenView>, rest: Seq<TokenView>, text: Seq<char>, width: int)
    requires
        0 <= width <= text.len(),
        first.len() <= 1,
        depth(first) == text_depth(text.take(width)),
        follows(rest, text.skip(width)),
        depth(rest) == text_depth(text.skip(width)),
    ensures
        follows(first + rest, text),
        depth(first + rest) == text_depth(text),
{
    assert(text == text.take(width) + text.skip(width));
    text_depth_adds(text.take(width), text.skip(width));
    depth_adds(first, rest);
    follows_behind(first, rest, text, width);
}

/// A text whose parentheses pair up, if it has tokens at all, has tokens
/// whose parentheses pair up.
pub proof fn balanced_text_has_balanced_tokens(input: Seq<char>)
    requires
        lex(input) is Ok,
        balanced_text(input),
    ensures
        balanced(lex(input)->Ok_0),
{
    lex_from_follows(input, 0, false);
}

/// An input that has tokens and whose parentheses pair up converts, and its
/// Reverse Polish Notation keeps every token but the parentheses.
pub proof fn balanced_input_converts(input: Seq<char>)
    requires
        lex(input) is Ok,
        balanced_text(input),
    ensures
        rpn(lex(input)->Ok_0) is Ok,
        rpn(lex(input)->Ok_0)->Ok_0.to_multiset() == without_parentheses(
            lex(input)->Ok_0,
        ).to_multiset(),
{
    balanced_text_has_balanced_tokens(input);
    converts_iff_balanced(lex(input)->Ok_0);
    keeps_all_but_parentheses(lex(input)->Ok_0);
}

/// An expression of whole numbers (digits, spaces, parentheses and
/// operators other than `-`) whose parentheses pair up has tokens and
/// converts, and its Reverse Polish Notation keeps every token but the
/// parentheses.
pub proof fn plain_balanced_input_converts(input: Seq<char>)
    requires
        input.len() > 0,
        plain(input),
        balanced_text(input),
    ensures
        lex(input) is Ok,
        rpn(lex(input)->Ok_0) is Ok,
        rpn(lex(input)->Ok_0)->Ok_0.to_multiset() == without_parentheses(
            lex(input)->Ok_0,
        ).to_multiset(),
{
    plain_input_has_tokens(input);
    balanced_input_converts(input);
}

} // verus!
