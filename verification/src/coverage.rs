//! Laws of the lexer: where the tokens lie in the text that they were read
//! from.

use vstd::prelude::*;
use crate::lexing::{
    count, digits, in_numeral, is_digit, is_letter, is_numeral, letter_run, lex, lex_from,
    lowered, numeral_run, run_length_is_maximal,
};
use crate::token::{KindView, OperatorKind, TokenView, TokenizationError};

verus! {

/// Whether one of `tokens` has the offset `at` in its range.
pub open spec fn covered(tokens: Seq<TokenView>, at: int) -> bool {
    exists|i: int| 0 <= i < tokens.len() && (#[trigger] tokens[i]).start <= at < tokens[i].end
}

/// Whether `tokens` lie in `text`, which starts at `offset`, one after the
/// other, and take up exactly what is not a space:
///
/// * each range is non-empty and within the text;
/// * the ranges come in increasing order and do not overlap;
/// * an offset of the text is in some range exactly if the character there
///   is not a space.
pub open spec fn tiles(tokens: Seq<TokenView>, text: Seq<char>, offset: int) -> bool {
    &&& forall|i: int|
        0 <= i < tokens.len() ==> offset <= (#[trigger] tokens[i]).start < tokens[i].end <= offset
            + text.len()
    &&& forall|i: int, j: int|
        0 <= i < j < tokens.len() ==> (#[trigger] tokens[i]).end <= (#[trigger] tokens[j]).start
    &&& forall|at: int|
        offset <= at < offset + text.len() ==> (#[trigger] covered(tokens, at) <==> text[at
            - offset] != ' ')
}

/// Whether the text of `token` is what `text`, which starts at `offset`,
/// holds in the token's range, but for the case of the first character.
pub open spec fn spells(token: TokenView, text: Seq<char>, offset: int) -> bool {
    &&& token.value.len() == token.end - token.start
    &&& forall|k: int|
        0 <= k < token.value.len() ==> #[trigger] token.value[k] == if k == 0 {
            lowered(text[token.start - offset])
        } else {
            text[token.start - offset + k]
        }
}

/// Whether each of `tokens` spells what is in its range.
pub open spec fn spelled(tokens: Seq<TokenView>, text: Seq<char>, offset: int) -> bool {
    forall|i: int| 0 <= i < tokens.len() ==> spells(#[trigger] tokens[i], text, offset)
}

/// A token over the first `width` characters, none of them a space, goes
/// before tokens that tile the rest.
proof fn tiles_behind_token(
    first: TokenView,
    rest: Seq<TokenView>,
    text: Seq<char>,
    offset: int,
    width: int,
)
    requires
        0 < width <= text.len(),
        first.start == offset,
        first.end == offset + width,
        forall|k: int| 0 <= k < width ==> text[k] != ' ',
        tiles(rest, text.skip(width), offset + width),
    ensures
        tiles(seq![first] + rest, text, offset),
{
    let all = seq![first] + rest;
    let tail = text.skip(width);
    assert forall|i: int| 0 <= i < all.len() implies offset <= (#[trigger] all[i]).start
        < all[i].end <= offset + text.len() by {
        if i > 0 {
            assert(all[i] == rest[i - 1]);
        }
    }
    assert forall|i: int, j: int| 0 <= i < j < all.len() implies (#[trigger] all[i]).end <= (
    #[trigger] all[j]).start by {
        assert(all[j] == rest[j - 1]);
        if i > 0 {
            assert(all[i] == rest[i - 1]);
        }
    }
    assert forall|at: int| offset <= at < offset + text.len() implies (#[trigger] covered(all, at)
        <==> text[at - offset] != ' ') by {
        if at < offset + width {
            assert(all[0].start <= at < all[0].end);
        } else {
            assert(tail[at - offset - width] == text[at - offset]);
            if covered(rest, at) {
                let i = choose|i: int|
                    0 <= i < rest.len() && (#[trigger] rest[i]).start <= at < rest[i].end;
                assert(all[i + 1] == rest[i]);
            }
            if covered(all, at) {
                let i = choose|i: int|
                    0 <= i < all.len() && (#[trigger] all[i]).start <= at < all[i].end;
                assert(i > 0);
                assert(all[i] == rest[i - 1]);
            }
        }
    }
}

/// Tokens that tile what follows a space tile the text with the space.
proof fn tiles_behind_space(tokens: Seq<TokenView>, text: Seq<char>, offset: int)
    requires
        text.len() > 0,
        text[0] == ' ',
        tiles(tokens, text.skip(1), offset + 1),
    ensures
        tiles(tokens, text, offset),
{
    let tail = text.skip(1);
    assert forall|at: int| offset <= at < offset + text.len() implies (#[trigger] covered(
        tokens,
        at,
    ) <==> text[at - offset] != ' ') by {
        if at > offset {
            assert(tail[at - offset - 1] == text[at - offset]);
        } else if covered(tokens, at) {
            let i = choose|i: int|
                0 <= i < tokens.len() && (#[trigger] tokens[i]).start <= at < tokens[i].end;
        }
    }
}

/// A token that spells the first `width` characters goes before tokens that
/// spell what is in their ranges of the rest.
proof fn spelled_behind_token(
    first: TokenView,
    rest: Seq<TokenView>,
    text: Seq<char>,
    offset: int,
    width: int,
)
    requires
        0 <= width <= text.len(),
        spells(first, text, offset),
        spelled(rest, text.skip(width), offset + width),
        forall|i: int|
            0 <= i < rest.len() ==> offset + width <= (#[trigger] rest[i]).start && rest[i].end
                <= offset + text.len(),
    ensures
        spelled(seq![first] + rest, text, offset),
{
    let all = seq![first] + rest;
    let tail = text.skip(width);
    assert forall|i: int| 0 <= i < all.len() implies spells(#[trigger] all[i], text, offset) by {
        if i > 0 {
            let token = rest[i - 1];
            assert(all[i] == token);
            assert(spells(token, tail, offset + width));
            assert forall|k: int| 0 <= k < token.value.len() implies #[trigger] token.value[k]
                == if k == 0 {
                lowered(text[token.start - offset])
            } else {
                text[token.start - offset + k]
            } by {
                assert(tail[token.start - offset - width + k] == text[token.start - offset + k]);
            }
        }
    }
}

/// The tokens that are read from a text tile it and spell it.
proof fn lex_from_tiles(text: Seq<char>, offset: int, after_operand: bool)
    ensures
        lex_from(text, offset, after_operand) matches Ok(tokens) ==> tiles(tokens, text, offset)
            && spelled(tokens, text, offset),
    decreases text.len(),
{
    if text.len() == 0 {
    } else if lex_from(text, offset, after_operand) is Ok {
        let c = lowered(text[0]);
        let tail = text.skip(1);
        let tokens = lex_from(text, offset, after_operand)->Ok_0;
        if is_letter(c) || is_digit(c) || (c == '-' && !after_operand) {
            let n = if is_letter(c) {
                letter_run(tail) as int
            } else {
                numeral_run(tail) as int
            };
            if is_letter(c) {
                run_length_is_maximal(tail, |c: char| is_letter(c));
            } else {
                run_length_is_maximal(tail, |c: char| in_numeral(c));
            }
            let rest = lex_from(tail.skip(n), offset + 1 + n, !is_letter(c))->Ok_0;
            lex_from_tiles(tail.skip(n), offset + 1 + n, !is_letter(c));
            let first = tokens[0];
            assert(tokens == seq![first] + rest);
            assert(tail.skip(n) == text.skip(1 + n));
            assert forall|k: int| 0 <= k < 1 + n implies text[k] != ' ' by {
                if k > 0 {
                    assert(text[k] == tail[k - 1]);
                }
            }
            tiles_behind_token(first, rest, text, offset, 1 + n);
            assert(spells(first, text, offset)) by {
                assert forall|k: int| 0 < k < first.value.len() implies first.value[k]
                    == text[k] by {
                    assert(first.value[k] == tail.take(n)[k - 1]);
                }
            }
            spelled_behind_token(first, rest, text, offset, 1 + n);
        } else if c == ' ' {
            lex_from_tiles(tail, offset + 1, after_operand);
            tiles_behind_space(tokens, text, offset);
            assert(spelled(tokens, text, offset)) by {
                spelled_behind_space(tokens, text, offset);
            }
        } else {
            let rest = lex_from(tail, offset + 1, c == ')')->Ok_0;
            lex_from_tiles(tail, offset + 1, c == ')');
            let first = tokens[0];
            assert(tokens == seq![first] + rest);
            assert(OperatorKind::of_char(c) is Some || c == '(' || c == ')');
            tiles_behind_token(first, rest, text, offset, 1);
            spelled_behind_token(first, rest, text, offset, 1);
        }
    }
}

/// Tokens that spell what follows a space spell the text with the space.
proof fn spelled_behind_space(tokens: Seq<TokenView>, text: Seq<char>, offset: int)
    requires
        text.len() > 0,
        tiles(tokens, text.skip(1), offset + 1),
        spelled(tokens, text.skip(1), offset + 1),
    ensures
        spelled(tokens, text, offset),
{
    let tail = text.skip(1);
    assert forall|i: int| 0 <= i < tokens.len() implies spells(
        #[trigger] tokens[i],
        text,
        offset,
    ) by {
        let token = tokens[i];
        assert(spells(token, tail, offset + 1));
        assert forall|k: int| 0 <= k < token.value.len() implies #[trigger] token.value[k]
            == if k == 0 {
            lowered(text[token.start - offset])
        } else {
            text[token.start - offset + k]
        } by {
            assert(tail[token.start - offset - 1 + k] == text[token.start - offset + k]);
        }
    }
}

/// The tokens of an input lie in it one after the other, without overlap,
/// and take up all of it but the spaces. Each token's text is the text in
/// its range (with the first letter of a word in lower case).
pub proof fn tokens_tile_input(input: Seq<char>)
    requires
        lex(input) is Ok,
    ensures
        tiles(lex(input)->Ok_0, input, 0),
        spelled(lex(input)->Ok_0, input, 0),
{
    lex_from_tiles(input, 0, false);
}

/// Whether a number or an identifier is what its text says.
spec fn named_by_text(token: TokenView) -> bool {
    match token.kind {
        KindView::Number(numeral) => numeral == token.value,
        KindView::Identifier(name) => name == token.value,
        _ => true,
    }
}

/// Every number and identifier that is read is what its text says.
proof fn lex_from_names_by_text(text: Seq<char>, offset: int, after_operand: bool)
    ensures
        lex_from(text, offset, after_operand) matches Ok(tokens) ==> forall|i: int|
            0 <= i < tokens.len() ==> named_by_text(#[trigger] tokens[i]),
    decreases text.len(),
{
    if text.len() > 0 && lex_from(text, offset, after_operand) is Ok {
        let c = lowered(text[0]);
        let tail = text.skip(1);
        let tokens = lex_from(text, offset, after_operand)->Ok_0;
        if is_letter(c) || is_digit(c) || (c == '-' && !after_operand) {
            let n = if is_letter(c) {
                letter_run(tail) as int
            } else {
                numeral_run(tail) as int
            };
            if is_letter(c) {
                run_length_is_maximal(tail, |c: char| is_letter(c));
            } else {
                run_length_is_maximal(tail, |c: char| in_numeral(c));
            }
            lex_from_names_by_text(tail.skip(n), offset + 1 + n, !is_letter(c));
            let rest = lex_from(tail.skip(n), offset + 1 + n, !is_letter(c))->Ok_0;
            assert forall|i: int| 0 <= i < tokens.len() implies named_by_text(
                #[trigger] tokens[i],
            ) by {
                if i > 0 {
                    assert(tokens[i] == rest[i - 1]);
                }
            }
        } else if c == ' ' {
            lex_from_names_by_text(tail, offset + 1, after_operand);
        } else {
            lex_from_names_by_text(tail, offset + 1, c == ')');
            let rest = lex_from(tail, offset + 1, c == ')')->Ok_0;
            assert forall|i: int| 0 <= i < tokens.len() implies named_by_text(
                #[trigger] tokens[i],
            ) by {
                if i > 0 {
                    assert(tokens[i] == rest[i - 1]);
                }
            }
        }
    }
}

/// Every token of an input is well-formed.
pub proof fn tokens_are_well_formed(input: Seq<char>)
    requires
        lex(input) is Ok,
    ensures
        forall|i: int|
            0 <= i < lex(input)->Ok_0.len() ==> (#[trigger] lex(input)->Ok_0[i]).well_formed(),
{
    let tokens = lex(input)->Ok_0;
    lex_from_tiles(input, 0, false);
    lex_from_names_by_text(input, 0, false);
    assert forall|i: int| 0 <= i < tokens.len() implies (#[trigger] tokens[i]).well_formed() by {
        assert(spells(tokens[i], input, 0));
        assert(named_by_text(tokens[i]));
    }
}

/// Whether `c` can stand in an expression of whole numbers: a digit, a
/// space, a parenthesis, or an operator other than `-`.
pub open spec fn is_plain(c: char) -> bool {
    is_digit(c) || c == ' ' || c == '(' || c == ')' || c == '+' || c == '*' || c == '/' || c
        == '^'
}

/// Whether `text` holds nothing but what can stand in an expression of
/// whole numbers.
pub open spec fn plain(text: Seq<char>) -> bool {
    forall|i: int| 0 <= i < text.len() ==> is_plain(#[trigger] text[i])
}

/// A text of one class counts as many of that class as it is long.
proof fn count_of_all(text: Seq<char>, class: spec_fn(char) -> bool)
    requires
        forall|i: int| 0 <= i < text.len() ==> class(#[trigger] text[i]),
    ensures
        count(text, class) == text.len(),
    decreases text.len(),
{
    if text.len() > 0 {
        count_of_all(text.drop_last(), class);
    }
}

/// A text with nothing of a class counts none of it.
proof fn count_of_none(text: Seq<char>, class: spec_fn(char) -> bool)
    requires
        forall|i: int| 0 <= i < text.len() ==> !class(#[trigger] text[i]),
    ensures
        count(text, class) == 0,
    decreases text.len(),
{
    if text.len() > 0 {
        count_of_none(text.drop_last(), class);
    }
}

/// An expression of whole numbers has tokens, wherever it starts.
proof fn lex_from_plain(text: Seq<char>, offset: int, after_operand: bool)
    requires
        plain(text),
    ensures
        lex_from(text, offset, after_operand) is Ok,
    decreases text.len(),
{
    if text.len() > 0 {
        let c = lowered(text[0]);
        let tail = text.skip(1);
        assert(is_plain(text[0]));
        assert(c == text[0]);
        if is_digit(c) {
            let n = numeral_run(tail) as int;
            run_length_is_maximal(tail, |c: char| in_numeral(c));
            let numeral = seq![c] + tail.take(n);
            assert forall|i: int| 0 <= i < numeral.len() implies is_digit(
                #[trigger] numeral[i],
            ) by {
                if i > 0 {
                    assert(numeral[i] == tail[i - 1]);
                    assert(tail[i - 1] == text[i]);
                    assert(is_plain(text[i]));
                }
            }
            count_of_all(numeral, |c: char| is_digit(c));
            count_of_none(numeral, |c: char| c == '.');
            assert(is_numeral(numeral));
            assert forall|i: int| 0 <= i < tail.skip(n).len() implies is_plain(
                #[trigger] tail.skip(n)[i],
            ) by {
                assert(tail.skip(n)[i] == text[1 + n + i]);
            }
            lex_from_plain(tail.skip(n), offset + 1 + n, true);
        } else {
            assert forall|i: int| 0 <= i < tail.len() implies is_plain(#[trigger] tail[i]) by {
                assert(tail[i] == text[1 + i]);
            }
            lex_from_plain(tail, offset + 1, false);
            lex_from_plain(tail, offset + 1, true);
        }
    }
}

/// A text of digits, spaces, parentheses and operators other than `-`, if
/// it is not empty, has tokens.
pub proof fn plain_input_has_tokens(input: Seq<char>)
    requires
        input.len() > 0,
        plain(input),
    ensures
        lex(input) is Ok,
{
    assert forall|i: int| 0 <= i < input.len() implies '\0' <= #[trigger] input[i] <= '\u{7f}' by {
        assert(is_plain(input[i]));
    }
    lex_from_plain(input, 0, false);
}

/// A text is never refused for being empty or not ASCII once reading has
/// begun, and the offset at which it is refused lies in it, at a character
/// that is not a space.
proof fn lex_from_refuses_within(text: Seq<char>, offset: int, after_operand: bool)
    requires
        0 <= offset,
        offset + text.len() <= u32::MAX,
    ensures
        lex_from(text, offset, after_operand) matches Err(error) ==> error matches
        TokenizationError::UnexpectedChar(at) && offset <= at < offset + text.len() && text[at
            - offset] != ' ',
    decreases text.len(),
{
    if text.len() > 0 {
        let c = lowered(text[0]);
        let tail = text.skip(1);
        if is_letter(c) || is_digit(c) || (c == '-' && !after_operand) {
            let n = if is_letter(c) {
                letter_run(tail) as int
            } else {
                numeral_run(tail) as int
            };
            if is_letter(c) {
                run_length_is_maximal(tail, |c: char| is_letter(c));
            } else {
                run_length_is_maximal(tail, |c: char| in_numeral(c));
            }
            lex_from_refuses_within(tail.skip(n), offset + 1 + n, !is_letter(c));
            if let Err(TokenizationError::UnexpectedChar(at)) = lex_from(
                tail.skip(n),
                offset + 1 + n,
                !is_letter(c),
            ) {
                assert(tail.skip(n)[at - offset - 1 - n] == text[at - offset]);
            }
        } else if c == ' ' || OperatorKind::of_char(c) is Some || c == '(' || c == ')' {
            lex_from_refuses_within(tail, offset + 1, after_operand);
            lex_from_refuses_within(tail, offset + 1, false);
            lex_from_refuses_within(tail, offset + 1, true);
            if let Err(TokenizationError::UnexpectedChar(at)) = lex_from(
                text,
                offset,
                after_operand,
            ) {
                assert(tail[at - offset - 1] == text[at - offset]);
            }
        }
    }
}

/// Where a text is refused for a character, the offset that is given lies
/// in the text, at a character that is not a space.
pub proof fn refusal_points_into_input(input: Seq<char>)
    requires
        input.len() <= u32::MAX,
    ensures
        lex(input) matches Err(TokenizationError::UnexpectedChar(at)) ==> at < input.len()
            && input[at as int] != ' ',
{
    lex_from_refuses_within(input, 0, false);
}

} // verus!
