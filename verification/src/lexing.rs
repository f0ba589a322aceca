//! What it means to split a text into tokens.
//!
//! The text is read from left to right. At each offset the character found
//! there decides what is read next:
//!
//! * a letter starts a word, which runs on while letters follow;
//! * a digit starts a numeral, which runs on while digits and points follow;
//! * `-` starts a numeral too, unless a value has just ended (the token
//!   before it is a number or a closing parenthesis): then it subtracts;
//! * any other operator symbol and each parenthesis is a token of its own;
//! * a space is passed over;
//! * nothing else can start a token: no point, no underscore, and no blank
//!   other than the space.
//!
//! Two choices are made here once and for all.
//!
//! Letter case: the first letter of a word is put in lower case, the letters
//! after it are kept as written. So `Sin` reads as the function `sin`, while
//! `SIN` reads as the identifier `sIN`.
//!
//! Numerals: a numeral needs at least one digit and may hold at most one
//! point. A run such as `1.2.3`, or a sign with no digit after it, is not a
//! numeral, and the text is refused at the offset where the run starts.

use vstd::prelude::*;
use crate::token::{FunctionKind, KindView, OperatorKind, TokenView, TokenizationError};

verus! {

/// The letters of the English alphabet, in either case.
pub open spec fn is_letter(c: char) -> bool {
    ('a' <= c && c <= 'z') || ('A' <= c && c <= 'Z')
}

/// The ten decimal digits.
pub open spec fn is_digit(c: char) -> bool {
    '0' <= c && c <= '9'
}

/// The characters that continue a numeral.
pub open spec fn in_numeral(c: char) -> bool {
    is_digit(c) || c == '.'
}

/// `c` in lower case if it is an upper case letter, else `c` itself.
pub open spec fn lowered(c: char) -> char {
    if 'A' <= c && c <= 'Z' {
        ((c as u8) + 32) as char
    } else {
        c
    }
}

/// The length of the longest prefix of `text` whose characters all satisfy
/// `class`.
pub open spec fn run_length(text: Seq<char>, class: spec_fn(char) -> bool) -> nat
    decreases text.len(),
{
    if text.len() > 0 && class(text[0]) {
        1 + run_length(text.skip(1), class)
    } else {
        0
    }
}

/// How many letters `text` starts with.
pub open spec fn letter_run(text: Seq<char>) -> nat {
    run_length(text, |c: char| is_letter(c))
}

/// How many digits and points `text` starts with.
pub open spec fn numeral_run(text: Seq<char>) -> nat {
    run_length(text, |c: char| in_numeral(c))
}

/// How many characters of `text` satisfy `class`.
pub open spec fn count(text: Seq<char>, class: spec_fn(char) -> bool) -> nat
    decreases text.len(),
{
    if text.len() == 0 {
        0
    } else {
        count(text.drop_last(), class) + if class(text.last()) {
            1nat
        } else {
            0nat
        }
    }
}

/// How many digits `text` holds.
pub open spec fn digits(text: Seq<char>) -> nat {
    count(text, |c: char| is_digit(c))
}

/// How many points `text` holds.
pub open spec fn points(text: Seq<char>) -> nat {
    count(text, |c: char| c == '.')
}

/// Whether a run of sign, digits and points is a numeral: it has a digit,
/// and no second point.
pub open spec fn is_numeral(text: Seq<char>) -> bool {
    digits(text) >= 1 && points(text) <= 1
}

/// The token for the word `text` read at `start`: a function where the word
/// names one, an identifier otherwise.
pub open spec fn word(text: Seq<char>, start: int) -> TokenView {
    TokenView {
        value: text,
        kind: match FunctionKind::named(text) {
            Some(function) => KindView::Function(function),
            None => KindView::Identifier(text),
        },
        start,
        end: start + text.len(),
    }
}

/// The token for the numeral `text` read at `start`.
pub open spec fn number(text: Seq<char>, start: int) -> TokenView {
    TokenView { value: text, kind: KindView::Number(text), start, end: start + text.len() }
}

/// The token of the given kind for the single character `c` read at `start`.
pub open spec fn symbol(c: char, kind: KindView, start: int) -> TokenView {
    TokenView { value: seq![c], kind, start, end: start + 1 }
}

/// The tokens `before`, followed by those of `rest` where `rest` has any.
pub open spec fn followed_by(
    before: Seq<TokenView>,
    rest: Result<Seq<TokenView>, TokenizationError>,
) -> Result<Seq<TokenView>, TokenizationError> {
    match rest {
        Ok(tokens) => Ok(before + tokens),
        Err(error) => Err(error),
    }
}

/// Whether a value has just ended where `tokens` ends.
pub open spec fn ends_operand(tokens: Seq<TokenView>) -> bool {
    tokens.len() > 0 && tokens.last().kind.ends_operand()
}

/// The tokens of `text`, which starts at `offset` of the whole input.
/// `after_operand` says whether the last token before `offset` ended a value.
pub open spec fn lex_from(text: Seq<char>, offset: int, after_operand: bool) -> Result<
    Seq<TokenView>,
    TokenizationError,
>
    decreases text.len(),
    via lex_from_decreases
{
    if text.len() == 0 {
        Ok(Seq::empty())
    } else {
        let c = lowered(text[0]);
        let tail = text.skip(1);
        if is_letter(c) {
            let n = letter_run(tail) as int;
            followed_by(
                seq![word(seq![c] + tail.take(n), offset)],
                lex_from(tail.skip(n), offset + 1 + n, false),
            )
        } else if is_digit(c) || (c == '-' && !after_operand) {
            let n = numeral_run(tail) as int;
            let numeral = seq![c] + tail.take(n);
            if is_numeral(numeral) {
                followed_by(
                    seq![number(numeral, offset)],
                    lex_from(tail.skip(n), offset + 1 + n, true),
                )
            } else {
                Err(TokenizationError::UnexpectedChar(offset as u32))
            }
        } else if OperatorKind::of_char(c) is Some {
            followed_by(
                seq![symbol(c, KindView::Operator(OperatorKind::of_char(c)->0), offset)],
                lex_from(tail, offset + 1, false),
            )
        } else if c == '(' {
            followed_by(
                seq![symbol(c, KindView::LeftParenthesis, offset)],
                lex_from(tail, offset + 1, false),
            )
        } else if c == ')' {
            followed_by(
                seq![symbol(c, KindView::RightParenthesis, offset)],
                lex_from(tail, offset + 1, true),
            )
        } else if c == ' ' {
            lex_from(tail, offset + 1, after_operand)
        } else {
            Err(TokenizationError::UnexpectedChar(offset as u32))
        }
    }
}

/// What is read after a word or a numeral is shorter than what was there
/// before it.
#[via_fn]
proof fn lex_from_decreases(text: Seq<char>, offset: int, after_operand: bool) {
    if text.len() > 0 {
        run_length_bounded(text.skip(1), |c: char| is_letter(c));
        run_length_bounded(text.skip(1), |c: char| in_numeral(c));
    }
}

/// The tokens of a whole input, or the reason why it has none.
pub open spec fn lex(input: Seq<char>) -> Result<Seq<TokenView>, TokenizationError> {
    if input.len() == 0 {
        Err(TokenizationError::Empty)
    } else if !vstd::utf8::is_ascii_chars(input) {
        Err(TokenizationError::NotAscii)
    } else {
        lex_from(input, 0, false)
    }
}

/// A run is never longer than the text it is read from.
pub proof fn run_length_bounded(text: Seq<char>, class: spec_fn(char) -> bool)
    ensures
        run_length(text, class) <= text.len(),
    decreases text.len(),
{
    if text.len() > 0 && class(text[0]) {
        run_length_bounded(text.skip(1), class);
    }
}

/// A run holds only characters of its class and stops at the first
/// character outside it.
pub proof fn run_length_is_maximal(text: Seq<char>, class: spec_fn(char) -> bool)
    ensures
        run_length(text, class) <= text.len(),
        forall|i: int| 0 <= i < run_length(text, class) ==> class(#[trigger] text[i]),
        run_length(text, class) < text.len() ==> !class(text[run_length(text, class) as int]),
    decreases text.len(),
{
    if text.len() > 0 && class(text[0]) {
        let tail = text.skip(1);
        run_length_is_maximal(tail, class);
        assert forall|i: int| 0 <= i < run_length(text, class) implies class(
            #[trigger] text[i],
        ) by {
            if i > 0 {
                assert(text[i] == tail[i - 1]);
            }
        }
        if run_length(text, class) < text.len() {
            assert(text[run_length(text, class) as int] == tail[run_length(tail, class) as int]);
        }
    }
}

/// The length of a run is the only `n` such that the first `n` characters
/// are of the class and the one after them, if any, is not.
pub proof fn run_length_is(text: Seq<char>, class: spec_fn(char) -> bool, n: int)
    requires
        0 <= n <= text.len(),
        forall|i: int| 0 <= i < n ==> class(#[trigger] text[i]),
        n < text.len() ==> !class(text[n]),
    ensures
        run_length(text, class) == n,
    decreases text.len(),
{
    if n > 0 {
        let tail = text.skip(1);
        assert(class(text[0]));
        assert forall|i: int| 0 <= i < n - 1 implies class(#[trigger] tail[i]) by {
            assert(tail[i] == text[i + 1]);
        }
        run_length_is(tail, class, n - 1);
    }
}

} // verus!
