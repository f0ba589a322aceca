//! The token model: what a token is, which operators and functions exist,
//! and how operators rank against each other.

use std::collections::VecDeque;
use vstd::prelude::*;
use vstd::string::StringExecFns;
use crate::coverage::{
    refusal_points_into_input, spelled, tiles, tokens_are_well_formed, tokens_tile_input,
};
use crate::lexing::{
    digits, ends_operand, followed_by, in_numeral, is_digit, is_letter, is_numeral, letter_run,
    lex, lex_from, lowered, number, numeral_run, points, run_length_is, symbol, word,
};

verus! {

/// Why a text could not be split into tokens.
#[derive(Debug, Clone, Copy, PartialEq, Eq, Structural)]
pub enum TokenizationError {
    /// The text holds a character outside ASCII.
    NotAscii,
    /// The text has no characters at all.
    Empty,
    /// No token can start at this offset.
    UnexpectedChar(u32),
}

/// The binary operators of the expression language.
#[derive(Debug, Clone, Copy, PartialEq, Eq, Structural)]
pub enum OperatorKind {
    Plus,
    Minus,
    Multiply,
    Divide,
    Exponent,
}

/// How a chain of operators of equal precedence groups.
#[derive(Debug, Clone, Copy, PartialEq, Eq, Structural)]
pub enum OperatorAssociativity {
    Left,
    Right,
}

/// The functions that an identifier can name.
#[derive(Debug, Clone, Copy, PartialEq, Eq, Structural)]
pub enum FunctionKind {
    Sin,
    Cos,
    Tan,
    Sinh,
    Cosh,
    Tanh,
    Ln,
    Log2,
    Log10,
}

/// What a token stands for.
///
/// A `Number` carries its numeral as written (sign, digits and decimal
/// point); turning the numeral into a machine number is left to the caller.
#[derive(Debug, PartialEq)]
pub enum TokenKind {
    Number(String),
    Identifier(String),
    Function(FunctionKind),
    Operator(OperatorKind),
    LeftParenthesis,
    RightParenthesis,
}

/// One token of an expression, with the half-open range `[start, end)` of
/// character offsets that it was read from.
#[derive(Debug)]
pub struct Token {
    pub value: String,
    pub kind: TokenKind,
    pub start: u32,
    pub end: u32,
}

/// The mathematical content of a [`TokenKind`].
pub enum KindView {
    Number(Seq<char>),
    Identifier(Seq<char>),
    Function(FunctionKind),
    Operator(OperatorKind),
    LeftParenthesis,
    RightParenthesis,
}

/// The mathematical content of a [`Token`].
pub struct TokenView {
    pub value: Seq<char>,
    pub kind: KindView,
    pub start: int,
    pub end: int,
}

impl View for TokenKind {
    type V = KindView;

    open spec fn view(&self) -> KindView {
        match self {
            TokenKind::Number(numeral) => KindView::Number(numeral@),
            TokenKind::Identifier(name) => KindView::Identifier(name@),
            TokenKind::Function(function) => KindView::Function(*function),
            TokenKind::Operator(operator) => KindView::Operator(*operator),
            TokenKind::LeftParenthesis => KindView::LeftParenthesis,
            TokenKind::RightParenthesis => KindView::RightParenthesis,
        }
    }
}

impl View for Token {
    type V = TokenView;

    open spec fn view(&self) -> TokenView {
        TokenView {
            value: self.value@,
            kind: self.kind@,
            start: self.start as int,
            end: self.end as int,
        }
    }
}

/// The views of a sequence of tokens, in the same order.
pub open spec fn views(tokens: Seq<Token>) -> Seq<TokenView> {
    tokens.map_values(|token: Token| token@)
}

impl TokenView {
    /// Whether the token is one that a text can hold: its range is not
    /// empty and as long as its text, and a number or an identifier is
    /// what its text says.
    pub open spec fn well_formed(self) -> bool {
        &&& 0 <= self.start < self.end
        &&& self.value.len() == self.end - self.start
        &&& match self.kind {
            KindView::Number(numeral) => numeral == self.value,
            KindView::Identifier(name) => name == self.value,
            _ => true,
        }
    }
}

impl KindView {
    /// Whether this is one of the two parentheses.
    pub open spec fn is_parenthesis(self) -> bool {
        self is LeftParenthesis || self is RightParenthesis
    }

    /// Whether a value ends here: a number or a closing parenthesis. A `-`
    /// that follows such a token subtracts; any other `-` is a sign.
    pub open spec fn ends_operand(self) -> bool {
        self is Number || self is RightParenthesis
    }
}

impl OperatorKind {
    /// The operator that the character `c` denotes, if any.
    pub open spec fn of_char(c: char) -> Option<OperatorKind> {
        if c == '+' {
            Some(OperatorKind::Plus)
        } else if c == '-' {
            Some(OperatorKind::Minus)
        } else if c == '*' {
            Some(OperatorKind::Multiply)
        } else if c == '/' {
            Some(OperatorKind::Divide)
        } else if c == '^' {
            Some(OperatorKind::Exponent)
        } else {
            None
        }
    }

    /// Exponentiation groups to the right, every other operator to the left.
    pub open spec fn spec_associativity(self) -> OperatorAssociativity {
        if self == OperatorKind::Exponent {
            OperatorAssociativity::Right
        } else {
            OperatorAssociativity::Left
        }
    }

    /// Additive operators rank 0, multiplicative ones 1, exponentiation 2.
    pub open spec fn rank(self) -> u32 {
        match self {
            OperatorKind::Plus | OperatorKind::Minus => 0,
            OperatorKind::Multiply | OperatorKind::Divide => 1,
            OperatorKind::Exponent => 2,
        }
    }

    /// Classifies a character as an operator symbol.
    pub fn from_char(char: char) -> (result: Option<OperatorKind>)
        ensures
            result == Self::of_char(char),
    {
        match char {
            '+' => Some(OperatorKind::Plus),
            '-' => Some(OperatorKind::Minus),
            '*' => Some(OperatorKind::Multiply),
            '/' => Some(OperatorKind::Divide),
            '^' => Some(OperatorKind::Exponent),
            _ => None,
        }
    }

    /// How a chain of this operator groups.
    pub fn associativity(&self) -> (result: OperatorAssociativity)
        ensures
            result == self.spec_associativity(),
    {
        match self {
            OperatorKind::Exponent => OperatorAssociativity::Right,
            _ => OperatorAssociativity::Left,
        }
    }
}

/// Values that have a place in the precedence order.
pub trait Precedent {
    /// Whether a precedence is defined for this value.
    spec fn has_precedence(&self) -> bool;

    /// The precedence of this value, where one is defined.
    spec fn spec_precedence(&self) -> u32;

    /// The precedence of this value. A higher precedence binds tighter.
    fn precedence(&self) -> (result: u32)
        requires
            self.has_precedence(),
        ensures
            result == self.spec_precedence(),
    ;
}

impl Precedent for OperatorKind {
    open spec fn has_precedence(&self) -> bool {
        true
    }

    open spec fn spec_precedence(&self) -> u32 {
        self.rank()
    }

    fn precedence(&self) -> (result: u32) {
        match self {
            OperatorKind::Plus => 0,
            OperatorKind::Minus => 0,
            OperatorKind::Multiply => 1,
            OperatorKind::Divide => 1,
            OperatorKind::Exponent => 2,
        }
    }
}

impl Precedent for Token {
    /// Only operators and parentheses have a precedence.
    open spec fn has_precedence(&self) -> bool {
        self@.kind is Operator || self@.kind.is_parenthesis()
    }

    /// An operator has its own rank. A parenthesis has 0, which only marks
    /// the place where a scan of the operator stack stops.
    open spec fn spec_precedence(&self) -> u32 {
        match self@.kind {
            KindView::Operator(operator) => operator.rank(),
            _ => 0,
        }
    }

    fn precedence(&self) -> (result: u32) {
        match &self.kind {
            TokenKind::LeftParenthesis => 0,
            TokenKind::RightParenthesis => 0,
            TokenKind::Operator(operator) => operator.precedence(),
            _ => {
                proof {
                    assert(false);
                }
                0
            },
        }
    }
}

impl FunctionKind {
    /// The name by which an expression calls this function.
    pub open spec fn name(self) -> Seq<char> {
        match self {
            FunctionKind::Sin => "sin"@,
            FunctionKind::Cos => "cos"@,
            FunctionKind::Tan => "tan"@,
            FunctionKind::Sinh => "sinh"@,
            FunctionKind::Cosh => "cosh"@,
            FunctionKind::Tanh => "tanh"@,
            FunctionKind::Ln => "ln"@,
            FunctionKind::Log2 => "log_2"@,
            FunctionKind::Log10 => "log_10"@,
        }
    }

    /// The function called `text`, if there is one. The match is exact:
    /// no other spelling or letter case names a function.
    pub open spec fn named(text: Seq<char>) -> Option<FunctionKind> {
        if text == FunctionKind::Sin.name() {
            Some(FunctionKind::Sin)
        } else if text == FunctionKind::Cos.name() {
            Some(FunctionKind::Cos)
        } else if text == FunctionKind::Tan.name() {
            Some(FunctionKind::Tan)
        } else if text == FunctionKind::Sinh.name() {
            Some(FunctionKind::Sinh)
        } else if text == FunctionKind::Cosh.name() {
            Some(FunctionKind::Cosh)
        } else if text == FunctionKind::Tanh.name() {
            Some(FunctionKind::Tanh)
        } else if text == FunctionKind::Ln.name() {
            Some(FunctionKind::Ln)
        } else if text == FunctionKind::Log2.name() {
            Some(FunctionKind::Log2)
        } else if text == FunctionKind::Log10.name() {
            Some(FunctionKind::Log10)
        } else {
            None
        }
    }

    /// No two functions share a name: the function called by the name of
    /// `self` is `self`.
    pub proof fn name_is_its_own(self)
        ensures
            Self::named(self.name()) == Some(self),
    {
        reveal_strlit("sin");
        reveal_strlit("cos");
        reveal_strlit("tan");
        reveal_strlit("sinh");
        reveal_strlit("cosh");
        reveal_strlit("tanh");
        reveal_strlit("ln");
        reveal_strlit("log_2");
        reveal_strlit("log_10");
        assert("sin"@.len() == 3 && "cos"@.len() == 3 && "tan"@.len() == 3);
        assert("sinh"@.len() == 4 && "cosh"@.len() == 4 && "tanh"@.len() == 4);
        assert("ln"@.len() == 2 && "log_2"@.len() == 5 && "log_10"@.len() == 6);
        assert("sin"@[0] != "cos"@[0]);
        assert("sin"@[0] != "tan"@[0]);
        assert("cos"@[0] != "tan"@[0]);
        assert("sinh"@[0] != "cosh"@[0]);
        assert("sinh"@[0] != "tanh"@[0]);
        assert("cosh"@[0] != "tanh"@[0]);
    }

    /// Looks an identifier up in the table of function names.
    pub fn from_string(string: String) -> (result: Option<FunctionKind>)
        ensures
            result == Self::named(string@),
    {
        if reads_as(&string, "sin") {
            Some(FunctionKind::Sin)
        } else if reads_as(&string, "cos") {
            Some(FunctionKind::Cos)
        } else if reads_as(&string, "tan") {
            Some(FunctionKind::Tan)
        } else if reads_as(&string, "sinh") {
            Some(FunctionKind::Sinh)
        } else if reads_as(&string, "cosh") {
            Some(FunctionKind::Cosh)
        } else if reads_as(&string, "tanh") {
            Some(FunctionKind::Tanh)
        } else if reads_as(&string, "ln") {
            Some(FunctionKind::Ln)
        } else if reads_as(&string, "log_2") {
            Some(FunctionKind::Log2)
        } else if reads_as(&string, "log_10") {
            Some(FunctionKind::Log10)
        } else {
            None
        }
    }

    /// The name of this function.
    pub fn to_string(&self) -> (result: String)
        ensures
            result@ == self.name(),
    {
        let string = match self {
            FunctionKind::Sin => "sin",
            FunctionKind::Cos => "cos",
            FunctionKind::Tan => "tan",
            FunctionKind::Sinh => "sinh",
            FunctionKind::Cosh => "cosh",
            FunctionKind::Tanh => "tanh",
            FunctionKind::Ln => "ln",
            FunctionKind::Log2 => "log_2",
            FunctionKind::Log10 => "log_10",
        };
        String::from_str(string)
    }
}

/// Whether `string` reads exactly as `word`.
fn reads_as(string: &String, word: &str) -> (result: bool)
    ensures
        result == (string@ == word@),
{
    let other = String::from_str(word);
    *string == other
}

impl Token {
    /// The text of the token as it goes into a rendering.
    pub fn to_string(&self) -> (result: String)
        ensures
            result@ == self@.value,
    {
        self.value.clone()
    }
}

/// Appends one character to a string with `String::push`, which puts the
/// character behind those that the string already holds.
#[verifier::external_body]
pub(crate) fn push_char(text: &mut String, c: char)
    ensures
        final(text)@ == old(text)@.push(c),
{
    text.push(c)
}

fn is_ascii_alphabetic(c: char) -> (result: bool)
    ensures
        result == is_letter(c),
{
    ('a' <= c && c <= 'z') || ('A' <= c && c <= 'Z')
}

fn is_ascii_digit(c: char) -> (result: bool)
    ensures
        result == is_digit(c),
{
    '0' <= c && c <= '9'
}

fn to_ascii_lowercase(c: char) -> (result: char)
    ensures
        result == lowered(c),
{
    if 'A' <= c && c <= 'Z' {
        ((c as u8) + 32) as char
    } else {
        c
    }
}

/// Whether a numeral goes on with `c`.
fn continues_number(c: &char) -> (result: bool)
    ensures
        result == in_numeral(*c),
{
    is_ascii_digit(*c) || *c == '.'
}

/// Whether a word goes on with `c`.
fn continues_identifier(c: &char) -> (result: bool)
    ensures
        result == is_letter(*c),
{
    is_ascii_alphabetic(*c)
}

/// Takes characters off the front of `chars` for as long as `predicate`
/// accepts them, and advances `col_number` by one for each.
pub fn read_while<F: Fn(&char) -> bool>(
    predicate: F,
    chars: &mut VecDeque<char>,
    col_number: &mut u32,
) -> (res: String)
    requires
        forall|i: int|
            0 <= i < old(chars)@.len() ==> call_requires(predicate, (&#[trigger] old(chars)@[i],)),
        *old(col_number) + old(chars)@.len() <= u32::MAX,
    ensures
        res@.len() <= old(chars)@.len(),
        res@ == old(chars)@.take(res@.len() as int),
        final(chars)@ == old(chars)@.skip(res@.len() as int),
        *final(col_number) == *old(col_number) + res@.len(),
        forall|i: int|
            0 <= i < res@.len() ==> call_ensures(predicate, (&#[trigger] res@[i],), true),
        final(chars)@.len() > 0 ==> call_ensures(predicate, (&final(chars)@[0],), false),
{
    let mut res = String::new();
    while chars.len() > 0
        invariant
            forall|i: int|
                0 <= i < old(chars)@.len() ==> call_requires(
                    predicate,
                    (&#[trigger] old(chars)@[i],),
                ),
            *old(col_number) + old(chars)@.len() <= u32::MAX,
            res@.len() <= old(chars)@.len(),
            res@ == old(chars)@.take(res@.len() as int),
            chars@ == old(chars)@.skip(res@.len() as int),
            *col_number == *old(col_number) + res@.len(),
            forall|i: int|
                0 <= i < res@.len() ==> call_ensures(predicate, (&#[trigger] res@[i],), true),
        ensures
            res@.len() <= old(chars)@.len(),
            res@ == old(chars)@.take(res@.len() as int),
            chars@ == old(chars)@.skip(res@.len() as int),
            *col_number == *old(col_number) + res@.len(),
            forall|i: int|
                0 <= i < res@.len() ==> call_ensures(predicate, (&#[trigger] res@[i],), true),
            chars@.len() > 0 ==> call_ensures(predicate, (&chars@[0],), false),
        decreases chars@.len(),
    {
        let peek = &chars[0];
        assert(*peek == old(chars)@[res@.len() as int]);
        if predicate(peek) {
            let c = chars.pop_front().unwrap();
            push_char(&mut res, c);
            *col_number += 1;
        } else {
            break ;
        }
    }
    res
}

/// Takes the digits and points at the front of `chars`.
pub fn read_until_end_of_number(chars: &mut VecDeque<char>, col_number: &mut u32) -> (res: String)
    requires
        *old(col_number) + old(chars)@.len() <= u32::MAX,
    ensures
        res@.len() == numeral_run(old(chars)@) <= old(chars)@.len(),
        res@ == old(chars)@.take(res@.len() as int),
        final(chars)@ == old(chars)@.skip(res@.len() as int),
        *final(col_number) == *old(col_number) + res@.len(),
{
    let res = read_while(
        continues_number,
        chars,
        col_number,
    );
    proof {
        let text = old(chars)@;
        assert forall|i: int| 0 <= i < res@.len() implies in_numeral(#[trigger] text[i]) by {
            assert(text[i] == res@[i]);
        }
        if res@.len() < text.len() {
            assert(text[res@.len() as int] == chars@[0]);
        }
        run_length_is(text, |c: char| in_numeral(c), res@.len() as int);
    }
    res
}

/// Takes the letters at the front of `chars`.
pub fn read_until_end_of_identifier(chars: &mut VecDeque<char>, col_number: &mut u32) -> (res:
    String)
    requires
        *old(col_number) + old(chars)@.len() <= u32::MAX,
    ensures
        res@.len() == letter_run(old(chars)@) <= old(chars)@.len(),
        res@ == old(chars)@.take(res@.len() as int),
        final(chars)@ == old(chars)@.skip(res@.len() as int),
        *final(col_number) == *old(col_number) + res@.len(),
{
    let res = read_while(
        continues_identifier,
        chars,
        col_number,
    );
    proof {
        let text = old(chars)@;
        assert forall|i: int| 0 <= i < res@.len() implies is_letter(#[trigger] text[i]) by {
            assert(text[i] == res@[i]);
        }
        if res@.len() < text.len() {
            assert(text[res@.len() as int] == chars@[0]);
        }
        run_length_is(text, |c: char| is_letter(c), res@.len() as int);
    }
    res
}

/// The characters of `text`, in a queue that is read from the front.
fn collect_chars(text: &str) -> (chars: VecDeque<char>)
    ensures
        chars@ == text@,
{
    let mut chars: VecDeque<char> = VecDeque::new();
    for c in it: text.chars()
        invariant
            chars@ == it.seq().take(it.index()),
    {
        chars.push_back(c);
    }
    chars
}

/// `first` with `rest` behind it.
fn prefixed(first: char, rest: &String) -> (text: String)
    ensures
        text@ == seq![first] + rest@,
{
    let mut text = String::new();
    push_char(&mut text, first);
    text.append(rest.as_str());
    assert(text@ =~= seq![first] + rest@);
    text
}

/// Whether a run of sign, digits and points is a numeral.
fn is_numeral_text(text: &String) -> (result: bool)
    ensures
        result == is_numeral(text@),
{
    let mut has_digit = false;
    let mut has_point = false;
    let mut has_second_point = false;
    for c in it: text.as_str().chars()
        invariant
            it.seq() == text@,
            has_digit == (digits(text@.take(it.index())) >= 1),
            has_point == (points(text@.take(it.index())) >= 1),
            has_second_point == (points(text@.take(it.index())) >= 2),
    {
        proof {
            let read = text@.take(it.index() + 1);
            assert(read.drop_last() == text@.take(it.index()));
            assert(read.last() == c);
        }
        if is_ascii_digit(c) {
            has_digit = true;
        }
        if c == '.' {
            if has_point {
                has_second_point = true;
            }
            has_point = true;
        }
    }
    assert(text@.take(text@.len() as int) == text@);
    has_digit && !has_second_point
}

/// The token for a word that ends before `end`.
fn word_token(text: String, start: u32, end: u32) -> (token: Token)
    requires
        end == start + text@.len(),
    ensures
        token@ == word(text@, start as int),
{
    let kind = match FunctionKind::from_string(text.clone()) {
        Some(function) => TokenKind::Function(function),
        None => TokenKind::Identifier(text.clone()),
    };
    Token { value: text, kind, start, end }
}

/// The token for a numeral that ends before `end`.
fn number_token(text: String, start: u32, end: u32) -> (token: Token)
    requires
        end == start + text@.len(),
    ensures
        token@ == number(text@, start as int),
{
    Token { kind: TokenKind::Number(text.clone()), value: text, start, end }
}

/// The token of the given kind for the one character `c`.
fn symbol_token(c: char, kind: TokenKind, start: u32, end: u32) -> (token: Token)
    requires
        end == start + 1,
    ensures
        token@ == symbol(c, kind@, start as int),
{
    let mut value = String::new();
    push_char(&mut value, c);
    assert(value@ =~= seq![c]);
    Token { value, kind, start, end }
}

/// Whether the last of `tokens` ends a value.
fn follows_operand(tokens: &VecDeque<Token>) -> (result: bool)
    ensures
        result == ends_operand(views(tokens@)),
{
    if tokens.len() == 0 {
        false
    } else {
        match &tokens[tokens.len() - 1].kind {
            TokenKind::Number(_) => true,
            TokenKind::RightParenthesis => true,
            _ => false,
        }
    }
}

/// Appending a token appends its view.
proof fn views_push(tokens: Seq<Token>, token: Token)
    ensures
        views(tokens.push(token)) == views(tokens).push(token@),
{
    assert(views(tokens.push(token)) =~= views(tokens).push(token@));
}

/// Splits a text into its tokens.
///
/// An empty text is refused as `Empty`, a text with a character outside
/// ASCII as `NotAscii`, and a text in which, read from the left, no token
/// can start at some offset that holds no space, as `UnexpectedChar` with
/// the first such offset.
///
/// The offsets of the tokens count characters of `input` from 0, spaces
/// included. A text of more than `u32::MAX` characters has offsets that no
/// token can record.
pub fn tokenize(input: &String) -> (result: Result<VecDeque<Token>, TokenizationError>)
    requires
        input@.len() <= u32::MAX,
    ensures
        match result {
            Ok(tokens) => lex(input@) == Ok::<Seq<TokenView>, TokenizationError>(views(tokens@)),
            Err(error) => lex(input@) == Err::<Seq<TokenView>, TokenizationError>(error),
        },
        result matches Ok(tokens) ==> {
            &&& tiles(views(tokens@), input@, 0)
            &&& spelled(views(tokens@), input@, 0)
            &&& forall|i: int| 0 <= i < tokens@.len() ==> (#[trigger] tokens@[i])@.well_formed()
        },
        result matches Err(TokenizationError::UnexpectedChar(at)) ==> at < input@.len()
            && input@[at as int] != ' ',
{
    let text = input.as_str();
    if text.is_empty() {
        return Err(TokenizationError::Empty);
    }
    if !text.is_ascii() {
        return Err(TokenizationError::NotAscii);
    }
    let mut chars = collect_chars(text);
    let mut tokens: VecDeque<Token> = VecDeque::new();
    let mut col_number: u32 = 0;
    assert(views(tokens@) + lex_from(chars@, 0, false)->Ok_0 =~= lex_from(chars@, 0, false)->Ok_0);
    while chars.len() > 0
        invariant
            input@.len() <= u32::MAX,
            col_number + chars@.len() <= u32::MAX,
            lex(input@) == followed_by(
                views(tokens@),
                lex_from(chars@, col_number as int, ends_operand(views(tokens@))),
            ),
        decreases chars@.len(),
    {
        let ghost unread = chars@;
        let ghost read = views(tokens@);
        let token_start = col_number;
        col_number += 1;
        let char = to_ascii_lowercase(chars.pop_front().unwrap());
        let token = if is_ascii_alphabetic(char) {
            let rest = read_until_end_of_identifier(&mut chars, &mut col_number);
            word_token(prefixed(char, &rest), token_start, col_number)
        } else if is_ascii_digit(char) || (char == '-' && !follows_operand(&tokens)) {
            let rest = read_until_end_of_number(&mut chars, &mut col_number);
            let numeral = prefixed(char, &rest);
            if !is_numeral_text(&numeral) {
                proof {
                    refusal_points_into_input(input@);
                }
                return Err(TokenizationError::UnexpectedChar(token_start));
            }
            number_token(numeral, token_start, col_number)
        } else if let Some(operator) = OperatorKind::from_char(char) {
            symbol_token(char, TokenKind::Operator(operator), token_start, col_number)
        } else if char == '(' {
            symbol_token(char, TokenKind::LeftParenthesis, token_start, col_number)
        } else if char == ')' {
            symbol_token(char, TokenKind::RightParenthesis, token_start, col_number)
        } else if char == ' ' {
            continue ;
        } else {
            proof {
                refusal_points_into_input(input@);
            }
            return Err(TokenizationError::UnexpectedChar(token_start));
        };
        proof {
            let rest = lex_from(chars@, col_number as int, token@.kind.ends_operand());
            assert(lex_from(unread, token_start as int, ends_operand(read)) == followed_by(
                seq![token@],
                rest,
            ));
            views_push(tokens@, token);
            if rest is Ok {
                assert(read + (seq![token@] + rest->Ok_0) =~= read.push(token@) + rest->Ok_0);
            }
        }
        tokens.push_back(token);
    }
    proof {
        assert(views(tokens@) + Seq::<TokenView>::empty() =~= views(tokens@));
        tokens_tile_input(input@);
        tokens_are_well_formed(input@);
        assert forall|i: int| 0 <= i < tokens@.len() implies (
        #[trigger] tokens@[i])@.well_formed() by {
            assert(views(tokens@)[i] == tokens@[i]@);
        }
    }
    Ok(tokens)
}

} // verus!
