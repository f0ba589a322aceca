use shunting_yard::token::{
    read_until_end_of_identifier, read_until_end_of_number, read_while, tokenize, FunctionKind,
    OperatorKind, Token, TokenKind, TokenizationError,
};
use std::collections::VecDeque;

fn lexed(text: &str) -> Vec<Token> {
    match tokenize(&text.to_string()) {
        Ok(tokens) => tokens.into_iter().collect(),
        Err(error) => panic!("{:?} has no tokens: {:?}", text, error),
    }
}

fn refused(text: &str) -> TokenizationError {
    match tokenize(&text.to_string()) {
        Ok(tokens) => panic!("{:?} has tokens: {:?}", text, tokens),
        Err(error) => error,
    }
}

fn number(text: &str) -> TokenKind {
    TokenKind::Number(text.to_string())
}

fn identifier(text: &str) -> TokenKind {
    TokenKind::Identifier(text.to_string())
}

fn expect(token: &Token, kind: TokenKind, value: &str, start: u32, end: u32) {
    assert_eq!(token.kind, kind);
    assert_eq!(token.value, value);
    assert_eq!(token.start, start);
    assert_eq!(token.end, end);
}

#[test]
fn empty_input_is_refused() {
    assert_eq!(refused(""), TokenizationError::Empty);
}

#[test]
fn non_ascii_input_is_refused() {
    assert_eq!(refused("3 + \u{e9}"), TokenizationError::NotAscii);
    assert_eq!(refused("\u{3c0}"), TokenizationError::NotAscii);
}

#[test]
fn non_ascii_is_found_before_any_other_fault() {
    assert_eq!(refused("& \u{e9}"), TokenizationError::NotAscii);
}

#[test]
fn unexpected_character_is_reported_at_its_offset() {
    assert_eq!(refused("3 & 4"), TokenizationError::UnexpectedChar(2));
    assert_eq!(refused("#"), TokenizationError::UnexpectedChar(0));
    assert_eq!(refused("12 + 3 ,"), TokenizationError::UnexpectedChar(7));
}

#[test]
fn only_the_space_is_passed_over() {
    assert_eq!(refused("3\t+ 4"), TokenizationError::UnexpectedChar(1));
    assert_eq!(refused("3 +\n4"), TokenizationError::UnexpectedChar(3));
}

#[test]
fn spaces_alone_give_no_token() {
    assert!(lexed("   ").is_empty());
}

#[test]
fn leading_minus_is_a_sign() {
    let tokens = lexed("-5 + 3");
    assert_eq!(tokens.len(), 3);
    expect(&tokens[0], number("-5"), "-5", 0, 2);
    expect(&tokens[1], TokenKind::Operator(OperatorKind::Plus), "+", 3, 4);
    expect(&tokens[2], number("3"), "3", 5, 6);
}

#[test]
fn minus_after_a_number_subtracts() {
    let tokens = lexed("3 - 5");
    assert_eq!(tokens.len(), 3);
    expect(&tokens[0], number("3"), "3", 0, 1);
    expect(&tokens[1], TokenKind::Operator(OperatorKind::Minus), "-", 2, 3);
    expect(&tokens[2], number("5"), "5", 4, 5);
}

#[test]
fn minus_after_a_closing_parenthesis_subtracts() {
    let tokens = lexed("(1)-2");
    assert_eq!(tokens.len(), 5);
    expect(&tokens[3], TokenKind::Operator(OperatorKind::Minus), "-", 3, 4);
    expect(&tokens[4], number("2"), "2", 4, 5);
}

#[test]
fn minus_after_anything_else_is_a_sign() {
    let tokens = lexed("2*-3");
    assert_eq!(tokens.len(), 3);
    expect(&tokens[2], number("-3"), "-3", 2, 4);
    let tokens = lexed("(-3)");
    expect(&tokens[1], number("-3"), "-3", 1, 3);
    let tokens = lexed("x -1");
    assert_eq!(tokens.len(), 2);
    expect(&tokens[1], number("-1"), "-1", 2, 4);
    let tokens = lexed("1 - -1");
    assert_eq!(tokens.len(), 3);
    expect(&tokens[1], TokenKind::Operator(OperatorKind::Minus), "-", 2, 3);
    expect(&tokens[2], number("-1"), "-1", 4, 6);
}

#[test]
fn a_sign_needs_a_digit() {
    assert_eq!(refused("-"), TokenizationError::UnexpectedChar(0));
    assert_eq!(refused("3 + - 4"), TokenizationError::UnexpectedChar(4));
    assert_eq!(refused("x - 1"), TokenizationError::UnexpectedChar(2));
    assert_eq!(refused("-."), TokenizationError::UnexpectedChar(0));
}

#[test]
fn a_numeral_has_at_most_one_point() {
    assert_eq!(refused("1.2.3"), TokenizationError::UnexpectedChar(0));
    assert_eq!(refused("4 + 1..2"), TokenizationError::UnexpectedChar(4));
    assert_eq!(refused("-1.5."), TokenizationError::UnexpectedChar(0));
}

#[test]
fn a_point_may_end_or_follow_the_sign_of_a_numeral() {
    let tokens = lexed("5. 0.25");
    assert_eq!(tokens.len(), 2);
    expect(&tokens[0], number("5."), "5.", 0, 2);
    expect(&tokens[1], number("0.25"), "0.25", 3, 7);
    let tokens = lexed("-.5 * -5.");
    assert_eq!(tokens.len(), 3);
    expect(&tokens[0], number("-.5"), "-.5", 0, 3);
    expect(&tokens[2], number("-5."), "-5.", 6, 9);
}

#[test]
fn a_point_cannot_start_a_token() {
    assert_eq!(refused(".5"), TokenizationError::UnexpectedChar(0));
    assert_eq!(refused("1 + .5"), TokenizationError::UnexpectedChar(4));
}

#[test]
fn numerals_take_the_longest_run() {
    let tokens = lexed("123.456+7");
    assert_eq!(tokens.len(), 3);
    expect(&tokens[0], number("123.456"), "123.456", 0, 7);
    expect(&tokens[2], number("7"), "7", 8, 9);
}

#[test]
fn every_operator_and_parenthesis_is_a_token() {
    let tokens = lexed("(+1-*/^)");
    assert_eq!(tokens.len(), 8);
    expect(&tokens[0], TokenKind::LeftParenthesis, "(", 0, 1);
    expect(&tokens[1], TokenKind::Operator(OperatorKind::Plus), "+", 1, 2);
    expect(&tokens[2], number("1"), "1", 2, 3);
    expect(&tokens[3], TokenKind::Operator(OperatorKind::Minus), "-", 3, 4);
    expect(&tokens[4], TokenKind::Operator(OperatorKind::Multiply), "*", 4, 5);
    expect(&tokens[5], TokenKind::Operator(OperatorKind::Divide), "/", 5, 6);
    expect(&tokens[6], TokenKind::Operator(OperatorKind::Exponent), "^", 6, 7);
    expect(&tokens[7], TokenKind::RightParenthesis, ")", 7, 8);
}

#[test]
fn a_lone_minus_between_operators_is_refused() {
    assert_eq!(refused("(+-*/^)"), TokenizationError::UnexpectedChar(2));
}

#[test]
fn words_are_functions_or_identifiers() {
    let tokens = lexed("sin x cosh tanh ln foo");
    assert_eq!(tokens.len(), 6);
    expect(&tokens[0], TokenKind::Function(FunctionKind::Sin), "sin", 0, 3);
    expect(&tokens[1], identifier("x"), "x", 4, 5);
    expect(&tokens[2], TokenKind::Function(FunctionKind::Cosh), "cosh", 6, 10);
    expect(&tokens[3], TokenKind::Function(FunctionKind::Tanh), "tanh", 11, 15);
    expect(&tokens[4], TokenKind::Function(FunctionKind::Ln), "ln", 16, 18);
    expect(&tokens[5], identifier("foo"), "foo", 19, 22);
}

#[test]
fn words_take_the_longest_run_of_letters() {
    let tokens = lexed("sinx");
    assert_eq!(tokens.len(), 1);
    expect(&tokens[0], identifier("sinx"), "sinx", 0, 4);
    let tokens = lexed("sin2");
    assert_eq!(tokens.len(), 2);
    expect(&tokens[0], TokenKind::Function(FunctionKind::Sin), "sin", 0, 3);
    expect(&tokens[1], number("2"), "2", 3, 4);
}

#[test]
fn only_the_first_letter_is_put_in_lower_case() {
    let tokens = lexed("Sin SIN sIn X");
    assert_eq!(tokens.len(), 4);
    expect(&tokens[0], TokenKind::Function(FunctionKind::Sin), "sin", 0, 3);
    expect(&tokens[1], identifier("sIN"), "sIN", 4, 7);
    expect(&tokens[2], identifier("sIn"), "sIn", 8, 11);
    expect(&tokens[3], identifier("x"), "x", 12, 13);
}

#[test]
fn an_underscore_cannot_be_read() {
    assert_eq!(refused("log_2(8)"), TokenizationError::UnexpectedChar(3));
    assert_eq!(refused("log_10"), TokenizationError::UnexpectedChar(3));
}

#[test]
fn tokens_and_spaces_tile_the_input() {
    let text = "  sin( -12.5 )*x ^ 2 ";
    let tokens = lexed(text);
    let length = text.chars().count() as u32;
    let mut owner: Vec<Option<usize>> = vec![None; length as usize];
    for (index, token) in tokens.iter().enumerate() {
        assert!(token.start < token.end);
        assert!(token.end <= length);
        for offset in token.start..token.end {
            assert_eq!(owner[offset as usize], None);
            owner[offset as usize] = Some(index);
        }
    }
    for (offset, c) in text.chars().enumerate() {
        assert_eq!(owner[offset].is_none(), c == ' ');
    }
    for pair in tokens.windows(2) {
        assert!(pair[0].end <= pair[1].start);
    }
    let starts: Vec<u32> = tokens.iter().map(|token| token.start).collect();
    assert_eq!(starts, vec![2, 5, 7, 13, 14, 15, 17, 19]);
}

#[test]
fn token_text_is_the_text_in_its_range() {
    let text = "cos(3.5)-x";
    let characters: Vec<char> = text.chars().collect();
    for token in lexed(text) {
        let range: String = characters[token.start as usize..token.end as usize].iter().collect();
        assert_eq!(token.value, range);
    }
}

#[test]
fn read_while_stops_at_the_first_refusal() {
    let mut chars: VecDeque<char> = "aab1a".chars().collect();
    let mut column: u32 = 10;
    let taken = read_while(|c: &char| *c == 'a', &mut chars, &mut column);
    assert_eq!(taken, "aa");
    assert_eq!(column, 12);
    assert_eq!(chars.iter().collect::<String>(), "b1a");
}

#[test]
fn read_while_may_take_nothing_or_everything() {
    let mut chars: VecDeque<char> = "xyz".chars().collect();
    let mut column: u32 = 0;
    assert_eq!(read_while(|_c: &char| false, &mut chars, &mut column), "");
    assert_eq!(column, 0);
    assert_eq!(chars.len(), 3);
    assert_eq!(read_while(|_c: &char| true, &mut chars, &mut column), "xyz");
    assert_eq!(column, 3);
    assert!(chars.is_empty());
    assert_eq!(read_while(|_c: &char| true, &mut chars, &mut column), "");
    assert_eq!(column, 3);
}

#[test]
fn read_until_end_of_number_takes_digits_and_points() {
    let mut chars: VecDeque<char> = "12.5.+3".chars().collect();
    let mut column: u32 = 4;
    assert_eq!(read_until_end_of_number(&mut chars, &mut column), "12.5.");
    assert_eq!(column, 9);
    assert_eq!(chars.iter().collect::<String>(), "+3");
}

#[test]
fn read_until_end_of_identifier_takes_letters() {
    let mut chars: VecDeque<char> = "abZ_9".chars().collect();
    let mut column: u32 = 0;
    assert_eq!(read_until_end_of_identifier(&mut chars, &mut column), "abZ");
    assert_eq!(column, 3);
    assert_eq!(chars.iter().collect::<String>(), "_9");
}
