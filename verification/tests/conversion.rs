use shunting_yard::parse::{render, to_rpn, to_rpn_sequence, ParsingError};
use shunting_yard::token::{tokenize, Token, TokenKind};
use std::collections::VecDeque;

fn tokens_of(text: &str) -> VecDeque<Token> {
    match tokenize(&text.to_string()) {
        Ok(tokens) => tokens,
        Err(error) => panic!("{:?} has no tokens: {:?}", text, error),
    }
}

fn rpn_of(text: &str) -> String {
    let mut tokens = tokens_of(text);
    match to_rpn(&mut tokens) {
        Ok(rendered) => {
            assert!(tokens.is_empty());
            rendered
        }
        Err(error) => panic!("{:?} does not convert: {:?}", text, error),
    }
}

fn unbalanced_at(text: &str) -> Token {
    let mut tokens = tokens_of(text);
    match to_rpn(&mut tokens) {
        Ok(rendered) => panic!("{:?} converts to {:?}", text, rendered),
        Err(ParsingError::UnbalancedParens(token)) => token,
    }
}

#[test]
fn addition() {
    assert_eq!(rpn_of("3 + 4"), "3 4 +");
}

#[test]
fn multiplication_binds_tighter_than_addition() {
    assert_eq!(rpn_of("3 + 4 * 2"), "3 4 2 * +");
    assert_eq!(rpn_of("3 * 4 + 2"), "3 4 * 2 +");
}

#[test]
fn parentheses_force_grouping() {
    assert_eq!(rpn_of("( 3 + 4 ) * 2"), "3 4 + 2 *");
}

#[test]
fn exponent_groups_to_the_right() {
    assert_eq!(rpn_of("2 ^ 3 ^ 2"), "2 3 2 ^ ^");
}

#[test]
fn other_operators_group_to_the_left() {
    assert_eq!(rpn_of("1 - 2 - 3"), "1 2 - 3 -");
    assert_eq!(rpn_of("8 / 4 / 2"), "8 4 / 2 /");
    assert_eq!(rpn_of("8 / 4 * 2"), "8 4 / 2 *");
    assert_eq!(rpn_of("1 + 2 - 3"), "1 2 + 3 -");
}

#[test]
fn exponent_binds_tighter_than_multiplication() {
    assert_eq!(rpn_of("2 * 3 ^ 4"), "2 3 4 ^ *");
    assert_eq!(rpn_of("2 ^ 3 * 4"), "2 3 ^ 4 *");
}

#[test]
fn function_follows_its_argument_group() {
    assert_eq!(rpn_of("sin ( 0 )"), "0 sin");
    assert_eq!(rpn_of("sin(cos(1) + 2) * 3"), "1 cos 2 + sin 3 *");
}

#[test]
fn identifiers_go_straight_to_the_output() {
    assert_eq!(rpn_of("x * (y + 2)"), "x y 2 + *");
}

#[test]
fn negative_numbers_keep_their_sign_in_the_rendering() {
    assert_eq!(rpn_of("-5 + 3"), "-5 3 +");
    assert_eq!(rpn_of("2 * -3.5"), "2 -3.5 *");
    assert_eq!(rpn_of("(1 + 2) - 3"), "1 2 + 3 -");
}

#[test]
fn a_single_operand_is_its_own_notation() {
    assert_eq!(rpn_of("42"), "42");
    assert_eq!(rpn_of("((42))"), "42");
}

#[test]
fn malformed_arity_is_still_reordered() {
    assert_eq!(rpn_of("1 2 +"), "1 2 +");
    assert_eq!(rpn_of("+"), "+");
    assert_eq!(rpn_of("()"), "");
}

#[test]
fn closing_parenthesis_alone_is_unbalanced() {
    let token = unbalanced_at(")");
    assert_eq!(token.kind, TokenKind::RightParenthesis);
    assert_eq!(token.start, 0);
    assert_eq!(token.end, 1);
}

#[test]
fn unclosed_parenthesis_is_unbalanced() {
    let token = unbalanced_at("(1");
    assert_eq!(token.kind, TokenKind::LeftParenthesis);
    assert_eq!(token.start, 0);
}

#[test]
fn the_innermost_unclosed_parenthesis_is_reported() {
    let token = unbalanced_at("((1 + 2");
    assert_eq!(token.kind, TokenKind::LeftParenthesis);
    assert_eq!(token.start, 1);
    let token = unbalanced_at("(1) + (2 * (3)");
    assert_eq!(token.start, 6);
}

#[test]
fn the_first_unmatched_closing_parenthesis_is_reported() {
    let token = unbalanced_at("(1 + 2)) * (3");
    assert_eq!(token.kind, TokenKind::RightParenthesis);
    assert_eq!(token.start, 7);
    let token = unbalanced_at("1 + 2 ) )");
    assert_eq!(token.start, 6);
}

#[test]
fn a_function_does_not_open_a_group() {
    let token = unbalanced_at("sin 1 )");
    assert_eq!(token.kind, TokenKind::RightParenthesis);
    assert_eq!(token.start, 6);
}

#[test]
fn success_leaves_no_token_behind() {
    let mut tokens = tokens_of("(1 + 2) * 3");
    let output = to_rpn_sequence(&mut tokens).expect("balanced");
    assert!(tokens.is_empty());
    assert_eq!(output.len(), 5);
}

#[test]
fn failure_at_a_closing_parenthesis_leaves_the_rest() {
    let mut tokens = tokens_of("1 ) 2 + 3");
    match to_rpn_sequence(&mut tokens) {
        Ok(_) => panic!("unbalanced input converted"),
        Err(ParsingError::UnbalancedParens(token)) => assert_eq!(token.start, 2),
    }
    let left: Vec<String> = tokens.iter().map(|token| token.to_string()).collect();
    assert_eq!(left, vec!["2", "+", "3"]);
}

#[test]
fn failure_at_the_end_leaves_nothing() {
    let mut tokens = tokens_of("( 1 + 2");
    assert!(to_rpn_sequence(&mut tokens).is_err());
    assert!(tokens.is_empty());
}

#[test]
fn every_token_but_the_parentheses_appears_once() {
    let text = "((1 + 2) * sin(3)) - 4 / x ^ 6";
    let input = tokens_of(text);
    let mut expected: Vec<(u32, u32, String)> = input
        .iter()
        .filter(|token| {
            token.kind != TokenKind::LeftParenthesis && token.kind != TokenKind::RightParenthesis
        })
        .map(|token| (token.start, token.end, token.to_string()))
        .collect();
    let mut tokens = tokens_of(text);
    let output = to_rpn_sequence(&mut tokens).expect("balanced");
    let mut found: Vec<(u32, u32, String)> = output
        .iter()
        .map(|token| (token.start, token.end, token.to_string()))
        .collect();
    assert_eq!(found.len(), 12);
    expected.sort();
    found.sort();
    assert_eq!(found, expected);
    assert_eq!(render(&output), "1 2 + 3 sin * 4 x 6 ^ / -");
}

#[test]
fn operands_keep_their_order() {
    let mut tokens = tokens_of("a + b * (c / d) ^ e / f");
    let output = to_rpn_sequence(&mut tokens).expect("balanced");
    let operands: Vec<String> = output
        .iter()
        .filter(|token| matches!(token.kind, TokenKind::Identifier(_)))
        .map(|token| token.to_string())
        .collect();
    assert_eq!(operands, vec!["a", "b", "c", "d", "e", "f"]);
}

#[test]
fn rendering_joins_with_single_spaces() {
    let empty: VecDeque<Token> = VecDeque::new();
    assert_eq!(render(&empty), "");
    let one = tokens_of("7");
    assert_eq!(render(&one), "7");
    let three = tokens_of("7   +x");
    assert_eq!(render(&three), "7 + x");
}

#[test]
fn hand_made_tokens_convert_like_lexed_ones() {
    let mut tokens: VecDeque<Token> = VecDeque::new();
    tokens.push_back(Token {
        value: "1".to_string(),
        kind: TokenKind::Number("1".to_string()),
        start: 0,
        end: 1,
    });
    tokens.push_back(Token {
        value: "+".to_string(),
        kind: TokenKind::Operator(shunting_yard::token::OperatorKind::Plus),
        start: 1,
        end: 2,
    });
    tokens.push_back(Token {
        value: "n".to_string(),
        kind: TokenKind::Identifier("n".to_string()),
        start: 2,
        end: 3,
    });
    assert_eq!(to_rpn(&mut tokens).expect("balanced"), "1 n +");
}
