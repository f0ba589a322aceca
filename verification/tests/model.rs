use shunting_yard::token::{
    FunctionKind, OperatorAssociativity, OperatorKind, Precedent, Token, TokenKind,
};

const FUNCTIONS: [(FunctionKind, &str); 9] = [
    (FunctionKind::Sin, "sin"),
    (FunctionKind::Cos, "cos"),
    (FunctionKind::Tan, "tan"),
    (FunctionKind::Sinh, "sinh"),
    (FunctionKind::Cosh, "cosh"),
    (FunctionKind::Tanh, "tanh"),
    (FunctionKind::Ln, "ln"),
    (FunctionKind::Log2, "log_2"),
    (FunctionKind::Log10, "log_10"),
];

fn token(kind: TokenKind, value: &str) -> Token {
    Token { value: value.to_string(), kind, start: 0, end: value.len() as u32 }
}

#[test]
fn operator_symbols() {
    assert_eq!(OperatorKind::from_char('+'), Some(OperatorKind::Plus));
    assert_eq!(OperatorKind::from_char('-'), Some(OperatorKind::Minus));
    assert_eq!(OperatorKind::from_char('*'), Some(OperatorKind::Multiply));
    assert_eq!(OperatorKind::from_char('/'), Some(OperatorKind::Divide));
    assert_eq!(OperatorKind::from_char('^'), Some(OperatorKind::Exponent));
}

#[test]
fn other_characters_are_no_operators() {
    for c in ['(', ')', ' ', '0', 'a', '.', '%', '&', '=', '\u{2212}'] {
        assert_eq!(OperatorKind::from_char(c), None);
    }
}

#[test]
fn operator_precedence() {
    assert_eq!(OperatorKind::Plus.precedence(), 0);
    assert_eq!(OperatorKind::Minus.precedence(), 0);
    assert_eq!(OperatorKind::Multiply.precedence(), 1);
    assert_eq!(OperatorKind::Divide.precedence(), 1);
    assert_eq!(OperatorKind::Exponent.precedence(), 2);
}

#[test]
fn operator_associativity() {
    assert_eq!(OperatorKind::Plus.associativity(), OperatorAssociativity::Left);
    assert_eq!(OperatorKind::Minus.associativity(), OperatorAssociativity::Left);
    assert_eq!(OperatorKind::Multiply.associativity(), OperatorAssociativity::Left);
    assert_eq!(OperatorKind::Divide.associativity(), OperatorAssociativity::Left);
    assert_eq!(OperatorKind::Exponent.associativity(), OperatorAssociativity::Right);
}

#[test]
fn token_precedence() {
    assert_eq!(token(TokenKind::LeftParenthesis, "(").precedence(), 0);
    assert_eq!(token(TokenKind::RightParenthesis, ")").precedence(), 0);
    assert_eq!(token(TokenKind::Operator(OperatorKind::Plus), "+").precedence(), 0);
    assert_eq!(token(TokenKind::Operator(OperatorKind::Divide), "/").precedence(), 1);
    assert_eq!(token(TokenKind::Operator(OperatorKind::Exponent), "^").precedence(), 2);
}

#[test]
fn function_names() {
    for (function, name) in FUNCTIONS {
        assert_eq!(function.to_string(), name);
    }
}

#[test]
fn function_lookup() {
    for (function, name) in FUNCTIONS {
        assert_eq!(FunctionKind::from_string(name.to_string()), Some(function));
    }
}

#[test]
fn function_lookup_inverts_naming() {
    for (function, _) in FUNCTIONS {
        assert_eq!(FunctionKind::from_string(function.to_string()), Some(function));
    }
}

#[test]
fn function_lookup_is_exact() {
    for name in ["", "si", "sine", "Sin", "SIN", "sin ", "log", "log2", "log_", "log_20", "x"] {
        assert_eq!(FunctionKind::from_string(name.to_string()), None);
    }
}

#[test]
fn token_text() {
    assert_eq!(token(TokenKind::Number("-1.5".to_string()), "-1.5").to_string(), "-1.5");
    assert_eq!(token(TokenKind::Function(FunctionKind::Ln), "ln").to_string(), "ln");
}

#[test]
fn underline_marks_a_range() {
    assert_eq!(shunting_yard::report::underline(0, 1), "^");
    assert_eq!(shunting_yard::report::underline(2, 3), "  ^");
    assert_eq!(shunting_yard::report::underline(4, 7), "    ^^^");
}

#[test]
fn underline_of_an_empty_range_is_blank() {
    assert_eq!(shunting_yard::report::underline(0, 0), "");
    assert_eq!(shunting_yard::report::underline(3, 3), "   ");
}
