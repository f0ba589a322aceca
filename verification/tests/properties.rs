use shunting_yard::parse::{to_rpn_sequence, ParsingError};
use shunting_yard::token::{tokenize, Token, TokenKind, TokenizationError};
use std::collections::VecDeque;

/// A small linear congruential generator, so that the same texts are tried
/// on every run.
struct Texts {
    state: u64,
}

impl Texts {
    fn next_index(&mut self, bound: usize) -> usize {
        self.state = self
            .state
            .wrapping_mul(6364136223846793005)
            .wrapping_add(1442695040888963407);
        ((self.state >> 33) as usize) % bound
    }

    fn next_text(&mut self, alphabet: &[char], longest: usize) -> String {
        let length = 1 + self.next_index(longest);
        (0..length).map(|_| alphabet[self.next_index(alphabet.len())]).collect()
    }
}

const EVERYTHING: [char; 22] = [
    '0', '1', '7', '9', '.', '.', ' ', ' ', '+', '-', '-', '*', '/', '^', '(', '(', ')', ')', 's',
    'i', 'n', 'X',
];

const WHOLE_NUMBERS: [char; 12] = ['0', '4', '8', ' ', ' ', '+', '*', '/', '^', '(', ')', '2'];

fn is_parenthesis(token: &Token) -> bool {
    token.kind == TokenKind::LeftParenthesis || token.kind == TokenKind::RightParenthesis
}

fn is_operand(token: &Token) -> bool {
    matches!(token.kind, TokenKind::Number(_) | TokenKind::Identifier(_))
}

fn summary(token: &Token) -> (u32, u32, String) {
    (token.start, token.end, token.value.clone())
}

/// Whether the parentheses pair up, and, if they do not, the offset of the
/// parenthesis that a conversion is to name.
fn unmatched(tokens: &VecDeque<Token>) -> Option<u32> {
    let mut open: Vec<u32> = Vec::new();
    for token in tokens {
        match token.kind {
            TokenKind::LeftParenthesis => open.push(token.start),
            TokenKind::RightParenthesis => {
                if open.pop().is_none() {
                    return Some(token.start);
                }
            }
            _ => {}
        }
    }
    open.pop()
}

fn holds_tiling(text: &str, tokens: &VecDeque<Token>) {
    let characters: Vec<char> = text.chars().collect();
    let mut covered = vec![false; characters.len()];
    let mut last_end = 0;
    for token in tokens {
        assert!(last_end <= token.start, "{:?}", text);
        assert!(token.start < token.end, "{:?}", text);
        assert!(token.end as usize <= characters.len(), "{:?}", text);
        for offset in token.start..token.end {
            covered[offset as usize] = true;
        }
        let mut written: Vec<char> =
            characters[token.start as usize..token.end as usize].to_vec();
        written[0] = written[0].to_ascii_lowercase();
        assert_eq!(token.value, written.iter().collect::<String>(), "{:?}", text);
        last_end = token.end;
    }
    for (offset, c) in characters.iter().enumerate() {
        assert_eq!(covered[offset], *c != ' ', "{:?} at {}", text, offset);
    }
}

fn holds_conversion(text: &str) {
    let input = tokenize(&text.to_string()).expect("tokens");
    let expected = unmatched(&input);
    let mut kept: Vec<(u32, u32, String)> =
        input.iter().filter(|token| !is_parenthesis(token)).map(summary).collect();
    let operands: Vec<(u32, u32, String)> =
        input.iter().filter(|token| is_operand(token)).map(summary).collect();
    let count = input.len();
    let mut tokens = input;
    match to_rpn_sequence(&mut tokens) {
        Ok(output) => {
            assert_eq!(expected, None, "{:?}", text);
            assert!(tokens.is_empty(), "{:?}", text);
            let in_order: Vec<(u32, u32, String)> =
                output.iter().filter(|token| is_operand(token)).map(summary).collect();
            assert_eq!(in_order, operands, "{:?}", text);
            let mut found: Vec<(u32, u32, String)> = output.iter().map(summary).collect();
            found.sort();
            kept.sort();
            assert_eq!(found, kept, "{:?}", text);
        }
        Err(ParsingError::UnbalancedParens(token)) => {
            assert_eq!(expected, Some(token.start), "{:?}", text);
            assert!(is_parenthesis(&token), "{:?}", text);
            assert!(tokens.len() < count, "{:?}", text);
        }
    }
}

#[test]
fn tokens_tile_every_accepted_text() {
    let mut texts = Texts { state: 1 };
    let mut accepted = 0;
    for _ in 0..20000 {
        let text = texts.next_text(&EVERYTHING, 12);
        if let Ok(tokens) = tokenize(&text) {
            holds_tiling(&text, &tokens);
            accepted += 1;
        }
    }
    assert!(accepted > 1000);
}

#[test]
fn refusals_point_into_the_text() {
    let mut texts = Texts { state: 2 };
    let mut refused = 0;
    for _ in 0..20000 {
        let text = texts.next_text(&EVERYTHING, 12);
        match tokenize(&text) {
            Ok(_) => {}
            Err(TokenizationError::UnexpectedChar(offset)) => {
                assert!((offset as usize) < text.len(), "{:?}", text);
                assert_ne!(text.as_bytes()[offset as usize], b' ', "{:?}", text);
                refused += 1;
            }
            Err(error) => panic!("{:?} gives {:?}", text, error),
        }
    }
    assert!(refused > 1000);
}

#[test]
fn conversion_succeeds_exactly_on_balanced_tokens() {
    let mut texts = Texts { state: 3 };
    let mut converted = 0;
    for _ in 0..20000 {
        let text = texts.next_text(&EVERYTHING, 10);
        if tokenize(&text).is_ok() {
            holds_conversion(&text);
            converted += 1;
        }
    }
    assert!(converted > 1000);
}

#[test]
fn whole_number_expressions_always_have_tokens() {
    let mut texts = Texts { state: 4 };
    for _ in 0..20000 {
        let text = texts.next_text(&WHOLE_NUMBERS, 14);
        let tokens = match tokenize(&text) {
            Ok(tokens) => tokens,
            Err(error) => panic!("{:?} gives {:?}", text, error),
        };
        holds_tiling(&text, &tokens);
        holds_conversion(&text);
    }
}

#[test]
fn balanced_whole_number_expressions_convert() {
    for text in ["1", "(1)", "1 + 2", "(1 + 2) * (3 + 4)", "((2)) ^ (3 / 4)", "()", "1 2 (+)"] {
        let mut tokens = tokenize(&text.to_string()).expect("tokens");
        assert!(to_rpn_sequence(&mut tokens).is_ok(), "{:?}", text);
    }
}
