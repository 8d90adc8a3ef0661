use minimal::diags::textspan::TextSpan;
use minimal::lexer::token::Token;
use minimal::lexer::token::TokenKind;

const ALL_KINDS: [TokenKind; 9] = [
    TokenKind::Illegal,
    TokenKind::EOF,
    TokenKind::Number,
    TokenKind::Plus,
    TokenKind::Minus,
    TokenKind::Star,
    TokenKind::Slash,
    TokenKind::OpenParen,
    TokenKind::CloseParen,
];

#[test]
fn text_span_ends_at_start_plus_len() {
    let span = TextSpan::new(4, 3);
    assert_eq!((span.start, span.len, span.end), (4, 3, 7));
    let empty = TextSpan::new(9, 0);
    assert_eq!((empty.start, empty.len, empty.end), (9, 0, 9));
    let last = TextSpan::new(usize::MAX - 1, 1);
    assert_eq!(last.end, usize::MAX);
}

#[test]
fn token_new_keeps_its_arguments() {
    let token = Token::new(TokenKind::Number, "123".to_owned(), 10, 3);
    assert_eq!(token.kind, TokenKind::Number);
    assert_eq!(token.literal, "123");
    assert_eq!(token.pos, 10);
    assert_eq!(token.len, 3);
    assert_eq!((token.span.start, token.span.len, token.span.end), (10, 3, 13));
}

#[test]
fn token_clone_is_equal_field_by_field() {
    let token = Token::new(TokenKind::Slash, "/".to_owned(), 11, 1);
    let copy = token.clone();
    assert_eq!(copy.kind, token.kind);
    assert_eq!(copy.literal, token.literal);
    assert_eq!(copy.pos, token.pos);
    assert_eq!(copy.len, token.len);
    assert_eq!(copy.span.end, token.span.end);
}

#[test]
fn unary_precedence_table() {
    for kind in ALL_KINDS {
        let expected = match kind {
            TokenKind::Plus | TokenKind::Minus => 3,
            _ => 0,
        };
        assert_eq!(Token::get_unary_op_precedence(kind), expected);
    }
}

#[test]
fn binary_precedence_table() {
    assert_eq!(Token::get_binary_op_precedence(TokenKind::Star), 2);
    assert_eq!(Token::get_binary_op_precedence(TokenKind::Slash), 2);
    assert_eq!(Token::get_binary_op_precedence(TokenKind::Plus), 1);
    assert_eq!(Token::get_binary_op_precedence(TokenKind::Minus), 1);
    assert_eq!(Token::get_binary_op_precedence(TokenKind::Illegal), 0);
    assert_eq!(Token::get_binary_op_precedence(TokenKind::EOF), 0);
    assert_eq!(Token::get_binary_op_precedence(TokenKind::Number), 0);
    assert_eq!(Token::get_binary_op_precedence(TokenKind::OpenParen), 0);
    assert_eq!(Token::get_binary_op_precedence(TokenKind::CloseParen), 0);
}

#[test]
fn a_sign_binds_tighter_than_any_infix_operator() {
    for sign in [TokenKind::Plus, TokenKind::Minus] {
        for infix in ALL_KINDS {
            assert!(Token::get_unary_op_precedence(sign) > Token::get_binary_op_precedence(infix));
        }
    }
}

#[test]
fn kind_names_are_the_variant_names() {
    for kind in ALL_KINDS {
        assert_eq!(kind.name(), format!("{:?}", kind));
    }
    assert_eq!(TokenKind::EOF.name(), "EOF");
    assert_eq!(TokenKind::CloseParen.name(), "CloseParen");
}
