use minimal::lexer::token::Token;
use minimal::lexer::token::TokenKind;
use minimal::parser::node::Node;
use minimal::parser::node::NodeKind;

fn number(text: &str, pos: usize) -> Token {
    Token::new(TokenKind::Number, text.to_owned(), pos, text.len())
}

fn symbol(kind: TokenKind, text: &str, pos: usize) -> Token {
    Token::new(kind, text.to_owned(), pos, text.len())
}

#[test]
fn literal_node_covers_its_token() {
    let node = Node::new_lit(number("123", 4));
    assert_eq!(node.kind, NodeKind::Literal);
    assert_eq!((node.pos, node.len), (4, 3));
    assert!(node.left.is_none());
    assert!(node.op.is_none());
    assert!(node.right.is_none());
    let value = node.val.unwrap();
    assert_eq!(value.kind, TokenKind::Number);
    assert_eq!(value.literal, "123");
    assert_eq!((value.pos, value.len), (4, 3));
}

#[test]
fn unary_node_with_the_operator_in_front() {
    let node = Node::new_unary(Node::new_lit(number("2", 14)), symbol(TokenKind::Minus, "-", 13));
    assert_eq!(node.kind, NodeKind::Unary);
    assert_eq!((node.pos, node.len), (13, 2));
    assert!(node.right.is_none());
    assert!(node.val.is_none());
    assert_eq!(node.op.unwrap().kind, TokenKind::Minus);
    let operand = node.left.unwrap();
    assert_eq!(operand.kind, NodeKind::Literal);
    assert_eq!((operand.pos, operand.len), (14, 1));
}

#[test]
fn unary_node_with_a_gap_after_the_operator() {
    let node = Node::new_unary(Node::new_lit(number("12", 8)), symbol(TokenKind::Minus, "-", 5));
    assert_eq!((node.pos, node.len), (5, 5));
}

#[test]
fn unary_node_with_the_operator_behind() {
    let node = Node::new_unary(Node::new_lit(number("12", 3)), symbol(TokenKind::Plus, "+", 9));
    assert_eq!((node.pos, node.len), (3, 7));
}

#[test]
fn unary_node_covers_the_larger_of_the_two_ends() {
    // The operator lies inside the operand: the span is the operand's.
    let inside = Node::new_unary(Node::new_lit(number("1234567890", 0)), symbol(TokenKind::Minus, "-", 5));
    assert_eq!((inside.pos, inside.len), (0, 10));
    // The operand lies inside the operator: the span is the operator's.
    let around = Node::new_unary(Node::new_lit(number("1", 5)), symbol(TokenKind::Minus, "----------", 0));
    assert_eq!((around.pos, around.len), (0, 10));
    // Both start together.
    let together = Node::new_unary(Node::new_lit(number("123", 2)), symbol(TokenKind::Minus, "-", 2));
    assert_eq!((together.pos, together.len), (2, 3));
}

#[test]
fn binary_node_runs_from_left_start_to_right_end() {
    let node = Node::new_binary(
        Node::new_lit(number("12", 8)),
        symbol(TokenKind::Slash, "/", 11),
        Node::new_lit(number("2", 14)),
    );
    assert_eq!(node.kind, NodeKind::Binary);
    assert_eq!((node.pos, node.len), (8, 7));
    assert!(node.val.is_none());
    assert_eq!(node.op.unwrap().kind, TokenKind::Slash);
    assert_eq!(node.left.unwrap().val.unwrap().literal, "12");
    assert_eq!(node.right.unwrap().val.unwrap().literal, "2");
}

#[test]
fn binary_node_does_not_look_at_the_operator_position() {
    let node = Node::new_binary(
        Node::new_lit(number("1", 0)),
        symbol(TokenKind::Plus, "+", 100),
        Node::new_lit(number("2", 2)),
    );
    assert_eq!((node.pos, node.len), (0, 3));
}

#[test]
fn binary_node_of_empty_operands_at_one_place() {
    let node = Node::new_binary(
        Node::new_lit(number("", 6)),
        symbol(TokenKind::Plus, "+", 6),
        Node::new_lit(number("", 6)),
    );
    assert_eq!((node.pos, node.len), (6, 0));
}

#[test]
fn node_clone_copies_the_whole_tree() {
    let node = Node::new_binary(
        Node::new_unary(Node::new_lit(number("1", 1)), symbol(TokenKind::Minus, "-", 0)),
        symbol(TokenKind::Star, "*", 2),
        Node::new_lit(number("3", 3)),
    );
    let copy = node.clone();
    assert_eq!(copy.kind, NodeKind::Binary);
    assert_eq!((copy.pos, copy.len), (node.pos, node.len));
    let left = copy.left.unwrap();
    assert_eq!(left.kind, NodeKind::Unary);
    assert_eq!(left.left.unwrap().val.unwrap().literal, "1");
    assert_eq!(copy.right.unwrap().val.unwrap().literal, "3");
    assert_eq!(node.left.unwrap().op.unwrap().literal, "-");
}
