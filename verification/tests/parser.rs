use minimal::diags::diag::Diag;
use minimal::lexer::lexer::tokenize;
use minimal::lexer::lexer::Lexer;
use minimal::lexer::token::Token;
use minimal::lexer::token::TokenKind;
use minimal::parser::node::Node;
use minimal::parser::node::NodeKind;
use minimal::parser::parser::Parser;

fn lexall(text: &str) -> (Vec<Token>, Vec<Diag>) {
    let mut lex = Lexer::new(text.to_owned());
    let mut tokens = Vec::<Token>::new();

    while let Some(token) = lex.next() {
        tokens.push(token);
    }

    (tokens, lex.diags())
}

fn test_node(node: Node, expected: Node) {
    match node.kind {
        NodeKind::Literal => {
            let val = node.val.unwrap();
            let exp_val = expected.val.unwrap();

            assert_eq!(val.kind, exp_val.kind);
            assert_eq!(val.literal, exp_val.literal);
            assert_eq!(node.pos, expected.pos);
            assert_eq!(node.len, expected.len);
        }
        NodeKind::Unary => {
            let expr = node.left.unwrap();
            let op = node.op.unwrap();

            let exp_expr = expected.left.unwrap();
            let exp_op = expected.op.unwrap();

            test_node(*expr, *exp_expr);
            assert_eq!(op.kind, exp_op.kind);
        }
        NodeKind::Binary => {
            let left = node.left.unwrap();
            let op = node.op.unwrap();
            let right = node.right.unwrap();

            let exp_left = expected.left.unwrap();
            let exp_op = expected.op.unwrap();
            let exp_right = expected.right.unwrap();

            test_node(*left, *exp_left);
            test_node(*right, *exp_right);
            assert_eq!(op.kind, exp_op.kind);
        }
    }
}

/// The tree written out with every grouping shown.
fn shape(node: &Node) -> String {
    match node.kind {
        NodeKind::Literal => {
            assert!(node.left.is_none() && node.op.is_none() && node.right.is_none());
            let value = node.val.as_ref().unwrap();
            if value.literal.is_empty() {
                "?".to_owned()
            } else {
                value.literal.clone()
            }
        }
        NodeKind::Unary => {
            assert!(node.right.is_none() && node.val.is_none());
            format!(
                "({}{})",
                node.op.as_ref().unwrap().literal,
                shape(node.left.as_ref().unwrap())
            )
        }
        NodeKind::Binary => {
            assert!(node.val.is_none());
            format!(
                "({} {} {})",
                shape(node.left.as_ref().unwrap()),
                node.op.as_ref().unwrap().literal,
                shape(node.right.as_ref().unwrap())
            )
        }
    }
}

/// Tree, span of the root, and diagnostics as (start, end, message).
fn parse_text(text: &str) -> (String, (usize, usize), Vec<(usize, usize, String)>) {
    let (tokens, lexer_diags) = lexall(text);
    assert!(lexer_diags.is_empty());
    assert!(Parser::accepts(&tokens));
    let mut par = Parser::new(tokens);
    let ast = par.parse();
    let diags = par.diags().iter().map(|d| (d.span.start, d.span.end, d.msg.clone())).collect();
    (shape(&ast), (ast.pos, ast.len), diags)
}

fn tree_of(text: &str) -> String {
    let (tree, _, diags) = parse_text(text);
    assert_eq!(diags.len(), 0);
    tree
}

#[test]
fn parser_tokens() {
    let suite = vec![(
        "123 * -(12 / -2)+6",
        Node::new_binary(
            Node::new_binary(
                Node::new_lit(Token::new(TokenKind::Number, "123".to_owned(), 0, 3)),
                Token::new(TokenKind::Star, "*".to_owned(), 3, 1),
                Node::new_unary(
                    Node::new_binary(
                        Node::new_lit(Token::new(TokenKind::Number, "12".to_owned(), 8, 2)),
                        Token::new(TokenKind::Slash, "/".to_owned(), 10, 1),
                        Node::new_unary(
                            Node::new_lit(Token::new(TokenKind::Number, "2".to_owned(), 14, 1)),
                            Token::new(TokenKind::Minus, "-".to_owned(), 12, 1),
                        ),
                    ),
                    Token::new(TokenKind::Minus, "-".to_owned(), 5, 1),
                ),
            ),
            Token::new(TokenKind::Plus, "+".to_owned(), 15, 1),
            Node::new_lit(Token::new(TokenKind::Number, "6".to_owned(), 17, 1)),
        ),
        0,
    )];

    for case in suite {
        let tokens = lexall(case.0).0;

        let mut par = Parser::new(tokens);
        let ast = par.parse();

        assert_eq!(par.diags().len(), case.2);
        test_node(ast, case.1);
    }
}

#[test]
fn worked_example_tree_and_spans() {
    let (tokens, _) = lexall("123 * -(12 / -2)+6");
    let mut par = Parser::new(tokens);
    let root = par.parse();
    assert_eq!(par.diags().len(), 0);
    assert_eq!(shape(&root), "((123 * (-(12 / (-2)))) + 6)");
    assert_eq!((root.pos, root.len), (0, 18));
    let product = root.left.as_ref().unwrap();
    assert_eq!((product.pos, product.len), (0, 15));
    let negated = product.right.as_ref().unwrap();
    assert_eq!((negated.pos, negated.len), (6, 9));
    let quotient = negated.left.as_ref().unwrap();
    assert_eq!((quotient.pos, quotient.len), (8, 7));
    let minus_two = quotient.right.as_ref().unwrap();
    assert_eq!((minus_two.pos, minus_two.len), (13, 2));
    let six = root.right.as_ref().unwrap();
    assert_eq!((six.pos, six.len), (17, 1));
    // the operators are the tokens of the text
    assert_eq!(root.op.as_ref().unwrap().pos, 16);
    assert_eq!(product.op.as_ref().unwrap().pos, 4);
    assert_eq!(negated.op.as_ref().unwrap().pos, 6);
    assert_eq!(quotient.op.as_ref().unwrap().pos, 11);
}

#[test]
fn equal_operators_group_to_the_left() {
    assert_eq!(tree_of("6-2-1"), "((6 - 2) - 1)");
    assert_eq!(tree_of("8/4/2"), "((8 / 4) / 2)");
    assert_eq!(tree_of("1+2-3+4"), "(((1 + 2) - 3) + 4)");
    assert_eq!(tree_of("2*3/4"), "((2 * 3) / 4)");
}

#[test]
fn tighter_operators_group_first() {
    assert_eq!(tree_of("2+3*4"), "(2 + (3 * 4))");
    assert_eq!(tree_of("2*3+4"), "((2 * 3) + 4)");
    assert_eq!(tree_of("1+2*3-4/5"), "((1 + (2 * 3)) - (4 / 5))");
    assert_eq!(tree_of("1-2/3*4"), "(1 - ((2 / 3) * 4))");
}

#[test]
fn parentheses_override_precedence() {
    assert_eq!(tree_of("(2+3)*4"), "((2 + 3) * 4)");
    assert_eq!(tree_of("2*(3+4)"), "(2 * (3 + 4))");
    assert_eq!(tree_of("6-(2-1)"), "(6 - (2 - 1))");
}

#[test]
fn parentheses_leave_no_trace_in_the_tree() {
    let (tree, span, diags) = parse_text("((1))");
    assert_eq!(tree, "1");
    assert_eq!(span, (2, 1));
    assert!(diags.is_empty());
    let (tree, span, _) = parse_text("(1 + 2)");
    assert_eq!(tree, "(1 + 2)");
    assert_eq!(span, (1, 5));
}

#[test]
fn a_sign_takes_only_what_follows_it() {
    assert_eq!(tree_of("-2*3"), "((-2) * 3)");
    assert_eq!(tree_of("-2+3"), "((-2) + 3)");
    assert_eq!(tree_of("2*-3"), "(2 * (-3))");
    assert_eq!(tree_of("2--3"), "(2 - (-3))");
    assert_eq!(tree_of("+1"), "(+1)");
    assert_eq!(tree_of("--1"), "(-(-1))");
    assert_eq!(tree_of("-+-1"), "(-(+(-1)))");
    assert_eq!(tree_of("-(2+3)"), "(-(2 + 3))");
    assert_eq!(tree_of("-(2+3)*4"), "((-(2 + 3)) * 4)");
}

/// The tokens of the tree in the order in which an expression is written.
fn written_order(node: &Node, out: &mut Vec<(TokenKind, usize)>) {
    match node.kind {
        NodeKind::Literal => {
            let value = node.val.as_ref().unwrap();
            out.push((value.kind, value.pos));
        }
        NodeKind::Unary => {
            let op = node.op.as_ref().unwrap();
            out.push((op.kind, op.pos));
            written_order(node.left.as_ref().unwrap(), out);
        }
        NodeKind::Binary => {
            written_order(node.left.as_ref().unwrap(), out);
            let op = node.op.as_ref().unwrap();
            out.push((op.kind, op.pos));
            written_order(node.right.as_ref().unwrap(), out);
        }
    }
}

#[test]
fn a_clean_parse_keeps_every_token() {
    for text in ["123 * -(12 / -2)+6", "((1))", "-(-(2))*3", "1+2*3-4/5", "7"] {
        let (tokens, _) = lexall(text);
        let expected: Vec<(TokenKind, usize)> = tokens[..tokens.len() - 1]
            .iter()
            .filter(|t| t.kind != TokenKind::OpenParen && t.kind != TokenKind::CloseParen)
            .map(|t| (t.kind, t.pos))
            .collect();
        let mut par = Parser::new(tokens);
        let root = par.parse();
        assert!(par.diags().is_empty());
        let mut found = Vec::new();
        written_order(&root, &mut found);
        assert_eq!(found, expected);
    }
}

#[test]
fn a_parse_with_problems_keeps_every_token_it_consumed() {
    // text, and how many tokens the parse consumes
    for (text, used) in [("(1+2", 4), ("1+", 2), ("*3", 2), ("(1+(2*", 6), ("()", 2), ("1 2", 1), ("", 0)] {
        let (tokens, _) = lexall(text);
        let expected: Vec<(TokenKind, usize)> = tokens[..used]
            .iter()
            .filter(|t| t.kind != TokenKind::OpenParen && t.kind != TokenKind::CloseParen)
            .map(|t| (t.kind, t.pos))
            .collect();
        let lengths: Vec<usize> = tokens.iter().map(|t| t.len).collect();
        assert!(lengths.iter().all(|len| *len > 0));
        let mut par = Parser::new(tokens);
        let root = par.parse();
        let mut found = Vec::new();
        written_order(&root, &mut found);
        let mut lens = Vec::new();
        written_lens(&root, &mut lens);
        let covering: Vec<(TokenKind, usize)> =
            found.iter().zip(lens.iter()).filter(|(_, len)| **len > 0).map(|(t, _)| *t).collect();
        assert_eq!(covering, expected);
    }
}

/// The lengths of the tokens of the tree, in the order of `written_order`.
fn written_lens(node: &Node, out: &mut Vec<usize>) {
    match node.kind {
        NodeKind::Literal => out.push(node.val.as_ref().unwrap().len),
        NodeKind::Unary => {
            out.push(node.op.as_ref().unwrap().len);
            written_lens(node.left.as_ref().unwrap(), out);
        }
        NodeKind::Binary => {
            written_lens(node.left.as_ref().unwrap(), out);
            out.push(node.op.as_ref().unwrap().len);
            written_lens(node.right.as_ref().unwrap(), out);
        }
    }
}

#[test]
fn a_single_number_is_a_literal() {
    let (tree, span, diags) = parse_text("  42 ");
    assert_eq!(tree, "42");
    assert_eq!(span, (2, 2));
    assert!(diags.is_empty());
}

#[test]
fn missing_close_paren_gives_one_diagnostic_and_the_whole_tree() {
    let (tree, span, diags) = parse_text("(1+2");
    assert_eq!(tree, "(1 + 2)");
    assert_eq!(span, (1, 3));
    assert_eq!(diags, vec![(4, 5, "Unexpected token <EOF>, expected <CloseParen>".to_owned())]);
}

#[test]
fn missing_operand_is_made_up_where_the_parser_stands() {
    let (tokens, _) = lexall("1+");
    let mut par = Parser::new(tokens);
    let root = par.parse();
    assert_eq!(shape(&root), "(1 + ?)");
    assert_eq!((root.pos, root.len), (0, 2));
    let made_up = root.right.as_ref().unwrap();
    assert_eq!(made_up.kind, NodeKind::Literal);
    assert_eq!((made_up.pos, made_up.len), (2, 0));
    let value = made_up.val.as_ref().unwrap();
    assert_eq!(value.kind, TokenKind::Number);
    assert_eq!(value.literal, "");
    assert_eq!((value.pos, value.len), (2, 0));
    assert_eq!((value.span.start, value.span.len, value.span.end), (2, 0, 2));
    let diags = par.diags();
    assert_eq!(diags.len(), 1);
    assert_eq!(diags[0].msg, "Unexpected token <EOF>, expected <Number>");
    assert_eq!((diags[0].span.start, diags[0].span.len, diags[0].span.end), (2, 1, 3));
}

#[test]
fn an_operator_without_left_operand() {
    let (tree, span, diags) = parse_text("*3");
    assert_eq!(tree, "(? * 3)");
    assert_eq!(span, (0, 2));
    assert_eq!(diags, vec![(0, 1, "Unexpected token <Star>, expected <Number>".to_owned())]);
}

#[test]
fn a_lone_close_paren() {
    let (tree, span, diags) = parse_text(")");
    assert_eq!(tree, "?");
    assert_eq!(span, (0, 0));
    assert_eq!(diags, vec![(0, 1, "Unexpected token <CloseParen>, expected <Number>".to_owned())]);
}

#[test]
fn empty_parentheses() {
    let (tree, span, diags) = parse_text("()");
    assert_eq!(tree, "?");
    assert_eq!(span, (1, 0));
    assert_eq!(diags, vec![(1, 2, "Unexpected token <CloseParen>, expected <Number>".to_owned())]);
}

#[test]
fn several_problems_give_several_diagnostics_in_order() {
    let (tree, _, diags) = parse_text("(1+(2*");
    assert_eq!(tree, "(1 + (2 * ?))");
    assert_eq!(
        diags,
        vec![
            (6, 7, "Unexpected token <EOF>, expected <Number>".to_owned()),
            (6, 7, "Unexpected token <EOF>, expected <CloseParen>".to_owned()),
            (6, 7, "Unexpected token <EOF>, expected <CloseParen>".to_owned()),
        ]
    );
}

#[test]
fn only_the_end_marker() {
    let (tree, span, diags) = parse_text(" ");
    assert_eq!(tree, "?");
    assert_eq!(span, (1, 0));
    assert_eq!(diags, vec![(1, 2, "Unexpected token <EOF>, expected <Number>".to_owned())]);
}

#[test]
fn what_follows_a_complete_expression_is_left_alone() {
    let (tree, span, diags) = parse_text("1 2");
    assert_eq!(tree, "1");
    assert_eq!(span, (0, 1));
    assert!(diags.is_empty());
    let (tree, _, diags) = parse_text("1+2)");
    assert_eq!(tree, "(1 + 2)");
    assert!(diags.is_empty());
}

#[test]
fn an_illegal_token_is_unexpected_to_the_parser() {
    let (tokens, lexer_diags) = lexall("1 + $");
    assert_eq!(lexer_diags.len(), 1);
    let mut par = Parser::new(tokens);
    let root = par.parse();
    assert_eq!(shape(&root), "(1 + ?)");
    let diags = par.diags();
    assert_eq!(diags.len(), 1);
    assert_eq!(diags[0].msg, "Unexpected token <Illegal>, expected <Number>");
    assert_eq!((diags[0].span.start, diags[0].span.end), (4, 5));
}

#[test]
fn parser_diagnostics_can_be_read_again() {
    let (tokens, _) = lexall("(1");
    let mut par = Parser::new(tokens);
    assert!(par.diags().is_empty());
    par.parse();
    assert_eq!(par.diags().len(), 1);
    assert_eq!(par.diags().len(), 1);
}

#[test]
fn hand_made_tokens_parse_like_lexed_ones() {
    let tokens = vec![
        Token::new(TokenKind::Number, "2".to_owned(), 0, 1),
        Token::new(TokenKind::Plus, "+".to_owned(), 1, 1),
        Token::new(TokenKind::Number, "3".to_owned(), 2, 1),
        Token::new(TokenKind::Star, "*".to_owned(), 3, 1),
        Token::new(TokenKind::Number, "4".to_owned(), 4, 1),
        Token::new(TokenKind::EOF, "\0".to_owned(), 5, 1),
    ];
    assert!(Parser::accepts(&tokens));
    let mut par = Parser::new(tokens);
    let root = par.parse();
    assert_eq!(shape(&root), "(2 + (3 * 4))");
    assert_eq!((root.pos, root.len), (0, 5));
    assert!(par.diags().is_empty());
}

#[test]
fn accepts_asks_for_an_end_marker_source_order_and_sound_spans() {
    let empty: Vec<Token> = Vec::new();
    assert!(!Parser::accepts(&empty));

    let no_end = vec![Token::new(TokenKind::Number, "1".to_owned(), 0, 1)];
    assert!(!Parser::accepts(&no_end));

    let only_end = vec![Token::new(TokenKind::EOF, "\0".to_owned(), 0, 1)];
    assert!(Parser::accepts(&only_end));

    let out_of_order = vec![
        Token::new(TokenKind::Number, "1".to_owned(), 5, 1),
        Token::new(TokenKind::Plus, "+".to_owned(), 4, 1),
        Token::new(TokenKind::EOF, "\0".to_owned(), 6, 1),
    ];
    assert!(!Parser::accepts(&out_of_order));

    let same_place = vec![
        Token::new(TokenKind::Number, "".to_owned(), 3, 0),
        Token::new(TokenKind::Number, "".to_owned(), 3, 0),
        Token::new(TokenKind::EOF, "\0".to_owned(), 3, 1),
    ];
    assert!(Parser::accepts(&same_place));

    let mut bent = Token::new(TokenKind::Number, "1".to_owned(), 0, 1);
    bent.span.end = 7;
    let bad_span = vec![bent, Token::new(TokenKind::EOF, "\0".to_owned(), 1, 1)];
    assert!(!Parser::accepts(&bad_span));

    let mut long = Token::new(TokenKind::Number, "1".to_owned(), 2, 1);
    long.len = usize::MAX;
    long.span.len = usize::MAX;
    let overflowing = vec![long, Token::new(TokenKind::EOF, "\0".to_owned(), 3, 1)];
    assert!(!Parser::accepts(&overflowing));
}

#[test]
fn every_lexed_text_is_accepted() {
    for text in ["", " ", "1", "1 $ 2", "((((", "é + \u{663}", "1\u{0}2", "123 * -(12 / -2)+6"] {
        let (tokens, _) = tokenize(text.to_owned());
        assert!(Parser::accepts(&tokens));
        let mut par = Parser::new(tokens);
        let root = par.parse();
        assert!(root.pos + root.len <= text.len() + 1);
    }
}

#[test]
fn the_empty_text_has_a_tree() {
    let (tree, span, diags) = parse_text("");
    assert_eq!(tree, "?");
    assert_eq!(span, (0, 0));
    assert_eq!(diags, vec![(0, 1, "Unexpected token <EOF>, expected <Number>".to_owned())]);
}
