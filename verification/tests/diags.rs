use minimal::diags::diag::Diag;
use minimal::diags::diagbag::DiagBag;
use minimal::diags::textspan::TextSpan;
use minimal::lexer::token::TokenKind;

#[test]
fn diag_new_keeps_its_arguments() {
    let diag = Diag::new(TextSpan::new(2, 5), "something".to_owned());
    assert_eq!((diag.span.start, diag.span.len, diag.span.end), (2, 5, 7));
    assert_eq!(diag.msg, "something");
    let copy = diag.clone();
    assert_eq!((copy.span.start, copy.span.len, copy.span.end), (2, 5, 7));
    assert_eq!(copy.msg, "something");
}

#[test]
fn a_new_bag_is_empty() {
    let bag = DiagBag::new();
    assert!(bag.diags.is_empty());
    assert!(bag.list().is_empty());
}

#[test]
fn illegal_character_report() {
    let mut bag = DiagBag::new();
    bag.report_illegal_ch(7, '$');
    assert_eq!(bag.diags.len(), 1);
    assert_eq!((bag.diags[0].span.start, bag.diags[0].span.len, bag.diags[0].span.end), (7, 1, 8));
    assert_eq!(bag.diags[0].msg, "Illegal character input: '$'");
}

#[test]
fn illegal_character_report_names_the_character() {
    let mut bag = DiagBag::new();
    bag.report_illegal_ch(0, 'é');
    bag.report_illegal_ch(1, '\'');
    assert_eq!(bag.diags[0].msg, "Illegal character input: 'é'");
    assert_eq!(bag.diags[1].msg, "Illegal character input: '''");
}

#[test]
fn unexpected_token_report() {
    let mut bag = DiagBag::new();
    bag.report_unexpected_token(TextSpan::new(4, 1), TokenKind::EOF, TokenKind::CloseParen);
    assert_eq!(bag.diags.len(), 1);
    assert_eq!((bag.diags[0].span.start, bag.diags[0].span.len, bag.diags[0].span.end), (4, 1, 5));
    assert_eq!(bag.diags[0].msg, "Unexpected token <EOF>, expected <CloseParen>");
}

#[test]
fn unexpected_token_report_names_both_kinds() {
    let mut bag = DiagBag::new();
    bag.report_unexpected_token(TextSpan::new(0, 2), TokenKind::Star, TokenKind::Number);
    bag.report_unexpected_token(TextSpan::new(0, 0), TokenKind::Illegal, TokenKind::OpenParen);
    assert_eq!(bag.diags[0].msg, "Unexpected token <Star>, expected <Number>");
    assert_eq!(bag.diags[1].msg, "Unexpected token <Illegal>, expected <OpenParen>");
}

#[test]
fn reports_are_kept_in_arrival_order() {
    let mut bag = DiagBag::new();
    bag.report_illegal_ch(3, 'a');
    bag.report_unexpected_token(TextSpan::new(1, 1), TokenKind::Plus, TokenKind::Number);
    bag.report_illegal_ch(0, 'b');
    let list = bag.list();
    assert_eq!(list.len(), 3);
    assert_eq!(list[0].msg, "Illegal character input: 'a'");
    assert_eq!(list[1].msg, "Unexpected token <Plus>, expected <Number>");
    assert_eq!(list[2].msg, "Illegal character input: 'b'");
    assert_eq!(list[0].span.start, 3);
    assert_eq!(list[1].span.start, 1);
    assert_eq!(list[2].span.start, 0);
    assert_eq!(bag.diags.len(), 3);
}
