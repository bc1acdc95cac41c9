use tinycomp::error::CompileError;
use tinycomp::lexer::Token;
use tinycomp::lexer::lex;
use tinycomp::parser::Component;
use tinycomp::parser::Component::Expression;
use tinycomp::parser::Component::Tok;
use tinycomp::parser::parse;
use tinycomp::parser::parse_program;

fn check(input: String, expected: Vec<Component>) {
    let tokens = lex(input).unwrap();
    let compos = parse(tokens);
    assert_eq!(compos.len(), expected.len(), "Cmpnts len !=");

    for i in 0..compos.len() {
        assert_eq!(compos[i], expected[i], "oops");
    }
}

#[test]
fn simple_test() {
    let input = String::from("a + b *");
    let expected = vec![Expression, Tok(Token::Plus), Expression, Tok(Token::Star)];
    check(input, expected);
}

#[test]
fn simple_test2() {
    let input = String::from("a + b -");
    let expected = vec![Expression, Tok(Token::Minus)];
    check(input, expected);
}

#[test]
fn simple_test3() {
    let input = String::from("a + b * c");
    let expected = vec![Expression];
    check(input, expected);
}

#[test]
fn precedence_both_directions() {
    // The tighter-binding `*` collapses first whichever side it stands on.
    check(String::from("a * b + c"), vec![Expression]);
    check(String::from("a + b * c + d"), vec![Expression]);
}

#[test]
fn parenthesized_expression() {
    check(String::from("(a + b) * c"), vec![Expression]);
}

#[test]
fn empty_input_parses_to_empty_stack() {
    let stack = parse(Vec::new());
    assert_eq!(stack.len(), 0);
}

#[test]
fn program_check_accepts_single_construct() {
    let tokens = lex(String::from("a + b * c")).unwrap();
    let stack = parse_program(tokens).unwrap();
    assert_eq!(stack, vec![Expression]);
}

#[test]
fn program_check_reports_residual_stack() {
    let tokens = lex(String::from("a := 5;")).unwrap();
    let residual = vec![
        Expression,
        Tok(Token::Declaration),
        Tok(Token::Number(5)),
        Tok(Token::End),
    ];
    assert_eq!(
        parse_program(tokens),
        Err(CompileError::SyntaxError { residual })
    );
}
