use tinycomp::error::CompileError;
use tinycomp::lexer::Keyword;
use tinycomp::lexer::Token;
use tinycomp::lexer::Token::Ampersand;
use tinycomp::lexer::Token::CloseArrow;
use tinycomp::lexer::Token::CloseCurly;
use tinycomp::lexer::Token::CloseParen;
use tinycomp::lexer::Token::Declaration;
use tinycomp::lexer::Token::End;
use tinycomp::lexer::Token::Keywords;
use tinycomp::lexer::Token::Minus;
use tinycomp::lexer::Token::Name;
use tinycomp::lexer::Token::Number;
use tinycomp::lexer::Token::OpenArrow;
use tinycomp::lexer::Token::OpenCurly;
use tinycomp::lexer::Token::OpenParen;
use tinycomp::lexer::Token::Plus;
use tinycomp::lexer::Token::Slash;
use tinycomp::lexer::Token::Star;
use tinycomp::lexer::lex;

fn check(input: String, expected_tokens: Vec<Token>) {
    let tokens = lex(input).unwrap();
    assert_eq!(
        tokens.len(),
        expected_tokens.len(),
        "Token lengths don't match."
    );
    for (i, (token, expected_token)) in tokens.iter().zip(expected_tokens.iter()).enumerate() {
        assert_eq!(token, expected_token, "Token mismatch at index {}", i);
    }
}

#[test]
fn test_simple() {
    let input = String::from("qwe123 := 42 ;");
    let expected_tokens = vec![Name(Some("qwe123".to_string())), Declaration, Number(42), End];
    check(input, expected_tokens);
}

#[test]
fn test_funcs() {
    let input = String::from(
        "fnc foo() {\n\
        a := 5;\n\
        a2 := a * (42 + 13);\n\
        ret a +a2;\n\
    }\
    \
    fnc main() {\
        x := 42;\
        foo();\
        ret 0;\
    }",
    );

    let expected_tokens: Vec<Token> = vec![
        Keywords(Keyword::Fnc), Name(Some("foo".to_string())), OpenParen, CloseParen, OpenCurly,
        Name(Some("a".to_string())), Declaration, Number(5), End,
        Name(Some("a2".to_string())), Declaration, Name(Some("a".to_string())), Star, OpenParen, Number(42), Plus, Number(13), CloseParen, End,
        Keywords(Keyword::Ret), Name(Some("a".to_string())), Plus, Name(Some("a2".to_string())), End,
        CloseCurly,
        Keywords(Keyword::Fnc), Name(Some("main".to_string())), OpenParen, CloseParen, OpenCurly,
        Name(Some("x".to_string())), Declaration, Number(42), End,
        Name(Some("foo".to_string())), OpenParen, CloseParen, End,
        Keywords(Keyword::Ret), Number(0), End,
        CloseCurly,
    ];
    check(input, expected_tokens);
}

#[test]
fn test_arithmetic_operations() {
    let input = String::from("a := 5 * 3 + (2 - 1) / 2;");
    let expected_tokens = vec![
        Name(Some("a".to_string())), Declaration, Number(5), Star, Number(3), Plus,
        OpenParen, Number(2), Minus, Number(1), CloseParen, Slash, Number(2), End,
    ];
    check(input, expected_tokens);
}

#[test]
fn test_variable_assignment() {
    let input = String::from("var1if := 100; var2 := var1if + 50;");
    let expected_tokens = vec![
        Name(Some("var1if".to_string())), Declaration, Number(100), End,
        Name(Some("var2".to_string())), Declaration, Name(Some("var1if".to_string())), Plus, Number(50), End,
    ];
    check(input, expected_tokens);
}

#[test]
fn test_conditional_statements() {
    let input = String::from(
        "if a > 0 {\
            b := 1;\
        } else {\
            b := 2;\
        }",
    );
    let expected_tokens = vec![
        Keywords(Keyword::If), Name(Some("a".to_string())), CloseArrow, Number(0), OpenCurly,
        Name(Some("b".to_string())), Declaration, Number(1), End,
        CloseCurly, Keywords(Keyword::Else), OpenCurly,
        Name(Some("b".to_string())), Declaration, Number(2), End,
        CloseCurly,
    ];
    check(input, expected_tokens);
}

#[test]
fn test_while_loop() {
    let input = String::from(
        "for forx < 10 {\
            forx := forx + 1;\
        }",
    );
    let expected_tokens = vec![
        Keywords(Keyword::For), Name(Some("forx".to_string())), OpenArrow, Number(10), OpenCurly,
        Name(Some("forx".to_string())), Declaration, Name(Some("forx".to_string())), Plus, Number(1), End,
        CloseCurly,
    ];
    check(input, expected_tokens);
}

#[test]
fn test_invalid_syntax() {
    let input = String::from("a := 5 + +;\
    b := &**a;");
    let expected_tokens = vec![
        Name(Some("a".to_string())), Declaration, Number(5), Plus, Plus, End,
        Name(Some("b".to_string())), Declaration, Ampersand, Star, Star, Name(Some("a".to_string())), End,
    ];
    check(input, expected_tokens);
}

#[test]
fn test_bad_names() {
    let input = String::from(
        "ifa := 5;\
         fncfor := iret + 2223;",
    );
    let expected_tokens = vec![
        Name(Some("ifa".to_string())), Declaration, Number(5), End,
        Name(Some("fncfor".to_string())), Declaration, Name(Some("iret".to_string())), Plus, Number(2223), End,
    ];
    check(input, expected_tokens);
}

#[test]
fn test_multiple_statements() {
    let input = String::from("a := 5; b := a + 3; c := b * 2;");
    let expected_tokens = vec![
        Name(Some("a".to_string())), Declaration, Number(5), End,
        Name(Some("b".to_string())), Declaration, Name(Some("a".to_string())), Plus, Number(3), End,
        Name(Some("c".to_string())), Declaration, Name(Some("b".to_string())), Star, Number(2), End,
    ];
    check(input, expected_tokens);
}

#[test]
fn test_declare_then_add() {
    let input = String::from("a := 5 + 3;");
    let expected_tokens = vec![
        Name(Some("a".to_string())), Declaration, Number(5), Plus, Number(3), End,
    ];
    check(input, expected_tokens);
}

#[test]
fn test_declaration_never_splits() {
    assert_eq!(lex(String::from(":=")).unwrap(), vec![Declaration]);
    assert_eq!(
        lex(String::from("a:=b")).unwrap(),
        vec![
            Name(Some("a".to_string())),
            Declaration,
            Name(Some("b".to_string()))
        ]
    );
    // A lone colon starts no lexeme at all.
    assert_eq!(
        lex(String::from(":")),
        Err(CompileError::LexError { index: 0 })
    );
}

#[test]
fn test_lex_error_position() {
    assert_eq!(
        lex(String::from("a ~ b")),
        Err(CompileError::LexError { index: 2 })
    );
}

#[test]
fn test_number_overflow_is_identifier() {
    // Twenty nines exceed any i64, so the run falls back to an identifier.
    let input = String::from("99999999999999999999");
    assert_eq!(
        lex(input).unwrap(),
        vec![Name(Some("99999999999999999999".to_string()))]
    );
    // The largest value that still fits stays a number.
    assert_eq!(
        lex(String::from("9223372036854775807")).unwrap(),
        vec![Number(9223372036854775807)]
    );
}
