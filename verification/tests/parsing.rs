use minilisp::ast::Token;
use minilisp::errors::EvalError;
use minilisp::expr::Expr;
use minilisp::parser::parse;
use minilisp::tokenizer::tokenize;

#[test]
fn should_parse_expressions() {
    let cases = [
        ("(1)", Expr::List(vec![Expr::Int(1)])),
        ("(2)", Expr::List(vec![Expr::Int(2)])),
        ("(#t)", Expr::List(vec![Expr::Bool(true)])),
        ("(#f)", Expr::List(vec![Expr::Bool(false)])),
        ("(1 2)", Expr::List(vec![Expr::Int(1), Expr::Int(2)])),
    ];
    for (input, expected) in cases.into_iter() {
        let parsed: Expr = parse(input).unwrap();
        assert_eq!(parsed, expected);
    }
}

#[test]
fn parses_integer_literals() {
    assert_eq!(
        parse("(1 2)").unwrap(),
        Expr::List(vec![Expr::Int(1), Expr::Int(2)])
    );
}

#[test]
fn parses_true_literal() {
    assert_eq!(parse("(#t)").unwrap(), Expr::List(vec![Expr::Bool(true)]));
}

#[test]
fn parses_false_literal() {
    assert_eq!(parse("(#f)").unwrap(), Expr::List(vec![Expr::Bool(false)]));
}

#[test]
fn parses_nil_literal() {
    assert_eq!(parse("(nil)").unwrap(), Expr::List(vec![Expr::Nil]));
}

#[test]
fn parses_signed_integers() {
    assert_eq!(
        parse("(-5 +3)").unwrap(),
        Expr::List(vec![Expr::Int(-5), Expr::Int(3)])
    );
    assert_eq!(
        parse("(2147483647 -2147483648)").unwrap(),
        Expr::List(vec![Expr::Int(i32::MAX), Expr::Int(i32::MIN)])
    );
}

#[test]
fn words_that_are_not_numbers_are_symbols() {
    assert_eq!(
        parse("(x -)").unwrap(),
        Expr::List(vec![
            Expr::Symbol("x".to_string()),
            Expr::Symbol("-".to_string())
        ])
    );
}

#[test]
fn integer_literal_overflow_is_malformed_syntax() {
    assert!(matches!(
        parse("(2147483648)"),
        Err(EvalError::MalformedSyntax)
    ));
    assert!(matches!(
        parse("(-2147483649)"),
        Err(EvalError::MalformedSyntax)
    ));
}

#[test]
fn missing_opening_parenthesis_is_malformed_syntax() {
    assert!(matches!(parse("x"), Err(EvalError::MalformedSyntax)));
    assert!(matches!(parse(""), Err(EvalError::MalformedSyntax)));
}

#[test]
fn unbalanced_input_returns_the_partial_list() {
    assert_eq!(
        parse("(1 2").unwrap(),
        Expr::List(vec![Expr::Int(1), Expr::Int(2)])
    );
}

#[test]
fn quote_tokens_are_recognized_and_skipped() {
    let tokens = tokenize("(' 1)").unwrap();
    assert_eq!(
        tokens,
        vec![Token::LParen, Token::Quote, Token::Int(1), Token::RParen]
    );
    assert_eq!(parse("(' 1)").unwrap(), Expr::List(vec![Expr::Int(1)]));
}

#[test]
fn tokenizes_words_and_parentheses() {
    let tokens = tokenize("(+ 12 x nil #t #f)").unwrap();
    assert_eq!(
        tokens,
        vec![
            Token::LParen,
            Token::Symbol("+".to_string()),
            Token::Int(12),
            Token::Symbol("x".to_string()),
            Token::Nil,
            Token::True,
            Token::False,
            Token::RParen,
        ]
    );
}

#[test]
fn parentheses_need_no_surrounding_spaces() {
    assert_eq!(
        parse("((1)(2))").unwrap(),
        Expr::List(vec![
            Expr::List(vec![Expr::Int(1)]),
            Expr::List(vec![Expr::Int(2)])
        ])
    );
}

#[test]
fn nested_lists_parse_as_trees() {
    assert_eq!(
        parse("(a (b 1) ())").unwrap(),
        Expr::List(vec![
            Expr::Symbol("a".to_string()),
            Expr::List(vec![Expr::Symbol("b".to_string()), Expr::Int(1)]),
            Expr::List(vec![]),
        ])
    );
}
