use jmespath::lexer::{tokenize, Token};
use jmespath::value::Value;

fn collect(expr: &str) -> Vec<(usize, Token)> {
    let mut lexer = tokenize(expr);
    lexer.collect_tokens()
}

#[test]
fn tokenize_basic_test() {
    assert!(tokenize(".").next() == Some((0, Token::Dot)));
    assert!(tokenize("*").next() == Some((0, Token::Star)));
    assert!(tokenize("@").next() == Some((0, Token::At)));
    assert!(tokenize("]").next() == Some((0, Token::Rbracket)));
    assert!(tokenize("{").next() == Some((0, Token::Lbrace)));
    assert!(tokenize("}").next() == Some((0, Token::Rbrace)));
    assert!(tokenize("(").next() == Some((0, Token::Lparen)));
    assert!(tokenize(")").next() == Some((0, Token::Rparen)));
    assert!(tokenize(",").next() == Some((0, Token::Comma)));
}

#[test]
fn tokenize_lbracket_test() {
    assert_eq!(tokenize("[").next(), Some((0, Token::Lbracket)));
    assert_eq!(tokenize("[]").next(), Some((0, Token::Flatten)));
    assert_eq!(tokenize("[?").next(), Some((0, Token::Filter)));
}

#[test]
fn tokenize_pipe_test() {
    assert!(tokenize("|").next() == Some((0, Token::Pipe)));
    assert!(tokenize("||").next() == Some((0, Token::Or)));
}

#[test]
fn tokenize_lt_gt_test() {
    assert!(tokenize("<").next() == Some((0, Token::Lt)));
    assert!(tokenize("<=").next() == Some((0, Token::Lte)));
    assert!(tokenize(">").next() == Some((0, Token::Gt)));
    assert!(tokenize(">=").next() == Some((0, Token::Gte)));
}

#[test]
fn tokenize_eq_ne_test() {
    assert_eq!(
        tokenize("=").next(),
        Some((0, Token::Error { value: "=".to_string(), msg: "Did you mean \"==\"?".to_string() }))
    );
    assert!(tokenize("==").next() == Some((0, Token::Eq)));
    assert!(tokenize("!").next() == Some((0, Token::Not)));
    assert!(tokenize("!=").next() == Some((0, Token::Ne)));
}

#[test]
fn skips_whitespace() {
    let mut tokens = tokenize(" \t\n\r\t. (");
    assert_eq!(tokens.next(), Some((5, Token::Dot)));
    assert_eq!(tokens.next(), Some((7, Token::Lparen)));
}

#[test]
fn tokenize_single_error_test() {
    assert_eq!(
        tokenize("~").next(),
        Some((0, Token::Error { value: "~".to_string(), msg: "".to_string() }))
    );
}

#[test]
fn tokenize_unclosed_errors_test() {
    assert_eq!(
        tokenize("\"foo").next(),
        Some((0, Token::Error {
            value: "\"foo".to_string(),
            msg: "Unclosed \" delimiter".to_string()
        }))
    );
    assert_eq!(
        tokenize("`foo").next(),
        Some((0, Token::Error {
            value: "`foo".to_string(),
            msg: "Unclosed ` delimiter".to_string()
        }))
    );
}

#[test]
fn tokenize_identifier_test() {
    assert_eq!(
        tokenize("foo_bar").next(),
        Some((0, Token::Identifier("foo_bar".to_string())))
    );
    assert_eq!(tokenize("a").next(), Some((0, Token::Identifier("a".to_string()))));
    assert_eq!(tokenize("_a").next(), Some((0, Token::Identifier("_a".to_string()))));
}

#[test]
fn tokenize_quoted_identifier_test() {
    assert_eq!(
        tokenize("\"foo\"").next(),
        Some((0, Token::QuotedIdentifier("foo".to_string())))
    );
    assert_eq!(
        tokenize("\"\"").next(),
        Some((0, Token::QuotedIdentifier("".to_string())))
    );
    assert_eq!(
        tokenize("\"a_b\"").next(),
        Some((0, Token::QuotedIdentifier("a_b".to_string())))
    );
    assert_eq!(
        tokenize("\"a\\nb\"").next(),
        Some((0, Token::QuotedIdentifier("a\nb".to_string())))
    );
    assert_eq!(
        tokenize("\"a\\\\nb\"").next(),
        Some((0, Token::QuotedIdentifier("a\\nb".to_string())))
    );
}

#[test]
fn tokenize_raw_string_test() {
    assert_eq!(
        tokenize("'foo'").next(),
        Some((0, Token::Literal(Value::Str("foo".to_string()))))
    );
    assert_eq!(
        tokenize("''").next(),
        Some((0, Token::Literal(Value::Str("".to_string()))))
    );
    assert_eq!(
        tokenize("'a\\nb'").next(),
        Some((0, Token::Literal(Value::Str("a\\nb".to_string()))))
    );
}

#[test]
fn tokenize_literal_test() {
    // Must enclose in quotes. See JEP 12.
    assert_eq!(
        tokenize("`a`").next(),
        Some((0, Token::Error {
            value: "`a`".to_string(),
            msg: "Unable to parse literal JSON: SyntaxError(\"invalid syntax\", 1, 1)".to_string()
        }))
    );
    assert_eq!(
        tokenize("`\"a\"`").next(),
        Some((0, Token::Literal(Value::Str("a".to_string()))))
    );
    assert_eq!(
        tokenize("`\"a b\"`").next(),
        Some((0, Token::Literal(Value::Str("a b".to_string()))))
    );
}

#[test]
fn tokenize_number_test() {
    assert_eq!(tokenize("0").next(), Some((0, Token::Number(0))));
    assert_eq!(tokenize("1").next(), Some((0, Token::Number(1))));
    assert_eq!(tokenize("123").next(), Some((0, Token::Number(123))));
}

#[test]
fn tokenize_negative_number_test() {
    assert_eq!(tokenize("-10").next(), Some((0, Token::Number(-10))));
}

#[test]
fn tokenize_negative_number_test_failure() {
    assert_eq!(
        tokenize("-01").next(),
        Some((0, Token::Error {
            value: "-".to_string(),
            msg: "Negative sign must be followed by numbers 1-9".to_string()
        }))
    );
}

#[test]
fn tokenize_successive_test() {
    let expr = "foo.bar || `\"a\"` | 10";
    let mut tokens = tokenize(expr);
    assert_eq!(tokens.next(), Some((0, Token::Identifier("foo".to_string()))));
    assert_eq!(tokens.next(), Some((3, Token::Dot)));
    assert_eq!(tokens.next(), Some((4, Token::Identifier("bar".to_string()))));
    assert_eq!(tokens.next(), Some((8, Token::Or)));
    assert_eq!(tokens.next(), Some((11, Token::Literal(Value::Str("a".to_string())))));
    assert_eq!(tokens.next(), Some((17, Token::Pipe)));
    assert_eq!(tokens.next(), Some((19, Token::Number(10))));
    assert_eq!(tokens.next(), Some((21, Token::Eof)));
    assert_eq!(tokens.next(), None);
}

#[test]
fn token_has_lbp_test() {
    assert!(0 == Token::Rparen.lbp());
    assert!(1 == Token::Pipe.lbp());
    assert!(60 == Token::Lparen.lbp());
}

#[test]
fn returns_token_name_test() {
    assert_eq!("Identifier", Token::Identifier("a".to_string()).token_name());
    assert_eq!("Number", Token::Number(0).token_name());
    assert_eq!("Literal", Token::Literal(Value::Str("a".to_string())).token_name());
    assert_eq!(
        "Error",
        Token::Error { value: "".to_string(), msg: "".to_string() }.token_name()
    );
    assert_eq!("Dot".to_string(), Token::Dot.token_name());
}

#[test]
fn tokenizes_slices() {
    let tokens: Vec<(usize, Token)> = collect("foo[0::-1]");
    assert_eq!(
        "[(0, Identifier(\"foo\")), (3, Lbracket), (4, Number(0)), (5, Colon), \
          (6, Colon), (7, Number(-1)), (9, Rbracket), (10, Eof)]",
        format!("{:?}", tokens)
    );
}

#[test]
fn determines_if_number() {
    assert_eq!(true, Token::Number(10).is_number());
    assert_eq!(false, Token::Comma.is_number());
}
