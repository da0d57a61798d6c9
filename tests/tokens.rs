use dotman::{EngineError, Expression, Token, TokenizeError};

#[test]
fn tokinize_string_with_space() -> Result<(), EngineError> {
    let line = r#""this is a test string""#.to_string();

    let tokens = Expression::tokenize_line(line)?;

    let expected_tokens = vec![Token::String("this is a test string".to_string())];

    assert_eq!(tokens, expected_tokens);

    Ok(())
}

#[test]
fn tokinize_assignment() -> Result<(), EngineError> {
    let line = r#"$test = "testing""#.to_string();

    let tokens = Expression::tokenize_line(line)?;

    let expected_tokens = vec![
        Token::Variable("test".to_string()),
        Token::Assignment,
        Token::String("testing".to_string()),
    ];

    assert_eq!(tokens, expected_tokens);

    Ok(())
}

#[test]
fn tokinize_if_expression() -> Result<(), EngineError> {
    let line = r#"if "test" == "testing" $test = "hi""#.to_string();

    let tokens = Expression::tokenize_line(line)?;

    let expected_tokens = vec![
        Token::If,
        Token::String("test".to_string()),
        Token::Condition(true),
        Token::String("testing".to_string()),
        Token::Variable("test".to_string()),
        Token::Assignment,
        Token::String("hi".to_string()),
    ];

    assert_eq!(tokens, expected_tokens);

    Ok(())
}

#[test]
fn tokinize_if_not_expression() -> Result<(), EngineError> {
    let line = r#"if "test" != "testing" $test = "hi""#.to_string();

    let tokens = Expression::tokenize_line(line)?;

    let expected_tokens = vec![
        Token::If,
        Token::String("test".to_string()),
        Token::Condition(false),
        Token::String("testing".to_string()),
        Token::Variable("test".to_string()),
        Token::Assignment,
        Token::String("hi".to_string()),
    ];

    assert_eq!(tokens, expected_tokens);

    Ok(())
}

#[test]
fn tokinize_comment() -> Result<(), EngineError> {
    let line = "// This is a test comment".to_string();

    let tokens = Expression::tokenize_line(line)?;

    let expected_tokens = vec![Token::Comment];

    assert_eq!(tokens, expected_tokens);

    Ok(())
}

#[test]
fn comment_ignores_everything_after_it() {
    let tokens = Expression::tokenize_line("// $x = \"unterminated !".to_string());
    assert_eq!(tokens, Ok(vec![Token::Comment]));
}

#[test]
fn comment_after_tokens_keeps_them() {
    let tokens = Expression::tokenize_line("\"a\" // note".to_string());
    assert_eq!(tokens, Ok(vec![Token::String("a".to_string()), Token::Comment]));
}

#[test]
fn single_slashes_are_no_comment() {
    let tokens = Expression::tokenize_line("\"a/b\"".to_string());
    assert_eq!(tokens, Ok(vec![Token::String("a/b".to_string())]));
}

#[test]
fn tokenizing_twice_gives_the_same_tokens_in_order() {
    let line = "if $a != \"x\" $b = $c ".to_string();
    let first = Expression::tokenize_line(line.clone());
    let second = Expression::tokenize_line(line);
    assert_eq!(first, second);
    assert_eq!(
        first,
        Ok(vec![
            Token::If,
            Token::Variable("a".to_string()),
            Token::Condition(false),
            Token::String("x".to_string()),
            Token::Variable("b".to_string()),
            Token::Assignment,
            Token::Variable("c".to_string()),
        ])
    );
}

#[test]
fn variable_at_end_of_line_is_emitted() {
    let tokens = Expression::tokenize_line("$name".to_string());
    assert_eq!(tokens, Ok(vec![Token::Variable("name".to_string())]));
}

#[test]
fn assignment_without_space_keeps_next_character() {
    let tokens = Expression::tokenize_line("$a =x ".to_string());
    assert_eq!(
        tokens,
        Ok(vec![Token::Variable("a".to_string()), Token::Assignment])
    );
}

#[test]
fn escaped_quote_does_not_close_string() {
    let tokens = Expression::tokenize_line("\"a\\\"b\"".to_string());
    assert_eq!(tokens, Ok(vec![Token::String("a\\b".to_string())]));
}

#[test]
fn dangling_assignment_is_an_error() {
    let tokens = Expression::tokenize_line("$a =".to_string());
    assert_eq!(
        tokens,
        Err(EngineError::Tokenize(TokenizeError::UnexpectedEnd))
    );
}

#[test]
fn dangling_bang_is_an_error() {
    let tokens = Expression::tokenize_line("\"a\" !".to_string());
    assert_eq!(
        tokens,
        Err(EngineError::Tokenize(TokenizeError::UnexpectedEnd))
    );
}

#[test]
fn bang_without_equals_is_an_error() {
    let tokens = Expression::tokenize_line("\"a\" !x".to_string());
    assert_eq!(
        tokens,
        Err(EngineError::Tokenize(TokenizeError::UnknownComparison('x')))
    );
}

#[test]
fn unterminated_string_is_an_error() {
    let tokens = Expression::tokenize_line("\"abc".to_string());
    assert_eq!(
        tokens,
        Err(EngineError::Tokenize(TokenizeError::UnterminatedString))
    );
}

#[test]
fn escaped_space_stays_in_variable_name() {
    let tokens = Expression::tokenize_line("$a\\ b = \"v\"".to_string());
    assert_eq!(
        tokens,
        Ok(vec![
            Token::Variable("a\\ b".to_string()),
            Token::Assignment,
            Token::String("v".to_string())
        ])
    );
}

#[test]
fn value_may_abut_assignment() {
    assert_eq!(
        Expression::tokenize_line(r#"$a ="x""#.to_string()),
        Ok(vec![
            Token::Variable("a".into()),
            Token::Assignment,
            Token::String("x".into())
        ])
    );
    assert_eq!(
        Expression::tokenize_line("$a =$b".to_string()),
        Ok(vec![
            Token::Variable("a".into()),
            Token::Assignment,
            Token::Variable("b".into())
        ])
    );
}

#[test]
fn if_inside_variable_name_is_no_keyword() {
    assert_eq!(
        Expression::tokenize_line("$iffy".to_string()),
        Ok(vec![Token::Variable("iffy".into())])
    );
}

#[test]
fn string_holds_only_quoted_text() {
    assert_eq!(
        Expression::tokenize_line(r#"if "a" == "a" "c""#.to_string()),
        Ok(vec![
            Token::If,
            Token::String("a".into()),
            Token::Condition(true),
            Token::String("a".into()),
            Token::String("c".into())
        ])
    );
}

#[test]
fn quoted_comparison_in_either_order() {
    for (x, y) in [("left side", "right"), ("right", "left side")] {
        for (op, equal) in [("==", true), ("!=", false)] {
            let line = format!(r#""{x}" {op} "{y}""#);
            assert_eq!(
                Expression::tokenize_line(line),
                Ok(vec![
                    Token::String(x.to_string()),
                    Token::Condition(equal),
                    Token::String(y.to_string())
                ])
            );
        }
    }
}

#[test]
fn text_after_comment_after_prefix_is_ignored() {
    let p = "\"a b\" $v ".to_string();
    let short = Expression::tokenize_line(p.clone() + "//");
    let long = Expression::tokenize_line(p + "// \"open = !");
    assert_eq!(short, long);
    assert_eq!(
        long,
        Ok(vec![
            Token::String("a b".into()),
            Token::Variable("v".into()),
            Token::Comment
        ])
    );
}
