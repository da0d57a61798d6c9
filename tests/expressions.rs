use dotman::{Condition, EngineError, Expression, ParseError, Token, Value};

#[test]
fn literal_expression() -> Result<(), EngineError> {
    let tokens = vec![Token::String("hi".to_string())];

    let expression = Expression::from_tokens(tokens)?;

    let expected_expression = Expression::StringLiteral("hi".to_string());

    assert_eq!(expression, expected_expression);

    Ok(())
}

#[test]
fn comment_expression() -> Result<(), EngineError> {
    let tokens = vec![Token::Comment];

    let expression = Expression::from_tokens(tokens)?;

    let expected_expression = Expression::Comment;

    assert_eq!(expression, expected_expression);

    Ok(())
}

#[test]
fn variable_assignment() -> Result<(), EngineError> {
    let tokens = vec![
        Token::Variable("test".to_string()),
        Token::Assignment,
        Token::String("testing".to_string()),
    ];

    let expression = Expression::from_tokens(tokens)?;

    let expected_expression =
        Expression::VariableAssignment("test".to_string(), Value::Literal("testing".to_string()));

    assert_eq!(expression, expected_expression);

    Ok(())
}

#[test]
fn if_expression() -> Result<(), EngineError> {
    let tokens = vec![
        Token::If,
        Token::Variable("test".to_string()),
        Token::Condition(true),
        Token::String("testing".to_string()),
        Token::Comment,
    ];

    let expression = Expression::from_tokens(tokens)?;

    let expected_expression = Expression::IfStatement(
        Condition::IsEqual(
            Value::Variable("test".to_string()),
            Value::Literal("testing".to_string()),
        ),
        Box::new(Expression::Comment),
    );

    assert_eq!(expression, expected_expression);

    Ok(())
}

#[test]
fn line_to_expression() {
    let e = Expression::from_string("if $a != \"x\" $b = \"y\"".to_string());
    assert_eq!(
        e,
        Ok(Expression::IfStatement(
            Condition::IsNotEqual(
                Value::Variable("a".to_string()),
                Value::Literal("x".to_string())
            ),
            Box::new(Expression::VariableAssignment(
                "b".to_string(),
                Value::Literal("y".to_string())
            ))
        ))
    );
}

#[test]
fn variable_alone_is_its_value() {
    let e = Expression::from_tokens(vec![Token::Variable("v".to_string())]);
    assert_eq!(e, Ok(Expression::VariableValue("v".to_string())));
}

#[test]
fn assignment_from_variable() {
    let e = Expression::from_tokens(vec![
        Token::Variable("a".to_string()),
        Token::Assignment,
        Token::Variable("b".to_string()),
    ]);
    assert_eq!(
        e,
        Ok(Expression::VariableAssignment(
            "a".to_string(),
            Value::Variable("b".to_string())
        ))
    );
}

#[test]
fn nested_if_with_not_equal() {
    let e = Expression::from_tokens(vec![
        Token::If,
        Token::Variable("a".to_string()),
        Token::Condition(false),
        Token::String("x".to_string()),
        Token::If,
        Token::String("y".to_string()),
        Token::Condition(true),
        Token::Variable("b".to_string()),
        Token::String("out".to_string()),
    ]);
    assert_eq!(
        e,
        Ok(Expression::IfStatement(
            Condition::IsNotEqual(
                Value::Variable("a".to_string()),
                Value::Literal("x".to_string())
            ),
            Box::new(Expression::IfStatement(
                Condition::IsEqual(
                    Value::Literal("y".to_string()),
                    Value::Variable("b".to_string())
                ),
                Box::new(Expression::StringLiteral("out".to_string()))
            ))
        ))
    );
}

fn parse_error(tokens: Vec<Token>) -> Result<Expression, EngineError> {
    Expression::from_tokens(tokens)
}

#[test]
fn empty_tokens_are_an_error() {
    assert_eq!(
        parse_error(vec![]),
        Err(EngineError::Parse(ParseError::NoTokens))
    );
}

#[test]
fn operator_cannot_start_an_expression() {
    assert_eq!(
        parse_error(vec![Token::Assignment]),
        Err(EngineError::Parse(ParseError::UnexpectedToken))
    );
    assert_eq!(
        parse_error(vec![Token::Condition(true)]),
        Err(EngineError::Parse(ParseError::UnexpectedToken))
    );
}

#[test]
fn variable_followed_by_value_is_an_error() {
    assert_eq!(
        parse_error(vec![
            Token::Variable("a".to_string()),
            Token::String("b".to_string())
        ]),
        Err(EngineError::Parse(ParseError::ExpectedAssignment))
    );
}

#[test]
fn assignment_without_value_is_an_error() {
    assert_eq!(
        parse_error(vec![Token::Variable("a".to_string()), Token::Assignment]),
        Err(EngineError::Parse(ParseError::ExpectedAssignedValue))
    );
    assert_eq!(
        parse_error(vec![
            Token::Variable("a".to_string()),
            Token::Assignment,
            Token::If
        ]),
        Err(EngineError::Parse(ParseError::ExpectedAssignedValue))
    );
}

#[test]
fn incomplete_if_is_an_error() {
    assert_eq!(
        parse_error(vec![Token::If]),
        Err(EngineError::Parse(ParseError::MissingValue))
    );
    assert_eq!(
        parse_error(vec![Token::If, Token::If]),
        Err(EngineError::Parse(ParseError::ExpectedValue))
    );
    assert_eq!(
        parse_error(vec![
            Token::If,
            Token::String("a".to_string()),
            Token::String("b".to_string())
        ]),
        Err(EngineError::Parse(ParseError::ExpectedComparison))
    );
    assert_eq!(
        parse_error(vec![
            Token::If,
            Token::String("a".to_string()),
            Token::Condition(true)
        ]),
        Err(EngineError::Parse(ParseError::MissingValue))
    );
    assert_eq!(
        parse_error(vec![
            Token::If,
            Token::String("a".to_string()),
            Token::Condition(true),
            Token::String("b".to_string())
        ]),
        Err(EngineError::Parse(ParseError::NoTokens))
    );
}
