use dotman::{EngineError, Expression, TemplateEngine, Token, TokenizeError};

#[test]
fn add_variables() -> Result<(), EngineError> {
    let mut engine = TemplateEngine::default();

    let source_file = format!(r#"$test = "testing""#);

    engine.evaluate_source_file(source_file)?;

    assert_eq!(engine.variables.get("test").unwrap(), "testing");

    Ok(())
}

#[test]
fn insert_variable() -> Result<(), EngineError> {
    let mut engine = TemplateEngine::default();

    let template_file = "{{ $test = \"Test value\" }}\nTrash line\n{{ $test }}".to_string();

    engine.evaluate_template_file(template_file.clone())?;

    let result = engine.new_file_contents(&template_file);

    let expected_result = "\nTrash line\nTest value\n".to_string();

    assert_eq!(result, expected_result);

    Ok(())
}

#[test]
fn conditional_assignment() -> Result<(), EngineError> {
    let mut engine = TemplateEngine::default();

    let source_file = "if \"test\" == \"test\" $test = \"success\" ".to_string();

    engine.evaluate_source_file(source_file)?;

    assert_eq!(engine.variables.get("test").unwrap(), "success");

    Ok(())
}

#[test]
fn mirrored_condition_assigns_nothing() -> Result<(), EngineError> {
    let mut engine = TemplateEngine::default();
    engine.evaluate_source_file("if \"test\" != \"test\" $test = \"success\" ".to_string())?;
    assert_eq!(engine.variables.get("test"), None);
    assert_eq!(engine.template_results, vec![(None, 0)]);
    Ok(())
}

#[test]
fn evaluate_parsed_assignment_in_fresh_environment() -> Result<(), EngineError> {
    let mut engine = TemplateEngine::default();
    let tokens = Expression::tokenize_line(r#"$test = "testing""#.to_string())?;
    let expression = Expression::from_tokens(tokens)?;
    let produced = engine.evaluate_expression(expression)?;
    assert_eq!(produced, None);
    assert_eq!(engine.variables.get("test").unwrap(), "testing");
    Ok(())
}

#[test]
fn nested_conditional_runs_only_when_equal() -> Result<(), EngineError> {
    let mut engine = TemplateEngine::default();
    engine.evaluate_source_file(
        "$a = \"x\"\n$b = \"y\"\nif $a == $b $c = \"set\" \nif $a == $a $d = \"set\" ".to_string(),
    )?;
    assert_eq!(engine.variables.get("c"), None);
    assert_eq!(engine.variables.get("d").unwrap(), "set");
    Ok(())
}

#[test]
fn nested_conditional_returns_inner_value() -> Result<(), EngineError> {
    let mut engine = TemplateEngine::default();
    engine.evaluate_source_file("$a = \"x\"\n$b = \"x\"".to_string())?;
    let nested = |equal: bool| {
        Expression::from_tokens(vec![
            Token::If,
            Token::Variable("a".to_string()),
            Token::Condition(equal),
            Token::Variable("b".to_string()),
            Token::String("same".to_string()),
        ])
    };
    assert_eq!(
        engine.evaluate_expression(nested(true)?)?,
        Some("same".to_string())
    );
    assert_eq!(engine.evaluate_expression(nested(false)?)?, None);
    Ok(())
}

#[test]
fn nested_conditional_line_returns_its_value() -> Result<(), EngineError> {
    let out = TemplateEngine::parse_files(vec![(
        "{{ $a = \"x\" }}\n{{ $b = \"x\" }}\n{{ if $a == $b \"yes\" }}\n{{ if $a != $b \"no\" }}\n{{ if \"a\" == \"a\" if $a == $b \"deep\" }}"
            .to_string(),
        false,
    )])?;
    assert_eq!(out, vec!["\n\nyes\n\ndeep\n".to_string()]);
    Ok(())
}

#[test]
fn undefined_variable_is_an_error() {
    let mut engine = TemplateEngine::default();
    let r = engine.evaluate_source_file("$a = $missing".to_string());
    assert_eq!(
        r,
        Err(EngineError::UndefinedVariable("missing".to_string()))
    );
    assert_eq!(engine.variables.get("a"), None);
}

#[test]
fn comparison_with_undefined_variable_is_an_error() {
    let mut engine = TemplateEngine::default();
    let r = engine.evaluate_source_file("if $nope == \"x\" \"y\"".to_string());
    assert_eq!(r, Err(EngineError::UndefinedVariable("nope".to_string())));
}

#[test]
fn later_assignment_wins() -> Result<(), EngineError> {
    let mut engine = TemplateEngine::default();
    engine.evaluate_source_file("$v = \"one\"\n$v = \"two\"\n$w = $v".to_string())?;
    assert_eq!(engine.variables.get("v").unwrap(), "two");
    assert_eq!(engine.variables.get("w").unwrap(), "two");
    Ok(())
}

#[test]
fn source_mode_skips_blank_lines() -> Result<(), EngineError> {
    let mut engine = TemplateEngine::default();
    engine.evaluate_source_file("$a = \"1\"\n\n   \n\"text\"".to_string())?;
    assert_eq!(
        engine.template_results,
        vec![(None, 0), (Some("text".to_string()), 3)]
    );
    Ok(())
}

#[test]
fn template_mode_reads_only_directives() -> Result<(), EngineError> {
    let mut engine = TemplateEngine::default();
    engine.evaluate_template_file("plain $x = !\n  {{ \"v\" }}  \n{ not }".to_string())?;
    assert_eq!(engine.template_results, vec![(Some("v".to_string()), 1)]);
    Ok(())
}

#[test]
fn template_without_directives_is_unchanged() -> Result<(), EngineError> {
    let out = TemplateEngine::parse_files(vec![
        ("first\nsecond".to_string(), false),
        ("ends with newline\n".to_string(), false),
        (String::new(), false),
    ])?;
    assert_eq!(
        out,
        vec![
            "first\nsecond\n".to_string(),
            "ends with newline\n".to_string(),
            String::new()
        ]
    );
    Ok(())
}

#[test]
fn end_to_end_template() -> Result<(), EngineError> {
    let out = TemplateEngine::parse_files(vec![(
        "{{ $test = \"Test value\" }}\nTrash line\n{{ $test }}".to_string(),
        false,
    )])?;
    assert_eq!(out, vec!["\nTrash line\nTest value\n".to_string()]);
    Ok(())
}

#[test]
fn batch_shares_environment() -> Result<(), EngineError> {
    let out = TemplateEngine::parse_files(vec![
        ("$x = \"shared\"".to_string(), true),
        ("value: \n{{ $x }}\n".to_string(), false),
    ])?;
    assert_eq!(out, vec!["\n".to_string(), "value: \nshared\n".to_string()]);
    Ok(())
}

#[test]
fn batch_fails_on_first_error() {
    let out = TemplateEngine::parse_files(vec![
        ("{{ \"fine\" }}".to_string(), false),
        ("{{ $a = }}".to_string(), false),
        ("{{ $undefined }}".to_string(), false),
    ]);
    assert_eq!(
        out,
        Err(EngineError::Tokenize(TokenizeError::UnexpectedEnd))
    );
}

#[test]
fn batch_reports_undefined_variable() {
    let out = TemplateEngine::parse_files(vec![("{{ $nope }}".to_string(), false)]);
    assert_eq!(out, Err(EngineError::UndefinedVariable("nope".to_string())));
}

#[test]
fn batch_results_are_scoped_per_file() -> Result<(), EngineError> {
    let out = TemplateEngine::parse_files(vec![
        ("a\n{{ \"one\" }}".to_string(), false),
        ("{{ \"two\" }}\nb".to_string(), false),
    ])?;
    assert_eq!(out, vec!["a\none\n".to_string(), "two\nb\n".to_string()]);
    Ok(())
}

#[test]
fn rendering_twice_changes_nothing() -> Result<(), EngineError> {
    let first = TemplateEngine::parse_files(vec![("one\n\n  two".to_string(), false)])?;
    let again = TemplateEngine::parse_files(vec![(first[0].clone(), false)])?;
    assert_eq!(first, vec!["one\n\n  two\n".to_string()]);
    assert_eq!(again, first);
    Ok(())
}

#[test]
fn second_file_reads_any_plain_name() -> Result<(), EngineError> {
    let out = TemplateEngine::parse_files(vec![
        ("$home_dir = \"/home/me\"\n$other = \"x\"".to_string(), true),
        ("{{ $home_dir }}".to_string(), false),
    ])?;
    assert_eq!(out, vec!["\n\n".to_string(), "/home/me\n".to_string()]);
    Ok(())
}
