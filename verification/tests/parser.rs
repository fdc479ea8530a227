use arm_template::ArmExpression;
use arm_template::FunctionExpression;
use arm_template::FunctionName;
use arm_template::LiteralValue;
use arm_template::ParseError;
use arm_template::parse;
use arm_template::render_string_literal;

fn lit_str(s: &str) -> ArmExpression {
    ArmExpression::Literal(LiteralValue::String(s.to_string()))
}

fn lit_num(s: &str) -> ArmExpression {
    ArmExpression::Literal(LiteralValue::Number(s.to_string()))
}

fn call(name: FunctionName, arguments: Vec<ArmExpression>) -> ArmExpression {
    ArmExpression::Function(FunctionExpression { name, arguments })
}

#[test]
fn empty_string_is_absent_expression() {
    assert_eq!(parse(""), Ok(ArmExpression::Empty));
}

#[test]
fn parameters_reference_with_and_without_brackets() {
    let expected = Ok(ArmExpression::Parameter("foo".to_string()));
    assert_eq!(parse("parameters(foo)"), expected);
    assert_eq!(parse("[parameters(foo)]"), expected);
}

#[test]
fn variables_reference_with_and_without_brackets() {
    let expected = Ok(ArmExpression::Variable("foo".to_string()));
    assert_eq!(parse("variables(foo)"), expected);
    assert_eq!(parse("[variables(foo)]"), expected);
}

#[test]
fn nested_call_with_literal_and_parameter() {
    assert_eq!(
        parse("[concat('a', parameters('b'))]"),
        Ok(call(
            FunctionName::Concat,
            vec![lit_str("a"), ArmExpression::Parameter("b".to_string())],
        ))
    );
}

#[test]
fn quoted_comma_does_not_split_arguments() {
    assert_eq!(
        parse("[format('{0},{1}', 'x,y', 1)]"),
        Ok(call(
            FunctionName::Format,
            vec![lit_str("{0},{1}"), lit_str("x,y"), lit_num("1")],
        ))
    );
}

#[test]
fn unknown_function_is_a_typed_error() {
    assert_eq!(
        parse("[notAFunction('x')]"),
        Err(ParseError::UnknownFunction("notAFunction".to_string()))
    );
}

#[test]
fn nesting_beyond_the_limit_is_a_typed_error() {
    let mut s = String::new();
    for _ in 0..70 {
        s.push_str("concat(");
    }
    s.push_str("'x'");
    for _ in 0..70 {
        s.push(')');
    }
    let wrapped = format!("[{}]", s);
    assert_eq!(parse(&wrapped), Err(ParseError::RecursionLimit));
}

#[test]
fn nesting_within_the_limit_parses() {
    let mut s = String::new();
    for _ in 0..10 {
        s.push_str("concat(");
    }
    s.push_str("'x'");
    for _ in 0..10 {
        s.push(')');
    }
    let wrapped = format!("[{}]", s);
    let mut expected = lit_str("x");
    for _ in 0..10 {
        expected = call(FunctionName::Concat, vec![expected]);
    }
    assert_eq!(parse(&wrapped), Ok(expected));
}

#[test]
fn rendered_string_literal_round_trips() {
    let rendered = render_string_literal("foo");
    assert_eq!(rendered, "'foo'");
    assert_eq!(parse(&rendered), Ok(lit_str("foo")));
}

#[test]
fn rendered_literal_with_quotes_round_trips() {
    let rendered = render_string_literal("it's");
    assert_eq!(rendered, "'it''s'");
    assert_eq!(parse(&rendered), Ok(lit_str("it's")));
}

#[test]
fn escaped_quote_inside_argument() {
    assert_eq!(
        parse("[concat('it''s')]"),
        Ok(call(FunctionName::Concat, vec![lit_str("it's")]))
    );
}

#[test]
fn numbers_booleans_and_bare_tokens() {
    assert_eq!(parse("123"), Ok(lit_num("123")));
    assert_eq!(parse("-2.5e3"), Ok(lit_num("-2.5e3")));
    assert_eq!(parse("true"), Ok(ArmExpression::Literal(LiteralValue::Boolean(true))));
    assert_eq!(
        parse("[if(TRUE, 1, FALSE)]"),
        Ok(call(
            FunctionName::If,
            vec![
                ArmExpression::Literal(LiteralValue::Boolean(true)),
                lit_num("1"),
                ArmExpression::Literal(LiteralValue::Boolean(false)),
            ],
        ))
    );
    assert_eq!(parse("hello world"), Ok(lit_str("hello world")));
}

#[test]
fn malformed_number_is_a_typed_error() {
    assert_eq!(parse("[concat(1.2.3)]"), Err(ParseError::InvalidNumber));
    assert_eq!(parse("12x"), Err(ParseError::InvalidNumber));
}

#[test]
fn unterminated_string_is_a_typed_error() {
    assert_eq!(parse("[concat('a)]"), Err(ParseError::UnterminatedString));
    assert_eq!(parse("'abc"), Err(ParseError::UnterminatedString));
}

#[test]
fn unbalanced_parentheses_are_a_typed_error() {
    assert_eq!(parse("[concat(a]"), Err(ParseError::UnbalancedParenthesis));
    assert_eq!(parse("[concat(concat(a)]"), Err(ParseError::UnbalancedParenthesis));
    assert_eq!(parse("[noparens]"), Err(ParseError::UnbalancedParenthesis));
}

#[test]
fn empty_function_name_is_a_typed_error() {
    assert_eq!(parse("[('x')]"), Err(ParseError::EmptyFunctionName));
}

#[test]
fn empty_argument_list_parses_to_no_arguments() {
    assert_eq!(
        parse("[resourceGroup()]"),
        Ok(call(FunctionName::ResourceGroup, vec![]))
    );
}

#[test]
fn whitespace_around_arguments_is_trimmed() {
    assert_eq!(
        parse("[ resourceId( 'a' , parameters('b') ) ]"),
        Ok(call(
            FunctionName::ResourceId,
            vec![lit_str("a"), ArmExpression::Parameter("b".to_string())],
        ))
    );
}

#[test]
fn copy_index_and_quoted_reference_names() {
    assert_eq!(
        parse("[copyIndex()]"),
        Ok(call(FunctionName::CopyIndex, vec![]))
    );
    assert_eq!(
        parse("[parameters('storageName')]"),
        Ok(ArmExpression::Parameter("storageName".to_string()))
    );
}

#[test]
fn named_float_forms_are_numbers() {
    assert_eq!(parse("inf"), Ok(lit_num("inf")));
    assert_eq!(parse("NaN"), Ok(lit_num("NaN")));
    assert_eq!(parse("-Infinity"), Ok(lit_num("-Infinity")));
    assert_eq!(parse("[concat(.5, 2., +3e-1)]"),
        Ok(call(FunctionName::Concat, vec![lit_num(".5"), lit_num("2."), lit_num("+3e-1")])));
}

#[test]
fn number_like_but_malformed_forms_fail() {
    assert_eq!(parse("1e"), Err(ParseError::InvalidNumber));
    assert_eq!(parse("."), Err(ParseError::InvalidNumber));
    assert_eq!(parse("+"), Err(ParseError::InvalidNumber));
    assert_eq!(parse("1e+"), Err(ParseError::InvalidNumber));
}
