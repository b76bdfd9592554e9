use marketlab::ast::{BinOp, CompileError, OslParamType, TokenKind};
use marketlab::compile_context::ScriptCompileContext;
use marketlab::parser::{detect_multi_root, parse, parse_with_context, Expr, Literal};

fn number(text: &str) -> Expr {
    Expr::Literal(Literal::Number(text.to_string()))
}

fn call(name: &str, args: Vec<Expr>) -> Expr {
    Expr::Call {
        name: name.to_string(),
        args,
    }
}

#[test]
fn parse_respects_multiplication_precedence() {
    let expr = parse("data + 2 * 3").unwrap();
    assert_eq!(
        expr,
        Expr::Binary(
            Box::new(Expr::Input),
            BinOp::Add,
            Box::new(Expr::Binary(Box::new(number("2")), BinOp::Mul, Box::new(number("3")))),
        )
    );
}

#[test]
fn parse_is_left_associative() {
    let expr = parse("10 - 4 - 3").unwrap();
    assert_eq!(
        expr,
        Expr::Binary(
            Box::new(Expr::Binary(Box::new(number("10")), BinOp::Sub, Box::new(number("4")))),
            BinOp::Sub,
            Box::new(number("3")),
        )
    );
}

#[test]
fn parse_parentheses_override_precedence() {
    let expr = parse("(close + 1) / 2").unwrap();
    assert_eq!(
        expr,
        Expr::Binary(
            Box::new(Expr::Binary(Box::new(Expr::Input), BinOp::Add, Box::new(number("1")))),
            BinOp::Div,
            Box::new(number("2")),
        )
    );
}

#[test]
fn parse_leading_minus_subtracts_from_zero() {
    let expr = parse("--x").unwrap();
    assert_eq!(
        expr,
        Expr::Binary(
            Box::new(number("0")),
            BinOp::Sub,
            Box::new(Expr::Binary(Box::new(number("0")), BinOp::Sub, Box::new(Expr::Input))),
        )
    );
}

#[test]
fn parse_nested_calls() {
    let expr = parse("cross(sma(data, 10), sma(data, 30))").unwrap();
    assert_eq!(
        expr,
        call(
            "cross",
            vec![
                call("sma", vec![Expr::Input, number("10")]),
                call("sma", vec![Expr::Input, number("30")]),
            ]
        )
    );
    assert_eq!(parse("f()").unwrap(), call("f", vec![]));
}

#[test]
fn parse_identity_in_any_case() {
    assert_eq!(parse("  IDENTITY ").unwrap(), call("identity", vec![]));
}

#[test]
fn parse_reports_each_failure() {
    assert_eq!(parse("   "), Err(CompileError::EmptyInput));
    assert_eq!(parse("foo"), Err(CompileError::UnknownIdentifier("foo".to_string())));
    assert_eq!(
        parse("data 1"),
        Err(CompileError::UnexpectedToken {
            expected: "end of expression",
            got: TokenKind::Number,
        })
    );
    assert_eq!(
        parse("sma(data, 3"),
        Err(CompileError::UnexpectedToken {
            expected: "')'",
            got: TokenKind::Eof,
        })
    );
    assert_eq!(
        parse("1 + * 2"),
        Err(CompileError::UnexpectedToken {
            expected: "number, identifier, or '('",
            got: TokenKind::Star,
        })
    );
    assert_eq!(
        parse("close(3)"),
        Err(CompileError::Evaluation(
            "input binding `close` is not callable".to_string()
        ))
    );
    assert_eq!(
        parse("1 $ 2"),
        Err(CompileError::Evaluation("unexpected character `$`".to_string()))
    );
}

#[test]
fn void_main_scalar_binds_to_parameter() {
    let script = r#"
void main(
    float source_stream,
    int trend_period,
    output float baseline
) {
    baseline = ta_ema(source_stream, trend_period);
}"#;
    let ctx = ScriptCompileContext::from_script_source(script);
    assert!(ctx.series_inputs.contains(&"source_stream".to_string()));
    assert_eq!(ctx.scalar_params.len(), 1);
    assert_eq!(ctx.scalar_params[0].name, "trend_period");
    assert_eq!(ctx.scalar_params[0].ty, OslParamType::Int);
    assert_eq!(ctx.scalar_params[0].default_literal, None);
    let expr = parse_with_context("ta_ema(source_stream, trend_period)", &ctx).unwrap();
    assert_eq!(
        expr,
        call(
            "ta_ema",
            vec![Expr::Input, Expr::Literal(Literal::Scalar("trend_period".to_string()))]
        )
    );
    assert_eq!(
        parse_with_context("trend_period(1)", &ctx),
        Err(CompileError::Evaluation(
            "scalar parameter `trend_period` is not callable".to_string()
        ))
    );
}

#[test]
fn shader_defaults_and_body_assignments_are_recorded() {
    let script = r#"
void adaptive(
    float source,
    int lookback = 21,
    float width = 2.5,
    string label = "x",
    output float signal
) {
    lookback = 30;
    width = 3;
    source = 4;
    signal = sma(source, lookback);
}"#;
    let ctx = ScriptCompileContext::from_script_source(script);
    assert!(ctx.series_inputs.contains(&"source".to_string()));
    assert_eq!(ctx.scalar_params.len(), 2);
    assert_eq!(ctx.scalar_params[0].name, "lookback");
    assert_eq!(ctx.scalar_params[0].default_literal, Some("21".to_string()));
    assert_eq!(ctx.scalar_params[0].assignments, vec!["30".to_string()]);
    assert_eq!(ctx.scalar_params[1].name, "width");
    assert_eq!(ctx.scalar_params[1].ty, OslParamType::Float);
    assert_eq!(ctx.scalar_params[1].default_literal, Some("2.5".to_string()));
    assert_eq!(ctx.scalar_params[1].assignments, vec!["3".to_string()]);
}

#[test]
fn legacy_fn_main_binds_first_parameter_to_series() {
    let script = "fn main(source, lookback) { lookback = 3; return sma(source, lookback); }";
    let ctx = ScriptCompileContext::from_script_source(script);
    assert!(ctx.series_inputs.contains(&"source".to_string()));
    assert!(ctx.series_inputs.contains(&"data".to_string()));
    assert_eq!(ctx.scalar_params.len(), 1);
    assert_eq!(ctx.scalar_params[0].name, "lookback");
    assert_eq!(ctx.scalar_params[0].ty, OslParamType::Int);
    // The whole line is one statement here, so the assigned text is not a
    // number and the parameter keeps its standard value.
    assert_eq!(
        ctx.scalar_params[0].assignments,
        vec!["3; return sma(source, lookback)".to_string()]
    );
}

#[test]
fn multi_roots_name_their_channels() {
    let bands = parse("ta::bollinger_bands(data, 10, 2.0)").unwrap();
    assert_eq!(
        detect_multi_root(&bands),
        Some(vec![
            "upper_band".to_string(),
            "basis_line".to_string(),
            "lower_band".to_string()
        ])
    );
    let macd = parse("macd(data, 12, 9)").unwrap();
    assert_eq!(
        detect_multi_root(&macd),
        Some(vec!["oscillator".to_string(), "signal_line".to_string()])
    );
    let short_macd = parse("macd(data, 12)").unwrap();
    assert_eq!(detect_multi_root(&short_macd), None);
    assert_eq!(detect_multi_root(&parse("sma(data, 3)").unwrap()), None);
}
