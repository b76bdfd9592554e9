use marketlab::ast::CompileError;
use marketlab::calls::{call_arity, check_call_shape, check_multi_call_shape, multi_call_arity};

#[test]
fn single_series_arities() {
    assert_eq!(call_arity("sma"), Some(2));
    assert_eq!(call_arity("ta::ema"), Some(2));
    assert_eq!(call_arity("ta_stddev"), Some(2));
    assert_eq!(call_arity("ta::historical_volatility"), Some(3));
    assert_eq!(call_arity("macd"), Some(3));
    assert_eq!(call_arity("clamp"), Some(3));
    assert_eq!(call_arity("identity"), Some(0));
    assert_eq!(call_arity("step"), Some(2));
    assert_eq!(call_arity("ta::identity"), None);
    assert_eq!(call_arity("bollinger_bands"), None);
    assert_eq!(call_arity("SMA"), None);
}

#[test]
fn multi_output_arities() {
    assert_eq!(multi_call_arity("bollinger_bands"), Some(3));
    assert_eq!(multi_call_arity("ta::keltner_channels"), Some(3));
    assert_eq!(multi_call_arity("ta::donchian_channels"), Some(2));
    assert_eq!(multi_call_arity("stochastic"), Some(3));
    assert_eq!(multi_call_arity("ta::ta::macd"), None);
    assert_eq!(multi_call_arity("sma"), None);
}

#[test]
fn call_shape_errors() {
    assert_eq!(check_call_shape("sma", 2), Ok(2));
    assert_eq!(check_call_shape("identity", 0), Ok(0));
    assert_eq!(
        check_call_shape("ta::sma", 1),
        Err(CompileError::InvalidArgumentCount { name: "ta::sma".to_string(), expected: 2, got: 1 })
    );
    assert_eq!(check_call_shape("foo", 2), Err(CompileError::UnknownFunction("foo".to_string())));
}

#[test]
fn multi_call_shape_errors() {
    assert_eq!(check_multi_call_shape("ta::macd", 3), Ok(3));
    assert_eq!(
        check_multi_call_shape("ta::donchian_channels", 3),
        Err(CompileError::InvalidArgumentCount {
            name: "ta::donchian_channels".to_string(),
            expected: 2,
            got: 3
        })
    );
    assert_eq!(
        check_multi_call_shape("ta::zigzag", 1),
        Err(CompileError::UnknownFunction("zigzag".to_string()))
    );
}
