use marketlab::series_resolve::normalize_for_series_eval;

#[test]
fn normalize_expands_indicator_period_shorthand() {
    assert_eq!(normalize_for_series_eval("rsi(period=14)"), "rsi(data, 14)");
}

#[test]
fn normalize_expands_unary_sma() {
    assert_eq!(
        normalize_for_series_eval("cross(sma(3), sma(10))"),
        "cross(sma(data, 3), sma(data, 10))"
    );
}

#[test]
fn normalize_series_edge_cases() {
    assert_eq!(normalize_for_series_eval("   "), "");
    assert_eq!(normalize_for_series_eval("rsi(007)"), "rsi(data, 7)");
    assert_eq!(normalize_for_series_eval("rsi(period= +21)"), "rsi(data, 21)");
    assert_eq!(normalize_for_series_eval("rsi(0)"), "rsi(data, 0)");
    assert_eq!(normalize_for_series_eval("macd(0)"), "macd(0)");
    assert_eq!(normalize_for_series_eval("ta::ema(input, 5)"), "ta::ema(data, 5)");
    assert_eq!(normalize_for_series_eval("sma(input)"), "sma(input)");
    assert_eq!(normalize_for_series_eval("close - sma(2.5)"), "close - sma(data, 2.5)");
    assert_eq!(normalize_for_series_eval("ta::sma(3) + ema(4)"), "ta::sma(data, 3) + ema(data, 4)");
    assert_eq!(normalize_for_series_eval("f)(x"), "f)(x");
}
