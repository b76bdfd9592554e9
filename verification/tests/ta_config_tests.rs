use marketlab::series_resolve::{resolve_otl_script_src, OtlScriptContext};
use marketlab::ta_config::{
    compose_uber_script_src, hyperparameter_visibility, node_display_name, TaUberSignalConfig,
};
use marketlab::ta_uber::TaArchetype;

#[test]
fn compose_trend_sma_script() {
    let config = TaUberSignalConfig::trend("sma".to_string()).with_period(14);
    assert_eq!(compose_uber_script_src(&config), "ta::sma(input, 14)");
}

#[test]
fn resolve_prefers_dsl_formula() {
    let ctx = OtlScriptContext {
        dsl_formula: Some("close - sma(3)"),
        node_script: Some("identity"),
        indicator_id: Some("macd"),
        lookback_period: 14,
        uber_config: None,
    };
    assert_eq!(resolve_otl_script_src(&ctx), "close - sma(3)");
}

#[test]
fn resolve_falls_back_to_indicator_shorthand() {
    let ctx = OtlScriptContext {
        dsl_formula: None,
        node_script: None,
        indicator_id: Some("rsi"),
        lookback_period: 21,
        uber_config: None,
    };
    assert_eq!(resolve_otl_script_src(&ctx), "rsi(period=21)");
}

#[test]
fn resolve_uber_config_script() {
    let config = TaUberSignalConfig::new(TaArchetype::Trend);
    let ctx = OtlScriptContext {
        uber_config: Some(&config),
        ..Default::default()
    };
    assert_eq!(resolve_otl_script_src(&ctx), "ta::sma(input, 14)");
}

#[test]
fn resolve_skips_blank_texts_and_defaults_to_rsi() {
    let ctx = OtlScriptContext {
        dsl_formula: Some("   "),
        node_script: Some("  identity "),
        ..Default::default()
    };
    assert_eq!(resolve_otl_script_src(&ctx), "identity");
    assert_eq!(resolve_otl_script_src(&OtlScriptContext::default()), "rsi(period=0)");
}

#[test]
fn compose_covers_each_archetype() {
    let mut vol = TaUberSignalConfig::new(TaArchetype::Volatility);
    vol.algorithm = "Historical_Volatility".to_string();
    assert_eq!(compose_uber_script_src(&vol), "ta::historical_volatility(input, 20, 252)");
    let mut osc = TaUberSignalConfig::new(TaArchetype::Oscillator);
    osc.algorithm = "MACD".to_string();
    osc.signal_period = 0;
    assert_eq!(compose_uber_script_src(&osc), "ta::macd(input, 14, 1)");
    let chan = TaUberSignalConfig::new(TaArchetype::Channel).with_period(0);
    assert_eq!(compose_uber_script_src(&chan), "ta::bollinger_bands(input, 1, 2)");
    assert_eq!(
        compose_uber_script_src(&TaUberSignalConfig::new(TaArchetype::Oscillator)),
        "ta::rsi(input, 14)"
    );
}

#[test]
fn config_helpers() {
    let mut c = TaUberSignalConfig::trend("EMA".to_string());
    assert!(c.algorithm_allowed());
    c.normalize_algorithm();
    assert_eq!(c.algorithm, "ema");
    assert_eq!(c.leaf_signature(), "trend_ema_14");
    let mut bad = TaUberSignalConfig::trend("rsi".to_string());
    assert!(!bad.algorithm_allowed());
    bad.normalize_algorithm();
    assert_eq!(bad.algorithm, "sma");
    assert_eq!(node_display_name(&c), "Trend & Location · EMA");
    let mut chan = TaUberSignalConfig::new(TaArchetype::Channel);
    let v = hyperparameter_visibility(&chan);
    assert!(v.period && v.multiplier && !v.annualization && !v.signal_period);
    chan.algorithm = "donchian_channels".to_string();
    assert!(!hyperparameter_visibility(&chan).multiplier);
    let mut osc = TaUberSignalConfig::new(TaArchetype::Oscillator);
    osc.algorithm = "stochastic".to_string();
    assert!(hyperparameter_visibility(&osc).signal_period);
}

#[test]
fn default_algorithm_is_allowed_for_every_archetype() {
    for a in [
        marketlab::ta_uber::TaArchetype::Trend,
        marketlab::ta_uber::TaArchetype::Volatility,
        marketlab::ta_uber::TaArchetype::Oscillator,
        marketlab::ta_uber::TaArchetype::Channel,
    ] {
        let config = TaUberSignalConfig::new(a);
        assert!(config.algorithm_allowed());
    }
}
