use marketlab::ga_bridge::{ga_multi_outputs, is_ga_function};
use marketlab::ga_registry::{get_indicator, list_indicators, GaInputKind, GaValueType};
use marketlab::portfolio::{normalize_asset_quote_key, trade_gate_rule, TradeGateRule};

#[test]
fn ga_names() {
    assert!(is_ga_function("ga::orientation"));
    assert!(is_ga_function("wedge_volume"));
    assert!(!is_ga_function("geometric_beta"));
    assert!(!is_ga_function("ga::sma"));
    assert_eq!(ga_multi_outputs("ga::geometric_beta"), Some(&["scalar", "bivector"][..]));
    assert_eq!(ga_multi_outputs("orientation"), None);
}

#[test]
fn registry_lookup() {
    assert_eq!(list_indicators().len(), 9);
    let info = get_indicator("rolling_quantile").unwrap();
    assert_eq!(info.params.len(), 2);
    assert_eq!(info.params[0].default_int, 252);
    assert_eq!(info.input_kind, GaInputKind::Slice);
    let geo = get_indicator("geometric_beta").unwrap();
    assert_eq!(geo.outputs.len(), 2);
    assert_eq!(geo.outputs[1].id, "bivector");
    assert_eq!(get_indicator("month_end").unwrap().outputs[0].value_type, GaValueType::Bool);
    assert!(get_indicator("nope").is_none());
}

#[test]
fn quote_keys() {
    assert_eq!(normalize_asset_quote_key("/assets/SPY.csv"), "SPY");
    assert_eq!(normalize_asset_quote_key("QQQ"), "QQQ");
    assert_eq!(normalize_asset_quote_key("/assets/"), "/assets/");
    assert_eq!(normalize_asset_quote_key("a/b.csv.csv"), "b");
}

#[test]
fn trade_gate_rule_follows_the_indicator_kind() {
    assert_eq!(trade_gate_rule("close * 2"), TradeGateRule::NotIndicator);
    assert_eq!(trade_gate_rule("TA::SMA(data, 3)"), TradeGateRule::NotIndicator);
    assert_eq!(trade_gate_rule("ta::SMA(data, 3)"), TradeGateRule::PriceCross);
    assert_eq!(trade_gate_rule("ta::tema(data, 9)"), TradeGateRule::PriceCross);
    assert_eq!(trade_gate_rule("ta::rsi(data, 14)"), TradeGateRule::MidlineCross);
    assert_eq!(trade_gate_rule("ta::cci(data, 20)"), TradeGateRule::MidlineCross);
    assert_eq!(trade_gate_rule("ta::atr(data, 14)"), TradeGateRule::OtherIndicator);
}

#[test]
fn quote_key_normalizes_once() {
    for s in ["/assets/SPY", "data/QQQ.csv", "SPY", "dir/", "a/b.csv.csv", "", "/", ".csv", "x.csv/"] {
        let once = normalize_asset_quote_key(s);
        assert_eq!(normalize_asset_quote_key(&once), once);
    }
    assert_eq!(normalize_asset_quote_key("/assets/SPY"), "SPY");
    assert_eq!(normalize_asset_quote_key("data/QQQ.csv"), "QQQ");
    assert_eq!(normalize_asset_quote_key("dir/"), "dir/");
}

#[test]
fn registry_ids_are_distinct_and_lookup_finds_each() {
    let all = list_indicators();
    for (i, a) in all.iter().enumerate() {
        for b in &all[i + 1..] {
            assert_ne!(a.id, b.id);
        }
        let found = get_indicator(a.id).unwrap();
        assert_eq!((found.id, found.label, found.category), (a.id, a.label, a.category));
        assert_eq!(found.params.len(), a.params.len());
        assert_eq!(found.outputs.len(), a.outputs.len());
    }
    assert!(get_indicator("sma").is_none());
}

#[test]
fn multi_outputs_agree_with_registry() {
    let ports: Vec<&str> = ga_multi_outputs("ga::geometric_beta").unwrap().to_vec();
    let registered: Vec<&str> =
        get_indicator("geometric_beta").unwrap().outputs.iter().map(|o| o.id).collect();
    assert_eq!(ports, registered);
    for name in ["wedge_volume", "ga::scalar_beta", "bivector_beta", "ga::orientation", "displacement", "rolling_quantile", "nnls_weights", "ga::month_end"] {
        assert!(is_ga_function(name));
        let bare = name.strip_prefix("ga::").unwrap_or(name);
        assert!(get_indicator(bare).is_some());
    }
}
