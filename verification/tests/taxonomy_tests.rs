use marketlab::taxonomy::flatten_asset_metadata;

#[test]
fn aapl_inherits_software_and_nasdaq() {
    let meta = flatten_asset_metadata("AAPL", None);
    assert_eq!(meta.asset_class, "Equity");
    assert_eq!(meta.category, "Information Technology");
    assert_eq!(meta.sub_category, "Software Application & Systems");
    assert_eq!(meta.exchange_mic, "XNAS");
}

#[test]
fn spy_inherits_etf_large_cap() {
    let meta = flatten_asset_metadata("SPY", None);
    assert_eq!(meta.asset_class, "ETF");
    assert_eq!(meta.sub_category, "Large Cap Blend");
}

#[test]
fn declared_class_overrides_and_lowercase_symbols_resolve() {
    let meta = flatten_asset_metadata("sap", Some("Future"));
    assert_eq!(meta.asset_class, "Future");
    assert_eq!(meta.exchange_mic, "XFRA");
    assert_eq!(meta.trading_currency, "EUR");
    assert_eq!(meta.provider, "yahoo");
    let meta = flatten_asset_metadata("ZZZ", Some(""));
    assert_eq!(meta.asset_class, "Equity");
    assert_eq!(meta.category, "");
    assert_eq!(meta.exchange_mic, "XNYS");
}
