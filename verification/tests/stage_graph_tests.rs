use marketlab::otc::{load_compiled_asset_from_bytes, OtcBinaryEncoder, OtcError, CURRENT_ENGINE_GENERATION};
use marketlab::stage_graph::{
    compiled_script_path, is_execution_relationship, resolve_prim_otl_expression,
    signal_stream_attribute, with_asset_defaults, default_symbol_attribute, lineage_relationships, ComposedAssetMeta, GraphEngineError, PathBindingIndex,
    StageGraphPrim,
};

fn prim(attrs: &[(&str, &str)]) -> StageGraphPrim {
    StageGraphPrim {
        path: "/analytics/sig".to_string(),
        prim_type: "OtlOperator".to_string(),
        attributes: attrs.iter().map(|(k, v)| (k.to_string(), v.to_string())).collect(),
    }
}

#[test]
fn slot_lookup_uses_latest_binding() {
    let idx = PathBindingIndex {
        asset_slots: vec![("/assets/AAPL".to_string(), 0), ("/assets/SPY".to_string(), 1), ("/assets/AAPL".to_string(), 2)],
        ordered_prim_paths: vec![],
    };
    assert_eq!(idx.slot_for_prim("/assets/AAPL"), Some(2));
    assert_eq!(idx.slot_for_prim("/assets/SPY"), Some(1));
    assert_eq!(idx.slot_for_prim("/assets/QQQ"), None);
}

#[test]
fn expression_prefers_loaded_compiled_source() {
    let p = prim(&[("inputs:script_src", "sma(data, 5)"), ("inputs:script_compiled_path", "  a.otc ")]);
    assert_eq!(compiled_script_path(&p), Some("a.otc".to_string()));
    let bytes = OtcBinaryEncoder::new().with_bytecode(b"ema(data, 3)").encode().unwrap();
    let asset = load_compiled_asset_from_bytes(&bytes).unwrap();
    assert_eq!(resolve_prim_otl_expression(&p, Some(&asset)), "ema(data, 3)");
    assert_eq!(resolve_prim_otl_expression(&p, None), "sma(data, 5)");
    let bad = OtcBinaryEncoder::new().with_bytecode(&[0xff, 0xfe]).encode().unwrap();
    let bad_asset = load_compiled_asset_from_bytes(&bad).unwrap();
    assert_eq!(resolve_prim_otl_expression(&p, Some(&bad_asset)), "sma(data, 5)");
    assert_eq!(resolve_prim_otl_expression(&prim(&[]), None), "");
    assert_eq!(compiled_script_path(&prim(&[("inputs:script_compiled_path", "   ")])), None);
}

#[test]
fn loading_rejects_newer_generation() {
    let newer = OtcBinaryEncoder::new()
        .with_engine_generation(CURRENT_ENGINE_GENERATION + 1)
        .encode()
        .unwrap();
    assert_eq!(
        load_compiled_asset_from_bytes(&newer).unwrap_err(),
        OtcError::EngineGenerationMismatch {
            asset_generation: CURRENT_ENGINE_GENERATION + 1,
            local_generation: CURRENT_ENGINE_GENERATION,
        }
    );
    assert_eq!(load_compiled_asset_from_bytes(b"OT").unwrap_err(), OtcError::TooShort { len: 2, expected: 32 });
}

#[test]
fn stream_attribute_and_relationships() {
    assert_eq!(signal_stream_attribute("ta::rsi(data, 14)"), "outputs:result");
    assert_eq!(signal_stream_attribute("input * 2"), "outputs:result");
    assert_eq!(signal_stream_attribute("sma(close, 5)"), "outputs:signal");
    assert!(is_execution_relationship("inputs:sources"));
    assert!(is_execution_relationship("inputs:underlying"));
    assert!(is_execution_relationship("inputs:constituents"));
    assert!(!is_execution_relationship("inputs:source"));
}

#[test]
fn graph_error_messages() {
    assert_eq!(GraphEngineError::EmptyGraph.message(), "graph compile spec has no nodes");
    assert_eq!(GraphEngineError::UnknownPrimPath("/x".to_string()).message(), "unknown prim path `/x`");
    assert_eq!(
        GraphEngineError::UnsupportedPrimType { prim_type: "Mesh".to_string(), path: "/m".to_string() }.message(),
        "unsupported prim type `Mesh` at `/m`"
    );
    assert_eq!(
        GraphEngineError::ScriptCompileError { path: "/p".to_string(), message: "bad".to_string() }.message(),
        "OTL script compile failed for `/p`: bad"
    );
    assert_eq!(
        GraphEngineError::ObjectKindMismatch { prim_path: "/p".to_string(), object_kind: "Signal".to_string() }.message(),
        "OTL object kind `Signal` incompatible with prim `/p`"
    );
}

#[test]
fn asset_meta_defaults_fill_symbol_and_class() {
    let raw = ComposedAssetMeta { is_active: true, sector: "Tech".to_string(), ..ComposedAssetMeta::default() };
    let meta = with_asset_defaults("/MarketLab/Universe/AAPL", raw);
    assert_eq!(meta.symbol, "AAPL");
    assert_eq!(meta.asset_class, "Equity");
    assert_eq!(meta.sector, "Tech");
    assert!(meta.is_active);
    let raw = ComposedAssetMeta {
        symbol: "SPY".to_string(),
        asset_class: "ETF".to_string(),
        ..ComposedAssetMeta::default()
    };
    let meta = with_asset_defaults("/assets/x", raw);
    assert_eq!(meta.symbol, "SPY");
    assert_eq!(meta.asset_class, "ETF");
    assert!(!meta.is_active);
    assert_eq!(with_asset_defaults("noslash", ComposedAssetMeta::default()).symbol, "noslash");
}

#[test]
fn asset_prims_get_a_symbol_from_their_path() {
    let mut asset = StageGraphPrim {
        path: "/MarketLab/Universe/QQQ".to_string(),
        prim_type: "FinancialAsset".to_string(),
        attributes: vec![("inputs:asset_class".to_string(), "ETF".to_string())],
    };
    default_symbol_attribute(&mut asset);
    assert_eq!(asset.attributes.last(), Some(&("inputs:symbol".to_string(), "QQQ".to_string())));
    assert_eq!(asset.attributes.len(), 2);
    default_symbol_attribute(&mut asset);
    assert_eq!(asset.attributes.len(), 2);
    let mut signal = StageGraphPrim {
        path: "/analytics/rsi".to_string(),
        prim_type: "OtlOperator".to_string(),
        attributes: Vec::new(),
    };
    default_symbol_attribute(&mut signal);
    assert!(signal.attributes.is_empty());
    assert_eq!(
        lineage_relationships(),
        vec!["inputs:underlying", "inputs:sources", "inputs:constituents", "inputs:target"]
    );
}
