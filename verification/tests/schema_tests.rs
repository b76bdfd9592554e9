use marketlab::schema::{
    embed_schema_inline_in_layer, financial_schema_defaults, initial_stage_usda,
    schema_class_definitions_usda, schema_sidecar_usda,
};

const SCHEMA: &str = "#usda 1.0\n(\n    subLayers = []\n)\n\nover \"Plugins\"\n{\n}\n\nclass \"FinancialAsset\"\n{\n    double inputs:weight = 1.0 (\n        doc = \"w\"\n    )\n    token inputs:mode = \"auto\"\n    int lookback = 3\n    bool inputs:enabled = true\n    string inputs:label=  \"x\" \n    float outputs:value = 0\n    matrix inputs:m = 1\n}\n";

#[test]
fn class_definitions_start_at_plugins_block() {
    let defs = schema_class_definitions_usda(SCHEMA);
    assert!(defs.starts_with("over \"Plugins\""));
    assert_eq!(schema_class_definitions_usda("class \"A\" {}"), "class \"A\" {}");
}

#[test]
fn stage_and_sidecar_wrap_definitions() {
    let defs = schema_class_definitions_usda(SCHEMA);
    assert_eq!(
        initial_stage_usda(SCHEMA),
        format!(
            "#usda 1.0\n(\n    defaultPrim = \"MarketLab\"\n)\n\n{}\n\ndef Scope \"MarketLab\"\n{{\n}}\n",
            defs
        )
    );
    assert_eq!(schema_sidecar_usda(SCHEMA), format!("#usda 1.0\n(\n)\n\n{}", defs));
}

#[test]
fn embed_inserts_after_metadata_or_in_front() {
    let defs = schema_class_definitions_usda(SCHEMA);
    let layer = "#usda 1.0\n(\n)\n\ndef Scope \"MarketLab\"\n{\n}\n";
    assert_eq!(
        embed_schema_inline_in_layer(layer, SCHEMA),
        format!("#usda 1.0\n(\n)\n\n{}\n\ndef Scope \"MarketLab\"\n{{\n}}\n", defs)
    );
    assert_eq!(
        embed_schema_inline_in_layer("def X {}", SCHEMA),
        format!("{}\n\ndef X {{}}", defs)
    );
    let already = "class \"FinancialAsset\" {}";
    assert_eq!(embed_schema_inline_in_layer(already, SCHEMA), already);
}

#[test]
fn defaults_collect_inputs_and_bare_attributes() {
    let d = financial_schema_defaults(SCHEMA);
    assert_eq!(
        d,
        vec![
            ("inputs:weight".to_string(), "1.0".to_string()),
            ("inputs:mode".to_string(), "\"auto\"".to_string()),
            ("lookback".to_string(), "3".to_string()),
            ("inputs:enabled".to_string(), "true".to_string()),
            ("inputs:label".to_string(), "\"x\"".to_string()),
            ("outputs:value".to_string(), "0".to_string()),
        ]
    );
    assert!(financial_schema_defaults("").is_empty());
}

#[test]
fn sidecars_sit_beside_the_document() {
    assert_eq!(
        marketlab::schema::schema_sidecar_directory("/work/strategies/alpha.usda"),
        "/work/strategies"
    );
    assert_eq!(marketlab::schema::schema_sidecar_directory("alpha.usda"), ".");
    assert_eq!(marketlab::schema::schema_sidecar_directory("/"), ".");
    assert_eq!(
        marketlab::schema::schema_sidecar_path_for_document("/work/strategies/alpha.usda"),
        "/work/strategies/schema.usda"
    );
    assert_eq!(
        marketlab::schema::metadata_sidecar_path_for_document("alpha.usda"),
        "./metadata_library.usda"
    );
    assert_eq!(
        marketlab::schema::schema_sidecar_path_for_document("/alpha.usda"),
        "/schema.usda"
    );
    assert_eq!(
        marketlab::schema::metadata_sidecar_path_for_document("strategies/alpha.usda"),
        "strategies/metadata_library.usda"
    );
    assert_eq!(
        marketlab::schema::sidecar_directory_from_parent(Some(String::new())),
        "."
    );
    assert_eq!(
        marketlab::schema::sidecar_directory_from_parent(Some("/a".to_string())),
        "/a"
    );
}
