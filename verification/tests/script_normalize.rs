use marketlab::script::{
    display_name_for_script, normalize_script_for_compile, parse_script_entry_point_name,
};

#[test]
fn normalize_script_for_compile_extracts_osl_output_assignment() {
    let script = r#"
            float source,
            int lookback,
            output float signal
        {
            float standard_dev = ta::stddev(source, 14);
            lookback = 14;
            signal = sma(source, 3);
        }"#;
    let normalized = normalize_script_for_compile(script);
    assert_eq!(normalized, "sma(source, 3)");
}

#[test]
fn normalize_script_for_compile_strips_fn_main_wrapper() {
    let normalized = normalize_script_for_compile("fn main(data) {\n  return sma(data, 3)\n}");
    assert_eq!(normalized, "sma(data, 3)");
}

#[test]
fn normalize_script_for_compile_skips_local_assignments() {
    let normalized = normalize_script_for_compile(
        "fn main(source, lookback) {\n  lookback = 14;\n  return sma(source, 3);\n}",
    );
    assert_eq!(normalized, "sma(source, 3)");
}

#[test]
fn normalize_void_main_osl_shader_strips_braces_and_comments() {
    let script = r#"
// header comment
void main(
    float source_stream,
    int trend_period,
    output float baseline
) {
    // body comment
    baseline = ta_ema(source_stream, 14);
}"#;
    let normalized = normalize_script_for_compile(script);
    assert!(!normalized.contains('{'));
    assert!(!normalized.contains('}'));
    assert_eq!(normalized, "ta_ema(source_stream, 14)");
}

#[test]
fn parse_script_entry_point_name_reads_void_shader_identifier() {
    let script = r#"
void adaptive_trigger(
    float source_stream,
    output float baseline
) {
    baseline = ta_ema(source_stream, 14);
}"#;
    assert_eq!(
        parse_script_entry_point_name(script).as_deref(),
        Some("adaptive_trigger")
    );
}

#[test]
fn entry_point_falls_back_to_main_for_fn_main_scripts() {
    assert_eq!(
        parse_script_entry_point_name("fn main(data) { return data; }").as_deref(),
        Some("main")
    );
    assert_eq!(parse_script_entry_point_name("sma(data, 3)"), None);
    // A commented-out `fn main` does not count.
    assert_eq!(parse_script_entry_point_name("// fn main\nsma(data, 3)"), None);
}

#[test]
fn entry_point_rejects_non_identifier_void_names() {
    assert_eq!(parse_script_entry_point_name("void bad-name(float x) {}"), None);
}

#[test]
fn display_name_uses_entry_point_or_fallback() {
    assert_eq!(
        display_name_for_script("void adaptive_trigger(float x) { }", "Node"),
        "adaptive_trigger"
    );
    assert_eq!(display_name_for_script("sma(data, 3)", "Fallback"), "Fallback");
}

#[test]
fn normalize_plain_expression_is_trimmed_and_comment_free() {
    assert_eq!(normalize_script_for_compile("  sma(data, 3) // trend\n"), "sma(data, 3)");
    assert_eq!(normalize_script_for_compile(""), "");
}

#[test]
fn normalize_braced_shader_without_expression_is_empty() {
    let script = "float source, output float out\n{\n  float x = 1;\n}";
    assert_eq!(normalize_script_for_compile(script), "");
}

#[test]
fn normalize_shader_uses_earliest_output_assignment() {
    let script = "void s(float source, output float a, output float b) {\n  b = ema(source, 5);\n  a = sma(source, 3);\n}";
    assert_eq!(normalize_script_for_compile(script), "ema(source, 5)");
}

#[test]
fn normalize_shader_falls_back_to_last_signal_assignment() {
    let script = "float source\n{\n  signal = sma(source, 2);\n  signal = sma(source, 4);\n}";
    assert_eq!(normalize_script_for_compile(script), "sma(source, 4)");
}

#[test]
fn normalize_fn_main_without_expression_is_empty() {
    // `fn main(...)` headers are shader headers: a body without an
    // expression leaves nothing to compile.
    assert_eq!(normalize_script_for_compile("fn main(data) { x = 1; }"), "");
}

#[test]
fn normalize_fn_main_text_without_header_is_kept() {
    // Mentions `fn main` but has no parameter list: the text is kept.
    assert_eq!(normalize_script_for_compile("fn main"), "fn main");
}

#[test]
fn normalize_uses_last_return_in_body() {
    let script = "fn main(data) { if x { return sma(data, 2); } return ema(data, 9); }";
    assert_eq!(normalize_script_for_compile(script), "ema(data, 9)");
}

#[test]
fn normalize_handles_crlf_lines() {
    let script = "fn main(data) {\r\n  return sma(data, 3); // c\r\n}\r\n";
    assert_eq!(normalize_script_for_compile(script), "sma(data, 3)");
}
