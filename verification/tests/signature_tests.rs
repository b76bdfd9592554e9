use marketlab::ast::OslParamType;
use marketlab::signature::{
    parse_script_scalar_uniforms, parse_script_signature, set_script_uniform_default, ScalarDefaultText,
};

#[test]
fn parse_script_signature_reads_osl_typed_parameters() {
    let script = r#"
            float source,
            int lookback,
            int threshold,
            output float signal
        {
            lookback = 14;
            signal = sma(source, 3);
        }"#;
    let signature = parse_script_signature(script);
    assert_eq!(
        signature.inputs,
        vec!["source".to_string(), "lookback".to_string(), "threshold".to_string(),]
    );
    assert_eq!(signature.outputs, vec!["signal".to_string()]);
}

#[test]
fn parse_script_signature_reads_osl_output_ports() {
    let script = r#"
            float source,
            int period,
            output float upper_band,
            output float lower_band
        {
            upper_band = sma(source, period);
            lower_band = source - upper_band;
        }"#;
    let signature = parse_script_signature(script);
    assert_eq!(signature.inputs, vec!["source".to_string(), "period".to_string()]);
    assert_eq!(
        signature.outputs,
        vec!["upper_band".to_string(), "lower_band".to_string()]
    );
}

#[test]
fn parse_script_signature_ignores_osl_body_typed_locals() {
    let script = r#"
            float source,
            output float signal
        {
            float standard_dev = ta::stddev(source, 14);
            signal = sma(source, 3);
        }"#;
    let signature = parse_script_signature(script);
    assert_eq!(signature.inputs, vec!["source".to_string()]);
    assert_eq!(signature.outputs, vec!["signal".to_string()]);
}

#[test]
fn parse_script_signature_reads_fn_main_parameters() {
    let signature = parse_script_signature(
        "fn main(source, lookback, threshold) {\n  return sma(source, lookback);\n}",
    );
    assert_eq!(
        signature.inputs,
        vec!["source".to_string(), "lookback".to_string(), "threshold".to_string()]
    );
}

#[test]
fn parse_script_signature_reads_default_parameter_values() {
    let signature = parse_script_signature(
        "fn main(source, lookback = 14, threshold = 0.5) { return sma(source, lookback); }",
    );
    assert_eq!(
        signature.inputs,
        vec!["source".to_string(), "lookback".to_string(), "threshold".to_string()]
    );
}

#[test]
fn parse_script_signature_ignores_body_assignments() {
    let signature = parse_script_signature(
        "fn main(source, lookback, threshold) {\n  lookback = 14;\n  threshold = 0.5;\n  return sma(source, lookback);\n}",
    );
    assert_eq!(signature.inputs.len(), 3);
    assert!(signature.outputs.is_empty());
}

#[test]
fn parse_script_signature_reads_void_main_osl_parameters() {
    let script = r#"
// OTL Test Script: Asymmetric Adaptive Channel Trigger
void main(
    float source_stream,
    int trend_period,
    float vol_multiplier,
    float asymmetry_skew,
    output float upper_band,
    output float baseline,
    output float lower_band
) {
    baseline = ta_ema(source_stream, trend_period);
    upper_band = baseline + vol_multiplier;
}"#;
    let signature = parse_script_signature(script);
    assert_eq!(
        signature.inputs,
        vec![
            "source_stream".to_string(),
            "trend_period".to_string(),
            "vol_multiplier".to_string(),
            "asymmetry_skew".to_string(),
        ]
    );
    assert_eq!(
        signature.outputs,
        vec!["upper_band".to_string(), "baseline".to_string(), "lower_band".to_string(),]
    );
}

#[test]
fn signature_keeps_parameter_types_and_default_text() {
    let sig = parse_script_signature("void f(float src, int n = 14;, string tag, output float out) { out = src; }");
    assert_eq!(sig.parameters.len(), 4);
    assert_eq!(sig.parameters[1].name, "n");
    assert_eq!(sig.parameters[1].ty, OslParamType::Int);
    assert_eq!(sig.parameters[1].default_literal.as_deref(), Some("14"));
    assert_eq!(sig.parameters[1].default_literal.as_deref().map(|t| t.parse::<f64>().unwrap()), Some(14.0));
    assert_eq!(sig.parameters[2].ty, OslParamType::String);
    assert!(sig.parameters[3].is_output);
    assert_eq!(sig.parameters[0].default_literal, None);
}

#[test]
fn legacy_signature_reads_header_output_lines() {
    let sig = parse_script_signature("output float band\nfn main(x: Series, y = 2) {\n output float late\n}");
    assert_eq!(sig.inputs, vec!["x".to_string(), "y".to_string()]);
    assert_eq!(sig.outputs, vec!["band".to_string()]);
    assert!(sig.parameters.is_empty());
    let none = parse_script_signature("sma(data, 3)");
    assert!(none.inputs.is_empty() && none.outputs.is_empty());
}

fn default_texts(value: f64) -> ScalarDefaultText {
    ScalarDefaultText {
        int_text: format!("{}", value.round() as i64),
        float_text: if (value - value.round()).abs() <= f64::EPSILON {
            format!("{:.1}", value)
        } else {
            value.to_string()
        },
        string_text: value.to_string(),
    }
}

#[test]
fn set_script_uniform_default_updates_signature_binding() {
    let script = r#"
void adaptive_trigger(
    float source_stream,
    int trend_period,
    output float baseline
) {
    baseline = ta_ema(source_stream, trend_period);
}"#;
    let updated = set_script_uniform_default(script, "trend_period", &default_texts(21.0));
    assert!(updated.contains("int trend_period = 21"));
}

#[test]
fn uniform_default_rewrites_only_the_named_input() {
    let script = "fn main(float x, float Gain = 1.0, output float y) { y = x; }";
    let updated = set_script_uniform_default(script, "gain", &default_texts(2.5));
    assert_eq!(updated, "fn main(float x, float Gain = 2.5, output float y) { y = x; }");
    assert_eq!(set_script_uniform_default(script, "y", &default_texts(1.0)), script);
    assert_eq!(set_script_uniform_default("sma(data, 3)", "x", &default_texts(1.0)), "sma(data, 3)");
}

#[test]
fn scalar_uniforms_skip_primary_series_and_strings() {
    let script = "void f(float src, int n = 3, string tag, float k = 0.5, output float out) // c\n{ out = src; }";
    let u = parse_script_scalar_uniforms(script);
    let names: Vec<&str> = u.iter().map(|p| p.name.as_str()).collect();
    assert_eq!(names, vec!["n", "k"]);
    assert_eq!(u[1].default_literal.as_deref(), Some("0.5"));
}
