use marketlab::ta_uber::{algorithm_display_label, infer_archetype_from_algorithm, TaArchetype};

#[test]
fn canonical_ports_match_archetype() {
    assert_eq!(
        TaArchetype::Channel.canonical_output_ports(),
        &["upper_band", "basis_line", "lower_band"]
    );
    assert_eq!(
        TaArchetype::Oscillator.canonical_output_ports(),
        &["oscillator", "signal_line"]
    );
}

#[test]
fn infer_rsi_as_oscillator() {
    assert_eq!(infer_archetype_from_algorithm("rsi"), TaArchetype::Oscillator);
}

#[test]
fn infer_archetype_is_case_and_space_insensitive() {
    assert_eq!(infer_archetype_from_algorithm("  EMA "), TaArchetype::Trend);
    assert_eq!(infer_archetype_from_algorithm("ATR"), TaArchetype::Volatility);
    assert_eq!(infer_archetype_from_algorithm("keltner_channels"), TaArchetype::Channel);
    assert_eq!(infer_archetype_from_algorithm("unknown"), TaArchetype::Oscillator);
}

#[test]
fn token_round_trip() {
    for a in [
        TaArchetype::Trend,
        TaArchetype::Volatility,
        TaArchetype::Oscillator,
        TaArchetype::Channel,
    ] {
        assert_eq!(TaArchetype::from_token(a.as_token()), Some(a));
    }
    assert_eq!(TaArchetype::from_token("  Channel "), Some(TaArchetype::Channel));
    assert_eq!(TaArchetype::from_token("bands"), None);
}

#[test]
fn archetype_tables() {
    assert_eq!(TaArchetype::Trend.default_algorithm(), "sma");
    assert_eq!(TaArchetype::Channel.default_period(), 20);
    assert_eq!(TaArchetype::Oscillator.default_period(), 14);
    assert_eq!(TaArchetype::Volatility.algorithms().len(), 4);
    assert_eq!(TaArchetype::Trend.canonical_input_ports(), &["source_stream"]);
    assert_eq!(TaArchetype::Trend.canonical_output_ports(), &["result"]);
    assert_eq!(TaArchetype::Volatility.display_name(), "Risk & Dispersion");
    assert_eq!(TaArchetype::Channel.spawn_menu_label(), "Channels & Bands Node");
    assert_eq!(TaArchetype::Oscillator.accent_rgb(), 0xc084fc);
}

#[test]
fn display_labels() {
    assert_eq!(algorithm_display_label("SMA"), "SMA");
    assert_eq!(algorithm_display_label("historical_volatility"), "Hist. Vol");
    assert_eq!(algorithm_display_label("Custom_Thing"), "custom_thing");
}

#[test]
fn each_listed_algorithm_infers_its_archetype() {
    for a in [
        TaArchetype::Trend,
        TaArchetype::Volatility,
        TaArchetype::Oscillator,
        TaArchetype::Channel,
    ] {
        for alg in a.algorithms() {
            assert_eq!(infer_archetype_from_algorithm(alg), a);
            let padded = format!("  {}  ", alg.to_ascii_uppercase());
            assert_eq!(infer_archetype_from_algorithm(&padded), a);
        }
        assert_eq!(a.default_algorithm(), a.algorithms()[0]);
        assert_eq!(infer_archetype_from_algorithm(a.default_algorithm()), a);
    }
}

#[test]
fn token_reading_ignores_padding_and_case() {
    for t in ["trend", " TREND ", "Volatility", "\tchannel\n", "bands", "", "  "] {
        let normal = t.trim().to_ascii_lowercase();
        assert_eq!(TaArchetype::from_token(t), TaArchetype::from_token(&normal));
        if let Some(a) = TaArchetype::from_token(t) {
            assert_eq!(a.as_token(), normal);
        }
    }
}
