use marketlab::ga_bridge::ga_data_layout;
use marketlab::ga_registry::{
    month_end_flag, nnls_output_column, plan_compute, GaComputeError, GaInputKind, GaValueType,
};

#[test]
fn requests_resolve_against_the_registry() {
    let plan = plan_compute("geometric_beta", Some("bivector"), GaInputKind::DualSlice).unwrap();
    assert_eq!(plan.indicator.id, "geometric_beta");
    assert_eq!(plan.output.id, "bivector");
    assert_eq!(plan.output.label, "Bivector Beta");
    assert_eq!(plan.default_period, 60);

    let first = plan_compute("rolling_quantile", None, GaInputKind::Slice).unwrap();
    assert_eq!(first.output.id, "value");
    assert_eq!(first.default_period, 252);

    let flags = plan_compute("month_end", None, GaInputKind::Slice).unwrap();
    assert_eq!(flags.output.value_type, GaValueType::Bool);
    assert_eq!(flags.default_period, 60);
}

#[test]
fn bad_requests_name_what_is_wrong() {
    assert_eq!(
        plan_compute("nope", None, GaInputKind::Slice).err(),
        Some(GaComputeError::UnknownIndicator("nope".to_string()))
    );
    assert_eq!(
        plan_compute("scalar_beta", None, GaInputKind::Slice).err(),
        Some(GaComputeError::InputKindMismatch("scalar_beta".to_string()))
    );
    assert_eq!(
        plan_compute("scalar_beta", Some("bivector"), GaInputKind::DualSlice).err(),
        Some(GaComputeError::UnknownOutput {
            output_id: "bivector".to_string(),
            indicator_id: "scalar_beta".to_string()
        })
    );
}

#[test]
fn nnls_outputs_name_columns() {
    assert_eq!(nnls_output_column("weight_3"), 3);
    assert_eq!(nnls_output_column("weight_+2"), 2);
    assert_eq!(nnls_output_column("weight_x"), 0);
    assert_eq!(nnls_output_column("value"), 0);
}

#[test]
fn month_ends_every_twenty_one_bars_and_at_the_last() {
    let flags = month_end_flag(45);
    assert_eq!(flags.len(), 45);
    let ends: Vec<usize> = flags
        .iter()
        .enumerate()
        .filter(|(_, f)| **f)
        .map(|(i, _)| i)
        .collect();
    assert_eq!(ends, vec![20, 41, 44]);
    assert!(month_end_flag(0).is_empty());
}

#[test]
fn indicators_take_their_input_layout() {
    assert_eq!(ga_data_layout("wedge_volume"), GaInputKind::ConstituentMatrix);
    assert_eq!(ga_data_layout("geometric_beta"), GaInputKind::DualSlice);
    assert_eq!(ga_data_layout("nnls_weights"), GaInputKind::DualWithMatrix);
    assert_eq!(ga_data_layout("orientation"), GaInputKind::Slice);
    assert_eq!(ga_data_layout("ga::scalar_beta"), GaInputKind::Slice);
}
