use marketlab::workspace_ui::{
    dopesheet_empty_message, ledger_prim_label, metadata_display, DopesheetUiState,
    WorkstationShelfId, WorkstationShelfState,
};

#[test]
fn shelves_start_expanded_and_toggle() {
    let mut s = WorkstationShelfState::default();
    assert!(s.is_expanded(WorkstationShelfId::StageLedger));
    s.toggle(WorkstationShelfId::StageLedger);
    assert!(!s.is_expanded(WorkstationShelfId::StageLedger));
    assert!(s.is_expanded(WorkstationShelfId::TowerInspector));
    s.toggle(WorkstationShelfId::StageLedger);
    assert!(s.is_expanded(WorkstationShelfId::StageLedger));
    s.set_expanded(WorkstationShelfId::TowerOtlEditor, false);
    let copy = s.clone();
    assert!(!copy.is_expanded(WorkstationShelfId::TowerOtlEditor));
    s.set_expanded(WorkstationShelfId::TowerOtlEditor, true);
    assert!(s.is_expanded(WorkstationShelfId::TowerOtlEditor));
    assert_eq!(WorkstationShelfId::InspectorGlobalPerformance.index(), 7);
    assert_eq!(WorkstationShelfId::TowerLayerStack.element_key(), "tower-layer-stack");
}

#[test]
fn dopesheet_rows_open_shallow_and_close_deep() {
    let mut d = DopesheetUiState::default();
    assert!(d.is_expanded("/portfolios/core", 0));
    assert!(d.is_expanded("/portfolios/core", 1));
    assert!(!d.is_expanded("/assets/A", 2));
    d.toggle_expansion("/portfolios/core");
    d.toggle_expansion("/assets/A");
    assert!(!d.is_expanded("/portfolios/core", 1));
    assert!(d.is_expanded("/assets/A", 2));
    d.toggle_expansion("/portfolios/core");
    assert!(d.is_expanded("/portfolios/core", 1));
    assert!(d.clone().is_expanded("/assets/A", 3));
}

#[test]
fn ledger_and_metadata_texts() {
    assert_eq!(ledger_prim_label("/MarketLab/Universe/AAPL"), "AAPL");
    assert_eq!(ledger_prim_label("/MarketLab/Universe/node_00000001"), "/MarketLab/Universe/node_00000001");
    assert_eq!(ledger_prim_label("plain"), "plain");
    assert_eq!(metadata_display("  "), "—");
    assert_eq!(metadata_display(" Tech "), " Tech ");
    assert!(dopesheet_empty_message(true).starts_with("OTL sandbox"));
    assert!(dopesheet_empty_message(false).starts_with("No strategy topology"));
}
