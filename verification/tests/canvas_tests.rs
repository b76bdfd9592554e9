use marketlab::canvas::{
    compile_relationship_directive, connection_directive, execution_slot_for_target_prim,
    execution_slot_for_target_type, sanitize_node_label_text, targets_with_source,
    truncate_label_to_chars, CanvasEnvironmentTab, ExecutionSlotKind,
};
use marketlab::stage_graph::{build_path_binding_index, StageGraphPrim};
use marketlab::workspace_ui::{default_active_panels, ExecutionGraphCache, PanelType, WorkspaceTab};

fn prim(path: &str, prim_type: &str) -> StageGraphPrim {
    StageGraphPrim {
        path: path.to_string(),
        prim_type: prim_type.to_string(),
        attributes: Vec::new(),
    }
}

#[test]
fn wire_drop_compiles_to_stage_instruction() {
    let directive = compile_relationship_directive(
        "/analytics/rsi",
        "/assets/SPY",
        ExecutionSlotKind::UnderlyingInput,
    );
    assert_eq!(directive.relationship, "inputs:underlying");
    assert_eq!(
        directive.as_stage_instruction(),
        "stage.set_relationship(\"/analytics/rsi\", \"inputs:underlying\", \"/assets/SPY\")"
    );
    let sink = compile_relationship_directive("/portfolios/main", "/analytics/rsi", ExecutionSlotKind::SignalInput);
    assert_eq!(sink.relationship, "inputs:sources");
}

#[test]
fn execution_slots_follow_type_then_path() {
    assert_eq!(execution_slot_for_target_type("OtlOperator"), Some(ExecutionSlotKind::UnderlyingInput));
    assert_eq!(execution_slot_for_target_type("OtlTaUberSignal"), Some(ExecutionSlotKind::UnderlyingInput));
    assert_eq!(execution_slot_for_target_type("PortfolioIntegrator"), Some(ExecutionSlotKind::SignalInput));
    assert_eq!(execution_slot_for_target_type("FinancialAsset"), None);
    assert_eq!(execution_slot_for_target_prim("/analytics/x"), Some(ExecutionSlotKind::UnderlyingInput));
    assert_eq!(execution_slot_for_target_prim("/MarketLab/node/macd_1"), Some(ExecutionSlotKind::UnderlyingInput));
    assert_eq!(execution_slot_for_target_prim("/portfolios/main"), Some(ExecutionSlotKind::SignalInput));
    assert_eq!(execution_slot_for_target_prim("/MarketLab/Alpha_Portfolio"), Some(ExecutionSlotKind::SignalInput));
    assert_eq!(execution_slot_for_target_prim("/assets/SPY"), None);

    let by_type = connection_directive(Some("PortfolioIntegrator"), "/analytics/odd", "/analytics/rsi").unwrap();
    assert_eq!(by_type.relationship, "inputs:sources");
    let by_path = connection_directive(Some("Scope"), "/analytics/odd", "/assets/SPY").unwrap();
    assert_eq!(by_path.relationship, "inputs:underlying");
    assert_eq!(connection_directive(None, "/assets/QQQ", "/assets/SPY"), None);
}

#[test]
fn wiring_a_source_twice_authors_nothing() {
    let targets = vec!["/assets/SPY".to_string()];
    let wired = targets_with_source(&targets, "/assets/QQQ").unwrap();
    assert_eq!(wired, vec!["/assets/SPY".to_string(), "/assets/QQQ".to_string()]);
    assert_eq!(targets_with_source(&wired, "/assets/QQQ"), None);
    assert_eq!(targets_with_source(&wired, "/assets/SPY"), None);
}

#[test]
fn canvas_tabs_scope_to_aggregators() {
    let root = CanvasEnvironmentTab::root();
    assert_eq!(root.label, "Pipeline");
    assert!(root.is_root());
    let tab = CanvasEnvironmentTab::aggregator("Sleeve".to_string(), 7, "/portfolios/sleeve".to_string());
    assert!(!tab.is_root());
    assert_eq!(tab.scope_node_id, Some(7));
    assert_eq!(tab.scope_path.as_deref(), Some("/portfolios/sleeve"));
}

#[test]
fn node_labels_stay_on_one_line() {
    assert_eq!(sanitize_node_label_text("  Alpha\n\tSignal   One\r\n"), "Alpha Signal One");
    assert_eq!(truncate_label_to_chars("Alpha Signal One", 40), "Alpha Signal One");
    assert_eq!(truncate_label_to_chars("Alpha Signal One", 8), "Alpha...");
    assert_eq!(truncate_label_to_chars("Alpha Signal One", 3), "...");
    assert_eq!(truncate_label_to_chars("Alpha Signal One", 2), "...");
    assert_eq!(truncate_label_to_chars("Alpha", 0), "");
}

#[test]
fn asset_prims_get_dense_slots() {
    let prims = vec![
        prim("/assets/SPY", "FinancialAsset"),
        prim("/analytics/rsi", "OtlTaUberSignal"),
        prim("/assets/QQQ", "FinancialAsset"),
        prim("/portfolios/main", "PortfolioIntegrator"),
    ];
    let index = build_path_binding_index(&prims);
    assert_eq!(index.ordered_prim_paths, vec!["/assets/SPY".to_string(), "/assets/QQQ".to_string()]);
    assert_eq!(index.slot_for_prim("/assets/SPY"), Some(0));
    assert_eq!(index.slot_for_prim("/assets/QQQ"), Some(1));
    assert_eq!(index.slot_for_prim("/analytics/rsi"), None);
}

#[test]
fn dirty_nodes_are_tracked_once_and_taken() {
    let mut cache = ExecutionGraphCache::default();
    cache.dirty_graph_node("/analytics/rsi");
    cache.dirty_graph_node("/portfolios/main");
    cache.dirty_graph_node("/analytics/rsi");
    assert_eq!(cache.dirty_nodes().len(), 2);
    let taken = cache.take_dirty_nodes();
    assert_eq!(taken.len(), 2);
    assert!(taken.contains(&"/analytics/rsi".to_string()));
    assert!(cache.dirty_nodes().is_empty());
    cache.dirty_graph_node("/x");
    cache.clear_dirty_nodes();
    assert!(cache.dirty_nodes().is_empty());
}

#[test]
fn panels_and_tabs() {
    assert_eq!(
        default_active_panels(),
        vec![
            PanelType::StageComposer,
            PanelType::NodeCanvas,
            PanelType::ParamInspector,
            PanelType::OtlEditor,
            PanelType::RenderViewport
        ]
    );
    assert_eq!(WorkspaceTab::default(), WorkspaceTab::ParamInspector);
    assert_eq!(WorkspaceTab::ParamInspector.label(), "Param Inspector");
    assert_eq!(WorkspaceTab::OtlEditor.label(), "OTL Script Editor");
}
