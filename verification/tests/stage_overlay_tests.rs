use marketlab::stage_overlay::StageOverlay;
use marketlab::workspace_ui::{PanelType, WorkspaceState};

#[test]
fn overlay_reads_back_what_was_written() {
    let mut overlay: StageOverlay<i64> = StageOverlay::new();
    assert_eq!(overlay.field_override("/MarketLab/a.inputs:period", "default"), None);
    overlay.set_field("/MarketLab/a.inputs:period", "default", 14);
    assert_eq!(overlay.field_override("/MarketLab/a.inputs:period", "default"), Some(&14));
    overlay.set_field("/MarketLab/a.inputs:period", "default", 21);
    assert_eq!(overlay.field_override("/MarketLab/a.inputs:period", "default"), Some(&21));
    assert_eq!(overlay.overlay_field_count(), 1);
    assert_eq!(overlay.field_override("/MarketLab/b.inputs:period", "default"), None);

    assert_eq!(overlay.active_override("/MarketLab/a"), None);
    overlay.set_prim_active("/MarketLab/a", false);
    assert_eq!(overlay.active_override("/MarketLab/a"), Some(false));
    overlay.set_prim_active("/MarketLab/a", true);
    assert_eq!(overlay.active_override("/MarketLab/a"), Some(true));

    let targets = vec!["/MarketLab/src".to_string()];
    overlay.set_relationship_targets("/MarketLab/a", "inputs:underlying", targets.clone());
    assert_eq!(overlay.relationship_override("/MarketLab/a", "inputs:underlying"), Some(&targets));
    assert_eq!(overlay.relationship_override("/MarketLab/a", "inputs:sources"), None);
    assert_eq!(overlay.relationship_override_count(), 1);
}

#[test]
fn field_opinions_are_scoped_to_the_edit_target() {
    let mut overlay: StageOverlay<i64> = StageOverlay::new();
    overlay.set_field("/p.x", "default", 1);
    overlay.set_edit_target_layer(Some("signals.usda".to_string()));
    // An opinion written with no edit target shows through.
    assert_eq!(overlay.field_override("/p.x", "default"), Some(&1));
    overlay.set_field("/p.x", "default", 2);
    assert_eq!(overlay.field_override("/p.x", "default"), Some(&2));
    overlay.set_edit_target_layer(Some("universe.usda".to_string()));
    assert_eq!(overlay.field_override("/p.x", "default"), Some(&1));
    overlay.set_edit_target_layer(None);
    assert_eq!(overlay.field_override("/p.x", "default"), Some(&1));
    assert_eq!(overlay.overlay_field_count(), 2);
}

#[test]
fn overlay_memory_rounds_up_to_whole_kib() {
    let mut overlay: StageOverlay<i64> = StageOverlay::new();
    assert_eq!(overlay.overlay_memory_kib(), 0);
    overlay.set_field("/p.x", "default", 1);
    assert_eq!(overlay.overlay_memory_kib(), 1);
    for i in 0..10 {
        overlay.set_field(&format!("/p.y{i}"), "default", i);
    }
    // 11 fields * 96 bytes = 1056 bytes.
    assert_eq!(overlay.overlay_memory_kib(), 2);
    overlay.set_relationship_targets("/p", "inputs:sources", Vec::new());
    // 1056 + 128 = 1184 bytes.
    assert_eq!(overlay.overlay_memory_kib(), 2);
}

#[test]
fn selection_generation_steps_once_per_change() {
    let mut state = WorkspaceState::new(Some("root.usda".to_string()));
    assert_eq!(state.ui_selection_generation(), 0);
    assert!(state.set_selected_path(Some("/MarketLab/a".to_string())));
    assert_eq!(state.ui_selection_generation(), 1);
    assert!(!state.set_selected_path(Some("/MarketLab/a".to_string())));
    assert_eq!(state.ui_selection_generation(), 1);
    assert!(state.set_selected_path(None));
    assert_eq!(state.ui_selection_generation(), 2);
    assert_eq!(state.selected_path(), None);
    assert_eq!(state.active_panels().len(), 5);
    assert_eq!(state.active_panels()[0], PanelType::StageComposer);
}

#[test]
fn prim_edits_dirty_nodes_and_stale_the_engine_cache() {
    let mut state = WorkspaceState::new(None);
    let compiled_at = state.engine_cache_generation();
    assert!(!state.is_engine_cache_dirty(compiled_at));
    state.record_prim_edit("/MarketLab/sig");
    assert!(state.is_engine_cache_dirty(compiled_at));
    assert_eq!(state.execution_engine().dirty_nodes(), &vec!["/MarketLab/sig".to_string()]);
    state.clear_dirty_nodes();
    assert!(state.execution_engine().dirty_nodes().is_empty());
    assert!(!state.set_edit_target_layer(None));
    assert!(state.set_edit_target_layer(Some("signals.usda".to_string())));
    assert_eq!(state.edit_target_layer(), Some(&"signals.usda".to_string()));
}
