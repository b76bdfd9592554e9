use marketlab::layers::{
    build_layer_descriptors, layer_display_name, LayerDisplayState, LayerStackControlState,
};

fn tray() -> LayerStackControlState {
    LayerStackControlState::new(&["session.usda", "signals.usda", "sp500_universe.usda"])
}

#[test]
fn new_tray_lists_default_stack_all_active() {
    let t = tray();
    assert_eq!(
        t.ordered_layers(),
        &["session.usda".to_string(), "signals.usda".to_string(), "sp500_universe.usda".to_string()]
    );
    assert_eq!(t.state_for("signals.usda"), LayerDisplayState::Active);
    assert_eq!(t.state_for("unknown.usda"), LayerDisplayState::Active);
}

#[test]
fn toggle_mute_twice_restores_active() {
    let mut t = tray();
    t.toggle_mute("signals.usda");
    assert_eq!(t.state_for("signals.usda"), LayerDisplayState::Muted);
    assert_eq!(t.state_for("session.usda"), LayerDisplayState::Active);
    t.toggle_mute("signals.usda");
    assert_eq!(t.state_for("signals.usda"), LayerDisplayState::Active);
}

#[test]
fn isolate_wins_and_toggle_releases_it() {
    let mut t = tray();
    t.toggle_mute("signals.usda");
    t.isolate_layer("signals.usda");
    assert_eq!(t.state_for("signals.usda"), LayerDisplayState::Isolated);
    t.toggle_mute("signals.usda");
    assert_eq!(t.state_for("signals.usda"), LayerDisplayState::Active);
    t.isolate_layer("session.usda");
    t.clear_isolation();
    assert_eq!(t.state_for("session.usda"), LayerDisplayState::Active);
}

#[test]
fn isolation_moves_between_layers() {
    let mut t = tray();
    t.toggle_mute("session.usda");
    t.isolate_layer("signals.usda");
    t.isolate_layer("sp500_universe.usda");
    assert_eq!(t.state_for("signals.usda"), LayerDisplayState::Active);
    assert_eq!(t.state_for("sp500_universe.usda"), LayerDisplayState::Isolated);
    assert_eq!(t.state_for("session.usda"), LayerDisplayState::Muted);
}

#[test]
fn reorder_moves_and_ignores_bad_indices() {
    let mut t = tray();
    t.reorder(0, 2);
    assert_eq!(
        t.ordered_layers(),
        &["signals.usda".to_string(), "sp500_universe.usda".to_string(), "session.usda".to_string()]
    );
    t.reorder(2, 0);
    assert_eq!(t.ordered_layers()[0], "session.usda");
    t.reorder(0, 3);
    t.reorder(1, 1);
    assert_eq!(t.ordered_layers()[1], "signals.usda");
}

#[test]
fn sync_ordered_layers_ignores_empty() {
    let mut t = tray();
    t.sync_ordered_layers(Vec::new());
    assert_eq!(t.ordered_layers().len(), 3);
    t.sync_ordered_layers(vec!["x.usda".to_string()]);
    assert_eq!(t.ordered_layers(), &["x.usda".to_string()]);
}

#[test]
fn display_name_is_path_leaf() {
    assert_eq!(layer_display_name("layers/signals.usda"), "signals.usda");
    assert_eq!(layer_display_name("./a/b.usd"), "b.usd");
    assert_eq!(layer_display_name("plain.usda"), "plain.usda");
    assert_eq!(layer_display_name(".."), "..");
    assert_eq!(layer_display_name("dir/"), "dir");
}

#[test]
fn descriptors_follow_order_and_state() {
    let mut t = tray();
    t.toggle_mute("signals.usda");
    let ds = build_layer_descriptors(&t, "session.usda");
    assert_eq!(ds.len(), 3);
    assert_eq!(ds[0].filename, "session.usda");
    assert!(ds[0].is_user_editable);
    assert_eq!(ds[1].state, LayerDisplayState::Muted);
    assert_eq!(ds[1].priority_order, 1);
    assert!(!ds[2].is_user_editable);
    assert_eq!(ds[2].display_name, "sp500_universe.usda");
}

#[test]
fn default_tray_is_empty() {
    let t = LayerStackControlState::default();
    assert!(t.ordered_layers().is_empty());
}

#[test]
fn toggling_the_isolated_layer_leaves_none_isolated() {
    let mut t = tray();
    t.isolate_layer("signals.usda");
    t.toggle_mute("signals.usda");
    for f in ["session.usda", "signals.usda", "sp500_universe.usda"] {
        assert_ne!(t.state_for(f), LayerDisplayState::Isolated);
    }
    t.toggle_mute("signals.usda");
    assert_eq!(t.state_for("signals.usda"), LayerDisplayState::Muted);
    t.isolate_layer("session.usda");
    t.isolate_layer("signals.usda");
    assert_eq!(t.state_for("session.usda"), LayerDisplayState::Active);
    assert_eq!(t.state_for("signals.usda"), LayerDisplayState::Isolated);
    assert!(t.is_well_formed());
}
