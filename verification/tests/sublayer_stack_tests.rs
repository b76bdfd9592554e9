use marketlab::sublayers::{
    append_sublayer_text, insert_sublayer_text, normalize_layer_filename,
    parse_ordered_sublayer_filenames, remove_sublayer_text, reorder_sublayer_text,
    rewrite_ordered_sublayers, sublayer_ref_to_filename,
};

const ROOT: &str = "#usda 1.0\n(\n    subLayers = [\n        @./a.usda@\n        @./b.usda@\n    ]\n)\n";

#[test]
fn parses_and_rewrites_sublayer_order() {
    let updated = reorder_sublayer_text(ROOT, 0, 1).expect("reorder");
    let ordered = parse_ordered_sublayer_filenames(&updated);
    assert_eq!(ordered, vec!["b.usda", "a.usda"]);
}

#[test]
fn reorder_out_of_bounds_is_an_error() {
    assert_eq!(
        reorder_sublayer_text(ROOT, 0, 2),
        Err("Layer reorder out-of-bounds.".to_string())
    );
}

#[test]
fn ref_to_filename_strips_quotes_and_dirs() {
    assert_eq!(sublayer_ref_to_filename("  @./session.usda@ "), Some("session.usda".to_string()));
    assert_eq!(sublayer_ref_to_filename("@layers/x.usd@"), Some("x.usd".to_string()));
    assert_eq!(sublayer_ref_to_filename("session.usda"), None);
    assert_eq!(sublayer_ref_to_filename("@"), None);
    assert_eq!(sublayer_ref_to_filename("@..@"), None);
}

#[test]
fn parse_handles_commas_and_missing_block() {
    let text = "(\n subLayers = [ @./a.usda@,\n   @./b.usda@, \r\n]\n)";
    assert_eq!(parse_ordered_sublayer_filenames(text), vec!["b.usda"]);
    let text2 = "(\n subLayers = [\n @./a.usda@,\n @./b.usda@\n]\n)";
    assert_eq!(parse_ordered_sublayer_filenames(text2), vec!["a.usda", "b.usda"]);
    assert!(parse_ordered_sublayer_filenames("#usda 1.0\n(\n)\n").is_empty());
}

#[test]
fn rewrite_replaces_existing_block() {
    let out = rewrite_ordered_sublayers(ROOT, &["c.usda".to_string()]);
    assert_eq!(out, "#usda 1.0\n(\n    subLayers = [\n        @./c.usda@\n    ]\n)\n");
    assert_eq!(out.matches("subLayers").count(), 1);
    assert_eq!(parse_ordered_sublayer_filenames(&out), vec!["c.usda"]);
    let swapped = rewrite_ordered_sublayers(ROOT, &["b.usda".to_string(), "a.usda".to_string()]);
    assert_eq!(
        swapped,
        "#usda 1.0\n(\n    subLayers = [\n        @./b.usda@\n        @./a.usda@\n    ]\n)\n"
    );
    assert_eq!(parse_ordered_sublayer_filenames(&swapped), vec!["b.usda", "a.usda"]);
}

#[test]
fn rewrite_inserts_block_before_metadata_close() {
    let out = rewrite_ordered_sublayers("#usda 1.0\n(\n)\n", &["a.usda".to_string()]);
    assert_eq!(out, "#usda 1.0\n(\n    subLayers = [\n        @./a.usda@\n    ]\n)\n");
    let out2 = rewrite_ordered_sublayers("x", &[]);
    assert_eq!(out2, "x\n    subLayers = [\n    ]");
}

#[test]
fn insert_clamps_index_and_skips_duplicates() {
    let out = insert_sublayer_text(ROOT, 9, "dir/c").expect("inserted");
    assert_eq!(parse_ordered_sublayer_filenames(&out), vec!["a.usda", "b.usda", "c.usda"]);
    let front = insert_sublayer_text(ROOT, 0, "z.usd").expect("inserted");
    assert_eq!(parse_ordered_sublayer_filenames(&front), vec!["z.usd", "a.usda", "b.usda"]);
    assert_eq!(insert_sublayer_text(ROOT, 0, "a"), None);
}

#[test]
fn append_adds_at_weakest_slot() {
    let out = append_sublayer_text(ROOT, "c.usda").expect("appended");
    assert_eq!(parse_ordered_sublayer_filenames(&out), vec!["a.usda", "b.usda", "c.usda"]);
    assert_eq!(append_sublayer_text(ROOT, "b.usda"), None);
}

#[test]
fn remove_detaches_or_reports_missing() {
    let out = remove_sublayer_text(ROOT, "a").expect("removed");
    assert_eq!(parse_ordered_sublayer_filenames(&out), vec!["b.usda"]);
    assert_eq!(
        remove_sublayer_text(ROOT, "q"),
        Err("Sublayer not found in stack: q.usda".to_string())
    );
}

#[test]
fn normalize_adds_usda_extension() {
    assert_eq!(normalize_layer_filename("layers/foo"), "foo.usda");
    assert_eq!(normalize_layer_filename("foo.usd"), "foo.usd");
    assert_eq!(normalize_layer_filename("foo.usda"), "foo.usda");
    assert_eq!(normalize_layer_filename(".."), "...usda");
}

#[test]
fn layer_files_live_beside_the_root_layer() {
    assert_eq!(
        marketlab::sublayers::layer_path_for_root("/stage/root.usda", "signals"),
        Ok("/stage/signals.usda".to_string())
    );
    assert_eq!(
        marketlab::sublayers::layer_path_for_root("/stage/root.usda", "nested/universe.usd"),
        Ok("/stage/universe.usd".to_string())
    );
    assert_eq!(
        marketlab::sublayers::layer_path_for_root("/", "signals"),
        Err("Root layer has no parent directory.".to_string())
    );
}
