use marketlab::weights::weight_pair_texts;

#[test]
fn weight_pairs_split_on_last_colon() {
    let pairs = weight_pair_texts(" /a/b:0.5000, ,bad, :1.0, /c:d:0.25 ,/e: x ");
    assert_eq!(
        pairs,
        vec![
            ("/a/b".to_string(), "0.5000".to_string()),
            ("/c:d".to_string(), "0.25".to_string()),
            ("/e".to_string(), "x".to_string()),
        ]
    );
    assert!(weight_pair_texts("   ").is_empty());
}
