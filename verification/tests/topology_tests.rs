use marketlab::lexer::{is_input_ident, tokenize, Token};
use marketlab::ast::{CompileError, TokenKind};
use marketlab::topology::{
    classify_prim_type, compile_logical_strategy_tree, legacy_type_name_from_path, pick_user_label, CapsuleSocketSide,
    LogicalTreeNode,
};

#[test]
fn legacy_types_follow_path_roots() {
    assert_eq!(legacy_type_name_from_path("/assets/AAPL"), Some("FinancialAsset".to_string()));
    assert_eq!(legacy_type_name_from_path("/analytics/rsi"), Some("OtlTaUberSignal".to_string()));
    assert_eq!(legacy_type_name_from_path("/portfolios/core"), Some("PortfolioIntegrator".to_string()));
    assert_eq!(legacy_type_name_from_path("/assets"), None);
}

#[test]
fn classify_uses_authored_type_then_path() {
    assert_eq!(classify_prim_type("/x", Some("\"OtlOperator\"")), Some("OtlOperator".to_string()));
    assert_eq!(classify_prim_type("/assets/A", Some("\"\"")), Some("FinancialAsset".to_string()));
    assert_eq!(classify_prim_type("/assets/A", Some("Mesh")), None);
    assert_eq!(classify_prim_type("/FinancialAsset", Some("FinancialAsset")), None);
    assert_eq!(classify_prim_type("/other", None), None);
}

#[test]
fn tree_nodes_clone_deeply() {
    let leaf = LogicalTreeNode { prim_path: "/a".into(), display_label: "A".into(), children: vec![] };
    let root = LogicalTreeNode { prim_path: "/p".into(), display_label: "P".into(), children: vec![leaf] };
    let copy = root.clone();
    assert_eq!(copy.children[0].prim_path, "/a");
    assert_ne!(CapsuleSocketSide::Input, CapsuleSocketSide::Output);
}

#[test]
fn tokenize_parses_window_functions() {
    let tokens = tokenize("cross(sma(data, 10), sma(data, 30))").unwrap();
    assert!(matches!(tokens.first(), Some(Token::Ident(name)) if name == "cross"));
}

#[test]
fn tokenize_reads_numbers_idents_and_errors() {
    let tokens = tokenize("  TA::SMA(x, 2.5) - .5*3 ").unwrap();
    assert_eq!(
        tokens,
        vec![
            Token::Ident("ta::sma".to_string()),
            Token::LParen,
            Token::Ident("x".to_string()),
            Token::Comma,
            Token::Number("2.5".to_string()),
            Token::RParen,
            Token::Minus,
            Token::Number(".5".to_string()),
            Token::Star,
            Token::Number("3".to_string()),
        ]
    );
    assert_eq!(tokens[0].kind(), TokenKind::Ident);
    assert_eq!(tokenize(" \n "), Err(CompileError::EmptyInput));
    assert_eq!(tokenize("1.2.3"), Err(CompileError::Evaluation("invalid number `1.2.3`".to_string())));
    assert_eq!(tokenize("a # b"), Err(CompileError::Evaluation("unexpected character `#`".to_string())));
    assert_eq!(tokenize("a é"), Err(CompileError::Evaluation("unexpected character ``".to_string())));
    assert_eq!(tokenize("."), Err(CompileError::Evaluation("invalid number `.`".to_string())));
}

#[test]
fn input_identifiers() {
    assert!(is_input_ident("data"));
    assert!(is_input_ident("source_stream"));
    assert!(!is_input_ident("Data"));
    assert!(!is_input_ident("lookback"));
}

fn pairs(v: &[(&str, &str)]) -> Vec<(String, String)> {
    v.iter().map(|(a, b)| (a.to_string(), b.to_string())).collect()
}

fn sources(v: &[(&str, &[&str])]) -> Vec<(String, Vec<String>)> {
    v.iter()
        .map(|(p, ts)| (p.to_string(), ts.iter().map(|t| t.to_string()).collect()))
        .collect()
}

fn shape(n: &LogicalTreeNode) -> String {
    if n.children.is_empty() {
        n.display_label.clone()
    } else {
        let inner: Vec<String> = n.children.iter().map(shape).collect();
        format!("{}[{}]", n.display_label, inner.join(","))
    }
}

#[test]
fn strategy_tree_roots_are_top_level_portfolios() {
    let prims = pairs(&[
        ("/p/main", "PortfolioIntegrator"),
        ("/a/spy", "FinancialAsset"),
        ("/p/child", "PortfolioIntegrator"),
        ("/a/tlt", "FinancialAsset"),
    ]);
    let srcs = sources(&[("/p/main", &["/a/spy", "/p/child"]), ("/p/child", &["/a/tlt"])]);
    let labels = pairs(&[("/p/main", "Main"), ("/a/spy", "SPY"), ("/p/child", "Child"), ("/a/tlt", "TLT")]);
    let tree = compile_logical_strategy_tree(&prims, &srcs, &labels);
    assert_eq!(tree.len(), 1);
    assert_eq!(shape(&tree[0]), "Main[SPY,Child[TLT]]");
    assert_eq!(tree[0].children[1].prim_path, "/p/child");
}

#[test]
fn strategy_tree_stops_at_a_cycle() {
    let prims = pairs(&[("/p/main", "PortfolioIntegrator"), ("/s/sig", "OtlOperator")]);
    let srcs = sources(&[("/p/main", &["/s/sig"]), ("/s/sig", &["/p/main"])]);
    let labels = pairs(&[("/p/main", "Main"), ("/s/sig", "Sig")]);
    let tree = compile_logical_strategy_tree(&prims, &srcs, &labels);
    assert_eq!(tree.len(), 1);
    assert_eq!(shape(&tree[0]), "Main[Sig[Main]]");
    // Two portfolios that list each other leave no root.
    let prims = pairs(&[("/p/a", "PortfolioIntegrator"), ("/p/b", "PortfolioIntegrator")]);
    let srcs = sources(&[("/p/a", &["/p/b"]), ("/p/b", &["/p/a"])]);
    assert!(compile_logical_strategy_tree(&prims, &srcs, &labels).is_empty());
}

#[test]
fn strategy_tree_without_portfolios_lists_assets_and_signals() {
    let prims = pairs(&[
        ("/a/spy", "FinancialAsset"),
        ("/x/other", "Scope"),
        ("/s/rsi", "OtlTaUberSignal"),
        ("/s/op", "OtlOperator"),
    ]);
    let labels = pairs(&[("/a/spy", "SPY")]);
    let tree = compile_logical_strategy_tree(&prims, &Vec::new(), &labels);
    let paths: Vec<&str> = tree.iter().map(|n| n.prim_path.as_str()).collect();
    assert_eq!(paths, vec!["/a/spy", "/s/rsi", "/s/op"]);
    assert_eq!(tree[0].display_label, "SPY");
    assert_eq!(tree[1].display_label, "");
    assert!(tree.iter().all(|n| n.children.is_empty()));
}

#[test]
fn user_label_prefers_a_non_blank_registry_label() {
    assert_eq!(pick_user_label(Some("Apple"), Some("AAPL stage")), Some("Apple".to_string()));
    assert_eq!(pick_user_label(Some("  "), Some("AAPL stage")), Some("AAPL stage".to_string()));
    assert_eq!(pick_user_label(None, None), None);
    assert_eq!(pick_user_label(Some(""), None), None);
}
