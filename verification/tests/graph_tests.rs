use marketlab::graph::{ExecutionGraph, GraphCompileSpec, GraphNode};
use marketlab::stage_graph::{
    GraphCompileWire, GraphEngineError, PathBindingIndex, StageGraphPrim, StageGraphSnapshot,
};

fn attrs(pairs: &[(&str, &str)]) -> Vec<(String, String)> {
    pairs
        .iter()
        .map(|(k, v)| (k.to_string(), v.to_string()))
        .collect()
}

fn wire(source: &str, target: &str, relationship: &str) -> GraphCompileWire {
    GraphCompileWire {
        source_prim_path: source.to_string(),
        target_prim_path: target.to_string(),
        relationship: relationship.to_string(),
    }
}

fn stage_snapshot() -> StageGraphSnapshot {
    StageGraphSnapshot {
        prims: vec![
            StageGraphPrim {
                path: "/assets/SPY".to_string(),
                prim_type: "FinancialAsset".to_string(),
                attributes: attrs(&[("inputs:symbol", "SPY")]),
            },
            StageGraphPrim {
                path: "/analytics/rsi".to_string(),
                prim_type: "OtlOperator".to_string(),
                attributes: attrs(&[("inputs:script_src", "identity")]),
            },
            StageGraphPrim {
                path: "/portfolios/main".to_string(),
                prim_type: "PortfolioIntegrator".to_string(),
                attributes: attrs(&[
                    ("inputs:id", "Allocation::EqualWeight"),
                    ("inputs:initial_capital", "1000000"),
                ]),
            },
        ],
        wires: vec![
            wire("/assets/SPY", "/analytics/rsi", "inputs:underlying"),
            wire("/analytics/rsi", "/portfolios/main", "inputs:sources"),
        ],
        path_bindings: PathBindingIndex::default(),
        asset_registry: Vec::new(),
    }
}

fn asset(path: &str) -> (String, GraphNode) {
    (
        path.to_string(),
        GraphNode::DataInput {
            symbol: path.rsplit('/').next().unwrap().to_string(),
        },
    )
}

#[test]
fn compile_from_stage_orders_asset_before_portfolio() {
    let engine = ExecutionGraph::compile_from_stage(&stage_snapshot(), &[]).expect("valid dag");
    assert_eq!(
        engine.execution_order_prim_paths(),
        vec![
            "/assets/SPY".to_string(),
            "/analytics/rsi".to_string(),
            "/portfolios/main".to_string(),
        ]
    );
}

#[test]
fn compile_rejects_cycles() {
    let spec = GraphCompileSpec {
        nodes: vec![asset("/assets/A"), asset("/assets/B")],
        wires: vec![
            wire("/assets/A", "/assets/B", "inputs:underlying"),
            wire("/assets/B", "/assets/A", "inputs:underlying"),
        ],
    };
    assert!(matches!(
        ExecutionGraph::compile(spec),
        Err(GraphEngineError::CycleDetected)
    ));
}

#[test]
fn stage_prims_become_nodes() {
    let graph = ExecutionGraph::compile_from_stage(&stage_snapshot(), &[]).unwrap();
    let nodes = graph.nodes();
    assert_eq!(
        nodes[0].1,
        GraphNode::DataInput {
            symbol: "/assets/SPY".to_string()
        }
    );
    assert_eq!(
        nodes[1].1,
        GraphNode::SignalTransform {
            expression: "identity".to_string()
        }
    );
    assert_eq!(
        nodes[2].1,
        GraphNode::PortfolioSink {
            method: "Allocation::EqualWeight".to_string(),
            initial_capital: Some("1000000".to_string()),
            otl_script: String::new(),
        }
    );
    assert_eq!(graph.prim_index("/portfolios/main"), Some(2));
    assert_eq!(graph.prim_index("/nowhere"), None);
    assert_eq!(graph.execution_order(), &vec![0, 1, 2]);
}

#[test]
fn unsupported_prims_and_unknown_wire_ends_are_refused() {
    let mut snapshot = stage_snapshot();
    snapshot.prims.push(StageGraphPrim {
        path: "/misc/scope".to_string(),
        prim_type: "Scope".to_string(),
        attributes: Vec::new(),
    });
    assert_eq!(
        ExecutionGraph::compile_from_stage(&snapshot, &[]).err(),
        Some(GraphEngineError::UnsupportedPrimType {
            prim_type: "Scope".to_string(),
            path: "/misc/scope".to_string()
        })
    );
    let spec = GraphCompileSpec {
        nodes: vec![asset("/assets/A")],
        wires: vec![wire("/assets/A", "/assets/Z", "inputs:underlying")],
    };
    assert_eq!(
        ExecutionGraph::compile(spec).err(),
        Some(GraphEngineError::UnknownPrimPath("/assets/Z".to_string()))
    );
    let empty = GraphCompileSpec {
        nodes: Vec::new(),
        wires: Vec::new(),
    };
    assert_eq!(ExecutionGraph::compile(empty).err(), Some(GraphEngineError::EmptyGraph));
}

#[test]
fn only_execution_relationships_become_edges() {
    let mut snapshot = stage_snapshot();
    // A display-only relationship back up the chain is not an execution edge,
    // so it cannot close a cycle.
    snapshot
        .wires
        .push(wire("/portfolios/main", "/assets/SPY", "inputs:preview"));
    let graph = ExecutionGraph::compile_from_stage(&snapshot, &[]).expect("acyclic");
    assert_eq!(graph.execution_order(), &vec![0, 1, 2]);
    snapshot
        .wires
        .push(wire("/portfolios/main", "/assets/SPY", "inputs:constituents"));
    assert!(matches!(
        ExecutionGraph::compile_from_stage(&snapshot, &[]),
        Err(GraphEngineError::CycleDetected)
    ));
}

#[test]
fn later_node_takes_a_repeated_path() {
    let spec = GraphCompileSpec {
        nodes: vec![asset("/assets/A"), asset("/assets/B"), asset("/assets/A")],
        wires: vec![wire("/assets/B", "/assets/A", "inputs:underlying")],
    };
    let mut graph = ExecutionGraph::compile(spec).unwrap();
    assert_eq!(graph.prim_index("/assets/A"), Some(2));
    let order = graph.execution_order().clone();
    let pos = |i: usize| order.iter().position(|&n| n == i).unwrap();
    assert!(pos(1) < pos(2));
    // The shadowed first node runs but is listed under no path.
    assert_eq!(graph.execution_order_prim_paths().len(), 2);
    assert_eq!(
        graph.connect("/assets/A", "/nowhere"),
        Err(GraphEngineError::UnknownPrimPath("/nowhere".to_string()))
    );
    assert_eq!(graph.connect("/assets/A", "/assets/B"), Ok(()));
}

#[test]
fn execution_levels_group_nodes_by_longest_path() {
    // A -> B -> D, A -> C -> D, A -> D, and E on its own.
    let spec = GraphCompileSpec {
        nodes: vec![
            asset("/assets/A"),
            asset("/assets/B"),
            asset("/assets/C"),
            asset("/assets/D"),
            asset("/assets/E"),
        ],
        wires: vec![
            wire("/assets/A", "/assets/B", "inputs:underlying"),
            wire("/assets/A", "/assets/C", "inputs:underlying"),
            wire("/assets/B", "/assets/D", "inputs:underlying"),
            wire("/assets/C", "/assets/D", "inputs:underlying"),
            wire("/assets/A", "/assets/D", "inputs:underlying"),
        ],
    };
    let engine = ExecutionGraph::compile(spec).expect("valid dag");
    let mut levels: Vec<Vec<usize>> = engine.execution_levels().clone();
    for level in levels.iter_mut() {
        level.sort();
    }
    assert_eq!(levels, vec![vec![0, 4], vec![1, 2], vec![3]]);
}

#[test]
fn a_chain_has_one_node_per_level() {
    let spec = GraphCompileSpec {
        nodes: vec![asset("/assets/C"), asset("/assets/B"), asset("/assets/A")],
        wires: vec![
            wire("/assets/A", "/assets/B", "inputs:underlying"),
            wire("/assets/B", "/assets/C", "inputs:underlying"),
        ],
    };
    let engine = ExecutionGraph::compile(spec).expect("valid dag");
    assert_eq!(engine.execution_levels(), &vec![vec![2], vec![1], vec![0]]);
}

#[test]
fn canvas_snapshots_compile_like_stage_snapshots() {
    let from_canvas = ExecutionGraph::compile_from_canvas(&stage_snapshot(), &[]).expect("valid dag");
    let from_stage = ExecutionGraph::compile_from_stage(&stage_snapshot(), &[]).expect("valid dag");
    assert_eq!(from_canvas.execution_order_prim_paths(), from_stage.execution_order_prim_paths());
    assert_eq!(from_canvas.execution_levels().len(), 3);
}
