use step_harness::errors::HarnessError;
use step_harness::linker::{BytecodeArtifact, LinkPlaceholder};
use step_harness::pipeline::{
    check_pipeline_start, check_topological, ram_test_graph, DependencyGraph, DeploymentPipeline,
    GraphNode,
};

fn addr(byte: u8) -> Vec<u8> {
    vec![byte; 20]
}

/// An artifact for a node: one placeholder per dependency, regions laid out
/// 20 bytes apart, padded with marker bytes.
fn artifact_for(node: &GraphNode) -> BytecodeArtifact {
    let n = node.deps.len();
    let mut placeholders = Vec::new();
    for (i, dep) in node.deps.iter().enumerate() {
        placeholders.push(LinkPlaceholder { symbol: dep.clone(), offset: 20 * i });
    }
    BytecodeArtifact { name: node.name.clone(), code: vec![0xEE; 20 * n + 8], placeholders }
}

fn artifacts_for(graph: &DependencyGraph) -> Vec<BytecodeArtifact> {
    graph.nodes.iter().map(artifact_for).collect()
}

#[test]
fn ram_test() {
    let graph = ram_test_graph();
    assert_eq!(graph.nodes.len(), 27);
    assert!(check_topological(&graph));
    let artifacts = artifacts_for(&graph);
    let n = graph.nodes.len();
    let mut pipeline = DeploymentPipeline::begin(graph, artifacts);
    assert!(check_pipeline_start(&pipeline));
    let mut count: u8 = 0;
    while !pipeline.finished() {
        let (name, code) = pipeline.next_artifact().unwrap();
        assert!(!name.is_empty());
        assert!(!code.is_empty());
        pipeline.record_deployed(addr(count));
        count += 1;
    }
    assert_eq!(count as usize, n);
    // The top-level step contract is deployed last and addressable by name.
    assert_eq!(pipeline.address_of(&b"Step".to_vec()), Some(addr(count - 1)));
    assert!(pipeline.address_of(&b"RiscVDecoder".to_vec()).is_some());
    assert!(pipeline.address_of(&b"NoSuchContract".to_vec()).is_none());
}

#[test]
fn linked_bytecode_embeds_dependency_addresses() {
    let graph = DependencyGraph {
        nodes: vec![
            GraphNode { name: b"Lib".to_vec(), deps: vec![], ctor_dep: None },
            GraphNode { name: b"User".to_vec(), deps: vec![b"Lib".to_vec()], ctor_dep: None },
        ],
    };
    assert!(check_topological(&graph));
    let artifacts = artifacts_for(&graph);
    let mut pipeline = DeploymentPipeline::begin(graph, artifacts);
    assert!(check_pipeline_start(&pipeline));

    let (name, code) = pipeline.next_artifact().unwrap();
    assert_eq!(name, b"Lib".to_vec());
    assert_eq!(code, vec![0xEE; 8]);
    pipeline.record_deployed(addr(0x11));

    let (name, code) = pipeline.next_artifact().unwrap();
    assert_eq!(name, b"User".to_vec());
    assert_eq!(&code[0..20], addr(0x11).as_slice());
    assert_eq!(&code[20..28], &[0xEE; 8]);
    pipeline.record_deployed(addr(0x22));
    assert!(pipeline.finished());
}

#[test]
fn constructor_argument_is_appended_as_a_word() {
    let graph = DependencyGraph {
        nodes: vec![
            GraphNode { name: b"Inner".to_vec(), deps: vec![], ctor_dep: None },
            GraphNode {
                name: b"Outer".to_vec(),
                deps: vec![],
                ctor_dep: Some(b"Inner".to_vec()),
            },
        ],
    };
    assert!(check_topological(&graph));
    let artifacts = artifacts_for(&graph);
    let mut pipeline = DeploymentPipeline::begin(graph, artifacts);
    pipeline.next_artifact().unwrap();
    pipeline.record_deployed(addr(0x55));
    let (_, code) = pipeline.next_artifact().unwrap();
    // 8 bytes of code, then the constructor word: 12 zero bytes and the
    // inner contract's 20-byte address, right-aligned in 32 bytes.
    assert_eq!(code.len(), 8 + 32);
    assert_eq!(&code[0..8], &[0xEE; 8]);
    assert_eq!(&code[8..20], &[0u8; 12]);
    assert_eq!(&code[20..40], addr(0x55).as_slice());
}

#[test]
fn out_of_order_graph_is_rejected() {
    let graph = DependencyGraph {
        nodes: vec![
            GraphNode { name: b"User".to_vec(), deps: vec![b"Lib".to_vec()], ctor_dep: None },
            GraphNode { name: b"Lib".to_vec(), deps: vec![], ctor_dep: None },
        ],
    };
    assert!(!check_topological(&graph));
    let artifacts = artifacts_for(&graph);
    let pipeline = DeploymentPipeline::begin(graph, artifacts);
    assert!(check_pipeline_start(&pipeline));
    // The dependent comes first: its dependency has no recorded address.
    assert_eq!(pipeline.next_artifact().err(), Some(HarnessError::DependencyNotReady));
}

#[test]
fn missing_placeholder_is_an_unresolved_symbol() {
    let graph = DependencyGraph {
        nodes: vec![
            GraphNode { name: b"Lib".to_vec(), deps: vec![], ctor_dep: None },
            GraphNode { name: b"User".to_vec(), deps: vec![b"Lib".to_vec()], ctor_dep: None },
        ],
    };
    let artifacts = vec![
        BytecodeArtifact { name: b"Lib".to_vec(), code: vec![0xEE; 8], placeholders: vec![] },
        // The dependent's artifact lacks the placeholder for Lib.
        BytecodeArtifact { name: b"User".to_vec(), code: vec![0xEE; 28], placeholders: vec![] },
    ];
    let mut pipeline = DeploymentPipeline::begin(graph, artifacts);
    assert!(check_pipeline_start(&pipeline));
    pipeline.next_artifact().unwrap();
    pipeline.record_deployed(addr(1));
    assert_eq!(pipeline.next_artifact().err(), Some(HarnessError::UnresolvedSymbol));
}
