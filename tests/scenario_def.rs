use chc::scenario_def::{rectify_index, PeerMatrix, ScenarioDef, ScenarioDefAgent, ScenarioDefNode};
use chc::scenario_def::ScenarioDefAgent as Agent;
use chc::scenario_def::ScenarioDefNode as Node;

/// Just construct a scenario to illustrate how it's done.
#[test]
fn constructors() {
    let ops: Vec<i32> = (-10..11).map(i32::into).collect();
    let nodes = [
        Node::new(vec![
            Agent::new((ops[0], ops[2]), &[ops[0], ops[1]]),
            Agent::new((ops[3], ops[4]), &[ops[3], ops[4]]),
        ]),
        Node::new(vec![
            Agent::new((ops[0], ops[2]), &[ops[5], ops[7]]),
            Agent::new((ops[3], ops[4]), &[ops[6], ops[9]]),
        ]),
    ];
    let _scenario = ScenarioDef::new(nodes, PeerMatrix::sparse([&[1], &[]]));
}

#[test]
fn scenario_defaults() {
    let nodes = [ScenarioDefNode::new(vec![]), ScenarioDefNode::new(vec![])];
    let scenario = ScenarioDef::new(nodes, PeerMatrix::full());
    assert_eq!(scenario.resolution, 255);
    assert!(scenario._latency_matrix.is_none());
    assert!(matches!(scenario.peer_matrix, PeerMatrix::Full));
}

#[test]
fn sparse_matrix_sets() {
    let m: PeerMatrix<3> = PeerMatrix::sparse([&[1, 2, 1], &[], &[0]]);
    match m {
        PeerMatrix::Sparse(sets) => {
            assert_eq!(sets.len(), 3);
            assert_eq!(sets[0].len(), 2);
            assert!(sets[0].contains(&1) && sets[0].contains(&2));
            assert!(sets[1].is_empty());
            assert_eq!(sets[2].len(), 1);
            assert!(sets[2].contains(&0));
        }
        PeerMatrix::Full => panic!("expected a sparse matrix"),
    }
}

#[test]
fn agent_ops_are_a_set() {
    let a = ScenarioDefAgent::new((0, 3), &[5, -2, 5, 7]);
    let ops: Vec<i32> = a.ops.iter().copied().collect();
    assert_eq!(ops, vec![-2, 5, 7]);
}

#[test]
fn agent_equality_merges_in_node() {
    let n = ScenarioDefNode::new(vec![
        ScenarioDefAgent::new((0, 1), &[1, 2]),
        ScenarioDefAgent::new((0, 1), &[2, 1]),
        ScenarioDefAgent::new((0, 2), &[1, 2]),
    ]);
    assert_eq!(n.agents.len(), 2);
}

#[test]
fn rectify_values() {
    assert_eq!(rectify_index(255, 0), 0);
    assert_eq!(rectify_index(255, 10), 10);
    assert_eq!(rectify_index(255, -1), 254);
    assert_eq!(rectify_index(255, -10), 245);
    assert_eq!(rectify_index(255, 254), 254);
    assert_eq!(rectify_index(255, -254), 1);
}

#[test]
fn agent_arc_bounds() {
    let a = ScenarioDefAgent::new((-10, -5), &[]);
    assert_eq!(a.arc(255), (245, 250));
    let b = ScenarioDefAgent::new((3, 4), &[]);
    assert_eq!(b.arc(255), (3, 4));
}
