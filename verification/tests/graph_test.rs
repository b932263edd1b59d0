use midianimator::graph::{plan_execution, Graph, GraphEdge, GraphError, GraphNode, Source};

fn node(id: &str, realtime: bool, inputs: &[&str]) -> GraphNode {
    GraphNode {
        id: id.to_string(),
        realtime,
        inputs: inputs.iter().map(|s| s.to_string()).collect(),
    }
}

fn edge(consumer: &str, input: &str, producer: &str, output: &str) -> GraphEdge {
    GraphEdge {
        source: consumer.to_string(),
        target: producer.to_string(),
        source_handle: input.to_string(),
        target_handle: output.to_string(),
    }
}

fn pipeline() -> Graph {
    Graph {
        nodes: vec![
            node("evaluate_instrument-4", true, &[]),
            node("assign_notes_to_objects-3", true, &["object_group_name"]),
            node("get_midi_track_data-2", true, &["track_name", "tracks"]),
            node("get_midi_file-1", false, &["file_path"]),
        ],
        edges: vec![
            edge("get_midi_track_data-2", "tracks", "get_midi_file-1", "tracks"),
            edge("assign_notes_to_objects-3", "midi_notes", "get_midi_track_data-2", "notes"),
            edge("evaluate_instrument-4", "object_map", "assign_notes_to_objects-3", "object_map"),
            edge("evaluate_instrument-4", "midi_notes", "get_midi_track_data-2", "notes"),
        ],
    }
}

fn source_of(plan: &midianimator::graph::Plan, node: usize, handle: &str) -> String {
    let bindings = plan.inputs[node].as_ref().unwrap();
    let binding = bindings.iter().find(|b| b.handle == handle).unwrap();
    match &binding.source {
        Source::Output { node, handle } => format!("{}.{}", node, handle),
        Source::Literal { index } => format!("literal {}", index),
    }
}

#[test]
fn producers_run_before_consumers() {
    let plan = plan_execution(&pipeline(), false).unwrap();
    assert_eq!(plan.order, vec![3, 2, 1, 0]);
    assert_eq!(plan.visited, vec![true, true, true, true]);
    assert_eq!(source_of(&plan, 3, "file_path"), "literal 0");
    assert_eq!(source_of(&plan, 2, "tracks"), "3.tracks");
    assert_eq!(source_of(&plan, 2, "track_name"), "literal 0");
    assert_eq!(plan.inputs[2].as_ref().unwrap().len(), 2);
    assert_eq!(source_of(&plan, 1, "midi_notes"), "2.notes");
    assert_eq!(source_of(&plan, 0, "object_map"), "1.object_map");
    assert_eq!(source_of(&plan, 0, "midi_notes"), "2.notes");
}

#[test]
fn planning_twice_gives_the_same_plan() {
    let first = plan_execution(&pipeline(), false).unwrap();
    let second = plan_execution(&pipeline(), false).unwrap();
    assert_eq!(first.order, second.order);
    assert_eq!(format!("{:?}", first.inputs), format!("{:?}", second.inputs));
}

#[test]
fn realtime_evaluation_skips_nodes_that_are_not_realtime() {
    let plan = plan_execution(&pipeline(), true).unwrap();
    assert_eq!(plan.order, Vec::<usize>::new());
    assert_eq!(plan.executed, vec![false, false, false, false]);
    assert_eq!(plan.visited, vec![false, false, false, true]);
}

#[test]
fn realtime_evaluation_runs_realtime_chains() {
    let graph = Graph {
        nodes: vec![node("a-1", true, &[]), node("b-2", true, &[]), node("c-3", false, &[])],
        edges: vec![edge("b-2", "in", "a-1", "out"), edge("c-3", "in", "b-2", "out")],
    };
    let plan = plan_execution(&graph, true).unwrap();
    assert_eq!(plan.order, vec![0, 1]);
    assert_eq!(plan.executed, vec![true, true, false]);
    assert!(plan.inputs[2].is_some());
}

#[test]
fn a_consumer_waits_for_its_second_producer() {
    let graph = Graph {
        nodes: vec![node("a", true, &[]), node("b", true, &[]), node("c", true, &[])],
        edges: vec![edge("c", "x", "a", "out"), edge("c", "y", "b", "out")],
    };
    let plan = plan_execution(&graph, false).unwrap();
    assert_eq!(plan.order, vec![0, 1, 2]);
    assert_eq!(source_of(&plan, 2, "x"), "0.out");
    assert_eq!(source_of(&plan, 2, "y"), "1.out");
}

#[test]
fn an_edge_wins_over_the_nodes_own_value() {
    let graph = Graph {
        nodes: vec![node("a", true, &[]), node("b", true, &["x", "z"])],
        edges: vec![edge("b", "x", "a", "out")],
    };
    let plan = plan_execution(&graph, false).unwrap();
    assert_eq!(source_of(&plan, 1, "x"), "0.out");
    assert_eq!(source_of(&plan, 1, "z"), "literal 1");
}

#[test]
fn a_cycle_behind_a_root_is_reported() {
    let graph = Graph {
        nodes: vec![node("r", true, &[]), node("a", true, &[]), node("b", true, &[])],
        edges: vec![
            edge("a", "x", "r", "out"),
            edge("a", "y", "b", "out"),
            edge("b", "x", "a", "out"),
        ],
    };
    assert_eq!(plan_execution(&graph, false).err(), Some(GraphError::GraphCycle));
}

#[test]
fn an_edge_to_a_missing_node_is_reported() {
    let graph = Graph {
        nodes: vec![node("a", true, &[]), node("b", true, &[])],
        edges: vec![edge("b", "x", "a", "out"), edge("b", "y", "ghost", "out")],
    };
    assert_eq!(plan_execution(&graph, false).err(), Some(GraphError::UnknownNode));
}

#[test]
fn an_empty_graph_has_an_empty_plan() {
    let plan = plan_execution(&Graph { nodes: vec![], edges: vec![] }, false).unwrap();
    assert!(plan.order.is_empty());
    assert!(plan.inputs.is_empty());
}
