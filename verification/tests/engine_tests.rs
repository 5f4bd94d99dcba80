use clippy_native::engine::{loop_index, pick_transition_index};
use clippy_native::{eval_conditions, initial_edge, loop_for, pick_transition};
use clippy_native::{ClaudeCodeState, Edge, EdgeCondition, EdgeVideos, Pack};

fn cond(op: &str, input: &str, value: Option<bool>) -> EdgeCondition {
    EdgeCondition { op: op.to_string(), input: input.to_string(), value }
}

fn edge(id: &str, source: &str, target: &str, is_loop: bool, conditions: Vec<EdgeCondition>) -> Edge {
    Edge {
        id: id.to_string(),
        source: source.to_string(),
        target: target.to_string(),
        is_loop,
        videos: EdgeVideos { webp: Some(format!("/packs/p/{id}.webp")) },
        duration_ms: 1000,
        conditions,
    }
}

fn working() -> ClaudeCodeState {
    ClaudeCodeState { is_working: true, is_alert: false, is_idle: false, is_compacting: false }
}

#[test]
fn empty_conditions_match() {
    assert!(eval_conditions(&[], &ClaudeCodeState::idle()));
}

#[test]
fn equality_conditions() {
    let s = working();
    assert!(eval_conditions(&[cond("==", "claudeCode::isWorking", Some(true))], &s));
    assert!(!eval_conditions(&[cond("==", "claudeCode::isWorking", Some(false))], &s));
    assert!(eval_conditions(&[cond("!=", "claudeCode::isIdle", Some(true))], &s));
    assert!(!eval_conditions(&[cond("!=", "claudeCode::isWorking", Some(true))], &s));
}

#[test]
fn unknown_operator_never_holds() {
    assert!(!eval_conditions(&[cond(">", "claudeCode::isWorking", Some(true))], &working()));
}

#[test]
fn non_boolean_value_never_holds() {
    assert!(!eval_conditions(&[cond("==", "claudeCode::isWorking", None)], &working()));
}

#[test]
fn unknown_input_never_holds() {
    assert!(!eval_conditions(&[cond("!=", "claudeCode::isSleeping", Some(true))], &working()));
}

#[test]
fn all_conditions_must_hold() {
    let c = vec![cond("==", "claudeCode::isWorking", Some(true)), cond("==", "claudeCode::isAlert", Some(true))];
    assert!(!eval_conditions(&c, &working()));
}

fn sample_pack() -> Pack {
    Pack {
        initial_node: "idle".to_string(),
        edges: vec![
            edge("idle-loop", "idle", "idle", true, vec![]),
            edge("idle-to-any", "idle", "busy", false, vec![]),
            edge("idle-to-work", "idle", "busy", false, vec![cond("==", "claudeCode::isWorking", Some(true))]),
            edge(
                "idle-to-work-2",
                "idle",
                "busy",
                false,
                vec![cond("==", "claudeCode::isWorking", Some(true)), cond("!=", "claudeCode::isAlert", Some(true))],
            ),
            edge(
                "idle-to-work-3",
                "idle",
                "busy",
                false,
                vec![cond("==", "claudeCode::isWorking", Some(true)), cond("==", "claudeCode::isIdle", Some(false))],
            ),
            edge("busy-loop", "busy", "busy", true, vec![]),
            edge("busy-loop-2", "busy", "busy", true, vec![]),
        ],
    }
}

#[test]
fn most_specific_transition_wins() {
    let pack = sample_pack();
    let e = pick_transition(&pack, "idle", &working()).unwrap();
    assert_eq!(e.id, "idle-to-work-2");
    assert_eq!(pick_transition_index(&pack, "idle", &working()), Some(3));
}

#[test]
fn fallback_transition_without_conditions() {
    let pack = sample_pack();
    let e = pick_transition(&pack, "idle", &ClaudeCodeState::idle()).unwrap();
    assert_eq!(e.id, "idle-to-any");
}

#[test]
fn loops_are_never_picked_as_transitions() {
    let pack = sample_pack();
    assert!(pick_transition(&pack, "busy", &working()).is_none());
    assert!(pick_transition(&pack, "nowhere", &working()).is_none());
}

#[test]
fn loop_for_finds_first_loop() {
    let pack = sample_pack();
    assert_eq!(loop_for(&pack, "busy").unwrap().id, "busy-loop");
    assert_eq!(loop_index(&pack, "busy"), Some(5));
    assert!(loop_for(&pack, "nowhere").is_none());
}

#[test]
fn initial_edge_is_loop_of_initial_node() {
    let pack = sample_pack();
    assert_eq!(initial_edge(&pack).unwrap().id, "idle-loop");
    let mut p2 = sample_pack();
    p2.initial_node = "elsewhere".to_string();
    assert!(initial_edge(&p2).is_none());
}
