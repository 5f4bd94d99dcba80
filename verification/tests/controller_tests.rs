use clippy_native::controller::pointer_action;
use clippy_native::{AnimError, App, ClaudeCodeState, Edge, EdgeCondition, EdgeVideos, Pack, PointerAction, PressKind, StartError};

fn encoded() -> Vec<u8> {
    let mut enc = webp_animation::Encoder::new((1, 1)).unwrap();
    enc.add_frame(&[10, 20, 30, 255], 0).unwrap();
    enc.finalize(100).unwrap().to_vec()
}

fn edge(id: &str, source: &str, target: &str, is_loop: bool, conditions: Vec<EdgeCondition>) -> Edge {
    Edge {
        id: id.to_string(),
        source: source.to_string(),
        target: target.to_string(),
        is_loop,
        videos: EdgeVideos { webp: Some(format!("/packs/p/{id}.webp")) },
        duration_ms: 1000,
        conditions,
    }
}

fn working_cond() -> EdgeCondition {
    EdgeCondition { op: "==".to_string(), input: "claudeCode::isWorking".to_string(), value: Some(true) }
}

fn pack() -> Pack {
    Pack {
        initial_node: "idle".to_string(),
        edges: vec![
            edge("idle-loop", "idle", "idle", true, vec![]),
            edge("start-work", "idle", "busy", false, vec![working_cond()]),
            edge("busy-loop", "busy", "busy", true, vec![]),
            edge("stop-work", "busy", "idle", false, vec![EdgeCondition {
                op: "==".to_string(),
                input: "claudeCode::isWorking".to_string(),
                value: Some(false),
            }]),
        ],
    }
}

fn working() -> ClaudeCodeState {
    ClaudeCodeState { is_working: true, is_alert: false, is_idle: false, is_compacting: false }
}

#[test]
fn start_needs_initial_loop() {
    let mut p = pack();
    p.initial_node = "nowhere".to_string();
    assert_eq!(App::new(p, &encoded()).err(), Some(StartError::NoInitialLoopEdge));
}

#[test]
fn start_needs_webp() {
    let mut p = pack();
    p.edges[0].videos.webp = None;
    assert_eq!(App::new(p, &encoded()).err(), Some(StartError::NoWebpPath));
}

#[test]
fn start_needs_loadable_animation() {
    assert_eq!(App::new(pack(), &[]).err(), Some(StartError::Anim(AnimError::Decode)));
}

#[test]
fn starts_idle_on_initial_loop() {
    let app = App::new(pack(), &encoded()).unwrap();
    assert_eq!(app.playing_edge().id, "idle-loop");
    assert_eq!(app.current_node_id(), "idle");
    assert_eq!(app.cc_state(), ClaudeCodeState::idle());
    assert_eq!(app.anim().frames.len(), 1);
}

#[test]
fn loop_stays_while_nothing_fires() {
    let mut app = App::new(pack(), &encoded()).unwrap();
    assert_eq!(app.advance_at(5000), None);
    assert_eq!(app.current_node_id(), "idle");
}

#[test]
fn full_cycle_through_transition() {
    let bytes = encoded();
    let mut app = App::new(pack(), &bytes).unwrap();
    app.set_cc_state(working());
    // A firing transition out of the loop's node is requested at once.
    assert_eq!(app.advance_at(0), Some(1));
    assert_eq!(app.current_node_id(), "idle");
    app.switch_to(1, &bytes).unwrap();
    assert_eq!(app.playing_edge().id, "start-work");
    // The transition is not interrupted before its duration plus grace.
    assert_eq!(app.advance_at(1149), None);
    assert_eq!(app.current_node_id(), "idle");
    // Then the mascot hops to the target node and plays its loop.
    assert_eq!(app.advance_at(1150), Some(2));
    assert_eq!(app.current_node_id(), "busy");
    app.switch_to(2, &bytes).unwrap();
    assert_eq!(app.playing_edge().id, "busy-loop");
    assert_eq!(app.advance_at(0), None);
    // Work stops: the transition back fires.
    app.set_cc_state(ClaudeCodeState::idle());
    assert_eq!(app.advance_at(0), Some(3));
}

#[test]
fn finished_transition_chains_into_next() {
    let bytes = encoded();
    let mut p = pack();
    p.edges.push(edge("busy-to-idle-direct", "busy", "idle", false, vec![]));
    let mut app = App::new(p, &bytes).unwrap();
    app.set_cc_state(working());
    assert_eq!(app.advance_at(0), Some(1));
    app.switch_to(1, &bytes).unwrap();
    // On arrival at "busy", the unconditional transition fires before the loop.
    assert_eq!(app.advance_at(2000), Some(4));
    assert_eq!(app.current_node_id(), "busy");
}

#[test]
fn failed_switch_keeps_playing_edge() {
    let bytes = encoded();
    let mut app = App::new(pack(), &bytes).unwrap();
    assert_eq!(app.switch_to(2, &[]), Err(AnimError::Decode));
    assert_eq!(app.playing_edge().id, "idle-loop");
}

#[test]
fn playing_edge_is_not_requested_again() {
    let bytes = encoded();
    let mut p = pack();
    // A transition edge sharing the id of the playing loop.
    p.edges.push(edge("idle-loop", "idle", "idle", false, vec![]));
    let mut app = App::new(p, &bytes).unwrap();
    assert_eq!(app.advance_at(0), None);
}

#[test]
fn pointer_actions() {
    assert_eq!(pointer_action(PressKind::Double, 1), PointerAction::LaunchTerminal);
    assert_eq!(pointer_action(PressKind::Single, 1), PointerAction::BeginDrag);
    assert_eq!(pointer_action(PressKind::Single, 3), PointerAction::ShowMenu);
    assert_eq!(pointer_action(PressKind::Double, 3), PointerAction::Nothing);
    assert_eq!(pointer_action(PressKind::Single, 2), PointerAction::Nothing);
    assert_eq!(pointer_action(PressKind::Other, 1), PointerAction::Nothing);
}

#[test]
fn switching_to_playing_edge_changes_nothing() {
    let bytes = encoded();
    let mut app = App::new(pack(), &bytes).unwrap();
    // The playing edge is not reloaded: even bytes that do not decode are fine.
    assert_eq!(app.switch_to(0, &[]), Ok(()));
    assert_eq!(app.playing_edge().id, "idle-loop");
    assert_eq!(app.anim().frames.len(), 1);
}
