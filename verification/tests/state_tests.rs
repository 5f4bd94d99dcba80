use clippy_native::state::{aggregate_sessions, notify_sound_due};
use clippy_native::{ClaudeCodeState, SessionReport};

fn report(age: Option<i64>, working: bool, alert: bool, compacting: bool) -> SessionReport {
    SessionReport { age_secs: age, is_working: working, is_alert: alert, is_compacting: compacting }
}

fn only(working: bool, alert: bool, idle: bool, compacting: bool) -> ClaudeCodeState {
    ClaudeCodeState { is_working: working, is_alert: alert, is_idle: idle, is_compacting: compacting }
}

#[test]
fn idle_sets_only_idle() {
    assert_eq!(ClaudeCodeState::idle(), only(false, false, true, false));
}

#[test]
fn default_sets_nothing() {
    assert_eq!(ClaudeCodeState::default(), only(false, false, false, false));
}

#[test]
fn get_reads_each_known_key() {
    let s = only(true, false, true, false);
    assert_eq!(s.get("claudeCode::isWorking"), Some(true));
    assert_eq!(s.get("claudeCode::isAlert"), Some(false));
    assert_eq!(s.get("claudeCode::isIdle"), Some(true));
    assert_eq!(s.get("claudeCode::isCompacting"), Some(false));
}

#[test]
fn get_unknown_key_is_none() {
    let s = only(true, true, true, true);
    assert_eq!(s.get("claudeCode::isBusy"), None);
    assert_eq!(s.get(""), None);
    assert_eq!(s.get("claudeCode::isWorking "), None);
    assert_eq!(s.get("isWorking"), None);
}

#[test]
fn no_sessions_aggregate_to_idle() {
    assert_eq!(aggregate_sessions(&vec![]), ClaudeCodeState::idle());
}

#[test]
fn alert_wins_over_working_and_compacting() {
    let v = vec![report(Some(5), true, false, true), report(Some(10), false, true, false)];
    assert_eq!(aggregate_sessions(&v), only(false, true, false, false));
}

#[test]
fn working_wins_over_compacting() {
    let v = vec![report(Some(5), false, false, true), report(None, true, false, false)];
    assert_eq!(aggregate_sessions(&v), only(true, false, false, false));
}

#[test]
fn compacting_alone() {
    let v = vec![report(Some(0), false, false, true)];
    assert_eq!(aggregate_sessions(&v), only(false, false, false, true));
}

#[test]
fn stale_sessions_are_dropped() {
    let v = vec![report(Some(121), true, true, true)];
    assert_eq!(aggregate_sessions(&v), ClaudeCodeState::idle());
    let v = vec![report(Some(120), true, false, false)];
    assert_eq!(aggregate_sessions(&v), only(true, false, false, false));
}

#[test]
fn old_alert_is_not_honoured() {
    let v = vec![report(Some(61), false, true, false)];
    assert_eq!(aggregate_sessions(&v), ClaudeCodeState::idle());
    let v = vec![report(Some(60), false, true, false)];
    assert_eq!(aggregate_sessions(&v), only(false, true, false, false));
    let v = vec![report(None, false, true, false)];
    assert_eq!(aggregate_sessions(&v), only(false, true, false, false));
}

#[test]
fn old_alert_still_counts_as_working() {
    let v = vec![report(Some(90), true, true, false)];
    assert_eq!(aggregate_sessions(&v), only(true, false, false, false));
}

#[test]
fn active_session_without_flags_is_idle() {
    let v = vec![report(Some(3), false, false, false)];
    assert_eq!(aggregate_sessions(&v), ClaudeCodeState::idle());
}

#[test]
fn sound_rings_when_alert_rises() {
    assert!(notify_sound_due(false, false, &only(false, true, false, false)));
    assert!(!notify_sound_due(true, false, &only(false, true, false, false)));
}

#[test]
fn sound_rings_when_work_finishes() {
    assert!(notify_sound_due(false, true, &ClaudeCodeState::idle()));
    assert!(!notify_sound_due(false, true, &only(true, false, false, false)));
    assert!(!notify_sound_due(false, false, &ClaudeCodeState::idle()));
}

#[test]
fn stale_session_in_the_middle_is_ignored() {
    let v = vec![report(Some(5), false, false, true), report(Some(500), true, true, false), report(Some(1), false, false, false)];
    assert_eq!(aggregate_sessions(&v), only(false, false, false, true));
}
