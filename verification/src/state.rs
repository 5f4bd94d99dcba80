use vstd::prelude::*;

use crate::text::same_text;

verus! {

/// A session older than this (in seconds) is ignored altogether.
pub const STALE_SECS: i64 = 120;

/// An alert is only honoured while its session file is at most this old (in seconds).
pub const ALERT_FRESH_SECS: i64 = 60;

/// The aggregated assistant state that drives the mascot's state engine.
#[derive(Debug, Clone, Copy, PartialEq, Eq, Structural)]
pub struct ClaudeCodeState {
    pub is_working: bool,
    pub is_alert: bool,
    pub is_idle: bool,
    pub is_compacting: bool,
}

impl Default for ClaudeCodeState {
    fn default() -> (s: Self)
        ensures
            !s.is_working && !s.is_alert && !s.is_idle && !s.is_compacting,
    {
        ClaudeCodeState { is_working: false, is_alert: false, is_idle: false, is_compacting: false }
    }
}

impl ClaudeCodeState {
    /// The state with only `is_idle` set.
    pub open spec fn idle_state() -> ClaudeCodeState {
        ClaudeCodeState { is_working: false, is_alert: false, is_idle: true, is_compacting: false }
    }

    /// The flag that a condition input key names, `None` for an unknown key.
    pub open spec fn flag_named(self, key: Seq<char>) -> Option<bool> {
        if key == "claudeCode::isWorking"@ {
            Some(self.is_working)
        } else if key == "claudeCode::isAlert"@ {
            Some(self.is_alert)
        } else if key == "claudeCode::isIdle"@ {
            Some(self.is_idle)
        } else if key == "claudeCode::isCompacting"@ {
            Some(self.is_compacting)
        } else {
            None
        }
    }

    /// The state with only `is_idle` set.
    pub fn idle() -> (s: Self)
        ensures
            s == Self::idle_state(),
    {
        ClaudeCodeState { is_idle: true, ..Self::default() }
    }

    /// Looks up a flag by the input key used in the pack's edge conditions.
    pub fn get(&self, key: &str) -> (res: Option<bool>)
        ensures
            res == self.flag_named(key@),
    {
        if same_text(key, "claudeCode::isWorking") {
            Some(self.is_working)
        } else if same_text(key, "claudeCode::isAlert") {
            Some(self.is_alert)
        } else if same_text(key, "claudeCode::isIdle") {
            Some(self.is_idle)
        } else if same_text(key, "claudeCode::isCompacting") {
            Some(self.is_compacting)
        } else {
            None
        }
    }
}

/// What one session file reported, with its age in seconds where it is known.
#[derive(Debug, Clone, Copy, PartialEq, Eq, Structural)]
pub struct SessionReport {
    pub age_secs: Option<i64>,
    pub is_working: bool,
    pub is_alert: bool,
    pub is_compacting: bool,
}

/// A session counts unless it is known to be older than `STALE_SECS`.
pub open spec fn is_live(s: SessionReport) -> bool {
    !(s.age_secs matches Some(a) && a > STALE_SECS)
}

/// A live session's alert counts while it is fresh (or of unknown age).
pub open spec fn raises_alert(s: SessionReport) -> bool {
    is_live(s) && s.is_alert && (s.age_secs matches Some(a) ==> a <= ALERT_FRESH_SECS)
}

pub open spec fn any_live(sessions: Seq<SessionReport>) -> bool {
    exists|i: int| 0 <= i < sessions.len() && is_live(#[trigger] sessions[i])
}

pub open spec fn any_alert(sessions: Seq<SessionReport>) -> bool {
    exists|i: int| 0 <= i < sessions.len() && raises_alert(#[trigger] sessions[i])
}

pub open spec fn any_working(sessions: Seq<SessionReport>) -> bool {
    exists|i: int| 0 <= i < sessions.len() && is_live(#[trigger] sessions[i]) && sessions[i].is_working
}

pub open spec fn any_compacting(sessions: Seq<SessionReport>) -> bool {
    exists|i: int|
        0 <= i < sessions.len() && is_live(#[trigger] sessions[i]) && sessions[i].is_compacting
}

/// The aggregate of all sessions, by the priority alert > working > compacting > idle.
pub open spec fn aggregate_spec(sessions: Seq<SessionReport>) -> ClaudeCodeState {
    if any_alert(sessions) {
        ClaudeCodeState { is_working: false, is_alert: true, is_idle: false, is_compacting: false }
    } else if any_working(sessions) {
        ClaudeCodeState { is_working: true, is_alert: false, is_idle: false, is_compacting: false }
    } else if any_compacting(sessions) {
        ClaudeCodeState { is_working: false, is_alert: false, is_idle: false, is_compacting: true }
    } else {
        ClaudeCodeState::idle_state()
    }
}

/// Aggregates the reports of all session files that could be read and parsed:
/// stale sessions are dropped, and the flags are merged with the priority
/// alert > working > compacting > idle.
pub fn aggregate_sessions(sessions: &Vec<SessionReport>) -> (res: ClaudeCodeState)
    ensures
        res == aggregate_spec(sessions@),
{
    let mut any_active = false;
    let mut alert = false;
    let mut working = false;
    let mut compacting = false;
    let n = sessions.len();
    let mut i: usize = 0;
    while i < n
        invariant
            n == sessions@.len(),
            i <= n,
            any_active == any_live(sessions@.take(i as int)),
            alert == any_alert(sessions@.take(i as int)),
            working == any_working(sessions@.take(i as int)),
            compacting == any_compacting(sessions@.take(i as int)),
        decreases n - i,
    {
        let s = sessions[i];
        let ghost prev = sessions@.take(i as int);
        let ghost next = sessions@.take(i + 1);
        assert(next == prev.push(s));
        let stale = match s.age_secs {
            Some(a) => a > STALE_SECS,
            None => false,
        };
        if !stale {
            any_active = true;
            let alert_fresh = match s.age_secs {
                Some(a) => a <= ALERT_FRESH_SECS,
                None => true,
            };
            if s.is_alert && alert_fresh {
                alert = true;
            }
            if s.is_working {
                working = true;
            }
            if s.is_compacting {
                compacting = true;
            }
        }
        proof {
            lemma_flags_push(prev, s);
        }
        i = i + 1;
    }
    assert(sessions@.take(n as int) == sessions@);
    let (is_alert, is_working, is_compacting, is_idle) = if alert {
        (true, false, false, false)
    } else if working {
        (false, true, false, false)
    } else if compacting {
        (false, false, true, false)
    } else {
        (false, false, false, true)
    };
    ClaudeCodeState { is_working, is_alert, is_idle: is_idle || !any_active, is_compacting }
}

proof fn lemma_flags_push(prev: Seq<SessionReport>, s: SessionReport)
    ensures
        any_live(prev.push(s)) == (any_live(prev) || is_live(s)),
        any_alert(prev.push(s)) == (any_alert(prev) || raises_alert(s)),
        any_working(prev.push(s)) == (any_working(prev) || (is_live(s) && s.is_working)),
        any_compacting(prev.push(s)) == (any_compacting(prev) || (is_live(s) && s.is_compacting)),
{
    let next = prev.push(s);
    let n = prev.len() as int;
    assert(next[n] == s);
    assert forall|i: int| 0 <= i < n implies next[i] == prev[i] by {}
    if any_live(prev) {
        let i = choose|i: int| 0 <= i < prev.len() && is_live(#[trigger] prev[i]);
        assert(next[i] == prev[i]);
    }
    if any_live(next) && !is_live(s) {
        let i = choose|i: int| 0 <= i < next.len() && is_live(#[trigger] next[i]);
        assert(prev[i] == next[i]);
    }
    if any_alert(prev) {
        let i = choose|i: int| 0 <= i < prev.len() && raises_alert(#[trigger] prev[i]);
        assert(next[i] == prev[i]);
    }
    if any_alert(next) && !raises_alert(s) {
        let i = choose|i: int| 0 <= i < next.len() && raises_alert(#[trigger] next[i]);
        assert(prev[i] == next[i]);
    }
    if any_working(prev) {
        let i = choose|i: int| 0 <= i < prev.len() && is_live(#[trigger] prev[i]) && prev[i].is_working;
        assert(next[i] == prev[i]);
    }
    if any_working(next) && !(is_live(s) && s.is_working) {
        let i = choose|i: int| 0 <= i < next.len() && is_live(#[trigger] next[i]) && next[i].is_working;
        assert(prev[i] == next[i]);
    }
    if any_compacting(prev) {
        let i = choose|i: int|
            0 <= i < prev.len() && is_live(#[trigger] prev[i]) && prev[i].is_compacting;
        assert(next[i] == prev[i]);
    }
    if any_compacting(next) && !(is_live(s) && s.is_compacting) {
        let i = choose|i: int|
            0 <= i < next.len() && is_live(#[trigger] next[i]) && next[i].is_compacting;
        assert(prev[i] == next[i]);
    }
}

/// The aggregate always holds exactly one of the four flags.
pub proof fn aggregate_sets_exactly_one_flag(sessions: Seq<SessionReport>)
    ensures
        ({
            let s = aggregate_spec(sessions);
            (s.is_alert as int) + (s.is_working as int) + (s.is_idle as int) + (s.is_compacting as int)
                == 1
        }),
{
}

/// With no session at all, the aggregate is the idle state.
pub proof fn aggregate_of_no_sessions_is_idle()
    ensures
        aggregate_spec(Seq::<SessionReport>::empty()) == ClaudeCodeState::idle_state(),
{
}

/// A stale session changes nothing in the aggregate, wherever it stands.
pub proof fn stale_session_is_ignored(sessions: Seq<SessionReport>, i: int, stale: SessionReport)
    requires
        0 <= i <= sessions.len(),
        !is_live(stale),
    ensures
        aggregate_spec(sessions.insert(i, stale)) == aggregate_spec(sessions),
{
    let t = sessions.insert(i, stale);
    assert forall|k: int| 0 <= k < sessions.len() implies #[trigger] sessions[k] == t[if k < i {
        k
    } else {
        k + 1
    }] by {}
    assert forall|k: int| 0 <= k < t.len() && k != i implies #[trigger] t[k] == sessions[if k < i {
        k
    } else {
        k - 1
    }] by {}
    if any_live(sessions) {
        let k = choose|k: int| 0 <= k < sessions.len() && is_live(#[trigger] sessions[k]);
        assert(sessions[k] == t[if k < i { k } else { k + 1 }]);
    }
    if any_live(t) {
        let k = choose|k: int| 0 <= k < t.len() && is_live(#[trigger] t[k]);
        assert(t[k] == sessions[if k < i { k } else { k - 1 }]);
    }
    if any_alert(sessions) {
        let k = choose|k: int| 0 <= k < sessions.len() && raises_alert(#[trigger] sessions[k]);
        assert(sessions[k] == t[if k < i { k } else { k + 1 }]);
    }
    if any_alert(t) {
        let k = choose|k: int| 0 <= k < t.len() && raises_alert(#[trigger] t[k]);
        assert(t[k] == sessions[if k < i { k } else { k - 1 }]);
    }
    if any_working(sessions) {
        let k = choose|k: int| 0 <= k < sessions.len() && is_live(#[trigger] sessions[k]) && sessions[k].is_working;
        assert(sessions[k] == t[if k < i { k } else { k + 1 }]);
    }
    if any_working(t) {
        let k = choose|k: int| 0 <= k < t.len() && is_live(#[trigger] t[k]) && t[k].is_working;
        assert(t[k] == sessions[if k < i { k } else { k - 1 }]);
    }
    if any_compacting(sessions) {
        let k = choose|k: int|
            0 <= k < sessions.len() && is_live(#[trigger] sessions[k]) && sessions[k].is_compacting;
        assert(sessions[k] == t[if k < i { k } else { k + 1 }]);
    }
    if any_compacting(t) {
        let k = choose|k: int| 0 <= k < t.len() && is_live(#[trigger] t[k]) && t[k].is_compacting;
        assert(t[k] == sessions[if k < i { k } else { k - 1 }]);
    }
}

/// A session with its alert set that is at most `ALERT_FRESH_SECS` old (or of
/// unknown age) makes the aggregate the alert state, whatever its other flags.
pub proof fn fresh_alert_wins(sessions: Seq<SessionReport>, i: int)
    requires
        0 <= i < sessions.len(),
        sessions[i].is_alert,
        sessions[i].age_secs matches Some(a) ==> a <= ALERT_FRESH_SECS,
    ensures
        aggregate_spec(sessions).is_alert,
        !aggregate_spec(sessions).is_working,
        !aggregate_spec(sessions).is_compacting,
        !aggregate_spec(sessions).is_idle,
{
    assert(raises_alert(sessions[i]));
}

/// Each flag of the aggregate, read off the reports: alert when some report
/// has its alert set and is at most `ALERT_FRESH_SECS` old (or of unknown age);
/// otherwise working when some report not older than `STALE_SECS` is working;
/// otherwise compacting likewise; otherwise idle.
pub proof fn aggregate_flags_from_reports(s: Seq<SessionReport>)
    ensures
        ({
            let fresh_alert = exists|i: int|
                0 <= i < s.len() && #[trigger] s[i].is_alert && (s[i].age_secs matches Some(a) ==> a
                    <= ALERT_FRESH_SECS);
            let live_working = exists|i: int|
                0 <= i < s.len() && #[trigger] s[i].is_working && !(s[i].age_secs matches Some(a) && a
                    > STALE_SECS);
            let live_compacting = exists|i: int|
                0 <= i < s.len() && #[trigger] s[i].is_compacting && !(s[i].age_secs matches Some(a) && a
                    > STALE_SECS);
            let r = aggregate_spec(s);
            &&& r.is_alert == fresh_alert
            &&& r.is_working == (!fresh_alert && live_working)
            &&& r.is_compacting == (!fresh_alert && !live_working && live_compacting)
            &&& r.is_idle == (!fresh_alert && !live_working && !live_compacting)
        }),
{
    if any_alert(s) {
        let i = choose|i: int| 0 <= i < s.len() && raises_alert(#[trigger] s[i]);
        assert(s[i].is_alert);
    }
    if exists|i: int|
        0 <= i < s.len() && #[trigger] s[i].is_alert && (s[i].age_secs matches Some(a) ==> a <= ALERT_FRESH_SECS) {
        let i = choose|i: int|
            0 <= i < s.len() && #[trigger] s[i].is_alert && (s[i].age_secs matches Some(a) ==> a
                <= ALERT_FRESH_SECS);
        assert(raises_alert(s[i]));
    }
    if any_working(s) {
        let i = choose|i: int| 0 <= i < s.len() && is_live(#[trigger] s[i]) && s[i].is_working;
        assert(s[i].is_working);
    }
    if exists|i: int|
        0 <= i < s.len() && #[trigger] s[i].is_working && !(s[i].age_secs matches Some(a) && a > STALE_SECS) {
        let i = choose|i: int|
            0 <= i < s.len() && #[trigger] s[i].is_working && !(s[i].age_secs matches Some(a) && a
                > STALE_SECS);
        assert(is_live(s[i]));
    }
    if any_compacting(s) {
        let i = choose|i: int| 0 <= i < s.len() && is_live(#[trigger] s[i]) && s[i].is_compacting;
        assert(s[i].is_compacting);
    }
    if exists|i: int|
        0 <= i < s.len() && #[trigger] s[i].is_compacting && !(s[i].age_secs matches Some(a) && a > STALE_SECS) {
        let i = choose|i: int|
            0 <= i < s.len() && #[trigger] s[i].is_compacting && !(s[i].age_secs matches Some(a) && a
                > STALE_SECS);
        assert(is_live(s[i]));
    }
}

/// Whether a refreshed state should ring the notification sound: an alert
/// that was just raised, or work that just finished.
pub open spec fn sound_due_spec(was_alert: bool, was_working: bool, now: ClaudeCodeState) -> bool {
    (now.is_alert && !was_alert) || (was_working && !now.is_working)
}

/// Decides whether a refresh rings the notification sound, given the alert and
/// working flags seen at the previous refresh.
pub fn notify_sound_due(was_alert: bool, was_working: bool, now: &ClaudeCodeState) -> (res: bool)
    ensures
        res == sound_due_spec(was_alert, was_working, *now),
        res == ((now.is_alert && !was_alert) || (was_working && !now.is_working)),
{
    let alert_rose = now.is_alert && !was_alert;
    let working_fell = was_working && !now.is_working;
    alert_rose || working_fell
}

} // verus!

verus! {

/// The sound rings exactly on a raised alert or on finished work: a refresh
/// that repeats the previous flags never rings, and an alert that clears
/// while work goes on (or never ran) rings nothing.
pub proof fn sound_rings_on_rise_or_finish(was_alert: bool, was_working: bool, now: ClaudeCodeState)
    ensures
        now.is_alert && !was_alert ==> sound_due_spec(was_alert, was_working, now),
        was_working && !now.is_working ==> sound_due_spec(was_alert, was_working, now),
        sound_due_spec(was_alert, was_working, now) ==> (now.is_alert && !was_alert) || (was_working
            && !now.is_working),
        !sound_due_spec(now.is_alert, now.is_working, now),
        (was_alert && !now.is_alert && (now.is_working || !was_working)) ==> !sound_due_spec(
            was_alert,
            was_working,
            now,
        ),
{
}

} // verus!
