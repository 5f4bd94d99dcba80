use vstd::prelude::*;

use std::time::Duration;

use crate::anim::{duration_millis, frames_supported, webp_frames, Anim, AnimError};
use crate::engine::{has_candidate, has_loop, is_first_loop_of, is_pick, loop_index, pick_transition_index};
use crate::pack::{first_with_id, has_id, Edge, Pack};
use crate::state::ClaudeCodeState;

verus! {

/// Why the mascot could not start.
#[derive(Debug, Clone, Copy, PartialEq, Eq, Structural)]
pub enum StartError {
    /// The pack's initial node has no loop edge.
    NoInitialLoopEdge,
    /// The initial loop edge has no WebP animation.
    NoWebpPath,
    /// The initial animation could not be loaded.
    Anim(AnimError),
}

/// Extra time (in ms) a one-shot transition is given to finish before the
/// mascot moves on.
pub const TRANSITION_GRACE_MS: u32 = 150;

/// The mascot's state machine: the pack, the node it stands on, the edge whose
/// animation plays, that animation, and the latest assistant state.
pub struct App {
    pack: Pack,
    current_node_id: String,
    playing_edge_id: String,
    anim: Anim,
    cc_state: ClaudeCodeState,
}

/// The edge that a switch request asks for: none when it already plays.
pub open spec fn request(edges: Seq<Edge>, playing: Seq<char>, k: int) -> Option<int> {
    if edges[k].id@ == playing {
        None
    } else {
        Some(k)
    }
}

/// The decision of one advance step at `elapsed_ms` into the playing
/// animation, given the playing edge `cur`: the node stood on afterwards and
/// the edge to switch to, if any.
///
/// A one-shot transition is not interrupted before its duration plus the
/// grace period; once done, the mascot hops to its target. Then the most
/// specific firing transition out of the node is played; failing that, the
/// node's loop, unless it already plays.
pub open spec fn advance_decision(
    edges: Seq<Edge>,
    cur: Edge,
    playing: Seq<char>,
    node: Seq<char>,
    state: ClaudeCodeState,
    elapsed_ms: u32,
) -> (Seq<char>, Option<int>) {
    if !cur.is_loop && elapsed_ms < cur.duration_ms + TRANSITION_GRACE_MS {
        (node, None)
    } else {
        let node2 = if cur.is_loop {
            node
        } else {
            cur.target@
        };
        if has_candidate(edges, node2, state) {
            let k = choose|k: int| is_pick(edges, node2, state, k);
            (node2, request(edges, playing, k))
        } else if cur.is_loop && cur.source@ == node2 {
            (node2, None)
        } else if has_loop(edges, node2) {
            let k = choose|k: int| is_first_loop_of(edges, node2, k);
            (node2, request(edges, playing, k))
        } else {
            (node2, None)
        }
    }
}

/// The edge with this id that `Pack::edge` finds.
pub open spec fn edge_with_id(edges: Seq<Edge>, id: Seq<char>) -> Edge {
    edges[choose|i: int| first_with_id(edges, id, i)]
}

proof fn lemma_first_with_id_unique(edges: Seq<Edge>, id: Seq<char>, i: int, j: int)
    requires
        first_with_id(edges, id, i),
        first_with_id(edges, id, j),
    ensures
        i == j,
{
}

proof fn lemma_first_with_id_exists(edges: Seq<Edge>, id: Seq<char>)
    requires
        has_id(edges, id),
    ensures
        exists|i: int| first_with_id(edges, id, i),
{
    let k = choose|k: int| 0 <= k < edges.len() && edges[k].id@ == id;
    lemma_first_with_id_below(edges, id, k);
}

proof fn lemma_first_with_id_below(edges: Seq<Edge>, id: Seq<char>, k: int)
    requires
        0 <= k < edges.len(),
        edges[k].id@ == id,
    ensures
        exists|i: int| first_with_id(edges, id, i),
    decreases k,
{
    if forall|j: int| 0 <= j < k ==> edges[j].id@ != id {
        assert(first_with_id(edges, id, k));
    } else {
        let k2 = choose|j: int| 0 <= j < k && edges[j].id@ == id;
        lemma_first_with_id_below(edges, id, k2);
    }
}

impl App {
    #[verifier::type_invariant]
    spec fn inv(self) -> bool {
        &&& has_id(self.pack.edges@, self.playing_edge_id@)
        &&& self.anim.wf()
    }

    /// The pack the mascot plays.
    pub closed spec fn the_pack(self) -> Pack {
        self.pack
    }

    /// The node the mascot stands on.
    pub closed spec fn current_node(self) -> Seq<char> {
        self.current_node_id@
    }

    /// The id of the edge whose animation plays.
    pub closed spec fn playing_id(self) -> Seq<char> {
        self.playing_edge_id@
    }

    /// The playing animation.
    pub closed spec fn animation(self) -> Anim {
        self.anim
    }

    /// The latest assistant state.
    pub closed spec fn state(self) -> ClaudeCodeState {
        self.cc_state
    }

    /// The playing edge: the first edge of the pack with the playing id.
    pub closed spec fn playing(self) -> Edge {
        edge_with_id(self.pack.edges@, self.playing_edge_id@)
    }

    /// The decision that `advance_at(elapsed_ms)` takes.
    pub closed spec fn decision(self, elapsed_ms: u32) -> (Seq<char>, Option<int>) {
        advance_decision(
            self.pack.edges@,
            self.playing(),
            self.playing_edge_id@,
            self.current_node_id@,
            self.cc_state,
            elapsed_ms,
        )
    }

    /// Starts on the loop edge of the pack's initial node, with its animation
    /// loaded from `webp` (the bytes of that edge's WebP file), idle.
    pub fn new(pack: Pack, webp: &[u8]) -> (res: Result<App, StartError>)
        ensures
            !has_loop(pack.edges@, pack.initial_node@) <==> res == Err::<App, StartError>(StartError::NoInitialLoopEdge),
            res == Err::<App, StartError>(StartError::NoWebpPath) <==> exists|i: int|
                is_first_loop_of(pack.edges@, pack.initial_node@, i) && pack.edges@[i].videos.webp is None,
            res matches Err(StartError::Anim(e)) ==> match e {
                AnimError::Decode => webp_frames(webp@) is None,
                AnimError::Unsupported => webp_frames(webp@) matches Some(v) && !frames_supported(v),
            },
            res is Ok ==> (webp_frames(webp@) matches Some(v) && frames_supported(v)),
            res matches Ok(app) ==> {
                &&& app.the_pack() == pack
                &&& app.current_node() == pack.initial_node@
                &&& exists|i: int|
                    is_first_loop_of(pack.edges@, pack.initial_node@, i) && app.playing_id()
                        == pack.edges@[i].id@ && pack.edges@[i].videos.webp is Some
                &&& app.animation().made_of(webp_frames(webp@)->0)
                &&& app.state() == ClaudeCodeState::idle_state()
            },
            ({
                &&& has_loop(pack.edges@, pack.initial_node@)
                &&& !(exists|i: int|
                    is_first_loop_of(pack.edges@, pack.initial_node@, i) && pack.edges@[i].videos.webp is None)
                &&& webp_frames(webp@) matches Some(v) && frames_supported(v)
            }) ==> res is Ok,
    {
        let i = match loop_index(&pack, pack.initial_node.as_str()) {
            Some(i) => i,
            None => return Err(StartError::NoInitialLoopEdge),
        };
        proof {
            assert forall|j: int| is_first_loop_of(pack.edges@, pack.initial_node@, j) implies j == i by {
                if j < i {
                    assert(crate::engine::is_loop_of(pack.edges@, pack.initial_node@, j));
                } else if i < j {
                    assert(crate::engine::is_loop_of(pack.edges@, pack.initial_node@, i as int));
                }
            }
        }
        if pack.edges[i].videos.webp.is_none() {
            return Err(StartError::NoWebpPath);
        }
        let anim = match Anim::load(webp) {
            Ok(a) => a,
            Err(e) => return Err(StartError::Anim(e)),
        };
        let playing_edge_id = pack.edges[i].id.clone();
        let current_node_id = pack.initial_node.clone();
        proof {
            assert(pack.edges@[i as int].id@ == playing_edge_id@);
        }
        Ok(App { pack, current_node_id, playing_edge_id, anim, cc_state: ClaudeCodeState::idle() })
    }

    /// Index of the playing edge in the pack.
    fn playing_index(&self) -> (i: usize)
        ensures
            first_with_id(self.pack.edges@, self.playing_edge_id@, i as int),
            self.playing() == self.pack.edges@[i as int],
    {
        proof {
            use_type_invariant(self);
            lemma_first_with_id_exists(self.pack.edges@, self.playing_edge_id@);
        }
        match self.pack.edge_index(self.playing_edge_id.as_str()) {
            Some(i) => {
                proof {
                    let c = choose|c: int| first_with_id(self.pack.edges@, self.playing_edge_id@, c);
                    lemma_first_with_id_unique(self.pack.edges@, self.playing_edge_id@, i as int, c);
                }
                i
            },
            None => {
                proof {
                    assert(false);
                }
                0
            },
        }
    }

    /// The playing edge; it always exists in the pack.
    pub fn playing_edge(&self) -> (e: &Edge)
        ensures
            *e == self.playing(),
            exists|i: int| first_with_id(self.the_pack().edges@, self.playing_id(), i) && *e == self.the_pack().edges@[i],
    {
        let i = self.playing_index();
        proof {
            assert(first_with_id(self.the_pack().edges@, self.playing_id(), i as int));
        }
        &self.pack.edges[i]
    }

    /// The pack the mascot plays.
    pub fn pack(&self) -> (p: &Pack)
        ensures
            *p == self.the_pack(),
    {
        &self.pack
    }

    /// The playing animation.
    pub fn anim(&self) -> (a: &Anim)
        ensures
            *a == self.animation(),
            a.wf(),
    {
        proof {
            use_type_invariant(self);
        }
        &self.anim
    }

    /// The node the mascot stands on.
    pub fn current_node_id(&self) -> (n: &str)
        ensures
            n@ == self.current_node(),
    {
        self.current_node_id.as_str()
    }

    /// The latest assistant state.
    pub fn cc_state(&self) -> (s: ClaudeCodeState)
        ensures
            s == self.state(),
    {
        self.cc_state
    }

    /// Records the latest assistant state.
    pub fn set_cc_state(&mut self, s: ClaudeCodeState)
        ensures
            final(self).state() == s,
            final(self).the_pack() == old(self).the_pack(),
            final(self).current_node() == old(self).current_node(),
            final(self).playing_id() == old(self).playing_id(),
            final(self).animation() == old(self).animation(),
    {
        proof {
            use_type_invariant(&*self);
        }
        self.cc_state = s;
    }

    /// One step of the state engine, `elapsed_ms` into the playing animation:
    /// updates the node stood on and returns the index of the edge whose
    /// animation should play next, if it differs from the playing one (the
    /// caller loads it and hands it to `switch_to`).
    pub fn advance_at(&mut self, elapsed_ms: u32) -> (res: Option<usize>)
        requires
            !old(self).playing().is_loop ==> old(self).playing().duration_ms + TRANSITION_GRACE_MS <= u32::MAX,
        ensures
            final(self).current_node() == old(self).decision(elapsed_ms).0,
            match res {
                Some(k) => old(self).decision(elapsed_ms).1 == Some(k as int),
                None => old(self).decision(elapsed_ms).1 is None,
            },
            res matches Some(k) ==> k < final(self).the_pack().edges@.len(),
            final(self).the_pack() == old(self).the_pack(),
            final(self).playing_id() == old(self).playing_id(),
            final(self).animation() == old(self).animation(),
            final(self).state() == old(self).state(),
    {
        proof {
            use_type_invariant(&*self);
        }
        let ci = self.playing_index();
        let cur_is_loop = self.pack.edges[ci].is_loop;
        if !cur_is_loop {
            if elapsed_ms < self.pack.edges[ci].duration_ms + TRANSITION_GRACE_MS {
                return None;
            }
            // The transition has finished: hop to its target node.
            self.current_node_id = self.pack.edges[ci].target.clone();
        }
        let ghost node2 = self.current_node_id@;
        let ghost edges = self.pack.edges@;
        match pick_transition_index(&self.pack, self.current_node_id.as_str(), &self.cc_state) {
            Some(k) => {
                proof {
                    let c = choose|c: int| is_pick(edges, node2, self.cc_state, c);
                    crate::engine::pick_is_unique(edges, node2, self.cc_state, k as int, c);
                }
                return self.request_switch(k);
            },
            None => {},
        }
        if cur_is_loop && crate::text::same_text(self.pack.edges[ci].source.as_str(), self.current_node_id.as_str()) {
            return None;
        }
        match loop_index(&self.pack, self.current_node_id.as_str()) {
            Some(k) => {
                proof {
                    let c = choose|c: int| is_first_loop_of(edges, node2, c);
                    if c < k {
                        assert(crate::engine::is_loop_of(edges, node2, c));
                    } else if k < c {
                        assert(crate::engine::is_loop_of(edges, node2, k as int));
                    }
                }
                self.request_switch(k)
            },
            None => None,
        }
    }

    fn request_switch(&self, k: usize) -> (res: Option<usize>)
        requires
            k < self.pack.edges@.len(),
        ensures
            match res {
                Some(j) => request(self.pack.edges@, self.playing_edge_id@, k as int) == Some(j as int),
                None => request(self.pack.edges@, self.playing_edge_id@, k as int) is None,
            },
    {
        if self.pack.edges[k].id == self.playing_edge_id {
            None
        } else {
            Some(k)
        }
    }

    /// One step of the state engine at the playing animation's elapsed time
    /// (see `advance_at`).
    pub fn advance(&mut self) -> (res: Option<usize>)
        requires
            !old(self).playing().is_loop ==> old(self).playing().duration_ms + TRANSITION_GRACE_MS <= u32::MAX,
        ensures
            exists|e: u32|
                {
                    &&& final(self).current_node() == old(self).decision(e).0
                    &&& match res {
                        Some(k) => old(self).decision(e).1 == Some(k as int),
                        None => old(self).decision(e).1 is None,
                    }
                },
            exists|d: Duration|
                {
                    &&& final(self).current_node() == old(self).decision(duration_millis(d) as u32).0
                    &&& match res {
                        Some(k) => old(self).decision(duration_millis(d) as u32).1 == Some(k as int),
                        None => old(self).decision(duration_millis(d) as u32).1 is None,
                    }
                },
            res matches Some(k) ==> k < final(self).the_pack().edges@.len(),
            final(self).the_pack() == old(self).the_pack(),
            final(self).playing_id() == old(self).playing_id(),
            final(self).animation() == old(self).animation(),
            final(self).state() == old(self).state(),
    {
        let e = self.anim.elapsed_ms();
        self.advance_at(e)
    }

    /// Plays edge `edge_index` with the animation loaded from `webp`, the bytes
    /// of its WebP file. Where that edge already plays, or the animation cannot
    /// be loaded, nothing changes.
    pub fn switch_to(&mut self, edge_index: usize, webp: &[u8]) -> (res: Result<(), AnimError>)
        requires
            edge_index < old(self).the_pack().edges@.len(),
        ensures
            final(self).the_pack() == old(self).the_pack(),
            final(self).current_node() == old(self).current_node(),
            final(self).state() == old(self).state(),
            old(self).the_pack().edges@[edge_index as int].id@ == old(self).playing_id() ==> {
                &&& res is Ok
                &&& *final(self) == *old(self)
            },
            match res {
                Ok(()) => {
                    &&& final(self).playing_id() == old(self).the_pack().edges@[edge_index as int].id@
                    &&& old(self).the_pack().edges@[edge_index as int].id@ != old(self).playing_id() ==> (
                    webp_frames(webp@) matches Some(v) && frames_supported(v) && final(self).animation().made_of(v))
                },
                Err(e) => {
                    &&& final(self).playing_id() == old(self).playing_id()
                    &&& final(self).animation() == old(self).animation()
                    &&& match e {
                        AnimError::Decode => webp_frames(webp@) is None,
                        AnimError::Unsupported => webp_frames(webp@) matches Some(v) && !frames_supported(v),
                    }
                },
            },
    {
        proof {
            use_type_invariant(&*self);
        }
        // The edge already plays: nothing is reloaded or restarted.
        if self.pack.edges[edge_index].id == self.playing_edge_id {
            return Ok(());
        }
        let anim = match Anim::load(webp) {
            Ok(a) => a,
            Err(e) => return Err(e),
        };
        self.playing_edge_id = self.pack.edges[edge_index].id.clone();
        self.anim = anim;
        Ok(())
    }
}

/// What the closed views of an `App` stand for: the playing edge is the first
/// edge of the pack with the playing id, and an advance step decides by
/// `advance_decision` over the pack, the playing edge, the node and the state.
pub proof fn app_views_unfold(app: App, elapsed_ms: u32)
    ensures
        app.playing() == edge_with_id(app.the_pack().edges@, app.playing_id()),
        app.decision(elapsed_ms) == advance_decision(
            app.the_pack().edges@,
            app.playing(),
            app.playing_id(),
            app.current_node(),
            app.state(),
            elapsed_ms,
        ),
{
}

/// An advance step moves the mascot only to the target of the playing edge,
/// and only once that edge is a one-shot transition that has played through.
pub proof fn advance_moves_only_to_finished_target(app: App, elapsed_ms: u32)
    ensures
        app.decision(elapsed_ms).0 == app.current_node() || {
            &&& !app.playing().is_loop
            &&& elapsed_ms >= app.playing().duration_ms + TRANSITION_GRACE_MS
            &&& app.decision(elapsed_ms).0 == app.playing().target@
        },
{
}

/// A one-shot transition that is still running (before its duration plus the
/// grace period) is not interrupted: the node stays and no switch is asked for.
pub proof fn running_transition_is_not_interrupted(app: App, elapsed_ms: u32)
    requires
        !app.playing().is_loop,
        elapsed_ms < app.playing().duration_ms + TRANSITION_GRACE_MS,
    ensures
        app.decision(elapsed_ms) == (app.current_node(), None::<int>),
{
}

/// A switch is never asked for the edge that already plays.
pub proof fn never_requests_playing_edge(app: App, elapsed_ms: u32, k: int)
    requires
        app.decision(elapsed_ms).1 == Some(k),
    ensures
        0 <= k < app.the_pack().edges@.len(),
        app.the_pack().edges@[k].id@ != app.playing_id(),
{
    let edges = app.pack.edges@;
    let cur = app.playing();
    let node2 = if cur.is_loop { app.current_node_id@ } else { cur.target@ };
    if has_candidate(edges, node2, app.cc_state) {
        let k0 = choose|k0: int| crate::engine::is_candidate(edges, node2, app.cc_state, k0);
        crate::engine::candidate_implies_pick(edges, node2, app.cc_state, k0);
    } else if has_loop(edges, node2) {
        let k0 = choose|k0: int| crate::engine::is_loop_of(edges, node2, k0);
        crate::engine::first_loop_exists(edges, node2, k0);
    }
}

/// Once a transition has played through, the mascot stands on its target; when
/// a transition fires there, it chains into it directly (never into the
/// target's loop).
pub proof fn finished_transition_chains(app: App, elapsed_ms: u32)
    requires
        !app.playing().is_loop,
        elapsed_ms >= app.playing().duration_ms + TRANSITION_GRACE_MS,
        has_candidate(app.the_pack().edges@, app.playing().target@, app.state()),
    ensures
        app.decision(elapsed_ms).0 == app.playing().target@,
        app.decision(elapsed_ms).1 is None || exists|k: int|
            app.decision(elapsed_ms).1 == Some(k) && is_pick(app.the_pack().edges@, app.playing().target@, app.state(), k),
{
    let edges = app.pack.edges@;
    let node2 = app.playing().target@;
    let k0 = choose|k0: int| crate::engine::is_candidate(edges, node2, app.cc_state, k0);
    crate::engine::candidate_implies_pick(edges, node2, app.cc_state, k0);
}

/// How the pointer button was pressed on the mascot.
#[derive(Debug, Clone, Copy, PartialEq, Eq, Structural)]
pub enum PressKind {
    Single,
    Double,
    Other,
}

/// What a button press on the mascot does.
#[derive(Debug, Clone, Copy, PartialEq, Eq, Structural)]
pub enum PointerAction {
    /// Open a terminal running the assistant.
    LaunchTerminal,
    /// Start moving the window with the pointer.
    BeginDrag,
    /// Show the context menu.
    ShowMenu,
    Nothing,
}

/// A double click of the first button opens a terminal, a press of it drags
/// the window, a press of the third button opens the menu.
pub fn pointer_action(kind: PressKind, button: u32) -> (a: PointerAction)
    ensures
        a == (if kind == PressKind::Double && button == 1 {
            PointerAction::LaunchTerminal
        } else if kind == PressKind::Single && button == 1 {
            PointerAction::BeginDrag
        } else if kind == PressKind::Single && button == 3 {
            PointerAction::ShowMenu
        } else {
            PointerAction::Nothing
        }),
{
    match (kind, button) {
        (PressKind::Double, 1) => PointerAction::LaunchTerminal,
        (PressKind::Single, 1) => PointerAction::BeginDrag,
        (PressKind::Single, 3) => PointerAction::ShowMenu,
        _ => PointerAction::Nothing,
    }
}

} // verus!
