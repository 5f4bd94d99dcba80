use vstd::prelude::*;

use crate::pack::{Edge, EdgeCondition, Pack};
use crate::state::ClaudeCodeState;
use crate::text::same_text;

verus! {

/// One condition holds when its input names a known flag, its value is a
/// boolean, and the flag compares to the value by `op` (`==` or `!=`);
/// any other operator never holds.
pub open spec fn condition_holds(c: EdgeCondition, input: ClaudeCodeState) -> bool {
    match (input.flag_named(c.input@), c.value) {
        (Some(lhs), Some(rhs)) => if c.op@ == "=="@ {
            lhs == rhs
        } else if c.op@ == "!="@ {
            lhs != rhs
        } else {
            false
        },
        _ => false,
    }
}

/// All conditions hold (so an empty list always does).
pub open spec fn all_hold(conds: Seq<EdgeCondition>, input: ClaudeCodeState) -> bool {
    forall|i: int| 0 <= i < conds.len() ==> condition_holds(#[trigger] conds[i], input)
}

fn condition_holds_exec(c: &EdgeCondition, input: &ClaudeCodeState) -> (res: bool)
    ensures
        res == condition_holds(*c, *input),
{
    let lhs = match input.get(c.input.as_str()) {
        Some(b) => b,
        None => return false,
    };
    let rhs = match c.value {
        Some(b) => b,
        None => return false,
    };
    if same_text(c.op.as_str(), "==") {
        lhs == rhs
    } else if same_text(c.op.as_str(), "!=") {
        lhs != rhs
    } else {
        false
    }
}

/// An edge fires when all its conditions hold; empty conditions always match.
pub fn eval_conditions(conds: &[EdgeCondition], input: &ClaudeCodeState) -> (res: bool)
    ensures
        res == all_hold(conds@, *input),
{
    let n = conds.len();
    let mut i: usize = 0;
    while i < n
        invariant
            n == conds@.len(),
            i <= n,
            forall|j: int| 0 <= j < i ==> condition_holds(#[trigger] conds@[j], *input),
        decreases n - i,
    {
        if !condition_holds_exec(&conds[i], input) {
            return false;
        }
        i = i + 1;
    }
    true
}

/// Edge `i` is a transition out of `from` whose conditions all hold.
pub open spec fn is_candidate(edges: Seq<Edge>, from: Seq<char>, input: ClaudeCodeState, i: int) -> bool {
    &&& 0 <= i < edges.len()
    &&& !edges[i].is_loop
    &&& edges[i].source@ == from
    &&& all_hold(edges[i].conditions@, input)
}

pub open spec fn condition_count(edges: Seq<Edge>, i: int) -> nat {
    edges[i].conditions@.len()
}

/// Edge `i` is the most specific candidate: no candidate has more conditions,
/// and every earlier candidate has fewer.
pub open spec fn is_pick(edges: Seq<Edge>, from: Seq<char>, input: ClaudeCodeState, i: int) -> bool {
    &&& is_candidate(edges, from, input, i)
    &&& forall|j: int|
        #[trigger] is_candidate(edges, from, input, j) ==> condition_count(edges, j) <= condition_count(edges, i)
    &&& forall|j: int|
        0 <= j < i && #[trigger] is_candidate(edges, from, input, j) ==> condition_count(edges, j)
            < condition_count(edges, i)
}

pub open spec fn has_candidate(edges: Seq<Edge>, from: Seq<char>, input: ClaudeCodeState) -> bool {
    exists|i: int| is_candidate(edges, from, input, i)
}

/// Index of the most specific transition edge out of `from_node_id` that fires
/// for `input`: the one with the most conditions, the earliest among equals.
pub fn pick_transition_index(pack: &Pack, from_node_id: &str, input: &ClaudeCodeState) -> (res: Option<usize>)
    ensures
        match res {
            Some(i) => is_pick(pack.edges@, from_node_id@, *input, i as int),
            None => !has_candidate(pack.edges@, from_node_id@, *input),
        },
{
    let ghost edges = pack.edges@;
    let n = pack.edges.len();
    let mut best: Option<usize> = None;
    let mut i: usize = 0;
    while i < n
        invariant
            n == edges.len(),
            edges == pack.edges@,
            i <= n,
            match best {
                Some(b) => {
                    &&& b < i
                    &&& is_candidate(edges, from_node_id@, *input, b as int)
                    &&& forall|j: int|
                        0 <= j < i && #[trigger] is_candidate(edges, from_node_id@, *input, j)
                            ==> condition_count(edges, j) <= condition_count(edges, b as int)
                    &&& forall|j: int|
                        0 <= j < b && #[trigger] is_candidate(edges, from_node_id@, *input, j)
                            ==> condition_count(edges, j) < condition_count(edges, b as int)
                },
                None => forall|j: int| 0 <= j < i ==> !#[trigger] is_candidate(edges, from_node_id@, *input, j),
            },
        decreases n - i,
    {
        let e = &pack.edges[i];
        if !e.is_loop && same_text(e.source.as_str(), from_node_id) && eval_conditions(
            e.conditions.as_slice(),
            input,
        ) {
            match best {
                Some(b) => {
                    if pack.edges[b].conditions.len() < e.conditions.len() {
                        best = Some(i);
                    }
                },
                None => {
                    best = Some(i);
                },
            }
        }
        i = i + 1;
    }
    match best {
        Some(b) => {
            assert forall|j: int| #[trigger] is_candidate(edges, from_node_id@, *input, j) implies condition_count(
                edges,
                j,
            ) <= condition_count(edges, b as int) by {}
        },
        None => {
            assert forall|j: int| !#[trigger] is_candidate(edges, from_node_id@, *input, j) by {}
        },
    }
    best
}

/// The most specific transition (non-loop) edge out of `from_node_id` that
/// fires for `input`; ties are broken by condition count descending, the
/// earliest edge first among equals.
pub fn pick_transition<'a>(pack: &'a Pack, from_node_id: &str, input: &ClaudeCodeState) -> (res: Option<&'a Edge>)
    ensures
        match res {
            Some(e) => exists|i: int| is_pick(pack.edges@, from_node_id@, *input, i) && *e == pack.edges@[i],
            None => !has_candidate(pack.edges@, from_node_id@, *input),
        },
{
    match pick_transition_index(pack, from_node_id, input) {
        Some(i) => Some(&pack.edges[i]),
        None => None,
    }
}

/// Edge `i` is the loop animation of `node`.
pub open spec fn is_loop_of(edges: Seq<Edge>, node: Seq<char>, i: int) -> bool {
    0 <= i < edges.len() && edges[i].is_loop && edges[i].source@ == node
}

/// Edge `i` is the first loop animation of `node`.
pub open spec fn is_first_loop_of(edges: Seq<Edge>, node: Seq<char>, i: int) -> bool {
    is_loop_of(edges, node, i) && forall|j: int| 0 <= j < i ==> !#[trigger] is_loop_of(edges, node, j)
}

pub open spec fn has_loop(edges: Seq<Edge>, node: Seq<char>) -> bool {
    exists|i: int| is_loop_of(edges, node, i)
}

/// Index of the first loop edge of `node_id`.
pub fn loop_index(pack: &Pack, node_id: &str) -> (res: Option<usize>)
    ensures
        match res {
            Some(i) => is_first_loop_of(pack.edges@, node_id@, i as int),
            None => !has_loop(pack.edges@, node_id@),
        },
{
    let n = pack.edges.len();
    let mut i: usize = 0;
    while i < n
        invariant
            n == pack.edges@.len(),
            i <= n,
            forall|j: int| 0 <= j < i ==> !#[trigger] is_loop_of(pack.edges@, node_id@, j),
        decreases n - i,
    {
        let e = &pack.edges[i];
        if e.is_loop && same_text(e.source.as_str(), node_id) {
            return Some(i);
        }
        i = i + 1;
    }
    proof {
        assert forall|j: int| !#[trigger] is_loop_of(pack.edges@, node_id@, j) by {}
    }
    None
}

/// The first loop edge of `node_id`.
pub fn loop_for<'a>(pack: &'a Pack, node_id: &str) -> (res: Option<&'a Edge>)
    ensures
        match res {
            Some(e) => exists|i: int| is_first_loop_of(pack.edges@, node_id@, i) && *e == pack.edges@[i],
            None => !has_loop(pack.edges@, node_id@),
        },
{
    match loop_index(pack, node_id) {
        Some(i) => Some(&pack.edges[i]),
        None => None,
    }
}

/// The loop edge of the pack's initial node, which the mascot starts on.
pub fn initial_edge(pack: &Pack) -> (res: Option<&Edge>)
    ensures
        match res {
            Some(e) => exists|i: int|
                is_first_loop_of(pack.edges@, pack.initial_node@, i) && *e == pack.edges@[i],
            None => !has_loop(pack.edges@, pack.initial_node@),
        },
{
    loop_for(pack, pack.initial_node.as_str())
}

pub(crate) proof fn first_loop_exists(edges: Seq<Edge>, node: Seq<char>, k: int)
    requires
        is_loop_of(edges, node, k),
    ensures
        exists|i: int| is_first_loop_of(edges, node, i),
    decreases k,
{
    if forall|j: int| 0 <= j < k ==> !#[trigger] is_loop_of(edges, node, j) {
        assert(is_first_loop_of(edges, node, k));
    } else {
        let k2 = choose|j: int| 0 <= j < k && #[trigger] is_loop_of(edges, node, j);
        first_loop_exists(edges, node, k2);
    }
}

/// An edge without conditions fires for every input.
pub proof fn empty_conditions_always_match(conds: Seq<EdgeCondition>, input: ClaudeCodeState)
    requires
        conds.len() == 0,
    ensures
        all_hold(conds, input),
{
}

/// At most one edge is the pick: the choice is deterministic.
pub proof fn pick_is_unique(edges: Seq<Edge>, from: Seq<char>, input: ClaudeCodeState, i: int, j: int)
    requires
        is_pick(edges, from, input, i),
        is_pick(edges, from, input, j),
    ensures
        i == j,
{
    if i < j {
        assert(is_candidate(edges, from, input, i));
    } else if j < i {
        assert(is_candidate(edges, from, input, j));
    }
}

/// Whenever some transition fires, one is picked.
pub proof fn candidate_implies_pick(edges: Seq<Edge>, from: Seq<char>, input: ClaudeCodeState, k: int)
    requires
        is_candidate(edges, from, input, k),
    ensures
        exists|i: int| is_pick(edges, from, input, i),
    decreases edges.len(),
{
    // the earliest candidate among those with the most conditions
    let best = max_candidate(edges, from, input, edges.len() as int, k);
    assert(is_pick(edges, from, input, best));
}

/// Among candidates below `bound` (one of which is `k`), the earliest with the
/// most conditions.
proof fn max_candidate(edges: Seq<Edge>, from: Seq<char>, input: ClaudeCodeState, bound: int, k: int) -> (b: int)
    requires
        0 <= k < bound <= edges.len(),
        is_candidate(edges, from, input, k),
    ensures
        0 <= b < bound,
        is_candidate(edges, from, input, b),
        forall|j: int|
            0 <= j < bound && #[trigger] is_candidate(edges, from, input, j) ==> condition_count(edges, j)
                <= condition_count(edges, b),
        forall|j: int|
            0 <= j < b && #[trigger] is_candidate(edges, from, input, j) ==> condition_count(edges, j)
                < condition_count(edges, b),
    decreases bound,
{
    if bound - 1 == k && forall|j: int| 0 <= j < k ==> !#[trigger] is_candidate(edges, from, input, j) {
        k
    } else if bound - 1 == k {
        let k2 = choose|j: int| 0 <= j < k && #[trigger] is_candidate(edges, from, input, j);
        let b = max_candidate(edges, from, input, k, k2);
        if condition_count(edges, b) < condition_count(edges, k) {
            k
        } else {
            b
        }
    } else {
        let b = max_candidate(edges, from, input, bound - 1, k);
        let last = bound - 1;
        if is_candidate(edges, from, input, last) && condition_count(edges, b) < condition_count(edges, last) {
            last
        } else {
            b
        }
    }
}

} // verus!
