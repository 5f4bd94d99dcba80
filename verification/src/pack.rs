use std::path::{Path, PathBuf};

use vstd::prelude::*;

use crate::text::same_text;

verus! {

#[verifier::external_type_specification]
#[verifier::external_body]
pub struct ExPath(Path);

#[verifier::external_type_specification]
#[verifier::external_body]
pub struct ExPathBuf(PathBuf);

/// One condition of an edge: `input` names a state flag, `op` is `==` or `!=`,
/// and `value` is the JSON value compared against, held as the boolean it is
/// (`None` when the JSON value is not a boolean).
#[derive(Debug, Clone)]
pub struct EdgeCondition {
    pub op: String,
    pub input: String,
    pub value: Option<bool>,
}

/// The videos of an edge; only the animated WebP is used.
#[derive(Debug, Clone)]
pub struct EdgeVideos {
    pub webp: Option<String>,
}

/// An edge of the pack's state graph: a loop animation on a node (`is_loop`),
/// or a one-shot transition from `source` to `target`.
/// `duration_ms` is the edge's duration in whole milliseconds.
#[derive(Debug, Clone)]
pub struct Edge {
    pub id: String,
    pub source: String,
    pub target: String,
    pub is_loop: bool,
    pub videos: EdgeVideos,
    pub duration_ms: u32,
    pub conditions: Vec<EdgeCondition>,
}

/// An animation pack: its state graph and the node it starts on.
#[derive(Debug, Clone)]
pub struct Pack {
    pub initial_node: String,
    pub edges: Vec<Edge>,
}

/// `i` is the first index of an edge with the given id.
pub open spec fn first_with_id(edges: Seq<Edge>, id: Seq<char>, i: int) -> bool {
    &&& 0 <= i < edges.len()
    &&& edges[i].id@ == id
    &&& forall|j: int| 0 <= j < i ==> edges[j].id@ != id
}

pub open spec fn has_id(edges: Seq<Edge>, id: Seq<char>) -> bool {
    exists|i: int| 0 <= i < edges.len() && edges[i].id@ == id
}

impl Pack {
    /// Index of the first edge with this id.
    pub fn edge_index(&self, id: &str) -> (res: Option<usize>)
        ensures
            match res {
                Some(i) => first_with_id(self.edges@, id@, i as int),
                None => !has_id(self.edges@, id@),
            },
    {
        let n = self.edges.len();
        let mut i: usize = 0;
        while i < n
            invariant
                n == self.edges@.len(),
                i <= n,
                forall|j: int| 0 <= j < i ==> self.edges@[j].id@ != id@,
            decreases n - i,
        {
            if same_text(self.edges[i].id.as_str(), id) {
                return Some(i);
            }
            i = i + 1;
        }
        None
    }

    /// The first edge with this id.
    pub fn edge(&self, id: &str) -> (res: Option<&Edge>)
        ensures
            match res {
                Some(e) => exists|i: int| first_with_id(self.edges@, id@, i) && *e == self.edges@[i],
                None => !has_id(self.edges@, id@),
            },
    {
        match self.edge_index(id) {
            Some(i) => Some(&self.edges[i]),
            None => None,
        }
    }
}

/// Number of `/` characters that open `s`.
pub open spec fn leading_slashes(s: Seq<char>) -> nat
    decreases s.len(),
{
    if s.len() > 0 && s[0] == '/' {
        1 + leading_slashes(s.drop_first())
    } else {
        0
    }
}

/// `s` without the `/` characters that open it.
pub open spec fn without_leading_slashes(s: Seq<char>) -> Seq<char> {
    s.skip(leading_slashes(s) as int)
}

proof fn lemma_leading_slashes(s: Seq<char>, k: int)
    requires
        0 <= k <= s.len(),
        forall|j: int| 0 <= j < k ==> s[j] == '/',
        k == s.len() || s[k] != '/',
    ensures
        leading_slashes(s) == k,
    decreases k,
{
    if k > 0 {
        let t = s.drop_first();
        assert forall|j: int| 0 <= j < k - 1 implies t[j] == '/' by {
            assert(t[j] == s[j + 1]);
        }
        if k < s.len() {
            assert(t[k - 1] == s[k]);
        }
        lemma_leading_slashes(t, k - 1);
    }
}

/// `s` with every leading `/` removed.
pub fn trim_leading_slashes(s: &str) -> (res: String)
    ensures
        res@ == without_leading_slashes(s@),
{
    let n = s.unicode_len();
    let mut k: usize = 0;
    while k < n && s.get_char(k) == '/'
        invariant
            n == s@.len(),
            k <= n,
            forall|j: int| 0 <= j < k ==> s@[j] == '/',
        decreases n - k,
    {
        k = k + 1;
    }
    proof {
        lemma_leading_slashes(s@, k as int);
    }
    s.substring_char(k, n).to_owned()
}

/// The WebP path of an edge relative to the project's `public/` directory:
/// the edge's URL without its leading slashes, `None` where the edge has no WebP.
pub fn webp_relative_path(edge: &Edge) -> (res: Option<String>)
    ensures
        match edge.videos.webp {
            Some(url) => res matches Some(r) && r@ == without_leading_slashes(url@),
            None => res is None,
        },
{
    match &edge.videos.webp {
        Some(url) => Some(trim_leading_slashes(url.as_str())),
        None => None,
    }
}

/// The path that `Path::join` makes of `base` and the relative part `part`.
pub uninterp spec fn joined(base: &Path, part: Seq<char>) -> PathBuf;

/// The path that `PathBuf::as_path` borrows from a path buffer.
pub uninterp spec fn borrowed(p: &PathBuf) -> &Path;

/// Calls `Path::join`. Claimed: the joined path depends on the base and the
/// part alone (named `joined`); what it is, is left to std.
#[verifier::external_body]
fn path_join(base: &Path, part: &str) -> (r: PathBuf)
    ensures
        r == joined(base, part@),
{
    base.join(part)
}

/// Calls `PathBuf::as_path`. Claimed: the borrowed path depends on the buffer
/// alone (named `borrowed`).
#[verifier::external_body]
fn path_buf_as_path(p: &PathBuf) -> (r: &Path)
    ensures
        r == borrowed(p),
{
    p.as_path()
}

/// Resolves an edge's WebP file on disk: `<project_root>/public/<relative path>`,
/// where the pack stores URLs like `/packs/<pack>/<id>.webp` and the relative
/// path is the URL without its leading slashes.
/// `None` exactly when the edge has no WebP.
pub fn webp_path_for(project_root: &Path, edge: &Edge) -> (res: Option<PathBuf>)
    ensures
        res is Some <==> edge.videos.webp is Some,
        res matches Some(p) ==> p == joined(
            borrowed(&joined(project_root, "public"@)),
            without_leading_slashes(edge.videos.webp->0@),
        ),
{
    match webp_relative_path(edge) {
        Some(rel) => {
            let public = path_join(project_root, "public");
            Some(path_join(path_buf_as_path(&public), rel.as_str()))
        },
        None => None,
    }
}

} // verus!
