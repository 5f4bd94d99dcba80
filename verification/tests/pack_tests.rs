use std::path::{Path, PathBuf};

use clippy_native::pack::{trim_leading_slashes, webp_relative_path};
use clippy_native::{webp_path_for, Edge, EdgeVideos, Pack};

fn edge(id: &str, webp: Option<&str>) -> Edge {
    Edge {
        id: id.to_string(),
        source: "a".to_string(),
        target: "b".to_string(),
        is_loop: false,
        videos: EdgeVideos { webp: webp.map(|s| s.to_string()) },
        duration_ms: 500,
        conditions: vec![],
    }
}

#[test]
fn edge_lookup_finds_first_with_id() {
    let mut second = edge("x", None);
    second.source = "second".to_string();
    let pack = Pack { initial_node: "a".to_string(), edges: vec![edge("y", None), edge("x", None), second] };
    assert_eq!(pack.edge("x").unwrap().source, "a");
    assert_eq!(pack.edge_index("x"), Some(1));
    assert!(pack.edge("z").is_none());
}

#[test]
fn leading_slashes_are_trimmed() {
    assert_eq!(trim_leading_slashes("/packs/p/a.webp"), "packs/p/a.webp");
    assert_eq!(trim_leading_slashes("///a/b/"), "a/b/");
    assert_eq!(trim_leading_slashes("a"), "a");
    assert_eq!(trim_leading_slashes("//"), "");
}

#[test]
fn relative_webp_path() {
    assert_eq!(webp_relative_path(&edge("e", Some("/packs/clippy/e.webp"))), Some("packs/clippy/e.webp".to_string()));
    assert_eq!(webp_relative_path(&edge("e", None)), None);
}

#[test]
fn webp_path_joins_public_dir() {
    let root = Path::new("/opt/clippy");
    assert_eq!(
        webp_path_for(root, &edge("e", Some("/packs/clippy/e.webp"))),
        Some(PathBuf::from("/opt/clippy/public/packs/clippy/e.webp"))
    );
    assert_eq!(webp_path_for(root, &edge("e", None)), None);
}

#[test]
fn webp_path_for_never_escapes_public_dir() {
    let root = Path::new("/opt/clippy");
    assert_eq!(
        webp_path_for(root, &edge("e", Some("///abs/e.webp"))),
        Some(PathBuf::from("/opt/clippy/public/abs/e.webp"))
    );
}
