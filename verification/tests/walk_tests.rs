//! The tree walker on concrete snapshots: visiting order, symlink policy,
//! cycle refusal, and the same-filesystem restriction.

use blutils::perm::PathType;
use blutils::walk::resolve_root;
use blutils::walk::walk;
use blutils::walk::FsNode;
use blutils::walk::NodeKind;
use blutils::walk::SymlinkFollow;
use blutils::walk::TraversalPolicy;
use blutils::walk::WalkOrder;

fn node(name: &str, kind: NodeKind, mode: u32, children: Vec<FsNode>) -> FsNode {
    FsNode {
        name: name.to_string(),
        kind,
        mode,
        uid: 1000,
        gid: 1000,
        atime: 10,
        mtime: 20,
        dev: 1,
        ino: 0,
        size: 100,
        children,
    }
}

fn policy(recursive: bool, order: WalkOrder) -> TraversalPolicy {
    TraversalPolicy {
        recursive,
        follow: SymlinkFollow::Never,
        same_file_system: false,
        order,
        preserve_root: false,
    }
}

fn paths(entries: &[blutils::walk::FileEntry]) -> Vec<Vec<String>> {
    entries.iter().map(|e| e.path.clone()).collect()
}

fn pv(parts: &[&str]) -> Vec<String> {
    parts.iter().map(|s| s.to_string()).collect()
}

#[test]
fn contents_first_visits_children_before_parents() {
    // root/{a, b/{c}}: a contents-first walk yields b/c before b, and the
    // root as the final entry.
    let tree = node(
        "root",
        NodeKind::Directory,
        0o755,
        vec![
            node("a", NodeKind::File, 0o644, vec![]),
            node(
                "b",
                NodeKind::Directory,
                0o755,
                vec![node("c", NodeKind::File, 0o644, vec![])],
            ),
        ],
    );
    let entries = walk(&tree, &policy(true, WalkOrder::ContentsFirst));
    assert_eq!(
        paths(&entries),
        vec![
            pv(&["root", "a"]),
            pv(&["root", "b", "c"]),
            pv(&["root", "b"]),
            pv(&["root"]),
        ]
    );
    let c = entries.iter().position(|e| e.path == pv(&["root", "b", "c"])).unwrap();
    let b = entries.iter().position(|e| e.path == pv(&["root", "b"])).unwrap();
    let r = entries.iter().position(|e| e.path == pv(&["root"])).unwrap();
    assert!(c < b);
    assert!(b < r);
    assert_eq!(r, entries.len() - 1);
}

#[test]
fn root_first_visits_parents_before_children() {
    let tree = node(
        "root",
        NodeKind::Directory,
        0o755,
        vec![
            node("a", NodeKind::File, 0o644, vec![]),
            node(
                "b",
                NodeKind::Directory,
                0o755,
                vec![node("c", NodeKind::File, 0o644, vec![])],
            ),
        ],
    );
    let entries = walk(&tree, &policy(true, WalkOrder::RootFirst));
    assert_eq!(
        paths(&entries),
        vec![
            pv(&["root"]),
            pv(&["root", "a"]),
            pv(&["root", "b"]),
            pv(&["root", "b", "c"]),
        ]
    );
}

#[test]
fn non_recursive_walk_yields_the_root_alone() {
    let tree = node(
        "root",
        NodeKind::Directory,
        0o755,
        vec![node("a", NodeKind::File, 0o644, vec![])],
    );
    let entries = walk(&tree, &policy(false, WalkOrder::ContentsFirst));
    assert_eq!(paths(&entries), vec![pv(&["root"])]);
}

#[test]
fn entry_metadata_and_depth_are_carried_over() {
    let tree = node(
        "d",
        NodeKind::Directory,
        0o755,
        vec![node("x", NodeKind::File, 0o751, vec![])],
    );
    let entries = walk(&tree, &policy(true, WalkOrder::RootFirst));
    assert_eq!(entries[0].kind, PathType::Directory);
    assert_eq!(entries[0].depth, 0);
    // Owner or group execute bit set on a plain file: classified as
    // executable.
    assert_eq!(entries[1].kind, PathType::Executable);
    assert_eq!(entries[1].depth, 1);
    assert_eq!(entries[1].mode, 0o751);
    assert_eq!(entries[1].uid, 1000);
    assert_eq!(entries[1].mtime, 20);
}

#[test]
fn symlinks_are_not_followed_by_default() {
    let mut link = node(
        "l",
        NodeKind::Symlink,
        0o777,
        vec![node("inside", NodeKind::File, 0o644, vec![])],
    );
    link.ino = 7;
    let tree = node("root", NodeKind::Directory, 0o755, vec![link]);
    let entries = walk(&tree, &policy(true, WalkOrder::RootFirst));
    assert_eq!(paths(&entries), vec![pv(&["root"]), pv(&["root", "l"])]);
}

#[test]
fn symlinks_are_followed_when_asked() {
    let mut link = node(
        "l",
        NodeKind::Symlink,
        0o777,
        vec![node("inside", NodeKind::File, 0o644, vec![])],
    );
    link.ino = 7;
    let tree = node("root", NodeKind::Directory, 0o755, vec![link]);
    let mut p = policy(true, WalkOrder::RootFirst);
    p.follow = SymlinkFollow::Always;
    let entries = walk(&tree, &p);
    assert_eq!(
        paths(&entries),
        vec![pv(&["root"]), pv(&["root", "l"]), pv(&["root", "l", "inside"])]
    );
    assert!(!entries[1].cycle);
}

#[test]
fn a_symlink_into_its_own_ancestry_is_reported_as_a_cycle() {
    // The link resolves to the root directory itself: same device and
    // inode as an ancestor of the walk position.
    let mut link = node(
        "back",
        NodeKind::Symlink,
        0o777,
        vec![node("ghostly", NodeKind::File, 0o644, vec![])],
    );
    link.ino = 1;
    let mut tree = node("root", NodeKind::Directory, 0o755, vec![link]);
    tree.ino = 1;
    let mut p = policy(true, WalkOrder::RootFirst);
    p.follow = SymlinkFollow::Always;
    let entries = walk(&tree, &p);
    assert_eq!(paths(&entries), vec![pv(&["root"]), pv(&["root", "back"])]);
    assert!(entries[1].cycle);
}

#[test]
fn arguments_only_follows_just_the_root_link() {
    let mut inner = node(
        "inner",
        NodeKind::Symlink,
        0o777,
        vec![node("deep", NodeKind::File, 0o644, vec![])],
    );
    inner.ino = 9;
    let mut root_link = node("l", NodeKind::Symlink, 0o777, vec![inner]);
    root_link.ino = 8;
    let mut p = policy(true, WalkOrder::RootFirst);
    p.follow = SymlinkFollow::ArgumentsOnly;
    let entries = walk(&root_link, &p);
    // The root link is descended into, the nested link is not.
    assert_eq!(paths(&entries), vec![pv(&["l"]), pv(&["l", "inner"])]);
}

#[test]
fn other_devices_are_skipped_under_one_file_system() {
    let mut foreign = node(
        "mnt",
        NodeKind::Directory,
        0o755,
        vec![node("far", NodeKind::File, 0o644, vec![])],
    );
    foreign.dev = 2;
    let tree = node(
        "root",
        NodeKind::Directory,
        0o755,
        vec![node("a", NodeKind::File, 0o644, vec![]), foreign],
    );
    let mut p = policy(true, WalkOrder::ContentsFirst);
    p.same_file_system = true;
    let entries = walk(&tree, &p);
    assert_eq!(paths(&entries), vec![pv(&["root", "a"]), pv(&["root"])]);
}

#[test]
fn subtree_totals_sum_every_node() {
    let mut small = node("s", NodeKind::File, 0o644, vec![]);
    small.size = 7;
    let mut sub = node("sub", NodeKind::Directory, 0o755, vec![small]);
    sub.size = 4096;
    let mut tree = node("root", NodeKind::Directory, 0o755, vec![sub]);
    tree.size = 4096;
    assert_eq!(blutils::walk::du_total(&tree), 4096 + 4096 + 7);

    let mut big = node("b", NodeKind::File, 0o644, vec![]);
    big.size = u64::MAX;
    let mut tree = node("root", NodeKind::Directory, 0o755, vec![big]);
    tree.size = 10;
    assert_eq!(blutils::walk::du_total(&tree), u64::MAX);
}

#[test]
fn root_dereference_follows_the_flag_and_the_follow_mode() {
    assert!(resolve_root(NodeKind::Symlink, true, SymlinkFollow::Never));
    assert!(resolve_root(NodeKind::Symlink, false, SymlinkFollow::ArgumentsOnly));
    assert!(resolve_root(NodeKind::Symlink, false, SymlinkFollow::Always));
    assert!(!resolve_root(NodeKind::Symlink, false, SymlinkFollow::Never));
    assert!(!resolve_root(NodeKind::Directory, true, SymlinkFollow::Always));
    assert!(!resolve_root(NodeKind::File, true, SymlinkFollow::Always));
}
