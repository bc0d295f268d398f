//! The tree-action engine on concrete snapshots: the destructive gate,
//! the preserve-root refusal, attribute preservation, and the end-to-end
//! recursive mode change.

use blutils::engine::build_attribute_set;
use blutils::engine::dispatch_entry;
use blutils::engine::run_tree_action;
use blutils::engine::AttributeSet;
use blutils::engine::CopyMode;
use blutils::engine::Attributes;
use blutils::engine::EntryAction;
use blutils::engine::OsCall;
use blutils::engine::TreeActionError;
use blutils::gate::DestructiveConfig;
use blutils::gate::When;
use blutils::mode_expr::parse;
use blutils::perm::PathType;
use blutils::walk::FileEntry;
use blutils::walk::FsNode;
use blutils::walk::NodeKind;
use blutils::walk::SymlinkFollow;
use blutils::walk::TraversalPolicy;
use blutils::walk::WalkOrder;

fn node(name: &str, kind: NodeKind, mode: u32, children: Vec<FsNode>) -> FsNode {
    FsNode {
        name: name.to_string(),
        kind,
        mode,
        uid: 1000,
        gid: 100,
        atime: 11,
        mtime: 22,
        dev: 1,
        ino: 0,
        size: 100,
        children,
    }
}

fn policy(order: WalkOrder, preserve_root: bool) -> TraversalPolicy {
    TraversalPolicy {
        recursive: true,
        follow: SymlinkFollow::Never,
        same_file_system: false,
        order,
        preserve_root,
    }
}

fn quiet() -> DestructiveConfig {
    DestructiveConfig {
        force: false,
        interactive: false,
        interactive_once: false,
        no_clobber: false,
        interactive_when: None,
    }
}

fn entry(parts: &[&str], kind: PathType, mode: u32) -> FileEntry {
    FileEntry {
        path: parts.iter().map(|s| s.to_string()).collect(),
        depth: parts.len() - 1,
        kind,
        mode,
        uid: 1000,
        gid: 100,
        atime: 11,
        mtime: 22,
        cycle: false,
        descended: kind == PathType::Directory,
    }
}

fn pv(parts: &[&str]) -> Vec<String> {
    parts.iter().map(|s| s.to_string()).collect()
}

#[test]
fn no_clobber_refuses_without_any_call() {
    let e = entry(&["src", "f"], PathType::File, 0o644);
    let mut cfg = quiet();
    cfg.no_clobber = true;
    let action = EntryAction::Copy { dest: pv(&["dst"]), mode: CopyMode::Contents };
    let r = dispatch_entry(&e, &action, &cfg, true, None);
    assert_eq!(r, Err(TreeActionError::NoClobberRefusal));
}

#[test]
fn no_clobber_with_absent_destination_proceeds() {
    let e = entry(&["src", "f"], PathType::File, 0o644);
    let mut cfg = quiet();
    cfg.no_clobber = true;
    let action = EntryAction::Copy { dest: pv(&["dst"]), mode: CopyMode::Contents };
    let r = dispatch_entry(&e, &action, &cfg, false, None).unwrap();
    assert_eq!(r, vec![OsCall::CopyFile { src: pv(&["src", "f"]), dst: pv(&["dst", "f"]) }]);
}

#[test]
fn force_overrides_no_clobber() {
    let e = entry(&["src", "f"], PathType::File, 0o644);
    let mut cfg = quiet();
    cfg.no_clobber = true;
    cfg.force = true;
    let action = EntryAction::Copy { dest: pv(&["dst"]), mode: CopyMode::Contents };
    let r = dispatch_entry(&e, &action, &cfg, true, None).unwrap();
    assert_eq!(r, vec![OsCall::CopyFile { src: pv(&["src", "f"]), dst: pv(&["dst", "f"]) }]);
}

#[test]
fn interactive_copy_prompts_before_overwriting() {
    // The prompt names the destination about to be overwritten, not the
    // source being copied.
    let e = entry(&["src", "f"], PathType::File, 0o644);
    let mut cfg = quiet();
    cfg.interactive = true;
    let action = EntryAction::Copy { dest: pv(&["dst"]), mode: CopyMode::Contents };
    let r = dispatch_entry(&e, &action, &cfg, true, None).unwrap();
    assert_eq!(
        r,
        vec![
            OsCall::PromptOverwrite { path: pv(&["dst", "f"]) },
            OsCall::CopyFile { src: pv(&["src", "f"]), dst: pv(&["dst", "f"]) },
        ]
    );
}

#[test]
fn write_protected_removal_prompts_even_without_interactive() {
    let e = entry(&["d", "f"], PathType::File, 0o444);
    let r = dispatch_entry(&e, &EntryAction::Remove, &quiet(), true, None).unwrap();
    assert_eq!(
        r,
        vec![
            OsCall::PromptRemove { path: pv(&["d", "f"]) },
            OsCall::RemoveFile { path: pv(&["d", "f"]) },
        ]
    );
}

#[test]
fn never_prompt_skips_the_write_protection_prompt() {
    let e = entry(&["d", "f"], PathType::File, 0o444);
    let mut cfg = quiet();
    cfg.interactive_when = Some(When::Never);
    let r = dispatch_entry(&e, &EntryAction::Remove, &cfg, true, None).unwrap();
    assert_eq!(r, vec![OsCall::RemoveFile { path: pv(&["d", "f"]) }]);
}

#[test]
fn removal_takes_the_directory_call_for_directories() {
    let e = entry(&["d"], PathType::Directory, 0o755);
    let r = dispatch_entry(&e, &EntryAction::Remove, &quiet(), true, None).unwrap();
    assert_eq!(r, vec![OsCall::RemoveDir { path: pv(&["d"]) }]);
}

#[test]
fn change_owner_passes_the_unspecified_side_through() {
    let e = entry(&["f"], PathType::File, 0o644);
    let action = EntryAction::ChangeOwner { uid: Some(0), gid: None, from_uid: None, from_gid: None };
    let r = dispatch_entry(&e, &action, &quiet(), false, None).unwrap();
    assert_eq!(r, vec![OsCall::SetOwner { path: pv(&["f"]), uid: Some(0), gid: None }]);
}

#[test]
fn preserved_attributes_follow_the_copy_in_fixed_order() {
    let e = entry(&["src", "f"], PathType::File, 0o4644);
    let action = EntryAction::Copy { dest: pv(&["dst"]), mode: CopyMode::Contents };
    let aset = AttributeSet { mode: true, ownership: true, timestamps: true, links: false };
    let r = dispatch_entry(&e, &action, &quiet(), false, Some(aset)).unwrap();
    assert_eq!(
        r,
        vec![
            OsCall::CopyFile { src: pv(&["src", "f"]), dst: pv(&["dst", "f"]) },
            OsCall::SetMode { path: pv(&["dst", "f"]), mode: 0o4644 },
            OsCall::SetOwner { path: pv(&["dst", "f"]), uid: Some(1000), gid: Some(100) },
            OsCall::SetTimes { path: pv(&["dst", "f"]), atime: 11, mtime: 22 },
        ]
    );
}

#[test]
fn attribute_sets_expand_all_and_subtract() {
    let aset = build_attribute_set(&vec![Attributes::All], &vec![Attributes::Timestamps]);
    assert_eq!(
        aset,
        AttributeSet { mode: true, ownership: true, timestamps: false, links: true }
    );
    let aset = build_attribute_set(&vec![Attributes::Mode, Attributes::Ownership], &vec![]);
    assert_eq!(
        aset,
        AttributeSet { mode: true, ownership: true, timestamps: false, links: false }
    );
    let aset = build_attribute_set(&vec![Attributes::Mode], &vec![Attributes::All]);
    assert_eq!(
        aset,
        AttributeSet { mode: false, ownership: false, timestamps: false, links: false }
    );
}

#[test]
fn preserve_root_refuses_before_any_call() {
    let tree = node(
        "/",
        NodeKind::Directory,
        0o755,
        vec![node("etc", NodeKind::Directory, 0o755, vec![])],
    );
    let r = run_tree_action(
        &tree,
        &policy(WalkOrder::ContentsFirst, true),
        &EntryAction::Remove,
        &quiet(),
        true,
        None,
    );
    assert_eq!(r, Err(TreeActionError::PreserveRootRefusal));
}

#[test]
fn without_preserve_root_the_walk_proceeds() {
    let tree = node("/", NodeKind::Directory, 0o755, vec![]);
    let mut cfg = quiet();
    cfg.force = true;
    let r = run_tree_action(
        &tree,
        &policy(WalkOrder::ContentsFirst, false),
        &EntryAction::Remove,
        &cfg,
        true,
        None,
    )
    .unwrap();
    assert_eq!(r, vec![OsCall::RemoveDir { path: pv(&["/"]) }]);
}

#[test]
fn recursive_removal_plans_contents_first() {
    let tree = node(
        "root",
        NodeKind::Directory,
        0o755,
        vec![
            node("a", NodeKind::File, 0o644, vec![]),
            node(
                "b",
                NodeKind::Directory,
                0o755,
                vec![node("c", NodeKind::File, 0o644, vec![])],
            ),
        ],
    );
    let mut cfg = quiet();
    cfg.force = true;
    let r = run_tree_action(
        &tree,
        &policy(WalkOrder::ContentsFirst, false),
        &EntryAction::Remove,
        &cfg,
        true,
        None,
    )
    .unwrap();
    assert_eq!(
        r,
        vec![
            OsCall::RemoveFile { path: pv(&["root", "a"]) },
            OsCall::RemoveFile { path: pv(&["root", "b", "c"]) },
            OsCall::RemoveDir { path: pv(&["root", "b"]) },
            OsCall::RemoveDir { path: pv(&["root"]) },
        ]
    );
}

#[test]
fn end_to_end_recursive_group_write() {
    // Files a (mode 600) and b (mode 644) under directory d: the
    // equivalent of a recursive `g+w` adds the group-write bit to each
    // entry, the directory itself included.
    let tree = node(
        "d",
        NodeKind::Directory,
        0o755,
        vec![
            node("a", NodeKind::File, 0o600, vec![]),
            node("b", NodeKind::File, 0o644, vec![]),
        ],
    );
    let expr = parse("g+w").unwrap();
    let r = run_tree_action(
        &tree,
        &policy(WalkOrder::ContentsFirst, true),
        &EntryAction::ChangeMode(expr),
        &quiet(),
        false,
        None,
    )
    .unwrap();
    assert_eq!(
        r,
        vec![
            OsCall::SetMode { path: pv(&["d", "a"]), mode: 0o620 },
            OsCall::SetMode { path: pv(&["d", "b"]), mode: 0o664 },
            OsCall::SetMode { path: pv(&["d"]), mode: 0o775 },
        ]
    );
}

#[test]
fn recursive_copy_plans_parents_first() {
    let tree = node(
        "src",
        NodeKind::Directory,
        0o755,
        vec![
            node(
                "sub",
                NodeKind::Directory,
                0o755,
                vec![node("f", NodeKind::File, 0o644, vec![])],
            ),
        ],
    );
    let r = run_tree_action(
        &tree,
        &policy(WalkOrder::RootFirst, false),
        &EntryAction::Copy { dest: pv(&["dst"]), mode: CopyMode::Contents },
        &quiet(),
        false,
        None,
    )
    .unwrap();
    assert_eq!(
        r,
        vec![
            OsCall::CreateDir { path: pv(&["dst"]) },
            OsCall::CreateDir { path: pv(&["dst", "sub"]) },
            OsCall::CopyFile { src: pv(&["src", "sub", "f"]), dst: pv(&["dst", "sub", "f"]) },
        ]
    );
}

#[test]
fn a_no_clobber_hit_stops_the_whole_walk() {
    let tree = node(
        "src",
        NodeKind::Directory,
        0o755,
        vec![node("f", NodeKind::File, 0o644, vec![])],
    );
    let mut cfg = quiet();
    cfg.no_clobber = true;
    let r = run_tree_action(
        &tree,
        &policy(WalkOrder::RootFirst, false),
        &EntryAction::Copy { dest: pv(&["dst"]), mode: CopyMode::Contents },
        &cfg,
        true,
        None,
    );
    assert_eq!(r, Err(TreeActionError::NoClobberRefusal));
}

#[test]
fn the_from_filter_skips_mismatched_entries() {
    // The entry helper gives every entry uid 1000 and gid 100.
    let e = entry(&["f"], PathType::File, 0o644);
    let hit = EntryAction::ChangeOwner {
        uid: Some(0),
        gid: Some(0),
        from_uid: Some(1000),
        from_gid: None,
    };
    let r = dispatch_entry(&e, &hit, &quiet(), false, None).unwrap();
    assert_eq!(r, vec![OsCall::SetOwner { path: pv(&["f"]), uid: Some(0), gid: Some(0) }]);
    let miss = EntryAction::ChangeOwner {
        uid: Some(0),
        gid: Some(0),
        from_uid: Some(1000),
        from_gid: Some(42),
    };
    let r = dispatch_entry(&e, &miss, &quiet(), false, None).unwrap();
    assert_eq!(r, vec![]);
}

#[test]
fn link_copy_modes_plan_links_instead_of_byte_copies() {
    let e = entry(&["src", "f"], PathType::File, 0o644);
    let hard = EntryAction::Copy { dest: pv(&["dst"]), mode: CopyMode::HardLink };
    let r = dispatch_entry(&e, &hard, &quiet(), false, None).unwrap();
    assert_eq!(r, vec![OsCall::HardLink { src: pv(&["src", "f"]), dst: pv(&["dst", "f"]) }]);
    let soft = EntryAction::Copy { dest: pv(&["dst"]), mode: CopyMode::SymbolicLink };
    let r = dispatch_entry(&e, &soft, &quiet(), false, None).unwrap();
    assert_eq!(
        r,
        vec![OsCall::SymlinkFile { src: pv(&["src", "f"]), dst: pv(&["dst", "f"]) }]
    );
}

#[test]
fn a_cycle_entry_yields_only_a_warning() {
    let mut e = entry(&["d", "back"], PathType::Symlink, 0o777);
    e.cycle = true;
    let mut cfg = quiet();
    cfg.no_clobber = true;
    let action = EntryAction::Copy { dest: pv(&["dst"]), mode: CopyMode::Contents };
    // Even flags that would otherwise refuse or prompt do not apply: the
    // entry is excluded with a soft warning.
    let r = dispatch_entry(&e, &action, &cfg, true, None).unwrap();
    assert_eq!(r, vec![OsCall::CycleWarning { path: pv(&["d", "back"]) }]);
}

#[test]
fn an_undescended_directory_copy_falls_to_the_byte_copy() {
    // Without recursion the walk does not descend into a directory; the
    // plan hands it to the byte copy, which reports the error at run
    // time, as a copy without recursion does.
    let mut e = entry(&["d"], PathType::Directory, 0o755);
    e.descended = false;
    let action = EntryAction::Copy { dest: pv(&["dst"]), mode: CopyMode::Contents };
    let r = dispatch_entry(&e, &action, &quiet(), false, None).unwrap();
    assert_eq!(r, vec![OsCall::CopyFile { src: pv(&["d"]), dst: pv(&["dst"]) }]);
}

#[test]
fn a_followed_symlink_root_copies_as_a_directory() {
    // A symlink to a directory, followed at the root: the walk descends
    // and the copy creates the destination directory before the children.
    let mut link = node(
        "l",
        NodeKind::Symlink,
        0o777,
        vec![node("f", NodeKind::File, 0o644, vec![])],
    );
    link.ino = 9;
    let policy = TraversalPolicy {
        recursive: true,
        follow: SymlinkFollow::ArgumentsOnly,
        same_file_system: false,
        order: WalkOrder::RootFirst,
        preserve_root: false,
    };
    let r = run_tree_action(
        &link,
        &policy,
        &EntryAction::Copy { dest: pv(&["dst"]), mode: CopyMode::Contents },
        &quiet(),
        false,
        None,
    )
    .unwrap();
    assert_eq!(
        r,
        vec![
            OsCall::CreateDir { path: pv(&["dst"]) },
            OsCall::CopyFile { src: pv(&["l", "f"]), dst: pv(&["dst", "f"]) },
        ]
    );
}

#[test]
fn attributes_only_copies_plan_no_contents() {
    let e = entry(&["src", "f"], PathType::File, 0o640);
    let action = EntryAction::Copy { dest: pv(&["dst"]), mode: CopyMode::AttributesOnly };
    let aset = AttributeSet { mode: true, ownership: false, timestamps: false, links: false };
    let r = dispatch_entry(&e, &action, &quiet(), false, Some(aset)).unwrap();
    assert_eq!(r, vec![OsCall::SetMode { path: pv(&["dst", "f"]), mode: 0o640 }]);
}
