//! The tree walker: turns a snapshot of a filesystem subtree into the
//! ordered sequence of entries a recursive operation visits.  Removal and
//! attribute preservation walk contents first (children before their
//! parent); creation walks the root first.  Symlink descent follows the
//! traversal policy, refuses cycles, and a same-filesystem restriction
//! skips subtrees on another device.

use vstd::prelude::*;

use crate::perm::spec_classify;
use crate::perm::classify;
use crate::perm::PathType;

verus! {

/// The raw type of a snapshot node, as the lstat-style probe saw it.
#[derive(Debug, Clone, Copy, PartialEq, Eq, Structural)]
pub enum NodeKind {
    File,
    Directory,
    Symlink,
}

/// The canonical identity of a node: device and inode numbers, taken from
/// the target for a symlink.  Walks compare these to refuse cycles.
#[derive(Debug, Clone, Copy, PartialEq, Eq, Structural)]
pub struct NodeId {
    pub dev: u64,
    pub ino: u64,
}

/// One node of a filesystem snapshot.  The surrounding binary builds this
/// tree with ordinary directory reads and stat calls; a symlink node
/// carries the listing of its target directory in `children` when the
/// builder resolved it, and an empty listing otherwise.
#[derive(Debug)]
pub struct FsNode {
    pub name: String,
    pub kind: NodeKind,
    pub mode: u32,
    pub uid: u32,
    pub gid: u32,
    pub atime: i64,
    pub mtime: i64,
    pub dev: u64,
    pub ino: u64,
    /// The entry's size in bytes, as the probe reported it.
    pub size: u64,
    pub children: Vec<FsNode>,
}

impl FsNode {
    /// The canonical identity of this node.
    pub open spec fn spec_id(self) -> NodeId {
        NodeId { dev: self.dev, ino: self.ino }
    }
}

/// How a walk treats symlinks: never descend through one, descend only
/// when the walk's root itself is one, or descend through every one.
#[derive(Debug, Clone, Copy, PartialEq, Eq, Structural)]
pub enum SymlinkFollow {
    Never,
    ArgumentsOnly,
    Always,
}

/// The order a walk yields entries in: all descendants of a directory
/// before the directory itself, or the directory first.
#[derive(Debug, Clone, Copy, PartialEq, Eq, Structural)]
pub enum WalkOrder {
    ContentsFirst,
    RootFirst,
}

/// How a tree walk behaves.
#[derive(Debug, Clone, Copy, PartialEq, Eq, Structural)]
pub struct TraversalPolicy {
    /// Walk the whole subtree; otherwise only the root is visited.
    pub recursive: bool,
    pub follow: SymlinkFollow,
    /// Skip any entry whose device differs from the root's.
    pub same_file_system: bool,
    pub order: WalkOrder,
    /// Refuse to operate on the filesystem root `/`.
    pub preserve_root: bool,
}

/// One visited entry, as the walk hands it to the per-entry dispatch.
#[derive(Debug, Clone, PartialEq, Eq)]
pub struct FileEntry {
    /// Path components from the walk's root; the root's own name first.
    pub path: Vec<String>,
    /// Depth below the walk's root; the root itself has depth zero.
    pub depth: usize,
    pub kind: PathType,
    pub mode: u32,
    pub uid: u32,
    pub gid: u32,
    pub atime: i64,
    pub mtime: i64,
    /// The entry is a symlink whose target lies on the walk path above it;
    /// the walk reported it without descending.
    pub cycle: bool,
    /// The walk descended into this entry's children: it is a directory,
    /// or a symlink the policy follows.
    pub descended: bool,
}

/// The mathematical picture of a visited entry.
pub struct FileEntryView {
    pub path: Seq<Seq<char>>,
    pub depth: nat,
    pub kind: PathType,
    pub mode: u32,
    pub uid: u32,
    pub gid: u32,
    pub atime: i64,
    pub mtime: i64,
    pub cycle: bool,
    pub descended: bool,
}

impl View for FileEntry {
    type V = FileEntryView;

    open spec fn view(&self) -> FileEntryView {
        FileEntryView {
            path: self.path@.map_values(|s: String| s@),
            depth: self.depth as nat,
            kind: self.kind,
            mode: self.mode,
            uid: self.uid,
            gid: self.gid,
            atime: self.atime,
            mtime: self.mtime,
            cycle: self.cycle,
            descended: self.descended,
        }
    }
}

/// The views of a path's components.
pub open spec fn path_view(p: Seq<String>) -> Seq<Seq<char>> {
    p.map_values(|s: String| s@)
}

/// The views of a vector of entries.
pub open spec fn entries_view(v: Seq<FileEntry>) -> Seq<FileEntryView> {
    v.map_values(|e: FileEntry| e@)
}

/// The entry a node yields at a given path.
pub open spec fn entry_view_of(
    node: FsNode,
    path: Seq<Seq<char>>,
    cycle: bool,
    descended: bool,
) -> FileEntryView {
    FileEntryView {
        path: path,
        depth: (path.len() - 1) as nat,
        kind: spec_classify(node.kind is Directory, node.kind is Symlink, node.mode),
        mode: node.mode,
        uid: node.uid,
        gid: node.gid,
        atime: node.atime,
        mtime: node.mtime,
        cycle: cycle,
        descended: descended,
    }
}

/// Whether the policy lets the walk descend through a symlink at this
/// position.
pub open spec fn spec_follows(policy: TraversalPolicy, is_root: bool) -> bool {
    match policy.follow {
        SymlinkFollow::Never => false,
        SymlinkFollow::ArgumentsOnly => is_root,
        SymlinkFollow::Always => true,
    }
}

/// The entries a recursive walk yields for one node: its own entry, and
/// the entries of its children when the node is a directory or a symlink
/// the policy follows.  A symlink whose identity already lies on the walk
/// path is reported as a cycle and not descended into.
pub open spec fn spec_visit(
    node: FsNode,
    path: Seq<Seq<char>>,
    is_root: bool,
    root_dev: u64,
    policy: TraversalPolicy,
    ancestors: Seq<NodeId>,
) -> Seq<FileEntryView>
    decreases node,
{
    let follow = spec_follows(policy, is_root);
    let cycle = node.kind is Symlink && follow && ancestors.contains(node.spec_id());
    let descend = node.kind is Directory || (node.kind is Symlink && follow && !cycle);
    let own = seq![entry_view_of(node, path, cycle, descend)];
    let kids = if descend {
        spec_visit_children(node.children@, path, root_dev, policy, ancestors.push(node.spec_id()))
    } else {
        Seq::<FileEntryView>::empty()
    };
    match policy.order {
        WalkOrder::ContentsFirst => kids + own,
        WalkOrder::RootFirst => own + kids,
    }
}

/// The entries of a directory's children, in listing order; a child on
/// another device is skipped outright under the same-filesystem
/// restriction.
pub open spec fn spec_visit_children(
    cs: Seq<FsNode>,
    dir_path: Seq<Seq<char>>,
    root_dev: u64,
    policy: TraversalPolicy,
    ancestors: Seq<NodeId>,
) -> Seq<FileEntryView>
    decreases cs,
{
    if cs.len() == 0 {
        Seq::<FileEntryView>::empty()
    } else {
        let rest = spec_visit_children(cs.drop_last(), dir_path, root_dev, policy, ancestors);
        let c = cs.last();
        if policy.same_file_system && c.dev != root_dev {
            rest
        } else {
            rest + spec_visit(c, dir_path.push(c.name@), false, root_dev, policy, ancestors)
        }
    }
}

/// The entries a walk of the whole snapshot yields: just the root when the
/// walk is not recursive, and the recursive visit otherwise.
pub open spec fn spec_walk(root: FsNode, policy: TraversalPolicy) -> Seq<FileEntryView> {
    let path = seq![root.name@];
    if !policy.recursive {
        seq![entry_view_of(root, path, false, false)]
    } else {
        spec_visit(root, path, true, root.dev, policy, Seq::<NodeId>::empty())
    }
}

/// Whether a command-line root that is a symlink is dereferenced before
/// anything else happens: an explicit dereference flag asks for it, and
/// so does a follow mode that follows links at the root.  The caller then
/// probes the link's target and walks that instead of the link.
pub open spec fn spec_resolve_root(kind: NodeKind, dereference: bool, follow: SymlinkFollow) -> bool {
    kind is Symlink && (dereference || follow is ArgumentsOnly || follow is Always)
}

/// Decides whether a command-line root is dereferenced before the walk.
pub fn resolve_root(kind: NodeKind, dereference: bool, follow: SymlinkFollow) -> (r: bool)
    ensures
        r == spec_resolve_root(kind, dereference, follow),
{
    let is_symlink = kind == NodeKind::Symlink;
    let follows_root = match follow {
        SymlinkFollow::Never => false,
        SymlinkFollow::ArgumentsOnly => true,
        SymlinkFollow::Always => true,
    };
    is_symlink && (dereference || follows_root)
}

/// Whether an identity already lies on the walk path.
fn contains_id(anc: &Vec<NodeId>, id: NodeId) -> (r: bool)
    ensures
        r == anc@.contains(id),
{
    let mut i: usize = 0;
    while i < anc.len()
        invariant
            i <= anc@.len(),
            forall|j: int| 0 <= j < i ==> anc@[j] != id,
        decreases anc@.len() - i,
    {
        if anc[i] == id {
            return true;
        }
        i = i + 1;
    }
    false
}

/// Copies a component path.
fn clone_path(p: &Vec<String>) -> (r: Vec<String>)
    ensures
        path_view(r@) == path_view(p@),
        r@.len() == p@.len(),
{
    let mut r: Vec<String> = Vec::new();
    let mut i: usize = 0;
    while i < p.len()
        invariant
            i <= p@.len(),
            r@.len() == i,
            path_view(r@) =~= path_view(p@).take(i as int),
        decreases p@.len() - i,
    {
        r.push(p[i].clone());
        proof {
            assert(path_view(r@) =~= path_view(p@).take(i + 1));
        }
        i = i + 1;
    }
    proof {
        assert(path_view(p@).take(p@.len() as int) =~= path_view(p@));
    }
    r
}

/// Builds the entry a node yields at a given path.
fn make_entry(node: &FsNode, path: Vec<String>, cycle: bool, descended: bool) -> (e: FileEntry)
    requires
        path@.len() >= 1,
    ensures
        e@ == entry_view_of(*node, path_view(path@), cycle, descended),
{
    let is_dir = node.kind == NodeKind::Directory;
    let is_symlink = node.kind == NodeKind::Symlink;
    let kind = classify(is_dir, is_symlink, node.mode);
    let depth = path.len() - 1;
    FileEntry {
        path,
        depth,
        kind,
        mode: node.mode,
        uid: node.uid,
        gid: node.gid,
        atime: node.atime,
        mtime: node.mtime,
        cycle,
        descended,
    }
}

/// Visits one node and its subtree, appending the entries to `out`.
fn visit(
    node: &FsNode,
    path: Vec<String>,
    is_root: bool,
    root_dev: u64,
    policy: &TraversalPolicy,
    ancestors: &Vec<NodeId>,
    out: &mut Vec<FileEntry>,
)
    requires
        path@.len() >= 1,
    ensures
        entries_view(final(out)@) == entries_view(old(out)@) + spec_visit(
            *node,
            path_view(path@),
            is_root,
            root_dev,
            *policy,
            ancestors@,
        ),
    decreases *node,
{
    let ghost pv = path_view(path@);
    let ghost sv = spec_visit(*node, pv, is_root, root_dev, *policy, ancestors@);
    let follow = match policy.follow {
        SymlinkFollow::Never => false,
        SymlinkFollow::ArgumentsOnly => is_root,
        SymlinkFollow::Always => true,
    };
    let id = NodeId { dev: node.dev, ino: node.ino };
    let is_symlink = node.kind == NodeKind::Symlink;
    let is_directory = node.kind == NodeKind::Directory;
    let cycle = is_symlink && follow && contains_id(ancestors, id);
    let descend = is_directory || (is_symlink && follow && !cycle);
    proof {
        assert(follow == spec_follows(*policy, is_root));
        assert(id == node.spec_id());
    }
    let ghost kids = if descend {
        spec_visit_children(node.children@, pv, root_dev, *policy, ancestors@.push(node.spec_id()))
    } else {
        Seq::<FileEntryView>::empty()
    };
    let ghost own = entry_view_of(*node, pv, cycle, descend);

    let own_path = clone_path(&path);
    match policy.order {
        WalkOrder::ContentsFirst => {
            proof {
                assert(sv =~= kids.push(own));
            }
            if descend {
                let mut anc2 = ancestors.clone();
                anc2.push(id);
                proof {
                    assert(anc2@ =~= ancestors@.push(node.spec_id()));
                }
                visit_children(&node.children, &path, root_dev, policy, &anc2, out);
            }
            let ghost mid = out@;
            proof {
                assert(entries_view(mid) == entries_view(old(out)@) + kids);
            }
            let e = make_entry(node, own_path, cycle, descend);
            proof {
                assert(e@ == own);
            }
            out.push(e);
            proof {
                assert(entries_view(out@) =~= entries_view(mid).push(e@));
                assert(entries_view(out@) =~= entries_view(old(out)@) + sv);
            }
        },
        WalkOrder::RootFirst => {
            proof {
                assert(sv =~= seq![own] + kids);
            }
            let e = make_entry(node, own_path, cycle, descend);
            proof {
                assert(e@ == own);
            }
            out.push(e);
            let ghost mid = out@;
            proof {
                assert(entries_view(mid) =~= entries_view(old(out)@).push(own));
            }
            if descend {
                let mut anc2 = ancestors.clone();
                anc2.push(id);
                proof {
                    assert(anc2@ =~= ancestors@.push(node.spec_id()));
                }
                visit_children(&node.children, &path, root_dev, policy, &anc2, out);
                proof {
                    assert(entries_view(out@) == entries_view(mid) + kids);
                }
            }
            proof {
                assert(entries_view(out@) =~= entries_view(old(out)@) + sv);
            }
        },
    }
}

/// Visits the children of a directory in listing order.
fn visit_children(
    cs: &Vec<FsNode>,
    dir_path: &Vec<String>,
    root_dev: u64,
    policy: &TraversalPolicy,
    ancestors: &Vec<NodeId>,
    out: &mut Vec<FileEntry>,
)
    requires
        dir_path@.len() >= 1,
    ensures
        entries_view(final(out)@) == entries_view(old(out)@) + spec_visit_children(
            cs@,
            path_view(dir_path@),
            root_dev,
            *policy,
            ancestors@,
        ),
    decreases *cs,
{
    let ghost out0 = out@;
    let mut i: usize = 0;
    while i < cs.len()
        invariant
            i <= cs@.len(),
            dir_path@.len() >= 1,
            entries_view(out@) == entries_view(out0) + spec_visit_children(
                cs@.take(i as int),
                path_view(dir_path@),
                root_dev,
                *policy,
                ancestors@,
            ),
        decreases cs@.len() - i,
    {
        let child = &cs[i];
        proof {
            assert(cs@.take(i + 1).drop_last() =~= cs@.take(i as int));
            assert(cs@.take(i + 1).last() == cs@[i as int]);
        }
        if !(policy.same_file_system && child.dev != root_dev) {
            let mut child_path = clone_path(dir_path);
            child_path.push(child.name.clone());
            proof {
                assert(path_view(child_path@) =~= path_view(dir_path@).push(cs@[i as int].name@));
            }
            visit(child, child_path, false, root_dev, policy, ancestors, out);
        }
        i = i + 1;
    }
    proof {
        assert(cs@.take(cs@.len() as int) =~= cs@);
    }
}

/// Walks a snapshot under a policy and yields the visited entries in
/// order.
pub fn walk(root: &FsNode, policy: &TraversalPolicy) -> (r: Vec<FileEntry>)
    ensures
        entries_view(r@) == spec_walk(*root, *policy),
{
    let mut path: Vec<String> = Vec::new();
    path.push(root.name.clone());
    proof {
        assert(path_view(path@) =~= seq![root.name@]);
    }
    let mut out: Vec<FileEntry> = Vec::new();
    if !policy.recursive {
        let e = make_entry(root, path, false, false);
        out.push(e);
        proof {
            assert(entries_view(out@) =~= spec_walk(*root, *policy));
        }
    } else {
        let anc: Vec<NodeId> = Vec::new();
        visit(root, path, true, root.dev, policy, &anc, &mut out);
        proof {
            assert(entries_view(out@) =~= spec_walk(*root, *policy));
        }
    }
    out
}

/// Under contents-first order a node's own entry comes last in its visit:
/// every entry of the subtree below it is yielded before the node itself.
pub proof fn lemma_contents_first_parent_last(
    node: FsNode,
    path: Seq<Seq<char>>,
    is_root: bool,
    root_dev: u64,
    policy: TraversalPolicy,
    ancestors: Seq<NodeId>,
)
    requires
        policy.order is ContentsFirst,
    ensures
        spec_visit(node, path, is_root, root_dev, policy, ancestors).len() >= 1,
        spec_visit(node, path, is_root, root_dev, policy, ancestors).last().path == path,
{
}

/// Under root-first order a node's own entry comes first in its visit:
/// the node is yielded before anything below it.
pub proof fn lemma_root_first_parent_first(
    node: FsNode,
    path: Seq<Seq<char>>,
    is_root: bool,
    root_dev: u64,
    policy: TraversalPolicy,
    ancestors: Seq<NodeId>,
)
    requires
        policy.order is RootFirst,
    ensures
        spec_visit(node, path, is_root, root_dev, policy, ancestors).len() >= 1,
        spec_visit(node, path, is_root, root_dev, policy, ancestors).first().path == path,
{
}


/// The byte total of a whole subtree: the node's own size plus the totals
/// of its children.
pub open spec fn spec_du(node: FsNode) -> int
    decreases node,
{
    node.size + spec_du_children(node.children@)
}

/// The byte total of a listing of subtrees.
pub open spec fn spec_du_children(cs: Seq<FsNode>) -> int
    decreases cs,
{
    if cs.len() == 0 {
        0
    } else {
        spec_du_children(cs.drop_last()) + spec_du(cs.last())
    }
}

/// Subtree totals are never negative.
proof fn lemma_du_nonneg(node: FsNode)
    ensures
        spec_du(node) >= 0,
    decreases node, 1int,
{
    lemma_du_children_nonneg(node.children@);
}

/// Listing totals are never negative.
proof fn lemma_du_children_nonneg(cs: Seq<FsNode>)
    ensures
        spec_du_children(cs) >= 0,
    decreases cs, 0int,
{
    if cs.len() > 0 {
        lemma_du_children_nonneg(cs.drop_last());
        lemma_du_nonneg(cs.last());
    }
}

/// Sums the sizes of a whole subtree, stopping at the counter's ceiling
/// when the true total does not fit.
pub fn du_total(node: &FsNode) -> (r: u64)
    ensures
        r == if spec_du(*node) > u64::MAX {
            u64::MAX as int
        } else {
            spec_du(*node)
        },
    decreases *node,
{
    let mut total: u64 = node.size;
    let mut i: usize = 0;
    proof {
        assert(spec_du_children(node.children@.take(0)) == 0) by {
            assert(node.children@.take(0) =~= Seq::<FsNode>::empty());
        }
    }
    while i < node.children.len()
        invariant
            i <= node.children@.len(),
            total == if node.size + spec_du_children(node.children@.take(i as int)) > u64::MAX {
                u64::MAX as int
            } else {
                node.size + spec_du_children(node.children@.take(i as int))
            },
        decreases node.children@.len() - i,
    {
        let child = &node.children[i];
        proof {
            assert(node.children@.take(i + 1).drop_last() =~= node.children@.take(i as int));
            assert(node.children@.take(i + 1).last() == node.children@[i as int]);
            lemma_du_nonneg(node.children@[i as int]);
            lemma_du_children_nonneg(node.children@.take(i as int));
        }
        let sub = du_total(child);
        total = if total > u64::MAX - sub {
            u64::MAX
        } else {
            total + sub
        };
        i = i + 1;
    }
    proof {
        assert(node.children@.take(node.children@.len() as int) =~= node.children@);
    }
    total
}


/// One component path extends another: the second is a prefix of the
/// first.
pub open spec fn path_extends(q: Seq<Seq<char>>, p: Seq<Seq<char>>) -> bool {
    q.len() >= p.len() && q.take(p.len() as int) == p
}

/// Every entry a visit yields lies at or below the visited node: its path
/// extends the node's path.  A recursive operation therefore never plans
/// work outside the subtree it was pointed at.
pub proof fn lemma_visit_stays_below(
    node: FsNode,
    path: Seq<Seq<char>>,
    is_root: bool,
    root_dev: u64,
    policy: TraversalPolicy,
    ancestors: Seq<NodeId>,
)
    ensures
        forall|k: int|
            0 <= k < spec_visit(node, path, is_root, root_dev, policy, ancestors).len()
                ==> path_extends(
                #[trigger] spec_visit(node, path, is_root, root_dev, policy, ancestors)[k].path,
                path,
            ),
    decreases node, 1int,
{
    let r = spec_visit(node, path, is_root, root_dev, policy, ancestors);
    let follow = spec_follows(policy, is_root);
    let cycle = node.kind is Symlink && follow && ancestors.contains(node.spec_id());
    let descend = node.kind is Directory || (node.kind is Symlink && follow && !cycle);
    assert(path.take(path.len() as int) =~= path);
    if descend {
        lemma_children_stay_below(
            node.children@,
            path,
            root_dev,
            policy,
            ancestors.push(node.spec_id()),
        );
    }
    assert forall|k: int| 0 <= k < r.len() implies path_extends(r[k].path, path) by {
        let kids = if descend {
            spec_visit_children(
                node.children@,
                path,
                root_dev,
                policy,
                ancestors.push(node.spec_id()),
            )
        } else {
            Seq::<FileEntryView>::empty()
        };
        match policy.order {
            WalkOrder::ContentsFirst => {
                if k < kids.len() {
                    assert(r[k] == kids[k]);
                } else {
                    assert(r[k] == entry_view_of(node, path, cycle, descend));
                }
            },
            WalkOrder::RootFirst => {
                if k == 0 {
                    assert(r[k] == entry_view_of(node, path, cycle, descend));
                } else {
                    assert(r[k] == kids[k - 1]);
                }
            },
        }
    }
}

/// Every entry a children visit yields lies below the directory: its path
/// extends the directory's path.
proof fn lemma_children_stay_below(
    cs: Seq<FsNode>,
    dir_path: Seq<Seq<char>>,
    root_dev: u64,
    policy: TraversalPolicy,
    ancestors: Seq<NodeId>,
)
    ensures
        forall|k: int|
            0 <= k < spec_visit_children(cs, dir_path, root_dev, policy, ancestors).len()
                ==> path_extends(
                #[trigger] spec_visit_children(cs, dir_path, root_dev, policy, ancestors)[k].path,
                dir_path,
            ),
    decreases cs, 0int,
{
    let r = spec_visit_children(cs, dir_path, root_dev, policy, ancestors);
    if cs.len() > 0 {
        lemma_children_stay_below(cs.drop_last(), dir_path, root_dev, policy, ancestors);
        let c = cs.last();
        if !(policy.same_file_system && c.dev != root_dev) {
            let child_path = dir_path.push(c.name@);
            lemma_visit_stays_below(c, child_path, false, root_dev, policy, ancestors);
            let rest = spec_visit_children(cs.drop_last(), dir_path, root_dev, policy, ancestors);
            let sub = spec_visit(c, child_path, false, root_dev, policy, ancestors);
            assert forall|k: int| 0 <= k < r.len() implies path_extends(r[k].path, dir_path) by {
                if k < rest.len() {
                    assert(r[k] == rest[k]);
                } else {
                    assert(r[k] == sub[k - rest.len()]);
                    assert(path_extends(sub[k - rest.len()].path, child_path));
                    let q = sub[k - rest.len()].path;
                    assert(q.take(dir_path.len() as int) =~= dir_path) by {
                        assert(q.take(child_path.len() as int) == child_path);
                        assert(forall|t: int|
                            0 <= t < child_path.len() ==> #[trigger] q[t] == child_path[t]);
                    }
                }
            }
        }
    }
}

} // verus!
