//! The tree-action engine: walks a snapshot under a policy and turns every
//! visited entry into the operating-system calls the requested action
//! needs, with the destructive gate consulted before anything is
//! overwritten or removed and the requested attributes re-applied after a
//! copy.  The surrounding binary performs the planned calls in order; a
//! prompt step that the user declines ends the run cleanly.

use vstd::prelude::*;

use crate::gate::spec_gate;
use crate::gate::evaluate_gate;
use crate::gate::DestructiveConfig;
use crate::gate::When;
use crate::gate::GateDecision;
use crate::mode_expr::spec_apply;
use crate::mode_expr::apply;
use crate::mode_expr::ModeExpression;
use crate::perm::has_bits;
use crate::perm::PathType;
use crate::perm::MODE_MASK;
use crate::perm::S_IWUSR;
use crate::walk::entries_view;
use crate::walk::path_view;
use crate::walk::spec_walk;
use crate::walk::walk;
use crate::walk::FileEntry;
use crate::walk::FileEntryView;
use crate::walk::FsNode;
use crate::walk::TraversalPolicy;

verus! {

/// One attribute category a copy can preserve.
#[derive(Debug, Clone, Copy, PartialEq, Eq, Structural)]
pub enum Attributes {
    Mode,
    Ownership,
    Timestamps,
    Links,
    All,
}

/// Which attribute categories a copy preserves on each destination entry.
#[derive(Debug, Clone, Copy, PartialEq, Eq, Structural)]
pub struct AttributeSet {
    pub mode: bool,
    pub ownership: bool,
    pub timestamps: bool,
    pub links: bool,
}

/// An attribute is asked for when it is named itself or through `All`.
pub open spec fn has_attr(s: Seq<Attributes>, a: Attributes) -> bool {
    s.contains(a) || s.contains(Attributes::All)
}

/// The attribute set a pair of preserve and no-preserve requests yields:
/// what the first asks for, minus what the second takes away.
pub open spec fn spec_attribute_set(p: Seq<Attributes>, np: Seq<Attributes>) -> AttributeSet {
    AttributeSet {
        mode: has_attr(p, Attributes::Mode) && !has_attr(np, Attributes::Mode),
        ownership: has_attr(p, Attributes::Ownership) && !has_attr(np, Attributes::Ownership),
        timestamps: has_attr(p, Attributes::Timestamps) && !has_attr(np, Attributes::Timestamps),
        links: has_attr(p, Attributes::Links) && !has_attr(np, Attributes::Links),
    }
}

/// Whether a request list names an attribute, itself or through `All`.
fn list_has_attr(s: &Vec<Attributes>, a: Attributes) -> (r: bool)
    ensures
        r == has_attr(s@, a),
{
    let mut i: usize = 0;
    while i < s.len()
        invariant
            i <= s@.len(),
            forall|j: int| 0 <= j < i ==> s@[j] != a && s@[j] != Attributes::All,
        decreases s@.len() - i,
    {
        if s[i] == a || s[i] == Attributes::All {
            return true;
        }
        i = i + 1;
    }
    false
}

/// Builds the attribute set from the preserve and no-preserve requests of
/// an invocation.
pub fn build_attribute_set(preserve: &Vec<Attributes>, no_preserve: &Vec<Attributes>) -> (r:
    AttributeSet)
    ensures
        r == spec_attribute_set(preserve@, no_preserve@),
{
    AttributeSet {
        mode: list_has_attr(preserve, Attributes::Mode) && !list_has_attr(
            no_preserve,
            Attributes::Mode,
        ),
        ownership: list_has_attr(preserve, Attributes::Ownership) && !list_has_attr(
            no_preserve,
            Attributes::Ownership,
        ),
        timestamps: list_has_attr(preserve, Attributes::Timestamps) && !list_has_attr(
            no_preserve,
            Attributes::Timestamps,
        ),
        links: list_has_attr(preserve, Attributes::Links) && !list_has_attr(
            no_preserve,
            Attributes::Links,
        ),
    }
}

/// How a copy materializes a non-directory entry at its destination.
#[derive(Debug, Clone, Copy, PartialEq, Eq, Structural)]
pub enum CopyMode {
    /// A byte-for-byte copy of the contents.
    Contents,
    /// A hard link to the source.
    HardLink,
    /// A symbolic link to the source.
    SymbolicLink,
    /// No contents at all: only the preserved attributes are applied, so
    /// the destination must already exist.
    AttributesOnly,
}

/// The per-entry action a tree walk performs.
#[derive(Debug, Clone)]
pub enum EntryAction {
    /// Re-evaluate a mode expression against each entry's current bits and
    /// set the result.
    ChangeMode(ModeExpression),
    /// Change the owner or group, leaving an unspecified side unchanged;
    /// an entry whose current owner or group misses the given `from`
    /// sides is left untouched.
    ChangeOwner {
        uid: Option<u32>,
        gid: Option<u32>,
        from_uid: Option<u32>,
        from_gid: Option<u32>,
    },
    /// Remove each entry; directories must already be empty, which the
    /// contents-first order guarantees.
    Remove,
    /// Copy each entry beneath the given destination root path, in the
    /// given mode.
    Copy { dest: Vec<String>, mode: CopyMode },
}

/// The mathematical picture of a per-entry action.
pub enum EntryActionView {
    ChangeMode(ModeExpression),
    ChangeOwner {
        uid: Option<u32>,
        gid: Option<u32>,
        from_uid: Option<u32>,
        from_gid: Option<u32>,
    },
    Remove,
    Copy { dest: Seq<Seq<char>>, mode: CopyMode },
}

impl View for EntryAction {
    type V = EntryActionView;

    open spec fn view(&self) -> EntryActionView {
        match self {
            EntryAction::ChangeMode(e) => EntryActionView::ChangeMode(*e),
            EntryAction::ChangeOwner { uid, gid, from_uid, from_gid } => {
                EntryActionView::ChangeOwner {
                    uid: *uid,
                    gid: *gid,
                    from_uid: *from_uid,
                    from_gid: *from_gid,
                }
            },
            EntryAction::Remove => EntryActionView::Remove,
            EntryAction::Copy { dest, mode } => EntryActionView::Copy {
                dest: path_view(dest@),
                mode: *mode,
            },
        }
    }
}

/// Whether an entry's current owner and group satisfy a `from` filter: a
/// given side must match, an omitted side never constrains.
pub open spec fn from_matches(
    from_uid: Option<u32>,
    from_gid: Option<u32>,
    uid: u32,
    gid: u32,
) -> bool {
    (from_uid matches Some(u) ==> u == uid) && (from_gid matches Some(g) ==> g == gid)
}

/// One operating-system call the engine plans; the surrounding binary
/// performs them in order.
#[derive(Debug, Clone, PartialEq, Eq)]
pub enum OsCall {
    SetMode { path: Vec<String>, mode: u32 },
    SetOwner { path: Vec<String>, uid: Option<u32>, gid: Option<u32> },
    SetTimes { path: Vec<String>, atime: i64, mtime: i64 },
    RemoveFile { path: Vec<String> },
    RemoveDir { path: Vec<String> },
    CreateDir { path: Vec<String> },
    CopyFile { src: Vec<String>, dst: Vec<String> },
    HardLink { src: Vec<String>, dst: Vec<String> },
    SymlinkFile { src: Vec<String>, dst: Vec<String> },
    /// Ask before removing the named entry; declined means a clean stop.
    PromptRemove { path: Vec<String> },
    /// Ask before overwriting the named destination; declined means a
    /// clean stop.
    PromptOverwrite { path: Vec<String> },
    /// Report, without failing, that the entry is a symlink into its own
    /// ancestry and was not descended into.
    CycleWarning { path: Vec<String> },
}

/// The mathematical picture of one planned call.
pub enum OsCallView {
    SetMode { path: Seq<Seq<char>>, mode: u32 },
    SetOwner { path: Seq<Seq<char>>, uid: Option<u32>, gid: Option<u32> },
    SetTimes { path: Seq<Seq<char>>, atime: i64, mtime: i64 },
    RemoveFile { path: Seq<Seq<char>> },
    RemoveDir { path: Seq<Seq<char>> },
    CreateDir { path: Seq<Seq<char>> },
    CopyFile { src: Seq<Seq<char>>, dst: Seq<Seq<char>> },
    HardLink { src: Seq<Seq<char>>, dst: Seq<Seq<char>> },
    SymlinkFile { src: Seq<Seq<char>>, dst: Seq<Seq<char>> },
    PromptRemove { path: Seq<Seq<char>> },
    PromptOverwrite { path: Seq<Seq<char>> },
    CycleWarning { path: Seq<Seq<char>> },
}

impl View for OsCall {
    type V = OsCallView;

    open spec fn view(&self) -> OsCallView {
        match self {
            OsCall::SetMode { path, mode } => OsCallView::SetMode {
                path: path_view(path@),
                mode: *mode,
            },
            OsCall::SetOwner { path, uid, gid } => OsCallView::SetOwner {
                path: path_view(path@),
                uid: *uid,
                gid: *gid,
            },
            OsCall::SetTimes { path, atime, mtime } => OsCallView::SetTimes {
                path: path_view(path@),
                atime: *atime,
                mtime: *mtime,
            },
            OsCall::RemoveFile { path } => OsCallView::RemoveFile { path: path_view(path@) },
            OsCall::RemoveDir { path } => OsCallView::RemoveDir { path: path_view(path@) },
            OsCall::CreateDir { path } => OsCallView::CreateDir { path: path_view(path@) },
            OsCall::CopyFile { src, dst } => OsCallView::CopyFile {
                src: path_view(src@),
                dst: path_view(dst@),
            },
            OsCall::HardLink { src, dst } => OsCallView::HardLink {
                src: path_view(src@),
                dst: path_view(dst@),
            },
            OsCall::SymlinkFile { src, dst } => OsCallView::SymlinkFile {
                src: path_view(src@),
                dst: path_view(dst@),
            },
            OsCall::PromptRemove { path } => OsCallView::PromptRemove { path: path_view(path@) },
            OsCall::PromptOverwrite { path } => OsCallView::PromptOverwrite {
                path: path_view(path@),
            },
            OsCall::CycleWarning { path } => OsCallView::CycleWarning { path: path_view(path@) },
        }
    }
}

/// The views of a planned call sequence.
pub open spec fn calls_view(v: Seq<OsCall>) -> Seq<OsCallView> {
    v.map_values(|c: OsCall| c@)
}

/// Why a planned run refuses to produce any call.
#[derive(Debug, Clone, Copy, PartialEq, Eq, Structural)]
pub enum TreeActionError {
    /// The root is `/` and the preserve-root policy is active.
    PreserveRootRefusal,
    /// The destination exists and the no-clobber flag is set.
    NoClobberRefusal,
}

/// A path without its first component; an empty path stays empty.
pub open spec fn skip_first(p: Seq<Seq<char>>) -> Seq<Seq<char>> {
    if p.len() == 0 {
        p
    } else {
        p.drop_first()
    }
}

/// Where an entry lands under the destination root: the root followed by
/// the entry's path below the walked root.
pub open spec fn spec_dest_path(dest: Seq<Seq<char>>, entry_path: Seq<Seq<char>>) -> Seq<
    Seq<char>,
> {
    dest + skip_first(entry_path)
}

/// The destructive-action decision an action faces at one entry: a
/// removal is judged on the entry itself (which exists, and may be
/// write-protected); a copy on its destination; mode and owner changes
/// overwrite nothing guarded and always proceed.
pub open spec fn spec_entry_gate(
    entry: FileEntryView,
    action: EntryActionView,
    cfg: DestructiveConfig,
    dest_exists: bool,
) -> GateDecision {
    match action {
        EntryActionView::Remove => spec_gate(cfg, true, !has_bits(entry.mode, S_IWUSR)),
        EntryActionView::Copy { .. } => spec_gate(cfg, dest_exists, false),
        _ => GateDecision::Proceed,
    }
}

/// The calls that carry out the action itself at one entry.  An owner
/// change skips an entry that misses the `from` filter.  A copy turns an
/// entry the walk descended into (a directory, or a symlink followed as
/// one) into a directory at the destination, and materializes every other
/// entry by the copy mode; an undescended directory is handed to the byte
/// copy, which reports the error, as a copy without recursion does.
pub open spec fn spec_action_calls(entry: FileEntryView, action: EntryActionView) -> Seq<
    OsCallView,
> {
    match action {
        EntryActionView::ChangeMode(e) => seq![
            OsCallView::SetMode { path: entry.path, mode: spec_apply(entry.mode, e) },
        ],
        EntryActionView::ChangeOwner { uid, gid, from_uid, from_gid } => {
            if from_matches(from_uid, from_gid, entry.uid, entry.gid) {
                seq![OsCallView::SetOwner { path: entry.path, uid, gid }]
            } else {
                Seq::<OsCallView>::empty()
            }
        },
        EntryActionView::Remove => {
            if entry.kind is Directory {
                seq![OsCallView::RemoveDir { path: entry.path }]
            } else {
                seq![OsCallView::RemoveFile { path: entry.path }]
            }
        },
        EntryActionView::Copy { dest, mode } => {
            let d = spec_dest_path(dest, entry.path);
            if entry.descended {
                seq![OsCallView::CreateDir { path: d }]
            } else {
                match mode {
                    CopyMode::Contents => seq![OsCallView::CopyFile { src: entry.path, dst: d }],
                    CopyMode::HardLink => seq![OsCallView::HardLink { src: entry.path, dst: d }],
                    CopyMode::SymbolicLink => seq![
                        OsCallView::SymlinkFile { src: entry.path, dst: d },
                    ],
                    CopyMode::AttributesOnly => Seq::<OsCallView>::empty(),
                }
            }
        },
    }
}

/// The calls that re-apply the preserved attributes onto the entry's
/// destination, in the fixed order mode, ownership, timestamps (mode
/// first, since setting ownership can clear set-id bits).
pub open spec fn spec_preserve_calls(
    entry: FileEntryView,
    action: EntryActionView,
    preserve: Option<AttributeSet>,
) -> Seq<OsCallView> {
    match preserve {
        None => Seq::<OsCallView>::empty(),
        Some(a) => {
            let d = match action {
                EntryActionView::Copy { dest, .. } => spec_dest_path(dest, entry.path),
                _ => entry.path,
            };
            (if a.mode {
                seq![OsCallView::SetMode { path: d, mode: entry.mode & MODE_MASK }]
            } else {
                Seq::<OsCallView>::empty()
            }) + (if a.ownership {
                seq![
                    OsCallView::SetOwner {
                        path: d,
                        uid: Some(entry.uid),
                        gid: Some(entry.gid),
                    },
                ]
            } else {
                Seq::<OsCallView>::empty()
            }) + (if a.timestamps {
                seq![OsCallView::SetTimes { path: d, atime: entry.atime, mtime: entry.mtime }]
            } else {
                Seq::<OsCallView>::empty()
            })
        },
    }
}

/// What dispatching one entry yields: a symlink-cycle entry is excluded
/// with only a soft warning; a no-clobber hit stops the whole invocation;
/// otherwise the plan holds a prompt step when one is called for (a
/// removal prompt names the entry, an overwrite prompt names the
/// destination at risk), then the action's own call, then the preserved
/// attributes.
pub open spec fn spec_dispatch(
    entry: FileEntryView,
    action: EntryActionView,
    cfg: DestructiveConfig,
    dest_exists: bool,
    preserve: Option<AttributeSet>,
) -> Result<Seq<OsCallView>, TreeActionError> {
    if entry.cycle {
        Ok(seq![OsCallView::CycleWarning { path: entry.path }])
    } else {
        let gate = spec_entry_gate(entry, action, cfg, dest_exists);
        if gate is Refuse {
            Err(TreeActionError::NoClobberRefusal)
        } else {
            let prompts = if gate is Prompt {
                match action {
                    EntryActionView::Copy { dest, .. } => seq![
                        OsCallView::PromptOverwrite {
                            path: spec_dest_path(dest, entry.path),
                        },
                    ],
                    _ => seq![OsCallView::PromptRemove { path: entry.path }],
                }
            } else {
                Seq::<OsCallView>::empty()
            };
            Ok(
                prompts + spec_action_calls(entry, action) + spec_preserve_calls(
                    entry,
                    action,
                    preserve,
                ),
            )
        }
    }
}

/// Copies a component path.
fn clone_components(p: &Vec<String>) -> (r: Vec<String>)
    ensures
        path_view(r@) == path_view(p@),
        r@.len() == p@.len(),
{
    let mut r: Vec<String> = Vec::new();
    let mut i: usize = 0;
    while i < p.len()
        invariant
            i <= p@.len(),
            r@.len() == i,
            path_view(r@) =~= path_view(p@).take(i as int),
        decreases p@.len() - i,
    {
        r.push(p[i].clone());
        proof {
            assert(path_view(r@) =~= path_view(p@).take(i + 1));
        }
        i = i + 1;
    }
    proof {
        assert(path_view(p@).take(p@.len() as int) =~= path_view(p@));
    }
    r
}

/// Builds the destination path of an entry under a destination root.
fn dest_path(dest: &Vec<String>, entry_path: &Vec<String>) -> (r: Vec<String>)
    ensures
        path_view(r@) == spec_dest_path(path_view(dest@), path_view(entry_path@)),
{
    let ghost pv = path_view(entry_path@);
    let mut r = clone_components(dest);
    if entry_path.len() == 0 {
        proof {
            assert(path_view(r@) =~= path_view(dest@) + skip_first(pv));
        }
        return r;
    }
    let mut i: usize = 1;
    proof {
        assert(pv.subrange(1, 1) =~= Seq::<Seq<char>>::empty());
        assert(path_view(r@) =~= path_view(dest@) + pv.subrange(1, 1));
    }
    while i < entry_path.len()
        invariant
            1 <= i <= entry_path@.len(),
            pv == path_view(entry_path@),
            path_view(r@) =~= path_view(dest@) + pv.subrange(1, i as int),
        decreases entry_path@.len() - i,
    {
        let ghost r0 = r@;
        r.push(entry_path[i].clone());
        proof {
            assert(path_view(r@) =~= path_view(r0).push(pv[i as int]));
            assert(pv.subrange(1, i + 1) =~= pv.subrange(1, i as int).push(pv[i as int]));
            assert(path_view(r@) =~= path_view(dest@) + pv.subrange(1, i + 1));
        }
        i = i + 1;
    }
    proof {
        assert(pv.subrange(1, pv.len() as int) =~= skip_first(pv));
        assert(path_view(r@) =~= path_view(dest@) + skip_first(pv));
    }
    r
}

/// Plans the calls that carry out the action itself at one entry.
fn action_calls(entry: &FileEntry, action: &EntryAction) -> (r: Vec<OsCall>)
    ensures
        calls_view(r@) == spec_action_calls(entry@, action@),
{
    let mut calls: Vec<OsCall> = Vec::new();
    match action {
        EntryAction::ChangeMode(e) => {
            let p = clone_components(&entry.path);
            let m = apply(entry.mode, e);
            calls.push(OsCall::SetMode { path: p, mode: m });
        },
        EntryAction::ChangeOwner { uid, gid, from_uid, from_gid } => {
            let uid_ok = match from_uid {
                Some(u) => *u == entry.uid,
                None => true,
            };
            let gid_ok = match from_gid {
                Some(g) => *g == entry.gid,
                None => true,
            };
            if uid_ok && gid_ok {
                let p = clone_components(&entry.path);
                calls.push(OsCall::SetOwner { path: p, uid: *uid, gid: *gid });
            }
        },
        EntryAction::Remove => {
            let p = clone_components(&entry.path);
            if entry.kind == PathType::Directory {
                calls.push(OsCall::RemoveDir { path: p });
            } else {
                calls.push(OsCall::RemoveFile { path: p });
            }
        },
        EntryAction::Copy { dest, mode } => {
            let d = dest_path(dest, &entry.path);
            if entry.descended {
                calls.push(OsCall::CreateDir { path: d });
            } else {
                match mode {
                    CopyMode::Contents => {
                        let src = clone_components(&entry.path);
                        calls.push(OsCall::CopyFile { src, dst: d });
                    },
                    CopyMode::HardLink => {
                        let src = clone_components(&entry.path);
                        calls.push(OsCall::HardLink { src, dst: d });
                    },
                    CopyMode::SymbolicLink => {
                        let src = clone_components(&entry.path);
                        calls.push(OsCall::SymlinkFile { src, dst: d });
                    },
                    CopyMode::AttributesOnly => {},
                }
            }
        },
    }
    proof {
        assert(calls_view(calls@) =~= spec_action_calls(entry@, action@));
    }
    calls
}

/// Plans the calls that re-apply the preserved attributes at one entry.
fn preserve_calls(entry: &FileEntry, action: &EntryAction, preserve: Option<AttributeSet>) -> (r:
    Vec<OsCall>)
    ensures
        calls_view(r@) == spec_preserve_calls(entry@, action@, preserve),
{
    let mut calls: Vec<OsCall> = Vec::new();
    match preserve {
        None => {},
        Some(a) => {
            let d = match action {
                EntryAction::Copy { dest, .. } => dest_path(dest, &entry.path),
                _ => clone_components(&entry.path),
            };
            let ghost d_v = path_view(d@);
            let ghost seg1: Seq<OsCallView> = if a.mode {
                seq![OsCallView::SetMode { path: d_v, mode: entry@.mode & MODE_MASK }]
            } else {
                Seq::<OsCallView>::empty()
            };
            let ghost seg2: Seq<OsCallView> = if a.ownership {
                seq![
                    OsCallView::SetOwner {
                        path: d_v,
                        uid: Some(entry@.uid),
                        gid: Some(entry@.gid),
                    },
                ]
            } else {
                Seq::<OsCallView>::empty()
            };
            let ghost seg3: Seq<OsCallView> = if a.timestamps {
                seq![OsCallView::SetTimes { path: d_v, atime: entry@.atime, mtime: entry@.mtime }]
            } else {
                Seq::<OsCallView>::empty()
            };
            if a.mode {
                let p = clone_components(&d);
                calls.push(OsCall::SetMode { path: p, mode: entry.mode & MODE_MASK });
            }
            proof {
                assert(calls_view(calls@) =~= seg1);
            }
            if a.ownership {
                let p = clone_components(&d);
                calls.push(
                    OsCall::SetOwner { path: p, uid: Some(entry.uid), gid: Some(entry.gid) },
                );
            }
            proof {
                assert(calls_view(calls@) =~= seg1 + seg2);
            }
            if a.timestamps {
                let p = clone_components(&d);
                calls.push(OsCall::SetTimes { path: p, atime: entry.atime, mtime: entry.mtime });
            }
            proof {
                assert(calls_view(calls@) =~= seg1 + seg2 + seg3);
                assert(seg1 + seg2 + seg3 =~= spec_preserve_calls(entry@, action@, preserve));
            }
        },
    }
    proof {
        assert(calls_view(calls@) =~= spec_preserve_calls(entry@, action@, preserve));
    }
    calls
}

/// Dispatches one entry: decides whether the destructive action may
/// proceed, then plans the prompt, the action's call and the preserved
/// attributes, or stops the invocation on a no-clobber hit.
pub fn dispatch_entry(
    entry: &FileEntry,
    action: &EntryAction,
    cfg: &DestructiveConfig,
    dest_exists: bool,
    preserve: Option<AttributeSet>,
) -> (r: Result<Vec<OsCall>, TreeActionError>)
    ensures
        ({
            let s = spec_dispatch(entry@, action@, *cfg, dest_exists, preserve);
            match r {
                Ok(plan) => s == Ok::<Seq<OsCallView>, TreeActionError>(calls_view(plan@)),
                Err(e) => s == Err::<Seq<OsCallView>, TreeActionError>(e),
            }
        }),
{
    if entry.cycle {
        let p = clone_components(&entry.path);
        let mut calls: Vec<OsCall> = Vec::new();
        calls.push(OsCall::CycleWarning { path: p });
        proof {
            assert(calls_view(calls@) =~= seq![
                OsCallView::CycleWarning { path: entry@.path },
            ]);
        }
        return Ok(calls);
    }
    let gate = match action {
        EntryAction::Remove => {
            let wp = entry.mode & S_IWUSR == 0;
            evaluate_gate(cfg, true, wp)
        },
        EntryAction::Copy { .. } => evaluate_gate(cfg, dest_exists, false),
        _ => GateDecision::Proceed,
    };
    proof {
        assert(gate == spec_entry_gate(entry@, action@, *cfg, dest_exists));
    }
    if gate == GateDecision::Refuse {
        return Err(TreeActionError::NoClobberRefusal);
    }
    let ghost prompts_v = if gate is Prompt {
        match action@ {
            EntryActionView::Copy { dest, .. } => seq![
                OsCallView::PromptOverwrite { path: spec_dest_path(dest, entry@.path) },
            ],
            _ => seq![OsCallView::PromptRemove { path: entry@.path }],
        }
    } else {
        Seq::<OsCallView>::empty()
    };
    let mut calls: Vec<OsCall> = Vec::new();
    if gate == GateDecision::Prompt {
        match action {
            EntryAction::Copy { dest, .. } => {
                let d = dest_path(dest, &entry.path);
                calls.push(OsCall::PromptOverwrite { path: d });
            },
            _ => {
                let p = clone_components(&entry.path);
                calls.push(OsCall::PromptRemove { path: p });
            },
        }
    }
    proof {
        assert(calls_view(calls@) =~= prompts_v);
    }
    let ghost before_act = calls@;
    let mut act = action_calls(entry, action);
    let ghost act_seq = act@;
    calls.append(&mut act);
    proof {
        assert(calls_view(calls@) =~= calls_view(before_act) + calls_view(act_seq));
    }
    let ghost before_pres = calls@;
    let mut pres = preserve_calls(entry, action, preserve);
    let ghost pres_seq = pres@;
    calls.append(&mut pres);
    proof {
        assert(calls_view(calls@) =~= calls_view(before_pres) + calls_view(pres_seq));
        assert(calls_view(calls@) =~= prompts_v + spec_action_calls(entry@, action@)
            + spec_preserve_calls(entry@, action@, preserve));
    }
    Ok(calls)
}

/// The plan a sequence of entries yields, entry by entry; the first
/// refusal stops the whole invocation.
pub open spec fn spec_plan_entries(
    entries: Seq<FileEntryView>,
    action: EntryActionView,
    cfg: DestructiveConfig,
    dest_exists: bool,
    preserve: Option<AttributeSet>,
) -> Result<Seq<OsCallView>, TreeActionError>
    decreases entries.len(),
{
    if entries.len() == 0 {
        Ok(Seq::<OsCallView>::empty())
    } else {
        match spec_plan_entries(entries.drop_last(), action, cfg, dest_exists, preserve) {
            Err(e) => Err(e),
            Ok(calls) => match spec_dispatch(entries.last(), action, cfg, dest_exists, preserve) {
                Err(e) => Err(e),
                Ok(cs) => Ok(calls + cs),
            },
        }
    }
}

/// What a whole run yields: an immediate refusal when the root is `/`
/// under an active preserve-root policy, and otherwise the concatenated
/// plans of every entry the walk visits.
pub open spec fn spec_run_tree_action(
    root: FsNode,
    policy: TraversalPolicy,
    action: EntryActionView,
    cfg: DestructiveConfig,
    dest_exists: bool,
    preserve: Option<AttributeSet>,
) -> Result<Seq<OsCallView>, TreeActionError> {
    if policy.preserve_root && root.name@ == seq!['/'] {
        Err(TreeActionError::PreserveRootRefusal)
    } else {
        spec_plan_entries(spec_walk(root, policy), action, cfg, dest_exists, preserve)
    }
}

/// Walks the snapshot and plans the whole run: the preserve-root refusal
/// comes before any walk, a no-clobber hit stops everything, and otherwise
/// the plan lists, for every visited entry in walk order, its prompt, its
/// action call and its preserved attributes.
pub fn run_tree_action(
    root: &FsNode,
    policy: &TraversalPolicy,
    action: &EntryAction,
    cfg: &DestructiveConfig,
    dest_exists: bool,
    preserve: Option<AttributeSet>,
) -> (r: Result<Vec<OsCall>, TreeActionError>)
    ensures
        ({
            let s = spec_run_tree_action(*root, *policy, action@, *cfg, dest_exists, preserve);
            match r {
                Ok(plan) => s == Ok::<Seq<OsCallView>, TreeActionError>(calls_view(plan@)),
                Err(e) => s == Err::<Seq<OsCallView>, TreeActionError>(e),
            }
        }),
{
    let nm = root.name.as_str();
    let is_slash = if nm.unicode_len() == 1 {
        nm.get_char(0) == '/'
    } else {
        false
    };
    proof {
        assert(is_slash == (root.name@ == seq!['/'])) by {
            if root.name@ == seq!['/'] {
                assert(root.name@.len() == 1);
            }
            if is_slash {
                assert(root.name@ =~= seq!['/']);
            }
        }
    }
    if policy.preserve_root && is_slash {
        return Err(TreeActionError::PreserveRootRefusal);
    }
    let entries = walk(root, policy);
    let ghost evs = spec_walk(*root, *policy);
    let mut plan: Vec<OsCall> = Vec::new();
    proof {
        assert(evs.take(0) =~= Seq::<FileEntryView>::empty());
        assert(calls_view(plan@) =~= Seq::<OsCallView>::empty());
    }
    let mut i: usize = 0;
    while i < entries.len()
        invariant
            i <= entries@.len(),
            entries_view(entries@) == evs,
            evs == spec_walk(*root, *policy),
            !(policy.preserve_root && root.name@ == seq!['/']),
            spec_plan_entries(evs.take(i as int), action@, *cfg, dest_exists, preserve) == Ok::<
                Seq<OsCallView>,
                TreeActionError,
            >(calls_view(plan@)),
        decreases entries@.len() - i,
    {
        proof {
            assert(evs.take(i + 1).drop_last() =~= evs.take(i as int));
            assert(evs.take(i + 1).last() == evs[i as int]);
            assert(entries@[i as int]@ == evs[i as int]);
        }
        match dispatch_entry(&entries[i], action, cfg, dest_exists, preserve) {
            Err(e) => {
                proof {
                    assert(spec_dispatch(evs[i as int], action@, *cfg, dest_exists, preserve)
                        == Err::<Seq<OsCallView>, TreeActionError>(e));
                    lemma_plan_extends_err(evs, i as int, action@, *cfg, dest_exists, preserve);
                    assert(spec_plan_entries(evs, action@, *cfg, dest_exists, preserve) == Err::<
                        Seq<OsCallView>,
                        TreeActionError,
                    >(e));
                }
                return Err(e);
            },
            Ok(mut cs) => {
                let ghost plan0 = plan@;
                let ghost cs0 = cs@;
                plan.append(&mut cs);
                proof {
                    assert(calls_view(plan@) =~= calls_view(plan0) + calls_view(cs0));
                }
            },
        }
        i = i + 1;
    }
    proof {
        assert(evs.take(evs.len() as int) =~= evs);
    }
    Ok(plan)
}

/// Once one entry refuses, the plan over any longer prefix refuses with
/// the same error.
proof fn lemma_plan_extends_err(
    entries: Seq<FileEntryView>,
    i: int,
    action: EntryActionView,
    cfg: DestructiveConfig,
    dest_exists: bool,
    preserve: Option<AttributeSet>,
)
    requires
        0 <= i < entries.len(),
        spec_plan_entries(entries.take(i), action, cfg, dest_exists, preserve) is Ok,
        spec_dispatch(entries[i], action, cfg, dest_exists, preserve) is Err,
    ensures
        spec_plan_entries(entries, action, cfg, dest_exists, preserve) == Err::<
            Seq<OsCallView>,
            TreeActionError,
        >(spec_dispatch(entries[i], action, cfg, dest_exists, preserve)->Err_0),
    decreases entries.len(),
{
    assert(entries.take(i + 1).drop_last() =~= entries.take(i));
    assert(entries.take(i + 1).last() == entries[i]);
    if i + 1 == entries.len() {
        assert(entries.take(i + 1) =~= entries);
    } else {
        assert(entries.drop_last().take(i) =~= entries.take(i));
        assert(entries.drop_last()[i] == entries[i]);
        lemma_plan_extends_err(entries.drop_last(), i, action, cfg, dest_exists, preserve);
    }
}

/// With the no-clobber flag set, an existing destination and no overriding
/// force or never-prompt flag, dispatching a copy refuses outright: the
/// plan holds no call at all.
pub proof fn lemma_no_clobber_refuses(
    entry: FileEntryView,
    action: EntryActionView,
    cfg: DestructiveConfig,
    preserve: Option<AttributeSet>,
)
    requires
        !entry.cycle,
        action is Copy,
        cfg.no_clobber,
        !cfg.force,
        cfg.interactive_when != Some(When::Never),
    ensures
        spec_dispatch(entry, action, cfg, true, preserve) == Err::<
            Seq<OsCallView>,
            TreeActionError,
        >(TreeActionError::NoClobberRefusal),
{
}

/// With the preserve-root policy active, a run rooted at `/` refuses
/// before walking: no call is planned for any action.
pub proof fn lemma_preserve_root_refusal(
    root: FsNode,
    policy: TraversalPolicy,
    action: EntryActionView,
    cfg: DestructiveConfig,
    dest_exists: bool,
    preserve: Option<AttributeSet>,
)
    requires
        policy.preserve_root,
        root.name@ == seq!['/'],
    ensures
        spec_run_tree_action(root, policy, action, cfg, dest_exists, preserve) == Err::<
            Seq<OsCallView>,
            TreeActionError,
        >(TreeActionError::PreserveRootRefusal),
{
}

} // verus!
