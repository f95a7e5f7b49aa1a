//! Deciding what to do to the filesystem.
//!
//! Each function here takes what was seen at a path and answers with an
//! outcome and the operations that bring it about. In test mode the outcome is
//! the same and the operations are none.

use crate::entry::EntryKind;
use crate::path::{optional_path, path_models, FilePath, PathModel};
use vstd::prelude::*;

verus! {

/// An operation on the filesystem, for the caller to carry out.
#[derive(Debug, PartialEq)]
pub enum FsOp {
    /// Create the directory and any parent that is missing; no error if it
    /// is there already.
    CreateDirAll { path: FilePath },
    /// Create a symbolic link at `link` that points at `target`.
    Symlink { link: FilePath, target: FilePath },
    /// Remove one file or symbolic link.
    RemoveFile { path: FilePath },
    /// Remove a directory with all that is in it.
    RemoveDirAll { path: FilePath },
    /// Move `from` to `to`.
    Rename { from: FilePath, to: FilePath },
}

/// An operation in specifications.
pub enum FsOpModel {
    CreateDirAll { path: PathModel },
    Symlink { link: PathModel, target: PathModel },
    RemoveFile { path: PathModel },
    RemoveDirAll { path: PathModel },
    Rename { from: PathModel, to: PathModel },
}

impl View for FsOp {
    type V = FsOpModel;

    open spec fn view(&self) -> FsOpModel {
        match self {
            FsOp::CreateDirAll { path } => FsOpModel::CreateDirAll { path: path@ },
            FsOp::Symlink { link, target } => FsOpModel::Symlink { link: link@, target: target@ },
            FsOp::RemoveFile { path } => FsOpModel::RemoveFile { path: path@ },
            FsOp::RemoveDirAll { path } => FsOpModel::RemoveDirAll { path: path@ },
            FsOp::Rename { from, to } => FsOpModel::Rename { from: from@, to: to@ },
        }
    }
}

/// The views of a list of operations.
pub open spec fn op_models(ops: Seq<FsOp>) -> Seq<FsOpModel> {
    Seq::new(ops.len(), |i: int| ops[i]@)
}

/// What was seen at a path.
#[derive(Debug, PartialEq)]
pub struct Observation {
    /// What stands there, a symbolic link counting as itself; `None` if
    /// nothing does.
    pub kind: Option<EntryKind>,
    /// The canonical path, all symbolic links resolved; `None` if it could not
    /// be determined, as for a link whose target is missing.
    pub resolved: Option<FilePath>,
}

/// An observation in specifications.
pub struct ObservationModel {
    pub kind: Option<EntryKind>,
    pub resolved: Option<PathModel>,
}

impl View for Observation {
    type V = ObservationModel;

    open spec fn view(&self) -> ObservationModel {
        ObservationModel { kind: self.kind, resolved: optional_path(self.resolved) }
    }
}

/// The operation that removes what was seen: a directory goes with all that
/// is in it, anything else singly.
pub open spec fn removal_op(path: PathModel, kind: Option<EntryKind>) -> FsOpModel {
    if kind == Some(EntryKind::Directory) {
        FsOpModel::RemoveDirAll { path }
    } else {
        FsOpModel::RemoveFile { path }
    }
}

pub(crate) fn remove(path: &FilePath, kind: Option<EntryKind>) -> (op: FsOp)
    ensures
        op@ == removal_op(path@, kind),
{
    match kind {
        Some(EntryKind::Directory) => FsOp::RemoveDirAll { path: path.clone() },
        _ => FsOp::RemoveFile { path: path.clone() },
    }
}

/// The operations that make sure that each of `dirs` exists.
pub open spec fn directory_ops(dirs: Seq<PathModel>) -> Seq<FsOpModel> {
    Seq::new(dirs.len(), |i: int| FsOpModel::CreateDirAll { path: dirs[i] })
}

/// Plans the creation of the directories `dirs`, parents included. Every one
/// is to be attempted, whether or not another fails. In test mode nothing is
/// to be done.
pub fn ensure_directories(dirs: &Vec<FilePath>, test_mode: bool) -> (ops: Vec<FsOp>)
    ensures
        op_models(ops@) == if test_mode {
            Seq::<FsOpModel>::empty()
        } else {
            directory_ops(path_models(dirs@))
        },
{
    let mut ops: Vec<FsOp> = Vec::new();
    if test_mode {
        assert(op_models(ops@) =~= Seq::<FsOpModel>::empty());
        return ops;
    }
    let mut i: usize = 0;
    while i < dirs.len()
        invariant
            i <= dirs.len(),
            ops.len() == i,
            forall|k: int| 0 <= k < i ==> ops[k]@ == (FsOpModel::CreateDirAll { path: dirs[k]@ }),
        decreases dirs.len() - i,
    {
        ops.push(FsOp::CreateDirAll { path: dirs[i].clone() });
        i += 1;
    }
    assert(op_models(ops@) =~= directory_ops(path_models(dirs@)));
    ops
}

/// How the attempt to link one destination ends.
#[derive(Clone, Copy, Debug, PartialEq, Eq, Structural)]
pub enum LinkOutcome {
    /// Nothing stood at the destination: the link is created.
    Created,
    /// The destination is a symbolic link that resolves to the source
    /// already: nothing to do.
    AlreadyLinked,
    /// Something else stood at the destination and is replaced by the link,
    /// as `force` allows.
    Replaced,
    /// Something else stands at the destination and stays untouched: the link
    /// cannot be made.
    Conflict,
}

/// The decision on one destination: how it ends and what is to be done.
#[derive(Debug)]
pub struct LinkDecision {
    pub outcome: LinkOutcome,
    pub ops: Vec<FsOp>,
}

/// Whether what was seen at a destination is a symbolic link that resolves to
/// the same place as the source does.
pub open spec fn points_at(seen: ObservationModel, source_resolved: Option<PathModel>) -> bool {
    seen.kind == Some(EntryKind::Symlink) && seen.resolved is Some && seen.resolved
        == source_resolved
}

/// How linking a destination ends, given what was seen there.
pub open spec fn link_outcome(
    seen: ObservationModel,
    source_resolved: Option<PathModel>,
    force: bool,
) -> LinkOutcome {
    if seen.kind is None {
        LinkOutcome::Created
    } else if points_at(seen, source_resolved) {
        LinkOutcome::AlreadyLinked
    } else if force {
        LinkOutcome::Replaced
    } else {
        LinkOutcome::Conflict
    }
}

/// The operations that linking a destination takes outside test mode.
pub open spec fn link_ops(
    destination: PathModel,
    source: PathModel,
    seen: ObservationModel,
    source_resolved: Option<PathModel>,
    force: bool,
) -> Seq<FsOpModel> {
    match link_outcome(seen, source_resolved, force) {
        LinkOutcome::Created => seq![FsOpModel::Symlink { link: destination, target: source }],
        LinkOutcome::AlreadyLinked => Seq::empty(),
        LinkOutcome::Replaced => seq![
            removal_op(destination, seen.kind),
            FsOpModel::Symlink { link: destination, target: source },
        ],
        LinkOutcome::Conflict => Seq::empty(),
    }
}

/// Whether two paths that may be missing are both there and the same.
fn same_resolved(a: &Option<FilePath>, b: &Option<FilePath>) -> (same: bool)
    ensures
        same == (optional_path(*a) is Some && optional_path(*a) == optional_path(*b)),
{
    match a {
        Some(x) => match b {
            Some(y) => *x == *y,
            None => false,
        },
        None => false,
    }
}

/// Decides how `destination` becomes a symbolic link to `source`. `seen` is
/// what stands at `destination` now, `source_resolved` the canonical path of
/// `source`.
///
/// Nothing there: the link is created. A symbolic link that resolves to where
/// the source resolves: nothing to do, and this counts as success. Anything
/// else: a conflict that leaves it untouched, unless `force` is set, in which
/// case it is removed and the link created. In test mode the outcome is the
/// same and no operation is handed out.
pub fn create_link(
    destination: &FilePath,
    source: &FilePath,
    seen: &Observation,
    source_resolved: &Option<FilePath>,
    force: bool,
    test_mode: bool,
) -> (decision: LinkDecision)
    ensures
        decision.outcome == link_outcome(seen@, optional_path(*source_resolved), force),
        op_models(decision.ops@) == if test_mode {
            Seq::<FsOpModel>::empty()
        } else {
            link_ops(destination@, source@, seen@, optional_path(*source_resolved), force)
        },
{
    let mut ops: Vec<FsOp> = Vec::new();
    let outcome = if seen.kind.is_none() {
        LinkOutcome::Created
    } else if is_symlink(seen.kind) && same_resolved(&seen.resolved, source_resolved) {
        LinkOutcome::AlreadyLinked
    } else if force {
        LinkOutcome::Replaced
    } else {
        LinkOutcome::Conflict
    };
    if !test_mode {
        match outcome {
            LinkOutcome::Created => {
                ops.push(FsOp::Symlink { link: destination.clone(), target: source.clone() });
            },
            LinkOutcome::Replaced => {
                ops.push(remove(destination, seen.kind));
                ops.push(FsOp::Symlink { link: destination.clone(), target: source.clone() });
            },
            _ => {},
        }
    }
    assert(op_models(ops@) =~= if test_mode {
        Seq::<FsOpModel>::empty()
    } else {
        link_ops(destination@, source@, seen@, optional_path(*source_resolved), force)
    });
    LinkDecision { outcome, ops }
}

fn is_symlink(kind: Option<EntryKind>) -> (yes: bool)
    ensures
        yes == (kind == Some(EntryKind::Symlink)),
{
    match kind {
        Some(EntryKind::Symlink) => true,
        _ => false,
    }
}

/// How the attempt to remove one destination ends.
#[derive(Clone, Copy, Debug, PartialEq, Eq, Structural)]
pub enum RemovalOutcome {
    /// Nothing stands at the destination: nothing to do.
    Absent,
    /// What stands there resolves to a place outside the package, and stays.
    NotOwned,
    /// What stands there is removed.
    Removed,
}

/// The decision on one destination: how it ends and what is to be done.
#[derive(Debug)]
pub struct RemovalDecision {
    pub outcome: RemovalOutcome,
    pub ops: Vec<FsOp>,
}

/// How removing a destination ends, given what was seen there. What resolves
/// to a place that is not under the package's base directory stays, unless
/// `force` is set. Where the canonical path could not be determined, the
/// removal goes ahead.
pub open spec fn removal_outcome(seen: ObservationModel, package_base: PathModel, force: bool) -> RemovalOutcome {
    if seen.kind is None {
        RemovalOutcome::Absent
    } else if seen.resolved is Some && !package_base.is_prefix_of(seen.resolved->0) && !force {
        RemovalOutcome::NotOwned
    } else {
        RemovalOutcome::Removed
    }
}

/// The operations that removing a destination takes outside test mode.
pub open spec fn removal_ops(
    destination: PathModel,
    seen: ObservationModel,
    package_base: PathModel,
    force: bool,
) -> Seq<FsOpModel> {
    if removal_outcome(seen, package_base, force) == RemovalOutcome::Removed {
        seq![removal_op(destination, seen.kind)]
    } else {
        Seq::empty()
    }
}

/// Decides whether `destination` is removed. `seen` is what stands there now.
///
/// Nothing there: nothing to do. Something whose canonical path does not lie
/// under `package_base`: it stays, unless `force` is set. Otherwise it is
/// removed, a directory with all that is in it. In test mode the outcome is
/// the same and no operation is handed out.
pub fn remove_link_if_owned(
    destination: &FilePath,
    package_base: &FilePath,
    seen: &Observation,
    force: bool,
    test_mode: bool,
) -> (decision: RemovalDecision)
    ensures
        decision.outcome == removal_outcome(seen@, package_base@, force),
        op_models(decision.ops@) == if test_mode {
            Seq::<FsOpModel>::empty()
        } else {
            removal_ops(destination@, seen@, package_base@, force)
        },
{
    let mut ops: Vec<FsOp> = Vec::new();
    let outcome = if seen.kind.is_none() {
        RemovalOutcome::Absent
    } else if !force && lies_outside(&seen.resolved, package_base) {
        RemovalOutcome::NotOwned
    } else {
        RemovalOutcome::Removed
    };
    if !test_mode {
        match outcome {
            RemovalOutcome::Removed => {
                ops.push(remove(destination, seen.kind));
            },
            _ => {},
        }
    }
    assert(op_models(ops@) =~= if test_mode {
        Seq::<FsOpModel>::empty()
    } else {
        removal_ops(destination@, seen@, package_base@, force)
    });
    RemovalDecision { outcome, ops }
}

/// Whether a canonical path is known and does not lie under `base`.
fn lies_outside(resolved: &Option<FilePath>, base: &FilePath) -> (outside: bool)
    ensures
        outside == (optional_path(*resolved) is Some && !base@.is_prefix_of(
            optional_path(*resolved)->0,
        )),
{
    match resolved {
        Some(path) => !path.starts_with(base),
        None => false,
    }
}

/// What is seen at a destination once the operations of its link decision
/// have been carried out with success: where a link was made, a symbolic link
/// that resolves to where the source resolves; otherwise what was there.
pub open spec fn seen_after_linking(
    seen: ObservationModel,
    source_resolved: Option<PathModel>,
    force: bool,
) -> ObservationModel {
    match link_outcome(seen, source_resolved, force) {
        LinkOutcome::Created | LinkOutcome::Replaced => ObservationModel {
            kind: Some(EntryKind::Symlink),
            resolved: source_resolved,
        },
        LinkOutcome::AlreadyLinked | LinkOutcome::Conflict => seen,
    }
}

/// Linking is idempotent. Once a destination has been linked with success to
/// a source that resolves, linking it again with the same inputs finds it
/// already linked and asks for no operation.
pub proof fn lemma_relinking_does_nothing(
    destination: PathModel,
    source: PathModel,
    seen: ObservationModel,
    source_resolved: Option<PathModel>,
    force: bool,
)
    requires
        source_resolved is Some,
        link_outcome(seen, source_resolved, force) != LinkOutcome::Conflict,
    ensures
        link_outcome(seen_after_linking(seen, source_resolved, force), source_resolved, force)
            == LinkOutcome::AlreadyLinked,
        link_ops(
            destination,
            source,
            seen_after_linking(seen, source_resolved, force),
            source_resolved,
            force,
        ) == Seq::<FsOpModel>::empty(),
{
}

/// Removal is safe. Without `force`, what resolves to a place outside the
/// package's base directory is never removed: the outcome is not a removal
/// and no operation is asked for.
pub proof fn lemma_removal_spares_foreign(
    destination: PathModel,
    seen: ObservationModel,
    package_base: PathModel,
)
    requires
        seen.resolved is Some,
        !package_base.is_prefix_of(seen.resolved->0),
    ensures
        removal_outcome(seen, package_base, false) != RemovalOutcome::Removed,
        removal_ops(destination, seen, package_base, false) == Seq::<FsOpModel>::empty(),
{
}

} // verus!
