//! Working through the packages of an invocation.
//!
//! The runner holds no loop of its own. It says what is pending: a question to
//! the user, a stage of a package's pipeline, or the end. Whoever drives it
//! carries that out and reports whether it went well, and the runner moves on.
//! A stage that fails ends its package and marks the whole run as failed, and
//! the next package is still worked on. A package that the user declines is
//! left out and is no failure.

use crate::args::{Args, ArgsModel};
use crate::layout::{
    files_dir, files_root, hooks_dir, hooks_root, package_base, package_dir, Layer, LayerModel,
    Phase,
};
use crate::path::{FilePath, PathModel};
use crate::pipeline::{following, stages_left, Mode, Stage};
use crate::sync::{op_models, removal_op, FsOp, FsOpModel, Observation, ObservationModel};
use vstd::prelude::*;

verus! {

/// What the driver is to do next.
#[derive(Clone, Copy, Debug, PartialEq, Eq, Structural)]
pub enum Pending {
    /// Ask whether to go on with the package at this position.
    Confirm { package: usize },
    /// Carry out this stage for the package at this position.
    Run { package: usize, stage: Stage },
    /// Nothing: the run is over, with this result.
    Finished { success: bool },
}

/// How far a run has come.
#[derive(Clone, Copy, Debug, PartialEq, Eq, Structural)]
pub struct Progress {
    pub pending: Pending,
    /// Whether a stage has failed so far.
    pub failed: bool,
}

/// Whether the user is asked before a package is worked on: not in test mode
/// and not where confirmation was switched off.
pub open spec fn asks_first(args: ArgsModel) -> bool {
    !args.no_confirm && !args.test
}

/// The state in which the package at position `package` is taken up, or the
/// end of the run if there is no such package.
pub open spec fn taking_up(args: ArgsModel, package: int, failed: bool) -> Progress {
    if package >= args.packages.len() {
        Progress { pending: Pending::Finished { success: !failed }, failed }
    } else if asks_first(args) {
        Progress { pending: Pending::Confirm { package: package as usize }, failed }
    } else {
        Progress { pending: Pending::Run { package: package as usize, stage: Stage::PreHooks }, failed }
    }
}

/// The position after `package`, no further than the end of the list.
pub open spec fn position_after(args: ArgsModel, package: usize) -> int {
    if package < args.packages.len() {
        package + 1
    } else {
        args.packages.len() as int
    }
}

/// The state that follows `progress` once what was pending has been carried
/// out, `ok` saying whether the user agreed or the stage succeeded.
pub open spec fn advanced(args: ArgsModel, mode: Mode, progress: Progress, ok: bool) -> Progress {
    match progress.pending {
        Pending::Finished { .. } => progress,
        Pending::Confirm { package } => if ok {
            Progress { pending: Pending::Run { package, stage: Stage::PreHooks }, ..progress }
        } else {
            taking_up(args, position_after(args, package), progress.failed)
        },
        Pending::Run { package, stage } => if !ok {
            taking_up(args, position_after(args, package), true)
        } else {
            match following(mode, stage) {
                Some(next) => Progress { pending: Pending::Run { package, stage: next }, ..progress },
                None => taking_up(args, position_after(args, package), progress.failed),
            }
        },
    }
}

/// How many more reports the driver can be asked for at most.
pub open spec fn work_left(args: ArgsModel, mode: Mode, progress: Progress) -> nat {
    match progress.pending {
        Pending::Finished { .. } => 0,
        Pending::Confirm { package } => ((args.packages.len() - position_after(args, package)) * 6
            + 5) as nat,
        Pending::Run { package, stage } => ((args.packages.len() - position_after(args, package))
            * 6 + stages_left(mode, stage)) as nat,
    }
}

/// The directories of one kind, one per tier of a package.
#[derive(Debug)]
pub struct LayerPaths {
    pub global: FilePath,
    pub host: FilePath,
    /// One per active tag, in the order of the tags.
    pub tags: Vec<FilePath>,
}

/// Works through the packages of an invocation.
#[derive(Debug)]
pub struct Runner<'a> {
    pub args: &'a Args,
}

impl<'a> Runner<'a> {
    /// A runner for the invocation that `args` describes.
    pub fn new(args: &Args) -> (runner: Runner<'_>)
        ensures
            runner.args == args,
    {
        Runner { args }
    }

    /// Whether the user is asked before a package is worked on.
    pub fn needs_confirmation(&self) -> (ask: bool)
        ensures
            ask == asks_first(self.args@),
    {
        !self.args.no_confirm && !self.args.test
    }

    fn take_up(&self, package: usize, failed: bool) -> (progress: Progress)
        ensures
            progress == taking_up(self.args@, package as int, failed),
    {
        if package >= self.args.packages.len() {
            Progress { pending: Pending::Finished { success: !failed }, failed }
        } else if self.needs_confirmation() {
            Progress { pending: Pending::Confirm { package }, failed }
        } else {
            Progress { pending: Pending::Run { package, stage: Stage::PreHooks }, failed }
        }
    }

    fn after(&self, package: usize) -> (next: usize)
        ensures
            next == position_after(self.args@, package),
    {
        if package < self.args.packages.len() {
            package + 1
        } else {
            self.args.packages.len()
        }
    }

    /// The state in which a run starts: the first package is taken up, or the
    /// run is over where there is none.
    pub fn begin(&self) -> (progress: Progress)
        ensures
            progress == taking_up(self.args@, 0, false),
    {
        self.take_up(0, false)
    }

    fn advance(&self, mode: Mode, progress: &Progress, ok: bool) -> (next: Progress)
        ensures
            next == advanced(self.args@, mode, *progress, ok),
            !(progress.pending is Finished) ==> work_left(self.args@, mode, next) < work_left(
                self.args@,
                mode,
                *progress,
            ),
            progress.failed ==> next.failed,
    {
        match progress.pending {
            Pending::Finished { .. } => *progress,
            Pending::Confirm { package } => {
                if ok {
                    Progress {
                        pending: Pending::Run { package, stage: Stage::PreHooks },
                        failed: progress.failed,
                    }
                } else {
                    self.take_up(self.after(package), progress.failed)
                }
            },
            Pending::Run { package, stage } => {
                if !ok {
                    self.take_up(self.after(package), true)
                } else {
                    match stage.next(mode) {
                        Some(next) => Progress {
                            pending: Pending::Run { package, stage: next },
                            failed: progress.failed,
                        },
                        None => self.take_up(self.after(package), progress.failed),
                    }
                }
            },
        }
    }

    /// Installing: the state that follows `progress` once what was pending
    /// has been carried out. `ok` says whether the user agreed to the package,
    /// or whether the stage succeeded. A package goes through its hooks before
    /// linking, the creation of directories, the links, and its hooks after
    /// linking. A stage that fails ends the package and fails the run; the
    /// next package is taken up all the same.
    pub fn install(&self, progress: &Progress, ok: bool) -> (next: Progress)
        ensures
            next == advanced(self.args@, Mode::Install, *progress, ok),
            !(progress.pending is Finished) ==> work_left(self.args@, Mode::Install, next)
                < work_left(self.args@, Mode::Install, *progress),
            progress.failed ==> next.failed,
    {
        self.advance(Mode::Install, progress, ok)
    }

    /// Uninstalling: the state that follows `progress` once what was pending
    /// has been carried out. `ok` says whether the user agreed to the package,
    /// or whether the stage succeeded. A package goes through its hooks before
    /// unlinking, the working out of its destinations, their removal, and its
    /// hooks after unlinking. A stage that fails ends the package and fails
    /// the run; the next package is taken up all the same.
    pub fn uninstall(&self, progress: &Progress, ok: bool) -> (next: Progress)
        ensures
            next == advanced(self.args@, Mode::Uninstall, *progress, ok),
            !(progress.pending is Finished) ==> work_left(self.args@, Mode::Uninstall, next)
                < work_left(self.args@, Mode::Uninstall, *progress),
            progress.failed ==> next.failed,
    {
        self.advance(Mode::Uninstall, progress, ok)
    }
}

/// The hook directories of `phase` for a package, one per tier.
pub open spec fn hook_dirs_of(args: ArgsModel, package: Seq<char>, phase: Phase, paths: LayerPaths) -> bool {
    let base = package_dir(args.dir, package);
    &&& paths.global@ == hooks_dir(base, LayerModel::Global, phase)
    &&& paths.host@ == hooks_dir(base, LayerModel::Host(args.hostname), phase)
    &&& paths.tags@.len() == args.tags.len()
    &&& forall|i: int|
        0 <= i < args.tags.len() ==> (#[trigger] paths.tags@[i])@ == hooks_dir(
            base,
            LayerModel::Tag(args.tags[i]),
            phase,
        )
}

/// The roots of the file trees of a package, one per tier.
pub open spec fn file_roots_of(args: ArgsModel, package: Seq<char>, paths: LayerPaths) -> bool {
    let base = package_dir(args.dir, package);
    &&& paths.global@ == files_dir(base, LayerModel::Global)
    &&& paths.host@ == files_dir(base, LayerModel::Host(args.hostname))
    &&& paths.tags@.len() == args.tags.len()
    &&& forall|i: int|
        0 <= i < args.tags.len() ==> (#[trigger] paths.tags@[i])@ == files_dir(
            base,
            LayerModel::Tag(args.tags[i]),
        )
}

impl<'a> Runner<'a> {
    /// The base directory of a package: the directory of its name in the
    /// repository.
    pub fn package_base(&self, package: &str) -> (base: FilePath)
        ensures
            base@ == package_dir(self.args@.dir, package@),
    {
        package_base(&self.args.dir, package)
    }

    /// Where the hooks of `phase` are looked for: in the package's own hook
    /// directory, in that of the host, and in that of each active tag.
    pub fn hook_dirs(&self, package: &str, phase: Phase) -> (paths: LayerPaths)
        ensures
            hook_dirs_of(self.args@, package@, phase, paths),
    {
        let base = package_base(&self.args.dir, package);
        let global = hooks_root(&base, &Layer::Global, phase);
        let host = hooks_root(&base, &Layer::Host(self.args.hostname.clone()), phase);
        let mut tags: Vec<FilePath> = Vec::new();
        let mut i: usize = 0;
        while i < self.args.tags.len()
            invariant
                i <= self.args.tags.len(),
                tags.len() == i,
                base@ == package_dir(self.args@.dir, package@),
                forall|k: int|
                    0 <= k < i ==> (#[trigger] tags@[k])@ == hooks_dir(
                        base@,
                        LayerModel::Tag(self.args@.tags[k]),
                        phase,
                    ),
            decreases self.args.tags.len() - i,
        {
            let dir = hooks_root(&base, &Layer::Tag(self.args.tags[i].clone()), phase);
            tags.push(dir);
            i += 1;
        }
        LayerPaths { global, host, tags }
    }

    /// Where the files of a package are looked for: under the package's own
    /// file tree, under that of the host, and under that of each active tag.
    pub fn file_roots(&self, package: &str) -> (paths: LayerPaths)
        ensures
            file_roots_of(self.args@, package@, paths),
    {
        let base = package_base(&self.args.dir, package);
        let global = files_root(&base, &Layer::Global);
        let host = files_root(&base, &Layer::Host(self.args.hostname.clone()));
        let mut tags: Vec<FilePath> = Vec::new();
        let mut i: usize = 0;
        while i < self.args.tags.len()
            invariant
                i <= self.args.tags.len(),
                tags.len() == i,
                base@ == package_dir(self.args@.dir, package@),
                forall|k: int|
                    0 <= k < i ==> (#[trigger] tags@[k])@ == files_dir(
                        base@,
                        LayerModel::Tag(self.args@.tags[k]),
                    ),
            decreases self.args.tags.len() - i,
        {
            let dir = files_root(&base, &Layer::Tag(self.args.tags[i].clone()));
            tags.push(dir);
            i += 1;
        }
        LayerPaths { global, host, tags }
    }
}

/// Why a file cannot be added.
#[derive(Clone, Copy, Debug, PartialEq, Eq, Structural)]
pub enum AddError {
    /// The invocation carries no arguments for adding.
    NothingToAdd,
    /// The file does not lie in the target directory.
    OutsideTarget,
}

/// How adding a file ends.
#[derive(Clone, Copy, Debug, PartialEq, Eq, Structural)]
pub enum AddOutcome {
    /// The file moves into the repository and a link takes its place.
    Moved,
    /// The same, after what stood at its place in the repository has been
    /// removed, as `force` allows.
    Overwritten,
    /// Something stands at its place in the repository and stays: nothing is
    /// done.
    Refused,
}

/// The decision on adding a file: how it ends and what is to be done.
#[derive(Debug)]
pub struct AddDecision {
    pub outcome: AddOutcome,
    pub ops: Vec<FsOp>,
}

/// Where in the repository a file to add belongs: in the file tree of the
/// package's global tier, or of the host's tier where that was asked for, at
/// the path that the file has relative to the target directory.
pub open spec fn add_place(args: ArgsModel) -> Result<PathModel, AddError> {
    match args.add_args {
        None => Err(AddError::NothingToAdd),
        Some(add) => {
            let base = package_dir(args.dir, add.package);
            let layer = if add.host_specific {
                LayerModel::Host(args.hostname)
            } else {
                LayerModel::Global
            };
            if args.target_dir.is_prefix_of(add.filename) {
                Ok(files_dir(base, layer) + add.filename.skip(args.target_dir.len() as int))
            } else {
                Err(AddError::OutsideTarget)
            }
        },
    }
}

/// How adding ends, given what was seen at the file's place in the
/// repository.
pub open spec fn add_outcome(seen: ObservationModel, force: bool) -> AddOutcome {
    if seen.kind is None {
        AddOutcome::Moved
    } else if force {
        AddOutcome::Overwritten
    } else {
        AddOutcome::Refused
    }
}

/// The operations that adding `filename` at `place` takes outside test mode:
/// what is in the way goes, the directory of `place` is made, the file moves
/// there, and a link to it is left where it was.
pub open spec fn add_ops(filename: PathModel, place: PathModel, seen: ObservationModel, force: bool) -> Seq<
    FsOpModel,
> {
    let moving = seq![
        FsOpModel::CreateDirAll { path: place.drop_last() },
        FsOpModel::Rename { from: filename, to: place },
        FsOpModel::Symlink { link: filename, target: place },
    ];
    match add_outcome(seen, force) {
        AddOutcome::Moved => moving,
        AddOutcome::Overwritten => seq![removal_op(place, seen.kind)] + moving,
        AddOutcome::Refused => Seq::empty(),
    }
}

impl<'a> Runner<'a> {
    /// Where in the repository the file to add belongs.
    pub fn add_destination(&self) -> (place: Result<FilePath, AddError>)
        ensures
            place is Ok <==> add_place(self.args@) is Ok,
            place matches Ok(p) ==> add_place(self.args@) == Ok::<PathModel, AddError>(p@),
            place matches Err(e) ==> add_place(self.args@) == Err::<PathModel, AddError>(e),
    {
        match &self.args.add_args {
            None => Err(AddError::NothingToAdd),
            Some(add) => {
                let base = package_base(&self.args.dir, add.package.as_str());
                let root = if add.host_specific {
                    files_root(&base, &Layer::Host(self.args.hostname.clone()))
                } else {
                    files_root(&base, &Layer::Global)
                };
                match add.filename.strip_prefix(&self.args.target_dir) {
                    Some(relative) => Ok(root.join(&relative)),
                    None => Err(AddError::OutsideTarget),
                }
            },
        }
    }

    /// Decides how the file is added. `seen` is what stands at its place in
    /// the repository now. If something does, nothing is done unless `force`
    /// is set, in which case it is removed first. In test mode the outcome is
    /// the same and no operation is handed out.
    pub fn add(&self, seen: &Observation) -> (decision: Result<AddDecision, AddError>)
        ensures
            decision is Ok <==> add_place(self.args@) is Ok,
            decision matches Err(e) ==> add_place(self.args@) == Err::<PathModel, AddError>(e),
            decision matches Ok(d) ==> d.outcome == add_outcome(seen@, self.args@.force)
                && op_models(d.ops@) == if self.args@.test {
                Seq::<FsOpModel>::empty()
            } else {
                add_ops(
                    self.args@.add_args->0.filename,
                    add_place(self.args@)->Ok_0,
                    seen@,
                    self.args@.force,
                )
            },
    {
        let place = match self.add_destination() {
            Ok(place) => place,
            Err(e) => {
                return Err(e);
            },
        };
        let add = match &self.args.add_args {
            Some(add) => add,
            None => {
                return Err(AddError::NothingToAdd);
            },
        };
        let outcome = if seen.kind.is_none() {
            AddOutcome::Moved
        } else if self.args.force {
            AddOutcome::Overwritten
        } else {
            AddOutcome::Refused
        };
        let mut ops: Vec<FsOp> = Vec::new();
        if !self.args.test {
            match outcome {
                AddOutcome::Refused => {},
                _ => {
                    if seen.kind.is_some() {
                        ops.push(crate::sync::remove(&place, seen.kind));
                    }
                    let parent = match place.parent() {
                        Some(parent) => parent,
                        None => FilePath::new(),
                    };
                    assert(parent@ =~= place@.drop_last());
                    ops.push(FsOp::CreateDirAll { path: parent });
                    ops.push(FsOp::Rename { from: add.filename.clone(), to: place.clone() });
                    ops.push(FsOp::Symlink { link: add.filename.clone(), target: place });
                },
            }
        }
        assert(op_models(ops@) =~= if self.args@.test {
            Seq::<FsOpModel>::empty()
        } else {
            add_ops(
                self.args@.add_args->0.filename,
                add_place(self.args@)->Ok_0,
                seen@,
                self.args@.force,
            )
        });
        Ok(AddDecision { outcome, ops })
    }
}

/// Whether a state that is over reports what has happened: success exactly
/// if no stage has failed.
pub open spec fn reports_truly(progress: Progress) -> bool {
    progress.pending matches Pending::Finished { success } ==> success == !progress.failed
}

/// The package that a pending step belongs to, if it belongs to one.
pub open spec fn package_of(pending: Pending) -> Option<usize> {
    match pending {
        Pending::Confirm { package } => Some(package),
        Pending::Run { package, .. } => Some(package),
        Pending::Finished { .. } => None,
    }
}

/// How failures and refusals count. A stage that fails marks the run as
/// failed and ends its package: what is pending next belongs to another
/// package, or the run is over. A package that the user declines ends in the
/// same way without marking anything. A failure, once marked, stays marked,
/// and a run that is over reports success exactly if nothing was marked.
pub proof fn lemma_failures_count(args: ArgsModel, mode: Mode, progress: Progress, ok: bool)
    requires
        args.packages.len() <= usize::MAX,
        reports_truly(progress),
    ensures
        reports_truly(taking_up(args, 0, false)),
        reports_truly(advanced(args, mode, progress, ok)),
        progress.failed ==> advanced(args, mode, progress, ok).failed,
        progress.pending is Run && !ok ==> advanced(args, mode, progress, ok).failed,
        !(progress.pending is Run && !ok) ==> advanced(args, mode, progress, ok).failed
            == progress.failed,
        !(progress.pending is Finished) && !ok ==> package_of(
            advanced(args, mode, progress, ok).pending,
        ) != package_of(progress.pending),
{
}

} // verus!
