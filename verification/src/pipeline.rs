//! The stages of a package's pipeline and how failures inside a stage add up.

use crate::layout::Phase;
use vstd::prelude::*;

verus! {

/// What is being done to the packages.
#[derive(Clone, Copy, Debug, PartialEq, Eq, Structural)]
pub enum Mode {
    Install,
    Uninstall,
}

/// A stage of a package's pipeline.
#[derive(Clone, Copy, Debug, PartialEq, Eq, Structural)]
pub enum Stage {
    /// Run the hooks that come before the links are touched.
    PreHooks,
    /// Install: create the directories that the links need.
    EnsureDirectories,
    /// Install: create or replace the links.
    SyncLinks,
    /// Uninstall: create the directories of the package's layout and work out
    /// which destinations the package answers for.
    ComputeTargets,
    /// Uninstall: remove the links that belong to the package.
    RemoveLinks,
    /// Run the hooks that come after the links were touched.
    PostHooks,
}

/// The stage that follows `stage` once it has succeeded, if one does.
/// Installing goes through hooks, directories, links, hooks; uninstalling
/// through hooks, targets, removal, hooks.
pub open spec fn following(mode: Mode, stage: Stage) -> Option<Stage> {
    match (mode, stage) {
        (Mode::Install, Stage::PreHooks) => Some(Stage::EnsureDirectories),
        (Mode::Install, Stage::EnsureDirectories) => Some(Stage::SyncLinks),
        (Mode::Install, Stage::SyncLinks) => Some(Stage::PostHooks),
        (Mode::Uninstall, Stage::PreHooks) => Some(Stage::ComputeTargets),
        (Mode::Uninstall, Stage::ComputeTargets) => Some(Stage::RemoveLinks),
        (Mode::Uninstall, Stage::RemoveLinks) => Some(Stage::PostHooks),
        _ => None,
    }
}

/// How many stages are still to come, `stage` included.
pub open spec fn stages_left(mode: Mode, stage: Stage) -> nat {
    match following(mode, stage) {
        None => 1,
        Some(second) => match following(mode, second) {
            None => 2,
            Some(third) => match following(mode, third) {
                None => 3,
                Some(_) => 4,
            },
        },
    }
}

/// The phase whose hooks a stage runs, if it runs hooks.
pub open spec fn hook_phase(mode: Mode, stage: Stage) -> Option<Phase> {
    match (mode, stage) {
        (Mode::Install, Stage::PreHooks) => Some(Phase::PreUp),
        (Mode::Install, Stage::PostHooks) => Some(Phase::PostUp),
        (Mode::Uninstall, Stage::PreHooks) => Some(Phase::PreDown),
        (Mode::Uninstall, Stage::PostHooks) => Some(Phase::PostDown),
        _ => None,
    }
}

/// What a failure inside a stage does to the rest of the stage.
#[derive(Clone, Copy, Debug, PartialEq, Eq, Structural)]
pub enum OnFailure {
    /// The rest is still attempted; the stage fails at its end.
    Continue,
    /// The stage ends at once.
    Abort,
}

/// How a stage takes the failure of one of its items. A directory that cannot
/// be created and a link that cannot be made do not keep the others from
/// being attempted. A removal that fails ends the stage, and so does a hook.
pub open spec fn failure_policy(stage: Stage) -> OnFailure {
    match stage {
        Stage::EnsureDirectories | Stage::SyncLinks | Stage::ComputeTargets => OnFailure::Continue,
        Stage::PreHooks | Stage::RemoveLinks | Stage::PostHooks => OnFailure::Abort,
    }
}

impl Stage {
    /// The stage that follows this one once it has succeeded.
    pub fn next(self, mode: Mode) -> (next: Option<Stage>)
        ensures
            next == following(mode, self),
    {
        match (mode, self) {
            (Mode::Install, Stage::PreHooks) => Some(Stage::EnsureDirectories),
            (Mode::Install, Stage::EnsureDirectories) => Some(Stage::SyncLinks),
            (Mode::Install, Stage::SyncLinks) => Some(Stage::PostHooks),
            (Mode::Uninstall, Stage::PreHooks) => Some(Stage::ComputeTargets),
            (Mode::Uninstall, Stage::ComputeTargets) => Some(Stage::RemoveLinks),
            (Mode::Uninstall, Stage::RemoveLinks) => Some(Stage::PostHooks),
            _ => None,
        }
    }

    /// The phase whose hooks this stage runs, if it runs hooks.
    pub fn phase(self, mode: Mode) -> (phase: Option<Phase>)
        ensures
            phase == hook_phase(mode, self),
    {
        match (mode, self) {
            (Mode::Install, Stage::PreHooks) => Some(Phase::PreUp),
            (Mode::Install, Stage::PostHooks) => Some(Phase::PostUp),
            (Mode::Uninstall, Stage::PreHooks) => Some(Phase::PreDown),
            (Mode::Uninstall, Stage::PostHooks) => Some(Phase::PostDown),
            _ => None,
        }
    }

    /// How this stage takes the failure of one of its items.
    pub fn on_failure(self) -> (policy: OnFailure)
        ensures
            policy == failure_policy(self),
    {
        match self {
            Stage::EnsureDirectories | Stage::SyncLinks | Stage::ComputeTargets => {
                OnFailure::Continue
            },
            Stage::PreHooks | Stage::RemoveLinks | Stage::PostHooks => OnFailure::Abort,
        }
    }
}

/// What is to be done next inside a stage.
#[derive(Clone, Copy, Debug, PartialEq, Eq, Structural)]
pub enum TallyStep {
    /// Attempt the item at this position and report whether it succeeded.
    Attempt { index: usize },
    /// The stage is over.
    Finished { success: bool },
}

/// The items of one stage under way: how many there are, how many are behind,
/// and whether one of them has failed.
#[derive(Clone, Copy, Debug, PartialEq, Eq, Structural)]
pub struct Tally {
    pub total: usize,
    pub done: usize,
    pub failed: bool,
    pub policy: OnFailure,
}

impl Tally {
    /// Whether the stage is over: all items are behind, or one has failed and
    /// the stage does not go on after a failure.
    pub open spec fn is_over(self) -> bool {
        self.done >= self.total || (self.failed && self.policy == OnFailure::Abort)
    }

    /// What is to be done next.
    pub open spec fn pending(self) -> TallyStep {
        if self.is_over() {
            TallyStep::Finished { success: !self.failed }
        } else {
            TallyStep::Attempt { index: self.done }
        }
    }

    /// The tally after the pending item has been attempted.
    pub open spec fn recorded(self, ok: bool) -> Tally {
        if self.is_over() {
            self
        } else {
            Tally { done: (self.done + 1) as usize, failed: self.failed || !ok, ..self }
        }
    }

    /// The tally after each of `results` has been recorded in turn.
    pub open spec fn recorded_all(self, results: Seq<bool>) -> Tally
        decreases results.len(),
    {
        if results.len() == 0 {
            self
        } else {
            self.recorded_all(results.drop_last()).recorded(results.last())
        }
    }

    /// A tally of `total` items for a stage.
    pub fn new(total: usize, stage: Stage) -> (tally: Tally)
        ensures
            tally == (Tally { total, done: 0, failed: false, policy: failure_policy(stage) }),
    {
        Tally { total, done: 0, failed: false, policy: stage.on_failure() }
    }

    /// What is to be done next.
    pub fn step(&self) -> (step: TallyStep)
        ensures
            step == self.pending(),
    {
        if self.done >= self.total || (self.failed && self.policy == OnFailure::Abort) {
            TallyStep::Finished { success: !self.failed }
        } else {
            TallyStep::Attempt { index: self.done }
        }
    }

    /// Records whether the pending item succeeded.
    pub fn record(&mut self, ok: bool)
        ensures
            *final(self) == old(self).recorded(ok),
    {
        if self.done >= self.total || (self.failed && self.policy == OnFailure::Abort) {
        } else {
            self.done = self.done + 1;
            if !ok {
                self.failed = true;
            }
        }
    }
}

/// Whether every one of `results` is a success.
pub open spec fn all_succeeded(results: Seq<bool>) -> bool {
    forall|i: int| 0 <= i < results.len() ==> results[i]
}

/// A stage that goes on after a failure attempts every item and succeeds
/// exactly if every item did.
pub proof fn lemma_continue_attempts_all(total: usize, stage: Stage, results: Seq<bool>)
    requires
        failure_policy(stage) == OnFailure::Continue,
        results.len() <= total,
    ensures
        ({
            let start = Tally { total, done: 0, failed: false, policy: failure_policy(stage) };
            let end = start.recorded_all(results);
            &&& end.total == total
            &&& end.policy == OnFailure::Continue
            &&& end.done == results.len()
            &&& end.failed == !all_succeeded(results)
            &&& results.len() < total ==> end.pending() == (TallyStep::Attempt {
                index: results.len() as usize,
            })
            &&& results.len() == total ==> end.pending() == (TallyStep::Finished {
                success: all_succeeded(results),
            })
        }),
    decreases results.len(),
{
    if results.len() > 0 {
        let earlier = results.drop_last();
        lemma_continue_attempts_all(total, stage, earlier);
        let start = Tally { total, done: 0, failed: false, policy: failure_policy(stage) };
        let before = start.recorded_all(earlier);
        let end = start.recorded_all(results);
        assert(end == before.recorded(results.last()));
        assert(!before.is_over());
        assert(end.failed == (before.failed || !results.last()));
        if all_succeeded(results) {
            assert(results[results.len() - 1]);
            assert forall|i: int| 0 <= i < earlier.len() implies earlier[i] by {
                assert(results[i]);
            }
        } else {
            let i = choose|i: int| 0 <= i < results.len() && !results[i];
            if i < earlier.len() {
                assert(!earlier[i]);
            }
        }
    }
}

/// A stage that ends at its first failure attempts nothing after it: once an
/// item has failed, the stage is over and has failed, whatever is recorded
/// afterwards.
pub proof fn lemma_abort_stops_at_failure(tally: Tally, results: Seq<bool>)
    requires
        tally.policy == OnFailure::Abort,
        tally.failed,
    ensures
        tally.recorded_all(results) == tally,
        tally.pending() == (TallyStep::Finished { success: false }),
    decreases results.len(),
{
    if results.len() > 0 {
        lemma_abort_stops_at_failure(tally, results.drop_last());
    }
}

} // verus!
