//! Settings, and the choice of the target directory.
//!
//! A settings file lists candidate target directories in order of preference.
//! The first candidate that is an absolute path to an existing directory is
//! the target; where there is none, the target given on invocation stays.

use crate::path::{FilePath, PathModel};
use vstd::prelude::*;

verus! {

/// One candidate target directory, as the settings file gives it.
#[derive(Debug)]
pub struct Target {
    /// The path as written, before variables are substituted.
    pub path: String,
}

/// The contents of a settings file.
#[derive(Debug)]
pub struct Settings {
    /// The candidate target directories, most preferred first.
    pub target: Vec<Target>,
}

/// The settings that are in force where the repository and the package may
/// each have a settings file: those of the package if it has one, else those
/// of the repository.
pub fn effective_settings(repository: Option<Settings>, package: Option<Settings>) -> (settings:
    Option<Settings>)
    ensures
        settings == if package is Some {
            package
        } else {
            repository
        },
{
    match package {
        Some(own) => Some(own),
        None => repository,
    }
}

/// A candidate target directory after substitution, with what is known of
/// it.
#[derive(Debug)]
pub struct Candidate {
    pub path: FilePath,
    /// Whether the path is absolute.
    pub absolute: bool,
    /// Whether a directory exists there.
    pub is_dir: bool,
}

/// A candidate in specifications.
pub struct CandidateModel {
    pub path: PathModel,
    pub absolute: bool,
    pub is_dir: bool,
}

impl View for Candidate {
    type V = CandidateModel;

    open spec fn view(&self) -> CandidateModel {
        CandidateModel { path: self.path@, absolute: self.absolute, is_dir: self.is_dir }
    }
}

/// The views of a list of candidates.
pub open spec fn candidate_models(candidates: Seq<Candidate>) -> Seq<CandidateModel> {
    Seq::new(candidates.len(), |i: int| candidates[i]@)
}

/// Whether a candidate can serve as the target: an absolute path to an
/// existing directory.
pub open spec fn usable(candidate: CandidateModel) -> bool {
    candidate.absolute && candidate.is_dir
}

/// The target directory: the first usable candidate, else the fallback.
pub open spec fn chosen_target(candidates: Seq<CandidateModel>, fallback: PathModel) -> PathModel
    decreases candidates.len(),
{
    if candidates.len() == 0 {
        fallback
    } else if usable(candidates.first()) {
        candidates.first().path
    } else {
        chosen_target(candidates.drop_first(), fallback)
    }
}

/// Chooses the target directory: the first of `candidates` that is an
/// absolute path to an existing directory, else `fallback`.
pub fn select_target(candidates: &Vec<Candidate>, fallback: &FilePath) -> (target: FilePath)
    ensures
        target@ == chosen_target(candidate_models(candidates@), fallback@),
{
    let ghost all = candidate_models(candidates@);
    let mut i: usize = 0;
    assert(all.skip(0) =~= all);
    while i < candidates.len()
        invariant
            i <= candidates.len(),
            all == candidate_models(candidates@),
            chosen_target(all, fallback@) == chosen_target(all.skip(i as int), fallback@),
        decreases candidates.len() - i,
    {
        let ghost rest = all.skip(i as int);
        assert(rest.first() == candidates[i as int]@);
        assert(rest.drop_first() =~= all.skip(i + 1));
        if candidates[i].absolute && candidates[i].is_dir {
            return candidates[i].path.clone();
        }
        i += 1;
    }
    assert(all.skip(i as int).len() == 0);
    fallback.clone()
}

/// The choice of the target, stated outright: it is the path of the usable
/// candidate before which no usable candidate stands, and the fallback where
/// no candidate is usable.
pub proof fn lemma_first_usable_is_chosen(candidates: Seq<CandidateModel>, fallback: PathModel)
    ensures
        forall|i: int|
            0 <= i < candidates.len() && usable(#[trigger] candidates[i]) && (forall|k: int|
                0 <= k < i ==> !usable(#[trigger] candidates[k])) ==> chosen_target(
                candidates,
                fallback,
            ) == candidates[i].path,
        (forall|k: int| 0 <= k < candidates.len() ==> !usable(#[trigger] candidates[k]))
            ==> chosen_target(candidates, fallback) == fallback,
    decreases candidates.len(),
{
    if candidates.len() > 0 {
        let rest = candidates.drop_first();
        lemma_first_usable_is_chosen(rest, fallback);
        assert forall|i: int|
            0 <= i < candidates.len() && usable(#[trigger] candidates[i]) && (forall|k: int|
                0 <= k < i ==> !usable(#[trigger] candidates[k])) implies chosen_target(
            candidates,
            fallback,
        ) == candidates[i].path by {
            if i > 0 {
                assert(!usable(candidates[0]));
                assert(rest[i - 1] == candidates[i]);
                assert forall|k: int| 0 <= k < i - 1 implies !usable(#[trigger] rest[k]) by {
                    assert(rest[k] == candidates[k + 1]);
                }
            }
        }
        if forall|k: int| 0 <= k < candidates.len() ==> !usable(#[trigger] candidates[k]) {
            assert(!usable(candidates[0]));
            assert forall|k: int| 0 <= k < rest.len() implies !usable(#[trigger] rest[k]) by {
                assert(rest[k] == candidates[k + 1]);
            }
        }
    }
}

} // verus!
