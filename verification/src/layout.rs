//! Where things stand inside a package.
//!
//! A package is a directory of the repository, named after the package. Its
//! global tier is the package directory itself, the tier of a host is
//! `hosts/<hostname>` inside it and the tier of a tag `tags/<tag>`. Each tier
//! keeps its files under `files` and the hooks of a phase under
//! `hooks/<phase>`.

use crate::path::{FilePath, PathModel};
use vstd::prelude::*;

verus! {

/// A point of the install or uninstall pipeline at which hooks run.
#[derive(Clone, Copy, Debug, PartialEq, Eq, Structural)]
pub enum Phase {
    /// Before linking.
    PreUp,
    /// After linking.
    PostUp,
    /// Before unlinking.
    PreDown,
    /// After unlinking.
    PostDown,
}

/// The name of the directory that holds the hooks of a phase.
pub open spec fn phase_name(phase: Phase) -> Seq<char> {
    match phase {
        Phase::PreUp => "pre-up"@,
        Phase::PostUp => "post-up"@,
        Phase::PreDown => "pre-down"@,
        Phase::PostDown => "post-down"@,
    }
}

impl Phase {
    /// The name of the directory that holds the hooks of this phase.
    pub fn dir_name(&self) -> (name: &'static str)
        ensures
            name@ == phase_name(*self),
    {
        match self {
            Phase::PreUp => "pre-up",
            Phase::PostUp => "post-up",
            Phase::PreDown => "pre-down",
            Phase::PostDown => "post-down",
        }
    }
}

/// One of the tiers of a package.
#[derive(Debug)]
pub enum Layer {
    /// The tier that applies everywhere.
    Global,
    /// The tier of the tag of this name.
    Tag(String),
    /// The tier of the host of this name.
    Host(String),
}

/// A tier in specifications.
pub enum LayerModel {
    Global,
    Tag(Seq<char>),
    Host(Seq<char>),
}

impl View for Layer {
    type V = LayerModel;

    open spec fn view(&self) -> LayerModel {
        match self {
            Layer::Global => LayerModel::Global,
            Layer::Tag(name) => LayerModel::Tag(name@),
            Layer::Host(name) => LayerModel::Host(name@),
        }
    }
}

/// The base directory of a package: the directory of its name in the
/// repository.
pub open spec fn package_dir(repo: PathModel, package: Seq<char>) -> PathModel {
    repo.push(package)
}

/// The directory of a tier inside a package.
pub open spec fn layer_dir(base: PathModel, layer: LayerModel) -> PathModel {
    match layer {
        LayerModel::Global => base,
        LayerModel::Tag(name) => base.push("tags"@).push(name),
        LayerModel::Host(name) => base.push("hosts"@).push(name),
    }
}

/// The root of the file tree of a tier.
pub open spec fn files_dir(base: PathModel, layer: LayerModel) -> PathModel {
    layer_dir(base, layer).push("files"@)
}

/// The directory that holds a tier's hooks of one phase.
pub open spec fn hooks_dir(base: PathModel, layer: LayerModel, phase: Phase) -> PathModel {
    layer_dir(base, layer).push("hooks"@).push(phase_name(phase))
}

/// The base directory of a package.
pub fn package_base(repo: &FilePath, package: &str) -> (base: FilePath)
    ensures
        base@ == package_dir(repo@, package@),
{
    repo.child(package)
}

fn layer_base(base: &FilePath, layer: &Layer) -> (dir: FilePath)
    ensures
        dir@ == layer_dir(base@, layer@),
{
    match layer {
        Layer::Global => base.clone(),
        Layer::Tag(name) => {
            let mut dir = base.child("tags");
            dir.push(name.as_str());
            dir
        },
        Layer::Host(name) => {
            let mut dir = base.child("hosts");
            dir.push(name.as_str());
            dir
        },
    }
}

/// The root of the file tree of a tier of the package at `base`.
pub fn files_root(base: &FilePath, layer: &Layer) -> (dir: FilePath)
    ensures
        dir@ == files_dir(base@, layer@),
{
    let mut dir = layer_base(base, layer);
    dir.push("files");
    dir
}

/// The directory that holds the hooks of `phase` of a tier of the package at
/// `base`.
pub fn hooks_root(base: &FilePath, layer: &Layer, phase: Phase) -> (dir: FilePath)
    ensures
        dir@ == hooks_dir(base@, layer@, phase),
{
    let mut dir = layer_base(base, layer);
    dir.push("hooks");
    dir.push(phase.dir_name());
    dir
}

} // verus!
