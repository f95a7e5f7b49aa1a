//! The resolved configuration of one invocation.

use crate::path::{component_texts, FilePath, PathModel};
use vstd::prelude::*;

verus! {

/// What the invocation asks for.
#[derive(Clone, Copy, Debug, PartialEq, Eq, Structural)]
pub enum Command {
    Install,
    Uninstall,
    Add,
    /// No subcommand was given.
    Empty,
}

/// What the `add` subcommand was given.
#[derive(Debug)]
pub struct AddArgs {
    /// The file to move into the repository.
    pub filename: FilePath,
    /// The package that takes it.
    pub package: String,
    /// Whether it goes to the tier of this host rather than the global one.
    pub host_specific: bool,
}

/// The arguments of `add` in specifications.
pub struct AddArgsModel {
    pub filename: PathModel,
    pub package: Seq<char>,
    pub host_specific: bool,
}

impl View for AddArgs {
    type V = AddArgsModel;

    open spec fn view(&self) -> AddArgsModel {
        AddArgsModel {
            filename: self.filename@,
            package: self.package@,
            host_specific: self.host_specific,
        }
    }
}

/// Everything an invocation works from.
#[derive(Debug)]
pub struct Args {
    pub command: Command,
    /// The packages to work on, in order.
    pub packages: Vec<String>,
    /// The active tags, in the order in which they were supplied.
    pub tags: Vec<String>,
    pub hostname: String,
    /// The root of the repository.
    pub dir: FilePath,
    /// The directory in which the links stand.
    pub target_dir: FilePath,
    /// Test mode: say what would be done, and do nothing.
    pub test: bool,
    /// Replace or remove what is in the way.
    pub force: bool,
    /// Do not ask before working on a package.
    pub no_confirm: bool,
    pub add_args: Option<AddArgs>,
}

/// The configuration in specifications.
pub struct ArgsModel {
    pub command: Command,
    pub packages: Seq<Seq<char>>,
    pub tags: Seq<Seq<char>>,
    pub hostname: Seq<char>,
    pub dir: PathModel,
    pub target_dir: PathModel,
    pub test: bool,
    pub force: bool,
    pub no_confirm: bool,
    pub add_args: Option<AddArgsModel>,
}

impl View for Args {
    type V = ArgsModel;

    open spec fn view(&self) -> ArgsModel {
        ArgsModel {
            command: self.command,
            packages: component_texts(self.packages@),
            tags: component_texts(self.tags@),
            hostname: self.hostname@,
            dir: self.dir@,
            target_dir: self.target_dir@,
            test: self.test,
            force: self.force,
            no_confirm: self.no_confirm,
            add_args: match self.add_args {
                Some(add) => Some(add@),
                None => None,
            },
        }
    }
}

} // verus!
