//! Walking the file tree of a tier, one directory listing at a time.
//!
//! The walk asks for the listing of one directory, takes it in, and asks for
//! the next. Directories are walked into; everything else is a file to link,
//! a symbolic link included. Paths are kept relative to the root of the tree.

use crate::entry::{entry_models, DirEntry, DirEntryModel, EntryKind};
use crate::path::{optional_path, path_models, FilePath, PathModel};
use crate::resolver::{Tier, TierModel};
use vstd::prelude::*;

verus! {

/// A walk under way: the directories still to list, and the files and
/// directories found so far, all relative to `root`.
#[derive(Debug)]
pub struct TreeWalk {
    pub root: FilePath,
    /// The directories still to list; the last one is listed next.
    pub pending: Vec<FilePath>,
    pub files: Vec<FilePath>,
    pub dirs: Vec<FilePath>,
}

/// A walk in specifications.
pub struct TreeWalkModel {
    pub root: PathModel,
    pub pending: Seq<PathModel>,
    pub files: Seq<PathModel>,
    pub dirs: Seq<PathModel>,
}

impl View for TreeWalk {
    type V = TreeWalkModel;

    open spec fn view(&self) -> TreeWalkModel {
        TreeWalkModel {
            root: self.root@,
            pending: path_models(self.pending@),
            files: path_models(self.files@),
            dirs: path_models(self.dirs@),
        }
    }
}

/// The entries of the directory `dir` that are directories, if `directories`
/// is set, or that are not, otherwise: each as `dir` followed by its name, in
/// the order of the listing.
pub open spec fn picked(dir: PathModel, entries: Seq<DirEntryModel>, directories: bool) -> Seq<
    PathModel,
>
    decreases entries.len(),
{
    if entries.len() == 0 {
        Seq::empty()
    } else {
        let before = picked(dir, entries.drop_last(), directories);
        let last = entries.last();
        if (last.kind == EntryKind::Directory) == directories {
            before.push(dir.push(last.name))
        } else {
            before
        }
    }
}

impl TreeWalkModel {
    /// The full path of the directory to list next, if the walk is not over.
    pub open spec fn next(self) -> Option<PathModel> {
        if self.pending.len() == 0 {
            None
        } else {
            Some(self.root + self.pending.last())
        }
    }

    /// The walk after the listing of the directory that was next has been
    /// taken in: its subdirectories are recorded and wait to be listed, its
    /// other entries are recorded as files.
    pub open spec fn recorded(self, entries: Seq<DirEntryModel>) -> TreeWalkModel {
        if self.pending.len() == 0 {
            self
        } else {
            let dir = self.pending.last();
            TreeWalkModel {
                root: self.root,
                pending: self.pending.drop_last() + picked(dir, entries, true),
                files: self.files + picked(dir, entries, false),
                dirs: self.dirs + picked(dir, entries, true),
            }
        }
    }
}

impl TreeWalk {
    /// A walk of the tree at `root`. Where the tree does not exist there is
    /// nothing to list, and the walk is over before it begins.
    pub fn start(root: FilePath, exists: bool) -> (walk: TreeWalk)
        ensures
            walk@ == (TreeWalkModel {
                root: root@,
                pending: if exists {
                    seq![Seq::<Seq<char>>::empty()]
                } else {
                    Seq::empty()
                },
                files: Seq::empty(),
                dirs: Seq::empty(),
            }),
    {
        let mut pending: Vec<FilePath> = Vec::new();
        if exists {
            pending.push(FilePath::new());
        }
        let walk = TreeWalk { root, pending, files: Vec::new(), dirs: Vec::new() };
        assert(walk@.pending =~= if exists {
            seq![Seq::<Seq<char>>::empty()]
        } else {
            Seq::empty()
        });
        assert(walk@.files =~= Seq::empty());
        assert(walk@.dirs =~= Seq::empty());
        walk
    }

    /// The full path of the directory to list next; `None` once the walk is
    /// over.
    pub fn next(&self) -> (dir: Option<FilePath>)
        ensures
            optional_path(dir) == self@.next(),
    {
        let n = self.pending.len();
        if n == 0 {
            None
        } else {
            Some(self.root.join(&self.pending[n - 1]))
        }
    }

    /// Takes in the listing of the directory that was next. A directory that
    /// could not be read is taken in as an empty listing.
    pub fn record(&mut self, entries: &Vec<DirEntry>)
        ensures
            final(self)@ == old(self)@.recorded(entry_models(entries@)),
    {
        let dir = match self.pending.pop() {
            Some(dir) => dir,
            None => {
                return ;
            },
        };
        let ghost before = old(self)@;
        let ghost listing = entry_models(entries@);
        assert(path_models(self.pending@) =~= before.pending.drop_last());
        assert(dir@ == before.pending.last());
        let mut i: usize = 0;
        while i < entries.len()
            invariant
                i <= entries.len(),
                listing == entry_models(entries@),
                self.root@ == before.root,
                path_models(self.pending@) == before.pending.drop_last() + picked(
                    dir@,
                    listing.take(i as int),
                    true,
                ),
                path_models(self.files@) == before.files + picked(
                    dir@,
                    listing.take(i as int),
                    false,
                ),
                path_models(self.dirs@) == before.dirs + picked(dir@, listing.take(i as int), true),
            decreases entries.len() - i,
        {
            let ghost seen = listing.take(i as int);
            let ghost more = listing.take(i + 1);
            let ghost pending_before = path_models(self.pending@);
            let ghost files_before = path_models(self.files@);
            let ghost dirs_before = path_models(self.dirs@);
            assert(more.drop_last() =~= seen);
            assert(more.last() == entries[i as int]@);
            let path = dir.child(entries[i].name.as_str());
            match entries[i].kind {
                EntryKind::Directory => {
                    self.dirs.push(path.clone());
                    self.pending.push(path);
                    assert(path_models(self.dirs@) =~= dirs_before.push(path@));
                    assert(path_models(self.pending@) =~= pending_before.push(path@));
                    assert(path_models(self.pending@) =~= before.pending.drop_last() + picked(
                        dir@,
                        more,
                        true,
                    ));
                    assert(path_models(self.dirs@) =~= before.dirs + picked(dir@, more, true));
                },
                _ => {
                    self.files.push(path);
                    assert(path_models(self.files@) =~= files_before.push(path@));
                    assert(path_models(self.files@) =~= before.files + picked(dir@, more, false));
                },
            }
            i += 1;
        }
        assert(listing.take(entries.len() as int) =~= listing);
    }

    /// The tier that the walk has found.
    pub fn finish(self) -> (tier: Tier)
        ensures
            tier@ == (TierModel { root: self@.root, files: self@.files, dirs: self@.dirs }),
    {
        Tier { root: self.root, files: self.files, dirs: self.dirs }
    }
}

} // verus!
