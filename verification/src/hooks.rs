//! Collecting the hooks of one phase and running them in order.
//!
//! A phase's hooks are the regular files that stand directly inside up to
//! three kinds of directory: a global one, one per active tag, and one for the
//! host. A hook is known by its file name alone. Where several directories
//! hold a hook of the same name, the directory that comes last in the order
//! global, tags as supplied, host provides it. The hooks that remain run in
//! the order of their names, and the first one that fails ends the phase.

use crate::entry::{entry_models, DirEntry, DirEntryModel, EntryKind};
use crate::order::{lemma_names_ordered, name_before, sorts_before};
use crate::path::{FilePath, PathModel};
use vstd::prelude::*;

verus! {

/// What was found directly inside one hook directory.
#[derive(Debug)]
pub struct HookDir {
    pub dir: FilePath,
    pub entries: Vec<DirEntry>,
}

/// A hook directory in specifications.
pub struct HookDirModel {
    pub dir: PathModel,
    pub entries: Seq<DirEntryModel>,
}

impl View for HookDir {
    type V = HookDirModel;

    open spec fn view(&self) -> HookDirModel {
        HookDirModel { dir: self.dir@, entries: entry_models(self.entries@) }
    }
}

/// The views of a list of hook directories.
pub open spec fn hook_dir_models(dirs: Seq<HookDir>) -> Seq<HookDirModel> {
    Seq::new(dirs.len(), |i: int| dirs[i]@)
}

impl HookDir {
    /// A hook directory that does not exist or could not be read: it
    /// contributes no hooks.
    pub fn unreadable(dir: FilePath) -> (listing: HookDir)
        ensures
            listing@ == (HookDirModel { dir: dir@, entries: Seq::empty() }),
    {
        let listing = HookDir { dir, entries: Vec::new() };
        assert(listing@.entries =~= Seq::empty());
        listing
    }
}

/// Whether a directory holds a hook called `name`: a regular file of that
/// name.
pub open spec fn offers_hook(dir: HookDirModel, name: Seq<char>) -> bool {
    exists|i: int|
        0 <= i < dir.entries.len() && (#[trigger] dir.entries[i]).name == name
            && dir.entries[i].kind == EntryKind::File
}

/// The hooks of one directory, by name: each is the file of that name inside
/// the directory.
pub open spec fn dir_hooks(dir: HookDirModel) -> Map<Seq<char>, PathModel> {
    Map::new(|name: Seq<char>| offers_hook(dir, name), |name: Seq<char>| dir.dir.push(name))
}

/// The hooks of a list of directories, by name, a directory that stands later
/// in the list overriding every earlier one.
pub open spec fn merged_hooks(dirs: Seq<HookDirModel>) -> Map<Seq<char>, PathModel>
    decreases dirs.len(),
{
    if dirs.len() == 0 {
        Map::empty()
    } else {
        merged_hooks(dirs.drop_last()).union_prefer_right(dir_hooks(dirs.last()))
    }
}

/// The order in which hook directories are scanned: the global one, then
/// those of the tags in the order in which the tags were supplied, then the
/// host's. A later one overrides an earlier one.
pub open spec fn scan_order(global: HookDirModel, tags: Seq<HookDirModel>, host: HookDirModel) -> Seq<
    HookDirModel,
> {
    seq![global] + tags + seq![host]
}

/// A hook to run: its file name and where the file is.
#[derive(Debug, PartialEq)]
pub struct Hook {
    pub name: String,
    pub path: FilePath,
}

/// A hook in specifications.
pub struct HookModel {
    pub name: Seq<char>,
    pub path: PathModel,
}

impl View for Hook {
    type V = HookModel;

    open spec fn view(&self) -> HookModel {
        HookModel { name: self.name@, path: self.path@ }
    }
}

/// The views of a list of hooks.
pub open spec fn hook_models(hooks: Seq<Hook>) -> Seq<HookModel> {
    Seq::new(hooks.len(), |i: int| hooks[i]@)
}

/// Whether the hooks stand in the order of their names, no name twice.
pub open spec fn sorted_by_name(hooks: Seq<HookModel>) -> bool {
    forall|i: int, j: int|
        0 <= i < j < hooks.len() ==> sorts_before((#[trigger] hooks[i]).name, (#[trigger] hooks[j]).name)
}

/// Whether `hooks` lists exactly the entries of `table`.
pub open spec fn lists(hooks: Seq<HookModel>, table: Map<Seq<char>, PathModel>) -> bool {
    &&& forall|i: int|
        0 <= i < hooks.len() ==> table.contains_key((#[trigger] hooks[i]).name) && table[hooks[i].name]
            == hooks[i].path
    &&& forall|name: Seq<char>| #[trigger]
        table.contains_key(name) ==> exists|i: int|
            0 <= i < hooks.len() && (#[trigger] hooks[i]).name == name
}

/// Puts a hook into a list sorted by name: in place of the hook of the same
/// name if there is one, else where its name belongs.
fn place(hooks: &mut Vec<Hook>, hook: Hook, Ghost(table): Ghost<Map<Seq<char>, PathModel>>)
    requires
        sorted_by_name(hook_models(old(hooks)@)),
        lists(hook_models(old(hooks)@), table),
    ensures
        sorted_by_name(hook_models(final(hooks)@)),
        lists(hook_models(final(hooks)@), table.insert(hook@.name, hook@.path)),
{
    let ghost before = hook_models(hooks@);
    let ghost name = hook@.name;
    let ghost path = hook@.path;
    let mut p: usize = 0;
    while p < hooks.len() && name_before(hooks[p].name.as_str(), hook.name.as_str())
        invariant
            p <= hooks.len(),
            before == hook_models(hooks@),
            name == hook@.name,
            forall|k: int| 0 <= k < p ==> sorts_before((#[trigger] before[k]).name, name),
        decreases hooks.len() - p,
    {
        assert(before[p as int].name == hooks[p as int].name@);
        p += 1;
    }
    proof {
        assert forall|k: int| 0 <= k < p implies (#[trigger] before[k]).name != name by {
            lemma_names_ordered(name, name, name);
        }
    }
    if p < hooks.len() && hooks[p].name == hook.name {
        hooks.set(p, hook);
        proof {
            let after = hook_models(hooks@);
            assert(before[p as int].name == name);
            assert forall|i: int| 0 <= i < after.len() implies (#[trigger] after[i]).name
                == before[i].name by {}
            assert forall|i: int, j: int| 0 <= i < j < after.len() implies sorts_before(
                (#[trigger] after[i]).name,
                (#[trigger] after[j]).name,
            ) by {
                assert(sorts_before(before[i].name, before[j].name));
            }
            assert forall|i: int| 0 <= i < after.len() implies table.insert(name, path).contains_key(
                (#[trigger] after[i]).name,
            ) && table.insert(name, path)[after[i].name] == after[i].path by {
                if i != p {
                    assert(after[i] == before[i]);
                    if i < p {
                        assert(sorts_before(before[i].name, before[p as int].name));
                    } else {
                        assert(sorts_before(before[p as int].name, before[i].name));
                    }
                    lemma_names_ordered(before[i].name, name, name);
                }
            }
            assert forall|n: Seq<char>| #[trigger]
                table.insert(name, path).contains_key(n) implies exists|i: int|
                0 <= i < after.len() && (#[trigger] after[i]).name == n by {
                if n == name {
                    assert(after[p as int].name == n);
                } else {
                    assert(table.contains_key(n));
                    let i = choose|i: int| 0 <= i < before.len() && (#[trigger] before[i]).name == n;
                    assert(after[i].name == n);
                }
            }
        }
    } else {
        proof {
            if p < hooks.len() {
                assert(before[p as int].name == hooks[p as int].name@);
                lemma_names_ordered(before[p as int].name, name, name);
            }
            assert forall|k: int| p <= k < before.len() implies sorts_before(
                name,
                (#[trigger] before[k]).name,
            ) by {
                if k > p {
                    assert(sorts_before(before[p as int].name, before[k].name));
                    lemma_names_ordered(name, before[p as int].name, before[k].name);
                }
            }
            assert forall|k: int| p <= k < before.len() implies (#[trigger] before[k]).name
                != name by {
                lemma_names_ordered(name, name, name);
            }
        }
        hooks.insert(p, hook);
        proof {
            let after = hook_models(hooks@);
            assert(after.len() == before.len() + 1);
            assert forall|i: int| 0 <= i < after.len() implies #[trigger] after[i] == (if i < p {
                before[i]
            } else if i == p {
                HookModel { name, path }
            } else {
                before[i - 1]
            }) by {}
            assert forall|i: int, j: int| 0 <= i < j < after.len() implies sorts_before(
                (#[trigger] after[i]).name,
                (#[trigger] after[j]).name,
            ) by {
                if j < p {
                    assert(sorts_before(before[i].name, before[j].name));
                } else if j == p {
                    assert(sorts_before(before[i].name, name));
                } else if i < p {
                    assert(sorts_before(before[i].name, before[j - 1].name));
                } else if i == p {
                    assert(sorts_before(name, before[j - 1].name));
                } else {
                    assert(sorts_before(before[i - 1].name, before[j - 1].name));
                }
            }
            assert forall|i: int| 0 <= i < after.len() implies table.insert(name, path).contains_key(
                (#[trigger] after[i]).name,
            ) && table.insert(name, path)[after[i].name] == after[i].path by {
                if i < p {
                    assert(before[i].name != name);
                } else if i > p {
                    assert(before[i - 1].name != name);
                }
            }
            assert forall|n: Seq<char>| #[trigger]
                table.insert(name, path).contains_key(n) implies exists|i: int|
                0 <= i < after.len() && (#[trigger] after[i]).name == n by {
                if n == name {
                    assert(after[p as int].name == n);
                } else {
                    assert(table.contains_key(n));
                    let i = choose|i: int| 0 <= i < before.len() && (#[trigger] before[i]).name == n;
                    if i < p {
                        assert(after[i].name == n);
                    } else {
                        assert(after[i + 1].name == n);
                    }
                }
            }
        }
    }
}

/// A hook directory cut down to the first `n` of its entries.
pub open spec fn first_entries(dir: HookDirModel, n: int) -> HookDirModel {
    HookDirModel { dir: dir.dir, entries: dir.entries.take(n) }
}

/// Puts the hooks of one directory into a list sorted by name, each in place
/// of a hook of the same name that the list held.
fn scan(hooks: &mut Vec<Hook>, dir: &HookDir, Ghost(table): Ghost<Map<Seq<char>, PathModel>>)
    requires
        sorted_by_name(hook_models(old(hooks)@)),
        lists(hook_models(old(hooks)@), table),
    ensures
        sorted_by_name(hook_models(final(hooks)@)),
        lists(hook_models(final(hooks)@), table.union_prefer_right(dir_hooks(dir@))),
{
    let mut i: usize = 0;
    assert(table.union_prefer_right(dir_hooks(first_entries(dir@, 0))) =~= table) by {
        assert(first_entries(dir@, 0).entries.len() == 0);
    }
    while i < dir.entries.len()
        invariant
            i <= dir.entries.len(),
            sorted_by_name(hook_models(hooks@)),
            lists(
                hook_models(hooks@),
                table.union_prefer_right(dir_hooks(first_entries(dir@, i as int))),
            ),
        decreases dir.entries.len() - i,
    {
        let ghost so_far = table.union_prefer_right(dir_hooks(first_entries(dir@, i as int)));
        let ghost next = table.union_prefer_right(dir_hooks(first_entries(dir@, i + 1)));
        let ghost fewer = first_entries(dir@, i as int);
        let ghost more = first_entries(dir@, i + 1);
        let ghost entry = dir@.entries[i as int];
        proof {
            assert(more.entries[i as int] == entry);
            assert(entry == dir.entries[i as int]@);
            assert forall|n: Seq<char>|
                offers_hook(more, n) <==> offers_hook(fewer, n) || (n == entry.name && entry.kind
                    == EntryKind::File) by {
                if offers_hook(more, n) {
                    let k = choose|k: int|
                        0 <= k < more.entries.len() && (#[trigger] more.entries[k]).name == n
                            && more.entries[k].kind == EntryKind::File;
                    if k < i {
                        assert(fewer.entries[k] == more.entries[k]);
                    }
                }
                if offers_hook(fewer, n) {
                    let k = choose|k: int|
                        0 <= k < fewer.entries.len() && (#[trigger] fewer.entries[k]).name == n
                            && fewer.entries[k].kind == EntryKind::File;
                    assert(more.entries[k] == fewer.entries[k]);
                }
            }
        }
        if dir.entries[i].kind == EntryKind::File {
            let name = dir.entries[i].name.clone();
            let path = dir.dir.child(dir.entries[i].name.as_str());
            assert(next =~= so_far.insert(name@, path@));
            place(hooks, Hook { name, path }, Ghost(so_far));
        } else {
            assert(next =~= so_far);
        }
        i += 1;
    }
    assert(first_entries(dir@, dir.entries.len() as int) == dir@) by {
        assert(dir@.entries.take(dir.entries.len() as int) =~= dir@.entries);
    }
}

/// How a hook's process ended.
#[derive(Clone, Copy, Debug, PartialEq, Eq, Structural)]
pub enum HookExit {
    /// It ran and exited with status zero.
    Success,
    /// It ran and exited with a status other than zero.
    Failed { code: i32 },
    /// A signal ended it.
    Signaled,
    /// It could not be started.
    LaunchFailed,
}

/// What is to be done next in a phase.
#[derive(Clone, Copy, Debug, PartialEq, Eq, Structural)]
pub enum HookStep {
    /// Run the hook at this position and report how it ended.
    Execute { index: usize },
    /// Only say that the hook at this position would run.
    Announce { index: usize },
    /// The phase is over.
    Finished { success: bool },
}

/// One phase of hooks under way: the hooks in the order in which they run,
/// how many of them are behind, and whether one has failed.
#[derive(Debug)]
pub struct HookRun {
    pub hooks: Vec<Hook>,
    pub next: usize,
    pub failed: bool,
    pub simulate: bool,
}

/// A phase under way, in specifications.
pub struct HookRunModel {
    pub hooks: Seq<HookModel>,
    pub next: nat,
    pub failed: bool,
    pub simulate: bool,
}

impl View for HookRun {
    type V = HookRunModel;

    open spec fn view(&self) -> HookRunModel {
        HookRunModel {
            hooks: hook_models(self.hooks@),
            next: self.next as nat,
            failed: self.failed,
            simulate: self.simulate,
        }
    }
}

impl HookRunModel {
    /// What is to be done next: nothing more once a hook has failed or all
    /// are behind, else the next hook in order.
    pub open spec fn step(self) -> HookStep {
        if self.failed {
            HookStep::Finished { success: false }
        } else if self.next >= self.hooks.len() {
            HookStep::Finished { success: true }
        } else if self.simulate {
            HookStep::Announce { index: self.next as usize }
        } else {
            HookStep::Execute { index: self.next as usize }
        }
    }

    /// The phase after the pending step has been carried out and, for a hook
    /// that ran, has ended as `exit` says. A hook that did not succeed ends
    /// the phase in failure; a hook that was only announced cannot fail.
    pub open spec fn advance(self, exit: HookExit) -> HookRunModel {
        if self.failed || self.next >= self.hooks.len() {
            self
        } else if self.simulate || exit == HookExit::Success {
            HookRunModel { next: self.next + 1, ..self }
        } else {
            HookRunModel { failed: true, ..self }
        }
    }
}

impl HookRun {
    /// What is to be done next.
    pub fn step(&self) -> (step: HookStep)
        ensures
            step == self@.step(),
    {
        if self.failed {
            HookStep::Finished { success: false }
        } else if self.next >= self.hooks.len() {
            HookStep::Finished { success: true }
        } else if self.simulate {
            HookStep::Announce { index: self.next }
        } else {
            HookStep::Execute { index: self.next }
        }
    }

    /// Records that the pending step was carried out; `exit` says how the
    /// hook ended if it ran, and is not looked at if it was only announced.
    pub fn advance(&mut self, exit: HookExit)
        ensures
            final(self)@ == old(self)@.advance(exit),
    {
        if self.failed || self.next >= self.hooks.len() {
        } else if self.simulate || exit == HookExit::Success {
            self.next = self.next + 1;
        } else {
            self.failed = true;
        }
    }
}

/// Prepares one phase of hooks: collects the hooks of the global directory
/// `dir`, of the tag directories `tag_dirs` and of the host directory
/// `host_dir`, and puts them in the order in which they run. Of hooks with the
/// same file name the host's overrides any tag's, a tag's overrides the global
/// one, and among tags the one supplied last wins. With `simulate`, the hooks
/// are announced and not run.
pub fn run_hooks(dir: &HookDir, host_dir: &HookDir, tag_dirs: &Vec<HookDir>, simulate: bool) -> (run:
    HookRun)
    ensures
        sorted_by_name(run@.hooks),
        lists(run@.hooks, merged_hooks(scan_order(dir@, hook_dir_models(tag_dirs@), host_dir@))),
        run@.next == 0,
        !run@.failed,
        run@.simulate == simulate,
{
    let ghost tags = hook_dir_models(tag_dirs@);
    let mut hooks: Vec<Hook> = Vec::new();
    scan(&mut hooks, dir, Ghost(Map::empty()));
    assert(Map::<Seq<char>, PathModel>::empty().union_prefer_right(dir_hooks(dir@))
        =~= merged_hooks(seq![dir@] + tags.take(0))) by {
        let only = seq![dir@] + tags.take(0);
        assert(only.last() == dir@);
        assert(only.drop_last() =~= Seq::<HookDirModel>::empty());
        assert(merged_hooks(only.drop_last()) =~= Map::<Seq<char>, PathModel>::empty());
    }
    let mut j: usize = 0;
    while j < tag_dirs.len()
        invariant
            j <= tag_dirs.len(),
            tags == hook_dir_models(tag_dirs@),
            sorted_by_name(hook_models(hooks@)),
            lists(hook_models(hooks@), merged_hooks(seq![dir@] + tags.take(j as int))),
        decreases tag_dirs.len() - j,
    {
        scan(&mut hooks, &tag_dirs[j], Ghost(merged_hooks(seq![dir@] + tags.take(j as int))));
        proof {
            let shorter = seq![dir@] + tags.take(j as int);
            let longer = seq![dir@] + tags.take(j + 1);
            assert(longer.last() == tag_dirs[j as int]@);
            assert(longer.drop_last() =~= shorter);
        }
        j += 1;
    }
    scan(&mut hooks, host_dir, Ghost(merged_hooks(seq![dir@] + tags.take(tag_dirs.len() as int))));
    proof {
        let all = scan_order(dir@, tags, host_dir@);
        assert(all.last() == host_dir@);
        assert(all.drop_last() =~= seq![dir@] + tags.take(tag_dirs.len() as int));
    }
    HookRun { hooks, next: 0, failed: false, simulate }
}

/// Whether some directory of `dirs` holds a hook called `name`.
pub open spec fn some_offers(dirs: Seq<HookDirModel>, name: Seq<char>) -> bool {
    exists|k: int| 0 <= k < dirs.len() && offers_hook(#[trigger] dirs[k], name)
}

/// The merged hooks have a name exactly where some directory holds a hook of
/// that name.
pub proof fn lemma_merged_domain(dirs: Seq<HookDirModel>, name: Seq<char>)
    ensures
        merged_hooks(dirs).contains_key(name) <==> some_offers(dirs, name),
    decreases dirs.len(),
{
    if dirs.len() > 0 {
        let earlier = dirs.drop_last();
        lemma_merged_domain(earlier, name);
        if merged_hooks(dirs).contains_key(name) {
            if merged_hooks(earlier).contains_key(name) {
                let k = choose|k: int| 0 <= k < earlier.len() && offers_hook(#[trigger] earlier[k], name);
                assert(dirs[k] == earlier[k]);
            } else {
                assert(offers_hook(dirs[dirs.len() - 1], name));
            }
        }
        if some_offers(dirs, name) {
            let k = choose|k: int| 0 <= k < dirs.len() && offers_hook(#[trigger] dirs[k], name);
            if k < earlier.len() {
                assert(earlier[k] == dirs[k]);
            }
        }
    }
}

/// Among the directories that hold a hook of one name, the last in the list
/// provides it.
pub proof fn lemma_last_dir_wins(dirs: Seq<HookDirModel>, i: int, name: Seq<char>)
    requires
        0 <= i < dirs.len(),
        offers_hook(dirs[i], name),
        forall|k: int| i < k < dirs.len() ==> !offers_hook(#[trigger] dirs[k], name),
    ensures
        merged_hooks(dirs).contains_key(name),
        merged_hooks(dirs)[name] == dirs[i].dir.push(name),
    decreases dirs.len(),
{
    let earlier = dirs.drop_last();
    if i < earlier.len() {
        assert(earlier[i] == dirs[i]);
        assert forall|k: int| i < k < earlier.len() implies !offers_hook(#[trigger] earlier[k], name) by {
            assert(earlier[k] == dirs[k]);
        }
        lemma_last_dir_wins(earlier, i, name);
        assert(!offers_hook(dirs[dirs.len() - 1], name));
    }
}

/// The precedence of hooks. The hooks of a phase have a hook called `name`
/// exactly if some directory holds one, and it is the host directory's if the
/// host directory holds one, else that of the last-listed tag directory that
/// holds one, else the global directory's.
pub proof fn lemma_hook_precedence(
    global: HookDirModel,
    tags: Seq<HookDirModel>,
    host: HookDirModel,
    name: Seq<char>,
)
    ensures
        ({
            let merged = merged_hooks(scan_order(global, tags, host));
            &&& merged.contains_key(name) <==> offers_hook(host, name) || some_offers(tags, name)
                || offers_hook(global, name)
            &&& offers_hook(host, name) ==> merged[name] == host.dir.push(name)
            &&& forall|j: int|
                0 <= j < tags.len() && !offers_hook(host, name) && offers_hook(#[trigger] tags[j], name)
                    && (forall|k: int| j < k < tags.len() ==> !offers_hook(#[trigger] tags[k], name))
                    ==> merged[name] == tags[j].dir.push(name)
            &&& !offers_hook(host, name) && !some_offers(tags, name) && offers_hook(global, name)
                ==> merged[name] == global.dir.push(name)
        }),
{
    let dirs = scan_order(global, tags, host);
    let merged = merged_hooks(dirs);
    lemma_merged_domain(dirs, name);
    assert(dirs[0] == global);
    assert(dirs[dirs.len() - 1] == host);
    assert forall|j: int| 0 <= j < tags.len() implies #[trigger] dirs[j + 1] == tags[j] by {}
    if some_offers(dirs, name) {
        let k = choose|k: int| 0 <= k < dirs.len() && offers_hook(#[trigger] dirs[k], name);
        if 0 < k < dirs.len() - 1 {
            assert(tags[k - 1] == dirs[k]);
        }
    }
    if some_offers(tags, name) {
        let j = choose|j: int| 0 <= j < tags.len() && offers_hook(#[trigger] tags[j], name);
        assert(offers_hook(dirs[j + 1], name));
    }
    if offers_hook(host, name) {
        lemma_last_dir_wins(dirs, dirs.len() - 1, name);
    }
    assert forall|j: int|
        0 <= j < tags.len() && !offers_hook(host, name) && offers_hook(#[trigger] tags[j], name) && (
        forall|k: int| j < k < tags.len() ==> !offers_hook(#[trigger] tags[k], name)) implies merged[name]
        == tags[j].dir.push(name) by {
        assert forall|k: int| j + 1 < k < dirs.len() implies !offers_hook(#[trigger] dirs[k], name) by {
            if k < dirs.len() - 1 {
                assert(dirs[k] == tags[k - 1]);
            }
        }
        lemma_last_dir_wins(dirs, j + 1, name);
    }
    if !offers_hook(host, name) && !some_offers(tags, name) && offers_hook(global, name) {
        assert forall|k: int| 0 < k < dirs.len() implies !offers_hook(#[trigger] dirs[k], name) by {
            if k < dirs.len() - 1 {
                assert(dirs[k] == tags[k - 1]);
            }
        }
        lemma_last_dir_wins(dirs, 0, name);
    }
}

/// Hooks run in the order of their names, whichever directory each came
/// from: of two different hooks of a phase, the one whose name sorts first
/// stands first.
pub proof fn lemma_execution_order(hooks: Seq<HookModel>, i: int, j: int)
    requires
        sorted_by_name(hooks),
        0 <= i < hooks.len(),
        0 <= j < hooks.len(),
    ensures
        i < j <==> sorts_before(hooks[i].name, hooks[j].name),
        i == j <==> hooks[i].name == hooks[j].name,
{
    lemma_names_ordered(hooks[i].name, hooks[j].name, hooks[i].name);
    if i < j {
        assert(sorts_before(hooks[i].name, hooks[j].name));
    }
    if j < i {
        assert(sorts_before(hooks[j].name, hooks[i].name));
    }
}

impl HookRunModel {
    /// The phase after each of `exits` has been recorded in turn.
    pub open spec fn advance_all(self, exits: Seq<HookExit>) -> HookRunModel
        decreases exits.len(),
    {
        if exits.len() == 0 {
            self
        } else {
            self.advance_all(exits.drop_last()).advance(exits.last())
        }
    }
}

/// Whether every one of `exits` is a success.
pub open spec fn all_successful(exits: Seq<HookExit>) -> bool {
    forall|i: int| 0 <= i < exits.len() ==> exits[i] == HookExit::Success
}

/// Each hook runs once, in order, and the first failure ends the phase. A
/// phase that is not simulated and has seen the exits of its first hooks asks
/// for the next hook if all of them succeeded, has succeeded if these were all
/// its hooks, and has failed as soon as one of them did not succeed.
pub proof fn lemma_phase_stops_at_first_failure(run: HookRunModel, exits: Seq<HookExit>)
    requires
        run.next == 0,
        !run.failed,
        !run.simulate,
        exits.len() <= run.hooks.len(),
        run.hooks.len() <= usize::MAX,
    ensures
        all_successful(exits) && exits.len() < run.hooks.len() ==> run.advance_all(exits).step() == (
        HookStep::Execute { index: exits.len() as usize }),
        all_successful(exits) && exits.len() == run.hooks.len() ==> run.advance_all(exits).step() == (
        HookStep::Finished { success: true }),
        !all_successful(exits) ==> run.advance_all(exits).step() == (HookStep::Finished {
            success: false,
        }),
        all_successful(exits) ==> run.advance_all(exits).next == exits.len(),
        run.advance_all(exits).hooks == run.hooks,
        !run.advance_all(exits).simulate,
        run.advance_all(exits).failed == !all_successful(exits),
        run.advance_all(exits).next <= exits.len(),
    decreases exits.len(),
{
    if exits.len() > 0 {
        let earlier = exits.drop_last();
        lemma_phase_stops_at_first_failure(run, earlier);
        if all_successful(exits) {
            assert(exits[exits.len() - 1] == HookExit::Success);
            assert forall|i: int| 0 <= i < earlier.len() implies earlier[i] == HookExit::Success by {
                assert(exits[i] == HookExit::Success);
            }
        } else {
            let i = choose|i: int| 0 <= i < exits.len() && exits[i] != HookExit::Success;
            if i < earlier.len() {
                assert(earlier[i] != HookExit::Success);
            }
        }
    }
}

/// A simulated phase runs nothing and cannot fail: whatever is recorded, it
/// never asks for a hook to be executed, and once every hook has been
/// announced it has succeeded.
pub proof fn lemma_simulation_executes_nothing(run: HookRunModel, exits: Seq<HookExit>)
    requires
        run.next == 0,
        !run.failed,
        run.simulate,
        exits.len() <= run.hooks.len(),
        run.hooks.len() <= usize::MAX,
    ensures
        !(run.advance_all(exits).step() is Execute),
        exits.len() < run.hooks.len() ==> run.advance_all(exits).step() == (HookStep::Announce {
            index: exits.len() as usize,
        }),
        exits.len() == run.hooks.len() ==> run.advance_all(exits).step() == (HookStep::Finished {
            success: true,
        }),
        run.advance_all(exits).hooks == run.hooks,
        run.advance_all(exits).simulate,
        !run.advance_all(exits).failed,
        run.advance_all(exits).next == exits.len(),
    decreases exits.len(),
{
    if exits.len() > 0 {
        lemma_simulation_executes_nothing(run, exits.drop_last());
    }
}

} // verus!
