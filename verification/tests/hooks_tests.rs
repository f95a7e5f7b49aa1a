use dotsync::entry::{DirEntry, EntryKind};
use dotsync::hooks::{run_hooks, Hook, HookDir, HookExit, HookRun, HookStep};
use dotsync::path::FilePath;

fn hpath(parts: &[&str]) -> FilePath {
    FilePath::from_components(parts.iter().map(|p| p.to_string()).collect())
}

fn hook_dir(dir: &[&str], files: &[&str]) -> HookDir {
    HookDir {
        dir: hpath(dir),
        entries: files
            .iter()
            .map(|name| DirEntry { name: name.to_string(), kind: EntryKind::File })
            .collect(),
    }
}

fn hook(name: &str, path: &[&str]) -> Hook {
    Hook { name: name.to_string(), path: hpath(path) }
}

fn names(run: &HookRun) -> Vec<String> {
    run.hooks.iter().map(|h| h.name.clone()).collect()
}

#[test]
fn hooks_run_in_name_order_whatever_their_tier() {
    let global = hook_dir(&["p", "hooks", "pre-up"], &["z.sh"]);
    let tag = hook_dir(&["p", "tags", "work", "hooks", "pre-up"], &["a.sh"]);
    let host = hook_dir(&["p", "hosts", "laptop", "hooks", "pre-up"], &["m.sh"]);
    let run = run_hooks(&global, &host, &vec![tag], false);
    assert_eq!(names(&run), vec!["a.sh", "m.sh", "z.sh"]);
    // the same files in other tiers: the same order
    let global = hook_dir(&["p", "hooks", "pre-up"], &["m.sh", "a.sh"]);
    let tag = hook_dir(&["p", "tags", "work", "hooks", "pre-up"], &[]);
    let host = hook_dir(&["p", "hosts", "laptop", "hooks", "pre-up"], &["z.sh"]);
    let run = run_hooks(&global, &host, &vec![tag], false);
    assert_eq!(names(&run), vec!["a.sh", "m.sh", "z.sh"]);
}

#[test]
fn host_hook_overrides_tag_and_global_hook() {
    let global = hook_dir(&["p", "hooks", "pre-up"], &["backup.sh", "only-global"]);
    let tag = hook_dir(&["p", "tags", "work", "hooks", "pre-up"], &["backup.sh", "only-tag"]);
    let host = hook_dir(&["p", "hosts", "laptop", "hooks", "pre-up"], &["backup.sh"]);
    let run = run_hooks(&global, &host, &vec![tag], false);
    assert_eq!(
        run.hooks,
        vec![
            hook("backup.sh", &["p", "hosts", "laptop", "hooks", "pre-up", "backup.sh"]),
            hook("only-global", &["p", "hooks", "pre-up", "only-global"]),
            hook("only-tag", &["p", "tags", "work", "hooks", "pre-up", "only-tag"]),
        ]
    );
}

#[test]
fn tag_hook_overrides_global_hook() {
    let global = hook_dir(&["p", "hooks", "post-up"], &["x"]);
    let tag = hook_dir(&["p", "tags", "t", "hooks", "post-up"], &["x"]);
    let host = HookDir::unreadable(hpath(&["p", "hosts", "h", "hooks", "post-up"]));
    let run = run_hooks(&global, &host, &vec![tag], false);
    assert_eq!(run.hooks, vec![hook("x", &["p", "tags", "t", "hooks", "post-up", "x"])]);
}

#[test]
fn last_tag_wins_among_tag_hooks() {
    let global = hook_dir(&["p", "hooks", "pre-up"], &[]);
    let host = hook_dir(&["p", "hosts", "h", "hooks", "pre-up"], &[]);
    let first = hook_dir(&["p", "tags", "one", "hooks", "pre-up"], &["x"]);
    let second = hook_dir(&["p", "tags", "two", "hooks", "pre-up"], &["x"]);
    let run = run_hooks(&global, &host, &vec![first, second], false);
    assert_eq!(run.hooks, vec![hook("x", &["p", "tags", "two", "hooks", "pre-up", "x"])]);
    let first = hook_dir(&["p", "tags", "one", "hooks", "pre-up"], &["x"]);
    let second = hook_dir(&["p", "tags", "two", "hooks", "pre-up"], &["x"]);
    let run = run_hooks(&global, &host, &vec![second, first], false);
    assert_eq!(run.hooks, vec![hook("x", &["p", "tags", "one", "hooks", "pre-up", "x"])]);
}

#[test]
fn only_regular_files_are_hooks() {
    let global = HookDir {
        dir: hpath(&["p", "hooks", "pre-up"]),
        entries: vec![
            DirEntry { name: "dir".to_string(), kind: EntryKind::Directory },
            DirEntry { name: "run".to_string(), kind: EntryKind::File },
            DirEntry { name: "link".to_string(), kind: EntryKind::Symlink },
            DirEntry { name: "pipe".to_string(), kind: EntryKind::Other },
        ],
    };
    let none = HookDir::unreadable(hpath(&["p", "hosts", "h", "hooks", "pre-up"]));
    let run = run_hooks(&global, &none, &vec![], false);
    assert_eq!(run.hooks, vec![hook("run", &["p", "hooks", "pre-up", "run"])]);
}

#[test]
fn a_directory_entry_does_not_shadow_a_hook_of_its_name() {
    let global = hook_dir(&["p", "hooks", "pre-up"], &["x"]);
    let host = HookDir {
        dir: hpath(&["p", "hosts", "h", "hooks", "pre-up"]),
        entries: vec![DirEntry { name: "x".to_string(), kind: EntryKind::Directory }],
    };
    let run = run_hooks(&global, &host, &vec![], false);
    assert_eq!(run.hooks, vec![hook("x", &["p", "hooks", "pre-up", "x"])]);
}

#[test]
fn unreadable_directories_contribute_no_hooks() {
    let global = HookDir::unreadable(hpath(&["p", "hooks", "pre-up"]));
    let host = HookDir::unreadable(hpath(&["p", "hosts", "h", "hooks", "pre-up"]));
    let tag = HookDir::unreadable(hpath(&["p", "tags", "t", "hooks", "pre-up"]));
    let run = run_hooks(&global, &host, &vec![tag], false);
    assert_eq!(run.hooks.len(), 0);
    assert_eq!(run.step(), HookStep::Finished { success: true });
}

#[test]
fn every_hook_runs_once_in_order_when_all_succeed() {
    let global = hook_dir(&["g"], &["b", "a", "c"]);
    let host = HookDir::unreadable(hpath(&["h"]));
    let mut run = run_hooks(&global, &host, &vec![], false);
    assert_eq!(run.step(), HookStep::Execute { index: 0 });
    run.advance(HookExit::Success);
    assert_eq!(run.step(), HookStep::Execute { index: 1 });
    run.advance(HookExit::Success);
    assert_eq!(run.step(), HookStep::Execute { index: 2 });
    run.advance(HookExit::Success);
    assert_eq!(run.step(), HookStep::Finished { success: true });
    run.advance(HookExit::LaunchFailed);
    assert_eq!(run.step(), HookStep::Finished { success: true });
}

#[test]
fn the_first_failing_hook_ends_the_phase() {
    for exit in [HookExit::Failed { code: 3 }, HookExit::Signaled, HookExit::LaunchFailed] {
        let global = hook_dir(&["g"], &["a", "b", "c"]);
        let host = HookDir::unreadable(hpath(&["h"]));
        let mut run = run_hooks(&global, &host, &vec![], false);
        run.advance(HookExit::Success);
        assert_eq!(run.step(), HookStep::Execute { index: 1 });
        run.advance(exit);
        assert_eq!(run.step(), HookStep::Finished { success: false });
        run.advance(HookExit::Success);
        assert_eq!(run.step(), HookStep::Finished { success: false });
        assert_eq!(run.next, 1);
    }
}

#[test]
fn a_simulated_phase_announces_and_never_executes() {
    let global = hook_dir(&["g"], &["a", "b"]);
    let host = HookDir::unreadable(hpath(&["h"]));
    let mut run = run_hooks(&global, &host, &vec![], true);
    assert_eq!(run.step(), HookStep::Announce { index: 0 });
    run.advance(HookExit::LaunchFailed);
    assert_eq!(run.step(), HookStep::Announce { index: 1 });
    run.advance(HookExit::Failed { code: 1 });
    assert_eq!(run.step(), HookStep::Finished { success: true });
}

#[test]
fn the_simulated_plan_is_the_real_plan() {
    let real = run_hooks(&hook_dir(&["g"], &["b", "a"]), &hook_dir(&["h"], &["a"]), &vec![], false);
    let test = run_hooks(&hook_dir(&["g"], &["b", "a"]), &hook_dir(&["h"], &["a"]), &vec![], true);
    assert_eq!(real.hooks, test.hooks);
    assert_eq!(real.hooks, vec![hook("a", &["h", "a"]), hook("b", &["g", "b"])]);
}
