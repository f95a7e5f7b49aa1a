use dotsync::args::{AddArgs, Args, Command};
use dotsync::entry::EntryKind;
use dotsync::layout::Phase;
use dotsync::path::FilePath;
use dotsync::pipeline::{Mode, OnFailure, Stage, Tally, TallyStep};
use dotsync::runner::{AddError, AddOutcome, Pending, Progress, Runner};
use dotsync::sync::{FsOp, Observation};

fn apath(parts: &[&str]) -> FilePath {
    FilePath::from_components(parts.iter().map(|p| p.to_string()).collect())
}

fn args(packages: &[&str]) -> Args {
    Args {
        command: Command::Install,
        packages: packages.iter().map(|p| p.to_string()).collect(),
        tags: vec!["work".to_string(), "x11".to_string()],
        hostname: "laptop".to_string(),
        dir: apath(&["/", "repo"]),
        target_dir: apath(&["/", "home", "u"]),
        test: false,
        force: false,
        no_confirm: true,
        add_args: None,
    }
}

fn run(package: usize, stage: Stage) -> Pending {
    Pending::Run { package, stage }
}

fn drive(runner: &Runner, mode: Mode, replies: &[bool]) -> (Vec<Pending>, bool) {
    let mut seen = Vec::new();
    let mut progress = runner.begin();
    let mut replies = replies.iter();
    loop {
        if let Pending::Finished { success } = progress.pending {
            return (seen, success);
        }
        seen.push(progress.pending);
        let ok = *replies.next().unwrap();
        progress = match mode {
            Mode::Install => runner.install(&progress, ok),
            Mode::Uninstall => runner.uninstall(&progress, ok),
        };
    }
}

#[test]
fn new_keeps_the_arguments() {
    let a = args(&["vim"]);
    let runner = Runner::new(&a);
    assert_eq!(runner.args.packages, vec!["vim"]);
    assert_eq!(runner.args.hostname, "laptop");
    assert!(!runner.needs_confirmation());
}

#[test]
fn installing_goes_through_the_four_stages_in_order() {
    let a = args(&["vim"]);
    let (seen, success) = drive(&Runner::new(&a), Mode::Install, &[true; 4]);
    assert_eq!(
        seen,
        vec![
            run(0, Stage::PreHooks),
            run(0, Stage::EnsureDirectories),
            run(0, Stage::SyncLinks),
            run(0, Stage::PostHooks),
        ]
    );
    assert!(success);
}

#[test]
fn uninstalling_goes_through_the_four_stages_in_order() {
    let a = args(&["vim"]);
    let (seen, success) = drive(&Runner::new(&a), Mode::Uninstall, &[true; 4]);
    assert_eq!(
        seen,
        vec![
            run(0, Stage::PreHooks),
            run(0, Stage::ComputeTargets),
            run(0, Stage::RemoveLinks),
            run(0, Stage::PostHooks),
        ]
    );
    assert!(success);
}

#[test]
fn a_failed_stage_ends_its_package_and_the_next_one_still_runs() {
    let a = args(&["vim", "zsh"]);
    let replies = [true, false, true, true, true, true];
    let (seen, success) = drive(&Runner::new(&a), Mode::Install, &replies);
    assert_eq!(
        seen,
        vec![
            run(0, Stage::PreHooks),
            run(0, Stage::EnsureDirectories),
            run(1, Stage::PreHooks),
            run(1, Stage::EnsureDirectories),
            run(1, Stage::SyncLinks),
            run(1, Stage::PostHooks),
        ]
    );
    assert!(!success);
}

#[test]
fn a_failure_in_any_stage_fails_the_run() {
    for failing in 0..4 {
        let a = args(&["vim"]);
        let mut replies = vec![true; failing];
        replies.push(false);
        let (seen, success) = drive(&Runner::new(&a), Mode::Uninstall, &replies);
        assert_eq!(seen.len(), failing + 1);
        assert!(!success);
    }
}

#[test]
fn the_user_is_asked_unless_told_otherwise() {
    let mut a = args(&["vim", "zsh"]);
    a.no_confirm = false;
    let runner = Runner::new(&a);
    assert!(runner.needs_confirmation());
    // the first package is declined, the second accepted
    let (seen, success) = drive(&runner, Mode::Install, &[false, true, true, true, true, true]);
    assert_eq!(
        seen,
        vec![
            Pending::Confirm { package: 0 },
            Pending::Confirm { package: 1 },
            run(1, Stage::PreHooks),
            run(1, Stage::EnsureDirectories),
            run(1, Stage::SyncLinks),
            run(1, Stage::PostHooks),
        ]
    );
    assert!(success);
    // declining everything is no failure
    let (seen, success) = drive(&runner, Mode::Uninstall, &[false, false]);
    assert_eq!(seen, vec![Pending::Confirm { package: 0 }, Pending::Confirm { package: 1 }]);
    assert!(success);
}

#[test]
fn test_mode_never_asks() {
    let mut a = args(&["vim"]);
    a.no_confirm = false;
    a.test = true;
    let runner = Runner::new(&a);
    assert!(!runner.needs_confirmation());
    assert_eq!(runner.begin().pending, run(0, Stage::PreHooks));
}

#[test]
fn a_run_without_packages_is_over_at_once() {
    let a = args(&[]);
    let runner = Runner::new(&a);
    assert_eq!(runner.begin(), Progress { pending: Pending::Finished { success: true }, failed: false });
    let over = runner.install(&runner.begin(), false);
    assert_eq!(over.pending, Pending::Finished { success: true });
}

#[test]
fn stages_name_their_hook_phase() {
    assert_eq!(Stage::PreHooks.phase(Mode::Install), Some(Phase::PreUp));
    assert_eq!(Stage::PostHooks.phase(Mode::Install), Some(Phase::PostUp));
    assert_eq!(Stage::PreHooks.phase(Mode::Uninstall), Some(Phase::PreDown));
    assert_eq!(Stage::PostHooks.phase(Mode::Uninstall), Some(Phase::PostDown));
    assert_eq!(Stage::SyncLinks.phase(Mode::Install), None);
    assert_eq!(Stage::RemoveLinks.phase(Mode::Uninstall), None);
    assert_eq!(Phase::PreUp.dir_name(), "pre-up");
    assert_eq!(Phase::PostUp.dir_name(), "post-up");
    assert_eq!(Phase::PreDown.dir_name(), "pre-down");
    assert_eq!(Phase::PostDown.dir_name(), "post-down");
}

#[test]
fn hook_directories_follow_the_package_layout() {
    let a = args(&["vim"]);
    let dirs = Runner::new(&a).hook_dirs("vim", Phase::PreUp);
    assert_eq!(dirs.global, apath(&["/", "repo", "vim", "hooks", "pre-up"]));
    assert_eq!(dirs.host, apath(&["/", "repo", "vim", "hosts", "laptop", "hooks", "pre-up"]));
    assert_eq!(
        dirs.tags,
        vec![
            apath(&["/", "repo", "vim", "tags", "work", "hooks", "pre-up"]),
            apath(&["/", "repo", "vim", "tags", "x11", "hooks", "pre-up"]),
        ]
    );
    let dirs = Runner::new(&a).hook_dirs("zsh", Phase::PostDown);
    assert_eq!(dirs.global, apath(&["/", "repo", "zsh", "hooks", "post-down"]));
}

#[test]
fn file_trees_follow_the_package_layout() {
    let a = args(&["vim"]);
    let runner = Runner::new(&a);
    assert_eq!(runner.package_base("vim"), apath(&["/", "repo", "vim"]));
    let roots = runner.file_roots("vim");
    assert_eq!(roots.global, apath(&["/", "repo", "vim", "files"]));
    assert_eq!(roots.host, apath(&["/", "repo", "vim", "hosts", "laptop", "files"]));
    assert_eq!(
        roots.tags,
        vec![
            apath(&["/", "repo", "vim", "tags", "work", "files"]),
            apath(&["/", "repo", "vim", "tags", "x11", "files"]),
        ]
    );
}

fn adding(file: &[&str], host_specific: bool) -> Args {
    let mut a = args(&[]);
    a.command = Command::Add;
    a.add_args =
        Some(AddArgs { filename: apath(file), package: "vim".to_string(), host_specific });
    a
}

fn nothing() -> Observation {
    Observation { kind: None, resolved: None }
}

#[test]
fn a_file_is_added_at_its_relative_path_in_the_package() {
    let a = adding(&["/", "home", "u", ".config", "nvim", "init.vim"], false);
    assert_eq!(
        Runner::new(&a).add_destination(),
        Ok(apath(&["/", "repo", "vim", "files", ".config", "nvim", "init.vim"]))
    );
    let a = adding(&["/", "home", "u", ".vimrc"], true);
    assert_eq!(
        Runner::new(&a).add_destination(),
        Ok(apath(&["/", "repo", "vim", "hosts", "laptop", "files", ".vimrc"]))
    );
}

#[test]
fn a_file_outside_the_target_directory_cannot_be_added() {
    let a = adding(&["/", "etc", "passwd"], false);
    assert_eq!(Runner::new(&a).add_destination(), Err(AddError::OutsideTarget));
    assert_eq!(Runner::new(&a).add(&nothing()).err(), Some(AddError::OutsideTarget));
    let a = args(&[]);
    assert_eq!(Runner::new(&a).add_destination(), Err(AddError::NothingToAdd));
    assert_eq!(Runner::new(&a).add(&nothing()).err(), Some(AddError::NothingToAdd));
}

#[test]
fn adding_moves_the_file_and_links_it_back() {
    let a = adding(&["/", "home", "u", ".vimrc"], false);
    let d = Runner::new(&a).add(&nothing()).unwrap();
    assert_eq!(d.outcome, AddOutcome::Moved);
    let place = apath(&["/", "repo", "vim", "files", ".vimrc"]);
    let file = apath(&["/", "home", "u", ".vimrc"]);
    assert_eq!(
        d.ops,
        vec![
            FsOp::CreateDirAll { path: apath(&["/", "repo", "vim", "files"]) },
            FsOp::Rename { from: file.clone(), to: place.clone() },
            FsOp::Symlink { link: file, target: place },
        ]
    );
}

#[test]
fn adding_does_not_overwrite_without_force() {
    let a = adding(&["/", "home", "u", ".vimrc"], false);
    let there = Observation { kind: Some(EntryKind::File), resolved: None };
    let d = Runner::new(&a).add(&there).unwrap();
    assert_eq!(d.outcome, AddOutcome::Refused);
    assert_eq!(d.ops, vec![]);
    let mut a = adding(&["/", "home", "u", ".vimrc"], false);
    a.force = true;
    let there = Observation { kind: Some(EntryKind::Directory), resolved: None };
    let d = Runner::new(&a).add(&there).unwrap();
    assert_eq!(d.outcome, AddOutcome::Overwritten);
    assert_eq!(d.ops.len(), 4);
    assert_eq!(d.ops[0], FsOp::RemoveDirAll { path: apath(&["/", "repo", "vim", "files", ".vimrc"]) });
}

#[test]
fn adding_in_test_mode_touches_nothing() {
    let mut a = adding(&["/", "home", "u", ".vimrc"], false);
    a.test = true;
    a.force = true;
    let d = Runner::new(&a).add(&nothing()).unwrap();
    assert_eq!(d.outcome, AddOutcome::Moved);
    assert_eq!(d.ops, vec![]);
    let there = Observation { kind: Some(EntryKind::File), resolved: None };
    let d = Runner::new(&a).add(&there).unwrap();
    assert_eq!(d.outcome, AddOutcome::Overwritten);
    assert_eq!(d.ops, vec![]);
}

#[test]
fn directories_and_links_are_all_attempted() {
    for stage in [Stage::EnsureDirectories, Stage::SyncLinks, Stage::ComputeTargets] {
        assert_eq!(stage.on_failure(), OnFailure::Continue);
        let mut tally = Tally::new(3, stage);
        assert_eq!(tally.step(), TallyStep::Attempt { index: 0 });
        tally.record(false);
        assert_eq!(tally.step(), TallyStep::Attempt { index: 1 });
        tally.record(true);
        assert_eq!(tally.step(), TallyStep::Attempt { index: 2 });
        tally.record(true);
        assert_eq!(tally.step(), TallyStep::Finished { success: false });
    }
    let mut tally = Tally::new(2, Stage::SyncLinks);
    tally.record(true);
    tally.record(true);
    assert_eq!(tally.step(), TallyStep::Finished { success: true });
    assert_eq!(Tally::new(0, Stage::SyncLinks).step(), TallyStep::Finished { success: true });
}

#[test]
fn a_failed_removal_ends_the_stage() {
    assert_eq!(Stage::RemoveLinks.on_failure(), OnFailure::Abort);
    assert_eq!(Stage::PreHooks.on_failure(), OnFailure::Abort);
    assert_eq!(Stage::PostHooks.on_failure(), OnFailure::Abort);
    let mut tally = Tally::new(3, Stage::RemoveLinks);
    tally.record(true);
    assert_eq!(tally.step(), TallyStep::Attempt { index: 1 });
    tally.record(false);
    assert_eq!(tally.step(), TallyStep::Finished { success: false });
    tally.record(true);
    assert_eq!(tally.step(), TallyStep::Finished { success: false });
    assert_eq!(tally.done, 2);
}
