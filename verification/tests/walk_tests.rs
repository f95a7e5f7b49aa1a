use dotsync::entry::{DirEntry, EntryKind};
use dotsync::path::FilePath;
use dotsync::resolver::Tier;
use dotsync::walk::TreeWalk;

fn wpath(parts: &[&str]) -> FilePath {
    FilePath::from_components(parts.iter().map(|p| p.to_string()).collect())
}

fn entry(name: &str, kind: EntryKind) -> DirEntry {
    DirEntry { name: name.to_string(), kind }
}

#[test]
fn a_walk_goes_into_directories_and_keeps_the_rest_as_files() {
    let mut walk = TreeWalk::start(wpath(&["r", "p", "files"]), true);
    assert_eq!(walk.next(), Some(wpath(&["r", "p", "files"])));
    walk.record(&vec![
        entry(".vimrc", EntryKind::File),
        entry(".config", EntryKind::Directory),
        entry("todo", EntryKind::Symlink),
        entry("bin", EntryKind::Directory),
    ]);
    assert_eq!(walk.next(), Some(wpath(&["r", "p", "files", "bin"])));
    walk.record(&vec![entry("tool", EntryKind::File)]);
    assert_eq!(walk.next(), Some(wpath(&["r", "p", "files", ".config"])));
    walk.record(&vec![entry("nvim", EntryKind::Directory)]);
    assert_eq!(walk.next(), Some(wpath(&["r", "p", "files", ".config", "nvim"])));
    walk.record(&vec![entry("init.vim", EntryKind::Other)]);
    assert_eq!(walk.next(), None);
    let tier = walk.finish();
    assert_eq!(
        tier,
        Tier {
            root: wpath(&["r", "p", "files"]),
            files: vec![
                wpath(&[".vimrc"]),
                wpath(&["todo"]),
                wpath(&["bin", "tool"]),
                wpath(&[".config", "nvim", "init.vim"]),
            ],
            dirs: vec![wpath(&[".config"]), wpath(&["bin"]), wpath(&[".config", "nvim"])],
        }
    );
}

#[test]
fn a_missing_tree_is_an_empty_tier() {
    let walk = TreeWalk::start(wpath(&["r", "p", "hosts", "h", "files"]), false);
    assert_eq!(walk.next(), None);
    assert_eq!(walk.finish(), Tier::absent(wpath(&["r", "p", "hosts", "h", "files"])));
}

#[test]
fn an_unreadable_directory_counts_as_empty() {
    let mut walk = TreeWalk::start(wpath(&["root"]), true);
    walk.record(&vec![entry("locked", EntryKind::Directory), entry("f", EntryKind::File)]);
    assert_eq!(walk.next(), Some(wpath(&["root", "locked"])));
    walk.record(&vec![]);
    assert_eq!(walk.next(), None);
    let tier = walk.finish();
    assert_eq!(tier.files, vec![wpath(&["f"])]);
    assert_eq!(tier.dirs, vec![wpath(&["locked"])]);
}

#[test]
fn recording_after_the_end_changes_nothing() {
    let mut walk = TreeWalk::start(wpath(&["root"]), false);
    walk.record(&vec![entry("f", EntryKind::File)]);
    assert_eq!(walk.next(), None);
    assert_eq!(walk.finish(), Tier::absent(wpath(&["root"])));
}
