use dotsync::path::FilePath;
use dotsync::resolver::{removal_targets, resolve_directories, resolve_links, Tier};

fn rpath(parts: &[&str]) -> FilePath {
    FilePath::from_components(parts.iter().map(|p| p.to_string()).collect())
}

fn tier(root: &[&str], files: &[&[&str]], dirs: &[&[&str]]) -> Tier {
    Tier {
        root: rpath(root),
        files: files.iter().map(|f| rpath(f)).collect(),
        dirs: dirs.iter().map(|d| rpath(d)).collect(),
    }
}

fn home() -> FilePath {
    rpath(&["/", "home", "u"])
}

#[test]
fn tag_file_overrides_global_file() {
    let global = tier(&["repo", "vim", "files"], &[&[".vimrc"]], &[]);
    let work = tier(&["repo", "vim", "tags", "work", "files"], &[&[".vimrc"]], &[]);
    let host = Tier::absent(rpath(&["repo", "vim", "hosts", "laptop", "files"]));
    let mapping = resolve_links(&home(), &host, &vec![work], &global);
    assert_eq!(mapping.len(), 1);
    assert_eq!(mapping.links[0].destination, rpath(&["/", "home", "u", ".vimrc"]));
    assert_eq!(
        mapping.links[0].source,
        rpath(&["repo", "vim", "tags", "work", "files", ".vimrc"])
    );
}

#[test]
fn host_file_overrides_tag_and_global_file() {
    let global = tier(&["repo", "vim", "files"], &[&[".vimrc"]], &[]);
    let work = tier(&["repo", "vim", "tags", "work", "files"], &[&[".vimrc"]], &[]);
    let host = tier(&["repo", "vim", "hosts", "laptop", "files"], &[&[".vimrc"]], &[]);
    let mapping = resolve_links(&home(), &host, &vec![work], &global);
    assert_eq!(mapping.len(), 1);
    assert_eq!(
        mapping.get(&rpath(&["/", "home", "u", ".vimrc"])),
        Some(&rpath(&["repo", "vim", "hosts", "laptop", "files", ".vimrc"]))
    );
    // with no tags at all the host still wins
    let global = tier(&["repo", "vim", "files"], &[&[".vimrc"]], &[]);
    let host = tier(&["repo", "vim", "hosts", "laptop", "files"], &[&[".vimrc"]], &[]);
    let mapping = resolve_links(&home(), &host, &vec![], &global);
    assert_eq!(
        mapping.get(&rpath(&["/", "home", "u", ".vimrc"])),
        Some(&rpath(&["repo", "vim", "hosts", "laptop", "files", ".vimrc"]))
    );
}

#[test]
fn earlier_tag_wins_over_later_tag() {
    let global = tier(&["r", "p", "files"], &[], &[]);
    let host = Tier::absent(rpath(&["r", "p", "hosts", "h", "files"]));
    let first = tier(&["r", "p", "tags", "work", "files"], &[&["a"]], &[]);
    let second = tier(&["r", "p", "tags", "home", "files"], &[&["a"], &["b"]], &[]);
    let mapping = resolve_links(&home(), &host, &vec![first, second], &global);
    assert_eq!(mapping.len(), 2);
    assert_eq!(
        mapping.get(&rpath(&["/", "home", "u", "a"])),
        Some(&rpath(&["r", "p", "tags", "work", "files", "a"]))
    );
    assert_eq!(
        mapping.get(&rpath(&["/", "home", "u", "b"])),
        Some(&rpath(&["r", "p", "tags", "home", "files", "b"]))
    );
    // the other way round, the other tag wins
    let global = tier(&["r", "p", "files"], &[], &[]);
    let host = Tier::absent(rpath(&["r", "p", "hosts", "h", "files"]));
    let first = tier(&["r", "p", "tags", "work", "files"], &[&["a"]], &[]);
    let second = tier(&["r", "p", "tags", "home", "files"], &[&["a"], &["b"]], &[]);
    let mapping = resolve_links(&home(), &host, &vec![second, first], &global);
    assert_eq!(
        mapping.get(&rpath(&["/", "home", "u", "a"])),
        Some(&rpath(&["r", "p", "tags", "home", "files", "a"]))
    );
}

#[test]
fn every_tier_contributes_the_files_only_it_has() {
    let global = tier(&["r", "p", "files"], &[&["g"], &["shared"], &["sub", "deep"]], &[&["sub"]]);
    let tag = tier(&["r", "p", "tags", "t", "files"], &[&["t"], &["shared"]], &[]);
    let host = tier(&["r", "p", "hosts", "h", "files"], &[&["h"]], &[]);
    let mapping = resolve_links(&home(), &host, &vec![tag], &global);
    assert_eq!(mapping.len(), 5);
    assert_eq!(
        mapping.get(&rpath(&["/", "home", "u", "g"])),
        Some(&rpath(&["r", "p", "files", "g"]))
    );
    assert_eq!(
        mapping.get(&rpath(&["/", "home", "u", "t"])),
        Some(&rpath(&["r", "p", "tags", "t", "files", "t"]))
    );
    assert_eq!(
        mapping.get(&rpath(&["/", "home", "u", "h"])),
        Some(&rpath(&["r", "p", "hosts", "h", "files", "h"]))
    );
    assert_eq!(
        mapping.get(&rpath(&["/", "home", "u", "shared"])),
        Some(&rpath(&["r", "p", "tags", "t", "files", "shared"]))
    );
    assert_eq!(
        mapping.get(&rpath(&["/", "home", "u", "sub", "deep"])),
        Some(&rpath(&["r", "p", "files", "sub", "deep"]))
    );
    assert_eq!(mapping.get(&rpath(&["/", "home", "u", "missing"])), None);
    assert_eq!(mapping.get(&rpath(&["g"])), None);
}

#[test]
fn no_destination_is_listed_twice() {
    let global = tier(&["r", "p", "files"], &[&["a"], &["b"]], &[]);
    let tag = tier(&["r", "p", "tags", "t", "files"], &[&["a"], &["b"]], &[]);
    let host = tier(&["r", "p", "hosts", "h", "files"], &[&["a"]], &[]);
    let mapping = resolve_links(&home(), &host, &vec![tag], &global);
    assert_eq!(mapping.len(), 2);
    assert_ne!(mapping.links[0].destination, mapping.links[1].destination);
}

#[test]
fn tiers_without_files_resolve_to_nothing() {
    let global = Tier::absent(rpath(&["r", "p", "files"]));
    let host = Tier::absent(rpath(&["r", "p", "hosts", "h", "files"]));
    let mapping = resolve_links(&home(), &host, &vec![], &global);
    assert_eq!(mapping.len(), 0);
    assert_eq!(mapping.get(&home()), None);
}

#[test]
fn directories_of_all_tiers_are_wanted_once_each() {
    let global = tier(&["r", "p", "files"], &[], &[&[".config"], &[".config", "nvim"]]);
    let tag = tier(&["r", "p", "tags", "t", "files"], &[], &[&[".config"], &[".ssh"]]);
    let host = tier(&["r", "p", "hosts", "h", "files"], &[], &[&[".ssh"], &["bin"]]);
    let dirs = resolve_directories(&home(), &host, &vec![tag], &global);
    assert_eq!(dirs.len(), 4);
    for wanted in [
        rpath(&["/", "home", "u", ".config"]),
        rpath(&["/", "home", "u", ".config", "nvim"]),
        rpath(&["/", "home", "u", ".ssh"]),
        rpath(&["/", "home", "u", "bin"]),
    ] {
        assert_eq!(dirs.iter().filter(|d| **d == wanted).count(), 1);
    }
}

#[test]
fn a_listing_is_made_relative_to_its_root() {
    let root = rpath(&["r", "p", "files"]);
    let files = vec![rpath(&["r", "p", "files", ".vimrc"]), rpath(&["r", "p", "files", "a", "b"])];
    let dirs = vec![rpath(&["r", "p", "files", "a"])];
    let found = Tier::from_listing(root, &files, &dirs);
    assert_eq!(found, Some(tier(&["r", "p", "files"], &[&[".vimrc"], &["a", "b"]], &[&["a"]])));
}

#[test]
fn a_listing_outside_its_root_is_rejected() {
    let files = vec![rpath(&["r", "p", "files", ".vimrc"]), rpath(&["r", "q", "files", "x"])];
    assert_eq!(Tier::from_listing(rpath(&["r", "p", "files"]), &files, &vec![]), None);
    let dirs = vec![rpath(&["elsewhere"])];
    assert_eq!(Tier::from_listing(rpath(&["r", "p", "files"]), &vec![], &dirs), None);
}

#[test]
fn a_package_answers_for_each_destination_once() {
    let global = tier(&["r", "p", "files"], &[&["a"], &["b"]], &[]);
    let tag = tier(&["r", "p", "tags", "t", "files"], &[&["a"], &["c"]], &[]);
    let host = tier(&["r", "p", "hosts", "h", "files"], &[&["a"]], &[]);
    let targets = removal_targets(&home(), &host, &vec![tag], &global);
    assert_eq!(targets.len(), 3);
    for wanted in [
        rpath(&["/", "home", "u", "a"]),
        rpath(&["/", "home", "u", "b"]),
        rpath(&["/", "home", "u", "c"]),
    ] {
        assert_eq!(targets.iter().filter(|d| **d == wanted).count(), 1);
    }
}
