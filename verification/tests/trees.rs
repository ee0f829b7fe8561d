use trx::pattern::pattern_ify;
use trx::Dir;
use trx::FsEntry;
use trx::FsNode;
use trx::FType;
use trx::Glob;
use trx::SearchOpts;

fn file(name: &str) -> FsNode {
    FsNode { name: name.to_string(), read_only: false, entry: FsEntry::File { executable: false } }
}

fn exe(name: &str) -> FsNode {
    FsNode { name: name.to_string(), read_only: false, entry: FsEntry::File { executable: true } }
}

fn dir(name: &str, children: Vec<FsNode>) -> FsNode {
    FsNode { name: name.to_string(), read_only: false, entry: FsEntry::Dir { children, ignore: None } }
}

fn dir_ign(name: &str, children: Vec<FsNode>, ignore: &[&str]) -> FsNode {
    FsNode {
        name: name.to_string(),
        read_only: false,
        entry: FsEntry::Dir {
            children,
            ignore: Some(ignore.iter().map(|s| s.to_string()).collect()),
        },
    }
}

fn child_paths(d: &Dir) -> Vec<String> {
    d.children().iter().map(|c| c.path().clone()).collect()
}

fn positives(pats: &[&str]) -> Vec<Glob> {
    pattern_ify(&pats.iter().map(|s| s.to_string()).collect()).unwrap()
}

#[test]
fn hidden_entries_absent_by_default() {
    let root = dir("root", vec![file(".secret"), file("visible")]);
    let t = Dir::from(&root, &SearchOpts::default()).unwrap();
    assert_eq!(child_paths(&t), vec!["root/visible"]);
}

#[test]
fn hidden_entries_present_when_shown() {
    let root = dir("root", vec![file(".secret"), file("visible")]);
    let opts = SearchOpts { show_hidden: true, ..Default::default() };
    let t = Dir::from(&root, &opts).unwrap();
    assert_eq!(child_paths(&t), vec!["root/.secret", "root/visible"]);
}

#[test]
fn hidden_root_is_exempt() {
    let root = dir(".hiddenroot", vec![file("a")]);
    let t = Dir::from(&root, &SearchOpts::default()).unwrap();
    assert_eq!(t.path(), ".hiddenroot");
    assert_eq!(child_paths(&t), vec![".hiddenroot/a"]);
}

#[test]
fn depth_zero_keeps_single_unexpanded_root() {
    let root = dir("root", vec![file("a"), dir("sub", vec![file("b")])]);
    let opts = SearchOpts { max_depth: Some(0), ..Default::default() };
    let t = Dir::from(&root, &opts).unwrap();
    assert!(matches!(t.ftype(), FType::Dir));
    assert_eq!(t.children().len(), 0);
}

#[test]
fn depth_one_expands_once() {
    let root = dir("root", vec![dir("sub", vec![file("leaf")])]);
    let opts = SearchOpts { max_depth: Some(1), ..Default::default() };
    let t = Dir::from(&root, &opts).unwrap();
    assert_eq!(child_paths(&t), vec!["root/sub"]);
    let sub = &t.children()[0];
    assert!(matches!(sub.ftype(), FType::Dir));
    assert_eq!(sub.children().len(), 0);
}

#[test]
fn positive_patterns_restrict_leaves() {
    let root = dir("root", vec![file("a.txt"), file("b.log")]);
    let opts = SearchOpts { positive_patterns: positives(&["*.txt"]), ..Default::default() };
    let t = Dir::from(&root, &opts).unwrap();
    assert_eq!(child_paths(&t), vec!["root/a.txt"]);
}

#[test]
fn no_positive_patterns_admit_all_leaves() {
    let root = dir("root", vec![file("a.txt"), file("b.log")]);
    let t = Dir::from(&root, &SearchOpts::default()).unwrap();
    assert_eq!(child_paths(&t), vec!["root/a.txt", "root/b.log"]);
}

#[test]
fn directories_bypass_positive_patterns() {
    let root = dir("root", vec![file("b.log"), dir("sub", vec![])]);
    let opts = SearchOpts { positive_patterns: positives(&["*.txt"]), ..Default::default() };
    let t = Dir::from(&root, &opts).unwrap();
    assert_eq!(child_paths(&t), vec!["root/sub"]);
}

#[test]
fn negative_patterns_exclude() {
    let root = dir("root", vec![file("a.txt"), file("b.log")]);
    let opts = SearchOpts { negative_patterns: positives(&["*.log"]), ..Default::default() };
    let t = Dir::from(&root, &opts).unwrap();
    assert_eq!(child_paths(&t), vec!["root/a.txt"]);
}

#[test]
fn whitelist_overrides_negative_patterns() {
    let root = dir("root", vec![file("keep.log"), file("drop.log")]);
    let opts = SearchOpts {
        negative_patterns: positives(&["*.log"]),
        vcs_whitelist_patterns: positives(&["keep.log"]),
        ..Default::default()
    };
    let t = Dir::from(&root, &opts).unwrap();
    assert_eq!(child_paths(&t), vec!["root/keep.log"]);
}

#[test]
fn ignore_file_excludes_and_reincludes() {
    let root = dir_ign("root", vec![file("a.log"), file("keep.log")], &["*.log", "!keep.log"]);
    let opts = SearchOpts { use_gitignores: true, ..Default::default() };
    let t = Dir::from(&root, &opts).unwrap();
    assert_eq!(child_paths(&t), vec!["root/keep.log"]);
}

#[test]
fn ignore_file_disregarded_when_disabled() {
    let root = dir_ign("root", vec![file("a.log")], &["*.log"]);
    let t = Dir::from(&root, &SearchOpts::default()).unwrap();
    assert_eq!(child_paths(&t), vec!["root/a.log"]);
}

#[test]
fn malformed_ignore_file_adds_no_rules() {
    let root = dir_ign("root", vec![file("a.log")], &["a**b", "*.log"]);
    let opts = SearchOpts { use_gitignores: true, ..Default::default() };
    let t = Dir::from(&root, &opts).unwrap();
    assert_eq!(child_paths(&t), vec!["root/a.log"]);
}

#[test]
fn ignore_rules_cascade_to_descendants() {
    let sub = dir("sub", vec![file("x.tmp"), file("y.txt")]);
    let root = dir_ign("root", vec![sub], &["*.tmp"]);
    let opts = SearchOpts { use_gitignores: true, ..Default::default() };
    let t = Dir::from(&root, &opts).unwrap();
    assert_eq!(child_paths(&t), vec!["root/sub"]);
    assert_eq!(child_paths(&t.children()[0]), vec!["root/sub/y.txt"]);
}

#[test]
fn descendant_reinclude_overrides_inherited_exclude() {
    let sub = dir_ign("sub", vec![file("keep.log"), file("drop.log")], &["!keep.log"]);
    let root = dir_ign("root", vec![sub], &["*.log"]);
    let opts = SearchOpts { use_gitignores: true, ..Default::default() };
    let t = Dir::from(&root, &opts).unwrap();
    assert_eq!(child_paths(&t.children()[0]), vec!["root/sub/keep.log"]);
}

#[test]
fn case_insensitive_matching() {
    let root = dir("root", vec![file("NOTES.TXT"), file("b.log")]);
    let opts = SearchOpts {
        positive_patterns: positives(&["*.txt"]),
        case_insensitive_match: true,
        ..Default::default()
    };
    let t = Dir::from(&root, &opts).unwrap();
    assert_eq!(child_paths(&t), vec!["root/NOTES.TXT"]);
}

#[test]
fn symlink_not_followed_is_terminal() {
    let link = FsNode {
        name: "mylink".to_string(),
        read_only: false,
        entry: FsEntry::DirLink {
            target: "/elsewhere".to_string(),
            stays_on_fs: true,
            children: vec![file("inside")],
            ignore: None,
        },
    };
    let root = dir("root", vec![link]);
    let t = Dir::from(&root, &SearchOpts::default()).unwrap();
    let l = &t.children()[0];
    match l.ftype() {
        FType::Link(target) => assert_eq!(target, "/elsewhere"),
        _ => panic!("expected a symbolic link node"),
    }
    assert_eq!(l.children().len(), 0);
}

#[test]
fn symlink_followed_expands_as_directory() {
    let link = FsNode {
        name: "mylink".to_string(),
        read_only: false,
        entry: FsEntry::DirLink {
            target: "/elsewhere".to_string(),
            stays_on_fs: true,
            children: vec![file("inside")],
            ignore: None,
        },
    };
    let root = dir("root", vec![link]);
    let opts = SearchOpts { follow_symlinks: true, ..Default::default() };
    let t = Dir::from(&root, &opts).unwrap();
    let l = &t.children()[0];
    assert!(matches!(l.ftype(), FType::Dir));
    assert_eq!(child_paths(l), vec!["root/mylink/inside"]);
}

#[test]
fn symlink_leaving_filesystem_not_followed() {
    let link = FsNode {
        name: "away".to_string(),
        read_only: false,
        entry: FsEntry::DirLink {
            target: "/other/fs".to_string(),
            stays_on_fs: false,
            children: vec![],
            ignore: None,
        },
    };
    let root = dir("root", vec![link]);
    let opts = SearchOpts { follow_symlinks: true, stay_on_fs: true, ..Default::default() };
    let t = Dir::from(&root, &opts).unwrap();
    assert!(matches!(t.children()[0].ftype(), FType::Link(_)));
}

#[test]
fn symlink_bypasses_positive_patterns() {
    let link = FsNode {
        name: "mylink".to_string(),
        read_only: false,
        entry: FsEntry::DirLink {
            target: "t".to_string(),
            stays_on_fs: true,
            children: vec![],
            ignore: None,
        },
    };
    let root = dir("root", vec![link, file("b.log")]);
    let opts = SearchOpts { positive_patterns: positives(&["*.txt"]), ..Default::default() };
    let t = Dir::from(&root, &opts).unwrap();
    assert_eq!(child_paths(&t), vec!["root/mylink"]);
}

#[test]
fn unfollowed_link_stays_a_link_when_depth_runs_out() {
    let link = FsNode {
        name: "mylink".to_string(),
        read_only: false,
        entry: FsEntry::DirLink {
            target: "t".to_string(),
            stays_on_fs: true,
            children: vec![],
            ignore: None,
        },
    };
    let root = dir("root", vec![link]);
    let opts = SearchOpts { max_depth: Some(1), ..Default::default() };
    let t = Dir::from(&root, &opts).unwrap();
    assert!(matches!(t.children()[0].ftype(), FType::Link(_)));
}

#[test]
fn followed_link_respects_depth_budget() {
    let link = FsNode {
        name: "mylink".to_string(),
        read_only: false,
        entry: FsEntry::DirLink {
            target: "t".to_string(),
            stays_on_fs: true,
            children: vec![file("inside")],
            ignore: None,
        },
    };
    let root = dir("root", vec![link]);
    let opts = SearchOpts { follow_symlinks: true, max_depth: Some(1), ..Default::default() };
    let t = Dir::from(&root, &opts).unwrap();
    let l = &t.children()[0];
    assert!(matches!(l.ftype(), FType::Dir));
    assert_eq!(l.children().len(), 0);
}

#[test]
fn dirs_only_drops_files_at_every_level() {
    let root = dir("root", vec![file("a"), dir("sub", vec![file("b"), dir("deep", vec![])])]);
    let opts = SearchOpts { dirs_only: true, ..Default::default() };
    let t = Dir::from(&root, &opts).unwrap();
    assert_eq!(child_paths(&t), vec!["root/sub"]);
    assert_eq!(child_paths(&t.children()[0]), vec!["root/sub/deep"]);
}

#[test]
fn executables_are_classified() {
    let root = dir("root", vec![exe("run"), file("data")]);
    let t = Dir::from(&root, &SearchOpts::default()).unwrap();
    assert!(matches!(t.children()[0].ftype(), FType::Exe));
    assert!(matches!(t.children()[1].ftype(), FType::File));
}

#[test]
fn read_only_flag_is_kept() {
    let mut ro = file("locked");
    ro.read_only = true;
    let root = dir("root", vec![ro]);
    let t = Dir::from(&root, &SearchOpts::default()).unwrap();
    assert!(t.children()[0].read_only());
    assert!(!t.read_only());
}

#[test]
fn nothing_matches_yields_none() {
    let root = FsNode {
        name: ".allhidden".to_string(),
        read_only: false,
        entry: FsEntry::File { executable: false },
    };
    let opts = SearchOpts { positive_patterns: positives(&["*.txt"]), ..Default::default() };
    assert!(Dir::from(&root, &opts).is_none());
}

#[test]
fn prune_drops_empty_directories() {
    let root = dir("root", vec![dir("src", vec![file("main.ext")]), dir("build", vec![])]);
    let mut t = Dir::from(&root, &SearchOpts::default()).unwrap();
    t.prune();
    assert_eq!(child_paths(&t), vec!["root/src"]);
    assert_eq!(child_paths(&t.children()[0]), vec!["root/src/main.ext"]);
}

#[test]
fn prune_drops_directories_of_empty_directories() {
    let root = dir("root", vec![dir("a", vec![dir("b", vec![])]), file("keep")]);
    let mut t = Dir::from(&root, &SearchOpts::default()).unwrap();
    t.prune();
    assert_eq!(child_paths(&t), vec!["root/keep"]);
}

#[test]
fn prune_twice_equals_prune_once() {
    let root = dir("root", vec![dir("src", vec![file("main.ext")]), dir("build", vec![])]);
    let mut once = Dir::from(&root, &SearchOpts::default()).unwrap();
    once.prune();
    let mut twice = Dir::from(&root, &SearchOpts::default()).unwrap();
    twice.prune();
    twice.prune();
    assert_eq!(once.render(), twice.render());
}

#[test]
fn sort_orders_children_by_path() {
    let root = dir("root", vec![file("b"), file("a"), dir("c", vec![file("z"), file("y")])]);
    let mut t = Dir::from(&root, &SearchOpts::default()).unwrap();
    t.sort_children();
    assert_eq!(child_paths(&t), vec!["root/a", "root/b", "root/c"]);
    assert_eq!(child_paths(&t.children()[2]), vec!["root/c/y", "root/c/z"]);
}

#[test]
fn sort_twice_equals_sort_once() {
    let root = dir("root", vec![file("b"), file("a"), file("c")]);
    let mut once = Dir::from(&root, &SearchOpts::default()).unwrap();
    once.sort_children();
    let mut twice = Dir::from(&root, &SearchOpts::default()).unwrap();
    twice.sort_children();
    twice.sort_children();
    assert_eq!(once.render(), twice.render());
    assert_eq!(child_paths(&once), child_paths(&twice));
}
