use trx::ignore::VcsIgnore;
use trx::Glob;

fn lines(v: &[&str]) -> Vec<String> {
    v.iter().map(|s| s.to_string()).collect()
}

#[test]
fn parse_exclude_line() {
    let v = VcsIgnore::parse("root", &lines(&["*.log"])).unwrap();
    assert_eq!(v.black.len(), 1);
    assert_eq!(v.white.len(), 0);
    assert_eq!(v.black[0].as_str(), "root/*.log");
}

#[test]
fn parse_reinclude_line() {
    let v = VcsIgnore::parse("root", &lines(&["!keep.log"])).unwrap();
    assert_eq!(v.black.len(), 0);
    assert_eq!(v.white.len(), 1);
    assert_eq!(v.white[0].as_str(), "root/keep.log");
}

#[test]
fn parse_skips_comments_and_blanks() {
    let v = VcsIgnore::parse("root", &lines(&["# a comment", "", "   "])).unwrap();
    assert_eq!(v.black.len(), 0);
    assert_eq!(v.white.len(), 0);
}

#[test]
fn parse_strips_leading_anchor() {
    let v = VcsIgnore::parse("root", &lines(&["/sub/x.txt"])).unwrap();
    assert_eq!(v.black[0].as_str(), "root/sub/x.txt");
}

#[test]
fn parse_unescapes_literal_prefixes() {
    let v = VcsIgnore::parse("root", &lines(&["\\#lit", "\\!bang"])).unwrap();
    assert_eq!(v.black.len(), 2);
    assert_eq!(v.black[0].as_str(), "root/#lit");
    assert_eq!(v.black[1].as_str(), "root/!bang");
}

#[test]
fn parse_trims_whitespace() {
    let v = VcsIgnore::parse("root", &lines(&["  a.log\t"])).unwrap();
    assert_eq!(v.black[0].as_str(), "root/a.log");
}

#[test]
fn parse_anchored_reinclude() {
    let v = VcsIgnore::parse("root", &lines(&["/!keep"])).unwrap();
    assert_eq!(v.white.len(), 1);
    assert_eq!(v.white[0].as_str(), "root/keep");
}

#[test]
fn parse_rejects_malformed_pattern() {
    assert!(VcsIgnore::parse("root", &lines(&["a**b"])).is_none());
}

#[test]
fn parse_bare_anchor_roots_an_empty_pattern() {
    let v = VcsIgnore::parse("root", &lines(&["/"])).unwrap();
    assert_eq!(v.black.len(), 1);
    assert_eq!(v.black[0].as_str(), "root/");
}

#[test]
fn rules_for_dir_empty_when_disabled_or_absent() {
    let r = VcsIgnore::rules_for_dir("root", &Some(lines(&["*.log"])), false);
    assert_eq!(r.black.len(), 0);
    let r = VcsIgnore::rules_for_dir("root", &None, true);
    assert_eq!(r.black.len(), 0);
    let r = VcsIgnore::rules_for_dir("root", &Some(lines(&["*.log"])), true);
    assert_eq!(r.black.len(), 1);
}

#[test]
fn compose_appends_inherited_after_own() {
    let own = VcsIgnore::parse("root", &lines(&["*.a"])).unwrap();
    let other_black = vec![Glob::new("*.b").unwrap()];
    let other_white = vec![Glob::new("*.w").unwrap()];
    let c = own.compose(&other_black, &other_white);
    assert_eq!(c.black.len(), 2);
    assert_eq!(c.black[0].as_str(), "root/*.a");
    assert_eq!(c.black[1].as_str(), "*.b");
    assert_eq!(c.white.len(), 1);
    assert_eq!(c.white[0].as_str(), "*.w");
}
