use trx::pattern::match_text;
use trx::pattern::pattern_ify;
use trx::Glob;
use trx::TreeError;

#[test]
fn match_text_positive() {
    assert_eq!(match_text("*.txt", "a.txt", false), Some(true));
}

#[test]
fn match_text_negative() {
    assert_eq!(match_text("*.txt", "b.log", false), Some(false));
}

#[test]
fn match_text_malformed_pattern() {
    assert_eq!(match_text("a**b", "anything", false), None);
}

#[test]
fn match_text_case_folding() {
    assert_eq!(match_text("*.TXT", "a.txt", true), Some(true));
    assert_eq!(match_text("*.TXT", "a.txt", false), Some(false));
}

#[test]
fn glob_new_reports_pattern_error() {
    let r = Glob::new("a**b");
    assert!(matches!(r, Err(TreeError::Pattern(_))));
}

#[test]
fn glob_keeps_its_text() {
    let g = Glob::new("src/*.rs").unwrap();
    assert_eq!(g.as_str(), "src/*.rs");
    assert!(g.matches("src/lib.rs", false));
    assert!(!g.matches("src/lib.c", false));
}

#[test]
fn glob_bracket_class() {
    let g = Glob::new("file[0-9].txt").unwrap();
    assert!(g.matches("file7.txt", false));
    assert!(!g.matches("filex.txt", false));
}

#[test]
fn glob_question_mark() {
    let g = Glob::new("c?t").unwrap();
    assert!(g.matches("cat", false));
    assert!(!g.matches("cart", false));
}

#[test]
fn pattern_ify_prefixes_each_pattern() {
    let v = vec![String::from("*.txt"), String::from("notes")];
    let gs = pattern_ify(&v).unwrap();
    assert_eq!(gs.len(), 2);
    assert_eq!(gs[0].as_str(), "**/*.txt");
    assert_eq!(gs[1].as_str(), "**/notes");
    assert!(gs[0].matches("deep/nest/a.txt", false));
}

#[test]
fn pattern_ify_reports_first_error() {
    let v = vec![String::from("ok"), String::from("a**b")];
    assert!(matches!(pattern_ify(&v), Err(TreeError::Pattern(_))));
}
