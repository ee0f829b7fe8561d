use trx::render::ColorRole;
use trx::Dir;
use trx::FormatOpts;
use trx::FsEntry;
use trx::FsNode;
use trx::SearchOpts;

fn file(name: &str) -> FsNode {
    FsNode { name: name.to_string(), read_only: false, entry: FsEntry::File { executable: false } }
}

fn exe(name: &str) -> FsNode {
    FsNode { name: name.to_string(), read_only: false, entry: FsEntry::File { executable: true } }
}

fn dir(name: &str, children: Vec<FsNode>) -> FsNode {
    FsNode { name: name.to_string(), read_only: false, entry: FsEntry::Dir { children, ignore: None } }
}

fn fmt() -> FormatOpts {
    FormatOpts::default()
}

#[test]
fn render_flat_without_indent() {
    let root = dir(".", vec![file("x")]);
    let t = Dir::from(&root, &SearchOpts::default()).unwrap();
    assert_eq!(t.render(), ".\nx\n");
}

#[test]
fn render_indented_tree() {
    let root = dir(".", vec![dir("src", vec![file("main.ext")]), dir("build", vec![])]);
    let t = Dir::from(&root, &SearchOpts::default()).unwrap();
    let t = t.with_format(FormatOpts { indent: true, ..fmt() });
    assert_eq!(t.render(), ".\n├── src\n│   └── main.ext\n└── build\n");
}

#[test]
fn render_indented_after_prune() {
    let root = dir(".", vec![dir("src", vec![file("main.ext")]), dir("build", vec![])]);
    let mut t = Dir::from(&root, &SearchOpts::default()).unwrap();
    t.prune();
    let t = t.with_format(FormatOpts { indent: true, ..fmt() });
    assert_eq!(t.render(), ".\n└── src\n    └── main.ext\n");
}

#[test]
fn render_full_paths() {
    let root = dir("base", vec![file("x")]);
    let t = Dir::from(&root, &SearchOpts::default()).unwrap();
    let t = t.with_format(FormatOpts { full_paths: true, ..fmt() });
    assert_eq!(t.render(), "base\nbase/x\n");
}

#[test]
fn render_quoted_names() {
    let root = dir(".", vec![file("x")]);
    let t = Dir::from(&root, &SearchOpts::default()).unwrap();
    let t = t.with_format(FormatOpts { quote_names: true, ..fmt() });
    assert_eq!(t.render(), "\".\"\n\"x\"\n");
}

#[test]
fn render_decorations() {
    let link = FsNode {
        name: "l".to_string(),
        read_only: false,
        entry: FsEntry::DirLink {
            target: "t".to_string(),
            stays_on_fs: true,
            children: vec![],
            ignore: None,
        },
    };
    let root = dir(".", vec![dir("d", vec![]), exe("e"), file("f"), link]);
    let t = Dir::from(&root, &SearchOpts::default()).unwrap();
    let t = t.with_format(FormatOpts { decorate: true, ..fmt() });
    assert_eq!(t.render(), "./\nd/\ne*\nf\nl@\n");
}

#[test]
fn stringify_name_uses_basename() {
    let root = dir("a/b", vec![file("c")]);
    let t = Dir::from(&root, &SearchOpts::default()).unwrap();
    assert_eq!(t.stringify_name(), "b");
    assert_eq!(t.children()[0].stringify_name(), "c");
}

#[test]
fn stringify_name_placeholder_for_dot() {
    let root = dir(".", vec![]);
    let t = Dir::from(&root, &SearchOpts::default()).unwrap();
    assert_eq!(t.stringify_name(), ".");
}

#[test]
fn to_html_plain_document() {
    let root = dir(".", vec![file("x")]);
    let t = Dir::from(&root, &SearchOpts::default()).unwrap();
    let mut expected = String::new();
    expected.push_str("<!DOCTYPE html><html><head><style>ul{list-style-type:none}");
    expected.push_str("</style></head><body>");
    expected.push_str("<span class=\"dir\">.</span>");
    expected.push_str("<ul><li><span class=\"file\">x</span></li></ul>");
    expected.push_str("</body></html>");
    assert_eq!(t.to_html(), expected);
}

#[test]
fn to_html_with_links_and_colors() {
    let root = dir(".", vec![file("x")]);
    let t = Dir::from(&root, &SearchOpts::default()).unwrap();
    let t = t.with_format(FormatOpts { colorize: true, html_links: true, ..fmt() });
    let mut expected = String::new();
    expected.push_str("<!DOCTYPE html><html><head><style>ul{list-style-type:none}");
    expected.push_str(".dir{color:blue}.exe{color:green;font-weight:bold}");
    expected.push_str(".link{color:cyan;font-weight:bold}.ro{background-color:red}");
    expected.push_str("</style></head><body>");
    expected.push_str("<a class=\"dir\" href=\".\">.</a>");
    expected.push_str("<ul><li><a class=\"file\" href=\"./x\">x</a></li></ul>");
    expected.push_str("</body></html>");
    assert_eq!(t.to_html(), expected);
}

#[test]
fn to_html_marks_read_only() {
    let mut ro = file("locked");
    ro.read_only = true;
    let root = dir(".", vec![ro]);
    let t = Dir::from(&root, &SearchOpts::default()).unwrap();
    assert!(t.to_html().contains("<span class=\"file ro\">locked</span>"));
}

#[test]
fn color_roles_follow_kind() {
    let link = FsNode {
        name: "l".to_string(),
        read_only: false,
        entry: FsEntry::DirLink {
            target: "t".to_string(),
            stays_on_fs: true,
            children: vec![],
            ignore: None,
        },
    };
    let root = dir(".", vec![dir("d", vec![]), exe("e"), file("f"), link]);
    let t = Dir::from(&root, &SearchOpts::default()).unwrap();
    assert_eq!(t.color_role(), ColorRole::Blue);
    assert_eq!(t.children()[0].color_role(), ColorRole::Blue);
    assert_eq!(t.children()[1].color_role(), ColorRole::BoldGreen);
    assert_eq!(t.children()[2].color_role(), ColorRole::Plain);
    assert_eq!(t.children()[3].color_role(), ColorRole::BoldCyan);
}

#[test]
fn full_pipeline_build_prune_sort_render() {
    let root = dir(
        ".",
        vec![
            dir("src", vec![file("zz.ext"), file("aa.ext")]),
            dir("build", vec![]),
            file("README"),
        ],
    );
    let mut t = Dir::from(&root, &SearchOpts::default()).unwrap();
    t.prune();
    t.sort_children();
    let t = t.with_format(FormatOpts { indent: true, ..fmt() });
    let mut expected = String::new();
    expected.push_str(".\n");
    expected.push_str("├── README\n");
    expected.push_str("└── src\n");
    expected.push_str("    ├── aa.ext\n");
    expected.push_str("    └── zz.ext\n");
    assert_eq!(t.render(), expected);
}

#[test]
fn cloned_tree_renders_identically() {
    let root = dir(".", vec![dir("src", vec![file("main.ext")])]);
    let t = Dir::from(&root, &SearchOpts::default()).unwrap();
    let u = t.clone();
    assert_eq!(t.render(), u.render());
}
