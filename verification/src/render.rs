//! Renderers: the indented textual tree and the HTML tree, plus the
//! semantic color mapping that an external terminal renderer paints
//! with.

use vstd::prelude::*;
use vstd::string::*;
use crate::opts::FormatOpts;
use crate::tree::after_last_slash;
use crate::tree::lemma_dir_format;
use crate::tree::lemma_dir_nest;
use crate::tree::lemma_dir_view;
use crate::tree::views_of;
use crate::tree::Dir;
use crate::tree::FType;
use crate::tree::KindV;
use crate::tree::NodeV;

verus! {

broadcast use lemma_dir_view, lemma_dir_format, lemma_dir_nest,
    vstd::seq::axiom_seq_index_decreases, vstd::std_specs::vec::group_vec_axioms;

/// A path's displayed base name: the component after the last
/// separator, falling back to the current-directory placeholder when
/// that component is empty, `.` or `..`.
pub open spec fn spec_basename(p: Seq<char>) -> Seq<char> {
    let tail = after_last_slash(p);
    if tail.len() == 0 || tail == "."@ || tail == ".."@ {
        "."@
    } else {
        tail
    }
}

/// A node's displayed name: full path or base name, optionally quoted,
/// optionally decorated with a type suffix (`/` directory, `*`
/// executable, `@` symbolic link).
pub open spec fn spec_name(t: NodeV, f: FormatOpts) -> Seq<char> {
    let base = if f.full_paths {
        t.path
    } else {
        spec_basename(t.path)
    };
    let quoted = if f.quote_names {
        "\""@ + base + "\""@
    } else {
        base
    };
    if f.decorate {
        match t.kind {
            KindV::Directory => quoted + "/"@,
            KindV::Executable => quoted + "*"@,
            KindV::SymbolicLink(_) => quoted + "@"@,
            KindV::RegularFile => quoted,
        }
    } else {
        quoted
    }
}

/// One indentation cell: a continuation bar under an ancestor that has
/// more siblings, blank padding otherwise.
pub open spec fn glyph_cell(b: bool) -> Seq<char> {
    if b {
        "\u{2502}   "@
    } else {
        "    "@
    }
}

/// The indentation before a branch glyph, one cell per ancestor level.
pub open spec fn spec_indent(nest: Seq<bool>) -> Seq<char>
    decreases nest.len(),
{
    if nest.len() == 0 {
        Seq::<char>::empty()
    } else {
        glyph_cell(nest[0]) + spec_indent(nest.drop_first())
    }
}

/// The rendered subtree: the node's name line, then each child in
/// order, with a branch glyph and indentation when indentation is on.
pub open spec fn spec_render(t: NodeV, f: FormatOpts, nest: Seq<bool>) -> Seq<char>
    decreases t,
{
    spec_name(t, f) + "\n"@ + spec_render_kids(t.children, f, nest)
}

/// The rendered children: a mid-branch glyph before each child that has
/// a later sibling, a last-branch glyph before the final one.
pub open spec fn spec_render_kids(kids: Seq<NodeV>, f: FormatOpts, nest: Seq<bool>) -> Seq<char>
    decreases kids,
{
    if kids.len() == 0 {
        Seq::<char>::empty()
    } else {
        let last = kids.len() == 1;
        let child_nest = nest.push(!last);
        let prefix = if f.indent {
            spec_indent(nest) + (if last {
                "\u{2514}"@
            } else {
                "\u{251c}"@
            }) + "\u{2500}\u{2500} "@
        } else {
            Seq::<char>::empty()
        };
        prefix + spec_render(kids[0], f, child_nest) + spec_render_kids(kids.drop_first(), f, nest)
    }
}

/// A path's displayed base name.
fn basename_exec<'a>(p: &'a str) -> (r: &'a str)
    ensures
        r@ == after_last_slash(p@),
{
    let len = p.unicode_len();
    let mut j: usize = len;
    proof {
        assert(p@.subrange(0, len as int) =~= p@);
        assert(after_last_slash(p@) + p@.subrange(len as int, len as int) =~= after_last_slash(
            p@,
        ));
    }
    while j > 0 && p.get_char(j - 1) != '/'
        invariant
            0 <= j <= len,
            len == p@.len(),
            after_last_slash(p@) == after_last_slash(p@.subrange(0, j as int)) + p@.subrange(
                j as int,
                len as int,
            ),
        decreases j,
    {
        proof {
            let pre = p@.subrange(0, j as int);
            assert(pre.last() == p@[j - 1]);
            assert(pre.drop_last() =~= p@.subrange(0, j - 1));
            assert(after_last_slash(p@.subrange(0, j - 1)) + (seq![p@[j - 1]] + p@.subrange(
                j as int,
                len as int,
            )) =~= after_last_slash(p@.subrange(0, j - 1)) + seq![p@[j - 1]] + p@.subrange(
                j as int,
                len as int,
            ));
            assert(seq![p@[j - 1]] + p@.subrange(j as int, len as int) =~= p@.subrange(
                j - 1,
                len as int,
            ));
        }
        j = j - 1;
    }
    proof {
        if j > 0 {
            assert(p@.subrange(0, j as int).last() == p@[j - 1]);
            assert(after_last_slash(p@.subrange(0, j as int)) =~= Seq::<char>::empty());
        } else {
            assert(p@.subrange(0, 0) =~= Seq::<char>::empty());
        }
        assert(after_last_slash(p@) =~= p@.subrange(j as int, len as int));
    }
    p.substring_char(j, len)
}

/// A node's displayed name, under the given format options.
fn name_of(d: &Dir, f: FormatOpts) -> (r: String)
    ensures
        r@ == spec_name(d@, f),
{
    let mut base = String::new();
    if f.full_paths {
        base.append(d.path.as_str());
    } else {
        let tail = basename_exec(d.path.as_str());
        let tail_len = tail.unicode_len();
        let placeholder = tail_len == 0 || (tail_len == 1 && tail.get_char(0) == '.') || (tail_len
            == 2 && tail.get_char(0) == '.' && tail.get_char(1) == '.');
        proof {
            reveal_strlit(".");
            reveal_strlit("..");
            if placeholder {
                if tail_len == 1 {
                    assert(tail@ =~= "."@);
                }
                if tail_len == 2 {
                    assert(tail@ =~= ".."@);
                }
            } else {
                assert(tail@ != "."@ && tail@ != ".."@) by {
                    if tail@ == "."@ {
                        assert(tail@.len() == 1 && tail@[0] == '.');
                    }
                    if tail@ == ".."@ {
                        assert(tail@.len() == 2 && tail@[0] == '.' && tail@[1] == '.');
                    }
                }
            }
        }
        if placeholder {
            base.append(".");
        } else {
            base.append(tail);
        }
    }
    proof {
        reveal_strlit("");
        assert(base@ =~= (if f.full_paths {
            d@.path
        } else {
            spec_basename(d@.path)
        }));
    }
    let mut quoted = String::new();
    if f.quote_names {
        quoted.append("\"");
        quoted.append(base.as_str());
        quoted.append("\"");
        proof {
            assert(quoted@ =~= "\""@ + base@ + "\""@);
        }
    } else {
        quoted.append(base.as_str());
        proof {
            assert(quoted@ =~= base@);
        }
    }
    if f.decorate {
        match &d.ftype {
            FType::Dir => {
                quoted.append("/");
            },
            FType::Exe => {
                quoted.append("*");
            },
            FType::Link(_) => {
                quoted.append("@");
            },
            FType::File => {},
        }
    }
    proof {
        assert(quoted@ =~= spec_name(d@, f));
    }
    quoted
}

/// Write the indentation cells for the current ancestor levels.
#[verifier::loop_isolation(false)]
fn append_indent(nest: &Vec<bool>, out: &mut String)
    ensures
        final(out)@ == old(out)@ + spec_indent(nest@),
{
    let ghost base = old(out)@;
    let mut j: usize = 0;
    proof {
        assert(nest@.skip(0) =~= nest@);
    }
    while j < nest.len()
        invariant
            0 <= j <= nest@.len(),
            out@ + spec_indent(nest@.skip(j as int)) == base + spec_indent(nest@),
        decreases nest@.len() - j,
    {
        let ghost rem = nest@.skip(j as int);
        proof {
            assert(rem[0] == nest@[j as int]);
            assert(rem.drop_first() =~= nest@.skip(j + 1));
        }
        let ghost before = out@;
        if nest[j] {
            out.append("\u{2502}   ");
        } else {
            out.append("    ");
        }
        proof {
            assert(out@ =~= before + glyph_cell(nest@[j as int]));
            assert(before + glyph_cell(nest@[j as int]) + spec_indent(nest@.skip(j + 1)) =~= before
                + (glyph_cell(nest@[j as int]) + spec_indent(nest@.skip(j + 1))));
        }
        j = j + 1;
    }
    proof {
        assert(spec_indent(nest@.skip(nest@.len() as int)) =~= Seq::<char>::empty());
        assert(out@ + Seq::<char>::empty() =~= out@);
    }
}

/// Write the rendered subtree of `d`, under the given format and
/// ancestor bits.
#[verifier::loop_isolation(false)]
fn render_into(d: &Dir, f: FormatOpts, nest: &mut Vec<bool>, out: &mut String)
    ensures
        final(out)@ == old(out)@ + spec_render(d@, f, old(nest)@),
        final(nest)@ == old(nest)@,
    decreases *d,
{
    let ghost base = old(out)@;
    let ghost nest0 = old(nest)@;
    let name = name_of(d, f);
    out.append(name.as_str());
    out.append("\n");
    let ghost kids = views_of(d.contents@);
    proof {
        assert(out@ =~= base + (spec_name(d@, f) + "\n"@));
        assert(kids.skip(0) =~= kids);
        assert(out@ + spec_render_kids(kids, f, nest0) =~= base + spec_render(d@, f, nest0));
    }
    let n = d.contents.len();
    let mut i: usize = 0;
    while i < n
        invariant
            0 <= i <= n,
            n == d.contents@.len(),
            nest@ == nest0,
            out@ + spec_render_kids(kids.skip(i as int), f, nest0) == base + spec_render(
                d@,
                f,
                nest0,
            ),
        decreases n - i,
    {
        let ghost rem = kids.skip(i as int);
        proof {
            assert(rem[0] == kids[i as int]);
            assert(rem.drop_first() =~= kids.skip(i + 1));
        }
        let last = i + 1 == n;
        let ghost before = out@;
        if f.indent {
            append_indent(nest, out);
            if last {
                out.append("\u{2514}");
            } else {
                out.append("\u{251c}");
            }
            out.append("\u{2500}\u{2500} ");
            proof {
                assert(out@ =~= before + (spec_indent(nest0) + (if last {
                    "\u{2514}"@
                } else {
                    "\u{251c}"@
                }) + "\u{2500}\u{2500} "@));
            }
        }
        let ghost prefixed = out@;
        nest.push(!last);
        render_into(&d.contents[i], f, nest, out);
        let _ = nest.pop();
        proof {
            assert(nest0.push(!last).drop_last() =~= nest0);
            assert(nest@ =~= nest0);
            assert(out@ =~= prefixed + spec_render(kids[i as int], f, nest0.push(!last)));
            assert(out@ + spec_render_kids(kids.skip(i + 1), f, nest0) =~= before
                + spec_render_kids(rem, f, nest0));
        }
        i = i + 1;
    }
    proof {
        assert(spec_render_kids(kids.skip(n as int), f, nest0) =~= Seq::<char>::empty());
        assert(out@ + Seq::<char>::empty() =~= out@);
    }
}

/// The CSS class of a node's kind.
pub open spec fn kind_class(k: KindV) -> Seq<char> {
    match k {
        KindV::Directory => "dir"@,
        KindV::Executable => "exe"@,
        KindV::SymbolicLink(_) => "link"@,
        KindV::RegularFile => "file"@,
    }
}

/// A node's full CSS class: its kind's class, with the read-only marker
/// appended when the snapshot recorded no write permission.
pub open spec fn node_class(t: NodeV) -> Seq<char> {
    if t.read_only {
        kind_class(t.kind) + " ro"@
    } else {
        kind_class(t.kind)
    }
}

/// The HTML for one subtree: the node as a link or a plain span, then
/// its children as a nested list.
pub open spec fn spec_html_node(t: NodeV, f: FormatOpts) -> Seq<char>
    decreases t,
{
    let name = spec_name(t, f);
    let tag = if f.html_links {
        "<a class=\""@ + node_class(t) + "\" href=\""@ + t.path + "\">"@ + name + "</a>"@
    } else {
        "<span class=\""@ + node_class(t) + "\">"@ + name + "</span>"@
    };
    if t.children.len() > 0 {
        tag + "<ul>"@ + spec_html_kids(t.children, f) + "</ul>"@
    } else {
        tag
    }
}

/// The HTML for a node's children, one list item each.
pub open spec fn spec_html_kids(kids: Seq<NodeV>, f: FormatOpts) -> Seq<char>
    decreases kids,
{
    if kids.len() == 0 {
        Seq::<char>::empty()
    } else {
        "<li>"@ + spec_html_node(kids[0], f) + "</li>"@ + spec_html_kids(kids.drop_first(), f)
    }
}

/// The stylesheet every HTML document carries.
pub open spec fn base_css() -> Seq<char> {
    "ul{list-style-type:none}"@
}

/// The stylesheet added when colorizing: the semantic color mapping in
/// CSS form.
pub open spec fn color_css() -> Seq<char> {
    ".dir{color:blue}.exe{color:green;font-weight:bold}.link{color:cyan;font-weight:bold}.ro{background-color:red}"@
}

/// The whole HTML document for a tree.
pub open spec fn spec_html_doc(t: NodeV, f: FormatOpts) -> Seq<char> {
    "<!DOCTYPE html><html><head><style>"@ + base_css() + (if f.colorize {
        color_css()
    } else {
        Seq::<char>::empty()
    }) + "</style></head><body>"@ + spec_html_node(t, f) + "</body></html>"@
}

/// Write a node's CSS class.
fn append_class(d: &Dir, out: &mut String)
    ensures
        final(out)@ == old(out)@ + node_class(d@),
{
    let ghost base = old(out)@;
    match &d.ftype {
        FType::Dir => out.append("dir"),
        FType::Exe => out.append("exe"),
        FType::Link(_) => out.append("link"),
        FType::File => out.append("file"),
    }
    if d.read_only {
        out.append(" ro");
    }
    proof {
        assert(out@ =~= base + node_class(d@));
    }
}

/// Write the HTML for one subtree.
#[verifier::loop_isolation(false)]
fn html_node(d: &Dir, f: FormatOpts, out: &mut String)
    ensures
        final(out)@ == old(out)@ + spec_html_node(d@, f),
    decreases *d,
{
    let ghost base = old(out)@;
    let name = name_of(d, f);
    if f.html_links {
        out.append("<a class=\"");
        append_class(d, out);
        out.append("\" href=\"");
        out.append(d.path.as_str());
        out.append("\">");
        out.append(name.as_str());
        out.append("</a>");
        proof {
            assert(out@ =~= base + ("<a class=\""@ + node_class(d@) + "\" href=\""@ + d@.path
                + "\">"@ + spec_name(d@, f) + "</a>"@));
        }
    } else {
        out.append("<span class=\"");
        append_class(d, out);
        out.append("\">");
        out.append(name.as_str());
        out.append("</span>");
        proof {
            assert(out@ =~= base + ("<span class=\""@ + node_class(d@) + "\">"@ + spec_name(
                d@,
                f,
            ) + "</span>"@));
        }
    }
    let ghost tagged = out@;
    let ghost kids = views_of(d.contents@);
    if d.contents.len() > 0 {
        out.append("<ul>");
        let ghost listed = out@;
        proof {
            assert(kids.skip(0) =~= kids);
            assert(out@ + spec_html_kids(kids, f) =~= listed + spec_html_kids(kids, f));
        }
        let n = d.contents.len();
        let mut i: usize = 0;
        while i < n
            invariant
                0 <= i <= n,
                n == d.contents@.len(),
                out@ + spec_html_kids(kids.skip(i as int), f) == listed + spec_html_kids(kids, f),
            decreases n - i,
        {
            let ghost rem = kids.skip(i as int);
            proof {
                assert(rem[0] == kids[i as int]);
                assert(rem.drop_first() =~= kids.skip(i + 1));
            }
            let ghost before = out@;
            out.append("<li>");
            html_node(&d.contents[i], f, out);
            out.append("</li>");
            proof {
                assert(out@ =~= before + ("<li>"@ + spec_html_node(kids[i as int], f)
                    + "</li>"@));
                assert(out@ + spec_html_kids(kids.skip(i + 1), f) =~= before + spec_html_kids(
                    rem,
                    f,
                ));
            }
            i = i + 1;
        }
        out.append("</ul>");
        proof {
            assert(spec_html_kids(kids.skip(n as int), f) =~= Seq::<char>::empty());
            assert(out@ =~= base + spec_html_node(d@, f));
        }
    } else {
        proof {
            assert(out@ =~= base + spec_html_node(d@, f));
        }
    }
}

/// The semantic color of a node, for an external terminal renderer:
/// directories blue, executables bold green, symbolic links bold cyan,
/// anything else unstyled. A read-only node additionally carries a red
/// background, read from `read_only`.
#[derive(PartialEq, Eq, Structural, Clone, Copy, Debug)]
pub enum ColorRole {
    Blue,
    BoldGreen,
    BoldCyan,
    Plain,
}

/// The color a node's kind maps to.
pub open spec fn spec_color_role(k: KindV) -> ColorRole {
    match k {
        KindV::Directory => ColorRole::Blue,
        KindV::Executable => ColorRole::BoldGreen,
        KindV::SymbolicLink(_) => ColorRole::BoldCyan,
        KindV::RegularFile => ColorRole::Plain,
    }
}

impl Dir {
    /// The node's displayed name under its own format options: full
    /// path or base name, optionally quoted, optionally decorated.
    pub fn stringify_name(&self) -> (r: String)
        ensures
            r@ == spec_name(self@, self.format_spec()),
    {
        name_of(self, self.format)
    }

    /// The indented textual tree (flat concatenation when indentation
    /// is off), one newline-terminated line per node.
    pub fn render(&self) -> (r: String)
        ensures
            r@ == spec_render(self@, self.format_spec(), self.nest_spec()),
    {
        let mut out = String::new();
        let mut nest: Vec<bool> = Vec::new();
        let mut i: usize = 0;
        while i < self.nest.len()
            invariant
                0 <= i <= self.nest@.len(),
                nest@ == self.nest@.subrange(0, i as int),
            decreases self.nest@.len() - i,
        {
            nest.push(self.nest[i]);
            proof {
                assert(nest@ =~= self.nest@.subrange(0, i + 1));
            }
            i = i + 1;
        }
        proof {
            assert(nest@ =~= self.nest@);
            reveal_strlit("");
        }
        render_into(self, self.format, &mut nest, &mut out);
        proof {
            assert(out@ =~= spec_render(self@, self.format_spec(), self.nest_spec()));
        }
        out
    }

    /// The whole tree as a single HTML document, its styles inline; the
    /// colorizing stylesheet is included only when colorizing is on.
    pub fn to_html(&self) -> (r: String)
        ensures
            r@ == spec_html_doc(self@, self.format_spec()),
    {
        let mut out = String::new();
        out.append("<!DOCTYPE html><html><head><style>");
        out.append("ul{list-style-type:none}");
        if self.format.colorize {
            out.append(
                ".dir{color:blue}.exe{color:green;font-weight:bold}.link{color:cyan;font-weight:bold}.ro{background-color:red}",
            );
        }
        out.append("</style></head><body>");
        proof {
            reveal_strlit("");
        }
        html_node(self, self.format, &mut out);
        out.append("</body></html>");
        proof {
            assert(out@ =~= spec_html_doc(self@, self.format_spec()));
        }
        out
    }

    /// The semantic color mapping for terminal rendering.
    pub fn color_role(&self) -> (r: ColorRole)
        ensures
            r == spec_color_role(self@.kind),
    {
        match &self.ftype {
            FType::Dir => ColorRole::Blue,
            FType::Exe => ColorRole::BoldGreen,
            FType::Link(_) => ColorRole::BoldCyan,
            FType::File => ColorRole::Plain,
        }
    }
}

} // verus!
