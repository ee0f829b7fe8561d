//! The ignore resolver: parses a per-directory ignore file into exclude
//! and reinclude pattern lists and composes them with the lists inherited
//! from the ancestor chain.
//!
//! Parsing rules, applied per line after trimming surrounding ASCII
//! whitespace: a blank or `#`-prefixed line is skipped; a leading `/` is
//! stripped (the pattern is anchored to the ignore file's directory, as
//! every pattern is); a leading `!` marks a reinclude pattern; a literal
//! leading `\#` or `\!` is unescaped and treated as an ordinary exclude
//! pattern. Every resulting pattern is rooted at the ignore file's
//! directory.

use vstd::prelude::*;
use vstd::string::*;
use crate::pattern::Glob;
use crate::pattern::glob_ok;
use crate::pattern::texts_of;

verus! {

/// ASCII whitespace, as trimmed from ignore-file lines.
pub open spec fn is_space(c: char) -> bool {
    c == ' ' || c == '\t' || c == '\r' || c == '\n'
}

/// `s` without its leading whitespace.
pub open spec fn trim_start(s: Seq<char>) -> Seq<char>
    decreases s.len(),
{
    if s.len() > 0 && is_space(s[0]) {
        trim_start(s.drop_first())
    } else {
        s
    }
}

/// `s` without its trailing whitespace.
pub open spec fn trim_end(s: Seq<char>) -> Seq<char>
    decreases s.len(),
{
    if s.len() > 0 && is_space(s.last()) {
        trim_end(s.drop_last())
    } else {
        s
    }
}

/// `s` without surrounding whitespace.
pub open spec fn spec_trim(s: Seq<char>) -> Seq<char> {
    trim_end(trim_start(s))
}

/// A pattern text anchored at a directory.
pub open spec fn rooted(dir: Seq<char>, pat: Seq<char>) -> Seq<char> {
    dir + "/"@ + pat
}

/// What one ignore-file line contributes: nothing, or a rooted pattern
/// text marked as reinclude (`true`) or exclude (`false`).
pub open spec fn spec_parse_line(dir: Seq<char>, line: Seq<char>) -> Option<(bool, Seq<char>)> {
    let t = spec_trim(line);
    if t.len() == 0 || t[0] == '#' {
        None
    } else {
        let t1 = if t[0] == '/' {
            t.drop_first()
        } else {
            t
        };
        if t1.len() > 0 && t1[0] == '!' {
            Some((true, rooted(dir, t1.drop_first())))
        } else {
            let t2 = if t1.len() >= 2 && t1[0] == '\\' && (t1[1] == '#' || t1[1] == '!') {
                t1.drop_first()
            } else {
                t1
            };
            Some((false, rooted(dir, t2)))
        }
    }
}

/// The exclude and reinclude pattern texts of an ignore file's lines, in
/// line order.
pub open spec fn spec_parse_ignore(dir: Seq<char>, lines: Seq<Seq<char>>) -> (Seq<Seq<char>>, Seq<
    Seq<char>,
>)
    decreases lines.len(),
{
    if lines.len() == 0 {
        (Seq::<Seq<char>>::empty(), Seq::<Seq<char>>::empty())
    } else {
        let rest = spec_parse_ignore(dir, lines.drop_first());
        match spec_parse_line(dir, lines[0]) {
            None => rest,
            Some(p) => if p.0 {
                (rest.0, seq![p.1] + rest.1)
            } else {
                (seq![p.1] + rest.0, rest.1)
            },
        }
    }
}

/// The views of a sequence of lines.
pub open spec fn line_views(lines: Seq<String>) -> Seq<Seq<char>> {
    lines.map_values(|l: String| l@)
}

/// Whether every pattern text of the list compiles.
pub open spec fn all_globs_ok(pats: Seq<Seq<char>>) -> bool {
    forall|i: int| 0 <= i < pats.len() ==> glob_ok(pats[i])
}

/// The rules a directory contributes to the cascade: its ignore file's
/// parsed patterns, or nothing when ignore files are not consulted, the
/// file is absent, or any of its patterns is malformed.
pub open spec fn spec_ignore_rules(
    dir: Seq<char>,
    ignore: Option<Vec<String>>,
    use_gitignores: bool,
) -> (Seq<Seq<char>>, Seq<Seq<char>>) {
    if use_gitignores {
        match ignore {
            Some(lines) => {
                let p = spec_parse_ignore(dir, line_views(lines@));
                if all_globs_ok(p.0) && all_globs_ok(p.1) {
                    p
                } else {
                    (Seq::<Seq<char>>::empty(), Seq::<Seq<char>>::empty())
                }
            },
            None => (Seq::<Seq<char>>::empty(), Seq::<Seq<char>>::empty()),
        }
    } else {
        (Seq::<Seq<char>>::empty(), Seq::<Seq<char>>::empty())
    }
}

fn is_space_exec(c: char) -> (r: bool)
    ensures
        r == is_space(c),
{
    c == ' ' || c == '\t' || c == '\r' || c == '\n'
}

/// `s` without surrounding ASCII whitespace.
fn trim_str<'a>(s: &'a str) -> (r: &'a str)
    ensures
        r@ == spec_trim(s@),
{
    let len = s.unicode_len();
    let mut i: usize = 0;
    proof {
        assert(s@.skip(0) =~= s@);
    }
    while i < len && is_space_exec(s.get_char(i))
        invariant
            0 <= i <= len,
            len == s@.len(),
            trim_start(s@) == trim_start(s@.skip(i as int)),
        decreases len - i,
    {
        proof {
            assert(s@.skip(i as int).drop_first() =~= s@.skip(i + 1));
        }
        i = i + 1;
    }
    proof {
        assert(trim_start(s@.skip(i as int)) == s@.skip(i as int));
        assert(s@.skip(i as int) =~= s@.subrange(i as int, len as int));
    }
    let mut j: usize = len;
    while j > i && is_space_exec(s.get_char(j - 1))
        invariant
            i <= j <= len,
            len == s@.len(),
            trim_start(s@) == s@.subrange(i as int, len as int),
            trim_end(s@.subrange(i as int, len as int)) == trim_end(
                s@.subrange(i as int, j as int),
            ),
        decreases j,
    {
        proof {
            assert(s@.subrange(i as int, j as int).drop_last() =~= s@.subrange(
                i as int,
                j - 1,
            ));
        }
        j = j - 1;
    }
    proof {
        assert(trim_end(s@.subrange(i as int, j as int)) == s@.subrange(i as int, j as int));
    }
    s.substring_char(i, j)
}

/// A pattern text anchored at a directory.
pub(crate) fn rooted_text(dir: &str, pat: &str) -> (r: String)
    ensures
        r@ == rooted(dir@, pat@),
{
    let mut s = dir.to_owned();
    s.append("/");
    s.append(pat);
    proof {
        assert(s@ =~= rooted(dir@, pat@));
    }
    s
}

/// What one ignore-file line contributes.
fn parse_line(dir: &str, line: &str) -> (r: Option<(bool, String)>)
    ensures
        r is Some <==> spec_parse_line(dir@, line@) is Some,
        r matches Some(p) ==> spec_parse_line(dir@, line@) == Some((p.0, p.1@)),
{
    let t = trim_str(line);
    let t_len = t.unicode_len();
    if t_len == 0 {
        return None;
    }
    let c0 = t.get_char(0);
    if c0 == '#' {
        return None;
    }
    let t1 = if c0 == '/' {
        t.substring_char(1, t_len)
    } else {
        t
    };
    proof {
        if c0 == '/' {
            assert(t1@ =~= t@.drop_first());
        }
    }
    let t1_len = t1.unicode_len();
    if t1_len > 0 && t1.get_char(0) == '!' {
        let pat = t1.substring_char(1, t1_len);
        proof {
            assert(pat@ =~= t1@.drop_first());
        }
        Some((true, rooted_text(dir, pat)))
    } else if t1_len >= 2 && t1.get_char(0) == '\\' && (t1.get_char(1) == '#' || t1.get_char(1)
        == '!') {
        let pat = t1.substring_char(1, t1_len);
        proof {
            assert(pat@ =~= t1@.drop_first());
        }
        Some((false, rooted_text(dir, pat)))
    } else {
        Some((false, rooted_text(dir, t1)))
    }
}

/// One directory's ignore rules: compiled exclude (black) and reinclude
/// (white) patterns.
pub struct VcsIgnore {
    pub black: Vec<Glob>,
    pub white: Vec<Glob>,
}

impl VcsIgnore {
    /// Rules of an absent or disregarded ignore file.
    pub fn empty() -> (r: Self)
        ensures
            texts_of(r.black@) == Seq::<Seq<char>>::empty(),
            texts_of(r.white@) == Seq::<Seq<char>>::empty(),
    {
        let r = VcsIgnore { black: Vec::new(), white: Vec::new() };
        proof {
            assert(texts_of(r.black@) =~= Seq::<Seq<char>>::empty());
            assert(texts_of(r.white@) =~= Seq::<Seq<char>>::empty());
        }
        r
    }

    /// Parse an ignore file's lines; `None` reports a malformed pattern
    /// (the whole file is then disregarded).
    pub fn parse(dir: &str, lines: &Vec<String>) -> (r: Option<Self>)
        ensures
            ({
                let p = spec_parse_ignore(dir@, line_views(lines@));
                &&& (r is Some <==> all_globs_ok(p.0) && all_globs_ok(p.1))
                &&& (r matches Some(v) ==> texts_of(v.black@) == p.0 && texts_of(v.white@)
                    == p.1)
            }),
    {
        let ghost lv = line_views(lines@);
        let ghost full = spec_parse_ignore(dir@, lv);
        let mut black: Vec<Glob> = Vec::new();
        let mut white: Vec<Glob> = Vec::new();
        let mut i: usize = 0;
        proof {
            assert(lv.skip(0) =~= lv);
            assert(texts_of(black@) + full.0 =~= full.0);
            assert(texts_of(white@) + full.1 =~= full.1);
        }
        while i < lines.len()
            invariant
                0 <= i <= lines@.len(),
                lv == line_views(lines@),
                full == spec_parse_ignore(dir@, lv),
                full.0 == texts_of(black@) + spec_parse_ignore(dir@, lv.skip(i as int)).0,
                full.1 == texts_of(white@) + spec_parse_ignore(dir@, lv.skip(i as int)).1,
                all_globs_ok(texts_of(black@)),
                all_globs_ok(texts_of(white@)),
            decreases lines@.len() - i,
        {
            let ghost rem = lv.skip(i as int);
            let ghost rem_parsed = spec_parse_ignore(dir@, rem);
            proof {
                assert(rem.len() > 0);
                assert(rem[0] == lv[i as int]);
                assert(rem.drop_first() =~= lv.skip(i + 1));
            }
            let line = &lines[i];
            match parse_line(dir, line.as_str()) {
                None => {},
                Some((is_white, text)) => {
                    match Glob::new(text.as_str()) {
                        Ok(g) => {
                            if is_white {
                                let ghost prev = white@;
                                white.push(g);
                                proof {
                                    assert(texts_of(white@) =~= texts_of(prev).push(text@));
                                    assert(texts_of(prev).push(text@) + spec_parse_ignore(
                                        dir@,
                                        lv.skip(i + 1),
                                    ).1 =~= texts_of(prev) + (seq![text@] + spec_parse_ignore(
                                        dir@,
                                        lv.skip(i + 1),
                                    ).1));
                                    assert(full.1 =~= texts_of(white@) + spec_parse_ignore(
                                        dir@,
                                        lv.skip(i + 1),
                                    ).1);
                                }
                            } else {
                                let ghost prev = black@;
                                black.push(g);
                                proof {
                                    assert(texts_of(black@) =~= texts_of(prev).push(text@));
                                    assert(texts_of(prev).push(text@) + spec_parse_ignore(
                                        dir@,
                                        lv.skip(i + 1),
                                    ).0 =~= texts_of(prev) + (seq![text@] + spec_parse_ignore(
                                        dir@,
                                        lv.skip(i + 1),
                                    ).0));
                                    assert(full.0 =~= texts_of(black@) + spec_parse_ignore(
                                        dir@,
                                        lv.skip(i + 1),
                                    ).0);
                                }
                            }
                        },
                        Err(_) => {
                            proof {
                                if is_white {
                                    assert(full.1[texts_of(white@).len() as int] == text@);
                                    assert(!all_globs_ok(full.1));
                                } else {
                                    assert(full.0[texts_of(black@).len() as int] == text@);
                                    assert(!all_globs_ok(full.0));
                                }
                            }
                            return None;
                        },
                    }
                },
            }
            i = i + 1;
        }
        proof {
            assert(lv.skip(lines@.len() as int) =~= Seq::<Seq<char>>::empty());
            assert(full.0 =~= texts_of(black@));
            assert(full.1 =~= texts_of(white@));
        }
        Some(VcsIgnore { black, white })
    }

    /// These rules, concatenated with the lists inherited from the
    /// ancestor chain (own patterns first).
    pub fn compose(self, other_black: &Vec<Glob>, other_white: &Vec<Glob>) -> (r: Self)
        ensures
            texts_of(r.black@) == texts_of(self.black@) + texts_of(other_black@),
            texts_of(r.white@) == texts_of(self.white@) + texts_of(other_white@),
    {
        let VcsIgnore { mut black, mut white } = self;
        let ghost black0 = black@;
        let ghost white0 = white@;
        let mut i: usize = 0;
        while i < other_black.len()
            invariant
                0 <= i <= other_black@.len(),
                texts_of(black@) == texts_of(black0) + texts_of(other_black@.subrange(0, i as int)),
            decreases other_black@.len() - i,
        {
            let ghost prev = black@;
            black.push(other_black[i].clone());
            proof {
                assert(texts_of(black@) =~= texts_of(prev).push(other_black@[i as int]@));
                assert(texts_of(other_black@.subrange(0, i + 1)) =~= texts_of(
                    other_black@.subrange(0, i as int),
                ).push(other_black@[i as int]@));
                assert(texts_of(black@) =~= texts_of(black0) + texts_of(
                    other_black@.subrange(0, i + 1),
                ));
            }
            i = i + 1;
        }
        let mut j: usize = 0;
        while j < other_white.len()
            invariant
                0 <= j <= other_white@.len(),
                texts_of(black@) == texts_of(black0) + texts_of(other_black@.subrange(0, i as int)),
                i == other_black@.len(),
                texts_of(white@) == texts_of(white0) + texts_of(other_white@.subrange(0, j as int)),
            decreases other_white@.len() - j,
        {
            let ghost prev = white@;
            white.push(other_white[j].clone());
            proof {
                assert(texts_of(white@) =~= texts_of(prev).push(other_white@[j as int]@));
                assert(texts_of(other_white@.subrange(0, j + 1)) =~= texts_of(
                    other_white@.subrange(0, j as int),
                ).push(other_white@[j as int]@));
                assert(texts_of(white@) =~= texts_of(white0) + texts_of(
                    other_white@.subrange(0, j + 1),
                ));
            }
            j = j + 1;
        }
        proof {
            assert(other_black@.subrange(0, other_black@.len() as int) =~= other_black@);
            assert(other_white@.subrange(0, other_white@.len() as int) =~= other_white@);
        }
        VcsIgnore { black, white }
    }

    /// The rules a directory contributes: its ignore file's parsed
    /// patterns, or nothing when ignore files are not consulted, the file
    /// is absent, or it holds a malformed pattern.
    pub fn rules_for_dir(dir: &str, ignore: &Option<Vec<String>>, use_gitignores: bool) -> (r: Self)
        ensures
            ({
                let p = spec_ignore_rules(dir@, *ignore, use_gitignores);
                texts_of(r.black@) == p.0 && texts_of(r.white@) == p.1
            }),
    {
        if !use_gitignores {
            Self::empty()
        } else {
            match ignore {
                Some(lines) => match Self::parse(dir, lines) {
                    Some(v) => v,
                    None => Self::empty(),
                },
                None => Self::empty(),
            }
        }
    }
}

} // verus!
