//! Glob-style pattern matching, layered over the `glob` crate.
//!
//! A [`Glob`] holds a pattern text that is known to compile; matching a
//! path against it is delegated to `glob::Pattern`, whose result is named
//! by the uninterpreted function [`glob_match`].

use vstd::prelude::*;

verus! {

/// Whether `glob::Pattern::new` accepts a pattern text.
pub uninterp spec fn glob_ok(pat: Seq<char>) -> bool;

/// The result of matching a compiled pattern against a path, with
/// case-sensitivity as the only varied match option: what
/// `glob::Pattern::new(pat).unwrap().matches_with(path, options)` returns
/// for `options` with `case_sensitive: !case_insensitive`,
/// `require_literal_separator: false` and
/// `require_literal_leading_dot: false`.
pub uninterp spec fn glob_match(pat: Seq<char>, path: Seq<char>, case_insensitive: bool) -> bool;

#[verifier::external_type_specification]
#[verifier::external_body]
pub struct ExPatternError(glob::PatternError);

/// Relies on `glob::Pattern::new`: it parses the pattern text alone, so
/// whether it succeeds is a function of that text.
#[verifier::external_body]
fn compile_check(pat: &str) -> (r: Result<(), glob::PatternError>)
    ensures
        r is Ok <==> glob_ok(pat@),
{
    match glob::Pattern::new(pat) {
        Ok(_) => Ok(()),
        Err(e) => Err(e),
    }
}

/// Relies on `glob::Pattern::matches_with` (together with
/// `glob::Pattern::new`): both are pure functions of their text inputs,
/// so the match result depends only on the pattern text, the path text
/// and the case option.
#[verifier::external_body]
fn match_glob(pat: &str, path: &str, case_insensitive: bool) -> (r: bool)
    requires
        glob_ok(pat@),
    ensures
        r == glob_match(pat@, path@, case_insensitive),
{
    let options = glob::MatchOptions {
        case_sensitive: !case_insensitive,
        require_literal_separator: false,
        require_literal_leading_dot: false,
    };
    glob::Pattern::new(pat).unwrap().matches_with(path, options)
}

/// The error taxonomy of this library: configuration errors are reported
/// once, before any tree is built.
#[derive(Debug)]
pub enum TreeError {
    /// A malformed glob pattern, carrying the `glob` crate's own report.
    Pattern(glob::PatternError),
}

impl From<glob::PatternError> for TreeError {
    fn from(e: glob::PatternError) -> (r: Self) {
        TreeError::Pattern(e)
    }
}

impl vstd::std_specs::convert::FromSpecImpl<glob::PatternError> for TreeError {
    open spec fn obeys_from_spec() -> bool {
        true
    }

    open spec fn from_spec(e: glob::PatternError) -> Self {
        TreeError::Pattern(e)
    }
}

/// A compiled pattern: a text that `glob::Pattern::new` accepts.
pub struct Glob {
    text: String,
}

impl View for Glob {
    type V = Seq<char>;

    closed spec fn view(&self) -> Seq<char> {
        self.text@
    }
}

impl Glob {
    #[verifier::type_invariant]
    spec fn inv(self) -> bool {
        glob_ok(self.text@)
    }

    /// Compile a pattern text; a malformed text is rejected, if and only
    /// if the `glob` crate rejects it.
    pub fn new(text: &str) -> (r: Result<Glob, TreeError>)
        ensures
            r is Ok <==> glob_ok(text@),
            r matches Ok(g) ==> g@ == text@,
    {
        match compile_check(text) {
            Ok(()) => Ok(Glob { text: text.to_owned() }),
            Err(e) => Err(TreeError::Pattern(e)),
        }
    }

    /// The pattern text this was compiled from.
    pub fn as_str(&self) -> (r: &str)
        ensures
            r@ == self@,
    {
        self.text.as_str()
    }

    /// Match a path against this pattern.
    pub fn matches(&self, path: &str, case_insensitive: bool) -> (r: bool)
        ensures
            r == glob_match(self@, path@, case_insensitive),
    {
        proof {
            use_type_invariant(self);
        }
        match_glob(self.text.as_str(), path, case_insensitive)
    }
}

impl Clone for Glob {
    fn clone(&self) -> (r: Self)
        ensures
            r@ == self@,
    {
        proof {
            use_type_invariant(self);
        }
        Glob { text: self.text.clone() }
    }
}

/// Match a raw pattern text against a path; `None` reports a malformed
/// pattern.
pub fn match_text(pattern: &str, path: &str, case_insensitive: bool) -> (r: Option<bool>)
    ensures
        r is Some <==> glob_ok(pattern@),
        r matches Some(b) ==> b == glob_match(pattern@, path@, case_insensitive),
{
    match Glob::new(pattern) {
        Ok(g) => Some(g.matches(path, case_insensitive)),
        Err(_) => None,
    }
}

/// The pattern texts of a sequence of compiled patterns.
pub open spec fn texts_of(gs: Seq<Glob>) -> Seq<Seq<char>> {
    gs.map_values(|g: Glob| g@)
}

/// Whether any pattern of the list matches the path.
pub open spec fn seq_any_match(pats: Seq<Seq<char>>, path: Seq<char>, ci: bool) -> bool {
    exists|i: int| 0 <= i < pats.len() && glob_match(pats[i], path, ci)
}

/// Match a path against every pattern of a list.
pub fn any_match(pats: &Vec<Glob>, path: &str, case_insensitive: bool) -> (r: bool)
    ensures
        r == seq_any_match(texts_of(pats@), path@, case_insensitive),
{
    let mut i: usize = 0;
    while i < pats.len()
        invariant
            0 <= i <= pats@.len(),
            forall|j: int| 0 <= j < i ==> !glob_match(texts_of(pats@)[j], path@, case_insensitive),
        decreases pats@.len() - i,
    {
        if pats[i].matches(path, case_insensitive) {
            assert(glob_match(texts_of(pats@)[i as int], path@, case_insensitive));
            return true;
        }
        i = i + 1;
    }
    false
}

/// A copy of a pattern list, text for text.
pub(crate) fn clone_globs(v: &Vec<Glob>) -> (r: Vec<Glob>)
    ensures
        texts_of(r@) == texts_of(v@),
{
    let mut out: Vec<Glob> = Vec::new();
    let mut i: usize = 0;
    while i < v.len()
        invariant
            0 <= i <= v@.len(),
            texts_of(out@) == texts_of(v@.subrange(0, i as int)),
        decreases v@.len() - i,
    {
        let ghost prev = out@;
        out.push(v[i].clone());
        proof {
            assert(texts_of(out@) =~= texts_of(prev).push(v@[i as int]@));
            assert(texts_of(v@.subrange(0, i + 1)) =~= texts_of(v@.subrange(0, i as int)).push(
                v@[i as int]@,
            ));
        }
        i = i + 1;
    }
    proof {
        assert(v@.subrange(0, v@.len() as int) =~= v@);
    }
    out
}

/// The `**/`-prefixed form of a raw command-line pattern.
pub open spec fn anywhere(s: Seq<char>) -> Seq<char> {
    "**/"@ + s
}

/// Compile raw command-line pattern texts, each prefixed with `**/` so
/// that it matches at any depth; the first malformed pattern is
/// reported.
pub fn pattern_ify(v: &Vec<String>) -> (r: Result<Vec<Glob>, TreeError>)
    ensures
        r is Ok <==> (forall|i: int| 0 <= i < v@.len() ==> glob_ok(anywhere(v@[i]@))),
        r matches Ok(gs) ==> gs@.len() == v@.len() && (forall|i: int|
            0 <= i < v@.len() ==> gs@[i]@ == anywhere(v@[i]@)),
{
    let mut out: Vec<Glob> = Vec::new();
    let mut i: usize = 0;
    while i < v.len()
        invariant
            0 <= i <= v@.len(),
            out@.len() == i,
            forall|j: int| 0 <= j < i ==> glob_ok(anywhere(v@[j]@)),
            forall|j: int| 0 <= j < i ==> out@[j]@ == anywhere(v@[j]@),
        decreases v@.len() - i,
    {
        let mut text = String::new();
        text.append("**/");
        text.append(v[i].as_str());
        proof {
            reveal_strlit("");
            assert(text@ =~= anywhere(v@[i as int]@));
        }
        match Glob::new(text.as_str()) {
            Ok(g) => {
                out.push(g);
            },
            Err(e) => {
                return Err(e);
            },
        }
        i = i + 1;
    }
    Ok(out)
}

} // verus!
