//! Search and render configuration.

use vstd::prelude::*;
use crate::pattern::Glob;
use crate::pattern::texts_of;

verus! {

/// The mathematical model of a [`SearchOpts`] value: pattern lists are
/// seen as their pattern texts.
pub ghost struct OptsV {
    pub dirs_only: bool,
    pub follow_symlinks: bool,
    pub show_hidden: bool,
    pub stay_on_fs: bool,
    pub max_depth: Option<usize>,
    pub use_gitignores: bool,
    pub vcs_whitelist_patterns: Seq<Seq<char>>,
    pub vcs_blacklist_patterns: Seq<Seq<char>>,
    pub positive_patterns: Seq<Seq<char>>,
    pub negative_patterns: Seq<Seq<char>>,
    pub case_insensitive_match: bool,
}

/// What the tree builder consults for every entry: independent switches,
/// the depth budget, the positive/negative command-line patterns, and
/// the currently inherited ignore black/white pattern lists (replaced by
/// a cascaded copy at each recursion step, never mutated in place).
pub struct SearchOpts {
    pub dirs_only: bool,
    pub follow_symlinks: bool,
    pub show_hidden: bool,
    pub stay_on_fs: bool,
    pub max_depth: Option<usize>,
    pub use_gitignores: bool,
    pub vcs_whitelist_patterns: Vec<Glob>,
    pub vcs_blacklist_patterns: Vec<Glob>,
    pub positive_patterns: Vec<Glob>,
    pub negative_patterns: Vec<Glob>,
    pub case_insensitive_match: bool,
}

impl View for SearchOpts {
    type V = OptsV;

    open spec fn view(&self) -> OptsV {
        OptsV {
            dirs_only: self.dirs_only,
            follow_symlinks: self.follow_symlinks,
            show_hidden: self.show_hidden,
            stay_on_fs: self.stay_on_fs,
            max_depth: self.max_depth,
            use_gitignores: self.use_gitignores,
            vcs_whitelist_patterns: texts_of(self.vcs_whitelist_patterns@),
            vcs_blacklist_patterns: texts_of(self.vcs_blacklist_patterns@),
            positive_patterns: texts_of(self.positive_patterns@),
            negative_patterns: texts_of(self.negative_patterns@),
            case_insensitive_match: self.case_insensitive_match,
        }
    }
}

impl Clone for SearchOpts {
    fn clone(&self) -> (r: Self)
        ensures
            r@ == self@,
    {
        SearchOpts {
            dirs_only: self.dirs_only,
            follow_symlinks: self.follow_symlinks,
            show_hidden: self.show_hidden,
            stay_on_fs: self.stay_on_fs,
            max_depth: self.max_depth,
            use_gitignores: self.use_gitignores,
            vcs_whitelist_patterns: crate::pattern::clone_globs(&self.vcs_whitelist_patterns),
            vcs_blacklist_patterns: crate::pattern::clone_globs(&self.vcs_blacklist_patterns),
            positive_patterns: crate::pattern::clone_globs(&self.positive_patterns),
            negative_patterns: crate::pattern::clone_globs(&self.negative_patterns),
            case_insensitive_match: self.case_insensitive_match,
        }
    }
}

impl Default for SearchOpts {
    /// All switches off, no depth limit, no patterns.
    fn default() -> (r: Self)
        ensures
            !r.dirs_only && !r.follow_symlinks && !r.show_hidden && !r.stay_on_fs,
            r.max_depth is None,
            !r.use_gitignores,
            r@.vcs_whitelist_patterns.len() == 0,
            r@.vcs_blacklist_patterns.len() == 0,
            r@.positive_patterns.len() == 0,
            r@.negative_patterns.len() == 0,
            !r.case_insensitive_match,
    {
        SearchOpts {
            dirs_only: false,
            follow_symlinks: false,
            show_hidden: false,
            stay_on_fs: false,
            max_depth: None,
            use_gitignores: false,
            vcs_whitelist_patterns: Vec::new(),
            vcs_blacklist_patterns: Vec::new(),
            positive_patterns: Vec::new(),
            negative_patterns: Vec::new(),
            case_insensitive_match: false,
        }
    }
}

/// Configuration for rendering only; no field affects which entries the
/// tree holds.
#[derive(Clone, Copy, PartialEq, Eq, Structural)]
pub struct FormatOpts {
    pub colorize: bool,
    pub decorate: bool,
    pub full_paths: bool,
    pub indent: bool,
    pub quote_names: bool,
    pub html_links: bool,
}

/// Every rendering embellishment off.
pub open spec fn default_format() -> FormatOpts {
    FormatOpts {
        colorize: false,
        decorate: false,
        full_paths: false,
        indent: false,
        quote_names: false,
        html_links: false,
    }
}

impl Default for FormatOpts {
    /// Every rendering embellishment off.
    fn default() -> (r: Self)
        ensures
            r == default_format(),
    {
        FormatOpts {
            colorize: false,
            decorate: false,
            full_paths: false,
            indent: false,
            quote_names: false,
            html_links: false,
        }
    }
}

} // verus!
