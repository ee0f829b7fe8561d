//! The tree builder: the ordered, short-circuiting decision pipeline
//! that, for every entry of a filesystem snapshot, decides whether it is
//! visible, whether a directory is expanded, and how symlink, depth and
//! ignore-file policies interact.
//!
//! Per entry, in order: the hidden-name test (skipped for the scan
//! root), the exclude/reinclude pattern test, symlink classification,
//! depth arithmetic, directory expansion under the cascaded ignore
//! rules, and positive-pattern admission for leaves.

use vstd::prelude::*;
use crate::fsdata::fs_wf;
use crate::fsdata::kids_wf;
use crate::fsdata::name_ok;
use crate::fsdata::FsEntry;
use crate::fsdata::FsNode;
use crate::ignore::rooted;
use crate::ignore::rooted_text;
use crate::ignore::spec_ignore_rules;
use crate::ignore::VcsIgnore;
use crate::opts::default_format;
use crate::opts::OptsV;
use crate::opts::SearchOpts;
use crate::pattern::any_match;
use crate::pattern::clone_globs;
use crate::pattern::seq_any_match;
use crate::tree::after_last_slash;
use crate::tree::dir_node;
use crate::tree::kinds_ok;
use crate::tree::leaf_node;
use crate::tree::views_of;
use crate::tree::Dir;
use crate::tree::FType;
use crate::tree::KindV;
use crate::tree::NodeV;

verus! {

/// Whether a final path component names a hidden entry.
pub open spec fn is_hidden(name: Seq<char>) -> bool {
    name.len() > 0 && name[0] == '.'
}

/// Whether the path matches some exclude pattern (command-line negative
/// patterns or the cascaded ignore blacklist) and no reinclude pattern:
/// a whole-set test, not first-match-wins.
pub open spec fn spec_excluded(path: Seq<char>, cfg: OptsV) -> bool {
    (seq_any_match(cfg.negative_patterns, path, cfg.case_insensitive_match) || seq_any_match(
        cfg.vcs_blacklist_patterns,
        path,
        cfg.case_insensitive_match,
    )) && !seq_any_match(cfg.vcs_whitelist_patterns, path, cfg.case_insensitive_match)
}

/// Whether a leaf passes positive-pattern admission: admitted when no
/// positive pattern is given, or when at least one matches.
pub open spec fn spec_admitted_leaf(path: Seq<char>, cfg: OptsV) -> bool {
    cfg.positive_patterns.len() == 0 || seq_any_match(
        cfg.positive_patterns,
        path,
        cfg.case_insensitive_match,
    )
}

/// Whether a symbolic link to a directory is followed: only if symlink
/// following is on, and staying on the filesystem is either not asked
/// for or the link's canonical target stays within its own subtree.
pub open spec fn spec_follow(stays_on_fs: bool, cfg: OptsV) -> bool {
    cfg.follow_symlinks && (!cfg.stay_on_fs || stays_on_fs)
}

/// The options a directory's children are scanned with: the decremented
/// depth budget, and the directory's own ignore rules prepended to the
/// inherited black/white lists. Everything else is unchanged.
pub open spec fn spec_child_cfg(
    cfg: OptsV,
    dir_path: Seq<char>,
    ignore: Option<Vec<String>>,
    depth: Option<usize>,
) -> OptsV {
    let p = spec_ignore_rules(dir_path, ignore, cfg.use_gitignores);
    OptsV {
        max_depth: depth,
        vcs_blacklist_patterns: p.0 + cfg.vcs_blacklist_patterns,
        vcs_whitelist_patterns: p.1 + cfg.vcs_whitelist_patterns,
        ..cfg
    }
}

/// The node the builder produces for one snapshot entry, or `None` when
/// the entry is excluded. `is_root` exempts the scan root from the
/// hidden-name test.
pub open spec fn spec_build(path: Seq<char>, fs: FsNode, cfg: OptsV, is_root: bool) -> Option<
    NodeV,
>
    decreases fs,
{
    if !is_root && !cfg.show_hidden && is_hidden(fs.name@) {
        None
    } else if spec_excluded(path, cfg) {
        None
    } else {
        match fs.entry {
            FsEntry::File { executable } => if spec_admitted_leaf(path, cfg) {
                Some(
                    NodeV {
                        path,
                        kind: if executable {
                            KindV::Executable
                        } else {
                            KindV::RegularFile
                        },
                        read_only: fs.read_only,
                        children: Seq::<NodeV>::empty(),
                    },
                )
            } else {
                None
            },
            FsEntry::Dir { children, ignore } => Some(
                spec_dir_node(path, fs.read_only, children, ignore, cfg),
            ),
            FsEntry::DirLink { target, stays_on_fs, children, ignore } => if spec_follow(
                stays_on_fs,
                cfg,
            ) {
                Some(spec_dir_node(path, fs.read_only, children, ignore, cfg))
            } else {
                Some(
                    NodeV {
                        path,
                        kind: KindV::SymbolicLink(target@),
                        read_only: fs.read_only,
                        children: Seq::<NodeV>::empty(),
                    },
                )
            },
        }
    }
}

/// The directory node for an entry that is expanded as a directory: with
/// an exhausted depth budget its children stay unexpanded (the node is
/// still present); otherwise the children are built under the cascaded
/// rules and the decremented budget.
pub open spec fn spec_dir_node(
    path: Seq<char>,
    read_only: bool,
    children: Vec<FsNode>,
    ignore: Option<Vec<String>>,
    cfg: OptsV,
) -> NodeV
    decreases children,
{
    if cfg.max_depth == Some(0usize) {
        NodeV { path, kind: KindV::Directory, read_only, children: Seq::<NodeV>::empty() }
    } else {
        let depth = match cfg.max_depth {
            Some(n) => Some((n - 1) as usize),
            None => None,
        };
        let ccfg = spec_child_cfg(cfg, path, ignore, depth);
        NodeV {
            path,
            kind: KindV::Directory,
            read_only,
            children: spec_build_kids(path, children@, ccfg),
        }
    }
}

/// The built children of a directory, in snapshot order: entries that a
/// directories-only filter rejects contribute nothing, and so does every
/// excluded entry.
pub open spec fn spec_build_kids(parent: Seq<char>, kids: Seq<FsNode>, cfg: OptsV) -> Seq<NodeV>
    decreases kids,
{
    if kids.len() == 0 {
        Seq::<NodeV>::empty()
    } else {
        let rest = spec_build_kids(parent, kids.drop_first(), cfg);
        if cfg.dirs_only && !kids[0].is_dirlike() {
            rest
        } else {
            match spec_build(rooted(parent, kids[0].name@), kids[0], cfg, false) {
                Some(n) => seq![n] + rest,
                None => rest,
            }
        }
    }
}

fn hidden_name(s: &str) -> (r: bool)
    ensures
        r == is_hidden(s@),
{
    if s.unicode_len() == 0 {
        false
    } else {
        s.get_char(0) == '.'
    }
}

impl Dir {
    /// Build the tree for a filesystem snapshot: the decision pipeline
    /// applied to the root (hidden-name test exempted) and, recursively,
    /// to every entry below it. `None` reports that nothing matched the
    /// given options.
    pub fn from(fs: &FsNode, cfg: &SearchOpts) -> (r: Option<Dir>)
        ensures
            r is Some <==> spec_build(fs.name@, *fs, cfg@, true) is Some,
            r matches Some(d) ==> Some(d@) == spec_build(fs.name@, *fs, cfg@, true)
                && d.format_spec() == default_format() && d.nest_spec() == Seq::<bool>::empty(),
    {
        let path = fs.name.clone();
        build_node(path, fs, cfg, true)
    }
}

/// One step of the pipeline, for the entry at `path`.
fn build_node(path: String, fs: &FsNode, cfg: &SearchOpts, is_root: bool) -> (r: Option<Dir>)
    ensures
        r is Some <==> spec_build(path@, *fs, cfg@, is_root) is Some,
        r matches Some(d) ==> Some(d@) == spec_build(path@, *fs, cfg@, is_root)
            && d.format_spec() == default_format() && d.nest_spec() == Seq::<bool>::empty(),
    decreases *fs,
{
    if !is_root && !cfg.show_hidden && hidden_name(fs.name.as_str()) {
        return None;
    }
    let ci = cfg.case_insensitive_match;
    if (any_match(&cfg.negative_patterns, path.as_str(), ci) || any_match(
        &cfg.vcs_blacklist_patterns,
        path.as_str(),
        ci,
    )) && !any_match(&cfg.vcs_whitelist_patterns, path.as_str(), ci) {
        return None;
    }
    match &fs.entry {
        FsEntry::File { executable } => {
            if cfg.positive_patterns.len() == 0 || any_match(
                &cfg.positive_patterns,
                path.as_str(),
                ci,
            ) {
                let ftype = if *executable {
                    FType::Exe
                } else {
                    FType::File
                };
                Some(leaf_node(path, ftype, fs.read_only))
            } else {
                None
            }
        },
        FsEntry::Dir { children, ignore } => Some(
            expand_dir(path, fs.read_only, children, ignore, cfg),
        ),
        FsEntry::DirLink { target, stays_on_fs, children, ignore } => {
            if cfg.follow_symlinks && (!cfg.stay_on_fs || *stays_on_fs) {
                Some(expand_dir(path, fs.read_only, children, ignore, cfg))
            } else {
                Some(leaf_node(path, FType::Link(target.clone()), fs.read_only))
            }
        },
    }
}

/// Expand a directory entry: resolve and cascade its ignore rules,
/// decrement the depth budget, and build each child.
fn expand_dir(
    path: String,
    read_only: bool,
    children: &Vec<FsNode>,
    ignore: &Option<Vec<String>>,
    cfg: &SearchOpts,
) -> (r: Dir)
    ensures
        r@ == spec_dir_node(path@, read_only, *children, *ignore, cfg@),
        r.format_spec() == default_format(),
        r.nest_spec() == Seq::<bool>::empty(),
    decreases *children,
{
    let child_depth: Option<usize> = match cfg.max_depth {
        Some(n) => {
            if n == 0 {
                let r = dir_node(path, read_only, Vec::new());
                proof {
                    assert(views_of(Seq::<Dir>::empty()) =~= Seq::<NodeV>::empty());
                }
                return r;
            }
            Some(n - 1)
        },
        None => None,
    };
    let rules = VcsIgnore::rules_for_dir(path.as_str(), ignore, cfg.use_gitignores);
    let composed = rules.compose(&cfg.vcs_blacklist_patterns, &cfg.vcs_whitelist_patterns);
    let child_cfg = SearchOpts {
        dirs_only: cfg.dirs_only,
        follow_symlinks: cfg.follow_symlinks,
        show_hidden: cfg.show_hidden,
        stay_on_fs: cfg.stay_on_fs,
        max_depth: child_depth,
        use_gitignores: cfg.use_gitignores,
        vcs_whitelist_patterns: composed.white,
        vcs_blacklist_patterns: composed.black,
        positive_patterns: clone_globs(&cfg.positive_patterns),
        negative_patterns: clone_globs(&cfg.negative_patterns),
        case_insensitive_match: cfg.case_insensitive_match,
    };
    let ghost ccfg = spec_child_cfg(cfg@, path@, *ignore, child_depth);
    proof {
        assert(child_cfg@ == ccfg);
    }
    let ghost all = spec_build_kids(path@, children@, ccfg);
    let mut out: Vec<Dir> = Vec::new();
    let mut i: usize = 0;
    proof {
        assert(children@.skip(0) =~= children@);
        assert(views_of(out@) + all =~= all);
    }
    while i < children.len()
        invariant
            0 <= i <= children@.len(),
            all == spec_build_kids(path@, children@, ccfg),
            child_cfg@ == ccfg,
            views_of(out@) + spec_build_kids(path@, children@.skip(i as int), ccfg) == all,
        decreases children@.len() - i,
    {
        let ghost rem = children@.skip(i as int);
        proof {
            assert(rem[0] == children@[i as int]);
            assert(rem.drop_first() =~= children@.skip(i + 1));
        }
        let k = &children[i];
        if !child_cfg.dirs_only || k.dirlike() {
            let child_path = rooted_text(path.as_str(), k.name.as_str());
            match build_node(child_path, k, &child_cfg, false) {
                Some(d) => {
                    let ghost prev = out@;
                    out.push(d);
                    proof {
                        assert(views_of(out@) =~= views_of(prev).push(d@));
                        assert(views_of(prev).push(d@) + spec_build_kids(
                            path@,
                            children@.skip(i + 1),
                            ccfg,
                        ) =~= views_of(prev) + (seq![d@] + spec_build_kids(
                            path@,
                            children@.skip(i + 1),
                            ccfg,
                        )));
                    }
                },
                None => {},
            }
        }
        i = i + 1;
    }
    proof {
        assert(children@.skip(children@.len() as int) =~= Seq::<FsNode>::empty());
        assert(views_of(out@) =~= all);
    }
    dir_node(path, read_only, out)
}

/// Every built node carries the path it was built at.
pub proof fn lemma_build_path(path: Seq<char>, fs: FsNode, cfg: OptsV, is_root: bool)
    ensures
        spec_build(path, fs, cfg, is_root) matches Some(t) ==> t.path == path,
{
}

/// A name without separators is the final component of the path it is
/// joined onto.
proof fn lemma_after_rooted(a: Seq<char>, n: Seq<char>)
    requires
        !n.contains('/'),
    ensures
        after_last_slash(rooted(a, n)) == n,
    decreases n.len(),
{
    reveal_strlit("/");
    if n.len() == 0 {
        assert(rooted(a, n) =~= a + "/"@);
        assert((a + "/"@).last() == '/');
        assert(after_last_slash(rooted(a, n)) =~= n);
    } else {
        assert(n[n.len() - 1] == n.last());
        assert(n.contains(n.last()));
        assert(n.last() != '/');
        assert(rooted(a, n).last() == n.last());
        assert(rooted(a, n).drop_last() =~= rooted(a, n.drop_last()));
        assert(!n.drop_last().contains('/')) by {
            if n.drop_last().contains('/') {
                let i = choose|i: int| 0 <= i < n.drop_last().len() && n.drop_last()[i] == '/';
                assert(n[i] == '/');
                assert(n.contains('/'));
            }
        }
        lemma_after_rooted(a, n.drop_last());
        assert(after_last_slash(rooted(a, n)) =~= n);
    }
}

/// Whether no entry below this node has a hidden final path component.
pub open spec fn no_hidden_below(t: NodeV) -> bool
    decreases t,
{
    forall|i: int|
        0 <= i < t.children.len() ==> !is_hidden(after_last_slash(
            (#[trigger] t.children[i]).path,
        )) && no_hidden_below(t.children[i])
}

proof fn lemma_hidden_kids(parent: Seq<char>, kids: Seq<FsNode>, cfg: OptsV)
    requires
        !cfg.show_hidden,
        kids_wf(kids),
    ensures
        forall|j: int|
            0 <= j < spec_build_kids(parent, kids, cfg).len() ==> !is_hidden(after_last_slash(
                (#[trigger] spec_build_kids(parent, kids, cfg)[j]).path,
            )) && no_hidden_below(spec_build_kids(parent, kids, cfg)[j]),
    decreases kids,
{
    if kids.len() > 0 {
        let k0 = kids[0];
        let rest = kids.drop_first();
        assert(kids_wf(rest)) by {
            assert forall|k: int| 0 <= k < rest.len() implies name_ok(
                (#[trigger] rest[k]).name@,
            ) && fs_wf(rest[k]) by {
                assert(rest[k] == kids[k + 1]);
            }
        }
        lemma_hidden_kids(parent, rest, cfg);
        let r = spec_build_kids(parent, kids, cfg);
        let rest_r = spec_build_kids(parent, rest, cfg);
        if cfg.dirs_only && !k0.is_dirlike() {
        } else {
            match spec_build(rooted(parent, k0.name@), k0, cfg, false) {
                Some(n) => {
                    assert(!is_hidden(k0.name@));
                    lemma_build_path(rooted(parent, k0.name@), k0, cfg, false);
                    assert(name_ok(k0.name@));
                    lemma_after_rooted(parent, k0.name@);
                    lemma_hidden_node(rooted(parent, k0.name@), k0, cfg, false);
                    assert forall|j: int| 0 <= j < r.len() implies !is_hidden(after_last_slash(
                        (#[trigger] r[j]).path,
                    )) && no_hidden_below(r[j]) by {
                        if j == 0 {
                            assert(r[0] == n);
                        } else {
                            assert(r[j] == rest_r[j - 1]);
                        }
                    }
                },
                None => {},
            }
        }
    }
}

/// Hidden-file invariant, absence direction: when hidden entries are
/// not shown, no entry below the given one has a hidden final path
/// component anywhere in the built tree. (The scan root itself is
/// exempt from the hidden-name test.)
pub proof fn lemma_hidden_node(path: Seq<char>, fs: FsNode, cfg: OptsV, is_root: bool)
    requires
        !cfg.show_hidden,
        fs_wf(fs),
    ensures
        spec_build(path, fs, cfg, is_root) matches Some(t) ==> no_hidden_below(t),
    decreases fs,
{
    match spec_build(path, fs, cfg, is_root) {
        None => {},
        Some(t) => {
            match fs.entry {
                FsEntry::File { .. } => {
                    assert(no_hidden_below(t));
                },
                FsEntry::Dir { children, ignore } => {
                    lemma_hidden_expand(path, fs, children, ignore, cfg);
                    assert(no_hidden_below(t));
                },
                FsEntry::DirLink { target, stays_on_fs, children, ignore } => {
                    if spec_follow(stays_on_fs, cfg) {
                        lemma_hidden_expand(path, fs, children, ignore, cfg);
                    }
                    assert(no_hidden_below(t));
                },
            }
        },
    }
}

proof fn lemma_hidden_expand(
    path: Seq<char>,
    fs: FsNode,
    children: Vec<FsNode>,
    ignore: Option<Vec<String>>,
    cfg: OptsV,
)
    requires
        !cfg.show_hidden,
        kids_wf(children@),
    ensures
        no_hidden_below(spec_dir_node(path, fs.read_only, children, ignore, cfg)),
    decreases children,
{
    let t = spec_dir_node(path, fs.read_only, children, ignore, cfg);
    if cfg.max_depth == Some(0usize) {
        assert(no_hidden_below(t));
    } else {
        let depth = match cfg.max_depth {
            Some(n) => Some((n - 1) as usize),
            None => None,
        };
        let ccfg = spec_child_cfg(cfg, path, ignore, depth);
        assert(!ccfg.show_hidden);
        lemma_hidden_kids(path, children@, ccfg);
        assert(no_hidden_below(t));
    }
}

/// Whether no directory of the tree is expanded beyond the given
/// budget: with a budget of zero a node has no expanded children, and
/// each child's subtree keeps to a budget one smaller.
pub open spec fn depth_bounded(t: NodeV, b: int) -> bool
    decreases t,
{
    (b <= 0 ==> t.children.len() == 0) && forall|i: int|
        0 <= i < t.children.len() ==> depth_bounded(#[trigger] t.children[i], b - 1)
}

proof fn lemma_depth_kids(parent: Seq<char>, kids: Seq<FsNode>, cfg: OptsV, m: usize)
    requires
        cfg.max_depth == Some(m),
    ensures
        forall|j: int|
            0 <= j < spec_build_kids(parent, kids, cfg).len() ==> depth_bounded(
                #[trigger] spec_build_kids(parent, kids, cfg)[j],
                m as int,
            ),
    decreases kids,
{
    if kids.len() > 0 {
        let k0 = kids[0];
        let rest = kids.drop_first();
        lemma_depth_kids(parent, rest, cfg, m);
        let r = spec_build_kids(parent, kids, cfg);
        let rest_r = spec_build_kids(parent, rest, cfg);
        if cfg.dirs_only && !k0.is_dirlike() {
        } else {
            match spec_build(rooted(parent, k0.name@), k0, cfg, false) {
                Some(n) => {
                    lemma_depth_node(rooted(parent, k0.name@), k0, cfg, false, m);
                    assert forall|j: int| 0 <= j < r.len() implies depth_bounded(
                        #[trigger] r[j],
                        m as int,
                    ) by {
                        if j == 0 {
                            assert(r[0] == n);
                        } else {
                            assert(r[j] == rest_r[j - 1]);
                        }
                    }
                },
                None => {},
            }
        }
    }
}

/// Depth invariant: with a depth budget of `n`, the built tree is
/// bounded by `n`: no directory at depth `n` from here is expanded, and
/// none below the budget's reach appears at all.
pub proof fn lemma_depth_node(path: Seq<char>, fs: FsNode, cfg: OptsV, is_root: bool, n: usize)
    requires
        cfg.max_depth == Some(n),
    ensures
        spec_build(path, fs, cfg, is_root) matches Some(t) ==> depth_bounded(t, n as int),
    decreases fs,
{
    match spec_build(path, fs, cfg, is_root) {
        None => {},
        Some(t) => {
            match fs.entry {
                FsEntry::File { .. } => {
                    assert(depth_bounded(t, n as int));
                },
                FsEntry::Dir { children, ignore } => {
                    lemma_depth_expand(path, fs, children, ignore, cfg, n);
                },
                FsEntry::DirLink { target, stays_on_fs, children, ignore } => {
                    if spec_follow(stays_on_fs, cfg) {
                        lemma_depth_expand(path, fs, children, ignore, cfg, n);
                    } else {
                        assert(depth_bounded(t, n as int));
                    }
                },
            }
        },
    }
}

proof fn lemma_depth_expand(
    path: Seq<char>,
    fs: FsNode,
    children: Vec<FsNode>,
    ignore: Option<Vec<String>>,
    cfg: OptsV,
    n: usize,
)
    requires
        cfg.max_depth == Some(n),
    ensures
        depth_bounded(spec_dir_node(path, fs.read_only, children, ignore, cfg), n as int),
    decreases children,
{
    let t = spec_dir_node(path, fs.read_only, children, ignore, cfg);
    if n == 0 {
        assert(depth_bounded(t, 0));
    } else {
        let m = (n - 1) as usize;
        let ccfg = spec_child_cfg(cfg, path, ignore, Some(m));
        lemma_depth_kids(path, children@, ccfg, m);
        let built = spec_build_kids(path, children@, ccfg);
        assert(t.children == built);
        assert forall|i: int| 0 <= i < t.children.len() implies depth_bounded(
            #[trigger] t.children[i],
            n - 1,
        ) by {
            assert(t.children[i] == built[i]);
            assert(depth_bounded(built[i], m as int));
        }
        assert(depth_bounded(t, n as int));
    }
}

/// Ignore cascade monotonicity, accumulation: every pattern a directory
/// inherits, exclude or reinclude, stays in the lists it passes to its
/// children; rules are never reset.
pub proof fn lemma_cascade_accumulates(
    cfg: OptsV,
    dir_path: Seq<char>,
    ignore: Option<Vec<String>>,
    depth: Option<usize>,
)
    ensures
        forall|p: Seq<char>|
            #[trigger] cfg.vcs_blacklist_patterns.contains(p) ==> spec_child_cfg(
                cfg,
                dir_path,
                ignore,
                depth,
            ).vcs_blacklist_patterns.contains(p),
        forall|p: Seq<char>|
            #[trigger] cfg.vcs_whitelist_patterns.contains(p) ==> spec_child_cfg(
                cfg,
                dir_path,
                ignore,
                depth,
            ).vcs_whitelist_patterns.contains(p),
{
    let c = spec_child_cfg(cfg, dir_path, ignore, depth);
    let own = spec_ignore_rules(dir_path, ignore, cfg.use_gitignores);
    assert forall|p: Seq<char>| #[trigger] cfg.vcs_blacklist_patterns.contains(p) implies
        c.vcs_blacklist_patterns.contains(p) by {
        let i = choose|i: int|
            0 <= i < cfg.vcs_blacklist_patterns.len() && cfg.vcs_blacklist_patterns[i] == p;
        assert(c.vcs_blacklist_patterns[own.0.len() + i] == p);
    }
    assert forall|p: Seq<char>| #[trigger] cfg.vcs_whitelist_patterns.contains(p) implies
        c.vcs_whitelist_patterns.contains(p) by {
        let i = choose|i: int|
            0 <= i < cfg.vcs_whitelist_patterns.len() && cfg.vcs_whitelist_patterns[i] == p;
        assert(c.vcs_whitelist_patterns[own.1.len() + i] == p);
    }
}

/// Ignore cascade monotonicity, exclusion: a path a directory excludes
/// stays excluded under the rules passed to its children, unless some
/// reinclude pattern of that cascaded set matches it.
pub proof fn lemma_cascade_excluded(
    cfg: OptsV,
    dir_path: Seq<char>,
    ignore: Option<Vec<String>>,
    depth: Option<usize>,
    x: Seq<char>,
)
    requires
        spec_excluded(x, cfg),
    ensures
        ({
            let c = spec_child_cfg(cfg, dir_path, ignore, depth);
            spec_excluded(x, c) || seq_any_match(
                c.vcs_whitelist_patterns,
                x,
                c.case_insensitive_match,
            )
        }),
{
    let c = spec_child_cfg(cfg, dir_path, ignore, depth);
    let own = spec_ignore_rules(dir_path, ignore, cfg.use_gitignores);
    let ci = cfg.case_insensitive_match;
    if !seq_any_match(c.vcs_whitelist_patterns, x, ci) {
        if seq_any_match(cfg.vcs_blacklist_patterns, x, ci) {
            let i = choose|i: int|
                0 <= i < cfg.vcs_blacklist_patterns.len() && crate::pattern::glob_match(
                    cfg.vcs_blacklist_patterns[i],
                    x,
                    ci,
                );
            assert(c.vcs_blacklist_patterns[own.0.len() + i] == cfg.vcs_blacklist_patterns[i]);
            assert(seq_any_match(c.vcs_blacklist_patterns, x, ci));
        }
        assert(spec_excluded(x, c));
    }
}

proof fn lemma_kinds_kids(parent: Seq<char>, kids: Seq<FsNode>, cfg: OptsV)
    ensures
        forall|j: int|
            0 <= j < spec_build_kids(parent, kids, cfg).len() ==> kinds_ok(
                #[trigger] spec_build_kids(parent, kids, cfg)[j],
            ),
    decreases kids,
{
    if kids.len() > 0 {
        let k0 = kids[0];
        let rest = kids.drop_first();
        lemma_kinds_kids(parent, rest, cfg);
        let r = spec_build_kids(parent, kids, cfg);
        let rest_r = spec_build_kids(parent, rest, cfg);
        if cfg.dirs_only && !k0.is_dirlike() {
        } else {
            match spec_build(rooted(parent, k0.name@), k0, cfg, false) {
                Some(n) => {
                    lemma_kinds_node(rooted(parent, k0.name@), k0, cfg, false);
                    assert forall|j: int| 0 <= j < r.len() implies kinds_ok(
                        #[trigger] r[j],
                    ) by {
                        if j == 0 {
                            assert(r[0] == n);
                        } else {
                            assert(r[j] == rest_r[j - 1]);
                        }
                    }
                },
                None => {},
            }
        }
    }
}

/// The built tree keeps the structural invariant: only directory nodes
/// have children, and a symbolic-link node never has any.
pub proof fn lemma_kinds_node(path: Seq<char>, fs: FsNode, cfg: OptsV, is_root: bool)
    ensures
        spec_build(path, fs, cfg, is_root) matches Some(t) ==> kinds_ok(t),
    decreases fs,
{
    match spec_build(path, fs, cfg, is_root) {
        None => {},
        Some(t) => {
            match fs.entry {
                FsEntry::File { .. } => {
                    assert(kinds_ok(t));
                },
                FsEntry::Dir { children, ignore } => {
                    lemma_kinds_expand(path, fs, children, ignore, cfg);
                },
                FsEntry::DirLink { target, stays_on_fs, children, ignore } => {
                    if spec_follow(stays_on_fs, cfg) {
                        lemma_kinds_expand(path, fs, children, ignore, cfg);
                    } else {
                        assert(kinds_ok(t));
                    }
                },
            }
        },
    }
}

proof fn lemma_kinds_expand(
    path: Seq<char>,
    fs: FsNode,
    children: Vec<FsNode>,
    ignore: Option<Vec<String>>,
    cfg: OptsV,
)
    ensures
        kinds_ok(spec_dir_node(path, fs.read_only, children, ignore, cfg)),
    decreases children,
{
    let t = spec_dir_node(path, fs.read_only, children, ignore, cfg);
    if cfg.max_depth == Some(0usize) {
        assert(kinds_ok(t));
    } else {
        let depth = match cfg.max_depth {
            Some(n) => Some((n - 1) as usize),
            None => None,
        };
        let ccfg = spec_child_cfg(cfg, path, ignore, depth);
        lemma_kinds_kids(path, children@, ccfg);
        let built = spec_build_kids(path, children@, ccfg);
        assert(t.children == built);
        assert forall|i: int| 0 <= i < t.children.len() implies kinds_ok(
            #[trigger] t.children[i],
        ) by {
            assert(t.children[i] == built[i]);
        }
        assert(kinds_ok(t));
    }
}

/// The most permissive options: hidden entries shown, no filters of any
/// kind, no ignore files, no depth limit.
pub open spec fn permissive(cfg: OptsV) -> bool {
    cfg.show_hidden && !cfg.dirs_only && !cfg.use_gitignores && cfg.max_depth is None
        && cfg.negative_patterns.len() == 0 && cfg.vcs_blacklist_patterns.len() == 0
        && cfg.positive_patterns.len() == 0
}

proof fn lemma_permissive_kids(parent: Seq<char>, kids: Seq<FsNode>, cfg: OptsV)
    requires
        permissive(cfg),
    ensures
        spec_build_kids(parent, kids, cfg).len() == kids.len(),
    decreases kids,
{
    if kids.len() > 0 {
        lemma_permissive_kids(parent, kids.drop_first(), cfg);
        lemma_permissive_node(rooted(parent, kids[0].name@), kids[0], cfg, false);
    }
}

/// Presence under permissive options: with hidden entries shown and no
/// filters, no entry is excluded — every snapshot entry yields a node,
/// and an expanded directory keeps exactly one child node per snapshot
/// child.
pub proof fn lemma_permissive_node(path: Seq<char>, fs: FsNode, cfg: OptsV, is_root: bool)
    requires
        permissive(cfg),
    ensures
        spec_build(path, fs, cfg, is_root) is Some,
        fs.entry matches FsEntry::Dir { children, .. } ==> spec_build(
            path,
            fs,
            cfg,
            is_root,
        )->Some_0.children.len() == children@.len(),
        fs.entry matches FsEntry::DirLink { stays_on_fs, children, .. } ==> spec_follow(
            stays_on_fs,
            cfg,
        ) ==> spec_build(path, fs, cfg, is_root)->Some_0.children.len() == children@.len(),
    decreases fs,
{
    assert(!spec_excluded(path, cfg));
    match fs.entry {
        FsEntry::File { .. } => {},
        FsEntry::Dir { children, ignore } => {
            let ccfg = spec_child_cfg(cfg, path, ignore, None);
            assert(ccfg.vcs_blacklist_patterns.len() == 0);
            assert(permissive(ccfg));
            lemma_permissive_kids(path, children@, ccfg);
        },
        FsEntry::DirLink { target, stays_on_fs, children, ignore } => {
            if spec_follow(stays_on_fs, cfg) {
                let ccfg = spec_child_cfg(cfg, path, ignore, None);
                assert(ccfg.vcs_blacklist_patterns.len() == 0);
                assert(permissive(ccfg));
                lemma_permissive_kids(path, children@, ccfg);
            }
        },
    }
}

} // verus!
