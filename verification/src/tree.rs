//! The materialized tree of surviving filesystem entries.

use vstd::prelude::*;
use crate::opts::FormatOpts;

verus! {

/// The classification of one entry, resolved once at construction and
/// never recomputed.
pub enum FType {
    /// A directory (possibly reached through a followed symbolic link).
    Dir,
    /// A file whose execute permission bit is set.
    Exe,
    /// Any other file.
    File,
    /// A non-followed symbolic link, carrying its raw target text.
    Link(String),
}

/// The mathematical model of an [`FType`].
pub ghost enum KindV {
    Directory,
    Executable,
    RegularFile,
    SymbolicLink(Seq<char>),
}

/// The mathematical model of a [`Dir`]: the four attributes that make up
/// a node's identity. Transient render state (format options, the
/// ancestor sibling bits) is not part of it.
#[verifier::ext_equal]
pub ghost struct NodeV {
    pub path: Seq<char>,
    pub kind: KindV,
    pub read_only: bool,
    pub children: Seq<NodeV>,
}

/// One node of the materialized tree.
pub struct Dir {
    pub(crate) path: String,
    pub(crate) contents: Vec<Dir>,
    pub(crate) ftype: FType,
    pub(crate) read_only: bool,
    pub(crate) nest: Vec<bool>,
    pub(crate) format: FormatOpts,
}

/// The model of an [`FType`].
pub open spec fn ftype_view(t: FType) -> KindV {
    match t {
        FType::Dir => KindV::Directory,
        FType::Exe => KindV::Executable,
        FType::File => KindV::RegularFile,
        FType::Link(target) => KindV::SymbolicLink(target@),
    }
}

/// The model of a tree node.
pub closed spec fn dir_view(d: Dir) -> NodeV
    decreases d,
{
    NodeV {
        path: d.path@,
        kind: ftype_view(d.ftype),
        read_only: d.read_only,
        children: Seq::new(
            d.contents@.len(),
            |i: int|
                if 0 <= i < d.contents@.len() {
                    dir_view(d.contents@[i])
                } else {
                    arbitrary()
                },
        ),
    }
}

impl View for Dir {
    type V = NodeV;

    open spec fn view(&self) -> NodeV {
        dir_view(*self)
    }
}

/// The models of a sequence of nodes.
pub open spec fn views_of(s: Seq<Dir>) -> Seq<NodeV> {
    s.map_values(|d: Dir| dir_view(d))
}

/// The suffix of a path after its last separator (the whole path when
/// it has none; empty when it ends in a separator).
pub open spec fn after_last_slash(p: Seq<char>) -> Seq<char>
    decreases p.len(),
{
    if p.len() == 0 {
        p
    } else if p.last() == '/' {
        Seq::<char>::empty()
    } else {
        after_last_slash(p.drop_last()) + seq![p.last()]
    }
}

/// The tree's structural invariant: only a directory node may have
/// children; in particular a symbolic-link node never has any.
pub open spec fn kinds_ok(t: NodeV) -> bool
    decreases t,
{
    (!(t.kind is Directory) ==> t.children.len() == 0) && forall|i: int|
        0 <= i < t.children.len() ==> kinds_ok(#[trigger] t.children[i])
}

/// How a node's model is laid over its fields.
pub(crate) broadcast proof fn lemma_dir_view(d: Dir)
    ensures
        #[trigger] dir_view(d) == (NodeV {
            path: d.path@,
            kind: ftype_view(d.ftype),
            read_only: d.read_only,
            children: views_of(d.contents@),
        }),
{
    assert(dir_view(d).children =~= views_of(d.contents@));
    assert(dir_view(d) =~= (NodeV {
        path: d.path@,
        kind: ftype_view(d.ftype),
        read_only: d.read_only,
        children: views_of(d.contents@),
    }));
}

/// The render format a node carries.
pub(crate) broadcast proof fn lemma_dir_format(d: Dir)
    ensures
        #[trigger] d.format_spec() == d.format,
{
}

/// The ancestor sibling bits a node carries.
pub(crate) broadcast proof fn lemma_dir_nest(d: Dir)
    ensures
        #[trigger] d.nest_spec() == d.nest@,
{
}

/// A terminal node: no children, no render state yet.
pub(crate) fn leaf_node(path: String, ftype: FType, read_only: bool) -> (r: Dir)
    ensures
        r@ == (NodeV {
            path: path@,
            kind: ftype_view(ftype),
            read_only,
            children: Seq::<NodeV>::empty(),
        }),
        r.format_spec() == crate::opts::default_format(),
        r.nest_spec() == Seq::<bool>::empty(),
{
    let r = Dir {
        path,
        contents: Vec::new(),
        ftype,
        read_only,
        nest: Vec::new(),
        format: FormatOpts::default(),
    };
    proof {
        assert(r@.children =~= Seq::<NodeV>::empty());
    }
    r
}

/// An expanded directory node over its built children.
pub(crate) fn dir_node(path: String, read_only: bool, kids: Vec<Dir>) -> (r: Dir)
    ensures
        r@ == (NodeV {
            path: path@,
            kind: KindV::Directory,
            read_only,
            children: views_of(kids@),
        }),
        r.format_spec() == crate::opts::default_format(),
        r.nest_spec() == Seq::<bool>::empty(),
{
    let r = Dir {
        path,
        contents: kids,
        ftype: FType::Dir,
        read_only,
        nest: Vec::new(),
        format: FormatOpts::default(),
    };
    proof {
        assert(r@.children =~= views_of(r.contents@));
    }
    r
}

impl Dir {
    /// The format options the node will render with.
    pub closed spec fn format_spec(self) -> FormatOpts {
        self.format
    }

    /// The ancestor "has more siblings" bits the node will render with.
    pub closed spec fn nest_spec(self) -> Seq<bool> {
        self.nest@
    }

    /// The node's path, as recorded at construction.
    pub fn path(&self) -> (r: &String)
        ensures
            r@ == self@.path,
    {
        &self.path
    }

    /// The node's classification.
    pub fn ftype(&self) -> (r: &FType)
        ensures
            ftype_view(*r) == self@.kind,
    {
        &self.ftype
    }

    /// The snapshot of the node's write permission.
    pub fn read_only(&self) -> (r: bool)
        ensures
            r == self@.read_only,
    {
        self.read_only
    }

    /// The node's expanded children, in order.
    pub fn children(&self) -> (r: &Vec<Dir>)
        ensures
            r@.len() == self@.children.len(),
            forall|i: int| 0 <= i < r@.len() ==> #[trigger] r@[i]@ == self@.children[i],
    {
        &self.contents
    }

    /// The same node, set to render with the given format options; its
    /// identity is unchanged.
    pub fn with_format(self, format: FormatOpts) -> (r: Self)
        ensures
            r@ == self@,
            r.format_spec() == format,
            r.nest_spec() == self.nest_spec(),
    {
        Dir { format, ..self }
    }

    /// The same node, set to render under the given ancestor sibling
    /// bits; its identity is unchanged.
    fn with_nest_level(self, nest: Vec<bool>) -> (r: Self)
        ensures
            r@ == self@,
            r.nest_spec() == nest@,
            r.format_spec() == self.format_spec(),
    {
        Dir { nest, ..self }
    }
}

impl Clone for FType {
    fn clone(&self) -> (r: Self)
        ensures
            ftype_view(r) == ftype_view(*self),
    {
        match self {
            FType::Dir => FType::Dir,
            FType::Exe => FType::Exe,
            FType::File => FType::File,
            FType::Link(target) => FType::Link(target.clone()),
        }
    }
}

/// A deep copy of a node, render state included.
#[verifier::loop_isolation(false)]
fn clone_dir(d: &Dir) -> (r: Dir)
    ensures
        r@ == d@,
        r.format_spec() == d.format_spec(),
        r.nest_spec() == d.nest_spec(),
    decreases *d,
{
    let mut contents: Vec<Dir> = Vec::new();
    let mut i: usize = 0;
    while i < d.contents.len()
        invariant
            0 <= i <= d.contents@.len(),
            views_of(contents@) == views_of(d.contents@.subrange(0, i as int)),
        decreases d.contents@.len() - i,
    {
        let ghost prev = contents@;
        contents.push(clone_dir(&d.contents[i]));
        proof {
            assert(views_of(contents@) =~= views_of(prev).push(dir_view(d.contents@[i as int])));
            assert(views_of(d.contents@.subrange(0, i + 1)) =~= views_of(
                d.contents@.subrange(0, i as int),
            ).push(dir_view(d.contents@[i as int])));
        }
        i = i + 1;
    }
    let mut nest: Vec<bool> = Vec::new();
    let mut j: usize = 0;
    while j < d.nest.len()
        invariant
            0 <= j <= d.nest@.len(),
            nest@ == d.nest@.subrange(0, j as int),
        decreases d.nest@.len() - j,
    {
        nest.push(d.nest[j]);
        proof {
            assert(nest@ =~= d.nest@.subrange(0, j + 1));
        }
        j = j + 1;
    }
    let r = Dir {
        path: d.path.clone(),
        contents,
        ftype: d.ftype.clone(),
        read_only: d.read_only,
        nest,
        format: d.format,
    };
    proof {
        assert(d.contents@.subrange(0, d.contents@.len() as int) =~= d.contents@);
        assert(d.nest@.subrange(0, d.nest@.len() as int) =~= d.nest@);
        assert(r@.children =~= views_of(r.contents@));
        assert(d@.children =~= views_of(d.contents@));
        assert(r@ =~= d@);
    }
    r
}

impl Clone for Dir {
    fn clone(&self) -> (r: Self)
        ensures
            r@ == self@,
            r.format_spec() == self.format_spec(),
            r.nest_spec() == self.nest_spec(),
    {
        clone_dir(self)
    }
}

impl Default for Dir {
    /// A plain-file node with an empty path and no render state.
    fn default() -> (r: Self)
        ensures
            r@ == (NodeV {
                path: Seq::<char>::empty(),
                kind: KindV::RegularFile,
                read_only: false,
                children: Seq::<NodeV>::empty(),
            }),
            r.format_spec() == crate::opts::default_format(),
            r.nest_spec() == Seq::<bool>::empty(),
    {
        let r = Dir {
            path: String::new(),
            ftype: FType::File,
            read_only: false,
            contents: Vec::new(),
            nest: Vec::new(),
            format: FormatOpts::default(),
        };
        proof {
            assert(r@.children =~= Seq::<NodeV>::empty());
        }
        r
    }
}

} // verus!
