//! Syntax trees held as an arena of nodes, and the order in which a
//! traversal visits them.
use crate::symbol::Direction;
use crate::token::Token;
use vstd::prelude::*;

verus! {

/// The kind of a node, with the identifier tokens it carries.
#[derive(Clone, Copy, Debug, PartialEq, Eq, Structural)]
pub enum NodeKind {
    /// The root of one source file.
    Veryl,
    /// `package name { .. }`
    Package(Token),
    /// `module name { .. }`; its port declarations are among its children.
    Module(Token),
    /// `interface name { .. }`
    Interface(Token),
    /// `function name { .. }`
    Function(Token),
    /// `: name { .. }`, a named block.
    NamedBlock(Token),
    /// A port of the enclosing module.
    PortDeclaration(Token, Direction),
    /// A parameter or local parameter declaration.
    Parameter(Token),
    /// A variable declaration.
    Variable(Token),
    /// `inst name: module_name ( .. );` carrying the instance name and then
    /// the instantiated name; its connected ports are among its children.
    InstDeclaration(Token, Token),
    /// One port connection of an instantiation.
    InstPortItem(Token),
    /// Any other identifier occurrence.
    Identifier(Token),
    /// A node that carries no identifier.
    Other,
}

/// One node: its kind and the arena indices of its children, in order.
pub struct Node {
    pub kind: NodeKind,
    pub children: Vec<usize>,
}

/// A tree held as an arena; node 0 is the root.
pub struct SyntaxTree {
    pub nodes: Vec<Node>,
}

/// One step of a traversal.
#[derive(Clone, Copy, Debug, PartialEq, Eq, Structural)]
pub enum Event {
    /// Entering the node with this index.
    Before(usize),
    /// Visiting one identifier token of the node being entered.
    Token(Token),
    /// Leaving the node with this index.
    After(usize),
}

/// The tokens of a node of kind `kind`, in the order a traversal visits them.
pub open spec fn tokens_of(kind: NodeKind) -> Seq<Token> {
    match kind {
        NodeKind::Veryl => Seq::empty(),
        NodeKind::Other => Seq::empty(),
        NodeKind::Package(t) => seq![t],
        NodeKind::Module(t) => seq![t],
        NodeKind::Interface(t) => seq![t],
        NodeKind::Function(t) => seq![t],
        NodeKind::NamedBlock(t) => seq![t],
        NodeKind::PortDeclaration(t, _) => seq![t],
        NodeKind::Parameter(t) => seq![t],
        NodeKind::Variable(t) => seq![t],
        NodeKind::InstDeclaration(n, m) => seq![n, m],
        NodeKind::InstPortItem(t) => seq![t],
        NodeKind::Identifier(t) => seq![t],
    }
}

/// The token events of a node of kind `kind`.
pub open spec fn token_events(kind: NodeKind) -> Seq<Event> {
    tokens_of(kind).map_values(|t: Token| Event::Token(t))
}

impl SyntaxTree {
    pub open spec fn len(&self) -> int {
        self.nodes@.len() as int
    }

    pub open spec fn kind(&self, i: int) -> NodeKind {
        self.nodes@[i].kind
    }

    pub open spec fn children(&self, i: int) -> Seq<usize> {
        self.nodes@[i].children@
    }

    /// Every child stands after its parent in the arena, so the nodes form
    /// a forest with no cycle.
    pub open spec fn wf(&self) -> bool {
        forall|i: int, k: int|
            0 <= i < self.len() && 0 <= k < self.children(i).len() ==> i < #[trigger] self.children(
                i,
            )[k] < self.len()
    }

    /// Whether `c` is a child of `p`.
    pub open spec fn is_child(&self, p: int, c: int) -> bool {
        0 <= p < self.len() && exists|k: int|
            0 <= k < self.children(p).len() && self.children(p)[k] == c
    }

    /// Whether `path` descends from parent to child at each step.
    pub open spec fn is_chain(&self, path: Seq<int>) -> bool {
        &&& path.len() >= 2
        &&& forall|i: int| 0 <= i < path.len() - 1 ==> #[trigger] self.is_child(path[i], path[i + 1])
    }

    /// The events of a traversal of the subtree at `i`: entering `i`, its
    /// tokens, the traversals of its children in order, leaving `i`.
    pub open spec fn events(&self, i: int) -> Seq<Event>
        decreases self.len() - i, self.children(i).len() + 1,
    {
        if 0 <= i < self.len() {
            seq![Event::Before(i as usize)] + token_events(self.kind(i)) + self.child_events(i, 0)
                + seq![Event::After(i as usize)]
        } else {
            Seq::empty()
        }
    }

    /// The traversals of the children of `i` from the `k`-th on.
    pub open spec fn child_events(&self, i: int, k: int) -> Seq<Event>
        decreases self.len() - i, self.children(i).len() - k,
    {
        if 0 <= i < self.len() && 0 <= k < self.children(i).len() {
            let c = self.children(i)[k] as int;
            if i < c < self.len() {
                self.events(c) + self.child_events(i, k + 1)
            } else {
                self.child_events(i, k + 1)
            }
        } else {
            Seq::empty()
        }
    }

    /// The events of a traversal of the whole tree.
    pub open spec fn traversal(&self) -> Seq<Event> {
        self.events(0)
    }
}

/// Whether `inner` stands as one contiguous block strictly inside `outer`,
/// with at least one event of `outer` before it and one after it.
pub open spec fn nested_in(inner: Seq<Event>, outer: Seq<Event>) -> bool {
    exists|off: int|
        0 < off && off + inner.len() < outer.len() && #[trigger] outer.subrange(off, off + inner.len())
            == inner
}

/// A traversal of a subtree enters its root first and leaves it last.
pub proof fn lemma_events_shape(tree: &SyntaxTree, i: int)
    requires
        0 <= i < tree.len(),
    ensures
        tree.events(i).len() >= 2,
        tree.events(i)[0] == Event::Before(i as usize),
        tree.events(i).last() == Event::After(i as usize),
{
}

/// The traversal of the `k`-th child of `i` is a block of the traversals of
/// the children of `i` from the `j`-th on.
proof fn lemma_child_events_hold(tree: &SyntaxTree, i: int, j: int, k: int)
    requires
        tree.wf(),
        0 <= i < tree.len(),
        0 <= j <= k < tree.children(i).len(),
    ensures
        exists|off: int|
            0 <= off && off + tree.events(tree.children(i)[k] as int).len() <= tree.child_events(i, j).len()
                && #[trigger] tree.child_events(i, j).subrange(
                off,
                off + tree.events(tree.children(i)[k] as int).len(),
            ) == tree.events(tree.children(i)[k] as int),
    decreases k - j,
{
    let c = tree.children(i)[j] as int;
    assert(i < c < tree.len());
    let ce = tree.child_events(i, j);
    let ek = tree.events(tree.children(i)[k] as int);
    assert(ce == tree.events(c) + tree.child_events(i, j + 1));
    if j == k {
        let zero: int = 0;
        assert(ce.subrange(zero, zero + ek.len()) =~= ek);
    } else {
        lemma_child_events_hold(tree, i, j + 1, k);
        let rest = tree.child_events(i, j + 1);
        let off = choose|off: int|
            0 <= off && off + ek.len() <= rest.len() && #[trigger] rest.subrange(off, off + ek.len()) == ek;
        let n = tree.events(c).len() as int;
        assert(ce.subrange(n + off, n + off + ek.len()) =~= rest.subrange(off, off + ek.len()));
    }
}

/// The traversal of a child stands strictly inside that of its parent.
proof fn lemma_child_nested(tree: &SyntaxTree, p: int, c: int)
    requires
        tree.wf(),
        tree.is_child(p, c),
    ensures
        nested_in(tree.events(c), tree.events(p)),
{
    let k = choose|k: int| 0 <= k < tree.children(p).len() && tree.children(p)[k] == c;
    lemma_child_events_hold(tree, p, 0, k);
    let ce = tree.child_events(p, 0);
    let ec = tree.events(c);
    let off = choose|off: int|
        0 <= off && off + ec.len() <= ce.len() && #[trigger] ce.subrange(off, off + ec.len()) == ec;
    let head = seq![Event::Before(p as usize)] + token_events(tree.kind(p));
    let ep = tree.events(p);
    assert(ep == head + ce + seq![Event::After(p as usize)]);
    let o = head.len() + off;
    assert(ep.subrange(o, o + ec.len()) =~= ce.subrange(off, off + ec.len()));
}

/// Nesting is transitive.
proof fn lemma_nested_trans(a: Seq<Event>, b: Seq<Event>, c: Seq<Event>)
    requires
        nested_in(a, b),
        nested_in(b, c),
    ensures
        nested_in(a, c),
{
    let o1 = choose|off: int| 0 < off && off + a.len() < b.len() && #[trigger] b.subrange(off, off + a.len()) == a;
    let o2 = choose|off: int| 0 < off && off + b.len() < c.len() && #[trigger] c.subrange(off, off + b.len()) == b;
    assert(c.subrange(o2 + o1, o2 + o1 + a.len()) =~= b.subrange(o1, o1 + a.len()));
}

/// Traversal order nests at every depth: for a node `a` and a descendant `d`
/// of it, reached through the chain of children `path`, the traversal of the
/// subtree at `a` enters `a`, later enters `d`, later leaves `d`, and later
/// leaves `a`; everything from entering `d` to leaving it is the traversal of
/// the subtree at `d`.
pub proof fn lemma_traversal_nesting(tree: &SyntaxTree, path: Seq<int>)
    requires
        tree.wf(),
        tree.is_chain(path),
    ensures
        nested_in(tree.events(path.last()), tree.events(path[0])),
        exists|before_d: int, after_d: int|
            0 < before_d < after_d < tree.events(path[0]).len() - 1
                && tree.events(path[0])[0] == Event::Before(path[0] as usize)
                && #[trigger] tree.events(path[0])[before_d] == Event::Before(path.last() as usize)
                && #[trigger] tree.events(path[0])[after_d] == Event::After(path.last() as usize)
                && tree.events(path[0]).last() == Event::After(path[0] as usize),
    decreases path.len(),
{
    let z: int = 0;
    assert(tree.is_child(path[z], path[z + 1]));
    if path.len() == 2 {
        lemma_child_nested(tree, path[0], path[1]);
    } else {
        let rest = path.drop_first();
        assert forall|i: int| 0 <= i < rest.len() - 1 implies #[trigger] tree.is_child(rest[i], rest[i + 1]) by {
            assert(tree.is_child(path[i + 1], path[(i + 1) + 1]));
        }
        lemma_traversal_nesting(tree, rest);
        lemma_child_nested(tree, path[0], path[1]);
        lemma_nested_trans(tree.events(path.last()), tree.events(path[1]), tree.events(path[0]));
    }
    let ea = tree.events(path[0]);
    let ed = tree.events(path.last());
    let d = path.last();
    let a = path[0];
    assert(0 <= d < tree.len()) by {
        assert(tree.is_child(path[path.len() - 2], path[path.len() - 1]));
        let k = choose|k: int|
            0 <= k < tree.children(path[path.len() - 2]).len()
                && #[trigger] tree.children(path[path.len() - 2])[k] == path[path.len() - 1];
    }
    lemma_events_shape(tree, a);
    lemma_events_shape(tree, d);
    let off = choose|off: int| 0 < off && off + ed.len() < ea.len() && #[trigger] ea.subrange(off, off + ed.len()) == ed;
    assert(ea[off] == ea.subrange(off, off + ed.len())[0]);
    assert(ea[off + ed.len() - 1] == ea.subrange(off, off + ed.len())[ed.len() - 1]);
}

} // verus!
