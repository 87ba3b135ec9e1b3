//! Declaration collection: the pass that fills the symbol table and the
//! namespace table, tracking the active scope as it goes.
use crate::namespace::Namespace;
use crate::namespace_table::{recorded_insert, NamespaceTable};
use crate::resource_table::{PathId, StrId, TokenId};
use crate::symbol::{
    InstanceProperty, ModuleProperty, Port, PortProperty, Symbol, SymbolKind, SymbolKindView, SymbolView,
};
use crate::symbol_table::{Name, SymbolTable};
use crate::syntax_tree::{token_events, tokens_of, Event, NodeKind, SyntaxTree};
use crate::token::Token;
use crate::veryl_walker::{replay, Handler, HandlerPoint};
use vstd::prelude::*;

verus! {

/// The ports that the module at `id` declares, taken from its children from
/// the `k`-th on.
pub open spec fn module_ports(tree: SyntaxTree, id: int, k: int) -> Seq<Port>
    decreases tree.children(id).len() - k,
{
    if 0 <= k < tree.children(id).len() {
        let rest = module_ports(tree, id, k + 1);
        match tree.kind(tree.children(id)[k] as int) {
            NodeKind::PortDeclaration(t, d) => seq![Port { name: t.text, direction: d }] + rest,
            _ => rest,
        }
    } else {
        Seq::empty()
    }
}

/// What the node at `id` declares: its name token and the kind of symbol.
pub open spec fn declaration(tree: SyntaxTree, id: int) -> Option<(Token, SymbolKindView)> {
    match tree.kind(id) {
        NodeKind::Package(t) => Some((t, SymbolKindView::Package)),
        NodeKind::Module(t) => Some((t, SymbolKindView::Module(module_ports(tree, id, 0)))),
        NodeKind::Interface(t) => Some((t, SymbolKindView::Interface)),
        NodeKind::Function(t) => Some((t, SymbolKindView::Function)),
        NodeKind::NamedBlock(t) => Some((t, SymbolKindView::Block)),
        NodeKind::PortDeclaration(t, d) => Some((t, SymbolKindView::Port(PortProperty { direction: d }))),
        NodeKind::Parameter(t) => Some((t, SymbolKindView::Parameter)),
        NodeKind::Variable(t) => Some((t, SymbolKindView::Variable)),
        NodeKind::InstDeclaration(n, m) => Some(
            (n, SymbolKindView::Instance(InstanceProperty { module_name: m.text })),
        ),
        _ => None,
    }
}

/// Whether a node of kind `kind` opens a scope named by its token.
pub open spec fn opens_scope(kind: NodeKind) -> bool {
    match kind {
        NodeKind::Package(_) => true,
        NodeKind::Module(_) => true,
        NodeKind::Interface(_) => true,
        NodeKind::Function(_) => true,
        NodeKind::NamedBlock(_) => true,
        _ => false,
    }
}

/// The scope path `ns` after leaving its innermost scope.
pub open spec fn leave_scope(ns: Seq<StrId>) -> Seq<StrId> {
    if ns.len() > 0 {
        ns.drop_last()
    } else {
        ns
    }
}

/// The model of declaration collection.
pub struct CreateSymbolTableView {
    pub symbols: Seq<(Seq<StrId>, SymbolView)>,
    pub scopes: Seq<(TokenId, PathId, Seq<StrId>)>,
    pub namespace: Seq<StrId>,
    pub point: HandlerPoint,
}

/// The analysis pass that records each declaration as a symbol in the scope
/// active at it, and the active scope of each identifier token.
pub struct CreateSymbolTable {
    symbol_table: SymbolTable,
    namespace_table: NamespaceTable,
    namespace: Namespace,
    point: HandlerPoint,
}

impl View for CreateSymbolTable {
    type V = CreateSymbolTableView;

    closed spec fn view(&self) -> CreateSymbolTableView {
        CreateSymbolTableView {
            symbols: self.symbol_table.entries(),
            scopes: self.namespace_table.entries(),
            namespace: self.namespace@,
            point: self.point,
        }
    }
}

/// The ports that the module at `id` declares.
fn collect_ports(tree: &SyntaxTree, id: usize) -> (r: Vec<Port>)
    requires
        tree.wf(),
        id < tree.len(),
    ensures
        r@ == module_ports(*tree, id as int, 0),
{
    let mut r: Vec<Port> = Vec::new();
    let mut k: usize = 0;
    while k < tree.nodes[id].children.len()
        invariant
            tree.wf(),
            id < tree.len(),
            k <= tree.children(id as int).len(),
            r@ + module_ports(*tree, id as int, k as int) == module_ports(*tree, id as int, 0),
        decreases tree.children(id as int).len() - k,
    {
        let c = tree.nodes[id].children[k];
        assert(c < tree.len());
        let ghost rest = module_ports(*tree, id as int, k + 1);
        match &tree.nodes[c].kind {
            NodeKind::PortDeclaration(t, d) => {
                let p = Port { name: t.text, direction: *d };
                assert(r@.push(p) + rest =~= r@ + (seq![p] + rest));
                r.push(p);
            },
            _ => {},
        }
        k = k + 1;
    }
    assert(r@ + Seq::empty() =~= r@);
    r
}

impl CreateSymbolTable {
    /// A collector that adds to the given tables, starting at the root scope.
    pub fn new(symbol_table: SymbolTable, namespace_table: NamespaceTable) -> (r: Self)
        ensures
            r@ == (CreateSymbolTableView {
                symbols: symbol_table.entries(),
                scopes: namespace_table.entries(),
                namespace: Seq::empty(),
                point: HandlerPoint::Before,
            }),
    {
        CreateSymbolTable { symbol_table, namespace_table, namespace: Namespace::new(), point: HandlerPoint::Before }
    }

    /// The tables as filled so far.
    pub fn into_tables(self) -> (r: (SymbolTable, NamespaceTable))
        ensures
            r.0.entries() == self@.symbols,
            r.1.entries() == self@.scopes,
    {
        (self.symbol_table, self.namespace_table)
    }

    /// Records the symbol declared by `token`, of kind `kind`, in the active scope.
    fn declare(&mut self, token: &Token, kind: SymbolKind)
        ensures
            final(self)@ == (CreateSymbolTableView {
                symbols: old(self)@.symbols.push(
                    (seq![token.text], SymbolView { token: *token, kind: kind@, namespace: old(self)@.namespace }),
                ),
                ..old(self)@
            }),
    {
        let name = Name::Hierarchical(vec![token.text]);
        assert(name@ =~= seq![token.text]);
        let symbol = Symbol { token: *token, kind, namespace: self.namespace.clone() };
        self.symbol_table.insert(name, symbol);
    }
}

impl Handler for CreateSymbolTable {
    open spec fn spec_set_point(v: CreateSymbolTableView, p: HandlerPoint) -> CreateSymbolTableView {
        CreateSymbolTableView { point: p, ..v }
    }

    open spec fn spec_node(v: CreateSymbolTableView, tree: SyntaxTree, id: int) -> CreateSymbolTableView {
        if !(0 <= id < tree.len()) {
            v
        } else if v.point == HandlerPoint::Before {
            match declaration(tree, id) {
                Some((t, kind)) => CreateSymbolTableView {
                    symbols: v.symbols.push(
                        (seq![t.text], SymbolView { token: t, kind, namespace: v.namespace }),
                    ),
                    namespace: if opens_scope(tree.kind(id)) {
                        v.namespace.push(t.text)
                    } else {
                        v.namespace
                    },
                    ..v
                },
                None => v,
            }
        } else if opens_scope(tree.kind(id)) {
            CreateSymbolTableView { namespace: leave_scope(v.namespace), ..v }
        } else {
            v
        }
    }

    open spec fn spec_token(v: CreateSymbolTableView, t: Token) -> CreateSymbolTableView {
        CreateSymbolTableView { scopes: recorded_insert(v.scopes, (t.id, t.file_path, v.namespace)), ..v }
    }

    fn set_point(&mut self, p: HandlerPoint) {
        self.point = p;
    }

    fn node(&mut self, tree: &SyntaxTree, id: usize) {
        match self.point {
            HandlerPoint::Before => match &tree.nodes[id].kind {
                NodeKind::Package(t) => {
                    self.declare(t, SymbolKind::Package);
                    self.namespace.push(t.text);
                },
                NodeKind::Module(t) => {
                    let ports = collect_ports(tree, id);
                    self.declare(t, SymbolKind::Module(ModuleProperty { ports }));
                    self.namespace.push(t.text);
                },
                NodeKind::Interface(t) => {
                    self.declare(t, SymbolKind::Interface);
                    self.namespace.push(t.text);
                },
                NodeKind::Function(t) => {
                    self.declare(t, SymbolKind::Function);
                    self.namespace.push(t.text);
                },
                NodeKind::NamedBlock(t) => {
                    self.declare(t, SymbolKind::Block);
                    self.namespace.push(t.text);
                },
                NodeKind::PortDeclaration(t, d) => {
                    self.declare(t, SymbolKind::Port(PortProperty { direction: *d }));
                },
                NodeKind::Parameter(t) => {
                    self.declare(t, SymbolKind::Parameter);
                },
                NodeKind::Variable(t) => {
                    self.declare(t, SymbolKind::Variable);
                },
                NodeKind::InstDeclaration(n, m) => {
                    self.declare(n, SymbolKind::Instance(InstanceProperty { module_name: m.text }));
                },
                _ => {},
            },
            HandlerPoint::After => match &tree.nodes[id].kind {
                NodeKind::Package(_) | NodeKind::Module(_) | NodeKind::Interface(_) | NodeKind::Function(_)
                | NodeKind::NamedBlock(_) => {
                    self.namespace.pop();
                },
                _ => {},
            },
        }
    }

    fn token(&mut self, t: &Token) {
        self.namespace_table.insert(t.id, t.file_path, self.namespace.clone());
    }
}

/// The scope inside the node `i`, entered from the scope `ns`: a node that
/// opens a scope adds its name to the path.
pub open spec fn inner_scope(tree: SyntaxTree, i: int, ns: Seq<StrId>) -> Seq<StrId> {
    match declaration(tree, i) {
        Some((t, _)) => if opens_scope(tree.kind(i)) {
            ns.push(t.text)
        } else {
            ns
        },
        None => ns,
    }
}

/// What the node `i` itself declares, standing in the scope `ns`.
pub open spec fn own_declaration(tree: SyntaxTree, i: int, ns: Seq<StrId>) -> Seq<(Seq<StrId>, SymbolView)> {
    match declaration(tree, i) {
        Some((t, kind)) => seq![(seq![t.text], SymbolView { token: t, kind, namespace: ns })],
        None => Seq::empty(),
    }
}

/// The symbols that the subtree at `i` declares when it stands in the scope
/// `ns`, in traversal order, each named by its token's text and placed in
/// the scope active at its declaration.
pub open spec fn declarations(tree: SyntaxTree, i: int, ns: Seq<StrId>) -> Seq<(Seq<StrId>, SymbolView)>
    decreases tree.len() - i, tree.children(i).len() + 1,
{
    if 0 <= i < tree.len() {
        own_declaration(tree, i, ns) + child_declarations(tree, i, 0, inner_scope(tree, i, ns))
    } else {
        Seq::empty()
    }
}

/// The declarations of the children of `i` from the `k`-th on, all standing
/// in the scope `ns`.
pub open spec fn child_declarations(tree: SyntaxTree, i: int, k: int, ns: Seq<StrId>) -> Seq<
    (Seq<StrId>, SymbolView),
>
    decreases tree.len() - i, tree.children(i).len() - k,
{
    if 0 <= i < tree.len() && 0 <= k < tree.children(i).len() {
        let c = tree.children(i)[k] as int;
        if i < c < tree.len() {
            declarations(tree, c, ns) + child_declarations(tree, i, k + 1, ns)
        } else {
            child_declarations(tree, i, k + 1, ns)
        }
    } else {
        Seq::empty()
    }
}

/// The tokens `ts`, each with its file and the scope `ns`.
pub open spec fn scoped_tokens(ts: Seq<Token>, ns: Seq<StrId>) -> Seq<(TokenId, PathId, Seq<StrId>)> {
    ts.map_values(|t: Token| (t.id, t.file_path, ns))
}

/// The tokens of the subtree at `i`, standing in the scope `ns`, in
/// traversal order, each with its file and the scope active where it stands.
pub open spec fn token_scopes(tree: SyntaxTree, i: int, ns: Seq<StrId>) -> Seq<(TokenId, PathId, Seq<StrId>)>
    decreases tree.len() - i, tree.children(i).len() + 1,
{
    if 0 <= i < tree.len() {
        scoped_tokens(tokens_of(tree.kind(i)), inner_scope(tree, i, ns)) + child_token_scopes(
            tree,
            i,
            0,
            inner_scope(tree, i, ns),
        )
    } else {
        Seq::empty()
    }
}

/// The scoped tokens of the children of `i` from the `k`-th on, all
/// standing in the scope `ns`.
pub open spec fn child_token_scopes(tree: SyntaxTree, i: int, k: int, ns: Seq<StrId>) -> Seq<
    (TokenId, PathId, Seq<StrId>),
>
    decreases tree.len() - i, tree.children(i).len() - k,
{
    if 0 <= i < tree.len() && 0 <= k < tree.children(i).len() {
        let c = tree.children(i)[k] as int;
        if i < c < tree.len() {
            token_scopes(tree, c, ns) + child_token_scopes(tree, i, k + 1, ns)
        } else {
            child_token_scopes(tree, i, k + 1, ns)
        }
    } else {
        Seq::empty()
    }
}

/// The namespace-table entries `s` after recording each of `es` in turn.
pub open spec fn record_all(
    s: Seq<(TokenId, PathId, Seq<StrId>)>,
    es: Seq<(TokenId, PathId, Seq<StrId>)>,
) -> Seq<(TokenId, PathId, Seq<StrId>)>
    decreases es.len(),
{
    if es.len() == 0 {
        s
    } else {
        recorded_insert(record_all(s, es.drop_last()), es.last())
    }
}

/// Recording `a` and then `b` is recording `a + b`.
proof fn lemma_record_all_append(
    s: Seq<(TokenId, PathId, Seq<StrId>)>,
    a: Seq<(TokenId, PathId, Seq<StrId>)>,
    b: Seq<(TokenId, PathId, Seq<StrId>)>,
)
    ensures
        record_all(s, a + b) == record_all(record_all(s, a), b),
    decreases b.len(),
{
    if b.len() == 0 {
        assert(a + b =~= a);
    } else {
        assert((a + b).drop_last() =~= a + b.drop_last());
        lemma_record_all_append(s, a, b.drop_last());
    }
}

/// Token events record each token in the active scope and change nothing else.
proof fn lemma_collects_tokens(v: CreateSymbolTableView, tree: SyntaxTree, ts: Seq<Token>)
    ensures
        ({
            let w = replay::<CreateSymbolTable>(v, tree, ts.map_values(|t: Token| Event::Token(t)));
            &&& w.namespace == v.namespace
            &&& w.symbols == v.symbols
            &&& w.point == v.point
            &&& w.scopes == record_all(v.scopes, scoped_tokens(ts, v.namespace))
        }),
    decreases ts.len(),
{
    if ts.len() > 0 {
        let rest = ts.drop_last();
        lemma_collects_tokens(v, tree, rest);
        assert(ts.map_values(|t: Token| Event::Token(t)).drop_last() =~= rest.map_values(
            |t: Token| Event::Token(t),
        ));
        assert(scoped_tokens(ts, v.namespace).drop_last() =~= scoped_tokens(rest, v.namespace));
    }
}

/// The traversals of the children of `i` from the `k`-th on add their
/// declarations and scoped tokens, and leave the active scope as it is.
proof fn lemma_collects_children(v: CreateSymbolTableView, tree: SyntaxTree, i: int, k: int)
    requires
        tree.wf(),
        0 <= i < tree.len(),
        0 <= k,
    ensures
        ({
            let w = replay::<CreateSymbolTable>(v, tree, tree.child_events(i, k));
            &&& w.namespace == v.namespace
            &&& w.symbols == v.symbols + child_declarations(tree, i, k, v.namespace)
            &&& w.scopes == record_all(v.scopes, child_token_scopes(tree, i, k, v.namespace))
        }),
    decreases tree.len() - i, tree.children(i).len() - k,
{
    if k < tree.children(i).len() {
        let c = tree.children(i)[k] as int;
        assert(i < c < tree.len());
        lemma_collects_declarations(v, tree, c);
        let w = replay::<CreateSymbolTable>(v, tree, tree.events(c));
        lemma_collects_children(w, tree, i, k + 1);
        crate::veryl_walker::lemma_replay_children::<CreateSymbolTable>(v, tree, i, k);
        lemma_record_all_append(v.scopes, token_scopes(tree, c, v.namespace), child_token_scopes(tree, i, k + 1, v.namespace));
        assert(v.symbols + declarations(tree, c, v.namespace) + child_declarations(tree, i, k + 1, v.namespace)
            =~= v.symbols + child_declarations(tree, i, k, v.namespace));
    } else {
        assert(tree.child_events(i, k) =~= Seq::<Event>::empty());
        assert(v.symbols + Seq::<(Seq<StrId>, SymbolView)>::empty() =~= v.symbols);
    }
}

/// What declaration collection does over any subtree: it appends the
/// subtree's declarations, each placed in the scope active at it, records
/// every token of the subtree in the scope active at it, and enters and
/// leaves scopes in balance, so the active scope after the subtree is the
/// one before it.
pub proof fn lemma_collects_declarations(v: CreateSymbolTableView, tree: SyntaxTree, i: int)
    requires
        tree.wf(),
        0 <= i < tree.len(),
    ensures
        ({
            let w = replay::<CreateSymbolTable>(v, tree, tree.events(i));
            &&& w.namespace == v.namespace
            &&& w.symbols == v.symbols + declarations(tree, i, v.namespace)
            &&& w.scopes == record_all(v.scopes, token_scopes(tree, i, v.namespace))
        }),
    decreases tree.len() - i, tree.children(i).len() + 1,
{
    assert(tree.nodes@.len() == tree.nodes.len());
    assert(i as usize as int == i);
    crate::veryl_walker::lemma_replay_subtree::<CreateSymbolTable>(v, tree, i);
    let ns = v.namespace;
    let inner = inner_scope(tree, i, ns);
    let v1 = crate::veryl_walker::observe::<CreateSymbolTable>(v, tree, Event::Before(i as usize));
    assert(v1.namespace == inner);
    assert(v1.symbols == v.symbols + own_declaration(tree, i, ns)) by {
        assert(v.symbols + Seq::<(Seq<StrId>, SymbolView)>::empty() =~= v.symbols);
    }
    let toks = tokens_of(tree.kind(i));
    assert(token_events(tree.kind(i)) == toks.map_values(|t: Token| Event::Token(t)));
    lemma_collects_tokens(v1, tree, toks);
    let v2 = replay::<CreateSymbolTable>(v1, tree, token_events(tree.kind(i)));
    lemma_collects_children(v2, tree, i, 0);
    let v3 = replay::<CreateSymbolTable>(v2, tree, tree.child_events(i, 0));
    lemma_record_all_append(v.scopes, scoped_tokens(toks, inner), child_token_scopes(tree, i, 0, inner));
    assert(v.symbols + own_declaration(tree, i, ns) + child_declarations(tree, i, 0, inner)
        =~= v.symbols + declarations(tree, i, ns));
    if opens_scope(tree.kind(i)) {
        assert(inner.drop_last() =~= ns);
    }
}

} // verus!
