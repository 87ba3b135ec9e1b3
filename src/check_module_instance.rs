//! The instance check: every instantiation of a module must connect
//! exactly the ports that the module declares.
use crate::analyze_error::{error_at, AnalyzeError, AnalyzeErrorKindView, AnalyzeErrorView};
use crate::namespace_table::{recorded_scope, records, NamespaceTable};
use crate::resource_table::{PathId, StrId, TokenId};
use crate::symbol::{kind_name, Port, SymbolKind, SymbolKindView, SymbolView};
use crate::symbol_table::{resolved, Name, SymbolTable};
use crate::syntax_tree::{token_events, Event, NodeKind, SyntaxTree};
use crate::token::Token;
use crate::veryl_walker::{replay, Handler, HandlerPoint};
use vstd::prelude::*;

verus! {

/// The names of `ports`, in order.
pub open spec fn port_names(ports: Seq<Port>) -> Seq<StrId> {
    ports.map_values(|p: Port| p.name)
}

/// The names of `s` that `other` does not hold, each once, in the order of
/// their first occurrence in `s`: `s` is read as a set of names.
pub open spec fn unmatched(s: Seq<StrId>, other: Seq<StrId>) -> Seq<StrId>
    decreases s.len(),
{
    if s.len() == 0 {
        Seq::empty()
    } else {
        let r = unmatched(s.drop_last(), other);
        if !s.drop_last().contains(s.last()) && !other.contains(s.last()) {
            r.push(s.last())
        } else {
            r
        }
    }
}

/// The diagnostics for an instantiation named by `inst` of the entity named
/// by `module`, connecting the ports `connected`, given the declared symbols
/// and the recorded scopes: nothing when the instance's scope is unknown or
/// the name does not resolve; a type mismatch when it resolves to anything
/// but a module; otherwise one missing-port diagnostic per declared port not
/// connected, then one unknown-port diagnostic per connected port not
/// declared; both port lists are read as sets of names, so each name is
/// reported at most once, in the order of its first occurrence.
pub open spec fn instance_errors(
    symbols: Seq<(Seq<StrId>, SymbolView)>,
    scopes: Seq<(TokenId, PathId, Seq<StrId>)>,
    inst: Token,
    module: Token,
    connected: Seq<StrId>,
    text: Seq<char>,
) -> Seq<AnalyzeErrorView> {
    if !records(scopes, inst.id) {
        Seq::empty()
    } else {
        match resolved(symbols, seq![module.text], recorded_scope(scopes, inst.id)) {
            None => Seq::empty(),
            Some(sym) => match sym.kind {
                SymbolKindView::Module(ports) => unmatched(port_names(ports), connected).map_values(
                    |p: StrId| error_at(AnalyzeErrorKindView::MissingPort { name: inst.text, port: p }, text, module),
                ) + unmatched(connected, port_names(ports)).map_values(
                    |p: StrId| error_at(AnalyzeErrorKindView::UnknownPort { name: inst.text, port: p }, text, module),
                ),
                _ => seq![
                    error_at(
                        AnalyzeErrorKindView::MismatchType {
                            name: module.text,
                            expected: "module"@,
                            actual: kind_name(sym.kind),
                        },
                        text,
                        module,
                    ),
                ],
            },
        }
    }
}

/// Whether the first `n` names of `v` hold `x`, by a scan.
fn contains_id(v: &Vec<StrId>, n: usize, x: StrId) -> (r: bool)
    requires
        n <= v@.len(),
    ensures
        r == v@.subrange(0, n as int).contains(x),
{
    let mut i: usize = 0;
    while i < n
        invariant
            i <= n <= v@.len(),
            forall|k: int| 0 <= k < i ==> v@[k] != x,
        decreases v@.len() - i,
    {
        if v[i] == x {
            assert(v@.subrange(0, n as int)[i as int] == x);
            return true;
        }
        i = i + 1;
    }
    assert forall|k: int| 0 <= k < n implies v@.subrange(0, n as int)[k] != x by {
        assert(v@.subrange(0, n as int)[k] == v@[k]);
    }
    false
}

/// Whether one of the first `n` ports of `ports` is named `x`, by a scan.
fn has_port(ports: &Vec<Port>, n: usize, x: StrId) -> (r: bool)
    requires
        n <= ports@.len(),
    ensures
        r == port_names(ports@).subrange(0, n as int).contains(x),
{
    let mut i: usize = 0;
    while i < n
        invariant
            i <= n <= ports@.len(),
            forall|k: int| 0 <= k < i ==> ports@[k].name != x,
        decreases ports@.len() - i,
    {
        if ports[i].name == x {
            assert(port_names(ports@).subrange(0, n as int)[i as int] == x);
            return true;
        }
        i = i + 1;
    }
    assert forall|k: int| 0 <= k < n implies port_names(ports@).subrange(0, n as int)[k] != x by {
        assert(port_names(ports@).subrange(0, n as int)[k] == ports@[k].name);
    }
    false
}

/// The views of `errors`.
pub open spec fn error_views(errors: Seq<AnalyzeError>) -> Seq<AnalyzeErrorView> {
    errors.map_values(|e: AnalyzeError| e@)
}

/// Appends to `errors` the diagnostics of an instantiation, as
/// `instance_errors` gives them.
pub fn check_instance(
    errors: &mut Vec<AnalyzeError>,
    symbol_table: &SymbolTable,
    namespace_table: &NamespaceTable,
    inst: &Token,
    module: &Token,
    connected: &Vec<StrId>,
    text: &str,
)
    ensures
        error_views(final(errors)@) == error_views(old(errors)@) + instance_errors(
            symbol_table.entries(),
            namespace_table.entries(),
            *inst,
            *module,
            connected@,
            text@,
        ),
{
    let ghost start = error_views(errors@);
    let namespace = match namespace_table.get(inst.id) {
        Some(ns) => ns,
        None => {
            assert(error_views(errors@) =~= start + Seq::empty());
            return;
        },
    };
    let name = Name::Hierarchical(vec![module.text]);
    assert(name@ =~= seq![module.text]);
    let symbol = match symbol_table.get(&name, &namespace) {
        Some(s) => s,
        None => {
            assert(error_views(errors@) =~= start + Seq::empty());
            return;
        },
    };
    match &symbol.kind {
        SymbolKind::Module(x) => {
            let ghost names = port_names(x.ports@);
            let mut i: usize = 0;
            while i < x.ports.len()
                invariant
                    i <= x.ports@.len(),
                    names == port_names(x.ports@),
                    error_views(errors@) == start + unmatched(names.subrange(0, i as int), connected@).map_values(
                        |p: StrId| error_at(AnalyzeErrorKindView::MissingPort { name: inst.text, port: p }, text@, *module),
                    ),
                decreases x.ports@.len() - i,
            {
                let port = x.ports[i].name;
                proof {
                    assert(names.subrange(0, i + 1).drop_last() =~= names.subrange(0, i as int));
                    assert(names.subrange(0, i + 1).last() == port);
                    assert(connected@.subrange(0, connected@.len() as int) =~= connected@);
                }
                if !has_port(&x.ports, i, port) && !contains_id(connected, connected.len(), port) {
                    let ghost before = errors@;
                    errors.push(AnalyzeError::missing_port(inst.text, port, text, module));
                    assert(error_views(errors@) =~= error_views(before).push(error_views(errors@).last()));
                }
                i = i + 1;
            }
            assert(names.subrange(0, i as int) =~= names);
            let ghost mid = error_views(errors@);
            let mut k: usize = 0;
            while k < connected.len()
                invariant
                    k <= connected@.len(),
                    names == port_names(x.ports@),
                    error_views(errors@) == mid + unmatched(connected@.subrange(0, k as int), names).map_values(
                        |p: StrId| error_at(AnalyzeErrorKindView::UnknownPort { name: inst.text, port: p }, text@, *module),
                    ),
                decreases connected@.len() - k,
            {
                let port = connected[k];
                proof {
                    assert(connected@.subrange(0, k + 1).drop_last() =~= connected@.subrange(0, k as int));
                    assert(connected@.subrange(0, k + 1).last() == port);
                    assert(names.subrange(0, names.len() as int) =~= names);
                }
                if !contains_id(connected, k, port) && !has_port(&x.ports, x.ports.len(), port) {
                    let ghost before = errors@;
                    errors.push(AnalyzeError::unknown_port(inst.text, port, text, module));
                    assert(error_views(errors@) =~= error_views(before).push(error_views(errors@).last()));
                }
                k = k + 1;
            }
            assert(connected@.subrange(0, k as int) =~= connected@);
        },
        _ => {
            let actual = symbol.kind.to_kind_name();
            let ghost before = errors@;
            errors.push(AnalyzeError::mismatch_type(module.text, "module", actual.as_str(), text, module));
            assert(error_views(errors@) =~= error_views(before).push(error_views(errors@).last()));
        },
    }
}

/// The names of the ports that the instantiation at `id` connects, taken
/// from its children from the `k`-th on.
pub open spec fn connected_ports(tree: SyntaxTree, id: int, k: int) -> Seq<StrId>
    decreases tree.children(id).len() - k,
{
    if 0 <= k < tree.children(id).len() {
        let rest = connected_ports(tree, id, k + 1);
        match tree.kind(tree.children(id)[k] as int) {
            NodeKind::InstPortItem(t) => seq![t.text] + rest,
            _ => rest,
        }
    } else {
        Seq::empty()
    }
}

/// The names of the ports that the instantiation at `id` connects.
fn collect_connected_ports(tree: &SyntaxTree, id: usize) -> (r: Vec<StrId>)
    requires
        tree.wf(),
        id < tree.len(),
    ensures
        r@ == connected_ports(*tree, id as int, 0),
{
    let mut r: Vec<StrId> = Vec::new();
    let mut k: usize = 0;
    while k < tree.nodes[id].children.len()
        invariant
            tree.wf(),
            id < tree.len(),
            k <= tree.children(id as int).len(),
            r@ + connected_ports(*tree, id as int, k as int) == connected_ports(*tree, id as int, 0),
        decreases tree.children(id as int).len() - k,
    {
        let c = tree.nodes[id].children[k];
        assert(c < tree.len());
        let ghost rest = connected_ports(*tree, id as int, k + 1);
        match &tree.nodes[c].kind {
            NodeKind::InstPortItem(t) => {
                assert(r@.push(t.text) + rest =~= r@ + (seq![t.text] + rest));
                r.push(t.text);
            },
            _ => {},
        }
        k = k + 1;
    }
    assert(r@ + Seq::empty() =~= r@);
    r
}

/// The analysis pass that checks every instantiation against the ports of
/// the module it instantiates, reading the tables that declaration
/// collection filled.
pub struct CheckModuleInstance<'a> {
    pub errors: Vec<AnalyzeError>,
    text: &'a str,
    point: HandlerPoint,
    symbol_table: &'a SymbolTable,
    namespace_table: &'a NamespaceTable,
}

/// The model of the instance check pass.
pub struct CheckModuleInstanceView {
    pub errors: Seq<AnalyzeErrorView>,
    pub point: HandlerPoint,
    pub symbols: Seq<(Seq<StrId>, SymbolView)>,
    pub scopes: Seq<(TokenId, PathId, Seq<StrId>)>,
    pub text: Seq<char>,
}

impl<'a> View for CheckModuleInstance<'a> {
    type V = CheckModuleInstanceView;

    closed spec fn view(&self) -> CheckModuleInstanceView {
        CheckModuleInstanceView {
            errors: error_views(self.errors@),
            point: self.point,
            symbols: self.symbol_table.entries(),
            scopes: self.namespace_table.entries(),
            text: self.text@,
        }
    }
}

impl<'a> CheckModuleInstance<'a> {
    /// An instance check pass with no diagnostic yet, over the source `text` and the
    /// tables that declaration collection filled.
    pub fn new(text: &'a str, symbol_table: &'a SymbolTable, namespace_table: &'a NamespaceTable) -> (r: Self)
        ensures
            r@ == (CheckModuleInstanceView {
                errors: Seq::empty(),
                point: HandlerPoint::Before,
                symbols: symbol_table.entries(),
                scopes: namespace_table.entries(),
                text: text@,
            }),
    {
        let r = CheckModuleInstance {
            errors: Vec::new(),
            text,
            point: HandlerPoint::Before,
            symbol_table,
            namespace_table,
        };
        assert(r@.errors =~= Seq::<AnalyzeErrorView>::empty());
        r
    }

    /// The diagnostics found so far.
    pub fn into_errors(self) -> (r: Vec<AnalyzeError>)
        ensures
            error_views(r@) == self@.errors,
    {
        self.errors
    }
}

impl<'a> Handler for CheckModuleInstance<'a> {
    open spec fn spec_set_point(v: CheckModuleInstanceView, p: HandlerPoint) -> CheckModuleInstanceView {
        CheckModuleInstanceView { point: p, ..v }
    }

    open spec fn spec_node(v: CheckModuleInstanceView, tree: SyntaxTree, id: int) -> CheckModuleInstanceView {
        if v.point == HandlerPoint::Before && 0 <= id < tree.len() {
            match tree.kind(id) {
                NodeKind::InstDeclaration(inst, module) => CheckModuleInstanceView {
                    errors: v.errors + instance_errors(
                        v.symbols,
                        v.scopes,
                        inst,
                        module,
                        connected_ports(tree, id, 0),
                        v.text,
                    ),
                    ..v
                },
                _ => v,
            }
        } else {
            v
        }
    }

    open spec fn spec_token(v: CheckModuleInstanceView, t: Token) -> CheckModuleInstanceView {
        v
    }

    fn set_point(&mut self, p: HandlerPoint) {
        self.point = p;
    }

    fn node(&mut self, tree: &SyntaxTree, id: usize) {
        if let HandlerPoint::Before = self.point {
            if let NodeKind::InstDeclaration(inst, module) = &tree.nodes[id].kind {
                let connected = collect_connected_ports(tree, id);
                check_instance(
                    &mut self.errors,
                    self.symbol_table,
                    self.namespace_table,
                    inst,
                    module,
                    &connected,
                    self.text,
                );
            }
        }
    }

    fn token(&mut self, t: &Token) {
    }
}

/// The diagnostics of the node `i` itself: those of the instantiation it is,
/// if it is one.
pub open spec fn own_errors(
    tree: SyntaxTree,
    i: int,
    symbols: Seq<(Seq<StrId>, SymbolView)>,
    scopes: Seq<(TokenId, PathId, Seq<StrId>)>,
    text: Seq<char>,
) -> Seq<AnalyzeErrorView> {
    match tree.kind(i) {
        NodeKind::InstDeclaration(inst, module) => instance_errors(
            symbols,
            scopes,
            inst,
            module,
            connected_ports(tree, i, 0),
            text,
        ),
        _ => Seq::empty(),
    }
}

/// The diagnostics of every instantiation in the subtree at `i`, in
/// traversal order.
pub open spec fn subtree_errors(
    tree: SyntaxTree,
    i: int,
    symbols: Seq<(Seq<StrId>, SymbolView)>,
    scopes: Seq<(TokenId, PathId, Seq<StrId>)>,
    text: Seq<char>,
) -> Seq<AnalyzeErrorView>
    decreases tree.len() - i, tree.children(i).len() + 1,
{
    if 0 <= i < tree.len() {
        own_errors(tree, i, symbols, scopes, text) + child_errors(tree, i, 0, symbols, scopes, text)
    } else {
        Seq::empty()
    }
}

/// The diagnostics of the subtrees of the children of `i` from the `k`-th on.
pub open spec fn child_errors(
    tree: SyntaxTree,
    i: int,
    k: int,
    symbols: Seq<(Seq<StrId>, SymbolView)>,
    scopes: Seq<(TokenId, PathId, Seq<StrId>)>,
    text: Seq<char>,
) -> Seq<AnalyzeErrorView>
    decreases tree.len() - i, tree.children(i).len() - k,
{
    if 0 <= i < tree.len() && 0 <= k < tree.children(i).len() {
        let c = tree.children(i)[k] as int;
        if i < c < tree.len() {
            subtree_errors(tree, c, symbols, scopes, text) + child_errors(tree, i, k + 1, symbols, scopes, text)
        } else {
            child_errors(tree, i, k + 1, symbols, scopes, text)
        }
    } else {
        Seq::empty()
    }
}

/// Token events change nothing in the instance check pass.
proof fn lemma_tokens_checked(v: CheckModuleInstanceView, tree: SyntaxTree, evs: Seq<Event>)
    requires
        forall|j: int| 0 <= j < evs.len() ==> #[trigger] evs[j] is Token,
    ensures
        replay::<CheckModuleInstance>(v, tree, evs) == v,
    decreases evs.len(),
{
    if evs.len() > 0 {
        lemma_tokens_checked(v, tree, evs.drop_last());
        assert(evs[evs.len() - 1] is Token);
    }
}

/// The traversals of the children of `i` from the `k`-th on add the
/// diagnostics of their instantiations and change nothing else the checks read.
proof fn lemma_checks_children(v: CheckModuleInstanceView, tree: SyntaxTree, i: int, k: int)
    requires
        tree.wf(),
        0 <= i < tree.len(),
        0 <= k,
    ensures
        ({
            let w = replay::<CheckModuleInstance>(v, tree, tree.child_events(i, k));
            &&& w.errors == v.errors + child_errors(tree, i, k, v.symbols, v.scopes, v.text)
            &&& w.symbols == v.symbols
            &&& w.scopes == v.scopes
            &&& w.text == v.text
        }),
    decreases tree.len() - i, tree.children(i).len() - k,
{
    if k < tree.children(i).len() {
        let c = tree.children(i)[k] as int;
        assert(i < c < tree.len());
        lemma_checks_instances(v, tree, c);
        let w = replay::<CheckModuleInstance>(v, tree, tree.events(c));
        lemma_checks_children(w, tree, i, k + 1);
        crate::veryl_walker::lemma_replay_children::<CheckModuleInstance>(v, tree, i, k);
        assert(v.errors + subtree_errors(tree, c, v.symbols, v.scopes, v.text) + child_errors(
            tree,
            i,
            k + 1,
            v.symbols,
            v.scopes,
            v.text,
        ) =~= v.errors + child_errors(tree, i, k, v.symbols, v.scopes, v.text));
    } else {
        assert(tree.child_events(i, k) =~= Seq::<Event>::empty());
        assert(v.errors + Seq::<AnalyzeErrorView>::empty() =~= v.errors);
    }
}

/// What the checks do over any subtree: they append the diagnostics of its
/// instantiations, in traversal order, and leave the tables they read and
/// the source text as they are.
pub proof fn lemma_checks_instances(v: CheckModuleInstanceView, tree: SyntaxTree, i: int)
    requires
        tree.wf(),
        0 <= i < tree.len(),
    ensures
        ({
            let w = replay::<CheckModuleInstance>(v, tree, tree.events(i));
            &&& w.errors == v.errors + subtree_errors(tree, i, v.symbols, v.scopes, v.text)
            &&& w.symbols == v.symbols
            &&& w.scopes == v.scopes
            &&& w.text == v.text
        }),
    decreases tree.len() - i, tree.children(i).len() + 1,
{
    assert(tree.nodes@.len() == tree.nodes.len());
    assert(i as usize as int == i);
    crate::veryl_walker::lemma_replay_subtree::<CheckModuleInstance>(v, tree, i);
    let v1 = crate::veryl_walker::observe::<CheckModuleInstance>(v, tree, Event::Before(i as usize));
    assert(v1.errors == v.errors + own_errors(tree, i, v.symbols, v.scopes, v.text)) by {
        assert(v.errors + Seq::<AnalyzeErrorView>::empty() =~= v.errors);
    }
    let te = token_events(tree.kind(i));
    assert forall|j: int| 0 <= j < te.len() implies #[trigger] te[j] is Token by {
    }
    lemma_tokens_checked(v1, tree, te);
    lemma_checks_children(v1, tree, i, 0);
    assert(v.errors + own_errors(tree, i, v.symbols, v.scopes, v.text) + child_errors(
        tree,
        i,
        0,
        v.symbols,
        v.scopes,
        v.text,
    ) =~= v.errors + subtree_errors(tree, i, v.symbols, v.scopes, v.text));
}

/// `unmatched` over a sequence extended by one name.
proof fn lemma_unmatched_push(s: Seq<StrId>, x: StrId, other: Seq<StrId>)
    ensures
        unmatched(s.push(x), other) == (if !s.contains(x) && !other.contains(x) {
            unmatched(s, other).push(x)
        } else {
            unmatched(s, other)
        }),
{
    assert(s.push(x).drop_last() =~= s);
    assert(s.push(x).last() == x);
}

/// Each name of `s` that `other` lacks is reported exactly once: the result
/// holds no name twice, holds only names of `s` that `other` lacks, and holds
/// every such name.
pub proof fn lemma_unmatched_is_a_set(s: Seq<StrId>, other: Seq<StrId>)
    ensures
        unmatched(s, other).no_duplicates(),
        forall|x: StrId| #[trigger] unmatched(s, other).contains(x) <==> (s.contains(x) && !other.contains(x)),
    decreases s.len(),
{
    if s.len() > 0 {
        let rest = s.drop_last();
        lemma_unmatched_is_a_set(rest, other);
        assert(s =~= rest.push(s.last()));
        lemma_unmatched_push(rest, s.last(), other);
        let r = unmatched(rest, other);
        let y = s.last();
        let pushed = !rest.contains(y) && !other.contains(y);
        assert forall|x: StrId| #[trigger] unmatched(s, other).contains(x) <==> (s.contains(x) && !other.contains(x)) by {
            let u = unmatched(s, other);
            if r.contains(x) {
                let k = choose|k: int| 0 <= k < r.len() && r[k] == x;
                assert(u[k] == x);
                let m = choose|m: int| 0 <= m < rest.len() && rest[m] == x;
                assert(s[m] == x);
            } else if pushed && x == y {
                assert(u[r.len() as int] == x);
                assert(s[s.len() - 1] == x);
            } else {
                if u.contains(x) {
                    let k = choose|k: int| 0 <= k < u.len() && u[k] == x;
                    if k < r.len() {
                        assert(r[k] == x);
                    }
                }
                if s.contains(x) && !other.contains(x) {
                    let k = choose|k: int| 0 <= k < s.len() && s[k] == x;
                    if k < s.len() - 1 {
                        assert(rest[k] == x);
                    }
                }
            }
        }
        if !rest.contains(s.last()) && !other.contains(s.last()) {
            assert(!r.contains(s.last()));
            assert forall|a: int, b: int| 0 <= a < b < r.push(s.last()).len() implies r.push(s.last())[a] != r.push(
                s.last(),
            )[b] by {
                if b == r.len() {
                    assert(r.push(s.last())[a] == r[a]);
                }
            }
        }
    }
}

/// Port-check completeness: when the instantiated name resolves to a module
/// declaring the ports `a` and `b`, an instantiation connecting only `a`
/// yields exactly one diagnostic, a missing-port one for `b`, and no
/// unknown-port one.
pub proof fn lemma_unconnected_port_reported(
    symbols: Seq<(Seq<StrId>, SymbolView)>,
    scopes: Seq<(TokenId, PathId, Seq<StrId>)>,
    inst: Token,
    module: Token,
    text: Seq<char>,
    sym: SymbolView,
    a: Port,
    b: Port,
)
    requires
        records(scopes, inst.id),
        resolved(symbols, seq![module.text], recorded_scope(scopes, inst.id)) == Some(sym),
        sym.kind == SymbolKindView::Module(seq![a, b]),
        a.name != b.name,
    ensures
        instance_errors(symbols, scopes, inst, module, seq![a.name], text) == seq![
            error_at(AnalyzeErrorKindView::MissingPort { name: inst.text, port: b.name }, text, module),
        ],
{
    let e = Seq::<StrId>::empty();
    let names = port_names(seq![a, b]);
    let connected = seq![a.name];
    assert(names =~= e.push(a.name).push(b.name));
    assert(connected =~= e.push(a.name));
    assert(connected[0] == a.name);
    assert(!connected.contains(b.name)) by {
        if connected.contains(b.name) {
            let i = choose|i: int| 0 <= i < connected.len() && connected[i] == b.name;
        }
    }
    assert(names[0] == a.name);
    assert(!e.contains(a.name));
    assert(e.push(a.name)[0] == a.name);
    assert(!e.push(a.name).contains(b.name)) by {
        if e.push(a.name).contains(b.name) {
            let i = choose|i: int| 0 <= i < 1 && e.push(a.name)[i] == b.name;
        }
    }
    assert(unmatched(e, connected) =~= e);
    lemma_unmatched_push(e, a.name, connected);
    lemma_unmatched_push(e.push(a.name), b.name, connected);
    assert(unmatched(names, connected) =~= seq![b.name]);
    assert(unmatched(e, names) =~= e);
    lemma_unmatched_push(e, a.name, names);
    assert(unmatched(connected, names) =~= e);
}

/// Extra-port detection: when the instantiated name resolves to a module
/// declaring the ports `a` and `b`, an instantiation connecting `a`, `b` and
/// an undeclared `c` yields exactly one diagnostic, an unknown-port one for
/// `c`, and no missing-port one.
pub proof fn lemma_extra_port_reported(
    symbols: Seq<(Seq<StrId>, SymbolView)>,
    scopes: Seq<(TokenId, PathId, Seq<StrId>)>,
    inst: Token,
    module: Token,
    text: Seq<char>,
    sym: SymbolView,
    a: Port,
    b: Port,
    c: StrId,
)
    requires
        records(scopes, inst.id),
        resolved(symbols, seq![module.text], recorded_scope(scopes, inst.id)) == Some(sym),
        sym.kind == SymbolKindView::Module(seq![a, b]),
        c != a.name,
        c != b.name,
    ensures
        instance_errors(symbols, scopes, inst, module, seq![a.name, b.name, c], text) == seq![
            error_at(AnalyzeErrorKindView::UnknownPort { name: inst.text, port: c }, text, module),
        ],
{
    let e = Seq::<StrId>::empty();
    let names = port_names(seq![a, b]);
    let connected = seq![a.name, b.name, c];
    assert(names =~= e.push(a.name).push(b.name));
    assert(connected =~= e.push(a.name).push(b.name).push(c));
    assert(connected[0] == a.name);
    assert(connected[1] == b.name);
    assert(names[0] == a.name);
    assert(names[1] == b.name);
    assert(!names.contains(c)) by {
        if names.contains(c) {
            let i = choose|i: int| 0 <= i < names.len() && names[i] == c;
        }
    }
    assert(!e.contains(a.name));
    let ab = e.push(a.name).push(b.name);
    assert(ab[0] == a.name && ab[1] == b.name);
    assert(!ab.contains(c)) by {
        if ab.contains(c) {
            let i = choose|i: int| 0 <= i < 2 && ab[i] == c;
        }
    }
    assert(unmatched(e, connected) =~= e);
    lemma_unmatched_push(e, a.name, connected);
    lemma_unmatched_push(e.push(a.name), b.name, connected);
    assert(unmatched(names, connected) =~= e);
    assert(unmatched(e, names) =~= e);
    lemma_unmatched_push(e, a.name, names);
    lemma_unmatched_push(e.push(a.name), b.name, names);
    lemma_unmatched_push(ab, c, names);
    assert(unmatched(connected, names) =~= seq![c]);
}

/// Type-mismatch detection: when the instantiated name resolves to a
/// function, the instantiation yields exactly one diagnostic, a type mismatch
/// naming `module` as expected and `function` as found, and no port one.
pub proof fn lemma_non_module_reported(
    symbols: Seq<(Seq<StrId>, SymbolView)>,
    scopes: Seq<(TokenId, PathId, Seq<StrId>)>,
    inst: Token,
    module: Token,
    connected: Seq<StrId>,
    text: Seq<char>,
    sym: SymbolView,
)
    requires
        records(scopes, inst.id),
        resolved(symbols, seq![module.text], recorded_scope(scopes, inst.id)) == Some(sym),
        sym.kind == SymbolKindView::Function,
    ensures
        instance_errors(symbols, scopes, inst, module, connected, text) == seq![
            error_at(
                AnalyzeErrorKindView::MismatchType {
                    name: module.text,
                    expected: "module"@,
                    actual: "function"@,
                },
                text,
                module,
            ),
        ],
{
}

} // verus!
