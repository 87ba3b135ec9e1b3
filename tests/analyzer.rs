use veryl_core::analyze_error::{AnalyzeError, AnalyzeErrorKind};
use veryl_core::analyzer::Analyzer;
use veryl_core::resource_table::{PathId, ResourceTable};
use veryl_core::symbol::{Direction, SymbolKind};
use veryl_core::syntax_tree::{Node, NodeKind, SyntaxTree};
use veryl_core::token::Token;

struct Source {
    rt: ResourceTable,
    file: PathId,
    nodes: Vec<Node>,
}

impl Source {
    fn new(path: &str) -> Self {
        let mut rt = ResourceTable::new();
        let file = rt.insert_path(path);
        let nodes = vec![Node { kind: NodeKind::Veryl, children: Vec::new() }];
        Source { rt, file, nodes }
    }

    fn token(&mut self, text: &str, line: usize, column: usize) -> Token {
        Token {
            id: self.rt.new_token_id(),
            text: self.rt.insert_str(text),
            file_path: self.file,
            line,
            column,
            length: text.len(),
        }
    }

    fn add(&mut self, parent: usize, kind: NodeKind) -> usize {
        let id = self.nodes.len();
        self.nodes.push(Node { kind, children: Vec::new() });
        self.nodes[parent].children.push(id);
        id
    }

    fn tree(&mut self) -> SyntaxTree {
        SyntaxTree { nodes: std::mem::take(&mut self.nodes) }
    }
}

const PORTS_TEXT: &str = "module M (\n    a: input logic,\n    b: output logic,\n) {}\nmodule Top {\n    inst u: M (PORTS);\n}\n";

/// `module M (a, b)` and `module Top { inst u: M (<connected>); }`.
fn module_with_instance(connected: &[&str]) -> (Source, SyntaxTree, Token) {
    let mut src = Source::new("top.vl");
    let m = src.token("M", 1, 8);
    let a = src.token("a", 2, 5);
    let b = src.token("b", 3, 5);
    let module = src.add(0, NodeKind::Module(m));
    src.add(module, NodeKind::PortDeclaration(a, Direction::Input));
    src.add(module, NodeKind::PortDeclaration(b, Direction::Output));
    let top = src.token("Top", 5, 8);
    let u = src.token("u", 6, 10);
    let m_ref = src.token("M", 6, 13);
    let top_id = src.add(0, NodeKind::Module(top));
    let inst = src.add(top_id, NodeKind::InstDeclaration(u, m_ref));
    let mut column = 16;
    for p in connected {
        let t = src.token(p, 6, column);
        src.add(inst, NodeKind::InstPortItem(t));
        column += p.len() + 2;
    }
    let tree = src.tree();
    (src, tree, m_ref)
}

fn codes(errors: &[AnalyzeError]) -> Vec<String> {
    errors.iter().map(|e| e.code()).collect()
}

#[test]
fn unconnected_port_is_reported() {
    let (mut src, tree, m_ref) = module_with_instance(&["a"]);
    let mut analyzer = Analyzer::new();
    let errors = analyzer.analyze(&tree, PORTS_TEXT);
    assert_eq!(codes(&errors), vec!["missing-port"]);
    let b = src.rt.insert_str("b");
    let u = src.rt.insert_str("u");
    match &errors[0].kind {
        AnalyzeErrorKind::MissingPort { name, port } => {
            assert_eq!(*name, u);
            assert_eq!(*port, b);
        }
        _ => panic!("expected a missing port"),
    }
    assert_eq!(errors[0].token, m_ref);
    assert_eq!(errors[0].source, "    inst u: M (PORTS);");
    assert_eq!(errors[0].message(&src.rt), "port b is not connected in instance u");
}

#[test]
fn extra_port_is_reported() {
    let (mut src, tree, m_ref) = module_with_instance(&["a", "b", "c"]);
    let mut analyzer = Analyzer::new();
    let errors = analyzer.analyze(&tree, PORTS_TEXT);
    assert_eq!(codes(&errors), vec!["unknown-port"]);
    let c = src.rt.insert_str("c");
    match &errors[0].kind {
        AnalyzeErrorKind::UnknownPort { port, .. } => assert_eq!(*port, c),
        _ => panic!("expected an unknown port"),
    }
    assert_eq!(errors[0].token, m_ref);
    assert_eq!(
        errors[0].message(&src.rt),
        "instance u connects port c, which its module does not declare"
    );
}

#[test]
fn fully_connected_instance_is_clean() {
    let (_src, tree, _) = module_with_instance(&["a", "b"]);
    let mut analyzer = Analyzer::new();
    assert!(analyzer.analyze(&tree, PORTS_TEXT).is_empty());
}

#[test]
fn missing_and_extra_ports_are_both_reported() {
    let (mut src, tree, _) = module_with_instance(&["c", "d"]);
    let mut analyzer = Analyzer::new();
    let errors = analyzer.analyze(&tree, PORTS_TEXT);
    assert_eq!(
        codes(&errors),
        vec!["missing-port", "missing-port", "unknown-port", "unknown-port"]
    );
    let messages: Vec<String> = errors.iter().map(|e| e.message(&src.rt)).collect();
    assert_eq!(messages[0], "port a is not connected in instance u");
    assert_eq!(messages[1], "port b is not connected in instance u");
    let d = src.rt.insert_str("d");
    match &errors[3].kind {
        AnalyzeErrorKind::UnknownPort { port, .. } => assert_eq!(*port, d),
        _ => panic!("expected an unknown port"),
    }
}

#[test]
fn instantiating_a_function_is_a_type_mismatch() {
    let text = "function F {}\nmodule Top {\n    inst u: F (a);\n}\n";
    let mut src = Source::new("f.vl");
    let f = src.token("F", 1, 10);
    src.add(0, NodeKind::Function(f));
    let top = src.token("Top", 2, 8);
    let u = src.token("u", 3, 10);
    let f_ref = src.token("F", 3, 13);
    let a = src.token("a", 3, 16);
    let top_id = src.add(0, NodeKind::Module(top));
    let inst = src.add(top_id, NodeKind::InstDeclaration(u, f_ref));
    src.add(inst, NodeKind::InstPortItem(a));
    let tree = src.tree();

    let mut analyzer = Analyzer::new();
    let errors = analyzer.analyze(&tree, text);
    assert_eq!(codes(&errors), vec!["type-mismatch"]);
    match &errors[0].kind {
        AnalyzeErrorKind::MismatchType { expected, actual, .. } => {
            assert_eq!(expected, "module");
            assert_eq!(actual, "function");
        }
        _ => panic!("expected a type mismatch"),
    }
    assert_eq!(errors[0].token, f_ref);
    assert_eq!(errors[0].source, "    inst u: F (a);");
    assert_eq!(errors[0].message(&src.rt), "F is expected to be module, but it is function");
}

#[test]
fn unresolved_instance_type_is_not_an_error() {
    let text = "module Top {\n    inst u: Missing (a);\n}\n";
    let mut src = Source::new("u.vl");
    let top = src.token("Top", 1, 8);
    let u = src.token("u", 2, 10);
    let missing = src.token("Missing", 2, 13);
    let a = src.token("a", 2, 22);
    let top_id = src.add(0, NodeKind::Module(top));
    let inst = src.add(top_id, NodeKind::InstDeclaration(u, missing));
    src.add(inst, NodeKind::InstPortItem(a));
    let tree = src.tree();
    let mut analyzer = Analyzer::new();
    assert!(analyzer.analyze(&tree, text).is_empty());
}

#[test]
fn module_declared_in_another_scope_is_not_visible() {
    // package P { module M (a) {} }  module Top { inst u: M (); }
    let text = "package P {\n}\nmodule Top {\n    inst u: M ();\n}\n";
    let mut src = Source::new("p.vl");
    let p = src.token("P", 1, 9);
    let pkg = src.add(0, NodeKind::Package(p));
    let m = src.token("M", 1, 20);
    let module = src.add(pkg, NodeKind::Module(m));
    let a = src.token("a", 1, 23);
    src.add(module, NodeKind::PortDeclaration(a, Direction::Input));
    let top = src.token("Top", 3, 8);
    let u = src.token("u", 4, 10);
    let m_ref = src.token("M", 4, 13);
    let top_id = src.add(0, NodeKind::Module(top));
    src.add(top_id, NodeKind::InstDeclaration(u, m_ref));
    let tree = src.tree();
    let mut analyzer = Analyzer::new();
    assert!(analyzer.analyze(&tree, text).is_empty());
}

#[test]
fn declarations_are_recorded_in_their_scopes() {
    let (mut src, tree, m_ref) = module_with_instance(&["a"]);
    let mut analyzer = Analyzer::new();
    let _ = analyzer.analyze(&tree, PORTS_TEXT);
    let all = analyzer.symbol_table.get_all();
    // M, a, b, Top, u
    assert_eq!(all.len(), 5);
    let module = analyzer.definition(&m_ref).unwrap();
    match &module.kind {
        SymbolKind::Module(x) => {
            assert_eq!(x.ports.len(), 2);
            assert_eq!(x.ports[0].name, src.rt.insert_str("a"));
            assert_eq!(x.ports[0].direction, Direction::Input);
            assert_eq!(x.ports[1].name, src.rt.insert_str("b"));
            assert_eq!(x.ports[1].direction, Direction::Output);
        }
        _ => panic!("expected a module"),
    }
    assert_eq!(module.namespace.depth(), 0);
    let port = all.iter().find(|s| s.token.text == src.rt.insert_str("a")).unwrap();
    assert_eq!(port.namespace.to_display_string(&src.rt), "M");
    let inst = all.iter().find(|s| s.token.text == src.rt.insert_str("u")).unwrap();
    assert_eq!(inst.namespace.to_display_string(&src.rt), "Top");
    match &inst.kind {
        SymbolKind::Instance(x) => assert_eq!(x.module_name, src.rt.insert_str("M")),
        _ => panic!("expected an instance"),
    }
    let scope = analyzer.namespace_table.get(m_ref.id).unwrap();
    assert_eq!(scope.to_display_string(&src.rt), "Top");
}

#[test]
fn reanalysis_after_drop_leaves_one_generation() {
    let (src, tree, _) = module_with_instance(&["a"]);
    let mut analyzer = Analyzer::new();
    let _ = analyzer.analyze(&tree, PORTS_TEXT);
    assert_eq!(analyzer.symbol_table.get_all().len(), 5);
    analyzer.drop_file(src.file);
    assert!(analyzer.symbol_table.get_all().is_empty());
    let errors = analyzer.analyze(&tree, PORTS_TEXT);
    assert_eq!(codes(&errors), vec!["missing-port"]);
    assert_eq!(analyzer.symbol_table.get_all().len(), 5);
}

#[test]
fn cross_file_module_resolves_until_its_file_is_dropped() {
    let lib_text = "module M (\n    a: input logic,\n) {}\n";
    let top_text = "module Top {\n    inst u: M ();\n}\n";
    let mut rt = ResourceTable::new();
    let lib_file = rt.insert_path("lib.vl");
    let top_file = rt.insert_path("top.vl");
    let mut tok = |rt: &mut ResourceTable, file: PathId, text: &str, line: usize, column: usize| Token {
        id: rt.new_token_id(),
        text: rt.insert_str(text),
        file_path: file,
        line,
        column,
        length: text.len(),
    };
    let m = tok(&mut rt, lib_file, "M", 1, 8);
    let a = tok(&mut rt, lib_file, "a", 2, 5);
    let lib_tree = SyntaxTree {
        nodes: vec![
            Node { kind: NodeKind::Veryl, children: vec![1] },
            Node { kind: NodeKind::Module(m), children: vec![2] },
            Node { kind: NodeKind::PortDeclaration(a, Direction::Input), children: vec![] },
        ],
    };
    let top = tok(&mut rt, top_file, "Top", 1, 8);
    let u = tok(&mut rt, top_file, "u", 2, 10);
    let m_ref = tok(&mut rt, top_file, "M", 2, 13);
    let top_tree = SyntaxTree {
        nodes: vec![
            Node { kind: NodeKind::Veryl, children: vec![1] },
            Node { kind: NodeKind::Module(top), children: vec![2] },
            Node { kind: NodeKind::InstDeclaration(u, m_ref), children: vec![] },
        ],
    };
    let mut analyzer = Analyzer::new();
    assert!(analyzer.analyze(&lib_tree, lib_text).is_empty());
    let errors = analyzer.analyze(&top_tree, top_text);
    assert_eq!(codes(&errors), vec!["missing-port"]);
    assert_eq!(errors[0].source, "    inst u: M ();");

    analyzer.drop_file(lib_file);
    analyzer.drop_file(top_file);
    assert!(analyzer.analyze(&top_tree, top_text).is_empty());
    assert!(analyzer.definition(&m_ref).is_none());
}

#[test]
fn definition_resolves_from_the_scope_of_the_reference() {
    // module Top { var foo; : blk { var foo; foo } foo }
    let text = "module Top {\n    var foo: logic;\n    :blk {\n        var foo: logic;\n        assign foo = 1;\n    }\n    assign foo = 0;\n}\n";
    let mut src = Source::new("d.vl");
    let top = src.token("Top", 1, 8);
    let top_id = src.add(0, NodeKind::Module(top));
    let outer = src.token("foo", 2, 9);
    src.add(top_id, NodeKind::Variable(outer));
    let blk = src.token("blk", 3, 6);
    let blk_id = src.add(top_id, NodeKind::NamedBlock(blk));
    let inner = src.token("foo", 4, 13);
    src.add(blk_id, NodeKind::Variable(inner));
    let inner_ref = src.token("foo", 5, 16);
    src.add(blk_id, NodeKind::Identifier(inner_ref));
    let outer_ref = src.token("foo", 7, 12);
    src.add(top_id, NodeKind::Identifier(outer_ref));
    let unseen = src.token("foo", 9, 1);
    let tree = src.tree();

    let mut analyzer = Analyzer::new();
    assert!(analyzer.analyze(&tree, text).is_empty());
    assert_eq!(analyzer.definition(&inner_ref).unwrap().token, inner);
    assert_eq!(analyzer.definition(&outer_ref).unwrap().token, outer);
    assert!(analyzer.definition(&unseen).is_none());
    let block = analyzer.definition(&blk).unwrap();
    assert!(matches!(block.kind, SymbolKind::Block));
    assert_eq!(block.namespace.to_display_string(&src.rt), "Top");
    let scope = analyzer.namespace_table.get(inner_ref.id).unwrap();
    assert_eq!(scope.to_display_string(&src.rt), "Top::blk");
}

#[test]
fn reanalyze_replaces_the_file_generation() {
    let (src, tree, m_ref) = module_with_instance(&["a"]);
    let mut analyzer = Analyzer::new();
    let first = analyzer.reanalyze(src.file, &tree, PORTS_TEXT);
    assert_eq!(codes(&first), vec!["missing-port"]);
    let second = analyzer.reanalyze(src.file, &tree, PORTS_TEXT);
    assert_eq!(codes(&second), vec!["missing-port"]);
    assert_eq!(analyzer.symbol_table.get_all().len(), 5);
    assert!(analyzer.definition(&m_ref).is_some());
}

#[test]
fn repeated_unknown_port_is_reported_once() {
    let (mut src, tree, _) = module_with_instance(&["a", "b", "c", "c"]);
    let mut analyzer = Analyzer::new();
    let errors = analyzer.analyze(&tree, PORTS_TEXT);
    assert_eq!(codes(&errors), vec!["unknown-port"]);
    let c = src.rt.insert_str("c");
    match &errors[0].kind {
        AnalyzeErrorKind::UnknownPort { port, .. } => assert_eq!(*port, c),
        _ => panic!("expected an unknown port"),
    }
}

#[test]
fn missing_port_and_repeated_unknown_port() {
    let (_src, tree, _) = module_with_instance(&["b", "c", "c", "b"]);
    let mut analyzer = Analyzer::new();
    let errors = analyzer.analyze(&tree, PORTS_TEXT);
    assert_eq!(codes(&errors), vec!["missing-port", "unknown-port"]);
}

#[test]
fn port_declared_twice_is_reported_missing_once() {
    let text = "module M (\n    a: input logic,\n    a: input logic,\n) {}\nmodule Top {\n    inst u: M ();\n}\n";
    let mut src = Source::new("twice.vl");
    let m = src.token("M", 1, 8);
    let module = src.add(0, NodeKind::Module(m));
    let a1 = src.token("a", 2, 5);
    src.add(module, NodeKind::PortDeclaration(a1, Direction::Input));
    let a2 = src.token("a", 3, 5);
    src.add(module, NodeKind::PortDeclaration(a2, Direction::Input));
    let top = src.token("Top", 5, 8);
    let u = src.token("u", 6, 10);
    let m_ref = src.token("M", 6, 13);
    let top_id = src.add(0, NodeKind::Module(top));
    src.add(top_id, NodeKind::InstDeclaration(u, m_ref));
    let tree = src.tree();
    let mut analyzer = Analyzer::new();
    let errors = analyzer.analyze(&tree, text);
    assert_eq!(codes(&errors), vec!["missing-port"]);
    assert_eq!(errors[0].message(&src.rt), "port a is not connected in instance u");
}
