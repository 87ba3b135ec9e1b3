use veryl_core::analyze_error::{source_line, AnalyzeError};
use veryl_core::resource_table::ResourceTable;
use veryl_core::symbol::{Direction, InstanceProperty, ModuleProperty, Port, PortProperty, SymbolKind};
use veryl_core::token::Token;

#[test]
fn source_line_picks_the_numbered_line() {
    let text = "first\nsecond line\n\nfourth";
    assert_eq!(source_line(text, 1), "first");
    assert_eq!(source_line(text, 0), "first");
    assert_eq!(source_line(text, 2), "second line");
    assert_eq!(source_line(text, 3), "");
    assert_eq!(source_line(text, 4), "fourth");
    assert_eq!(source_line(text, 5), "");
    assert_eq!(source_line("", 1), "");
    assert_eq!(source_line("only\n", 2), "");
    assert_eq!(source_line("héllo\nwörld", 2), "wörld");
}

#[test]
fn codes_and_messages_of_each_kind() {
    let mut rt = ResourceTable::new();
    let file = rt.insert_path("x.vl");
    let u = rt.insert_str("u");
    let p = rt.insert_str("p");
    let token = Token { id: rt.new_token_id(), text: rt.insert_str("M"), file_path: file, line: 2, column: 3, length: 1 };
    let text = "a\n  M\n";
    let missing = AnalyzeError::missing_port(u, p, text, &token);
    assert_eq!(missing.code(), "missing-port");
    assert_eq!(missing.message(&rt), "port p is not connected in instance u");
    assert_eq!(missing.source, "  M");
    let unknown = AnalyzeError::unknown_port(u, p, text, &token);
    assert_eq!(unknown.code(), "unknown-port");
    assert_eq!(unknown.message(&rt), "instance u connects port p, which its module does not declare");
    let mismatch = AnalyzeError::mismatch_type(token.text, "module", "interface", text, &token);
    assert_eq!(mismatch.code(), "type-mismatch");
    assert_eq!(mismatch.message(&rt), "M is expected to be module, but it is interface");
    assert_eq!(mismatch.token, token);
}

#[test]
fn kind_names() {
    let cases = vec![
        (SymbolKind::Port(PortProperty { direction: Direction::Inout }), "port"),
        (SymbolKind::Variable, "variable"),
        (SymbolKind::Module(ModuleProperty { ports: vec![Port { name: veryl_core::resource_table::StrId(0), direction: Direction::Ref }] }), "module"),
        (SymbolKind::Interface, "interface"),
        (SymbolKind::Function, "function"),
        (SymbolKind::Parameter, "parameter"),
        (SymbolKind::Instance(InstanceProperty { module_name: veryl_core::resource_table::StrId(0) }), "instance"),
        (SymbolKind::Block, "block"),
        (SymbolKind::Package, "package"),
    ];
    for (kind, name) in cases {
        assert_eq!(kind.to_kind_name(), name);
    }
}
