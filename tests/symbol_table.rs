use veryl_core::namespace::Namespace;
use veryl_core::namespace_table::NamespaceTable;
use veryl_core::resource_table::{PathId, ResourceTable, TokenId};
use veryl_core::symbol::{Symbol, SymbolKind};
use veryl_core::symbol_table::{Name, SymbolTable};
use veryl_core::token::Token;

fn declared_token(rt: &mut ResourceTable, text: &str, file: PathId, line: usize) -> Token {
    Token {
        id: rt.new_token_id(),
        text: rt.insert_str(text),
        file_path: file,
        line,
        column: 1,
        length: text.len(),
    }
}

fn scope_path(rt: &mut ResourceTable, segments: &[&str]) -> Namespace {
    let mut ns = Namespace::new();
    for s in segments {
        ns.push(rt.insert_str(s));
    }
    ns
}

fn name(rt: &mut ResourceTable, text: &str) -> Name {
    Name::Hierarchical(vec![rt.insert_str(text)])
}

fn variable(token: Token, namespace: Namespace) -> Symbol {
    Symbol { token, kind: SymbolKind::Variable, namespace }
}

#[test]
fn innermost_declaration_wins() {
    let mut rt = ResourceTable::new();
    let file = rt.insert_path("a.vl");
    let outer = declared_token(&mut rt, "foo", file, 1);
    let inner = declared_token(&mut rt, "foo", file, 2);
    let mut table = SymbolTable::new();
    table.insert(name(&mut rt, "foo"), variable(outer, scope_path(&mut rt, &["pkg"])));
    table.insert(name(&mut rt, "foo"), variable(inner, scope_path(&mut rt, &["pkg", "blk"])));

    let foo = name(&mut rt, "foo");
    let from_blk = table.get(&foo, &scope_path(&mut rt, &["pkg", "blk"])).unwrap();
    assert_eq!(from_blk.token, inner);
    let from_deeper = table.get(&foo, &scope_path(&mut rt, &["pkg", "blk", "sub"])).unwrap();
    assert_eq!(from_deeper.token, inner);
    let from_pkg = table.get(&foo, &scope_path(&mut rt, &["pkg"])).unwrap();
    assert_eq!(from_pkg.token, outer);
}

#[test]
fn innermost_declaration_wins_in_either_order() {
    let mut rt = ResourceTable::new();
    let file = rt.insert_path("a.vl");
    let outer = declared_token(&mut rt, "foo", file, 1);
    let inner = declared_token(&mut rt, "foo", file, 2);
    let mut table = SymbolTable::new();
    table.insert(name(&mut rt, "foo"), variable(inner, scope_path(&mut rt, &["pkg", "blk"])));
    table.insert(name(&mut rt, "foo"), variable(outer, scope_path(&mut rt, &["pkg"])));

    let foo = name(&mut rt, "foo");
    assert_eq!(table.get(&foo, &scope_path(&mut rt, &["pkg", "blk"])).unwrap().token, inner);
    assert_eq!(table.get(&foo, &scope_path(&mut rt, &["pkg"])).unwrap().token, outer);
}

#[test]
fn deeper_declaration_is_invisible_from_outside() {
    let mut rt = ResourceTable::new();
    let file = rt.insert_path("a.vl");
    let inner = declared_token(&mut rt, "foo", file, 2);
    let mut table = SymbolTable::new();
    table.insert(name(&mut rt, "foo"), variable(inner, scope_path(&mut rt, &["pkg", "blk"])));
    let foo = name(&mut rt, "foo");
    assert!(table.get(&foo, &scope_path(&mut rt, &["pkg"])).is_none());
    assert!(table.get(&foo, &scope_path(&mut rt, &["pkg", "other"])).is_none());
    assert!(table.get(&foo, &Namespace::new()).is_none());
    assert!(table.get(&name(&mut rt, "bar"), &scope_path(&mut rt, &["pkg", "blk"])).is_none());
}

#[test]
fn duplicate_declaration_resolves_to_the_later_one() {
    let mut rt = ResourceTable::new();
    let file = rt.insert_path("a.vl");
    let first = declared_token(&mut rt, "foo", file, 1);
    let second = declared_token(&mut rt, "foo", file, 2);
    let mut table = SymbolTable::new();
    table.insert(name(&mut rt, "foo"), variable(first, scope_path(&mut rt, &["pkg"])));
    table.insert(name(&mut rt, "foo"), variable(second, scope_path(&mut rt, &["pkg"])));
    assert_eq!(table.get_all().len(), 2);
    let foo = name(&mut rt, "foo");
    assert_eq!(table.get(&foo, &scope_path(&mut rt, &["pkg"])).unwrap().token, second);
}

#[test]
fn scoped_and_hierarchical_names_compare_by_segments() {
    let mut rt = ResourceTable::new();
    let file = rt.insert_path("a.vl");
    let t = declared_token(&mut rt, "foo", file, 1);
    let mut table = SymbolTable::new();
    table.insert(name(&mut rt, "foo"), variable(t, Namespace::new()));
    let scoped = Name::Scoped(vec![rt.insert_str("foo")]);
    assert_eq!(scoped.as_slice(), &[rt.insert_str("foo")]);
    assert_eq!(table.get(&scoped, &Namespace::new()).unwrap().token, t);
}

#[test]
fn drop_removes_every_symbol_of_the_file() {
    let mut rt = ResourceTable::new();
    let a = rt.insert_path("a.vl");
    let b = rt.insert_path("b.vl");
    let only_a = declared_token(&mut rt, "only_a", a, 1);
    let shared_a = declared_token(&mut rt, "shared", a, 2);
    let shared_b = declared_token(&mut rt, "shared", b, 1);
    let mut table = SymbolTable::new();
    table.insert(name(&mut rt, "only_a"), variable(only_a, Namespace::new()));
    table.insert(name(&mut rt, "shared"), variable(shared_a, scope_path(&mut rt, &["top"])));
    table.insert(name(&mut rt, "shared"), variable(shared_b, Namespace::new()));
    assert_eq!(table.get_all().len(), 3);

    table.drop(a);
    let all = table.get_all();
    assert_eq!(all.len(), 1);
    assert!(all.iter().all(|s| s.token.file_path != a));
    assert!(table.get(&name(&mut rt, "only_a"), &Namespace::new()).is_none());
    let shared = table.get(&name(&mut rt, "shared"), &scope_path(&mut rt, &["top"])).unwrap();
    assert_eq!(shared.token, shared_b);

    table.drop(b);
    assert!(table.get_all().is_empty());
}

#[test]
fn namespace_table_records_and_drops_by_file() {
    let mut rt = ResourceTable::new();
    let a = rt.insert_path("a.vl");
    let b = rt.insert_path("b.vl");
    let ta = declared_token(&mut rt, "x", a, 1);
    let tb = declared_token(&mut rt, "y", b, 1);
    let mut table = NamespaceTable::new();
    table.insert(ta.id, a, scope_path(&mut rt, &["top"]));
    table.insert(tb.id, b, scope_path(&mut rt, &["other"]));
    assert_eq!(table.get(ta.id).unwrap().to_display_string(&rt), "top");
    table.insert(ta.id, a, scope_path(&mut rt, &["top", "blk"]));
    assert_eq!(table.get(ta.id).unwrap().to_display_string(&rt), "top::blk");
    assert!(table.get(TokenId(1000)).is_none());

    table.drop(a);
    assert!(table.get(ta.id).is_none());
    assert_eq!(table.get(tb.id).unwrap().to_display_string(&rt), "other");
}

#[test]
fn search_finds_names_containing_the_query() {
    let mut rt = ResourceTable::new();
    let file = rt.insert_path("a.vl");
    let clk = declared_token(&mut rt, "clk", file, 1);
    let rst = declared_token(&mut rt, "rst", file, 2);
    let clk_en = declared_token(&mut rt, "i_clk_en", file, 3);
    let mut table = SymbolTable::new();
    table.insert(name(&mut rt, "clk"), variable(clk, Namespace::new()));
    table.insert(name(&mut rt, "rst"), variable(rst, Namespace::new()));
    table.insert(name(&mut rt, "i_clk_en"), variable(clk_en, Namespace::new()));

    let found: Vec<Token> = table.search(&rt, "clk").iter().map(|s| s.token).collect();
    assert_eq!(found, vec![clk, clk_en]);
    let found: Vec<Token> = table.search(&rt, "k_e").iter().map(|s| s.token).collect();
    assert_eq!(found, vec![clk_en]);
    assert_eq!(table.search(&rt, "").len(), 3);
    assert!(table.search(&rt, "clock").is_empty());
    assert!(table.search(&rt, "i_clk_en_x").is_empty());
}
