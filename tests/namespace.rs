use veryl_core::namespace::Namespace;
use veryl_core::resource_table::ResourceTable;

fn path(rt: &mut ResourceTable, segments: &[&str]) -> Namespace {
    let mut ns = Namespace::new();
    for s in segments {
        ns.push(rt.insert_str(s));
    }
    ns
}

#[test]
fn included_is_reflexive() {
    let mut rt = ResourceTable::new();
    let root = Namespace::new();
    assert!(root.included(&root));
    let n = path(&mut rt, &["pkg", "top"]);
    assert!(n.included(&n));
}

#[test]
fn pushed_scope_is_inside_not_outside() {
    let mut rt = ResourceTable::new();
    let n = path(&mut rt, &["pkg"]);
    let mut m = n.clone();
    m.push(rt.insert_str("blk"));
    assert!(m.included(&n));
    assert!(!n.included(&m));
    assert_eq!(m.depth(), 2);
    assert_eq!(n.depth(), 1);
}

#[test]
fn sibling_scopes_do_not_include_each_other() {
    let mut rt = ResourceTable::new();
    let a = path(&mut rt, &["pkg", "a"]);
    let b = path(&mut rt, &["pkg", "b"]);
    assert!(!a.included(&b));
    assert!(!b.included(&a));
    let pkg = path(&mut rt, &["pkg"]);
    assert!(a.included(&pkg));
    assert!(b.included(&pkg));
    assert!(a.included(&Namespace::new()));
}

#[test]
fn pop_leaves_innermost_scope_and_keeps_root() {
    let mut rt = ResourceTable::new();
    let mut n = path(&mut rt, &["pkg", "blk"]);
    n.pop();
    assert_eq!(n.depth(), 1);
    assert!(n.included(&path(&mut rt, &["pkg"])));
    n.pop();
    assert_eq!(n.depth(), 0);
    n.pop();
    assert_eq!(n.depth(), 0);
}

#[test]
fn display_string_joins_with_double_colon() {
    let mut rt = ResourceTable::new();
    let n = path(&mut rt, &["pkg", "top", "blk"]);
    assert_eq!(n.to_display_string(&rt), "pkg::top::blk");
    let one = path(&mut rt, &["pkg"]);
    assert_eq!(one.to_display_string(&rt), "pkg");
    assert_eq!(Namespace::new().to_display_string(&rt), "");
}
