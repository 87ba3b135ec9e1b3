use veryl_core::resource_table::{PathId, ResourceTable, StrId};

#[test]
fn same_text_gets_same_id() {
    let mut rt = ResourceTable::new();
    let a = rt.insert_str("clk");
    let b = rt.insert_str("rst");
    let c = rt.insert_str("clk");
    assert_eq!(a, c);
    assert_ne!(a, b);
    assert_eq!(rt.get_str_value(a), Some(String::from("clk")));
    assert_eq!(rt.get_str_value(b), Some(String::from("rst")));
    assert_eq!(rt.get_str_value(StrId(99)), None);
}

#[test]
fn paths_are_interned_apart_from_texts() {
    let mut rt = ResourceTable::new();
    assert_eq!(rt.get_path_id("a.vl"), None);
    let p = rt.insert_path("a.vl");
    let q = rt.insert_path("b.vl");
    assert_eq!(rt.insert_path("a.vl"), p);
    assert_ne!(p, q);
    assert_eq!(rt.get_path_id("a.vl"), Some(p));
    assert_eq!(rt.get_path_value(q), Some(String::from("b.vl")));
    assert_eq!(rt.get_path_value(PathId(7)), None);
    assert_eq!(rt.get_str_value(StrId(0)), None);
}

#[test]
fn token_ids_are_fresh() {
    let mut rt = ResourceTable::new();
    let a = rt.new_token_id();
    let b = rt.new_token_id();
    let c = rt.new_token_id();
    assert_eq!(a.0, 0);
    assert_eq!(b.0, 1);
    assert_eq!(c.0, 2);
}
