use mono_lower::expr::Expr;
use mono_lower::layout::Layout;
use mono_lower::procs::{Proc, ProcKey, Procs};
use mono_lower::symbol::{Symbol, LIST_LEN, LIST_MODULE, LIST_SET};

fn key(ident_id: u32, args: Vec<Layout>) -> ProcKey {
    ProcKey { symbol: Symbol { module_id: 9, ident_id }, args }
}

fn identity(symbol: Symbol) -> Proc {
    Proc { params: vec![(symbol, Layout::Int64)], body: Expr::Load(symbol), ret_layout: Layout::Int64 }
}

#[test]
fn new_table_is_empty() {
    let procs = Procs::new();
    assert_eq!(procs.len(), 0);
    assert!(!procs.contains(&key(0, vec![])));
    assert_eq!(procs.get(&key(0, vec![])), None);
}

#[test]
fn insert_if_absent_keeps_the_first_entry() {
    let mut procs = Procs::new();
    let x = Symbol { module_id: 9, ident_id: 100 };
    procs.insert_if_absent(key(1, vec![Layout::Int64]), Some(identity(x)));
    procs.insert_if_absent(key(1, vec![Layout::Int64]), None);
    assert_eq!(procs.len(), 1);
    assert_eq!(procs.get(&key(1, vec![Layout::Int64])), Some(&Some(identity(x))));
}

#[test]
fn keys_differ_by_symbol_and_by_layouts() {
    let mut procs = Procs::new();
    procs.insert_if_absent(key(1, vec![Layout::Int64]), None);
    procs.insert_if_absent(key(1, vec![Layout::Float64]), None);
    procs.insert_if_absent(key(2, vec![Layout::Int64]), None);
    procs.insert_if_absent(key(1, vec![Layout::Int64, Layout::Int64]), None);
    assert_eq!(procs.len(), 4);
    assert!(procs.contains(&key(1, vec![Layout::Float64])));
    assert!(!procs.contains(&key(2, vec![Layout::Float64])));
    assert!(key(1, vec![Layout::Str]).same(&key(1, vec![Layout::Str]).copy()));
    assert!(!key(1, vec![Layout::Str]).same(&key(2, vec![Layout::Str])));
}

#[test]
fn complete_fills_a_pending_entry_once() {
    let mut procs = Procs::new();
    let x = Symbol { module_id: 9, ident_id: 100 };
    let y = Symbol { module_id: 9, ident_id: 101 };
    let k = key(1, vec![Layout::Int64]);
    assert!(!procs.complete(&k, identity(x)));
    assert_eq!(procs.len(), 0);
    procs.insert_if_absent(k.copy(), None);
    assert_eq!(procs.get(&k), Some(&None));
    assert!(procs.complete(&k, identity(x)));
    assert_eq!(procs.get(&k), Some(&Some(identity(x))));
    assert!(!procs.complete(&k, identity(y)));
    assert_eq!(procs.get(&k), Some(&Some(identity(x))));
    assert_eq!(procs.len(), 1);
}

#[test]
fn builtin_symbols() {
    assert_eq!(Symbol::list(LIST_SET), Symbol { module_id: LIST_MODULE, ident_id: LIST_SET });
    assert!(Symbol::list(LIST_LEN).in_builtin_module());
    assert!(!Symbol { module_id: 9, ident_id: 0 }.in_builtin_module());
    assert!(Symbol { module_id: 1, ident_id: 7 } < Symbol { module_id: 2, ident_id: 0 });
}
