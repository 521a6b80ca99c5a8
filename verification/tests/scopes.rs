use mini_scheme::scope::{Scope, Table, Variables};
use mini_scheme::syntax::{print_tree, Expr};

fn symbol(name: &str) -> Expr {
    Expr::symbol(String::from(name))
}

#[test]
fn a_new_table_binds_nothing() {
    let table: Table<String> = Table::new();
    assert!(!table.contains("a"));
    assert!(table.get("a").is_none());
    assert!(table.get("").is_none());
}

#[test]
fn a_table_gives_back_what_was_bound() {
    let mut table: Table<String> = Table::new();
    table.insert(String::from("a"), String::from("one"));
    table.insert(String::from("b"), String::from("two"));
    assert_eq!(table.get("a"), Some(&String::from("one")));
    assert_eq!(table.get("b"), Some(&String::from("two")));
    assert!(table.contains("a"));
    assert!(!table.contains("c"));
    assert!(!table.contains("A"));
}

#[test]
fn binding_a_name_again_replaces_its_value() {
    let mut table: Table<String> = Table::new();
    table.insert(String::from("a"), String::from("one"));
    table.insert(String::from("b"), String::from("two"));
    table.insert(String::from("a"), String::from("three"));
    assert_eq!(table.get("a"), Some(&String::from("three")));
    assert_eq!(table.get("b"), Some(&String::from("two")));
    let copy = table.duplicate();
    assert_eq!(copy.get("a"), Some(&String::from("three")));
    assert_eq!(copy.get("b"), Some(&String::from("two")));
}

#[test]
fn a_scope_defines_and_looks_up_variables() {
    let mut scope: Scope = Table::new();
    assert!(scope.var_definition(&String::from("x")).is_none());
    scope.define_var(&String::from("x"), &symbol("y"));
    scope.define_var(&String::from("z"), &Expr::nil());
    let found = scope.var_definition(&String::from("x")).map(|e| print_tree(&e, &false));
    assert_eq!(found, Some(String::from("y")));
    scope.define_var(&String::from("x"), &Expr::boolean(true));
    let found = scope.var_definition(&String::from("x")).map(|e| print_tree(&e, &false));
    assert_eq!(found, Some(String::from("#t")));
    let found = scope.var_definition(&String::from("z")).map(|e| print_tree(&e, &false));
    assert_eq!(found, Some(String::from("nil")));
    let copy = scope.duplicate();
    assert!(copy.contains("x"));
    assert!(copy.contains("z"));
    assert!(!copy.contains("y"));
}
