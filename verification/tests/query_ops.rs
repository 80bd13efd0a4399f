use toml_query::error::Error;
use toml_query::set::TomlValueSetExt;
use toml_query::tree::{Scalar, Tree};

fn num(n: i64) -> Tree {
    Tree::Scalar(Scalar::Integer(n))
}

fn text(s: &str) -> Tree {
    Tree::Scalar(Scalar::Text(s.to_string()))
}

fn tbl(entries: Vec<(&str, Tree)>) -> Tree {
    Tree::Table(entries.into_iter().map(|(k, v)| (k.to_string(), v)).collect())
}

fn arr(items: Vec<Tree>) -> Tree {
    Tree::Array(items)
}

#[test]
fn fresh_table_starts_empty_and_accepts_inserts() {
    let mut toml = Tree::new_table();
    assert_eq!(toml, Tree::Table(vec![]));
    assert_eq!(toml.insert("k", num(1)), Ok(None));
    assert_eq!(toml.get("k"), Ok(Some(&num(1))));
}

#[test]
fn get_reads_nested_value() {
    let toml = tbl(vec![("a", tbl(vec![("b", arr(vec![num(4), num(5)]))]))]);

    let res = toml.get("a.b.[1]");
    assert_eq!(res, Ok(Some(&num(5))));
}

#[test]
fn get_never_mutates() {
    let toml = tbl(vec![("t", tbl(vec![("k", text("v"))]))]);
    let before = tbl(vec![("t", tbl(vec![("k", text("v"))]))]);

    let _ = toml.get("t.k");
    let _ = toml.get("t.missing");
    assert_eq!(toml, before);
}

#[test]
fn get_value_as_table_fails() {
    let toml = tbl(vec![("val", num(0))]);

    let res = toml.get("val.foo");
    assert_eq!(res, Err(Error::QueryingValueAsTable("foo".to_string())));
}

#[test]
fn get_missing_key_fails_with_absence() {
    let toml = tbl(vec![("t", tbl(vec![]))]);

    let res = toml.get("t.k");
    assert_eq!(res, Err(Error::IdentifierNotFoundInDocument("k".to_string())));
}

#[test]
fn get_out_of_range_index_fails_with_absence() {
    let toml = tbl(vec![("a", arr(vec![num(0)]))]);

    let res = toml.get("a.[3]");
    assert_eq!(
        res,
        Err(Error::IdentifierNotFoundInDocument("[3]".to_string()))
    );
}

#[test]
fn set_then_get_returns_just_set_value() {
    let mut toml = tbl(vec![("table", tbl(vec![("a", num(0))]))]);

    let res = toml.set("table.a", num(9));
    assert_eq!(res, Ok(Some(num(0))));
    assert_eq!(toml.get("table.a"), Ok(Some(&num(9))));
}

#[test]
fn set_index_then_get_returns_just_set_value() {
    let mut toml = tbl(vec![("a", arr(vec![num(1), num(2)]))]);

    let res = toml.set("a.[1]", num(20));
    assert_eq!(res, Ok(Some(num(2))));
    assert_eq!(toml.get("a.[1]"), Ok(Some(&num(20))));
}

#[test]
fn insert_then_get_returns_inserted_value() {
    let mut toml = tbl(vec![]);

    let res = toml.insert("a.b.c", num(1));
    assert_eq!(res, Ok(None));
    assert_eq!(toml.get("a.b.c"), Ok(Some(&num(1))));
}

#[test]
fn insert_occupied_fails_and_leaves_tree_unchanged() {
    let mut toml = tbl(vec![("t", tbl(vec![("k", num(1))]))]);
    let before = tbl(vec![("t", tbl(vec![("k", num(1))]))]);

    let res = toml.insert("t.k", num(2));
    assert_eq!(res, Err(Error::ValueAlreadyExists("k".to_string())));
    assert_eq!(toml, before);

    let res = toml.set("t.k", num(2));
    assert_eq!(res, Ok(Some(num(1))));
    assert_eq!(toml.get("t.k"), Ok(Some(&num(2))));
}

#[test]
fn insert_occupied_index_fails() {
    let mut toml = tbl(vec![("a", arr(vec![num(5)]))]);

    let res = toml.insert("a.[0]", num(6));
    assert_eq!(res, Err(Error::ValueAlreadyExists("[0]".to_string())));
    assert_eq!(toml, tbl(vec![("a", arr(vec![num(5)]))]));
}

#[test]
fn insert_out_of_range_index_appends() {
    let mut toml = tbl(vec![("a", arr(vec![num(5)]))]);

    let res = toml.insert("a.[17]", num(6));
    assert_eq!(res, Ok(None));
    assert_eq!(toml, tbl(vec![("a", arr(vec![num(5), num(6)]))]));
}

#[test]
fn insert_never_creates_intermediate_arrays() {
    let mut toml = tbl(vec![("a", arr(vec![]))]);

    let res = toml.insert("a.[0].b", num(1));
    assert_eq!(
        res,
        Err(Error::IdentifierNotFoundInDocument("[0]".to_string()))
    );
    assert_eq!(toml, tbl(vec![("a", arr(vec![]))]));
}

#[test]
fn delete_table_key_returns_value_and_keeps_order() {
    let mut toml = tbl(vec![("x", num(1)), ("y", num(2)), ("z", num(3))]);

    let res = toml.delete("y");
    assert_eq!(res, Ok(Some(num(2))));
    assert_eq!(toml, tbl(vec![("x", num(1)), ("z", num(3))]));
}

#[test]
fn delete_array_index_shifts_left() {
    let mut toml = tbl(vec![("a", arr(vec![num(0), num(1), num(2)]))]);

    let res = toml.delete("a.[0]");
    assert_eq!(res, Ok(Some(num(0))));
    assert_eq!(toml, tbl(vec![("a", arr(vec![num(1), num(2)]))]));
}

#[test]
fn get_after_delete_fails_with_absence() {
    let mut toml = tbl(vec![("t", tbl(vec![("k", num(1))]))]);

    let res = toml.delete("t.k");
    assert_eq!(res, Ok(Some(num(1))));
    assert_eq!(
        toml.get("t.k"),
        Err(Error::IdentifierNotFoundInDocument("k".to_string()))
    );
}

#[test]
fn get_after_delete_last_index_fails_with_absence() {
    let mut toml = tbl(vec![("a", arr(vec![num(7)]))]);

    let res = toml.delete("a.[0]");
    assert_eq!(res, Ok(Some(num(7))));
    assert_eq!(
        toml.get("a.[0]"),
        Err(Error::IdentifierNotFoundInDocument("[0]".to_string()))
    );
}

#[test]
fn delete_missing_key_fails() {
    let mut toml = tbl(vec![("t", tbl(vec![]))]);

    let res = toml.delete("t.k");
    assert_eq!(res, Err(Error::IdentifierNotFoundInDocument("k".to_string())));
}

#[test]
fn delete_index_in_table_fails() {
    let mut toml = tbl(vec![]);

    let res = toml.delete("[0]");
    assert_eq!(res, Err(Error::NoIndexInTable(0)));
}

#[test]
fn delete_with_custom_separator() {
    let mut toml = tbl(vec![("a", tbl(vec![("b", num(3))]))]);

    let res = toml.delete_with_seperator("a/b", '/');
    assert_eq!(res, Ok(Some(num(3))));
    assert_eq!(toml, tbl(vec![("a", tbl(vec![]))]));
}

#[test]
fn scenario_set_root_table_key() {
    let mut toml = tbl(vec![("table", tbl(vec![("a", num(0))]))]);
    assert_eq!(toml.set("table.a", num(1)), Ok(Some(num(0))));
    assert_eq!(toml, tbl(vec![("table", tbl(vec![("a", num(1))]))]));
}

#[test]
fn scenario_set_fresh_table_key() {
    let mut toml = tbl(vec![("table", tbl(vec![]))]);
    assert_eq!(toml.set("table.a", num(1)), Ok(None));
    assert_eq!(toml, tbl(vec![("table", tbl(vec![("a", num(1))]))]));
}

#[test]
fn scenario_set_array_element() {
    let mut toml = tbl(vec![("array", arr(vec![num(0)]))]);
    assert_eq!(toml.set("array.[0]", num(1)), Ok(Some(num(0))));
    assert_eq!(toml, tbl(vec![("array", arr(vec![num(1)]))]));
}

#[test]
fn scenario_set_empty_array_appends() {
    let mut toml = tbl(vec![("array", arr(vec![]))]);
    assert_eq!(toml.set("array.[0]", num(1)), Ok(None));
    assert_eq!(toml, tbl(vec![("array", arr(vec![num(1)]))]));
}

#[test]
fn scenario_set_missing_table_fails() {
    let mut toml = tbl(vec![]);
    assert_eq!(
        toml.set("table.a", num(1)),
        Err(Error::IdentifierNotFoundInDocument("table".to_string()))
    );
}

#[test]
fn scenario_index_into_root_table_fails() {
    let mut toml = tbl(vec![]);
    assert_eq!(toml.set("[0]", num(1)), Err(Error::NoIndexInTable(0)));
}

#[test]
fn scenario_ident_into_array_fails() {
    let mut toml = tbl(vec![("array", arr(vec![num(0)]))]);
    assert_eq!(
        toml.set("array.foo", num(2)),
        Err(Error::NoIdentifierInArray("foo".to_string()))
    );
}

#[test]
fn scenario_get_value_as_table_fails() {
    let toml = tbl(vec![("val", num(0))]);
    assert_eq!(
        toml.get("val.foo"),
        Err(Error::QueryingValueAsTable("foo".to_string()))
    );
}
