use toml_query::error::Error;
use toml_query::set::TomlValueSetExt;
use toml_query::tree::{Scalar, Tree};

fn num(n: i64) -> Tree {
    Tree::Scalar(Scalar::Integer(n))
}

fn tbl(entries: Vec<(&str, Tree)>) -> Tree {
    Tree::Table(entries.into_iter().map(|(k, v)| (k.to_string(), v)).collect())
}

fn arr(items: Vec<Tree>) -> Tree {
    Tree::Array(items)
}

#[test]
fn test_set_with_seperator_into_table() {
    let mut toml = tbl(vec![("table", tbl(vec![("a", num(0))]))]);

    let res = toml.set_with_seperator(&String::from("table.a"), '.', num(1));

    assert!(res.is_ok());

    let res = res.unwrap();
    assert!(res.is_some());
    let res = res.unwrap();
    assert!(matches!(res, Tree::Scalar(Scalar::Integer(0))));

    assert!(matches!(toml, Tree::Table(_)));
    match toml {
        Tree::Table(ref t) => {
            assert!(!t.is_empty());

            let inner = t.iter().find(|e| e.0 == "table");
            assert!(inner.is_some());

            let inner = &inner.unwrap().1;
            assert!(matches!(inner, &Tree::Table(_)));
            match inner {
                &Tree::Table(ref t) => {
                    assert!(!t.is_empty());

                    let a = t.iter().find(|e| e.0 == "a");
                    assert!(a.is_some());

                    let a = &a.unwrap().1;
                    assert!(matches!(a, &Tree::Scalar(Scalar::Integer(1))));
                }
                _ => panic!("What just happenend?"),
            }
        }
        _ => panic!("What just happenend?"),
    }
}

#[test]
fn test_set_with_seperator_into_table_key_nonexistent() {
    let mut toml = tbl(vec![("table", tbl(vec![]))]);

    let res = toml.set_with_seperator(&String::from("table.a"), '.', num(1));

    assert!(res.is_ok());
    let res = res.unwrap();

    assert!(res.is_none());

    assert!(matches!(toml, Tree::Table(_)));
    match toml {
        Tree::Table(ref t) => {
            assert!(!t.is_empty());

            let inner = t.iter().find(|e| e.0 == "table");
            assert!(inner.is_some());

            let inner = &inner.unwrap().1;
            assert!(matches!(inner, &Tree::Table(_)));
            match inner {
                &Tree::Table(ref t) => {
                    assert!(!t.is_empty());

                    let a = t.iter().find(|e| e.0 == "a");
                    assert!(a.is_some());

                    let a = &a.unwrap().1;
                    assert!(matches!(a, &Tree::Scalar(Scalar::Integer(1))));
                }
                _ => panic!("What just happenend?"),
            }
        }
        _ => panic!("What just happenend?"),
    }
}

#[test]
fn test_set_with_seperator_into_array() {
    let mut toml = tbl(vec![("array", arr(vec![num(0)]))]);

    let res = toml.set_with_seperator(&String::from("array.[0]"), '.', num(1));

    assert!(res.is_ok());

    let res = res.unwrap();
    assert!(res.is_some());
    let res = res.unwrap();
    assert!(matches!(res, Tree::Scalar(Scalar::Integer(0))));

    assert!(matches!(toml, Tree::Table(_)));
    match toml {
        Tree::Table(ref t) => {
            assert!(!t.is_empty());

            let inner = t.iter().find(|e| e.0 == "array");
            assert!(inner.is_some());

            let inner = &inner.unwrap().1;
            assert!(matches!(inner, &Tree::Array(_)));
            match inner {
                &Tree::Array(ref a) => {
                    assert!(!a.is_empty());
                    assert!(matches!(a[0], Tree::Scalar(Scalar::Integer(1))));
                }
                _ => panic!("What just happenend?"),
            }
        }
        _ => panic!("What just happenend?"),
    }
}

#[test]
fn test_set_with_seperator_into_table_index_nonexistent() {
    let mut toml = tbl(vec![("array", arr(vec![]))]);

    let res = toml.set_with_seperator(&String::from("array.[0]"), '.', num(1));

    assert!(res.is_ok());

    let res = res.unwrap();
    assert!(res.is_none());

    assert!(matches!(toml, Tree::Table(_)));
    match toml {
        Tree::Table(ref t) => {
            assert!(!t.is_empty());

            let inner = t.iter().find(|e| e.0 == "array");
            assert!(inner.is_some());

            let inner = &inner.unwrap().1;
            assert!(matches!(inner, &Tree::Array(_)));
            match inner {
                &Tree::Array(ref a) => {
                    assert!(!a.is_empty());
                    assert!(matches!(a[0], Tree::Scalar(Scalar::Integer(1))));
                }
                _ => panic!("What just happenend?"),
            }
        }
        _ => panic!("What just happenend?"),
    }
}

#[test]
fn test_set_with_seperator_into_nested_table() {
    let mut toml = tbl(vec![(
        "a",
        tbl(vec![("b", tbl(vec![("c", tbl(vec![("d", num(0))]))]))]),
    )]);

    let res = toml.set_with_seperator(&String::from("a.b.c.d"), '.', num(1));

    assert!(res.is_ok());

    let res = res.unwrap();
    assert!(res.is_some());
    let res = res.unwrap();
    assert!(matches!(res, Tree::Scalar(Scalar::Integer(0))));

    assert!(matches!(toml, Tree::Table(_)));
    match toml {
        Tree::Table(ref t) => {
            assert!(!t.is_empty());

            let a = t.iter().find(|e| e.0 == "a");
            assert!(a.is_some());

            let a = &a.unwrap().1;
            assert!(matches!(a, &Tree::Table(_)));
            match a {
                &Tree::Table(ref a) => {
                    assert!(!a.is_empty());

                    let b_tab = a.iter().find(|e| e.0 == "b");
                    assert!(b_tab.is_some());

                    let b_tab = &b_tab.unwrap().1;
                    assert!(matches!(b_tab, &Tree::Table(_)));
                    match b_tab {
                        &Tree::Table(ref b) => {
                            assert!(!b.is_empty());

                            let c_tab = b.iter().find(|e| e.0 == "c");
                            assert!(c_tab.is_some());

                            let c_tab = &c_tab.unwrap().1;
                            assert!(matches!(c_tab, &Tree::Table(_)));
                            match c_tab {
                                &Tree::Table(ref c) => {
                                    assert!(!c.is_empty());

                                    let d = c.iter().find(|e| e.0 == "d");
                                    assert!(d.is_some());

                                    let d = &d.unwrap().1;
                                    assert!(matches!(d, &Tree::Scalar(Scalar::Integer(1))));
                                }
                                _ => panic!("What just happenend?"),
                            }
                        }
                        _ => panic!("What just happenend?"),
                    }
                }
                _ => panic!("What just happenend?"),
            }
        }
        _ => panic!("What just happenend?"),
    }
}

#[test]
fn test_set_with_seperator_into_nonexistent_table() {
    let mut toml = tbl(vec![]);

    let res = toml.set_with_seperator(&String::from("table.a"), '.', num(1));

    assert!(res.is_err());

    let res = res.unwrap_err();
    assert!(matches!(res, Error::IdentifierNotFoundInDocument(_)));
}

#[test]
fn test_set_with_seperator_into_nonexistent_array() {
    let mut toml = tbl(vec![]);

    let res = toml.set_with_seperator(&String::from("[0]"), '.', num(1));

    assert!(res.is_err());

    let res = res.unwrap_err();
    assert!(matches!(res, Error::NoIndexInTable(0)));
}

#[test]
fn test_set_with_seperator_ident_into_ary() {
    let mut toml = tbl(vec![("array", arr(vec![num(0)]))]);

    let res = toml.set_with_seperator(&String::from("array.foo"), '.', num(2));

    assert!(res.is_err());
    let res = res.unwrap_err();

    assert!(matches!(res, Error::NoIdentifierInArray(_)));
}

#[test]
fn test_set_with_seperator_index_into_table() {
    let mut toml = tbl(vec![("foo", tbl(vec![("bar", num(1))]))]);

    let res = toml.set_with_seperator(&String::from("foo.[0]"), '.', num(2));

    assert!(res.is_err());
    let res = res.unwrap_err();

    assert!(matches!(res, Error::NoIndexInTable(_)));
}

#[test]
fn test_set_with_seperator_ident_into_non_structure() {
    let mut toml = tbl(vec![("val", num(0))]);

    let res = toml.set_with_seperator(&String::from("val.foo"), '.', num(2));

    assert!(res.is_err());
    let res = res.unwrap_err();

    assert!(matches!(res, Error::QueryingValueAsTable(_)));
}

#[test]
fn test_set_with_seperator_index_into_non_structure() {
    let mut toml = tbl(vec![("foo", num(1))]);

    let res = toml.set_with_seperator(&String::from("foo.[0]"), '.', num(2));

    assert!(res.is_err());
    let res = res.unwrap_err();

    assert!(matches!(res, Error::QueryingValueAsArray(_)));
}

#[test]
fn set_with_custom_separator() {
    let mut toml = tbl(vec![("table", tbl(vec![("a", num(0))]))]);

    let res = toml.set_with_seperator("table/a", '/', num(7));
    assert_eq!(res, Ok(Some(num(0))));
    assert_eq!(toml, tbl(vec![("table", tbl(vec![("a", num(7))]))]));
}

#[test]
fn set_append_far_out_of_range_index() {
    let mut toml = tbl(vec![("arr", arr(vec![num(10), num(11)]))]);

    let res = toml.set_with_seperator("arr.[25]", '.', num(12));
    assert_eq!(res, Ok(None));
    assert_eq!(
        toml,
        tbl(vec![("arr", arr(vec![num(10), num(11), num(12)]))])
    );
}

#[test]
fn set_keeps_table_order() {
    let mut toml = tbl(vec![("x", num(1)), ("y", num(2)), ("z", num(3))]);

    let res = toml.set("y", num(20));
    assert_eq!(res, Ok(Some(num(2))));
    assert_eq!(toml, tbl(vec![("x", num(1)), ("y", num(20)), ("z", num(3))]));
}

#[test]
fn set_error_leaves_tree_unchanged() {
    let mut toml = tbl(vec![("a", tbl(vec![("b", num(5))]))]);
    let before = tbl(vec![("a", tbl(vec![("b", num(5))]))]);

    let res = toml.set("a.c.d", num(1));
    assert!(matches!(res, Err(Error::IdentifierNotFoundInDocument(_))));
    assert_eq!(toml, before);
}
