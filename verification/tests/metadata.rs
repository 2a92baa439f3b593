use diff_data::metadata::{
    get_columns, resolve_pg_type, resolve_pk_columns, sort_for_delete, sort_for_insert, CatalogColumn,
    FkDependency,
};
use diff_data::types::{ColumnInfo, PgType};
use diff_data::DataDiffError;

fn names(all: &[&str]) -> Vec<String> {
    all.iter().map(|s| s.to_string()).collect()
}

fn deps(all: &[(&str, &str)]) -> Vec<FkDependency> {
    all.iter()
        .map(|(t, r)| FkDependency { table: t.to_string(), references_table: r.to_string() })
        .collect()
}

fn catalog(name: &str, udt: &str, identity: &str, default: Option<&str>) -> CatalogColumn {
    CatalogColumn {
        column_name: name.to_string(),
        udt_name: udt.to_string(),
        is_identity: identity.to_string(),
        column_default: default.map(|d| d.to_string()),
    }
}

fn column(name: &str, is_pk: bool) -> ColumnInfo {
    ColumnInfo { name: name.to_string(), pg_type: PgType::Int4, is_pk, is_identity: false, ordinal: 0 }
}

#[test]
fn parents_come_before_children() {
    let sorted = sort_for_insert(
        &names(&["orders", "users", "items"]),
        &deps(&[("orders", "users"), ("items", "orders")]),
    );
    assert_eq!(sorted, names(&["users", "orders", "items"]));
    let reversed = sort_for_delete(
        &names(&["orders", "users", "items"]),
        &deps(&[("orders", "users"), ("items", "orders")]),
    );
    assert_eq!(reversed, names(&["items", "orders", "users"]));
}

#[test]
fn tables_without_dependencies_come_first() {
    let sorted = sort_for_insert(&names(&["z", "a", "b"]), &deps(&[("z", "b")]));
    assert_eq!(sorted, names(&["b", "a", "z"]));
}

#[test]
fn names_keep_their_spelling() {
    let sorted = sort_for_insert(&names(&["Orders", "Users"]), &deps(&[("orders", "USERS")]));
    assert_eq!(sorted, names(&["Users", "Orders"]));
}

#[test]
fn names_with_other_capitals_are_sorted_too() {
    let sorted = sort_for_insert(&names(&["Ébauches", "Users"]), &deps(&[("ébauches", "users")]));
    assert_eq!(sorted, names(&["Users", "Ébauches"]));
    let reversed = sort_for_delete(&names(&["Ébauches", "Users"]), &deps(&[("ébauches", "users")]));
    assert_eq!(reversed, names(&["Ébauches", "Users"]));
}

#[test]
fn the_order_rests_on_tables_and_dependencies() {
    let tables = ["b", "a", "d", "c"];
    let pairs = [("a", "b"), ("c", "a"), ("d", "d2")];
    let sorted = sort_for_insert(&names(&tables), &deps(&pairs));
    let other = sort_for_insert(
        &names(&["c", "d", "a", "b"]),
        &deps(&[("C", "A"), ("x", "y"), ("A", "B"), ("a", "b"), ("elsewhere", "b")]),
    );
    assert_eq!(sorted, other);
    assert_eq!(sorted, names(&["d", "b", "a", "c"]));
}

#[test]
fn circles_hold_up_no_other_table() {
    let sorted = sort_for_insert(
        &names(&["child", "x", "y", "parent", "behind"]),
        &deps(&[("child", "parent"), ("x", "y"), ("y", "x"), ("behind", "x"), ("x", "parent")]),
    );
    assert_eq!(sorted, names(&["parent", "child", "behind", "x", "y"]));
}

#[test]
fn circles_come_last() {
    let sorted = sort_for_insert(
        &names(&["c", "b", "a", "free"]),
        &deps(&[("a", "b"), ("b", "a"), ("c", "a")]),
    );
    assert_eq!(sorted, names(&["free", "a", "b", "c"]));
}

#[test]
fn tables_outside_the_list_do_not_matter() {
    let sorted = sort_for_insert(&names(&["a", "b"]), &deps(&[("a", "elsewhere"), ("b", "b2")]));
    assert_eq!(sorted, names(&["b", "a"]));
    assert_eq!(sort_for_insert(&[], &[]), names(&[]));
}

#[test]
fn a_table_is_sorted_once() {
    let sorted = sort_for_insert(&names(&["t", "T", "u"]), &[]);
    assert_eq!(sorted, names(&["u", "t"]));
}

#[test]
fn type_names() {
    assert_eq!(resolve_pg_type("boolean"), PgType::Bool);
    assert_eq!(resolve_pg_type("serial"), PgType::Int4);
    assert_eq!(resolve_pg_type("double precision"), PgType::Float8);
    assert_eq!(resolve_pg_type("timestamp with time zone"), PgType::Timestamptz);
    assert_eq!(resolve_pg_type("character"), PgType::Bpchar);
    assert_eq!(resolve_pg_type("hstore"), PgType::Text);
}

#[test]
fn columns_are_described() {
    let rows = [
        catalog("Id", "int4", "NO", Some("nextval('s'::regclass)")),
        catalog("n", "int8", "YES", None),
        catalog("t", "text", "NO", Some("'nextval('")),
    ];
    let columns = get_columns("s.t", &rows, &names(&["id"])).unwrap();
    assert_eq!(columns.len(), 3);
    assert!(columns[0].is_pk && columns[0].is_identity);
    assert_eq!(columns[0].name, "Id");
    assert_eq!(columns[1].pg_type, PgType::Int8);
    assert!(columns[1].is_identity && !columns[1].is_pk);
    assert!(!columns[2].is_identity);
    assert_eq!(columns[2].ordinal, 2);
}

#[test]
fn a_table_without_columns_is_not_found() {
    match get_columns("s.t", &[], &[]) {
        Err(DataDiffError::TableNotFound(t)) => assert_eq!(t, "s.t"),
        _ => panic!("expected TableNotFound"),
    }
}

#[test]
fn alternate_keys_take_the_place_of_the_primary_key() {
    let columns = [column("id", true), column("Code", false), column("x", false)];
    let (keys, real) = resolve_pk_columns(&columns, Some(&names(&["code"])));
    assert_eq!(keys.len(), 1);
    assert_eq!(keys[0].name, "Code");
    assert_eq!(real, names(&["id"]));
    let (keys, _) = resolve_pk_columns(&columns, Some(&[]));
    assert_eq!(keys[0].name, "id");
    let (keys, _) = resolve_pk_columns(&columns, None);
    assert_eq!(keys[0].name, "id");
    let (keys, _) = resolve_pk_columns(&columns, Some(&names(&["absent"])));
    assert!(keys.is_empty());
}
