use postgres_source::ordered::ordered_keys;
use postgres_source::schema::{
    build_source_tables, determine_table_compatibility, find_published, ColumnDesc, SourceTable,
    TableDesc,
};
use std::collections::BTreeMap;

fn column(name: &str, type_oid: u32, type_mod: i32, nullable: bool) -> ColumnDesc {
    ColumnDesc { name: name.to_string(), type_oid, type_mod, nullable }
}

fn desc(oid: u32, name: &str, columns: Vec<ColumnDesc>) -> TableDesc {
    TableDesc { oid, namespace: "public".to_string(), name: name.to_string(), columns }
}

fn two_columns() -> Vec<ColumnDesc> {
    vec![column("id", 23, -1, false), column("v", 1043, 14, true)]
}

fn source(oid: u32, name: &str, output_index: usize) -> SourceTable<&'static str> {
    SourceTable { output_index, desc: desc(oid, name, two_columns()), casts: vec!["int", "text"] }
}

#[test]
fn column_is_compatible_with_itself() {
    let c = column("id", 23, -1, false);
    assert!(c.is_compatible(&c.clone()));
    let n = column("v", 25, -1, true);
    assert!(n.is_compatible(&n.clone()));
}

#[test]
fn column_compatibility_needs_same_name_and_type() {
    let c = column("id", 23, -1, true);
    assert!(!c.is_compatible(&column("ident", 23, -1, true)));
    assert!(!c.is_compatible(&column("id", 20, -1, true)));
    assert!(!c.is_compatible(&column("id", 23, 8, true)));
}

#[test]
fn column_nullability_may_only_tighten() {
    let nullable = column("v", 25, -1, true);
    let not_null = column("v", 25, -1, false);
    // a not null constraint that comes upstream changes nothing for a nullable column
    assert!(nullable.is_compatible(&not_null));
    // one that goes lets NULL into a column that was declared without
    assert!(!not_null.is_compatible(&nullable));
}

#[test]
fn table_compatibility_needs_same_column_count() {
    let table = desc(1, "t", two_columns());
    let mut longer = two_columns();
    longer.push(column("extra", 25, -1, true));
    assert!(table.is_compatible_with(&desc(1, "t", two_columns())));
    assert!(!table.is_compatible_with(&desc(1, "t", longer)));
    assert!(!table.is_compatible_with(&desc(1, "t", vec![column("id", 23, -1, false)])));
    assert!(desc(1, "e", vec![]).is_compatible_with(&desc(1, "e", vec![])));
}

#[test]
fn table_compatibility_checks_every_position() {
    let table = desc(1, "t", two_columns());
    let swapped = vec![column("v", 1043, 14, true), column("id", 23, -1, false)];
    assert!(!table.is_compatible_with(&desc(1, "t", swapped)));
    let last_differs = vec![column("id", 23, -1, false), column("v", 1043, 15, true)];
    assert!(!table.is_compatible_with(&desc(1, "t", last_differs)));
}

#[test]
fn determine_compatibility_names_the_altered_table() {
    let table = desc(16384, "orders", two_columns());
    assert_eq!(table.determine_compatibility(&desc(16384, "orders", two_columns())), Ok(()));
    assert_eq!(
        table.determine_compatibility(&desc(16384, "orders", vec![])),
        Err("source table orders with oid 16384 has been altered".to_string())
    );
    assert_eq!(table.dropped(), "source table orders with oid 16384 has been dropped");
}

#[test]
fn find_published_takes_the_last_with_the_oid() {
    let tables = vec![
        desc(5, "first", vec![]),
        desc(6, "other", vec![]),
        desc(5, "second", two_columns()),
    ];
    assert_eq!(find_published(&tables, 5).map(|t| t.name.as_str()), Some("second"));
    assert_eq!(find_published(&tables, 6).map(|t| t.name.as_str()), Some("other"));
    assert_eq!(find_published(&tables, 7), None);
    assert_eq!(find_published(&vec![], 5), None);
}

#[test]
fn compatible_publication_is_accepted() {
    let mut source_tables = BTreeMap::new();
    source_tables.insert(10, source(10, "a", 1));
    source_tables.insert(20, source(20, "b", 2));
    let published =
        vec![desc(20, "b", two_columns()), desc(30, "c", vec![]), desc(10, "a", two_columns())];
    assert_eq!(determine_table_compatibility(&source_tables, &published), Ok(()));
    let empty: BTreeMap<u32, SourceTable<&'static str>> = BTreeMap::new();
    assert_eq!(determine_table_compatibility(&empty, &vec![]), Ok(()));
}

#[test]
fn dropped_table_is_reported() {
    let mut source_tables = BTreeMap::new();
    source_tables.insert(10, source(10, "a", 1));
    source_tables.insert(20, source(20, "b", 2));
    let published = vec![desc(10, "a", two_columns())];
    assert_eq!(
        determine_table_compatibility(&source_tables, &published),
        Err("source table b with oid 20 has been dropped".to_string())
    );
}

#[test]
fn first_fault_in_oid_order_is_reported() {
    let mut source_tables = BTreeMap::new();
    source_tables.insert(30, source(30, "c", 3));
    source_tables.insert(10, source(10, "a", 1));
    source_tables.insert(20, source(20, "b", 2));
    // a is fine, b is altered, c is dropped
    let published = vec![desc(20, "b", vec![]), desc(10, "a", two_columns())];
    assert_eq!(
        determine_table_compatibility(&source_tables, &published),
        Err("source table b with oid 20 has been altered".to_string())
    );
    // now b is dropped as well, and still comes first
    let published = vec![desc(10, "a", two_columns())];
    assert_eq!(
        determine_table_compatibility(&source_tables, &published),
        Err("source table b with oid 20 has been dropped".to_string())
    );
}

#[test]
fn later_publication_entry_with_same_oid_decides() {
    let mut source_tables = BTreeMap::new();
    source_tables.insert(10, source(10, "a", 1));
    let published = vec![desc(10, "a", two_columns()), desc(10, "a", vec![])];
    assert_eq!(
        determine_table_compatibility(&source_tables, &published),
        Err("source table a with oid 10 has been altered".to_string())
    );
    let published = vec![desc(10, "a", vec![]), desc(10, "a", two_columns())];
    assert_eq!(determine_table_compatibility(&source_tables, &published), Ok(()));
}

#[test]
fn source_tables_are_built_for_outputs_with_casts() {
    let tables = vec![
        desc(300, "first", two_columns()),
        desc(100, "second", vec![]),
        desc(200, "third", two_columns()),
    ];
    let mut casts = BTreeMap::new();
    casts.insert(1, vec!["a", "b"]);
    casts.insert(3, vec!["c", "d"]);
    casts.insert(7, vec!["unused"]);
    let source_tables = build_source_tables(tables, casts);
    assert_eq!(source_tables.len(), 2);
    let first = &source_tables[&300];
    assert_eq!(first.output_index, 1);
    assert_eq!(first.desc, desc(300, "first", two_columns()));
    assert_eq!(first.casts, vec!["a", "b"]);
    let third = &source_tables[&200];
    assert_eq!(third.output_index, 3);
    assert_eq!(third.desc.name, "third");
    assert_eq!(third.casts, vec!["c", "d"]);
    assert!(!source_tables.contains_key(&100));
}

#[test]
fn source_tables_of_empty_publication_are_empty() {
    let casts: BTreeMap<usize, Vec<&'static str>> = BTreeMap::new();
    assert!(build_source_tables(vec![], casts).is_empty());
    let mut casts = BTreeMap::new();
    casts.insert(1, vec!["a"]);
    assert!(build_source_tables(vec![], casts).is_empty());
}

#[test]
fn later_table_with_same_oid_replaces_earlier() {
    let tables = vec![desc(5, "old", vec![]), desc(5, "new", two_columns())];
    let mut casts = BTreeMap::new();
    casts.insert(1, vec!["x"]);
    casts.insert(2, vec!["y"]);
    let source_tables = build_source_tables(tables, casts);
    assert_eq!(source_tables.len(), 1);
    assert_eq!(source_tables[&5].output_index, 2);
    assert_eq!(source_tables[&5].desc.name, "new");
    assert_eq!(source_tables[&5].casts, vec!["y"]);
}

#[test]
fn keys_come_in_increasing_order() {
    let mut map = BTreeMap::new();
    for key in [9u32, 2, 4_000_000_000, 7, 0] {
        map.insert(key, ());
    }
    assert_eq!(ordered_keys(&map), vec![0, 2, 7, 9, 4_000_000_000]);
    let empty: BTreeMap<u32, ()> = BTreeMap::new();
    assert_eq!(ordered_keys(&empty), Vec::<u32>::new());
}
