use pg_entities::catalog::{
    load_catalog, map_columns_to_table, Column, ColumnRow, DataType, Relkind, Table, TableRow,
};
use pg_entities::omit::Omit;

fn table_row(oid: u32, schema: &str, name: &str, relkind: char, comment: Option<&str>) -> TableRow {
    TableRow {
        oid,
        schema_name: schema.to_string(),
        name: name.to_string(),
        relkind,
        comment: comment.map(|c| c.to_string()),
    }
}

fn column_row(table_oid: u32, id: u32, name: &str, type_oid: u32, comment: Option<&str>) -> ColumnRow {
    ColumnRow {
        table_oid,
        id,
        name: name.to_string(),
        type_oid,
        nullable: true,
        comment: comment.map(|c| c.to_string()),
    }
}

fn names(t: &Table) -> Vec<String> {
    t.columns().iter().map(|c| c.name().clone()).collect()
}

#[test]
fn same_table_name_in_two_schemas_stays_apart() {
    let tables = vec![
        table_row(100, "public", "orders", 'r', None),
        table_row(200, "sales", "orders", 'r', None),
    ];
    let columns = vec![
        column_row(200, 1, "sale_id", 23, None),
        column_row(100, 1, "id", 23, None),
        column_row(100, 2, "total", 701, None),
        column_row(200, 2, "region", 25, None),
    ];
    let graph = load_catalog(&tables, &columns);
    assert_eq!(graph.len(), 2);
    assert_eq!(*graph[0].oid(), 100);
    assert_eq!(graph[0].schema_name, "public");
    assert_eq!(names(&graph[0]), vec!["id", "total"]);
    assert_eq!(*graph[1].oid(), 200);
    assert_eq!(graph[1].schema_name, "sales");
    assert_eq!(names(&graph[1]), vec!["sale_id", "region"]);
    for t in &graph {
        for c in t.columns() {
            assert_eq!(c.table_oid(), t.oid());
        }
    }
}

#[test]
fn orphan_columns_are_dropped() {
    let tables = vec![table_row(7, "public", "items", 'r', None)];
    let columns = vec![
        column_row(7, 1, "id", 20, None),
        column_row(8, 1, "ghost", 25, None),
        column_row(7, 2, "label", 1043, None),
    ];
    let graph = load_catalog(&tables, &columns);
    assert_eq!(graph.len(), 1);
    assert_eq!(names(&graph[0]), vec!["id", "label"]);
}

#[test]
fn no_tables_means_no_columns() {
    let graph = load_catalog(&vec![], &vec![column_row(1, 1, "a", 16, None)]);
    assert!(graph.is_empty());
}

#[test]
fn table_from_row_reads_kind_and_comment() {
    let t = Table::from_row(&table_row(5, "public", "totals", 'm', Some("@omit create,update")));
    assert_eq!(t.relkind, Relkind::MaterializedView);
    assert_eq!(t.comment, "@omit create,update");
    assert_eq!(t.omit, Omit { create: true, read: false, update: true, delete: false });
    assert!(t.columns().is_empty());
    let plain = Table::from_row(&table_row(6, "public", "users", 'r', None));
    assert_eq!(plain.relkind, Relkind::Table);
    assert_eq!(plain.comment, "");
    assert_eq!(plain.omit, Omit { create: false, read: false, update: false, delete: false });
}

#[test]
fn column_from_row_reads_type_and_mask() {
    let c = Column::form_row(&column_row(3, 4, "secret", 25, Some("@omit")));
    assert_eq!(c.id, 4);
    assert_eq!(*c.table_oid(), 3);
    assert_eq!(c.name(), "secret");
    assert_eq!(c.data_type, DataType::Text);
    assert_eq!(c.omit, Omit { create: true, read: true, update: true, delete: true });
}

#[test]
fn data_type_tags() {
    assert_eq!(DataType::from_oid(16), DataType::Bool);
    assert_eq!(DataType::from_oid(21), DataType::Int2);
    assert_eq!(DataType::from_oid(23), DataType::Int4);
    assert_eq!(DataType::from_oid(20), DataType::Int8);
    assert_eq!(DataType::from_oid(700), DataType::Float4);
    assert_eq!(DataType::from_oid(701), DataType::Float8);
    assert_eq!(DataType::from_oid(25), DataType::Text);
    assert_eq!(DataType::from_oid(1043), DataType::Varchar);
    assert_eq!(DataType::from_oid(18), DataType::Char);
    assert_eq!(DataType::from_oid(1002), DataType::CharArray);
    assert_eq!(DataType::from_oid(114), DataType::Json);
    assert_eq!(DataType::from_oid(3802), DataType::Jsonb);
    assert_eq!(DataType::from_oid(17), DataType::Other);
    assert_eq!(DataType::from_oid(999_999), DataType::Unresolved);
}

#[test]
fn push_and_map_columns() {
    let mut tables = vec![
        Table::from_row(&table_row(1, "public", "a", 'r', None)),
        Table::from_row(&table_row(2, "public", "b", 'r', None)),
    ];
    tables[0].push_column(Column::form_row(&column_row(1, 1, "first", 23, None)));
    let columns = vec![
        Column::form_row(&column_row(2, 1, "x", 23, None)),
        Column::form_row(&column_row(1, 2, "second", 23, None)),
        Column::form_row(&column_row(9, 1, "lost", 23, None)),
    ];
    map_columns_to_table(&mut tables, columns);
    assert_eq!(names(&tables[0]), vec!["first", "second"]);
    assert_eq!(names(&tables[1]), vec!["x"]);
}
