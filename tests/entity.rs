use pg_entities::catalog::{load_catalog, ColumnRow, DataType, Table, TableRow};
use pg_entities::entity::{generate_entities, generate_entity, generate_field};
use pg_entities::omit::Omit;

fn table_row(oid: u32, name: &str, comment: Option<&str>) -> TableRow {
    TableRow {
        oid,
        schema_name: "public".to_string(),
        name: name.to_string(),
        relkind: 'r',
        comment: comment.map(|c| c.to_string()),
    }
}

fn column_row(table_oid: u32, id: u32, name: &str, type_oid: u32, nullable: bool, comment: Option<&str>) -> ColumnRow {
    ColumnRow {
        table_oid,
        id,
        name: name.to_string(),
        type_oid,
        nullable,
        comment: comment.map(|c| c.to_string()),
    }
}

#[test]
fn customer_orders_end_to_end() {
    let tables = vec![table_row(16384, "customer_orders", None)];
    let columns = vec![
        column_row(16384, 1, "id", 23, false, None),
        column_row(16384, 2, "customer_name", 25, true, Some("@omit update")),
    ];
    let graph = load_catalog(&tables, &columns);
    let entities = generate_entities(&graph);
    assert_eq!(entities.len(), 1);
    let e = &entities[0];
    assert_eq!(e.name, "customerOrder");
    assert_eq!(e.table_name, "customer_orders");
    assert_eq!(e.fields.len(), 2);
    assert_eq!(e.fields[0].name, "id");
    assert_eq!(e.fields[0].column_name, "id");
    assert_eq!(e.fields[0].data_type, DataType::Int4);
    assert!(!e.fields[0].nullable);
    assert!(!e.fields[0].omit.read);
    assert_eq!(e.fields[1].name, "customerName");
    assert_eq!(e.fields[1].column_name, "customer_name");
    assert_eq!(e.fields[1].data_type, DataType::Text);
    assert!(e.fields[1].nullable);
    assert!(e.fields[1].omit.update);
    assert!(!e.fields[1].omit.read);
}

#[test]
fn read_omitted_table_yields_no_entity() {
    let tables = vec![
        table_row(1, "secrets", Some("@omit read")),
        table_row(2, "countries", None),
    ];
    let columns = vec![
        column_row(1, 1, "value", 25, true, None),
        column_row(2, 1, "code", 25, false, None),
    ];
    let graph = load_catalog(&tables, &columns);
    assert!(generate_entity(&graph[0]).is_none());
    let entities = generate_entities(&graph);
    assert_eq!(entities.len(), 1);
    assert_eq!(entities[0].name, "country");
}

#[test]
fn read_omitted_column_yields_no_field() {
    let tables = vec![table_row(3, "users", Some("@omit delete"))];
    let columns = vec![
        column_row(3, 1, "user_name", 25, false, None),
        column_row(3, 2, "password_hash", 25, false, Some("@omit read")),
    ];
    let graph = load_catalog(&tables, &columns);
    let e = generate_entity(&graph[0]).unwrap();
    assert_eq!(e.fields.len(), 1);
    assert_eq!(e.fields[0].name, "userName");
    assert!(e.fields[0].omit.delete);
    assert_eq!(e.omit, Omit { create: false, read: false, update: false, delete: true });
}

#[test]
fn field_mask_joins_table_and_column_masks() {
    let graph: Vec<Table> = load_catalog(
        &vec![table_row(4, "logs", Some("@omit create"))],
        &vec![column_row(4, 1, "line", 25, true, Some("@omit update"))],
    );
    let f = generate_field(&graph[0].columns()[0], &graph[0].omit);
    assert_eq!(f.omit, Omit { create: true, read: false, update: true, delete: false });
}

#[test]
fn non_ascii_table_name_keeps_its_camel_case_form() {
    let graph = load_catalog(&vec![table_row(9, "_xéus", None)], &vec![]);
    let e = generate_entity(&graph[0]).unwrap();
    assert_eq!(e.name, "Xéus");
}

#[test]
fn non_ascii_table_name_starting_lowercase_is_singularized() {
    let graph = load_catalog(&vec![table_row(10, "élans", None)], &vec![]);
    let e = generate_entity(&graph[0]).unwrap();
    assert_eq!(e.name, "élan");
}
