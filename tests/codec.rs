use pg_entities::catalog::DataType;
use pg_entities::codec::{
    cell_to_intermediate, get_field_value, native_kind, row_to_intermediate, FieldValue,
    Intermediate, NativeCell, NativeKind, RawCell,
};

fn cell(name: &str, data_type: DataType, value: NativeCell) -> RawCell {
    RawCell { name: name.to_string(), data_type, value }
}

#[test]
fn native_kinds_follow_declared_types() {
    assert_eq!(native_kind(DataType::Bool), NativeKind::Bool);
    assert_eq!(native_kind(DataType::Int8), NativeKind::Int8);
    assert_eq!(native_kind(DataType::Jsonb), NativeKind::Json);
    assert_eq!(native_kind(DataType::Varchar), NativeKind::Text);
    assert_eq!(native_kind(DataType::Other), NativeKind::Text);
    assert_eq!(native_kind(DataType::Unresolved), NativeKind::Text);
}

#[test]
fn cells_decode_by_declared_type() {
    assert_eq!(cell_to_intermediate(DataType::Bool, NativeCell::Bool(Some(true))), Intermediate::Bool(true));
    assert_eq!(cell_to_intermediate(DataType::Int2, NativeCell::Int2(Some(-7))), Intermediate::Int(-7));
    assert_eq!(cell_to_intermediate(DataType::Int4, NativeCell::Int4(Some(70000))), Intermediate::Int(70000));
    assert_eq!(cell_to_intermediate(DataType::Int8, NativeCell::Int8(Some(i64::MIN))), Intermediate::Int(i64::MIN));
    assert_eq!(
        cell_to_intermediate(DataType::Text, NativeCell::Text(Some("hi".to_string()))),
        Intermediate::Text("hi".to_string())
    );
    assert_eq!(
        cell_to_intermediate(DataType::Json, NativeCell::Json(Some("{\"a\":1}".to_string()))),
        Intermediate::Json("{\"a\":1}".to_string())
    );
}

#[test]
fn finite_floats_decode_and_others_become_null() {
    let half = 1.5f64.to_bits();
    assert_eq!(cell_to_intermediate(DataType::Float8, NativeCell::Float8(Some(half))), Intermediate::Float8(half));
    let quarter = 0.25f32.to_bits();
    assert_eq!(cell_to_intermediate(DataType::Float4, NativeCell::Float4(Some(quarter))), Intermediate::Float4(quarter));
    assert_eq!(
        cell_to_intermediate(DataType::Float8, NativeCell::Float8(Some(f64::NAN.to_bits()))),
        Intermediate::Null
    );
    assert_eq!(
        cell_to_intermediate(DataType::Float8, NativeCell::Float8(Some(f64::INFINITY.to_bits()))),
        Intermediate::Null
    );
    assert_eq!(
        cell_to_intermediate(DataType::Float4, NativeCell::Float4(Some(f32::NEG_INFINITY.to_bits()))),
        Intermediate::Null
    );
}

#[test]
fn null_and_mismatched_cells_become_null() {
    assert_eq!(cell_to_intermediate(DataType::Bool, NativeCell::Bool(None)), Intermediate::Null);
    assert_eq!(cell_to_intermediate(DataType::Text, NativeCell::Text(None)), Intermediate::Null);
    assert_eq!(cell_to_intermediate(DataType::Bool, NativeCell::Int4(Some(1))), Intermediate::Null);
    assert_eq!(cell_to_intermediate(DataType::Unresolved, NativeCell::Int8(Some(3))), Intermediate::Null);
}

#[test]
fn absent_column_has_no_value_and_null_column_has_null() {
    let row = row_to_intermediate(vec![
        cell("id", DataType::Int4, NativeCell::Int4(Some(1))),
        cell("note", DataType::Text, NativeCell::Text(None)),
    ]);
    assert_eq!(get_field_value("missing", DataType::Text, &row), None);
    assert_eq!(get_field_value("note", DataType::Text, &row), Some(FieldValue::Null));
    assert_eq!(get_field_value("id", DataType::Int4, &row), Some(FieldValue::Int(1)));
}

#[test]
fn field_values_narrow_by_declared_type() {
    let row = row_to_intermediate(vec![
        cell("active", DataType::Bool, NativeCell::Bool(Some(false))),
        cell("name", DataType::Varchar, NativeCell::Text(Some("Ada".to_string()))),
        cell("data", DataType::Jsonb, NativeCell::Json(Some("[1]".to_string()))),
    ]);
    assert_eq!(get_field_value("active", DataType::Bool, &row), Some(FieldValue::Bool(false)));
    assert_eq!(get_field_value("name", DataType::Varchar, &row), Some(FieldValue::Text("Ada".to_string())));
    assert_eq!(get_field_value("data", DataType::Jsonb, &row), Some(FieldValue::Json("[1]".to_string())));
    assert_eq!(get_field_value("active", DataType::Text, &row), Some(FieldValue::Null));
}

#[test]
fn later_entry_for_a_name_wins() {
    let row = row_to_intermediate(vec![
        cell("v", DataType::Int8, NativeCell::Int8(Some(1))),
        cell("v", DataType::Int8, NativeCell::Int8(Some(2))),
    ]);
    assert_eq!(row.entries.len(), 2);
    assert_eq!(row.get("v"), Some(&Intermediate::Int(2)));
    assert_eq!(get_field_value("v", DataType::Int8, &row), Some(FieldValue::Int(2)));
}
