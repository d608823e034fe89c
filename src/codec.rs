//! The type-directed value codec: a raw cell, decoded by the database client
//! as the native type that the column's declared type asks for, becomes an
//! intermediate value; an intermediate value becomes a typed field value.

use crate::catalog::DataType;
use crate::text::{chars_of, same_chars};
use vstd::prelude::*;

verus! {

/// The native representation that a declared type is decoded as.
#[derive(Clone, Copy, Debug, PartialEq, Eq, Structural)]
pub enum NativeKind {
    Bool,
    Int2,
    Int4,
    Int8,
    Float4,
    Float8,
    Text,
    Json,
}

/// A cell as the client decoded it. `None` stands for SQL NULL or for a
/// value that the client could not decode as the requested kind. Floats are
/// given by their bit patterns, JSON by its text.
pub enum NativeCell {
    Bool(Option<bool>),
    Int2(Option<i16>),
    Int4(Option<i32>),
    Int8(Option<i64>),
    Float4(Option<u32>),
    Float8(Option<u64>),
    Text(Option<String>),
    Json(Option<String>),
}

/// The codec's decoded value of a cell.
#[derive(Debug, PartialEq)]
pub enum Intermediate {
    Null,
    Bool(bool),
    Int(i64),
    Float4(u32),
    Float8(u64),
    Text(String),
    Json(String),
}

/// A value as the API serves it for one field.
#[derive(Debug, PartialEq)]
pub enum FieldValue {
    Null,
    Bool(bool),
    Int(i64),
    Float4(u32),
    Float8(u64),
    Text(String),
    Json(String),
}

/// One cell of a row: the column's name, its declared type and its value.
pub struct RawCell {
    pub name: String,
    pub data_type: DataType,
    pub value: NativeCell,
}

/// A decoded row: column names with their values. A later entry for a name
/// hides an earlier one.
pub struct IntermediateRow {
    pub entries: Vec<(String, Intermediate)>,
}

pub open spec fn native_kind_of(t: DataType) -> NativeKind {
    match t {
        DataType::Bool => NativeKind::Bool,
        DataType::Int2 => NativeKind::Int2,
        DataType::Int4 => NativeKind::Int4,
        DataType::Int8 => NativeKind::Int8,
        DataType::Float4 => NativeKind::Float4,
        DataType::Float8 => NativeKind::Float8,
        DataType::Json | DataType::Jsonb => NativeKind::Json,
        _ => NativeKind::Text,
    }
}

/// The bit pattern of an `f32` encodes a finite number.
pub open spec fn f32_finite(bits: u32) -> bool {
    (bits >> 23u32) & 0xffu32 != 0xffu32
}

/// The bit pattern of an `f64` encodes a finite number.
pub open spec fn f64_finite(bits: u64) -> bool {
    (bits >> 52u64) & 0x7ffu64 != 0x7ffu64
}

/// The intermediate value of a cell of declared type `t`: the decoded value
/// where the cell holds one of the kind that `t` asks for (and, for floats, a
/// finite one); null otherwise.
pub open spec fn intermediate_of(t: DataType, c: NativeCell) -> Intermediate {
    match native_kind_of(t) {
        NativeKind::Bool => match c {
            NativeCell::Bool(Some(b)) => Intermediate::Bool(b),
            _ => Intermediate::Null,
        },
        NativeKind::Int2 => match c {
            NativeCell::Int2(Some(v)) => Intermediate::Int(v as i64),
            _ => Intermediate::Null,
        },
        NativeKind::Int4 => match c {
            NativeCell::Int4(Some(v)) => Intermediate::Int(v as i64),
            _ => Intermediate::Null,
        },
        NativeKind::Int8 => match c {
            NativeCell::Int8(Some(v)) => Intermediate::Int(v),
            _ => Intermediate::Null,
        },
        NativeKind::Float4 => match c {
            NativeCell::Float4(Some(b)) => if f32_finite(b) {
                Intermediate::Float4(b)
            } else {
                Intermediate::Null
            },
            _ => Intermediate::Null,
        },
        NativeKind::Float8 => match c {
            NativeCell::Float8(Some(b)) => if f64_finite(b) {
                Intermediate::Float8(b)
            } else {
                Intermediate::Null
            },
            _ => Intermediate::Null,
        },
        NativeKind::Text => match c {
            NativeCell::Text(Some(s)) => Intermediate::Text(s),
            _ => Intermediate::Null,
        },
        NativeKind::Json => match c {
            NativeCell::Json(Some(s)) => Intermediate::Json(s),
            _ => Intermediate::Null,
        },
    }
}

/// The value that `name` has in a row with these entries: that of its last
/// entry, if any.
pub open spec fn lookup(entries: Seq<(String, Intermediate)>, name: Seq<char>) -> Option<
    Intermediate,
>
    decreases entries.len(),
{
    if entries.len() == 0 {
        None
    } else if entries.last().0@ == name {
        Some(entries.last().1)
    } else {
        lookup(entries.drop_last(), name)
    }
}

/// `f` is the field value of declared type `t` for the intermediate value
/// `v`: the same value where `v` is of the kind that `t` asks for, null
/// otherwise.
pub open spec fn field_of(t: DataType, v: Intermediate, f: FieldValue) -> bool {
    let k = native_kind_of(t);
    match v {
        Intermediate::Bool(b) if k == NativeKind::Bool => f == FieldValue::Bool(b),
        Intermediate::Int(i) if k == NativeKind::Int2 || k == NativeKind::Int4 || k
            == NativeKind::Int8 => f == FieldValue::Int(i),
        Intermediate::Float4(b) if k == NativeKind::Float4 => f == FieldValue::Float4(b),
        Intermediate::Float8(b) if k == NativeKind::Float8 => f == FieldValue::Float8(b),
        Intermediate::Text(s) if k == NativeKind::Text => match f {
            FieldValue::Text(x) => x@ == s@,
            _ => false,
        },
        Intermediate::Json(s) if k == NativeKind::Json => match f {
            FieldValue::Json(x) => x@ == s@,
            _ => false,
        },
        _ => f == FieldValue::Null,
    }
}

/// The native kind that cells of declared type `t` are decoded as: the
/// type's own for booleans, integers, floats and JSON, text for the rest.
pub fn native_kind(t: DataType) -> (r: NativeKind)
    ensures
        r == native_kind_of(t),
{
    match t {
        DataType::Bool => NativeKind::Bool,
        DataType::Int2 => NativeKind::Int2,
        DataType::Int4 => NativeKind::Int4,
        DataType::Int8 => NativeKind::Int8,
        DataType::Float4 => NativeKind::Float4,
        DataType::Float8 => NativeKind::Float8,
        DataType::Json | DataType::Jsonb => NativeKind::Json,
        _ => NativeKind::Text,
    }
}

/// Decodes a cell of declared type `t`. Never fails: a missing, undecodable
/// or non-finite value becomes null.
pub fn cell_to_intermediate(t: DataType, c: NativeCell) -> (r: Intermediate)
    ensures
        r == intermediate_of(t, c),
{
    match native_kind(t) {
        NativeKind::Bool => match c {
            NativeCell::Bool(Some(b)) => Intermediate::Bool(b),
            _ => Intermediate::Null,
        },
        NativeKind::Int2 => match c {
            NativeCell::Int2(Some(v)) => Intermediate::Int(v as i64),
            _ => Intermediate::Null,
        },
        NativeKind::Int4 => match c {
            NativeCell::Int4(Some(v)) => Intermediate::Int(v as i64),
            _ => Intermediate::Null,
        },
        NativeKind::Int8 => match c {
            NativeCell::Int8(Some(v)) => Intermediate::Int(v),
            _ => Intermediate::Null,
        },
        NativeKind::Float4 => match c {
            NativeCell::Float4(Some(b)) => if (b >> 23u32) & 0xffu32 != 0xffu32 {
                Intermediate::Float4(b)
            } else {
                Intermediate::Null
            },
            _ => Intermediate::Null,
        },
        NativeKind::Float8 => match c {
            NativeCell::Float8(Some(b)) => if (b >> 52u64) & 0x7ffu64 != 0x7ffu64 {
                Intermediate::Float8(b)
            } else {
                Intermediate::Null
            },
            _ => Intermediate::Null,
        },
        NativeKind::Text => match c {
            NativeCell::Text(Some(s)) => Intermediate::Text(s),
            _ => Intermediate::Null,
        },
        NativeKind::Json => match c {
            NativeCell::Json(Some(s)) => Intermediate::Json(s),
            _ => Intermediate::Null,
        },
    }
}

/// Decodes every cell of a row, in order, keyed by column name.
pub fn row_to_intermediate(cells: Vec<RawCell>) -> (r: IntermediateRow)
    ensures
        r.entries@.len() == cells@.len(),
        forall|i: int|
            0 <= i < cells@.len() ==> (#[trigger] r.entries@[i]).0 == cells@[i].name && r.entries@[i].1
                == intermediate_of(cells@[i].data_type, cells@[i].value),
{
    let ghost orig = cells@;
    let mut cells = cells;
    let mut entries: Vec<(String, Intermediate)> = Vec::new();
    while cells.len() > 0
        invariant
            orig.len() == entries@.len() + cells@.len(),
            cells@ == orig.subrange(entries@.len() as int, orig.len() as int),
            forall|i: int|
                0 <= i < entries@.len() ==> (#[trigger] entries@[i]).0 == orig[i].name
                    && entries@[i].1 == intermediate_of(orig[i].data_type, orig[i].value),
        decreases cells@.len(),
    {
        let ghost k = entries@.len() as int;
        let cell = cells.remove(0);
        assert(cell == orig[k]);
        let RawCell { name, data_type, value } = cell;
        entries.push((name, cell_to_intermediate(data_type, value)));
        assert(cells@ =~= orig.subrange(entries@.len() as int, orig.len() as int));
    }
    IntermediateRow { entries }
}

fn copy_value(v: &Intermediate, t: DataType) -> (r: FieldValue)
    ensures
        field_of(t, *v, r),
{
    let k = native_kind(t);
    match v {
        Intermediate::Bool(b) if k == NativeKind::Bool => FieldValue::Bool(*b),
        Intermediate::Int(i) if k == NativeKind::Int2 || k == NativeKind::Int4 || k
            == NativeKind::Int8 => FieldValue::Int(*i),
        Intermediate::Float4(b) if k == NativeKind::Float4 => FieldValue::Float4(*b),
        Intermediate::Float8(b) if k == NativeKind::Float8 => FieldValue::Float8(*b),
        Intermediate::Text(s) if k == NativeKind::Text => FieldValue::Text(s.clone()),
        Intermediate::Json(s) if k == NativeKind::Json => FieldValue::Json(s.clone()),
        _ => FieldValue::Null,
    }
}

impl IntermediateRow {
    /// The value of column `name`, if the row has one.
    pub fn get(&self, name: &str) -> (r: Option<&Intermediate>)
        ensures
            match lookup(self.entries@, name@) {
                None => r is None,
                Some(v) => r == Some(&v),
            },
    {
        let key = chars_of(name);
        let mut i = self.entries.len();
        assert(self.entries@.subrange(0, i as int) =~= self.entries@);
        while i > 0
            invariant
                i <= self.entries@.len(),
                key@ == name@,
                lookup(self.entries@, name@) == lookup(self.entries@.subrange(0, i as int), name@),
            decreases i,
        {
            let ghost pre = self.entries@.subrange(0, i as int);
            assert(pre.drop_last() =~= self.entries@.subrange(0, i - 1));
            let entry_name = chars_of(self.entries[i - 1].0.as_str());
            if same_chars(&entry_name, &key) {
                return Some(&self.entries[i - 1].1);
            }
            i = i - 1;
        }
        None
    }
}

/// The field value of column `column_name`, of declared type `data_type`,
/// in a decoded row: none where the row has no entry for the column (it was
/// not read), and otherwise a value, null included.
pub fn get_field_value(column_name: &str, data_type: DataType, row: &IntermediateRow) -> (r: Option<
    FieldValue,
>)
    ensures
        match lookup(row.entries@, column_name@) {
            None => r is None,
            Some(v) => r matches Some(f) && field_of(data_type, v, f),
        },
{
    match row.get(column_name) {
        Some(v) => Some(copy_value(v, data_type)),
        None => None,
    }
}

} // verus!
