//! Entity and field descriptors generated from the catalog graph: one entity
//! per table that may be read, one field per column that may be read.

use crate::catalog::{Column, DataType, Table};
use crate::inflection::{camel_of, singular_of, singularizable, singularize, to_camel_case};
use crate::text::{chars_of, unicode_upper};
use crate::omit::{union_of, Omit};
use vstd::prelude::*;

verus! {

pub struct FieldDescriptor {
    /// The camelCase name of the field.
    pub name: String,
    /// The column's name in the database.
    pub column_name: String,
    pub data_type: DataType,
    pub nullable: bool,
    /// The operations withheld by the column or by its table.
    pub omit: Omit,
}

pub struct EntityDescriptor {
    /// The singular camelCase name of one row.
    pub name: String,
    /// The table's name in the database, used for the collection.
    pub table_name: String,
    pub schema_name: String,
    pub omit: Omit,
    pub fields: Vec<FieldDescriptor>,
}

/// The positions, in order, of the first `n` flags that are set.
pub open spec fn kept_positions(flags: Seq<bool>, n: int) -> Seq<int>
    decreases n,
{
    if n <= 0 {
        seq![]
    } else if flags[n - 1] {
        kept_positions(flags, n - 1).push(n - 1)
    } else {
        kept_positions(flags, n - 1)
    }
}

pub open spec fn readable_columns(cols: Seq<Column>) -> Seq<int> {
    kept_positions(cols.map_values(|c: Column| !c.omit.read), cols.len() as int)
}

pub open spec fn readable_tables(tables: Seq<Table>) -> Seq<int> {
    kept_positions(tables.map_values(|t: Table| !t.omit.read), tables.len() as int)
}

/// `f` is the field generated for column `c` of a table with mask `table_omit`.
pub open spec fn field_from_column(f: FieldDescriptor, c: Column, table_omit: Omit) -> bool {
    &&& f.name@ == camel_of(c.name@)
    &&& f.column_name@ == c.name@
    &&& f.data_type == c.data_type
    &&& f.nullable == c.nullable
    &&& f.omit == union_of(table_omit, c.omit)
}

/// The name of the entity of a table named `table_name`: the singular of
/// the name's camelCase form, except where that form is not ASCII and starts
/// with an uppercase character (the first word was empty), which is kept as
/// it is.
pub open spec fn entity_name(table_name: Seq<char>) -> Seq<char> {
    let camel = camel_of(table_name);
    if singularizable(camel) {
        singular_of(camel)
    } else {
        camel
    }
}

/// `e` is the entity generated for table `t`: named by `entity_name`, with
/// one field per readable column, in column order.
pub open spec fn entity_from_table(e: EntityDescriptor, t: Table) -> bool {
    let pos = readable_columns(t.columns@);
    &&& e.name@ == entity_name(t.name@)
    &&& e.table_name@ == t.name@
    &&& e.schema_name@ == t.schema_name@
    &&& e.omit == t.omit
    &&& e.fields@.len() == pos.len()
    &&& forall|i: int|
        0 <= i < pos.len() ==> field_from_column(
            #[trigger] e.fields@[i],
            t.columns@[pos[i]],
            t.omit,
        )
}

proof fn lemma_kept_positions(flags: Seq<bool>, n: int)
    ensures
        forall|k: int|
            0 <= k < kept_positions(flags, n).len() ==> {
                let p = #[trigger] kept_positions(flags, n)[k];
                0 <= p < n && flags[p]
            },
        forall|p: int| 0 <= p < n && flags[p] ==> kept_positions(flags, n).contains(p),
    decreases n,
{
    if n > 0 {
        lemma_kept_positions(flags, n - 1);
        let prev = kept_positions(flags, n - 1);
        if flags[n - 1] {
            assert forall|p: int| 0 <= p < n && flags[p] implies kept_positions(
                flags,
                n,
            ).contains(p) by {
                if p < n - 1 {
                    let k = choose|k: int| 0 <= k < prev.len() && prev[k] == p;
                    assert(kept_positions(flags, n)[k] == p);
                } else {
                    assert(kept_positions(flags, n)[prev.len() as int] == p);
                }
            }
        }
    }
}

/// The field for column `c` of a table with mask `table_omit`.
pub fn generate_field(c: &Column, table_omit: &Omit) -> (r: FieldDescriptor)
    ensures
        field_from_column(r, *c, *table_omit),
{
    FieldDescriptor {
        name: to_camel_case(c.name.as_str()),
        column_name: c.name.clone(),
        data_type: c.data_type,
        nullable: c.nullable,
        omit: table_omit.union(&c.omit),
    }
}

/// The entity for `table`, or none where the table withholds reads.
pub fn generate_entity(table: &Table) -> (r: Option<EntityDescriptor>)
    ensures
        table.omit.read <==> r is None,
        r matches Some(e) ==> entity_from_table(e, *table),
{
    if table.omit.read {
        return None;
    }
    let cols = table.columns();
    let ghost flags = table.columns@.map_values(|c: Column| !c.omit.read);
    let mut fields: Vec<FieldDescriptor> = Vec::new();
    let mut k: usize = 0;
    while k < cols.len()
        invariant
            cols@ == table.columns@,
            flags == table.columns@.map_values(|c: Column| !c.omit.read),
            k <= cols@.len(),
            fields@.len() == kept_positions(flags, k as int).len(),
            forall|i: int|
                0 <= i < fields@.len() ==> field_from_column(
                    #[trigger] fields@[i],
                    cols@[kept_positions(flags, k as int)[i]],
                    table.omit,
                ),
        decreases cols@.len() - k,
    {
        if !cols[k].omit.read {
            let f = generate_field(&cols[k], &table.omit);
            fields.push(f);
        }
        k = k + 1;
    }
    let camel = to_camel_case(table.name.as_str());
    let first = chars_of(camel.as_str());
    let name = if camel.as_str().is_ascii() || first.len() == 0 || !unicode_upper(first[0]) {
        singularize(camel.as_str())
    } else {
        camel
    };
    Some(
        EntityDescriptor {
            name,
            table_name: table.name.clone(),
            schema_name: table.schema_name.clone(),
            omit: table.omit,
            fields,
        },
    )
}

/// One entity per table that may be read, in table order.
pub fn generate_entities(tables: &Vec<Table>) -> (r: Vec<EntityDescriptor>)
    ensures
        r@.len() == readable_tables(tables@).len(),
        forall|i: int|
            0 <= i < r@.len() ==> entity_from_table(
                #[trigger] r@[i],
                tables@[readable_tables(tables@)[i]],
            ),
{
    let ghost flags = tables@.map_values(|t: Table| !t.omit.read);
    let mut out: Vec<EntityDescriptor> = Vec::new();
    let mut k: usize = 0;
    while k < tables.len()
        invariant
            flags == tables@.map_values(|t: Table| !t.omit.read),
            k <= tables@.len(),
            out@.len() == kept_positions(flags, k as int).len(),
            forall|i: int|
                0 <= i < out@.len() ==> entity_from_table(
                    #[trigger] out@[i],
                    tables@[kept_positions(flags, k as int)[i]],
                ),
        decreases tables@.len() - k,
    {
        match generate_entity(&tables[k]) {
            Some(e) => out.push(e),
            None => {},
        }
        k = k + 1;
    }
    out
}

/// A table that withholds reads yields no entity, whatever its columns say;
/// every table that allows reads yields one.
pub proof fn lemma_read_omitted_table_has_no_entity(tables: Seq<Table>, j: int)
    requires
        0 <= j < tables.len(),
    ensures
        tables[j].omit.read <==> !readable_tables(tables).contains(j),
{
    let flags = tables.map_values(|t: Table| !t.omit.read);
    lemma_kept_positions(flags, tables.len() as int);
    assert(flags[j] == !tables[j].omit.read);
    if readable_tables(tables).contains(j) {
        let k = choose|k: int|
            0 <= k < readable_tables(tables).len() && readable_tables(tables)[k] == j;
        assert(flags[readable_tables(tables)[k]]);
        assert(flags[j]);
    }
}

/// A field is generated exactly for each column that neither it nor its
/// table withholds from reads.
pub proof fn lemma_readable_column_has_field(t: Table, c: int)
    requires
        0 <= c < t.columns@.len(),
    ensures
        t.omit.read || t.columns@[c].omit.read <==> !(!t.omit.read && readable_columns(
            t.columns@,
        ).contains(c)),
{
    let flags = t.columns@.map_values(|x: Column| !x.omit.read);
    lemma_kept_positions(flags, t.columns@.len() as int);
    assert(flags[c] == !t.columns@[c].omit.read);
    if readable_columns(t.columns@).contains(c) {
        let k = choose|k: int|
            0 <= k < readable_columns(t.columns@).len() && readable_columns(t.columns@)[k] == c;
        assert(flags[readable_columns(t.columns@)[k]]);
        assert(flags[c]);
    }
}

} // verus!
