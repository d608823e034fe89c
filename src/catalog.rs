//! The catalog graph: tables and materialized views with their columns,
//! assembled from the rows of the two catalog queries and joined by the
//! catalog's object identifier.

use crate::omit::{omit_of, Omit};
use std::collections::HashMap;
use vstd::prelude::*;

verus! {

broadcast use vstd::std_specs::hash::group_hash_axioms;

#[derive(Clone, Copy, Debug, PartialEq, Eq, Structural)]
pub enum Relkind {
    Table,
    MaterializedView,
}

/// The declared type of a column, as far as the value codec tells types
/// apart. `Other` is a built-in type without a codec of its own;
/// `Unresolved` is a type identifier that is not built in.
#[derive(Clone, Copy, Debug, PartialEq, Eq, Structural)]
pub enum DataType {
    Bool,
    Int2,
    Int4,
    Int8,
    Float4,
    Float8,
    Text,
    Varchar,
    Char,
    CharArray,
    Json,
    Jsonb,
    Other,
    Unresolved,
}

/// A row of the relation query.
pub struct TableRow {
    pub oid: u32,
    pub schema_name: String,
    pub name: String,
    /// The relation-kind code: `'r'` for an ordinary table.
    pub relkind: char,
    pub comment: Option<String>,
}

/// A row of the column query.
pub struct ColumnRow {
    pub table_oid: u32,
    /// The ordinal position of the column in its table.
    pub id: u32,
    pub name: String,
    pub type_oid: u32,
    pub nullable: bool,
    pub comment: Option<String>,
}

#[derive(Clone, Debug)]
pub struct Column {
    pub id: u32,
    pub table_oid: u32,
    pub name: String,
    pub comment: String,
    pub data_type: DataType,
    pub nullable: bool,
    pub omit: Omit,
}

#[derive(Clone, Debug)]
pub struct Table {
    pub oid: u32,
    pub name: String,
    pub schema_name: String,
    pub relkind: Relkind,
    pub comment: String,
    pub columns: Vec<Column>,
    pub omit: Omit,
}

/// The type identifier names a type built into PostgreSQL.
pub uninterp spec fn is_builtin_type(oid: u32) -> bool;

/// Relies on `tokio_postgres::types::Type::from_oid`, which returns a type
/// exactly for the built-in identifiers, the twelve listed here among them.
#[verifier::external_body]
fn builtin_type(oid: u32) -> (r: bool)
    ensures
        r == is_builtin_type(oid),
        (oid == 16 || oid == 18 || oid == 20 || oid == 21 || oid == 23 || oid == 25 || oid == 114
            || oid == 700 || oid == 701 || oid == 1002 || oid == 1043 || oid == 3802) ==> r,
{
    tokio_postgres::types::Type::from_oid(oid).is_some()
}

pub open spec fn data_type_of(oid: u32) -> DataType {
    if !is_builtin_type(oid) {
        DataType::Unresolved
    } else if oid == 16 {
        DataType::Bool
    } else if oid == 21 {
        DataType::Int2
    } else if oid == 23 {
        DataType::Int4
    } else if oid == 20 {
        DataType::Int8
    } else if oid == 700 {
        DataType::Float4
    } else if oid == 701 {
        DataType::Float8
    } else if oid == 25 {
        DataType::Text
    } else if oid == 1043 {
        DataType::Varchar
    } else if oid == 18 {
        DataType::Char
    } else if oid == 1002 {
        DataType::CharArray
    } else if oid == 114 {
        DataType::Json
    } else if oid == 3802 {
        DataType::Jsonb
    } else {
        DataType::Other
    }
}

impl DataType {
    /// The tag of the type with this catalog identifier.
    pub fn from_oid(oid: u32) -> (r: DataType)
        ensures
            r == data_type_of(oid),
    {
        if !builtin_type(oid) {
            DataType::Unresolved
        } else if oid == 16 {
            DataType::Bool
        } else if oid == 21 {
            DataType::Int2
        } else if oid == 23 {
            DataType::Int4
        } else if oid == 20 {
            DataType::Int8
        } else if oid == 700 {
            DataType::Float4
        } else if oid == 701 {
            DataType::Float8
        } else if oid == 25 {
            DataType::Text
        } else if oid == 1043 {
            DataType::Varchar
        } else if oid == 18 {
            DataType::Char
        } else if oid == 1002 {
            DataType::CharArray
        } else if oid == 114 {
            DataType::Json
        } else if oid == 3802 {
            DataType::Jsonb
        } else {
            DataType::Other
        }
    }
}

/// A missing comment reads as the empty one.
pub open spec fn comment_text(c: Option<String>) -> Seq<char> {
    match c {
        Some(s) => s@,
        None => seq![],
    }
}

pub open spec fn relkind_of(code: char) -> Relkind {
    if code == 'r' {
        Relkind::Table
    } else {
        Relkind::MaterializedView
    }
}

/// `c` is the column that the catalog row `row` describes.
pub open spec fn column_from_row(c: Column, row: ColumnRow) -> bool {
    &&& c.id == row.id
    &&& c.table_oid == row.table_oid
    &&& c.name@ == row.name@
    &&& c.comment@ == comment_text(row.comment)
    &&& c.data_type == data_type_of(row.type_oid)
    &&& c.nullable == row.nullable
    &&& c.omit == omit_of(comment_text(row.comment))
}

/// `t` is the table that the catalog row `row` describes (columns aside).
pub open spec fn table_from_row(t: Table, row: TableRow) -> bool {
    &&& t.oid == row.oid
    &&& t.schema_name@ == row.schema_name@
    &&& t.name@ == row.name@
    &&& t.relkind == relkind_of(row.relkind)
    &&& t.comment@ == comment_text(row.comment)
    &&& t.omit == omit_of(comment_text(row.comment))
}

/// `a` and `b` agree on everything but their columns.
pub open spec fn same_header(a: Table, b: Table) -> bool {
    &&& a.oid == b.oid
    &&& a.name == b.name
    &&& a.schema_name == b.schema_name
    &&& a.relkind == b.relkind
    &&& a.comment == b.comment
    &&& a.omit == b.omit
}

/// The first index below `n` whose identifier is `oid`.
pub open spec fn first_below(oids: Seq<u32>, oid: u32, n: int) -> Option<int>
    decreases n,
{
    if n <= 0 {
        None
    } else {
        match first_below(oids, oid, n - 1) {
            Some(i) => Some(i),
            None => if oids[n - 1] == oid {
                Some(n - 1)
            } else {
                None
            },
        }
    }
}

/// The table that owns a column with owner identifier `oid`: the first
/// table with that identifier, if any.
pub open spec fn owner(oids: Seq<u32>, oid: u32) -> Option<int> {
    first_below(oids, oid, oids.len() as int)
}

/// The positions, in order, among the first `n` columns (given by their
/// owner identifiers) of those that table `j` owns.
pub open spec fn owned_positions(oids: Seq<u32>, col_oids: Seq<u32>, j: int, n: int) -> Seq<int>
    decreases n,
{
    if n <= 0 {
        seq![]
    } else {
        let prev = owned_positions(oids, col_oids, j, n - 1);
        if owner(oids, col_oids[n - 1]) == Some(j) {
            prev.push(n - 1)
        } else {
            prev
        }
    }
}

pub open spec fn table_oids(ts: Seq<Table>) -> Seq<u32> {
    ts.map_values(|t: Table| t.oid)
}

pub open spec fn column_oids(cs: Seq<Column>) -> Seq<u32> {
    cs.map_values(|c: Column| c.table_oid)
}

pub open spec fn row_oids(rows: Seq<TableRow>) -> Seq<u32> {
    rows.map_values(|r: TableRow| r.oid)
}

pub open spec fn column_row_oids(rows: Seq<ColumnRow>) -> Seq<u32> {
    rows.map_values(|r: ColumnRow| r.table_oid)
}

/// The columns that table `j` gets from `cols`, in their order.
pub open spec fn owned_columns(oids: Seq<u32>, cols: Seq<Column>, j: int) -> Seq<Column> {
    owned_positions(oids, column_oids(cols), j, cols.len() as int).map_values(|i: int| cols[i])
}

/// The column rows that table `j` owns, in order.
pub open spec fn owned_rows(oids: Seq<u32>, rows: Seq<ColumnRow>, j: int) -> Seq<ColumnRow> {
    owned_positions(oids, column_row_oids(rows), j, rows.len() as int).map_values(|i: int| rows[i])
}

proof fn lemma_orphan_prefix(oids: Seq<u32>, rows: Seq<ColumnRow>, k: int, j: int, n: int)
    requires
        0 <= k < rows.len(),
        owner(oids, rows[k].table_oid) is None,
        0 <= n <= rows.len(),
    ensures
        owned_positions(oids, column_row_oids(rows), j, n).map_values(|i: int| rows[i])
            == owned_positions(
            oids,
            column_row_oids(rows.remove(k)),
            j,
            if n <= k {
                n
            } else {
                n - 1
            },
        ).map_values(|i: int| rows.remove(k)[i]),
    decreases n,
{
    let co = column_row_oids(rows);
    let rest = rows.remove(k);
    let cr = column_row_oids(rest);
    if n > 0 {
        lemma_orphan_prefix(oids, rows, k, j, n - 1);
        let left = owned_positions(oids, co, j, n - 1);
        if n - 1 == k {
            assert(co[k] == rows[k].table_oid);
        } else {
            let m = if n - 1 < k {
                n - 1
            } else {
                n - 2
            };
            let right = owned_positions(oids, cr, j, m);
            assert(rest[m] == rows[n - 1]);
            assert(cr[m] == co[n - 1]);
            if owner(oids, co[n - 1]) == Some(j) {
                assert(left.push(n - 1).map_values(|i: int| rows[i]) =~= left.map_values(
                    |i: int| rows[i],
                ).push(rows[n - 1]));
                assert(right.push(m).map_values(|i: int| rest[i]) =~= right.map_values(
                    |i: int| rest[i],
                ).push(rest[m]));
            }
        }
    }
}

/// A column row whose owner identifier matches no table changes nothing:
/// every table owns the same rows with it as without it.
pub proof fn lemma_orphan_row_is_ignored(oids: Seq<u32>, rows: Seq<ColumnRow>, k: int, j: int)
    requires
        0 <= k < rows.len(),
        owner(oids, rows[k].table_oid) is None,
    ensures
        owned_rows(oids, rows.remove(k), j) == owned_rows(oids, rows, j),
{
    lemma_orphan_prefix(oids, rows, k, j, rows.len() as int);
}

/// Column rows whose owner identifier is `oid`.
pub open spec fn has_owner(oid: u32) -> spec_fn(ColumnRow) -> bool {
    |r: ColumnRow| r.table_oid == oid
}

proof fn lemma_unique_owner_prefix(oids: Seq<u32>, rows: Seq<ColumnRow>, j: int, n: int)
    requires
        0 <= j < oids.len(),
        forall|i: int| 0 <= i < oids.len() && i != j ==> oids[i] != oids[j],
        0 <= n <= rows.len(),
    ensures
        owned_positions(oids, column_row_oids(rows), j, n).map_values(|i: int| rows[i])
            == rows.subrange(0, n).filter(has_owner(oids[j])),
    decreases n,
{
    reveal(Seq::filter);
    let co = column_row_oids(rows);
    if n == 0 {
        assert(rows.subrange(0, 0).filter(has_owner(oids[j])) =~= Seq::<ColumnRow>::empty());
        assert(owned_positions(oids, co, j, 0).map_values(|i: int| rows[i])
            =~= Seq::<ColumnRow>::empty());
    } else {
        lemma_unique_owner_prefix(oids, rows, j, n - 1);
        let sub = rows.subrange(0, n);
        assert(sub.drop_last() =~= rows.subrange(0, n - 1));
        assert(sub.last() == rows[n - 1]);
        let o = co[n - 1];
        assert(o == rows[n - 1].table_oid);
        lemma_first_below(oids, o, oids.len() as int);
        lemma_owner_is_table_with_oid(oids, j);
        assert(owner(oids, o) == Some(j) <==> o == oids[j]);
        let prev = owned_positions(oids, co, j, n - 1);
        if o == oids[j] {
            assert(prev.push(n - 1).map_values(|i: int| rows[i]) =~= prev.map_values(
                |i: int| rows[i],
            ).push(rows[n - 1]));
        }
    }
}

/// Where no other table has table `j`'s identifier, table `j` owns exactly
/// the column rows with that owner identifier, in order: tables that share
/// a name in different schemas never share columns.
pub proof fn lemma_table_owns_rows_with_its_oid(oids: Seq<u32>, rows: Seq<ColumnRow>, j: int)
    requires
        0 <= j < oids.len(),
        forall|i: int| 0 <= i < oids.len() && i != j ==> oids[i] != oids[j],
    ensures
        owned_rows(oids, rows, j) == rows.filter(has_owner(oids[j])),
{
    lemma_unique_owner_prefix(oids, rows, j, rows.len() as int);
    assert(rows.subrange(0, rows.len() as int) =~= rows);
}

fn copy_text(s: &String) -> (r: String)
    ensures
        r@ == s@,
{
    s.clone()
}

fn comment_or_empty(c: &Option<String>) -> (r: String)
    ensures
        r@ == comment_text(*c),
{
    match c {
        Some(s) => s.clone(),
        None => String::new(),
    }
}

impl Column {
    /// The column that a row of the column query describes.
    pub fn form_row(row: &ColumnRow) -> (r: Column)
        ensures
            column_from_row(r, *row),
    {
        let comment = comment_or_empty(&row.comment);
        let omit = Omit::new(comment.as_str());
        Column {
            id: row.id,
            table_oid: row.table_oid,
            name: copy_text(&row.name),
            comment,
            data_type: DataType::from_oid(row.type_oid),
            nullable: row.nullable,
            omit,
        }
    }

    pub fn table_oid(&self) -> (r: &u32)
        ensures
            *r == self.table_oid,
    {
        &self.table_oid
    }

    pub fn name(&self) -> (r: &String)
        ensures
            *r == self.name,
    {
        &self.name
    }
}

impl Table {
    /// The table that a row of the relation query describes, with no
    /// columns yet.
    pub fn from_row(row: &TableRow) -> (r: Table)
        ensures
            table_from_row(r, *row),
            r.columns@.len() == 0,
    {
        let comment = comment_or_empty(&row.comment);
        let omit = Omit::new(comment.as_str());
        Table {
            oid: row.oid,
            name: copy_text(&row.name),
            schema_name: copy_text(&row.schema_name),
            relkind: if row.relkind == 'r' {
                Relkind::Table
            } else {
                Relkind::MaterializedView
            },
            comment,
            columns: Vec::new(),
            omit,
        }
    }

    pub fn push_column(&mut self, column: Column)
        ensures
            same_header(*final(self), *old(self)),
            final(self).columns@ == old(self).columns@.push(column),
    {
        self.columns.push(column);
    }

    pub fn columns(&self) -> (r: &[Column])
        ensures
            r@ == self.columns@,
    {
        self.columns.as_slice()
    }

    pub fn oid(&self) -> (r: &u32)
        ensures
            *r == self.oid,
    {
        &self.oid
    }
}

proof fn lemma_first_below(oids: Seq<u32>, oid: u32, n: int)
    ensures
        match first_below(oids, oid, n) {
            Some(i) => 0 <= i < n && oids[i] == oid,
            None => true,
        },
    decreases n,
{
    if n > 0 {
        lemma_first_below(oids, oid, n - 1);
    }
}

proof fn lemma_first_below_unique(oids: Seq<u32>, j: int, n: int)
    requires
        0 <= j < oids.len(),
        n <= oids.len(),
        forall|i: int| 0 <= i < oids.len() && i != j ==> oids[i] != oids[j],
    ensures
        first_below(oids, oids[j], n) == if j < n {
            Some(j)
        } else {
            None::<int>
        },
    decreases n,
{
    if n > 0 {
        lemma_first_below_unique(oids, j, n - 1);
    }
}

/// Where no other table has table `j`'s identifier, the owner of a column
/// with that owner identifier is table `j`, whatever the tables are named.
pub proof fn lemma_owner_is_table_with_oid(oids: Seq<u32>, j: int)
    requires
        0 <= j < oids.len(),
        forall|i: int| 0 <= i < oids.len() && i != j ==> oids[i] != oids[j],
    ensures
        owner(oids, oids[j]) == Some(j),
{
    lemma_first_below_unique(oids, j, oids.len() as int);
}

proof fn lemma_owned_positions(oids: Seq<u32>, col_oids: Seq<u32>, j: int, n: int)
    ensures
        forall|k: int|
            0 <= k < owned_positions(oids, col_oids, j, n).len() ==> {
                let p = #[trigger] owned_positions(oids, col_oids, j, n)[k];
                0 <= p < n && owner(oids, col_oids[p]) == Some(j)
            },
    decreases n,
{
    if n > 0 {
        lemma_owned_positions(oids, col_oids, j, n - 1);
    }
}

/// Appends each column, in order, to the first table whose identifier is the
/// column's owner identifier. A column whose owner is none of the tables is
/// dropped.
pub fn map_columns_to_table(tables: &mut Vec<Table>, columns: Vec<Column>)
    ensures
        final(tables)@.len() == old(tables)@.len(),
        forall|j: int|
            0 <= j < old(tables)@.len() ==> same_header(#[trigger] final(tables)@[j], old(tables)@[j])
                && final(tables)@[j].columns@ == old(tables)@[j].columns@ + owned_columns(
                table_oids(old(tables)@),
                columns@,
                j,
            ),
{
    let ghost start = tables@;
    let ghost oids = table_oids(start);
    let n = tables.len();
    let mut index: HashMap<u32, usize> = HashMap::new();
    let mut j: usize = 0;
    while j < n
        invariant
            n == tables@.len(),
            tables@ == start,
            oids == table_oids(start),
            j <= n,
            forall|o: u32|
                match #[trigger] first_below(oids, o, j as int) {
                    Some(i) => index@.contains_key(o) && index@[o] as int == i,
                    None => !index@.contains_key(o),
                },
        decreases n - j,
    {
        let oid = tables[j].oid;
        assert(oids[j as int] == oid);
        match index.get(&oid) {
            Some(_) => {},
            None => {
                index.insert(oid, j);
            },
        }
        assert forall|o: u32|
            match #[trigger] first_below(oids, o, j + 1) {
                Some(i) => index@.contains_key(o) && index@[o] as int == i,
                None => !index@.contains_key(o),
            } by {
            assert(first_below(oids, o, j + 1) == match first_below(oids, o, j as int) {
                Some(i) => Some(i),
                None => if oids[j as int] == o {
                    Some(j as int)
                } else {
                    None
                },
            });
        }
        j = j + 1;
    }
    let ghost orig = columns@;
    let ghost col_oids = column_oids(orig);
    let mut columns = columns;
    assert(orig.subrange(0, orig.len() as int) =~= orig);
    assert forall|jj: int| 0 <= jj < n implies same_header(#[trigger] tables@[jj], start[jj])
        && tables@[jj].columns@ == start[jj].columns@ + owned_positions(
        oids,
        col_oids,
        jj,
        0,
    ).map_values(|i: int| orig[i]) by {
        assert(start[jj].columns@ + Seq::<Column>::empty() =~= start[jj].columns@);
    }
    while columns.len() > 0
        invariant
            tables@.len() == n,
            n == start.len(),
            oids == table_oids(start),
            orig.len() >= columns@.len(),
            columns@ == orig.subrange(orig.len() - columns@.len(), orig.len() as int),
            col_oids == column_oids(orig),
            forall|o: u32|
                match #[trigger] first_below(oids, o, n as int) {
                    Some(i) => index@.contains_key(o) && index@[o] as int == i,
                    None => !index@.contains_key(o),
                },
            forall|jj: int|
                0 <= jj < n ==> same_header(#[trigger] tables@[jj], start[jj]) && tables@[jj].columns@
                    == start[jj].columns@ + owned_positions(
                    oids,
                    col_oids,
                    jj,
                    orig.len() - columns@.len(),
                ).map_values(|i: int| orig[i]),
        decreases columns@.len(),
    {
        let ghost p = orig.len() - columns@.len();
        let ghost before = tables@;
        let col = columns.remove(0);
        assert(col == orig[p]);
        assert(col_oids[p] == col.table_oid);
        assert(columns@ =~= orig.subrange(p + 1, orig.len() as int));
        let ghost o = col.table_oid;
        assert(owner(oids, o) == first_below(oids, o, n as int));
        proof {
            lemma_first_below(oids, o, n as int);
        }
        match index.get(&col.table_oid) {
            Some(jr) => {
                let jj = *jr;
                let mut t = tables.remove(jj);
                t.push_column(col);
                tables.insert(jj, t);
                assert(tables@ =~= before.update(jj as int, t));
            },
            None => {},
        }
        assert forall|jj: int| 0 <= jj < n implies same_header(#[trigger] tables@[jj], start[jj])
            && tables@[jj].columns@ == start[jj].columns@ + owned_positions(
            oids,
            col_oids,
            jj,
            p + 1,
        ).map_values(|i: int| orig[i]) by {
            let prev = owned_positions(oids, col_oids, jj, p);
            if owner(oids, col_oids[p]) == Some(jj) {
                assert(prev.push(p).map_values(|i: int| orig[i]) =~= prev.map_values(
                    |i: int| orig[i],
                ).push(orig[p]));
                assert(start[jj].columns@ + prev.map_values(|i: int| orig[i]).push(orig[p])
                    =~= (start[jj].columns@ + prev.map_values(|i: int| orig[i])).push(orig[p]));
            }
        }
    }
    assert(orig.len() - columns@.len() == orig.len());
}

/// Builds the catalog graph from the rows of the relation query and of the
/// column query: one table per relation row, in order, each with the columns
/// that it owns by identifier, in the order of the column rows. Column rows
/// whose owner identifier matches no relation row are dropped.
pub fn load_catalog(table_rows: &Vec<TableRow>, column_rows: &Vec<ColumnRow>) -> (r: Vec<Table>)
    ensures
        r@.len() == table_rows@.len(),
        forall|j: int| 0 <= j < r@.len() ==> table_from_row(#[trigger] r@[j], table_rows@[j]),
        forall|j: int|
            0 <= j < r@.len() ==> {
                let pos = owned_positions(
                    row_oids(table_rows@),
                    column_row_oids(column_rows@),
                    j,
                    column_rows@.len() as int,
                );
                &&& (#[trigger] r@[j]).columns@.len() == pos.len()
                &&& forall|i: int|
                    0 <= i < pos.len() ==> column_from_row(
                        #[trigger] r@[j].columns@[i],
                        column_rows@[pos[i]],
                    )
            },
        forall|j: int, i: int|
            0 <= j < r@.len() && 0 <= i < r@[j].columns@.len() ==> (#[trigger] r@[j].columns@[i]).table_oid
                == r@[j].oid,
{
    let mut tables: Vec<Table> = Vec::new();
    let mut k: usize = 0;
    while k < table_rows.len()
        invariant
            k <= table_rows@.len(),
            tables@.len() == k,
            forall|j: int|
                0 <= j < k ==> table_from_row(#[trigger] tables@[j], table_rows@[j])
                    && tables@[j].columns@.len() == 0,
        decreases table_rows@.len() - k,
    {
        tables.push(Table::from_row(&table_rows[k]));
        k = k + 1;
    }
    let mut columns: Vec<Column> = Vec::new();
    let mut k: usize = 0;
    while k < column_rows.len()
        invariant
            k <= column_rows@.len(),
            columns@.len() == k,
            forall|i: int| 0 <= i < k ==> column_from_row(#[trigger] columns@[i], column_rows@[i]),
        decreases column_rows@.len() - k,
    {
        columns.push(Column::form_row(&column_rows[k]));
        k = k + 1;
    }
    let ghost start = tables@;
    let ghost cols = columns@;
    assert(table_oids(start) =~= row_oids(table_rows@));
    assert(column_oids(cols) =~= column_row_oids(column_rows@));
    map_columns_to_table(&mut tables, columns);
    let ghost oids = row_oids(table_rows@);
    let ghost col_oids = column_row_oids(column_rows@);
    assert forall|j: int| 0 <= j < tables@.len() implies table_from_row(
        #[trigger] tables@[j],
        table_rows@[j],
    ) by {
        assert(same_header(tables@[j], start[j]));
    }
    assert forall|j: int| 0 <= j < tables@.len() implies {
        let pos = owned_positions(oids, col_oids, j, column_rows@.len() as int);
        &&& (#[trigger] tables@[j]).columns@.len() == pos.len()
        &&& forall|i: int|
            0 <= i < pos.len() ==> column_from_row(
                #[trigger] tables@[j].columns@[i],
                column_rows@[pos[i]],
            )
    } by {
        let pos = owned_positions(oids, col_oids, j, column_rows@.len() as int);
        lemma_owned_positions(oids, col_oids, j, column_rows@.len() as int);
        assert(tables@[j].columns@ =~= start[j].columns@ + pos.map_values(|i: int| cols[i]));
        assert(tables@[j].columns@ =~= pos.map_values(|i: int| cols[i]));
        assert forall|i: int| 0 <= i < pos.len() implies column_from_row(
            #[trigger] tables@[j].columns@[i],
            column_rows@[pos[i]],
        ) by {
            assert(0 <= pos[i] < cols.len());
        }
    }
    assert forall|j: int, i: int|
        0 <= j < tables@.len() && 0 <= i < tables@[j].columns@.len() implies (
        #[trigger] tables@[j].columns@[i]).table_oid == tables@[j].oid by {
        let pos = owned_positions(oids, col_oids, j, column_rows@.len() as int);
        lemma_owned_positions(oids, col_oids, j, column_rows@.len() as int);
        let p = pos[i];
        assert(column_from_row(tables@[j].columns@[i], column_rows@[p]));
        assert(col_oids[p] == column_rows@[p].table_oid);
        lemma_first_below(oids, col_oids[p], oids.len() as int);
        assert(same_header(tables@[j], start[j]));
        assert(oids[j] == table_rows@[j].oid);
    }
    tables
}

} // verus!
