//! Table and column definitions, fixed when the store is made.

use vstd::prelude::*;
use crate::value::ValueType;

verus! {

/// One column of a table.
#[derive(Debug)]
pub struct ColumnMetadata {
    /// The column's name, which the engine does not read.
    pub c_name: String,
    /// The type that every value of the column has.
    pub c_type: ValueType,
    /// For a `Foreign` column, the id of the table whose rows it refers to.
    pub c_ref: i32,
}

/// One table: its columns in order. A table's id is its place in the schema,
/// counted from `1`.
#[derive(Debug)]
pub struct TableMetadata {
    /// The table's name, which the engine does not read.
    pub t_name: String,
    /// The columns, the first of which has column id `1`.
    pub t_cols: Vec<ColumnMetadata>,
}

/// Whether every `Foreign` column of the table names a table among `tables`
/// many.
pub open spec fn table_valid(table: TableMetadata, tables: int) -> bool {
    forall|c: int|
        0 <= c < table.t_cols@.len() && (#[trigger] table.t_cols@[c]).c_type == ValueType::Foreign
            ==> 1 <= table.t_cols@[c].c_ref <= tables
}

/// Whether every table of the schema has a table id, and every `Foreign`
/// column names a table of the schema.
pub open spec fn schema_valid(schema: Seq<TableMetadata>) -> bool {
    &&& schema.len() <= i32::MAX
    &&& forall|t: int|
        0 <= t < schema.len() ==> table_valid(#[trigger] schema[t], schema.len() as int)
}

/// Whether `id` is the id of one of `count` many items numbered from `1`.
pub fn id_in_range(id: i32, count: usize) -> (valid: bool)
    ensures
        valid == (1 <= id <= count),
{
    id >= 1 && id as usize <= count
}

/// Decides [`table_valid`].
fn table_is_valid(table: &TableMetadata, tables: usize) -> (valid: bool)
    ensures
        valid == table_valid(*table, tables as int),
{
    let mut c: usize = 0;
    while c < table.t_cols.len()
        invariant
            c <= table.t_cols@.len(),
            forall|j: int|
                0 <= j < c && (#[trigger] table.t_cols@[j]).c_type == ValueType::Foreign ==> 1
                    <= table.t_cols@[j].c_ref <= tables,
        decreases table.t_cols@.len() - c,
    {
        if table.t_cols[c].c_type == ValueType::Foreign && !id_in_range(
            table.t_cols[c].c_ref,
            tables,
        ) {
            return false;
        }
        c = c + 1;
    }
    true
}

/// Decides [`schema_valid`], which [`crate::database::Database::new`] asks of
/// its argument.
pub fn schema_is_valid(schema: &Vec<TableMetadata>) -> (valid: bool)
    ensures
        valid == schema_valid(schema@),
{
    if schema.len() > 0x7fff_ffff {
        return false;
    }
    let mut t: usize = 0;
    while t < schema.len()
        invariant
            t <= schema@.len(),
            schema@.len() <= i32::MAX,
            forall|j: int| 0 <= j < t ==> table_valid(#[trigger] schema@[j], schema@.len() as int),
        decreases schema@.len() - t,
    {
        if !table_is_valid(&schema[t], schema.len()) {
            return false;
        }
        t = t + 1;
    }
    true
}

} // verus!
