//! The store as a mathematical state, and what each request makes of it.

use vstd::prelude::*;
use crate::packet::{
    CommandView,
    ErrorCode,
    RequestView,
    ResponseView,
    OP_AL,
    OP_EQ,
    OP_GE,
    OP_GT,
    OP_LE,
    OP_LT,
    OP_NE,
};
use crate::schema::{schema_valid, ColumnMetadata, TableMetadata};
use crate::value::{value_eq, value_le, value_lt, ValueType, ValueView};

verus! {

/// A stored row: its version and its values, one for each column.
pub struct RowView {
    pub version: i64,
    pub values: Seq<ValueView>,
}

/// The state of a store.
pub struct DbView {
    /// The tables' definitions; table id `t` is `schema[t - 1]`.
    pub schema: Seq<TableMetadata>,
    /// For each table, its rows by row id.
    pub tables: Seq<Map<i64, RowView>>,
    /// The id that the next inserted row gets.
    pub next_row_key: i64,
    /// The reverse-reference index: `(k, t, r)` is in it when row `r` of
    /// table `t` is recorded as referring to row `k`.
    pub index: Set<(i64, i32, i64)>,
}

/// Whether one of the values is a reference to the row `target`.
pub open spec fn holds_reference(values: Seq<ValueView>, target: i64) -> bool {
    exists|i: int| 0 <= i < values.len() && (#[trigger] values[i]).refers_to(target)
}

/// Whether each value has the type of the column at its position.
pub open spec fn tags_match(values: Seq<ValueView>, columns: Seq<ColumnMetadata>) -> bool {
    forall|i: int|
        0 <= i < values.len() && i < columns.len() ==> (#[trigger] values[i]).tag()
            == columns[i].c_type
}

/// Whether `value`, taken from a row, satisfies a predicate's operator and
/// comparand.
pub open spec fn satisfies(operator: i32, value: ValueView, comparand: ValueView) -> bool {
    if operator == OP_EQ {
        value_eq(value, comparand)
    } else if operator == OP_NE {
        !value_eq(value, comparand)
    } else if operator == OP_LT {
        value_lt(value, comparand)
    } else if operator == OP_GT {
        value_lt(comparand, value)
    } else if operator == OP_LE {
        value_le(value, comparand)
    } else if operator == OP_GE {
        value_le(comparand, value)
    } else {
        operator == OP_AL
    }
}

/// Whether the operator asks for an order, not only for equality.
pub open spec fn is_ordered_operator(operator: i32) -> bool {
    operator == OP_LT || operator == OP_GT || operator == OP_LE || operator == OP_GE
}

impl DbView {
    /// The state of a new store with the given tables: no rows, and `1` as
    /// the first row id.
    pub open spec fn initial(schema: Seq<TableMetadata>) -> DbView {
        DbView {
            schema,
            tables: Seq::new(schema.len(), |t: int| Map::empty()),
            next_row_key: 1,
            index: Set::empty(),
        }
    }

    /// Whether `table_id` names a table.
    pub open spec fn valid_table(self, table_id: i32) -> bool {
        1 <= table_id <= self.tables.len()
    }

    /// The columns of a table.
    pub open spec fn columns(self, table_id: i32) -> Seq<ColumnMetadata> {
        self.schema[table_id - 1].t_cols@
    }

    /// Whether the table holds a row with this id.
    pub open spec fn has_row(self, table_id: i32, row_id: i64) -> bool {
        self.valid_table(table_id) && self.tables[table_id - 1].contains_key(row_id)
    }

    /// The row with this id.
    pub open spec fn row(self, table_id: i32, row_id: i64) -> RowView {
        self.tables[table_id - 1][row_id]
    }

    /// Whether the row exists and one of its values refers to the row `target`.
    pub open spec fn refers(self, table_id: i32, row_id: i64, target: i64) -> bool {
        self.has_row(table_id, row_id) && holds_reference(
            self.row(table_id, row_id).values,
            target,
        )
    }

    /// The forward references that the rows hold, in the shape of the index.
    pub open spec fn forward_references(self) -> Set<(i64, i32, i64)> {
        Set::new(|e: (i64, i32, i64)| self.refers(e.1, e.2, e.0))
    }

    /// Whether a value is no reference, refers to no row, or refers to a row
    /// of the table `referenced`.
    pub open spec fn reference_ok(self, value: ValueView, referenced: i32) -> bool {
        match value {
            ValueView::Foreign(target) => target == 0 || self.has_row(referenced, target),
            _ => true,
        }
    }

    /// Whether every reference among the values finds its row in the table
    /// that its column names.
    pub open spec fn targets_exist(
        self,
        values: Seq<ValueView>,
        columns: Seq<ColumnMetadata>,
    ) -> bool {
        forall|i: int|
            0 <= i < values.len() && i < columns.len() ==> self.reference_ok(
                #[trigger] values[i],
                columns[i].c_ref,
            )
    }

    /// Why the values cannot be stored in the table, if they cannot: their
    /// number is checked first, then their types, then their references.
    pub open spec fn validation_error(self, table_id: i32, values: Seq<ValueView>) -> Option<
        ErrorCode,
    > {
        let columns = self.columns(table_id);
        if values.len() != columns.len() {
            Some(ErrorCode::BadRow)
        } else if !tags_match(values, columns) {
            Some(ErrorCode::BadValue)
        } else if !self.targets_exist(values, columns) {
            Some(ErrorCode::BadForeign)
        } else {
            None
        }
    }

    /// Whether the row is as the invariant wants it: its id has been issued,
    /// its version is positive, and its values fit the table and refer only
    /// to rows that exist.
    pub open spec fn row_wf(self, table_id: i32, row_id: i64) -> bool {
        &&& 1 <= row_id < self.next_row_key
        &&& self.row(table_id, row_id).version >= 1
        &&& self.validation_error(table_id, self.row(table_id, row_id).values) is None
    }

    /// The invariant of the store.
    ///
    /// Every table has its definition and the definitions are consistent;
    /// every row fits its table and refers only to rows that exist; no row id
    /// is in two tables, none is `0`, and none has yet to be issued; and the
    /// index holds exactly the references that the rows hold.
    pub open spec fn wf(self) -> bool {
        &&& self.tables.len() == self.schema.len()
        &&& schema_valid(self.schema)
        &&& self.next_row_key >= 1
        &&& forall|t: i32, r: i64| #[trigger] self.has_row(t, r) ==> self.row_wf(t, r)
        &&& forall|t1: i32, t2: i32, r: i64|
            #[trigger] self.has_row(t1, r) && #[trigger] self.has_row(t2, r) ==> t1 == t2
        &&& self.index == self.forward_references()
    }

    /// Why an insert is refused, if it is.
    pub open spec fn insert_error(self, table_id: i32, values: Seq<ValueView>) -> Option<
        ErrorCode,
    > {
        if !self.valid_table(table_id) {
            Some(ErrorCode::BadTable)
        } else {
            self.validation_error(table_id, values)
        }
    }

    /// The index entries of a row with these values.
    pub open spec fn entries_of(table_id: i32, row_id: i64, values: Seq<ValueView>) -> Set<
        (i64, i32, i64),
    > {
        Set::new(
            |e: (i64, i32, i64)| e.1 == table_id && e.2 == row_id && holds_reference(values, e.0),
        )
    }

    /// The state after an insert that is not refused: the row has the next
    /// row id and version `1`.
    pub open spec fn after_insert(self, table_id: i32, values: Seq<ValueView>) -> DbView {
        DbView {
            schema: self.schema,
            tables: self.tables.update(
                table_id - 1,
                self.tables[table_id - 1].insert(
                    self.next_row_key,
                    RowView { version: 1, values },
                ),
            ),
            next_row_key: (self.next_row_key + 1) as i64,
            index: self.index.union(Self::entries_of(table_id, self.next_row_key, values)),
        }
    }

    /// Why an update is refused, if it is. A client version of `0` matches
    /// every stored version.
    pub open spec fn update_error(
        self,
        table_id: i32,
        row_id: i64,
        client_version: i64,
        values: Seq<ValueView>,
    ) -> Option<ErrorCode> {
        if !self.valid_table(table_id) {
            Some(ErrorCode::BadTable)
        } else if self.validation_error(table_id, values) is Some {
            self.validation_error(table_id, values)
        } else if !self.has_row(table_id, row_id) {
            Some(ErrorCode::NotFound)
        } else if client_version != 0 && client_version != self.row(table_id, row_id).version {
            Some(ErrorCode::TxnAbort)
        } else {
            None
        }
    }

    /// The state after an update that is not refused: the row has the new
    /// values and the version after the client's, and the index has the
    /// row's new references in place of its old ones.
    pub open spec fn after_update(
        self,
        table_id: i32,
        row_id: i64,
        client_version: i64,
        values: Seq<ValueView>,
    ) -> DbView {
        DbView {
            schema: self.schema,
            tables: self.tables.update(
                table_id - 1,
                self.tables[table_id - 1].insert(
                    row_id,
                    RowView { version: (client_version + 1) as i64, values },
                ),
            ),
            next_row_key: self.next_row_key,
            index: Set::new(
                |e: (i64, i32, i64)|
                    if e.1 == table_id && e.2 == row_id {
                        holds_reference(values, e.0)
                    } else {
                        self.index.contains(e)
                    },
            ),
        }
    }

    /// Why a get or a drop is refused, if it is.
    pub open spec fn lookup_error(self, table_id: i32, row_id: i64) -> Option<ErrorCode> {
        if !self.valid_table(table_id) {
            Some(ErrorCode::BadTable)
        } else if !self.has_row(table_id, row_id) {
            Some(ErrorCode::NotFound)
        } else {
            None
        }
    }

    /// Whether some row with id `from` refers to the row `to`.
    pub open spec fn edge(self, from: i64, to: i64) -> bool {
        exists|t: i32| self.refers(t, from, to)
    }

    /// Whether each row id of the sequence refers to the next one.
    pub open spec fn is_path(self, path: Seq<i64>) -> bool {
        &&& path.len() > 0
        &&& forall|i: int| 0 <= i < path.len() - 1 ==> self.edge(#[trigger] path[i], path[i + 1])
    }

    /// Whether a chain of references leads from the row `from` to the row
    /// `to`; the chain may have no link, so every id reaches itself.
    pub open spec fn reaches(self, from: i64, to: i64) -> bool {
        exists|path: Seq<i64>| #[trigger]
            self.is_path(path) && path[0] == from && path.last() == to
    }

    /// The state after the row `row_id` is dropped: gone are the rows that
    /// reach it, and with them their entries in the index.
    pub open spec fn after_drop(self, row_id: i64) -> DbView {
        DbView {
            schema: self.schema,
            tables: Seq::new(
                self.tables.len(),
                |t: int|
                    Map::new(
                        |r: i64| self.tables[t].contains_key(r) && !self.reaches(r, row_id),
                        |r: i64| self.tables[t][r],
                    ),
            ),
            next_row_key: self.next_row_key,
            index: Set::new(
                |e: (i64, i32, i64)| self.index.contains(e) && !self.reaches(e.2, row_id),
            ),
        }
    }

    /// The type of what a query's column id selects: a column's type, or
    /// `Integer` for column id `0`, which selects the row id.
    pub open spec fn selected_type(self, table_id: i32, column_id: i32) -> ValueType {
        if column_id == 0 {
            ValueType::Integer
        } else {
            self.columns(table_id)[column_id - 1].c_type
        }
    }

    /// Why a query is refused, if it is.
    pub open spec fn query_error(
        self,
        table_id: i32,
        column_id: i32,
        operator: i32,
        comparand: ValueView,
    ) -> Option<ErrorCode> {
        if !self.valid_table(table_id) {
            Some(ErrorCode::BadTable)
        } else if operator == OP_AL {
            if column_id == 0 {
                None
            } else {
                Some(ErrorCode::BadQuery)
            }
        } else if !(0 <= column_id <= self.columns(table_id).len()) {
            Some(ErrorCode::BadQuery)
        } else if comparand.tag() != self.selected_type(table_id, column_id) {
            Some(ErrorCode::BadQuery)
        } else if operator == OP_EQ || operator == OP_NE {
            None
        } else if is_ordered_operator(operator) && column_id != 0 && self.selected_type(
            table_id,
            column_id,
        ) != ValueType::Foreign {
            None
        } else {
            Some(ErrorCode::BadQuery)
        }
    }

    /// What a query's column id selects of a row.
    pub open spec fn selected_value(self, table_id: i32, column_id: i32, row_id: i64) -> ValueView {
        if column_id == 0 {
            ValueView::Integer(row_id)
        } else {
            self.row(table_id, row_id).values[column_id - 1]
        }
    }

    /// Whether a query that is not refused lists the row.
    pub open spec fn query_matches(
        self,
        table_id: i32,
        column_id: i32,
        operator: i32,
        comparand: ValueView,
        row_id: i64,
    ) -> bool {
        self.has_row(table_id, row_id) && satisfies(
            operator,
            self.selected_value(table_id, column_id, row_id),
            comparand,
        )
    }

    /// Whether the request can be carried out within the machine's integers.
    /// An insert needs a row id after the one it issues. An update needs a
    /// version after the client's only where that version is the row's: so
    /// all that is left out is the update of a row at the last version with
    /// that version.
    pub open spec fn in_range(self, request: RequestView) -> bool {
        match request.command {
            CommandView::Insert(_) => self.next_row_key < i64::MAX,
            CommandView::Update(row_id, client_version, _) => client_version < i64::MAX || !(
            self.has_row(request.table_id, row_id) && self.row(request.table_id, row_id).version
                == client_version),
            _ => true,
        }
    }

    /// Whether `response` and the state `next` are what the request makes of
    /// this state. All is determined but the order in which a query lists
    /// the rows.
    pub open spec fn step(self, request: RequestView, next: DbView, response: ResponseView) -> bool {
        let t = request.table_id;
        match request.command {
            CommandView::Insert(values) => match self.insert_error(t, values) {
                Some(code) => next == self && response == ResponseView::Error(code),
                None => next == self.after_insert(t, values) && response == ResponseView::Insert(
                    self.next_row_key,
                    1,
                ),
            },
            CommandView::Update(row_id, client_version, values) => match self.update_error(
                t,
                row_id,
                client_version,
                values,
            ) {
                Some(code) => next == self && response == ResponseView::Error(code),
                None => next == self.after_update(t, row_id, client_version, values) && response
                    == ResponseView::Update((client_version + 1) as i64),
            },
            CommandView::Drop(row_id) => match self.lookup_error(t, row_id) {
                Some(code) => next == self && response == ResponseView::Error(code),
                None => next == self.after_drop(row_id) && response == ResponseView::Drop,
            },
            CommandView::Get(row_id) => next == self && match self.lookup_error(t, row_id) {
                Some(code) => response == ResponseView::Error(code),
                None => response == ResponseView::Get(
                    self.row(t, row_id).version,
                    self.row(t, row_id).values,
                ),
            },
            CommandView::Query(column_id, operator, comparand) => next == self && match self.query_error(
                t,
                column_id,
                operator,
                comparand,
            ) {
                Some(code) => response == ResponseView::Error(code),
                None => match response {
                    ResponseView::Query(row_ids) => row_ids.no_duplicates() && forall|r: i64|
                        row_ids.contains(r) <==> self.query_matches(
                            t,
                            column_id,
                            operator,
                            comparand,
                            r,
                        ),
                    _ => false,
                },
            },
            CommandView::Exit => next == self && response == ResponseView::Error(
                ErrorCode::Unimplemented,
            ),
        }
    }
}

} // verus!
