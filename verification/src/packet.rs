//! Requests to the engine and its responses.

use vstd::prelude::*;
use crate::value::{Value, ValueView, values_view};

verus! {

/// The operator that matches every row.
pub const OP_AL: i32 = 1;

/// The operator "equal to the comparand".
pub const OP_EQ: i32 = 2;

/// The operator "not equal to the comparand".
pub const OP_NE: i32 = 3;

/// The operator "before the comparand".
pub const OP_LT: i32 = 4;

/// The operator "after the comparand".
pub const OP_GT: i32 = 5;

/// The operator "before or equal to the comparand".
pub const OP_LE: i32 = 6;

/// The operator "after or equal to the comparand".
pub const OP_GE: i32 = 7;

/// Why a request was refused.
#[derive(Clone, Copy, Debug, PartialEq, Eq, Structural, Hash)]
pub enum ErrorCode {
    /// The row does not exist.
    NotFound,
    /// The table id names no table.
    BadTable,
    /// The column id, the operator or the comparand does not fit the table.
    BadQuery,
    /// The client's version is not the row's.
    TxnAbort,
    /// A value is not of its column's type.
    BadValue,
    /// The row has another number of values than the table has columns.
    BadRow,
    /// The request could not be read.
    BadRequest,
    /// A value refers to a row that does not exist.
    BadForeign,
    /// Too many clients are connected.
    ServerBusy,
    /// The command is not one the engine carries out.
    Unimplemented,
}

/// What a client asks of one table.
#[derive(Debug, PartialEq)]
pub enum Command {
    /// Store a new row with these values.
    Insert(Vec<Value>),
    /// Replace the values of a row: row id, the client's version, new values.
    Update(i64, i64, Vec<Value>),
    /// Remove a row, and with it every row that refers to it.
    Drop(i64),
    /// Read a row.
    Get(i64),
    /// List the rows that a predicate holds of: column id, operator, comparand.
    Query(i32, i32, Value),
    /// End the session. The engine never carries it out.
    Exit,
}

/// A command and the id of the table it is about.
#[derive(Debug, PartialEq)]
pub struct Request {
    pub table_id: i32,
    pub command: Command,
}

/// The engine's answer.
#[derive(Debug, PartialEq)]
pub enum Response {
    /// Sent once when a session begins.
    Connected,
    /// The request was refused and nothing has changed.
    Error(ErrorCode),
    /// The id and the version of the new row.
    Insert(i64, i64),
    /// The row's new version.
    Update(i64),
    /// The row is gone.
    Drop,
    /// The row's version and a copy of its values.
    Get(i64, Vec<Value>),
    /// The ids of the rows that matched, in no particular order.
    Query(Vec<i64>),
}

/// The mathematical content of a [`Command`].
pub enum CommandView {
    Insert(Seq<ValueView>),
    Update(i64, i64, Seq<ValueView>),
    Drop(i64),
    Get(i64),
    Query(i32, i32, ValueView),
    Exit,
}

/// The mathematical content of a [`Request`].
pub struct RequestView {
    pub table_id: i32,
    pub command: CommandView,
}

/// The mathematical content of a [`Response`].
pub enum ResponseView {
    Connected,
    Error(ErrorCode),
    Insert(i64, i64),
    Update(i64),
    Drop,
    Get(i64, Seq<ValueView>),
    Query(Seq<i64>),
}

impl View for Command {
    type V = CommandView;

    open spec fn view(&self) -> CommandView {
        match *self {
            Command::Insert(values) => CommandView::Insert(values_view(values@)),
            Command::Update(row_id, version, values) => CommandView::Update(
                row_id,
                version,
                values_view(values@),
            ),
            Command::Drop(row_id) => CommandView::Drop(row_id),
            Command::Get(row_id) => CommandView::Get(row_id),
            Command::Query(column_id, operator, comparand) => CommandView::Query(
                column_id,
                operator,
                comparand@,
            ),
            Command::Exit => CommandView::Exit,
        }
    }
}

impl View for Request {
    type V = RequestView;

    open spec fn view(&self) -> RequestView {
        RequestView { table_id: self.table_id, command: self.command@ }
    }
}

impl View for Response {
    type V = ResponseView;

    open spec fn view(&self) -> ResponseView {
        match *self {
            Response::Connected => ResponseView::Connected,
            Response::Error(code) => ResponseView::Error(code),
            Response::Insert(row_id, version) => ResponseView::Insert(row_id, version),
            Response::Update(version) => ResponseView::Update(version),
            Response::Drop => ResponseView::Drop,
            Response::Get(version, values) => ResponseView::Get(version, values_view(values@)),
            Response::Query(row_ids) => ResponseView::Query(row_ids@),
        }
    }
}

} // verus!
