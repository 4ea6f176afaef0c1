//! What holds of the store whatever is asked of it, proved of the model
//! that [`crate::database::handle_request`] is proved to follow.

use vstd::prelude::*;
use crate::model::{is_ordered_operator, tags_match, DbView};
use crate::packet::{CommandView, ErrorCode, RequestView, ResponseView, OP_AL};
use crate::preservation::{lemma_initial_wf, lemma_reaches_self, lemma_step_wf};
use crate::schema::schema_valid;
use crate::value::{ValueType, ValueView};

verus! {

/// Whether the request at place `i` leads from the state at `i` to the next
/// one with the response at `i`, within the machine's integers.
pub open spec fn run_step(
    states: Seq<DbView>,
    requests: Seq<RequestView>,
    responses: Seq<ResponseView>,
    i: int,
) -> bool {
    states[i].in_range(requests[i]) && states[i].step(requests[i], states[i + 1], responses[i])
}

/// Whether the states are those that a new store goes through when the
/// requests are made of it one after the other, with these responses.
pub open spec fn is_run(
    states: Seq<DbView>,
    requests: Seq<RequestView>,
    responses: Seq<ResponseView>,
) -> bool {
    &&& states.len() == requests.len() + 1
    &&& responses.len() == requests.len()
    &&& schema_valid(states[0].schema)
    &&& states[0] == DbView::initial(states[0].schema)
    &&& forall|i: int| 0 <= i < requests.len() ==> #[trigger] run_step(states, requests, responses, i)
}

/// After any sequence of requests the invariant of the store holds.
pub proof fn law_run_wf(
    states: Seq<DbView>,
    requests: Seq<RequestView>,
    responses: Seq<ResponseView>,
    i: int,
)
    requires
        is_run(states, requests, responses),
        0 <= i < states.len(),
    ensures
        states[i].wf(),
    decreases i,
{
    if i == 0 {
        lemma_initial_wf(states[0].schema);
    } else {
        law_run_wf(states, requests, responses, i - 1);
        assert(run_step(states, requests, responses, i - 1));
        lemma_step_wf(states[i - 1], requests[i - 1], states[i], responses[i - 1]);
    }
}

/// After any sequence of requests every stored row has as many values as
/// its table has columns, each of its column's type.
pub proof fn law_rows_conform(
    states: Seq<DbView>,
    requests: Seq<RequestView>,
    responses: Seq<ResponseView>,
    i: int,
    table_id: i32,
    row_id: i64,
)
    requires
        is_run(states, requests, responses),
        0 <= i < states.len(),
        states[i].has_row(table_id, row_id),
    ensures
        states[i].row(table_id, row_id).values.len() == states[i].columns(table_id).len(),
        tags_match(states[i].row(table_id, row_id).values, states[i].columns(table_id)),
{
    law_run_wf(states, requests, responses, i);
    assert(states[i].row_wf(table_id, row_id));
}

/// After any sequence of requests the index lists a row under a row id
/// exactly when the row exists and one of its values refers to that id.
pub proof fn law_index_exact(
    states: Seq<DbView>,
    requests: Seq<RequestView>,
    responses: Seq<ResponseView>,
    i: int,
    target: i64,
    table_id: i32,
    row_id: i64,
)
    requires
        is_run(states, requests, responses),
        0 <= i < states.len(),
    ensures
        states[i].index.contains((target, table_id, row_id)) <==> states[i].refers(
            table_id,
            row_id,
            target,
        ),
{
    law_run_wf(states, requests, responses, i);
    let e = (target, table_id, row_id);
    assert(states[i].forward_references().contains(e) == states[i].refers(e.1, e.2, e.0));
}

/// The row id that the next insert issues never goes down.
proof fn lemma_next_row_key_grows(
    states: Seq<DbView>,
    requests: Seq<RequestView>,
    responses: Seq<ResponseView>,
    i: int,
    j: int,
)
    requires
        is_run(states, requests, responses),
        0 <= i <= j < states.len(),
    ensures
        states[i].next_row_key <= states[j].next_row_key,
    decreases j - i,
{
    if i < j {
        lemma_next_row_key_grows(states, requests, responses, i, j - 1);
        assert(run_step(states, requests, responses, j - 1));
    }
}

/// Of two inserts the later one issues the greater row id, whatever the
/// tables and whatever was dropped between them.
pub proof fn law_row_ids_increase(
    states: Seq<DbView>,
    requests: Seq<RequestView>,
    responses: Seq<ResponseView>,
    i: int,
    j: int,
)
    requires
        is_run(states, requests, responses),
        0 <= i < j < requests.len(),
        responses[i] is Insert,
        responses[j] is Insert,
    ensures
        responses[i]->Insert_0 < responses[j]->Insert_0,
{
    assert(run_step(states, requests, responses, i));
    assert(run_step(states, requests, responses, j));
    lemma_next_row_key_grows(states, requests, responses, i + 1, j);
}

/// An insert issues a row id greater than that of every row that was ever
/// stored, in any table and whether or not the row is still there.
pub proof fn law_row_id_never_reused(
    states: Seq<DbView>,
    requests: Seq<RequestView>,
    responses: Seq<ResponseView>,
    i: int,
    j: int,
    table_id: i32,
    row_id: i64,
)
    requires
        is_run(states, requests, responses),
        0 <= i <= j < requests.len(),
        states[i].has_row(table_id, row_id),
        responses[j] is Insert,
    ensures
        1 <= row_id < responses[j]->Insert_0,
{
    law_run_wf(states, requests, responses, i);
    assert(states[i].row_wf(table_id, row_id));
    lemma_next_row_key_grows(states, requests, responses, i, j);
    assert(run_step(states, requests, responses, j));
}

/// Whether no table holds a row with this id, which has been issued.
pub open spec fn is_gone(s: DbView, row_id: i64) -> bool {
    &&& row_id < s.next_row_key
    &&& forall|t: i32| !#[trigger] s.has_row(t, row_id)
}

/// A row id that has been issued and is in no table is in no table after
/// any request.
proof fn lemma_gone_stays_gone(
    s: DbView,
    request: RequestView,
    next: DbView,
    response: ResponseView,
    row_id: i64,
)
    requires
        s.in_range(request),
        s.step(request, next, response),
        is_gone(s, row_id),
    ensures
        is_gone(next, row_id),
{
    assert forall|t: i32| !#[trigger] next.has_row(t, row_id) by {
        assert(!s.has_row(t, row_id));
        assert(!s.has_row(request.table_id, row_id));
    }
}

/// Once a row is dropped, no table holds a row with its id again, whatever
/// is asked of the store afterwards.
pub proof fn law_dropped_row_stays_gone(
    states: Seq<DbView>,
    requests: Seq<RequestView>,
    responses: Seq<ResponseView>,
    i: int,
    j: int,
    table_id: i32,
    row_id: i64,
    other_table: i32,
)
    requires
        is_run(states, requests, responses),
        0 <= i < j < states.len(),
        requests[i] == (RequestView { table_id, command: CommandView::Drop(row_id) }),
        responses[i] == ResponseView::Drop,
    ensures
        is_gone(states[j], row_id),
        !states[j].has_row(other_table, row_id),
    decreases j,
{
    if j == i + 1 {
        law_run_wf(states, requests, responses, i);
        assert(run_step(states, requests, responses, i));
        assert(states[i].row_wf(table_id, row_id));
        lemma_reaches_self(states[i], row_id);
    } else {
        law_dropped_row_stays_gone(
            states,
            requests,
            responses,
            i,
            j - 1,
            table_id,
            row_id,
            other_table,
        );
        assert(run_step(states, requests, responses, j - 1));
        lemma_gone_stays_gone(
            states[j - 1],
            requests[j - 1],
            states[j],
            responses[j - 1],
            row_id,
        );
    }
}

/// An insert issues a row id that no row has, in any table.
pub proof fn law_row_id_fresh(
    s: DbView,
    table_id: i32,
    values: Seq<ValueView>,
    next: DbView,
    row_id: i64,
    version: i64,
    other_table: i32,
)
    requires
        s.wf(),
        s.step(
            RequestView { table_id, command: CommandView::Insert(values) },
            next,
            ResponseView::Insert(row_id, version),
        ),
    ensures
        row_id != 0,
        !s.has_row(other_table, row_id),
{
    if s.has_row(other_table, row_id) {
        assert(s.row_wf(other_table, row_id));
    }
}

/// A get that follows an insert returns the inserted values, with the
/// version that the insert returned, which is `1`.
pub proof fn law_get_after_insert(
    s: DbView,
    table_id: i32,
    values: Seq<ValueView>,
    mid: DbView,
    row_id: i64,
    version: i64,
    last: DbView,
    response: ResponseView,
)
    requires
        s.step(
            RequestView { table_id, command: CommandView::Insert(values) },
            mid,
            ResponseView::Insert(row_id, version),
        ),
        mid.step(RequestView { table_id, command: CommandView::Get(row_id) }, last, response),
    ensures
        version == 1,
        response == ResponseView::Get(version, values),
{
    assert(mid.has_row(table_id, row_id));
}

/// A get that follows an update returns the new values, with the version
/// that the update returned.
pub proof fn law_get_after_update(
    s: DbView,
    table_id: i32,
    row_id: i64,
    client_version: i64,
    values: Seq<ValueView>,
    mid: DbView,
    version: i64,
    last: DbView,
    response: ResponseView,
)
    requires
        s.step(
            RequestView { table_id, command: CommandView::Update(row_id, client_version, values) },
            mid,
            ResponseView::Update(version),
        ),
        mid.step(RequestView { table_id, command: CommandView::Get(row_id) }, last, response),
    ensures
        response == ResponseView::Get(version, values),
{
    assert(mid.has_row(table_id, row_id));
}

/// After a drop that is not refused, no row is left that reaches the
/// dropped row by references, in any table; the other rows are as they were.
pub proof fn law_drop_removes_reaching(
    s: DbView,
    table_id: i32,
    row_id: i64,
    next: DbView,
    other_table: i32,
    other_row: i64,
)
    requires
        s.step(
            RequestView { table_id, command: CommandView::Drop(row_id) },
            next,
            ResponseView::Drop,
        ),
    ensures
        next.has_row(other_table, other_row) <==> s.has_row(other_table, other_row) && !s.reaches(
            other_row,
            row_id,
        ),
        next.has_row(other_table, other_row) ==> next.row(other_table, other_row) == s.row(
            other_table,
            other_row,
        ),
{
}

/// After two updates with client version `0` and the same values, a get
/// returns these values with version `1`: an update with client version `0`
/// leaves the version at `1`, whatever it was.
pub proof fn law_forced_updates(
    s: DbView,
    table_id: i32,
    row_id: i64,
    values: Seq<ValueView>,
    first: DbView,
    first_response: ResponseView,
    second: DbView,
    second_response: ResponseView,
    last: DbView,
    response: ResponseView,
)
    requires
        s.wf(),
        s.has_row(table_id, row_id),
        s.validation_error(table_id, values) is None,
        s.step(
            RequestView { table_id, command: CommandView::Update(row_id, 0, values) },
            first,
            first_response,
        ),
        first.step(
            RequestView { table_id, command: CommandView::Update(row_id, 0, values) },
            second,
            second_response,
        ),
        second.step(RequestView { table_id, command: CommandView::Get(row_id) }, last, response),
    ensures
        first_response == ResponseView::Update(1),
        second_response == ResponseView::Update(1),
        response == ResponseView::Get(1, values),
{
    let request = RequestView { table_id, command: CommandView::Update(row_id, 0, values) };
    law_forced_update_succeeds(s, table_id, row_id, values);
    lemma_step_wf(s, request, first, first_response);
    assert(first.has_row(table_id, row_id));
    crate::preservation::lemma_validation_kept(s, first, table_id, values);
    law_forced_update_succeeds(first, table_id, row_id, values);
    assert(second.has_row(table_id, row_id));
}

/// A get that follows a drop of the same row finds no row.
pub proof fn law_get_after_drop(
    s: DbView,
    table_id: i32,
    row_id: i64,
    mid: DbView,
    last: DbView,
    response: ResponseView,
)
    requires
        s.step(
            RequestView { table_id, command: CommandView::Drop(row_id) },
            mid,
            ResponseView::Drop,
        ),
        mid.step(RequestView { table_id, command: CommandView::Get(row_id) }, last, response),
    ensures
        response == ResponseView::Error(ErrorCode::NotFound),
{
    lemma_reaches_self(s, row_id);
}

/// A query with the operator `OP_AL` on column id `0` lists exactly the
/// rows of the table, each once, whatever the comparand.
pub proof fn law_query_all(
    s: DbView,
    table_id: i32,
    comparand: ValueView,
    next: DbView,
    response: ResponseView,
)
    requires
        s.valid_table(table_id),
        s.step(
            RequestView { table_id, command: CommandView::Query(0, OP_AL, comparand) },
            next,
            response,
        ),
    ensures
        response is Query,
        response->Query_0.no_duplicates(),
        forall|r: i64| response->Query_0.contains(r) <==> s.has_row(table_id, r),
{
    let row_ids = response->Query_0;
    assert forall|r: i64| row_ids.contains(r) <==> s.has_row(table_id, r) by {
        assert(row_ids.contains(r) <==> s.query_matches(table_id, 0, OP_AL, comparand, r));
    }
}

/// The index lists no row under the row id `0`, which stands for no row.
pub proof fn law_no_zero_target(s: DbView, table_id: i32, row_id: i64)
    requires
        s.wf(),
    ensures
        !s.index.contains((0, table_id, row_id)),
{
    let e = (0i64, table_id, row_id);
    assert(s.forward_references().contains(e) == s.refers(e.1, e.2, e.0));
}

/// An update with client version `0` of a row that exists, with values that
/// can be stored, is not refused, whatever the row's version.
pub proof fn law_forced_update_succeeds(
    s: DbView,
    table_id: i32,
    row_id: i64,
    values: Seq<ValueView>,
)
    requires
        s.has_row(table_id, row_id),
        s.validation_error(table_id, values) is None,
    ensures
        s.update_error(table_id, row_id, 0, values) is None,
{
}

/// A query that asks for an order on the row id is refused.
pub proof fn law_row_id_not_ordered(
    s: DbView,
    table_id: i32,
    operator: i32,
    comparand: ValueView,
)
    requires
        s.valid_table(table_id),
        is_ordered_operator(operator),
    ensures
        s.query_error(table_id, 0, operator, comparand) == Some(ErrorCode::BadQuery),
{
}

/// A query that asks for an order on a column of references is refused.
pub proof fn law_reference_not_ordered(
    s: DbView,
    table_id: i32,
    column_id: i32,
    operator: i32,
    comparand: ValueView,
)
    requires
        s.valid_table(table_id),
        1 <= column_id <= s.columns(table_id).len(),
        s.columns(table_id)[column_id - 1].c_type == ValueType::Foreign,
        is_ordered_operator(operator),
    ensures
        s.query_error(table_id, column_id, operator, comparand) == Some(ErrorCode::BadQuery),
{
}

/// A query whose comparand is not of the type that the column id selects
/// is refused, unless its operator is `OP_AL`, which reads no comparand.
pub proof fn law_comparand_type(
    s: DbView,
    table_id: i32,
    column_id: i32,
    operator: i32,
    comparand: ValueView,
)
    requires
        s.valid_table(table_id),
        0 <= column_id <= s.columns(table_id).len(),
        operator != OP_AL,
        comparand.tag() != s.selected_type(table_id, column_id),
    ensures
        s.query_error(table_id, column_id, operator, comparand) == Some(ErrorCode::BadQuery),
{
}

/// A request for a table id that names no table is answered with
/// `BadTable` and changes nothing, unless its command is `Exit`.
pub proof fn law_bad_table(s: DbView, request: RequestView, next: DbView, response: ResponseView)
    requires
        !(1 <= request.table_id <= s.tables.len()),
        !(request.command is Exit),
        s.step(request, next, response),
    ensures
        response == ResponseView::Error(ErrorCode::BadTable),
        next == s,
{
}

} // verus!
