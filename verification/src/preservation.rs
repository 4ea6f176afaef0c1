//! That the invariant of the store holds of a new store and after every
//! request.

use vstd::prelude::*;
use crate::model::DbView;
use crate::packet::{CommandView, RequestView, ResponseView};
use crate::schema::{schema_valid, TableMetadata};
use crate::value::ValueView;

verus! {

/// A new store with a consistent schema satisfies the invariant.
pub proof fn lemma_initial_wf(schema: Seq<TableMetadata>)
    requires
        schema_valid(schema),
    ensures
        DbView::initial(schema).wf(),
{
    let s = DbView::initial(schema);
    assert(s.index =~= s.forward_references());
}

/// Values that can be stored in one state can be stored in every state with
/// the same tables that has kept the rows.
pub proof fn lemma_validation_kept(
    before: DbView,
    after: DbView,
    table_id: i32,
    values: Seq<ValueView>,
)
    requires
        before.schema == after.schema,
        before.tables.len() == after.tables.len(),
        forall|t: i32, r: i64| #[trigger] before.has_row(t, r) ==> after.has_row(t, r),
        before.validation_error(table_id, values) is None,
    ensures
        after.validation_error(table_id, values) is None,
{
    let columns = before.columns(table_id);
    assert forall|i: int| 0 <= i < values.len() && i < columns.len() implies after.reference_ok(
        #[trigger] values[i],
        columns[i].c_ref,
    ) by {
        assert(before.reference_ok(values[i], columns[i].c_ref));
        match values[i] {
            ValueView::Foreign(target) => {
                if target != 0 {
                    assert(before.has_row(columns[i].c_ref, target));
                }
            },
            _ => {},
        }
    }
}

/// An insert that is not refused keeps the invariant.
pub proof fn lemma_insert_wf(s: DbView, table_id: i32, values: Seq<ValueView>)
    requires
        s.wf(),
        s.insert_error(table_id, values) is None,
        s.next_row_key < i64::MAX,
    ensures
        s.after_insert(table_id, values).wf(),
{
    let n = s.after_insert(table_id, values);
    let id = s.next_row_key;
    assert forall|t: i32, r: i64| #[trigger] s.has_row(t, r) implies n.has_row(t, r) && n.row(t, r)
        == s.row(t, r) by {
        assert(s.row_wf(t, r));
    }
    assert forall|t: i32, r: i64| #[trigger] n.has_row(t, r) implies n.row_wf(t, r) && (s.has_row(
        t,
        r,
    ) || (t == table_id && r == id)) by {
        if t == table_id && r == id {
            lemma_validation_kept(s, n, t, values);
        } else {
            assert(s.has_row(t, r));
            assert(s.row_wf(t, r));
            lemma_validation_kept(s, n, t, s.row(t, r).values);
        }
    }
    assert forall|t1: i32, t2: i32, r: i64| #[trigger]
        n.has_row(t1, r) && #[trigger] n.has_row(t2, r) implies t1 == t2 by {
        if r == id {
            if s.has_row(t1, r) {
                assert(s.row_wf(t1, r));
            }
            if s.has_row(t2, r) {
                assert(s.row_wf(t2, r));
            }
        } else {
            assert(s.has_row(t1, r));
            assert(s.has_row(t2, r));
        }
    }
    assert forall|e: (i64, i32, i64)| n.index.contains(e) == n.forward_references().contains(
        e,
    ) by {
        if s.has_row(e.1, e.2) {
            assert(s.row_wf(e.1, e.2));
        }
        assert(s.index.contains(e) == s.refers(e.1, e.2, e.0));
    }
    assert(n.index =~= n.forward_references());
}

/// An update that is not refused keeps the invariant.
pub proof fn lemma_update_wf(
    s: DbView,
    table_id: i32,
    row_id: i64,
    client_version: i64,
    values: Seq<ValueView>,
)
    requires
        s.wf(),
        s.update_error(table_id, row_id, client_version, values) is None,
        client_version < i64::MAX,
    ensures
        s.after_update(table_id, row_id, client_version, values).wf(),
{
    let n = s.after_update(table_id, row_id, client_version, values);
    assert(s.row_wf(table_id, row_id));
    assert forall|t: i32, r: i64| #[trigger] s.has_row(t, r) implies n.has_row(t, r) by {}
    assert forall|t: i32, r: i64| #[trigger] n.has_row(t, r) implies n.row_wf(t, r) && s.has_row(
        t,
        r,
    ) by {
        assert(s.has_row(t, r));
        assert(s.row_wf(t, r));
        if t == table_id && r == row_id {
            lemma_validation_kept(s, n, t, values);
        } else {
            assert(n.row(t, r) == s.row(t, r));
            lemma_validation_kept(s, n, t, s.row(t, r).values);
        }
    }
    assert forall|t1: i32, t2: i32, r: i64| #[trigger]
        n.has_row(t1, r) && #[trigger] n.has_row(t2, r) implies t1 == t2 by {
        assert(s.has_row(t1, r));
        assert(s.has_row(t2, r));
    }
    assert forall|e: (i64, i32, i64)| n.index.contains(e) == n.forward_references().contains(
        e,
    ) by {
        assert(s.index.contains(e) == s.refers(e.1, e.2, e.0));
        if n.has_row(e.1, e.2) {
            assert(s.has_row(e.1, e.2));
        }
    }
    assert(n.index =~= n.forward_references());
}

/// A chain of references can be lengthened at its start.
pub proof fn lemma_reaches_extend(s: DbView, from: i64, via: i64, to: i64)
    requires
        s.edge(from, via),
        s.reaches(via, to),
    ensures
        s.reaches(from, to),
{
    let rest = choose|path: Seq<i64>| #[trigger]
        s.is_path(path) && path[0] == via && path.last() == to;
    let path = seq![from] + rest;
    assert forall|i: int| 0 <= i < path.len() - 1 implies s.edge(#[trigger] path[i], path[i + 1]) by {
        if i > 0 {
            assert(path[i] == rest[i - 1]);
            assert(path[i + 1] == rest[i]);
        }
    }
    assert(s.is_path(path) && path[0] == from && path.last() == to);
}

/// Every row id reaches itself.
pub proof fn lemma_reaches_self(s: DbView, row_id: i64)
    ensures
        s.reaches(row_id, row_id),
{
    let path = seq![row_id];
    assert(s.is_path(path) && path[0] == row_id && path.last() == row_id);
}

/// A drop that is not refused keeps the invariant.
pub proof fn lemma_drop_wf(s: DbView, table_id: i32, row_id: i64)
    requires
        s.wf(),
        s.lookup_error(table_id, row_id) is None,
    ensures
        s.after_drop(row_id).wf(),
{
    let n = s.after_drop(row_id);
    assert forall|t: i32, r: i64| #[trigger] n.has_row(t, r) implies n.row_wf(t, r) && s.has_row(
        t,
        r,
    ) by {
        assert(s.has_row(t, r));
        assert(s.row_wf(t, r));
        let values = s.row(t, r).values;
        let columns = s.columns(t);
        assert forall|i: int| 0 <= i < values.len() && i < columns.len() implies n.reference_ok(
            #[trigger] values[i],
            columns[i].c_ref,
        ) by {
            assert(s.reference_ok(values[i], columns[i].c_ref));
            match values[i] {
                ValueView::Foreign(target) => {
                    if target != 0 {
                        assert(values[i].refers_to(target));
                        assert(s.refers(t, r, target));
                        if s.reaches(target, row_id) {
                            lemma_reaches_extend(s, r, target, row_id);
                        }
                        assert(n.has_row(columns[i].c_ref, target));
                    }
                },
                _ => {},
            }
        }
    }
    assert forall|t1: i32, t2: i32, r: i64| #[trigger]
        n.has_row(t1, r) && #[trigger] n.has_row(t2, r) implies t1 == t2 by {
        assert(s.has_row(t1, r));
        assert(s.has_row(t2, r));
    }
    assert forall|e: (i64, i32, i64)| n.index.contains(e) == n.forward_references().contains(
        e,
    ) by {
        assert(s.index.contains(e) == s.refers(e.1, e.2, e.0));
        if n.has_row(e.1, e.2) {
            assert(s.has_row(e.1, e.2));
        }
    }
    assert(n.index =~= n.forward_references());
}

/// Every request that is within the machine's integers keeps the invariant.
pub proof fn lemma_step_wf(s: DbView, request: RequestView, next: DbView, response: ResponseView)
    requires
        s.wf(),
        s.in_range(request),
        s.step(request, next, response),
    ensures
        next.wf(),
{
    let t = request.table_id;
    match request.command {
        CommandView::Insert(values) => {
            if s.insert_error(t, values) is None {
                lemma_insert_wf(s, t, values);
            }
        },
        CommandView::Update(row_id, client_version, values) => {
            if s.update_error(t, row_id, client_version, values) is None {
                lemma_update_wf(s, t, row_id, client_version, values);
            }
        },
        CommandView::Drop(row_id) => {
            if s.lookup_error(t, row_id) is None {
                lemma_drop_wf(s, t, row_id);
            }
        },
        _ => {},
    }
}

} // verus!
