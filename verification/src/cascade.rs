//! The cascading drop as a worklist: what holds between two of its steps,
//! and that the rows gone at its end are those that the model names.

use vstd::prelude::*;
use crate::model::{holds_reference, DbView};
use crate::preservation::lemma_reaches_extend;

verus! {

/// What holds while the worklist of a drop of the row `target` is worked
/// off, where `start` is the state before the drop, `cur` the state so far
/// and `removed` the ids of the rows removed so far.
///
/// The rows are those of `start` that have not been removed, and the index
/// holds those entries of `start` that name no removed row. Every row
/// removed or listed reaches the target. Every row that refers to a removed
/// row is removed or listed, and so is the target.
pub open spec fn cascade_inv(
    start: DbView,
    seed_table: i32,
    target: i64,
    cur: DbView,
    removed: Set<i64>,
    worklist: Seq<(i32, i64)>,
) -> bool {
    &&& cur.schema == start.schema
    &&& cur.next_row_key == start.next_row_key
    &&& cur.tables.len() == start.tables.len()
    &&& forall|t: i32, x: i64| #[trigger]
        cur.has_row(t, x) <==> start.has_row(t, x) && !removed.contains(x)
    &&& forall|t: i32, x: i64| #[trigger] cur.has_row(t, x) ==> cur.row(t, x) == start.row(t, x)
    &&& forall|x: i64| #[trigger]
        removed.contains(x) ==> 1 <= x < start.next_row_key && start.reaches(x, target)
    &&& forall|i: int|
        0 <= i < worklist.len() ==> start.has_row((#[trigger] worklist[i]).0, worklist[i].1)
            && start.reaches(worklist[i].1, target)
    &&& forall|t: i32, a: i64, b: i64| #[trigger]
        start.refers(t, a, b) && removed.contains(b) ==> removed.contains(a) || worklist.contains(
            (t, a),
        )
    &&& removed.contains(target) || worklist.contains((seed_table, target))
    &&& forall|k: i64, t: i32, x: i64| #[trigger]
        cur.index.contains((k, t, x)) <==> start.index.contains((k, t, x)) && !removed.contains(x)
            && !removed.contains(k)
}

/// A set of row ids below a bound is finite and has fewer items than the
/// bound.
pub proof fn lemma_bounded_set_len(s: Set<i64>, bound: int)
    requires
        1 <= bound <= i64::MAX,
        forall|x: i64| s.contains(x) ==> 1 <= x < bound,
    ensures
        s.finite(),
        s.len() <= bound - 1,
    decreases bound,
{
    if bound == 1 {
        assert(s =~= Set::empty());
    } else {
        let top = (bound - 1) as i64;
        let rest = s.remove(top);
        lemma_bounded_set_len(rest, bound - 1);
        if s.contains(top) {
            assert(s =~= rest.insert(top));
        } else {
            assert(s =~= rest);
        }
    }
}

/// The worklist holds what it held before its last item was taken, but for
/// that item.
proof fn lemma_drop_last_contains(worklist: Seq<(i32, i64)>, pair: (i32, i64))
    requires
        worklist.len() > 0,
        worklist.contains(pair),
        pair != worklist.last(),
    ensures
        worklist.drop_last().contains(pair),
{
    let j = choose|j: int| 0 <= j < worklist.len() && worklist[j] == pair;
    assert(worklist.drop_last()[j] == pair);
}

/// At the start of a drop, with the row to drop as the only item listed.
pub proof fn lemma_cascade_start(start: DbView, seed_table: i32, target: i64)
    requires
        start.wf(),
        start.has_row(seed_table, target),
    ensures
        cascade_inv(start, seed_table, target, start, Set::empty(), seq![(seed_table, target)]),
{
    let worklist = seq![(seed_table, target)];
    crate::preservation::lemma_reaches_self(start, target);
    assert(worklist[0] == (seed_table, target));
    assert(worklist.contains((seed_table, target)));
}

/// A step that finds the listed row gone already.
pub proof fn lemma_cascade_skip(
    start: DbView,
    seed_table: i32,
    target: i64,
    cur: DbView,
    removed: Set<i64>,
    worklist: Seq<(i32, i64)>,
)
    requires
        start.wf(),
        cascade_inv(start, seed_table, target, cur, removed, worklist),
        worklist.len() > 0,
        !cur.has_row(worklist.last().0, worklist.last().1),
    ensures
        cascade_inv(start, seed_table, target, cur, removed, worklist.drop_last()),
{
    let rest = worklist.drop_last();
    let last = worklist.last();
    assert(start.has_row(last.0, last.1));
    assert(removed.contains(last.1));
    assert forall|i: int| 0 <= i < rest.len() implies start.has_row(
        (#[trigger] rest[i]).0,
        rest[i].1,
    ) && start.reaches(rest[i].1, target) by {
        assert(rest[i] == worklist[i]);
    }
    assert forall|t: i32, a: i64, b: i64| #[trigger]
        start.refers(t, a, b) && removed.contains(b) implies removed.contains(a) || rest.contains(
        (t, a),
    ) by {
        if !removed.contains(a) {
            lemma_drop_last_contains(worklist, (t, a));
        }
    }
    if !removed.contains(target) {
        lemma_drop_last_contains(worklist, (seed_table, target));
    }
}

/// A step that removes the listed row, takes its entries out of the index
/// and lists the rows that referred to it.
pub proof fn lemma_cascade_remove(
    start: DbView,
    seed_table: i32,
    target: i64,
    cur: DbView,
    removed: Set<i64>,
    worklist: Seq<(i32, i64)>,
    next: DbView,
    referrers: Seq<(i32, i64)>,
)
    requires
        start.wf(),
        cascade_inv(start, seed_table, target, cur, removed, worklist),
        worklist.len() > 0,
        cur.has_row(worklist.last().0, worklist.last().1),
        next.schema == cur.schema,
        next.next_row_key == cur.next_row_key,
        next.tables == cur.tables.update(
            worklist.last().0 - 1,
            cur.tables[worklist.last().0 - 1].remove(worklist.last().1),
        ),
        forall|k: i64, t: i32, x: i64| #[trigger]
            next.index.contains((k, t, x)) <==> cur.index.contains((k, t, x)) && k
                != worklist.last().1 && !(t == worklist.last().0 && x == worklist.last().1
                && holds_reference(cur.row(t, x).values, k)),
        forall|t: i32, x: i64| #[trigger]
            referrers.contains((t, x)) <==> cur.index.contains((worklist.last().1, t, x)) && !(t
                == worklist.last().0 && x == worklist.last().1 && holds_reference(
                cur.row(t, x).values,
                worklist.last().1,
            )),
    ensures
        !removed.contains(worklist.last().1),
        removed.finite(),
        removed.insert(worklist.last().1).len() == removed.len() + 1,
        removed.insert(worklist.last().1).len() < start.next_row_key,
        cascade_inv(
            start,
            seed_table,
            target,
            next,
            removed.insert(worklist.last().1),
            worklist.drop_last() + referrers,
        ),
{
    let tid = worklist.last().0;
    let rid = worklist.last().1;
    let gone = removed.insert(rid);
    let rest = worklist.drop_last();
    let listed = rest + referrers;
    assert(start.has_row(tid, rid));
    assert(start.row_wf(tid, rid));
    lemma_bounded_set_len(removed, start.next_row_key as int);
    assert forall|x: i64| gone.contains(x) implies 1 <= x < start.next_row_key by {}
    lemma_bounded_set_len(gone, start.next_row_key as int);

    assert forall|t: i32, x: i64| #[trigger]
        next.has_row(t, x) <==> start.has_row(t, x) && !gone.contains(x) by {
        if start.has_row(t, x) && x == rid {
            assert(t == tid);
        }
        assert(cur.has_row(t, x) == (start.has_row(t, x) && !removed.contains(x)));
    }
    assert forall|t: i32, x: i64| #[trigger] next.has_row(t, x) implies next.row(t, x)
        == start.row(t, x) by {
        assert(cur.has_row(t, x));
    }
    assert forall|i: int| 0 <= i < listed.len() implies start.has_row(
        (#[trigger] listed[i]).0,
        listed[i].1,
    ) && start.reaches(listed[i].1, target) by {
        if i < rest.len() {
            assert(listed[i] == worklist[i]);
        } else {
            let p = referrers[i - rest.len()];
            assert(listed[i] == p);
            assert(referrers.contains((p.0, p.1)));
            assert(cur.index.contains((rid, p.0, p.1)));
            assert(start.index.contains((rid, p.0, p.1)));
            assert(start.refers(p.0, p.1, rid));
            assert(start.edge(p.1, rid));
            assert(start.reaches(rid, target)) by {
                assert(worklist[worklist.len() - 1] == (tid, rid));
            }
            lemma_reaches_extend(start, p.1, rid, target);
        }
    }
    assert forall|x: i64| #[trigger] gone.contains(x) implies 1 <= x < start.next_row_key
        && start.reaches(x, target) by {
        if x == rid {
            assert(worklist[worklist.len() - 1] == (tid, rid));
        }
    }
    assert forall|t: i32, a: i64, b: i64| #[trigger]
        start.refers(t, a, b) && gone.contains(b) implies gone.contains(a) || listed.contains(
        (t, a),
    ) by {
        if !gone.contains(a) {
            if removed.contains(b) {
                assert(worklist.contains((t, a)));
                lemma_drop_last_contains(worklist, (t, a));
                let j = choose|j: int| 0 <= j < rest.len() && rest[j] == (t, a);
                assert(listed[j] == (t, a));
            } else {
                assert(b == rid);
                assert(start.index.contains((rid, t, a)));
                assert(cur.index.contains((rid, t, a)));
                assert(referrers.contains((t, a)));
                let j = choose|j: int| 0 <= j < referrers.len() && referrers[j] == (t, a);
                assert(listed[rest.len() + j] == (t, a));
            }
        }
    }
    assert(gone.contains(target) || listed.contains((seed_table, target))) by {
        if !gone.contains(target) {
            lemma_drop_last_contains(worklist, (seed_table, target));
            let j = choose|j: int| 0 <= j < rest.len() && rest[j] == (seed_table, target);
            assert(listed[j] == (seed_table, target));
        }
    }
    assert forall|k: i64, t: i32, x: i64| #[trigger]
        next.index.contains((k, t, x)) <==> start.index.contains((k, t, x)) && !gone.contains(x)
            && !gone.contains(k) by {
        if start.index.contains((k, t, x)) && x == rid {
            assert(start.refers(t, x, k));
            assert(t == tid);
            assert(cur.row(tid, rid) == start.row(tid, rid));
        }
        assert(cur.index.contains((k, t, x)) == (start.index.contains((k, t, x))
            && !removed.contains(x) && !removed.contains(k)));
    }
}

/// Along a chain of references that ends in a removed row, every row is
/// removed, once the rows that refer to a removed row are all removed.
proof fn lemma_path_removed(start: DbView, removed: Set<i64>, path: Seq<i64>, i: int)
    requires
        start.is_path(path),
        removed.contains(path.last()),
        forall|t: i32, a: i64, b: i64| #[trigger]
            start.refers(t, a, b) && removed.contains(b) ==> removed.contains(a),
        0 <= i < path.len(),
    ensures
        removed.contains(path[i]),
    decreases path.len() - i,
{
    if i < path.len() - 1 {
        lemma_path_removed(start, removed, path, i + 1);
        let from = path[i];
        let to = path[i + 1];
        assert(start.edge(from, to));
        let t = choose|t: i32| start.refers(t, from, to);
        assert(start.refers(t, from, to));
    }
}

/// When nothing is listed any more, the state is the one that the model
/// gives for the drop.
pub proof fn lemma_cascade_done(
    start: DbView,
    seed_table: i32,
    target: i64,
    cur: DbView,
    removed: Set<i64>,
)
    requires
        start.wf(),
        cascade_inv(start, seed_table, target, cur, removed, Seq::empty()),
    ensures
        cur == start.after_drop(target),
{
    let expected = start.after_drop(target);
    let none = Seq::<(i32, i64)>::empty();
    assert forall|t: i32, a: i64, b: i64| #[trigger]
        start.refers(t, a, b) && removed.contains(b) implies removed.contains(a) by {
        assert(!none.contains((t, a)));
    }
    assert(removed.contains(target)) by {
        assert(!none.contains((seed_table, target)));
    }
    assert forall|x: i64| start.reaches(x, target) implies removed.contains(x) by {
        let path = choose|path: Seq<i64>| #[trigger]
            start.is_path(path) && path[0] == x && path.last() == target;
        lemma_path_removed(start, removed, path, 0);
    }
    assert forall|j: int| 0 <= j < expected.tables.len() implies #[trigger] cur.tables[j]
        =~= expected.tables[j] by {
        let t = (j + 1) as i32;
        assert forall|x: i64| cur.tables[j].contains_key(x) == expected.tables[j].contains_key(
            x,
        ) by {
            assert(cur.has_row(t, x) == (start.has_row(t, x) && !removed.contains(x)));
        }
        assert forall|x: i64| cur.tables[j].contains_key(x) implies cur.tables[j][x]
            == expected.tables[j][x] by {
            assert(cur.has_row(t, x));
            assert(cur.row(t, x) == start.row(t, x));
        }
    }
    assert(cur.tables =~= expected.tables);
    assert forall|e: (i64, i32, i64)| cur.index.contains(e) == expected.index.contains(e) by {
        assert(cur.index.contains((e.0, e.1, e.2)) == (start.index.contains((e.0, e.1, e.2))
            && !removed.contains(e.2) && !removed.contains(e.0)));
        if start.index.contains(e) && removed.contains(e.0) {
            assert(start.refers(e.1, e.2, e.0));
        }
    }
    assert(cur.index =~= expected.index);
}

} // verus!
