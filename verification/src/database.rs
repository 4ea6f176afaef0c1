//! The engine: the tables with their rows, the reverse-reference index, and
//! the five operations on them.

use std::collections::HashMap;
use std::collections::HashSet;
use vstd::prelude::*;
use vstd::std_specs::iter::IteratorSpec;
use crate::cascade::{
    cascade_inv,
    lemma_cascade_done,
    lemma_cascade_remove,
    lemma_cascade_skip,
    lemma_cascade_start,
};
use crate::model::{holds_reference, is_ordered_operator, satisfies, DbView, RowView};
use crate::packet::{
    Command,
    ErrorCode,
    Request,
    Response,
    ResponseView,
    OP_AL,
    OP_EQ,
    OP_GE,
    OP_GT,
    OP_LE,
    OP_LT,
    OP_NE,
};
use crate::schema::{id_in_range, schema_valid, TableMetadata};
use crate::value::{values_view, Value, ValueType};

verus! {

broadcast use vstd::std_specs::hash::group_hash_axioms;

/// A stored row.
pub struct DatabaseTableRow {
    version: i64,
    data: Vec<Value>,
}

/// A table: its definition and its rows by row id.
pub struct DatabaseTable {
    table_schema: TableMetadata,
    rows: HashMap<i64, DatabaseTableRow>,
}

/// The tables, the row id that the next insert issues, and the
/// reverse-reference index: for a row id, the rows that refer to it, each as
/// a pair of table id and row id.
pub struct DatabaseData {
    tables: Vec<DatabaseTable>,
    next_row_key: i64,
    foreign_references_map: HashMap<i64, Vec<(i32, i64)>>,
}

/// The store.
pub struct Database {
    db: DatabaseData,
}

impl View for DatabaseTableRow {
    type V = RowView;

    closed spec fn view(&self) -> RowView {
        RowView { version: self.version, values: values_view(self.data@) }
    }
}

impl View for DatabaseTable {
    type V = Map<i64, RowView>;

    closed spec fn view(&self) -> Map<i64, RowView> {
        Map::new(|r: i64| self.rows@.contains_key(r), |r: i64| self.rows@[r]@)
    }
}

/// The index that a map from row ids to lists of referring rows stands for.
pub closed spec fn index_view(map: Map<i64, Vec<(i32, i64)>>) -> Set<(i64, i32, i64)> {
    Set::new(|e: (i64, i32, i64)| indexed(map, e.0, e.1, e.2))
}

/// Whether the map lists the row `row_id` of the table `table_id` among the
/// rows that refer to the row `target`.
pub closed spec fn indexed(
    map: Map<i64, Vec<(i32, i64)>>,
    target: i64,
    table_id: i32,
    row_id: i64,
) -> bool {
    map.contains_key(target) && map[target]@.contains((table_id, row_id))
}

/// Whether no list of the map names a row twice.
pub closed spec fn lists_distinct(map: Map<i64, Vec<(i32, i64)>>) -> bool {
    forall|k: i64| #[trigger] map.contains_key(k) ==> map[k]@.no_duplicates()
}

impl DatabaseData {
    /// What holds of the representation: the index lists each referring row
    /// once.
    pub closed spec fn inv(&self) -> bool {
        lists_distinct(self.foreign_references_map@)
    }
}

impl View for DatabaseData {
    type V = DbView;

    closed spec fn view(&self) -> DbView {
        DbView {
            schema: Seq::new(self.tables@.len(), |t: int| self.tables@[t].table_schema),
            tables: Seq::new(self.tables@.len(), |t: int| self.tables@[t]@),
            next_row_key: self.next_row_key,
            index: index_view(self.foreign_references_map@),
        }
    }
}

impl View for Database {
    type V = DbView;

    closed spec fn view(&self) -> DbView {
        self.db@
    }
}

impl Database {
    /// What holds of the representation.
    pub closed spec fn inv(&self) -> bool {
        self.db.inv()
    }

    /// The invariant of the store, which [`Database::new`] establishes and
    /// [`handle_request`] keeps.
    pub open spec fn wf(&self) -> bool {
        self@.wf() && self.inv()
    }

    /// Whether the request is within the machine's integers, which
    /// [`handle_request`] asks of its caller.
    pub fn accepts(&self, request: &Request) -> (ok: bool)
        ensures
            ok == self@.in_range(request@),
    {
        match &request.command {
            Command::Insert(_) => self.db.next_row_key < i64::MAX,
            Command::Update(row_id, version, _) => {
                if *version < i64::MAX {
                    true
                } else if !validate_table_id(&self.db.tables, request.table_id) {
                    true
                } else {
                    // Only a row at the last version has no version after it.
                    match self.db.tables[(request.table_id - 1) as usize].rows.get(row_id) {
                        Some(row) => row.version != *version,
                        None => true,
                    }
                }
            },
            _ => true,
        }
    }

    /// A store with the given tables and no rows.
    pub fn new(tables_schema: Vec<TableMetadata>) -> (db: Database)
        requires
            schema_valid(tables_schema@),
        ensures
            db@ == DbView::initial(tables_schema@),
            db.wf(),
    {
        let ghost schema = tables_schema@;
        let mut tables: Vec<DatabaseTable> = Vec::new();
        for table_schema in it: tables_schema
            invariant
                it.seq() == schema,
                tables@.len() == it.index(),
                forall|t: int|
                    0 <= t < tables@.len() ==> (#[trigger] tables@[t]).table_schema == schema[t]
                        && tables@[t].rows@ == Map::<i64, DatabaseTableRow>::empty(),
        {
            tables.push(DatabaseTable { table_schema, rows: HashMap::new() });
        }
        let db = Database {
            db: DatabaseData { tables, next_row_key: 1, foreign_references_map: HashMap::new() },
        };
        proof {
            let initial = DbView::initial(schema);
            assert(db@.schema =~= initial.schema);
            assert(db@.tables =~~= initial.tables);
            assert(db@.index =~= initial.index);
            crate::preservation::lemma_initial_wf(schema);
        }
        db
    }
}

/// Whether `table_id` names one of the tables.
fn validate_table_id(db_tables: &Vec<DatabaseTable>, table_id: i32) -> (valid: bool)
    ensures
        valid == (1 <= table_id <= db_tables@.len()),
{
    id_in_range(table_id, db_tables.len())
}

/// Whether `col_id` names one of the table's columns.
fn validate_column_id(target_table: &DatabaseTable, col_id: i32) -> (valid: bool)
    ensures
        valid == (1 <= col_id <= target_table.table_schema.t_cols@.len()),
{
    id_in_range(col_id, target_table.table_schema.t_cols.len())
}

/// Checks that the values can be stored in the table: their number, then
/// their types, then that each reference finds its row.
fn validate_values_against_schema(values: &Vec<Value>, table_id: i32, db: &DatabaseData) -> (result:
    Result<(), ErrorCode>)
    requires
        db@.wf(),
        db@.valid_table(table_id),
    ensures
        match result {
            Ok(_) => db@.validation_error(table_id, values_view(values@)) is None,
            Err(code) => db@.validation_error(table_id, values_view(values@)) == Some(code),
        },
{
    let table_cols = &db.tables[(table_id - 1) as usize].table_schema.t_cols;
    let ghost views = values_view(values@);
    let ghost columns = db@.columns(table_id);
    assert(columns == table_cols@);
    if values.len() != table_cols.len() {
        return Err(ErrorCode::BadRow);
    }
    let mut i: usize = 0;
    while i < values.len()
        invariant
            i <= values@.len(),
            values@.len() == table_cols@.len(),
            views == values_view(values@),
            columns == table_cols@,
            columns == db@.columns(table_id),
            forall|j: int| 0 <= j < i ==> (#[trigger] views[j]).tag() == columns[j].c_type,
        decreases values@.len() - i,
    {
        if values[i].type_tag() != table_cols[i].c_type {
            assert(views[i as int].tag() != columns[i as int].c_type);
            return Err(ErrorCode::BadValue);
        }
        i = i + 1;
    }
    let mut i: usize = 0;
    while i < values.len()
        invariant
            i <= values@.len(),
            values@.len() == table_cols@.len(),
            views == values_view(values@),
            columns == table_cols@,
            db@.wf(),
            db@.valid_table(table_id),
            columns == db@.columns(table_id),
            crate::model::tags_match(views, columns),
            forall|j: int| 0 <= j < i ==> db@.reference_ok(#[trigger] views[j], columns[j].c_ref),
        decreases values@.len() - i,
    {
        if let Value::Foreign(referenced_row_id) = &values[i] {
            if *referenced_row_id != 0 {
                assert(views[i as int].tag() == columns[i as int].c_type);
                assert(crate::schema::table_valid(
                    db@.schema[table_id - 1],
                    db@.schema.len() as int,
                ));
                let referenced_table = &db.tables[(table_cols[i].c_ref - 1) as usize];
                if !referenced_table.rows.contains_key(referenced_row_id) {
                    assert(!db@.reference_ok(views[i as int], columns[i as int].c_ref));
                    return Err(ErrorCode::BadForeign);
                }
            }
        }
        i = i + 1;
    }
    Ok(())
}

/// The rows that the values refer to: the targets of the references that are
/// not `0`.
fn get_all_referenced_rows(values: &Vec<Value>) -> (foreign_referenced_rows: HashSet<i64>)
    ensures
        forall|target: i64|
            foreign_referenced_rows@.contains(target) <==> holds_reference(
                values_view(values@),
                target,
            ),
{
    let mut foreign_referenced_rows: HashSet<i64> = HashSet::new();
    let ghost views = values_view(values@);
    let mut i: usize = 0;
    while i < values.len()
        invariant
            i <= values@.len(),
            views == values_view(values@),
            forall|target: i64|
                foreign_referenced_rows@.contains(target) <==> holds_reference(
                    views.subrange(0, i as int),
                    target,
                ),
        decreases values@.len() - i,
    {
        if let Value::Foreign(referenced_row_id) = &values[i] {
            if *referenced_row_id != 0 {
                foreign_referenced_rows.insert(*referenced_row_id);
            }
        }
        proof {
            let shorter = views.subrange(0, i as int);
            let longer = views.subrange(0, i + 1);
            assert forall|target: i64|
                foreign_referenced_rows@.contains(target) <==> holds_reference(longer, target) by {
                if holds_reference(longer, target) {
                    let j = choose|j: int|
                        0 <= j < longer.len() && (#[trigger] longer[j]).refers_to(target);
                    if j < i {
                        assert(shorter[j].refers_to(target));
                    }
                }
                if holds_reference(shorter, target) {
                    let j = choose|j: int|
                        0 <= j < shorter.len() && (#[trigger] shorter[j]).refers_to(target);
                    assert(longer[j].refers_to(target));
                }
                if views[i as int].refers_to(target) {
                    assert(longer[i as int].refers_to(target));
                }
            }
        }
        i = i + 1;
    }
    assert(views.subrange(0, i as int) =~= views);
    foreign_referenced_rows
}

/// Whether the list holds the pair.
fn contains_pair(list: &Vec<(i32, i64)>, pair: (i32, i64)) -> (found: bool)
    ensures
        found == list@.contains(pair),
{
    let mut i: usize = 0;
    while i < list.len()
        invariant
            i <= list@.len(),
            forall|j: int| 0 <= j < i ==> list@[j] != pair,
        decreases list@.len() - i,
    {
        if list[i].0 == pair.0 && list[i].1 == pair.1 {
            return true;
        }
        i = i + 1;
    }
    false
}

/// The list without the pair.
fn without_pair(list: &Vec<(i32, i64)>, pair: (i32, i64)) -> (rest: Vec<(i32, i64)>)
    ensures
        forall|p: (i32, i64)| rest@.contains(p) <==> list@.contains(p) && p != pair,
        list@.no_duplicates() ==> rest@.no_duplicates(),
{
    let mut rest: Vec<(i32, i64)> = Vec::new();
    let mut i: usize = 0;
    while i < list.len()
        invariant
            i <= list@.len(),
            list@.no_duplicates() ==> rest@.no_duplicates(),
            forall|p: (i32, i64)|
                rest@.contains(p) <==> list@.subrange(0, i as int).contains(p) && p != pair,
        decreases list@.len() - i,
    {
        let ghost before = rest@;
        let ghost shorter = list@.subrange(0, i as int);
        let ghost longer = list@.subrange(0, i + 1);
        let item = list[i];
        let keep = !(item.0 == pair.0 && item.1 == pair.1);
        if keep {
            rest.push(item);
        }
        proof {
            assert(longer =~= shorter.push(item));
            if keep && list@.no_duplicates() {
                assert(rest@ =~= before.push(item));
                if before.contains(item) {
                    let j = choose|j: int| 0 <= j < shorter.len() && shorter[j] == item;
                    assert(list@[j] == list@[i as int]);
                }
                assert forall|a: int, b: int|
                    0 <= a < rest@.len() && 0 <= b < rest@.len() && a != b implies rest@[a]
                    != rest@[b] by {
                    if a < before.len() {
                        assert(before.contains(before[a]));
                    }
                    if b < before.len() {
                        assert(before.contains(before[b]));
                    }
                }
            }
            assert forall|p: (i32, i64)| rest@.contains(p) <==> longer.contains(p) && p
                != pair by {
                if keep {
                    assert(rest@ =~= before.push(item));
                    if before.contains(p) {
                        let j = choose|j: int| 0 <= j < before.len() && before[j] == p;
                        assert(rest@[j] == p);
                    }
                    if p == item {
                        assert(rest@[before.len() as int] == p);
                    }
                }
                if shorter.contains(p) {
                    let j = choose|j: int| 0 <= j < shorter.len() && shorter[j] == p;
                    assert(longer[j] == p);
                }
                if p == item {
                    assert(longer[i as int] == p);
                }
            }
        }
        i = i + 1;
    }
    assert(list@.subrange(0, i as int) =~= list@);
    rest
}

/// Records in the index that the row `pair` refers to the row `target`.
fn add_reference(
    foreign_ref_map: &mut HashMap<i64, Vec<(i32, i64)>>,
    target: i64,
    pair: (i32, i64),
)
    ensures
        forall|k: i64, t: i32, r: i64| #[trigger]
            indexed(final(foreign_ref_map)@, k, t, r) <==> indexed(old(foreign_ref_map)@, k, t, r)
                || (k == target && t == pair.0 && r == pair.1),
        lists_distinct(old(foreign_ref_map)@) ==> lists_distinct(final(foreign_ref_map)@),
{
    let ghost before = foreign_ref_map@;
    let mut referrers = match foreign_ref_map.remove(&target) {
        Some(list) => list,
        None => Vec::new(),
    };
    let ghost listed = referrers@;
    if !contains_pair(&referrers, pair) {
        referrers.push(pair);
    }
    let ghost stored = referrers@;
    foreign_ref_map.insert(target, referrers);
    proof {
        assert forall|p: (i32, i64)| stored.contains(p) <==> listed.contains(p) || p == pair by {
            if stored != listed {
                assert(stored =~= listed.push(pair));
                if listed.contains(p) {
                    let j = choose|j: int| 0 <= j < listed.len() && listed[j] == p;
                    assert(stored[j] == p);
                }
                if p == pair {
                    assert(stored[listed.len() as int] == p);
                }
            }
        }
        assert forall|k: i64, t: i32, r: i64| #[trigger]
            indexed(foreign_ref_map@, k, t, r) <==> indexed(before, k, t, r) || (k == target && t
                == pair.0 && r == pair.1) by {
            assert(stored.contains((t, r)) <==> listed.contains((t, r)) || (t, r) == pair);
        }
    }
}

/// Removes from the index that the row `pair` refers to the row `target`.
fn remove_reference(
    foreign_ref_map: &mut HashMap<i64, Vec<(i32, i64)>>,
    target: i64,
    pair: (i32, i64),
)
    ensures
        forall|k: i64, t: i32, r: i64| #[trigger]
            indexed(final(foreign_ref_map)@, k, t, r) <==> indexed(old(foreign_ref_map)@, k, t, r)
                && !(k == target && t == pair.0 && r == pair.1),
        lists_distinct(old(foreign_ref_map)@) ==> lists_distinct(final(foreign_ref_map)@),
{
    let ghost before = foreign_ref_map@;
    match foreign_ref_map.remove(&target) {
        Some(list) => {
            let rest = without_pair(&list, pair);
            let ghost stored = rest@;
            foreign_ref_map.insert(target, rest);
            proof {
                assert forall|k: i64, t: i32, r: i64| #[trigger]
                    indexed(foreign_ref_map@, k, t, r) <==> indexed(before, k, t, r) && !(k
                        == target && t == pair.0 && r == pair.1) by {
                    assert(stored.contains((t, r)) <==> list@.contains((t, r)) && (t, r) != pair);
                }
            }
        },
        None => {
            assert(foreign_ref_map@ =~= before);
        },
    }
}

/// The items of the set, each once.
fn set_items(set: &HashSet<i64>) -> (items: Vec<i64>)
    ensures
        items@.no_duplicates(),
        forall|k: i64| items@.contains(k) <==> set@.contains(k),
{
    let ghost keys = set.iter().remaining().unref();
    assert(keys.to_set() == set@);
    let mut items: Vec<i64> = Vec::new();
    for k in it: set.iter()
        invariant
            it.seq().unref() == keys,
            it.seq().len() == keys.len(),
            items@.len() == it.index(),
            forall|i: int| 0 <= i < items@.len() ==> items@[i] == keys[i],
    {
        items.push(*k);
    }
    proof {
        assert(items@ =~= keys);
        assert forall|k: i64| items@.contains(k) <==> set@.contains(k) by {
            assert(keys.to_set().contains(k) <==> keys.contains(k));
        }
    }
    items
}

/// The ids of the rows, each once.
fn row_ids(rows: &HashMap<i64, DatabaseTableRow>) -> (ids: Vec<i64>)
    ensures
        ids@.no_duplicates(),
        forall|r: i64| ids@.contains(r) <==> rows@.contains_key(r),
{
    let ghost keys = rows.keys().remaining().unref();
    assert(keys.to_set() == rows@.dom());
    let mut ids: Vec<i64> = Vec::new();
    for k in it: rows.keys()
        invariant
            it.seq().unref() == keys,
            it.seq().len() == keys.len(),
            ids@.len() == it.index(),
            forall|i: int| 0 <= i < ids@.len() ==> ids@[i] == keys[i],
    {
        ids.push(*k);
    }
    proof {
        assert(ids@ =~= keys);
        assert forall|r: i64| ids@.contains(r) <==> rows@.contains_key(r) by {
            assert(keys.to_set().contains(r) <==> keys.contains(r));
        }
    }
    ids
}

/// Records in the index that the row `referencing_row_id` of the table
/// `referencing_row_table_id` refers to each of the rows `referenced_rows`.
fn add_to_foreign_reference_map(
    foreign_ref_map: &mut HashMap<i64, Vec<(i32, i64)>>,
    referenced_rows: &HashSet<i64>,
    referencing_row_id: i64,
    referencing_row_table_id: i32,
)
    ensures
        forall|k: i64, t: i32, r: i64| #[trigger]
            indexed(final(foreign_ref_map)@, k, t, r) <==> indexed(old(foreign_ref_map)@, k, t, r)
                || (referenced_rows@.contains(k) && t == referencing_row_table_id && r
                == referencing_row_id),
        lists_distinct(old(foreign_ref_map)@) ==> lists_distinct(final(foreign_ref_map)@),
{
    let ghost before = foreign_ref_map@;
    let targets = set_items(referenced_rows);
    let mut i: usize = 0;
    while i < targets.len()
        invariant
            i <= targets@.len(),
            lists_distinct(before) ==> lists_distinct(foreign_ref_map@),
            forall|k: i64, t: i32, r: i64| #[trigger]
                indexed(foreign_ref_map@, k, t, r) <==> indexed(before, k, t, r) || (
                targets@.subrange(0, i as int).contains(k) && t == referencing_row_table_id && r
                    == referencing_row_id),
        decreases targets@.len() - i,
    {
        proof {
            lemma_subrange_contains(targets@, i as int);
        }
        add_reference(foreign_ref_map, targets[i], (referencing_row_table_id, referencing_row_id));
        i = i + 1;
    }
    proof {
        assert(targets@.subrange(0, i as int) =~= targets@);
        assert forall|k: i64, t: i32, r: i64| #[trigger]
            indexed(foreign_ref_map@, k, t, r) <==> indexed(before, k, t, r) || (
            referenced_rows@.contains(k) && t == referencing_row_table_id && r
                == referencing_row_id) by {
            assert(targets@.contains(k) <==> referenced_rows@.contains(k));
        }
    }
}

/// Removes from the index that the row `referencing_row_id` of the table
/// `referencing_row_table_id` refers to each of the rows `referenced_rows`.
fn remove_from_foreign_reference_map(
    foreign_ref_map: &mut HashMap<i64, Vec<(i32, i64)>>,
    referenced_rows: &HashSet<i64>,
    referencing_row_id: i64,
    referencing_row_table_id: i32,
)
    ensures
        forall|k: i64, t: i32, r: i64| #[trigger]
            indexed(final(foreign_ref_map)@, k, t, r) <==> indexed(old(foreign_ref_map)@, k, t, r)
                && !(referenced_rows@.contains(k) && t == referencing_row_table_id && r
                == referencing_row_id),
        lists_distinct(old(foreign_ref_map)@) ==> lists_distinct(final(foreign_ref_map)@),
{
    let ghost before = foreign_ref_map@;
    let targets = set_items(referenced_rows);
    let mut i: usize = 0;
    while i < targets.len()
        invariant
            i <= targets@.len(),
            lists_distinct(before) ==> lists_distinct(foreign_ref_map@),
            forall|k: i64, t: i32, r: i64| #[trigger]
                indexed(foreign_ref_map@, k, t, r) <==> indexed(before, k, t, r) && !(
                targets@.subrange(0, i as int).contains(k) && t == referencing_row_table_id && r
                    == referencing_row_id),
        decreases targets@.len() - i,
    {
        proof {
            lemma_subrange_contains(targets@, i as int);
        }
        remove_reference(
            foreign_ref_map,
            targets[i],
            (referencing_row_table_id, referencing_row_id),
        );
        i = i + 1;
    }
    proof {
        assert(targets@.subrange(0, i as int) =~= targets@);
        assert forall|k: i64, t: i32, r: i64| #[trigger]
            indexed(foreign_ref_map@, k, t, r) <==> indexed(before, k, t, r) && !(
            referenced_rows@.contains(k) && t == referencing_row_table_id && r
                == referencing_row_id) by {
            assert(targets@.contains(k) <==> referenced_rows@.contains(k));
        }
    }
}

/// An item is among the first `i + 1` of a sequence when it is among the
/// first `i` or is the one at `i`.
proof fn lemma_prefix_contains<T>(items: Seq<T>, i: int, x: T)
    requires
        0 <= i < items.len(),
    ensures
        items.subrange(0, i + 1).contains(x) <==> items.subrange(0, i).contains(x) || x
            == items[i],
{
    let shorter = items.subrange(0, i);
    let longer = items.subrange(0, i + 1);
    if longer.contains(x) {
        let j = choose|j: int| 0 <= j < longer.len() && longer[j] == x;
        if j < i {
            assert(shorter[j] == x);
        }
    }
    if shorter.contains(x) {
        let j = choose|j: int| 0 <= j < shorter.len() && shorter[j] == x;
        assert(longer[j] == x);
    }
    if x == items[i] {
        assert(longer[i] == x);
    }
}

/// The same of every item.
proof fn lemma_subrange_contains<T>(items: Seq<T>, i: int)
    requires
        0 <= i < items.len(),
    ensures
        forall|x: T|
            items.subrange(0, i + 1).contains(x) <==> items.subrange(0, i).contains(x) || x
                == items[i],
{
    assert forall|x: T|
        items.subrange(0, i + 1).contains(x) <==> items.subrange(0, i).contains(x) || x
            == items[i] by {
        lemma_prefix_contains(items, i, x);
    }
}

/// A copy of the values.
fn clone_values(values: &Vec<Value>) -> (copy: Vec<Value>)
    ensures
        copy@ == values@,
{
    let mut copy: Vec<Value> = Vec::new();
    let mut i: usize = 0;
    while i < values.len()
        invariant
            i <= values@.len(),
            copy@ == values@.subrange(0, i as int),
        decreases values@.len() - i,
    {
        copy.push(values[i].clone());
        assert(copy@ =~= values@.subrange(0, i + 1));
        i = i + 1;
    }
    assert(values@.subrange(0, i as int) =~= values@);
    copy
}

/// Stores a new row, under the next row id and with version `1`.
///
/// The values are checked against the table first: their number, then their
/// types, then that each reference finds its row. A refused insert changes
/// nothing and uses no row id.
pub fn handle_insert(db: &mut Database, table_id: i32, values: Vec<Value>) -> (result: Result<
    Response,
    ErrorCode,
>)
    requires
        old(db).wf(),
        old(db)@.next_row_key < i64::MAX,
    ensures
        final(db).wf(),
        match result {
            Ok(response) => {
                &&& old(db)@.insert_error(table_id, values_view(values@)) is None
                &&& final(db)@ == old(db)@.after_insert(table_id, values_view(values@))
                &&& response@ == ResponseView::Insert(old(db)@.next_row_key, 1)
            },
            Err(code) => {
                &&& old(db)@.insert_error(table_id, values_view(values@)) == Some(code)
                &&& final(db)@ == old(db)@
            },
        },
{
    if !validate_table_id(&db.db.tables, table_id) {
        return Err(ErrorCode::BadTable);
    }
    if let Err(error_code) = validate_values_against_schema(&values, table_id, &db.db) {
        return Err(error_code);
    }
    let ghost before = db@;
    let ghost views = values_view(values@);
    let inserted_row_key = db.db.next_row_key;
    db.db.next_row_key = inserted_row_key + 1;

    let foreign_referenced_rows = get_all_referenced_rows(&values);
    add_to_foreign_reference_map(
        &mut db.db.foreign_references_map,
        &foreign_referenced_rows,
        inserted_row_key,
        table_id,
    );

    let table_index = (table_id - 1) as usize;
    db.db.tables[table_index].rows.insert(
        inserted_row_key,
        DatabaseTableRow { version: 1, data: values },
    );
    proof {
        let expected = before.after_insert(table_id, views);
        assert(db@.schema =~= expected.schema);
        assert forall|t: int| 0 <= t < expected.tables.len() implies #[trigger] db@.tables[t]
            =~= expected.tables[t] by {}
        assert(db@.tables =~= expected.tables);
        assert(db@.index =~= expected.index);
        crate::preservation::lemma_insert_wf(before, table_id, views);
    }
    Ok(Response::Insert(inserted_row_key, 1))
}

/// Replaces the values of a row whose version is the client's, or whatever
/// its version when the client's is `0`. The row's new version is the one
/// after the client's.
///
/// The table id is checked first, then the values as for an insert, then
/// that the row exists, then the version. A refused update changes nothing.
/// Asked of the caller is only that a row at the last version is not updated
/// with that version.
pub fn handle_update(
    db: &mut Database,
    table_id: i32,
    object_id: i64,
    version: i64,
    new_values: Vec<Value>,
) -> (result: Result<Response, ErrorCode>)
    requires
        old(db).wf(),
        version < i64::MAX || !(old(db)@.has_row(table_id, object_id) && old(db)@.row(
            table_id,
            object_id,
        ).version == version),
    ensures
        final(db).wf(),
        match result {
            Ok(response) => {
                &&& old(db)@.update_error(table_id, object_id, version, values_view(new_values@))
                    is None
                &&& final(db)@ == old(db)@.after_update(
                    table_id,
                    object_id,
                    version,
                    values_view(new_values@),
                )
                &&& response@ == ResponseView::Update((version + 1) as i64)
            },
            Err(code) => {
                &&& old(db)@.update_error(table_id, object_id, version, values_view(new_values@))
                    == Some(code)
                &&& final(db)@ == old(db)@
            },
        },
{
    if !validate_table_id(&db.db.tables, table_id) {
        return Err(ErrorCode::BadTable);
    }
    if let Err(error_code) = validate_values_against_schema(&new_values, table_id, &db.db) {
        return Err(error_code);
    }
    let ghost before = db@;
    let ghost views = values_view(new_values@);
    let table_index = (table_id - 1) as usize;

    let target_row = match db.db.tables[table_index].rows.get(&object_id) {
        Some(row) => row,
        None => {
            return Err(ErrorCode::NotFound);
        },
    };
    if target_row.version != version && version != 0 {
        return Err(ErrorCode::TxnAbort);
    }
    let ghost previous = before.row(table_id, object_id).values;
    assert(previous == values_view(target_row.data@));
    let prev_foreign_referenced_rows = get_all_referenced_rows(&target_row.data);
    let new_foreign_referenced_rows = get_all_referenced_rows(&new_values);
    remove_from_foreign_reference_map(
        &mut db.db.foreign_references_map,
        &prev_foreign_referenced_rows,
        object_id,
        table_id,
    );
    add_to_foreign_reference_map(
        &mut db.db.foreign_references_map,
        &new_foreign_referenced_rows,
        object_id,
        table_id,
    );

    let new_version_num = version + 1;
    db.db.tables[table_index].rows.insert(
        object_id,
        DatabaseTableRow { version: new_version_num, data: new_values },
    );
    proof {
        let expected = before.after_update(table_id, object_id, version, views);
        assert(db@.schema =~= expected.schema);
        assert forall|t: int| 0 <= t < expected.tables.len() implies #[trigger] db@.tables[t]
            =~= expected.tables[t] by {}
        assert(db@.tables =~= expected.tables);
        assert forall|e: (i64, i32, i64)| db@.index.contains(e) == expected.index.contains(e) by {
            assert(before.index.contains(e) == before.refers(e.1, e.2, e.0));
        }
        assert(db@.index =~= expected.index);
        crate::preservation::lemma_update_wf(before, table_id, object_id, version, views);
    }
    Ok(Response::Update(new_version_num))
}

/// Reads a row: its version and a copy of its values.
pub fn handle_get(db: &Database, table_id: i32, object_id: i64) -> (result: Result<
    Response,
    ErrorCode,
>)
    ensures
        match result {
            Ok(response) => {
                &&& db@.lookup_error(table_id, object_id) is None
                &&& response@ == ResponseView::Get(
                    db@.row(table_id, object_id).version,
                    db@.row(table_id, object_id).values,
                )
            },
            Err(code) => db@.lookup_error(table_id, object_id) == Some(code),
        },
{
    if !validate_table_id(&db.db.tables, table_id) {
        return Err(ErrorCode::BadTable);
    }
    let target_table = &db.db.tables[(table_id - 1) as usize];
    let target_row = match target_table.rows.get(&object_id) {
        Some(row) => row,
        None => {
            return Err(ErrorCode::NotFound);
        },
    };
    let res = clone_values(&target_row.data);
    Ok(Response::Get(target_row.version, res))
}

/// Whether a value satisfies an operator other than `OP_AL` and a comparand
/// of the value's type.
fn test_value(operator: i32, value: &Value, comparand: &Value) -> (holds: bool)
    requires
        value@.tag() == comparand@.tag(),
        operator == OP_EQ || operator == OP_NE || is_ordered_operator(operator),
    ensures
        holds == satisfies(operator, value@, comparand@),
{
    if operator == OP_EQ {
        value.equals(comparand)
    } else if operator == OP_NE {
        !value.equals(comparand)
    } else if operator == OP_LT {
        value.less_than(comparand)
    } else if operator == OP_GT {
        comparand.less_than(value)
    } else if operator == OP_LE {
        value.at_most(comparand)
    } else {
        comparand.at_most(value)
    }
}

/// Lists the ids of the rows of a table that a predicate holds of, each once
/// and in no particular order.
pub fn handle_query(db: &Database, table_id: i32, column_id: i32, operator: i32, other: Value) -> (result:
    Result<Response, ErrorCode>)
    requires
        db.wf(),
    ensures
        match result {
            Ok(response) => {
                &&& db@.query_error(table_id, column_id, operator, other@) is None
                &&& response matches Response::Query(row_ids)
                &&& row_ids@.no_duplicates()
                &&& forall|r: i64|
                    row_ids@.contains(r) <==> db@.query_matches(
                        table_id,
                        column_id,
                        operator,
                        other@,
                        r,
                    )
            },
            Err(code) => db@.query_error(table_id, column_id, operator, other@) == Some(code),
        },
{
    if !validate_table_id(&db.db.tables, table_id) {
        return Err(ErrorCode::BadTable);
    }
    let target_table = &db.db.tables[(table_id - 1) as usize];
    let target_table_cols = &target_table.table_schema.t_cols;
    assert(db@.columns(table_id) == target_table_cols@);

    if operator == OP_AL {
        // Every row is asked for, which only the row id column can select.
        if column_id != 0 {
            return Err(ErrorCode::BadQuery);
        }
        let res = row_ids(&target_table.rows);
        return Ok(Response::Query(res));
    }
    if column_id != 0 && !validate_column_id(target_table, column_id) {
        return Err(ErrorCode::BadQuery);
    }
    // Column id `0` selects the row id, which is compared as an integer.
    let target_col_type = if column_id == 0 {
        ValueType::Integer
    } else {
        target_table_cols[(column_id - 1) as usize].c_type
    };
    if other.type_tag() != target_col_type {
        return Err(ErrorCode::BadQuery);
    }
    if operator != OP_EQ && operator != OP_NE {
        if operator != OP_LT && operator != OP_GT && operator != OP_LE && operator != OP_GE {
            return Err(ErrorCode::BadQuery);
        }
        // Row ids and references are compared for equality only.
        if target_col_type == ValueType::Foreign || column_id == 0 {
            return Err(ErrorCode::BadQuery);
        }
    }
    let ids = row_ids(&target_table.rows);
    let mut res: Vec<i64> = Vec::new();
    let mut i: usize = 0;
    while i < ids.len()
        invariant
            i <= ids@.len(),
            db.wf(),
            db@.valid_table(table_id),
            target_table == db.db.tables@[table_id - 1],
            db@.columns(table_id) == target_table.table_schema.t_cols@,
            0 <= column_id <= target_table.table_schema.t_cols@.len(),
            operator == OP_EQ || operator == OP_NE || is_ordered_operator(operator),
            is_ordered_operator(operator) ==> column_id != 0,
            other@.tag() == db@.selected_type(table_id, column_id),
            ids@.no_duplicates(),
            forall|r: i64| ids@.contains(r) <==> target_table.rows@.contains_key(r),
            res@.no_duplicates(),
            forall|r: i64|
                res@.contains(r) ==> ids@.subrange(0, i as int).contains(r) && db@.query_matches(
                    table_id,
                    column_id,
                    operator,
                    other@,
                    r,
                ),
            forall|j: int|
                0 <= j < i && db@.query_matches(
                    table_id,
                    column_id,
                    operator,
                    other@,
                    #[trigger] ids@[j],
                ) ==> res@.contains(ids@[j]),
        decreases ids@.len() - i,
    {
        let id = ids[i];
        let ghost found = res@;
        assert(ids@.contains(id));
        assert(db@.has_row(table_id, id));
        assert(db@.row_wf(table_id, id));
        let matched = if column_id == 0 {
            test_value(operator, &Value::Integer(id), &other)
        } else {
            match target_table.rows.get(&id) {
                Some(row) => {
                    let ghost values = db@.row(table_id, id).values;
                    assert(values == values_view(row.data@));
                    assert(values[column_id - 1] == row.data@[column_id - 1]@);
                    assert(values[column_id - 1].tag() == db@.columns(table_id)[column_id
                        - 1].c_type);
                    test_value(operator, &row.data[(column_id - 1) as usize], &other)
                },
                None => false,
            }
        };
        assert(matched == db@.query_matches(table_id, column_id, operator, other@, id));
        if matched {
            res.push(id);
        }
        proof {
            lemma_subrange_contains(ids@, i as int);
            if matched {
                assert(res@ =~= found.push(id));
                assert(!found.contains(id)) by {
                    if found.contains(id) {
                        let shorter = ids@.subrange(0, i as int);
                        let j = choose|j: int| 0 <= j < shorter.len() && shorter[j] == id;
                        assert(ids@[j] == ids@[i as int]);
                    }
                }
                assert forall|r: i64| res@.contains(r) <==> found.contains(r) || r == id by {
                    if found.contains(r) {
                        let j = choose|j: int| 0 <= j < found.len() && found[j] == r;
                        assert(res@[j] == r);
                    }
                    if r == id {
                        assert(res@[found.len() as int] == r);
                    }
                }
            }
            assert forall|r: i64| res@.contains(r) implies ids@.subrange(0, i + 1).contains(r)
                && db@.query_matches(table_id, column_id, operator, other@, r) by {
                if found.contains(r) {
                    assert(ids@.subrange(0, i as int).contains(r));
                } else {
                    assert(r == id);
                }
                lemma_prefix_contains(ids@, i as int, r);
            }
        }
        i = i + 1;
    }
    proof {
        assert(ids@.subrange(0, i as int) =~= ids@);
        assert forall|r: i64|
            db@.query_matches(table_id, column_id, operator, other@, r) implies res@.contains(
            r,
        ) by {
            assert(ids@.contains(r));
            let j = choose|j: int| 0 <= j < ids@.len() && ids@[j] == r;
            assert(res@.contains(ids@[j]));
        }
    }
    Ok(Response::Query(res))
}

/// Removes a row and every row that reaches it by references.
///
/// The rows still to remove are kept in a worklist. A row taken from it is
/// removed if it is still there; then its own references leave the index, and
/// the rows that the index lists as referring to it join the worklist.
fn drop_helper(db: &mut DatabaseData, table_id: i32, object_id: i64) -> (result: Result<
    Response,
    ErrorCode,
>)
    requires
        old(db)@.wf(),
        old(db).inv(),
    ensures
        final(db)@.wf(),
        final(db).inv(),
        match result {
            Ok(response) => {
                &&& old(db)@.lookup_error(table_id, object_id) is None
                &&& final(db)@ == old(db)@.after_drop(object_id)
                &&& response@ == ResponseView::Drop
            },
            Err(code) => {
                &&& old(db)@.lookup_error(table_id, object_id) == Some(code)
                &&& final(db)@ == old(db)@
            },
        },
{
    if !validate_table_id(&db.tables, table_id) {
        return Err(ErrorCode::BadTable);
    }
    if !db.tables[(table_id - 1) as usize].rows.contains_key(&object_id) {
        return Err(ErrorCode::NotFound);
    }
    let ghost start = db@;
    let ghost mut removed: Set<i64> = Set::empty();
    let mut worklist: Vec<(i32, i64)> = Vec::new();
    worklist.push((table_id, object_id));
    proof {
        assert(worklist@ =~= seq![(table_id, object_id)]);
        lemma_cascade_start(start, table_id, object_id);
    }
    while worklist.len() > 0
        invariant
            start.wf(),
            cascade_inv(start, table_id, object_id, db@, removed, worklist@),
            db.inv(),
            removed.finite(),
            removed.len() < start.next_row_key,
        decreases start.next_row_key - removed.len(), worklist@.len(),
    {
        let ghost cur = db@;
        let ghost listed = worklist@;
        if let Some((tid, rid)) = worklist.pop() {
            assert(listed.last() == (tid, rid));
            assert(worklist@ == listed.drop_last());
            assert(start.has_row(tid, rid));
            let table_index = (tid - 1) as usize;
            match db.tables[table_index].rows.remove(&rid) {
                None => {
                    proof {
                        assert(db@.schema =~= cur.schema);
                        assert forall|t: int| 0 <= t < cur.tables.len() implies #[trigger] db@.tables[t]
                            =~= cur.tables[t] by {}
                        assert(db@.tables =~= cur.tables);
                        assert(db@ == cur);
                        lemma_cascade_skip(start, table_id, object_id, cur, removed, listed);
                    }
                },
                Some(row) => {
                    let ghost values = values_view(row.data@);
                    assert(values == cur.row(tid, rid).values);
                    let targets = get_all_referenced_rows(&row.data);
                    remove_from_foreign_reference_map(
                        &mut db.foreign_references_map,
                        &targets,
                        rid,
                        tid,
                    );
                    let ghost scrubbed = db.foreign_references_map@;
                    let mut referencing_rows = match db.foreign_references_map.remove(&rid) {
                        Some(list) => list,
                        None => Vec::new(),
                    };
                    let ghost referrers = referencing_rows@;
                    worklist.append(&mut referencing_rows);
                    proof {
                        let next = db@;
                        assert(next.schema =~= cur.schema);
                        let expected = cur.tables.update(tid - 1, cur.tables[tid - 1].remove(rid));
                        assert forall|t: int| 0 <= t < expected.len() implies #[trigger] next.tables[t]
                            =~= expected[t] by {}
                        assert(next.tables =~= expected);
                        assert forall|t: i32, x: i64| #[trigger]
                            referrers.contains((t, x)) <==> cur.index.contains((rid, t, x)) && !(t
                                == tid && x == rid && holds_reference(
                                cur.row(t, x).values,
                                rid,
                            )) by {
                            assert(indexed(scrubbed, rid, t, x) == referrers.contains((t, x)));
                        }
                        assert forall|k: i64, t: i32, x: i64| #[trigger]
                            next.index.contains((k, t, x)) <==> cur.index.contains((k, t, x)) && k
                                != rid && !(t == tid && x == rid && holds_reference(
                                cur.row(t, x).values,
                                k,
                            )) by {
                            assert(indexed(db.foreign_references_map@, k, t, x) == (indexed(
                                scrubbed,
                                k,
                                t,
                                x,
                            ) && k != rid));
                        }
                        lemma_cascade_remove(
                            start,
                            table_id,
                            object_id,
                            cur,
                            removed,
                            listed,
                            next,
                            referrers,
                        );
                        removed = removed.insert(rid);
                    }
                },
            }
        }
    }
    proof {
        assert(worklist@ =~= Seq::empty());
        lemma_cascade_done(start, table_id, object_id, db@, removed);
        crate::preservation::lemma_drop_wf(start, table_id, object_id);
    }
    Ok(Response::Drop)
}

/// Removes a row and every row that reaches it by references. A refused
/// drop changes nothing.
pub fn handle_drop(db: &mut Database, table_id: i32, object_id: i64) -> (result: Result<
    Response,
    ErrorCode,
>)
    requires
        old(db).wf(),
    ensures
        final(db).wf(),
        match result {
            Ok(response) => {
                &&& old(db)@.lookup_error(table_id, object_id) is None
                &&& final(db)@ == old(db)@.after_drop(object_id)
                &&& response@ == ResponseView::Drop
            },
            Err(code) => {
                &&& old(db)@.lookup_error(table_id, object_id) == Some(code)
                &&& final(db)@ == old(db)@
            },
        },
{
    drop_helper(&mut db.db, table_id, object_id)
}

/// Carries out a request and answers it.
///
/// A request that is refused changes nothing. The command `Exit` is for the
/// session, not for the engine, which answers it with `Unimplemented`.
pub fn handle_request(request: Request, db: &mut Database) -> (response: Response)
    requires
        old(db).wf(),
        old(db)@.in_range(request@),
    ensures
        final(db).wf(),
        old(db)@.step(request@, final(db)@, response@),
{
    let result = match request.command {
        Command::Insert(values) => handle_insert(db, request.table_id, values),
        Command::Update(id, version, values) => handle_update(
            db,
            request.table_id,
            id,
            version,
            values,
        ),
        Command::Drop(id) => handle_drop(db, request.table_id, id),
        Command::Get(id) => handle_get(db, request.table_id, id),
        Command::Query(column_id, operator, value) => handle_query(
            db,
            request.table_id,
            column_id,
            operator,
            value,
        ),
        Command::Exit => Err(ErrorCode::Unimplemented),
    };
    match result {
        Ok(response) => response,
        Err(code) => Response::Error(code),
    }
}

} // verus!
