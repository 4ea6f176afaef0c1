use easydb::database::{
    handle_drop, handle_get, handle_insert, handle_query, handle_request, handle_update, Database,
};
use easydb::packet::{Command, ErrorCode, Request, Response, OP_AL, OP_EQ};
use easydb::schema::{id_in_range, schema_is_valid, ColumnMetadata, TableMetadata};
use easydb::value::{Value, ValueType};

fn col(name: &str, c_type: ValueType, c_ref: i32) -> ColumnMetadata {
    ColumnMetadata { c_name: String::from(name), c_type, c_ref }
}

fn table(name: &str, t_cols: Vec<ColumnMetadata>) -> TableMetadata {
    TableMetadata { t_name: String::from(name), t_cols }
}

/// Table 1: one integer. Table 2: a reference to table 1. Table 3: a text and
/// a reference to table 3 itself. Table 4: a reference to table 2.
fn store() -> Database {
    let schema = vec![
        table("numbers", vec![col("n", ValueType::Integer, 0)]),
        table("owners", vec![col("of", ValueType::Foreign, 1)]),
        table("nodes", vec![col("label", ValueType::Text, 0), col("next", ValueType::Foreign, 3)]),
        table("grand", vec![col("of", ValueType::Foreign, 2)]),
    ];
    assert!(schema_is_valid(&schema));
    Database::new(schema)
}

fn send(db: &mut Database, table_id: i32, command: Command) -> Response {
    let request = Request { table_id, command };
    assert!(db.accepts(&request));
    handle_request(request, db)
}

fn insert(db: &mut Database, table_id: i32, values: Vec<Value>) -> i64 {
    match send(db, table_id, Command::Insert(values)) {
        Response::Insert(id, version) => {
            assert_eq!(version, 1);
            id
        }
        other => panic!("insert refused: {:?}", other),
    }
}

fn is_stored(db: &mut Database, table_id: i32, row_id: i64) -> bool {
    match send(db, table_id, Command::Get(row_id)) {
        Response::Get(_, _) => true,
        Response::Error(ErrorCode::NotFound) => false,
        other => panic!("unexpected answer: {:?}", other),
    }
}

fn all_ids(db: &mut Database, table_id: i32) -> Vec<i64> {
    match send(db, table_id, Command::Query(0, OP_AL, Value::Null)) {
        Response::Query(mut ids) => {
            ids.sort();
            ids
        }
        other => panic!("query refused: {:?}", other),
    }
}

fn node(label: &str, next: i64) -> Vec<Value> {
    vec![Value::Text(String::from(label)), Value::Foreign(next)]
}

#[test]
fn schema_checks() {
    assert!(schema_is_valid(&Vec::new()));
    assert!(!schema_is_valid(&vec![table("t", vec![col("c", ValueType::Foreign, 2)])]));
    assert!(!schema_is_valid(&vec![table("t", vec![col("c", ValueType::Foreign, 0)])]));
    assert!(schema_is_valid(&vec![table("t", vec![col("c", ValueType::Integer, 7)])]));
    assert!(id_in_range(1, 1));
    assert!(!id_in_range(0, 1));
    assert!(!id_in_range(2, 1));
    assert!(!id_in_range(-1, 5));
}

#[test]
fn unknown_table_is_refused_by_every_command() {
    let mut db = store();
    insert(&mut db, 1, vec![Value::Integer(1)]);
    for table_id in [0, -1, 5, i32::MIN, i32::MAX] {
        let bad = Response::Error(ErrorCode::BadTable);
        assert_eq!(send(&mut db, table_id, Command::Insert(vec![Value::Integer(1)])), bad);
        assert_eq!(send(&mut db, table_id, Command::Update(1, 0, vec![Value::Integer(1)])), bad);
        assert_eq!(send(&mut db, table_id, Command::Get(1)), bad);
        assert_eq!(send(&mut db, table_id, Command::Drop(1)), bad);
        assert_eq!(send(&mut db, table_id, Command::Query(0, OP_AL, Value::Null)), bad);
    }
    assert_eq!(all_ids(&mut db, 1), vec![1]);
}

#[test]
fn exit_is_not_carried_out() {
    let mut db = store();
    assert_eq!(send(&mut db, 1, Command::Exit), Response::Error(ErrorCode::Unimplemented));
    assert_eq!(send(&mut db, 0, Command::Exit), Response::Error(ErrorCode::Unimplemented));
}

#[test]
fn insert_checks_number_then_types_then_references() {
    let mut db = store();
    assert_eq!(
        send(&mut db, 1, Command::Insert(vec![])),
        Response::Error(ErrorCode::BadRow)
    );
    assert_eq!(
        send(&mut db, 1, Command::Insert(vec![Value::Integer(1), Value::Integer(2)])),
        Response::Error(ErrorCode::BadRow)
    );
    assert_eq!(
        send(&mut db, 1, Command::Insert(vec![Value::Text(String::from("1"))])),
        Response::Error(ErrorCode::BadValue)
    );
    assert_eq!(
        send(&mut db, 1, Command::Insert(vec![Value::Foreign(999)])),
        Response::Error(ErrorCode::BadValue)
    );
    assert_eq!(
        send(&mut db, 2, Command::Insert(vec![Value::Integer(1)])),
        Response::Error(ErrorCode::BadValue)
    );
    // A wrong type is reported before a missing row, wherever they stand.
    assert_eq!(
        send(&mut db, 3, Command::Insert(vec![Value::Integer(1), Value::Foreign(999)])),
        Response::Error(ErrorCode::BadValue)
    );
    assert_eq!(
        send(&mut db, 3, Command::Insert(node("a", 999))),
        Response::Error(ErrorCode::BadForeign)
    );
    // Nothing was stored and no row id was used.
    for table_id in 1..=4 {
        assert_eq!(all_ids(&mut db, table_id), Vec::<i64>::new());
    }
    assert_eq!(insert(&mut db, 1, vec![Value::Integer(1)]), 1);
}

#[test]
fn reference_must_be_in_the_table_that_the_column_names() {
    let mut db = store();
    let number = insert(&mut db, 1, vec![Value::Integer(1)]);
    let owner = insert(&mut db, 2, vec![Value::Foreign(number)]);
    // Table 4 refers to table 2: a row of table 1 will not do.
    assert_eq!(
        send(&mut db, 4, Command::Insert(vec![Value::Foreign(number)])),
        Response::Error(ErrorCode::BadForeign)
    );
    assert_eq!(insert(&mut db, 4, vec![Value::Foreign(owner)]), 3);
}

#[test]
fn row_ids_increase_across_tables_and_after_drops() {
    let mut db = store();
    assert_eq!(insert(&mut db, 1, vec![Value::Integer(10)]), 1);
    assert_eq!(insert(&mut db, 3, node("a", 0)), 2);
    assert_eq!(insert(&mut db, 2, vec![Value::Foreign(1)]), 3);
    assert_eq!(send(&mut db, 1, Command::Drop(1)), Response::Drop);
    assert_eq!(insert(&mut db, 1, vec![Value::Integer(11)]), 4);
    assert_eq!(send(&mut db, 3, Command::Drop(2)), Response::Drop);
    assert_eq!(insert(&mut db, 3, node("b", 0)), 5);
    assert_eq!(all_ids(&mut db, 1), vec![4]);
    assert_eq!(all_ids(&mut db, 2), Vec::<i64>::new());
    assert_eq!(all_ids(&mut db, 3), vec![5]);
}

#[test]
fn a_row_id_belongs_to_one_table() {
    let mut db = store();
    let id = insert(&mut db, 1, vec![Value::Integer(10)]);
    assert!(is_stored(&mut db, 1, id));
    assert!(!is_stored(&mut db, 2, id));
    assert!(!is_stored(&mut db, 3, id));
    assert_eq!(send(&mut db, 2, Command::Drop(id)), Response::Error(ErrorCode::NotFound));
    assert!(is_stored(&mut db, 1, id));
}

#[test]
fn get_returns_what_was_written() {
    let mut db = store();
    let id = insert(&mut db, 3, node("first", 0));
    assert_eq!(send(&mut db, 3, Command::Get(id)), Response::Get(1, node("first", 0)));
    assert_eq!(send(&mut db, 3, Command::Update(id, 1, node("second", id))), Response::Update(2));
    assert_eq!(send(&mut db, 3, Command::Get(id)), Response::Get(2, node("second", id)));
    assert_eq!(send(&mut db, 3, Command::Get(id + 1)), Response::Error(ErrorCode::NotFound));
    assert_eq!(send(&mut db, 3, Command::Get(0)), Response::Error(ErrorCode::NotFound));
}

#[test]
fn get_returns_a_copy() {
    let mut db = store();
    let id = insert(&mut db, 3, node("kept", 0));
    match send(&mut db, 3, Command::Get(id)) {
        Response::Get(_, mut values) => {
            values[0] = Value::Text(String::from("changed"));
            values.push(Value::Null);
        }
        other => panic!("unexpected answer: {:?}", other),
    }
    assert_eq!(send(&mut db, 3, Command::Get(id)), Response::Get(1, node("kept", 0)));
}

#[test]
fn update_version_is_one_after_the_clients() {
    let mut db = store();
    let id = insert(&mut db, 1, vec![Value::Integer(0)]);
    for version in 1..20 {
        assert_eq!(
            send(&mut db, 1, Command::Update(id, version, vec![Value::Integer(version)])),
            Response::Update(version + 1)
        );
    }
    assert_eq!(send(&mut db, 1, Command::Get(id)), Response::Get(20, vec![Value::Integer(19)]));
}

#[test]
fn update_with_another_version_aborts_and_changes_nothing() {
    let mut db = store();
    let id = insert(&mut db, 1, vec![Value::Integer(5)]);
    for version in [2, 3, -1, i64::MIN, i64::MAX - 1] {
        assert_eq!(
            send(&mut db, 1, Command::Update(id, version, vec![Value::Integer(6)])),
            Response::Error(ErrorCode::TxnAbort)
        );
    }
    assert_eq!(send(&mut db, 1, Command::Get(id)), Response::Get(1, vec![Value::Integer(5)]));
}

#[test]
fn forced_update_succeeds_whatever_the_version() {
    let mut db = store();
    let id = insert(&mut db, 1, vec![Value::Integer(5)]);
    assert_eq!(send(&mut db, 1, Command::Update(id, 1, vec![Value::Integer(6)])), Response::Update(2));
    assert_eq!(send(&mut db, 1, Command::Update(id, 2, vec![Value::Integer(7)])), Response::Update(3));
    assert_eq!(send(&mut db, 1, Command::Update(id, 0, vec![Value::Integer(8)])), Response::Update(1));
    assert_eq!(send(&mut db, 1, Command::Update(id, 0, vec![Value::Integer(8)])), Response::Update(1));
    assert_eq!(send(&mut db, 1, Command::Get(id)), Response::Get(1, vec![Value::Integer(8)]));
}

#[test]
fn update_checks_values_before_the_row() {
    let mut db = store();
    let id = insert(&mut db, 2, vec![Value::Foreign(0)]);
    assert_eq!(
        send(&mut db, 2, Command::Update(id + 7, 1, vec![])),
        Response::Error(ErrorCode::BadRow)
    );
    assert_eq!(
        send(&mut db, 2, Command::Update(id + 7, 1, vec![Value::Null])),
        Response::Error(ErrorCode::BadValue)
    );
    assert_eq!(
        send(&mut db, 2, Command::Update(id + 7, 1, vec![Value::Foreign(999)])),
        Response::Error(ErrorCode::BadForeign)
    );
    assert_eq!(
        send(&mut db, 2, Command::Update(id + 7, 1, vec![Value::Foreign(0)])),
        Response::Error(ErrorCode::NotFound)
    );
    assert_eq!(
        send(&mut db, 2, Command::Update(id, 1, vec![Value::Foreign(999)])),
        Response::Error(ErrorCode::BadForeign)
    );
    assert_eq!(send(&mut db, 2, Command::Get(id)), Response::Get(1, vec![Value::Foreign(0)]));
}

#[test]
fn an_update_with_the_last_version_is_answered_like_any_other() {
    let mut db = store();
    let id = insert(&mut db, 1, vec![Value::Integer(5)]);
    assert_eq!(
        send(&mut db, 0, Command::Update(id, i64::MAX, vec![Value::Integer(1)])),
        Response::Error(ErrorCode::BadTable)
    );
    assert_eq!(
        send(&mut db, 1, Command::Update(id, i64::MAX, vec![])),
        Response::Error(ErrorCode::BadRow)
    );
    assert_eq!(
        send(&mut db, 1, Command::Update(id, i64::MAX, vec![Value::Null])),
        Response::Error(ErrorCode::BadValue)
    );
    assert_eq!(
        send(&mut db, 2, Command::Update(id, i64::MAX, vec![Value::Foreign(999)])),
        Response::Error(ErrorCode::BadForeign)
    );
    assert_eq!(
        send(&mut db, 1, Command::Update(id + 1, i64::MAX, vec![Value::Integer(1)])),
        Response::Error(ErrorCode::NotFound)
    );
    assert_eq!(
        send(&mut db, 1, Command::Update(id, i64::MAX, vec![Value::Integer(1)])),
        Response::Error(ErrorCode::TxnAbort)
    );
    assert_eq!(send(&mut db, 1, Command::Get(id)), Response::Get(1, vec![Value::Integer(5)]));
}

#[test]
fn the_handlers_answer_as_the_dispatcher_does() {
    let mut db = store();
    assert_eq!(
        handle_insert(&mut db, 1, vec![Value::Integer(5)]),
        Ok(Response::Insert(1, 1))
    );
    assert_eq!(handle_insert(&mut db, 9, vec![]), Err(ErrorCode::BadTable));
    assert_eq!(handle_insert(&mut db, 1, vec![]), Err(ErrorCode::BadRow));
    assert_eq!(handle_insert(&mut db, 1, vec![Value::Null]), Err(ErrorCode::BadValue));
    assert_eq!(
        handle_insert(&mut db, 2, vec![Value::Foreign(7)]),
        Err(ErrorCode::BadForeign)
    );
    assert_eq!(
        handle_insert(&mut db, 2, vec![Value::Foreign(1)]),
        Ok(Response::Insert(2, 1))
    );
    assert_eq!(
        handle_update(&mut db, 1, 1, 1, vec![Value::Integer(6)]),
        Ok(Response::Update(2))
    );
    assert_eq!(
        handle_update(&mut db, 1, 1, 1, vec![Value::Integer(7)]),
        Err(ErrorCode::TxnAbort)
    );
    assert_eq!(
        handle_update(&mut db, 1, 1, i64::MAX, vec![Value::Integer(7)]),
        Err(ErrorCode::TxnAbort)
    );
    assert_eq!(
        handle_update(&mut db, 1, 3, 1, vec![Value::Integer(7)]),
        Err(ErrorCode::NotFound)
    );
    assert_eq!(handle_get(&db, 1, 1), Ok(Response::Get(2, vec![Value::Integer(6)])));
    assert_eq!(handle_get(&db, 1, 2), Err(ErrorCode::NotFound));
    assert_eq!(handle_get(&db, 0, 1), Err(ErrorCode::BadTable));
    assert_eq!(
        handle_query(&db, 2, 1, OP_EQ, Value::Foreign(1)),
        Ok(Response::Query(vec![2]))
    );
    assert_eq!(handle_query(&db, 2, 2, OP_EQ, Value::Foreign(1)), Err(ErrorCode::BadQuery));
    assert_eq!(handle_drop(&mut db, 2, 1), Err(ErrorCode::NotFound));
    assert_eq!(handle_drop(&mut db, 1, 1), Ok(Response::Drop));
    assert_eq!(handle_get(&db, 2, 2), Err(ErrorCode::NotFound));
    assert_eq!(handle_query(&db, 2, 0, OP_AL, Value::Null), Ok(Response::Query(vec![])));
}

#[test]
fn drop_of_a_missing_row_changes_nothing() {
    let mut db = store();
    let id = insert(&mut db, 1, vec![Value::Integer(5)]);
    assert_eq!(send(&mut db, 1, Command::Drop(id + 1)), Response::Error(ErrorCode::NotFound));
    assert_eq!(send(&mut db, 1, Command::Drop(0)), Response::Error(ErrorCode::NotFound));
    assert_eq!(all_ids(&mut db, 1), vec![id]);
    assert_eq!(send(&mut db, 1, Command::Drop(id)), Response::Drop);
    assert_eq!(send(&mut db, 1, Command::Drop(id)), Response::Error(ErrorCode::NotFound));
    assert_eq!(send(&mut db, 1, Command::Get(id)), Response::Error(ErrorCode::NotFound));
}

#[test]
fn drop_cascades_along_a_chain_of_tables() {
    let mut db = store();
    let kept = insert(&mut db, 1, vec![Value::Integer(1)]);
    let number = insert(&mut db, 1, vec![Value::Integer(2)]);
    let owner_a = insert(&mut db, 2, vec![Value::Foreign(number)]);
    let owner_b = insert(&mut db, 2, vec![Value::Foreign(number)]);
    let owner_kept = insert(&mut db, 2, vec![Value::Foreign(kept)]);
    let free = insert(&mut db, 2, vec![Value::Foreign(0)]);
    let grand_a = insert(&mut db, 4, vec![Value::Foreign(owner_a)]);
    let grand_kept = insert(&mut db, 4, vec![Value::Foreign(owner_kept)]);
    assert_eq!(send(&mut db, 1, Command::Drop(number)), Response::Drop);
    assert_eq!(all_ids(&mut db, 1), vec![kept]);
    assert_eq!(all_ids(&mut db, 2), vec![owner_kept, free]);
    assert_eq!(all_ids(&mut db, 4), vec![grand_kept]);
    assert!(!is_stored(&mut db, 2, owner_a));
    assert!(!is_stored(&mut db, 2, owner_b));
    assert!(!is_stored(&mut db, 4, grand_a));
}

#[test]
fn drop_of_a_referring_row_leaves_the_row_referred_to() {
    let mut db = store();
    let number = insert(&mut db, 1, vec![Value::Integer(2)]);
    let owner = insert(&mut db, 2, vec![Value::Foreign(number)]);
    assert_eq!(send(&mut db, 2, Command::Drop(owner)), Response::Drop);
    assert!(is_stored(&mut db, 1, number));
    // The dropped row has left the index: a later drop finds only live rows.
    let second = insert(&mut db, 2, vec![Value::Foreign(number)]);
    assert_eq!(send(&mut db, 1, Command::Drop(number)), Response::Drop);
    assert!(!is_stored(&mut db, 2, second));
    assert_eq!(all_ids(&mut db, 2), Vec::<i64>::new());
}

#[test]
fn drop_follows_the_references_as_updated() {
    let mut db = store();
    let first = insert(&mut db, 1, vec![Value::Integer(1)]);
    let second = insert(&mut db, 1, vec![Value::Integer(2)]);
    let owner = insert(&mut db, 2, vec![Value::Foreign(first)]);
    assert_eq!(
        send(&mut db, 2, Command::Update(owner, 1, vec![Value::Foreign(second)])),
        Response::Update(2)
    );
    assert_eq!(send(&mut db, 1, Command::Drop(first)), Response::Drop);
    assert!(is_stored(&mut db, 2, owner));
    assert_eq!(
        send(&mut db, 2, Command::Update(owner, 2, vec![Value::Foreign(0)])),
        Response::Update(3)
    );
    assert_eq!(send(&mut db, 1, Command::Drop(second)), Response::Drop);
    assert_eq!(send(&mut db, 2, Command::Get(owner)), Response::Get(3, vec![Value::Foreign(0)]));
}

#[test]
fn drop_ends_on_a_cycle() {
    let mut db = store();
    let a = insert(&mut db, 3, node("a", 0));
    let b = insert(&mut db, 3, node("b", a));
    let c = insert(&mut db, 3, node("c", b));
    let outside = insert(&mut db, 3, node("outside", 0));
    let tail = insert(&mut db, 3, node("tail", c));
    assert_eq!(send(&mut db, 3, Command::Update(a, 1, node("a", c))), Response::Update(2));
    assert_eq!(send(&mut db, 3, Command::Drop(b)), Response::Drop);
    assert_eq!(all_ids(&mut db, 3), vec![outside]);
    assert!(!is_stored(&mut db, 3, a));
    assert!(!is_stored(&mut db, 3, c));
    assert!(!is_stored(&mut db, 3, tail));
}

#[test]
fn drop_of_a_row_that_refers_to_itself() {
    let mut db = store();
    let a = insert(&mut db, 3, node("a", 0));
    assert_eq!(send(&mut db, 3, Command::Update(a, 0, node("a", a))), Response::Update(1));
    let b = insert(&mut db, 3, node("b", 0));
    assert_eq!(send(&mut db, 3, Command::Drop(a)), Response::Drop);
    assert_eq!(all_ids(&mut db, 3), vec![b]);
}

#[test]
fn a_reference_to_no_row_ties_the_row_to_nothing() {
    let mut db = store();
    let number = insert(&mut db, 1, vec![Value::Integer(2)]);
    let free = insert(&mut db, 2, vec![Value::Foreign(0)]);
    let tied = insert(&mut db, 2, vec![Value::Foreign(number)]);
    assert_eq!(
        send(&mut db, 2, Command::Update(tied, 1, vec![Value::Foreign(0)])),
        Response::Update(2)
    );
    assert_eq!(send(&mut db, 1, Command::Drop(number)), Response::Drop);
    assert_eq!(all_ids(&mut db, 2), vec![free, tied]);
    assert_eq!(
        send(&mut db, 2, Command::Query(1, OP_EQ, Value::Foreign(0))),
        send(&mut db, 2, Command::Query(0, OP_AL, Value::Null))
    );
}

#[test]
fn many_rows_refer_to_one() {
    let mut db = store();
    let number = insert(&mut db, 1, vec![Value::Integer(2)]);
    let mut owners = Vec::new();
    for _ in 0..50 {
        owners.push(insert(&mut db, 2, vec![Value::Foreign(number)]));
    }
    assert_eq!(all_ids(&mut db, 2), owners);
    assert_eq!(send(&mut db, 1, Command::Drop(number)), Response::Drop);
    assert_eq!(all_ids(&mut db, 2), Vec::<i64>::new());
    assert_eq!(insert(&mut db, 1, vec![Value::Integer(3)]), 52);
}
