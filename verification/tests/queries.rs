use easydb::database::{handle_request, Database};
use easydb::packet::{
    Command, ErrorCode, Request, Response, OP_AL, OP_EQ, OP_GE, OP_GT, OP_LE, OP_LT, OP_NE,
};
use easydb::schema::{schema_is_valid, ColumnMetadata, TableMetadata};
use easydb::value::{Value, ValueType};

fn column_of(name: &str, c_type: ValueType, c_ref: i32) -> ColumnMetadata {
    ColumnMetadata { c_name: String::from(name), c_type, c_ref }
}

/// Table 1 has a column of each type, the last one referring to table 1.
/// Table 2 has no column.
fn typed_store() -> Database {
    let schema = vec![
        TableMetadata {
            t_name: String::from("all"),
            t_cols: vec![
                column_of("n", ValueType::Integer, 0),
                column_of("x", ValueType::Float, 0),
                column_of("s", ValueType::Text, 0),
                column_of("nothing", ValueType::Null, 0),
                column_of("other", ValueType::Foreign, 1),
            ],
        },
        TableMetadata { t_name: String::from("bare"), t_cols: vec![] },
    ];
    assert!(schema_is_valid(&schema));
    Database::new(schema)
}

fn float(x: f64) -> Value {
    Value::Float(x.to_bits())
}

fn text(s: &str) -> Value {
    Value::Text(String::from(s))
}

fn answer(db: &mut Database, table_id: i32, command: Command) -> Response {
    let request = Request { table_id, command };
    assert!(db.accepts(&request));
    handle_request(request, db)
}

fn add(db: &mut Database, n: i64, x: f64, s: &str, other: i64) -> i64 {
    let values = vec![Value::Integer(n), float(x), text(s), Value::Null, Value::Foreign(other)];
    match answer(db, 1, Command::Insert(values)) {
        Response::Insert(id, 1) => id,
        other => panic!("insert refused: {:?}", other),
    }
}

/// Rows 1 to 6.
fn filled() -> Database {
    let mut db = typed_store();
    assert_eq!(add(&mut db, -5, -1.5, "", 0), 1);
    assert_eq!(add(&mut db, 0, -0.0, "a", 1), 2);
    assert_eq!(add(&mut db, 0, 0.0, "ab", 1), 3);
    assert_eq!(add(&mut db, 7, 2.25, "b", 2), 4);
    assert_eq!(add(&mut db, i64::MAX, f64::INFINITY, "\u{e9}", 0), 5);
    assert_eq!(add(&mut db, i64::MIN, f64::NAN, "B", 5), 6);
    db
}

fn matching(db: &mut Database, column_id: i32, operator: i32, comparand: Value) -> Vec<i64> {
    match answer(db, 1, Command::Query(column_id, operator, comparand)) {
        Response::Query(mut ids) => {
            ids.sort();
            ids
        }
        other => panic!("query refused: {:?}", other),
    }
}

fn refused(db: &mut Database, table_id: i32, column_id: i32, operator: i32, comparand: Value) {
    assert_eq!(
        answer(db, table_id, Command::Query(column_id, operator, comparand)),
        Response::Error(ErrorCode::BadQuery)
    );
}

#[test]
fn all_lists_the_live_rows() {
    let mut db = filled();
    assert_eq!(matching(&mut db, 0, OP_AL, Value::Null), vec![1, 2, 3, 4, 5, 6]);
    assert_eq!(matching(&mut db, 0, OP_AL, text("ignored")), vec![1, 2, 3, 4, 5, 6]);
    assert_eq!(answer(&mut db, 1, Command::Drop(2)), Response::Drop);
    // Row 4 referred to row 2.
    assert_eq!(matching(&mut db, 0, OP_AL, Value::Null), vec![1, 3, 5, 6]);
    assert_eq!(
        answer(&mut db, 2, Command::Query(0, OP_AL, Value::Null)),
        Response::Query(vec![])
    );
}

#[test]
fn all_reads_no_column() {
    let mut db = filled();
    for column_id in [1, 5, 6, -1] {
        refused(&mut db, 1, column_id, OP_AL, Value::Null);
    }
}

#[test]
fn column_id_must_name_a_column() {
    let mut db = filled();
    for column_id in [6, 7, -1, i32::MIN, i32::MAX] {
        refused(&mut db, 1, column_id, OP_EQ, Value::Integer(0));
        refused(&mut db, 1, column_id, OP_LT, Value::Integer(0));
    }
    refused(&mut db, 2, 1, OP_EQ, Value::Integer(0));
}

#[test]
fn operator_must_be_known() {
    let mut db = filled();
    for operator in [0, 8, -1, i32::MAX] {
        refused(&mut db, 1, 1, operator, Value::Integer(0));
        refused(&mut db, 1, 0, operator, Value::Integer(0));
    }
}

#[test]
fn comparand_must_have_the_columns_type() {
    let mut db = filled();
    let comparands = || vec![Value::Integer(0), float(0.0), text(""), Value::Null, Value::Foreign(0)];
    for column_id in 1..=5 {
        for (place, comparand) in comparands().into_iter().enumerate() {
            let same = place as i32 + 1 == column_id;
            let response = answer(&mut db, 1, Command::Query(column_id, OP_EQ, comparand));
            if same {
                assert!(matches!(response, Response::Query(_)));
            } else {
                assert_eq!(response, Response::Error(ErrorCode::BadQuery));
            }
        }
    }
}

#[test]
fn row_id_is_compared_as_an_integer() {
    let mut db = filled();
    assert_eq!(matching(&mut db, 0, OP_EQ, Value::Integer(3)), vec![3]);
    assert_eq!(matching(&mut db, 0, OP_EQ, Value::Integer(7)), Vec::<i64>::new());
    assert_eq!(matching(&mut db, 0, OP_EQ, Value::Integer(0)), Vec::<i64>::new());
    assert_eq!(matching(&mut db, 0, OP_NE, Value::Integer(3)), vec![1, 2, 4, 5, 6]);
    assert_eq!(matching(&mut db, 0, OP_NE, Value::Integer(7)), vec![1, 2, 3, 4, 5, 6]);
    refused(&mut db, 1, 0, OP_EQ, Value::Foreign(3));
    refused(&mut db, 1, 0, OP_EQ, text("3"));
    refused(&mut db, 1, 0, OP_NE, Value::Null);
    refused(&mut db, 1, 0, OP_EQ, float(3.0));
}

#[test]
fn row_id_has_no_order() {
    let mut db = filled();
    for operator in [OP_LT, OP_GT, OP_LE, OP_GE] {
        refused(&mut db, 1, 0, operator, Value::Integer(3));
        refused(&mut db, 2, 0, operator, Value::Integer(3));
    }
}

#[test]
fn references_have_no_order() {
    let mut db = filled();
    for operator in [OP_LT, OP_GT, OP_LE, OP_GE] {
        refused(&mut db, 1, 5, operator, Value::Foreign(1));
        refused(&mut db, 1, 5, operator, Value::Foreign(0));
    }
    assert_eq!(matching(&mut db, 5, OP_EQ, Value::Foreign(1)), vec![2, 3]);
    assert_eq!(matching(&mut db, 5, OP_EQ, Value::Foreign(0)), vec![1, 5]);
    assert_eq!(matching(&mut db, 5, OP_NE, Value::Foreign(1)), vec![1, 4, 5, 6]);
    assert_eq!(matching(&mut db, 5, OP_EQ, Value::Foreign(77)), Vec::<i64>::new());
}

#[test]
fn integers_by_number() {
    let mut db = filled();
    assert_eq!(matching(&mut db, 1, OP_EQ, Value::Integer(0)), vec![2, 3]);
    assert_eq!(matching(&mut db, 1, OP_NE, Value::Integer(0)), vec![1, 4, 5, 6]);
    assert_eq!(matching(&mut db, 1, OP_LT, Value::Integer(0)), vec![1, 6]);
    assert_eq!(matching(&mut db, 1, OP_LE, Value::Integer(0)), vec![1, 2, 3, 6]);
    assert_eq!(matching(&mut db, 1, OP_GT, Value::Integer(0)), vec![4, 5]);
    assert_eq!(matching(&mut db, 1, OP_GE, Value::Integer(0)), vec![2, 3, 4, 5]);
    assert_eq!(matching(&mut db, 1, OP_LT, Value::Integer(i64::MIN)), Vec::<i64>::new());
    assert_eq!(matching(&mut db, 1, OP_GE, Value::Integer(i64::MIN)), vec![1, 2, 3, 4, 5, 6]);
    assert_eq!(matching(&mut db, 1, OP_GT, Value::Integer(i64::MAX)), Vec::<i64>::new());
    assert_eq!(matching(&mut db, 1, OP_GE, Value::Integer(i64::MAX)), vec![5]);
}

#[test]
fn floats_by_number() {
    let mut db = filled();
    // Both zeros are the same number.
    assert_eq!(matching(&mut db, 2, OP_EQ, float(0.0)), vec![2, 3]);
    assert_eq!(matching(&mut db, 2, OP_EQ, float(-0.0)), vec![2, 3]);
    assert_eq!(matching(&mut db, 2, OP_LT, float(0.0)), vec![1]);
    assert_eq!(matching(&mut db, 2, OP_LE, float(-0.0)), vec![1, 2, 3]);
    assert_eq!(matching(&mut db, 2, OP_GT, float(-0.0)), vec![4, 5]);
    assert_eq!(matching(&mut db, 2, OP_GE, float(0.0)), vec![2, 3, 4, 5]);
    assert_eq!(matching(&mut db, 2, OP_LT, float(-1.5)), Vec::<i64>::new());
    assert_eq!(matching(&mut db, 2, OP_LT, float(-1.25)), vec![1]);
    assert_eq!(matching(&mut db, 2, OP_GT, float(2.0)), vec![4, 5]);
    assert_eq!(matching(&mut db, 2, OP_GE, float(f64::INFINITY)), vec![5]);
    assert_eq!(matching(&mut db, 2, OP_GT, float(f64::NEG_INFINITY)), vec![1, 2, 3, 4, 5]);
    assert_eq!(matching(&mut db, 2, OP_LT, float(f64::MAX)), vec![1, 2, 3, 4]);
    assert_eq!(matching(&mut db, 2, OP_GT, float(f64::MIN_POSITIVE)), vec![4, 5]);
    assert_eq!(matching(&mut db, 2, OP_LT, float(-f64::MIN_POSITIVE)), vec![1]);
}

#[test]
fn a_nan_equals_nothing_and_has_no_place() {
    let mut db = filled();
    assert_eq!(matching(&mut db, 2, OP_EQ, float(f64::NAN)), Vec::<i64>::new());
    assert_eq!(matching(&mut db, 2, OP_NE, float(f64::NAN)), vec![1, 2, 3, 4, 5, 6]);
    for operator in [OP_LT, OP_GT, OP_LE, OP_GE] {
        assert_eq!(matching(&mut db, 2, operator, float(f64::NAN)), Vec::<i64>::new());
        assert_eq!(matching(&mut db, 2, operator, float(-f64::NAN)), Vec::<i64>::new());
    }
    // Row 6 holds a NaN: it differs from every number and is on no side of any.
    assert_eq!(matching(&mut db, 2, OP_NE, float(2.25)), vec![1, 2, 3, 5, 6]);
    assert_eq!(matching(&mut db, 2, OP_LE, float(f64::INFINITY)), vec![1, 2, 3, 4, 5]);
    assert_eq!(matching(&mut db, 2, OP_GE, float(f64::NEG_INFINITY)), vec![1, 2, 3, 4, 5]);
}

#[test]
fn texts_by_their_bytes() {
    let mut db = filled();
    assert_eq!(matching(&mut db, 3, OP_EQ, text("a")), vec![2]);
    assert_eq!(matching(&mut db, 3, OP_EQ, text("A")), Vec::<i64>::new());
    assert_eq!(matching(&mut db, 3, OP_EQ, text("")), vec![1]);
    assert_eq!(matching(&mut db, 3, OP_NE, text("ab")), vec![1, 2, 4, 5, 6]);
    assert_eq!(matching(&mut db, 3, OP_LT, text("")), Vec::<i64>::new());
    assert_eq!(matching(&mut db, 3, OP_LE, text("")), vec![1]);
    // "" < "B" < "a" < "ab" < "b" < "é"
    assert_eq!(matching(&mut db, 3, OP_LT, text("a")), vec![1, 6]);
    assert_eq!(matching(&mut db, 3, OP_LE, text("a")), vec![1, 2, 6]);
    assert_eq!(matching(&mut db, 3, OP_GT, text("a")), vec![3, 4, 5]);
    assert_eq!(matching(&mut db, 3, OP_GE, text("ab")), vec![3, 4, 5]);
    assert_eq!(matching(&mut db, 3, OP_LT, text("aa")), vec![1, 2, 6]);
    assert_eq!(matching(&mut db, 3, OP_GT, text("z")), vec![5]);
    assert_eq!(matching(&mut db, 3, OP_GT, text("\u{e9}")), Vec::<i64>::new());
    assert_eq!(matching(&mut db, 3, OP_LT, text("\u{4e2d}")), vec![1, 2, 3, 4, 5, 6]);
}

#[test]
fn a_null_equals_a_null() {
    let mut db = filled();
    assert_eq!(matching(&mut db, 4, OP_EQ, Value::Null), vec![1, 2, 3, 4, 5, 6]);
    assert_eq!(matching(&mut db, 4, OP_NE, Value::Null), Vec::<i64>::new());
    assert_eq!(matching(&mut db, 4, OP_LT, Value::Null), Vec::<i64>::new());
    assert_eq!(matching(&mut db, 4, OP_GT, Value::Null), Vec::<i64>::new());
    assert_eq!(matching(&mut db, 4, OP_LE, Value::Null), vec![1, 2, 3, 4, 5, 6]);
    assert_eq!(matching(&mut db, 4, OP_GE, Value::Null), vec![1, 2, 3, 4, 5, 6]);
}

#[test]
fn a_query_changes_nothing() {
    let mut db = filled();
    let before = answer(&mut db, 1, Command::Get(4));
    assert_eq!(matching(&mut db, 1, OP_GE, Value::Integer(0)), vec![2, 3, 4, 5]);
    refused(&mut db, 1, 9, OP_EQ, Value::Integer(0));
    assert_eq!(answer(&mut db, 1, Command::Get(4)), before);
    assert_eq!(add(&mut db, 1, 1.0, "x", 0), 7);
}

#[test]
fn values_compare_as_queries_do() {
    assert!(Value::Integer(3).equals(&Value::Integer(3)));
    assert!(!Value::Integer(3).equals(&Value::Foreign(3)));
    assert!(!Value::Null.equals(&Value::Integer(0)));
    assert!(Value::Null.equals(&Value::Null));
    assert!(float(0.0).equals(&float(-0.0)));
    assert!(!float(f64::NAN).equals(&float(f64::NAN)));
    assert!(text("abc").equals(&text("abc")));
    assert!(!text("abc").equals(&text("abd")));
    assert!(Value::Integer(-1).less_than(&Value::Integer(0)));
    assert!(!Value::Integer(0).less_than(&Value::Integer(0)));
    assert!(Value::Integer(0).at_most(&Value::Integer(0)));
    assert!(float(-2.0).less_than(&float(-1.0)));
    assert!(float(-1.0).less_than(&float(1.0)));
    assert!(float(1.0).less_than(&float(1.0000000000000002)));
    assert!(!float(0.0).less_than(&float(-0.0)));
    assert!(float(0.0).at_most(&float(-0.0)));
    assert!(!float(f64::NAN).at_most(&float(f64::NAN)));
    assert!(text("ab").less_than(&text("abc")));
    assert!(text("Z").less_than(&text("a")));
    assert!(!text("abc").less_than(&text("abc")));
    assert!(text("abc").at_most(&text("abc")));
    assert!(!text("b").at_most(&text("abc")));
    assert_eq!(Value::Null.type_tag(), ValueType::Null);
    assert_eq!(Value::Integer(1).type_tag(), ValueType::Integer);
    assert_eq!(float(1.0).type_tag(), ValueType::Float);
    assert_eq!(text("").type_tag(), ValueType::Text);
    assert_eq!(Value::Foreign(0).type_tag(), ValueType::Foreign);
    assert_eq!(text("copy").clone(), text("copy"));
}
