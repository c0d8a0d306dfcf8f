use nodata::ast::Object;
use nodata::database::{Condition, Table, WhereQuery};
use nodata::error::Error;
use nodata::parser::Parser;
use nodata::service::CrudSerivice;

fn chars(text: &str) -> Vec<char> {
    text.chars().collect()
}

fn users_table() -> Table {
    let input = chars(
        r#"
        "users": {
            "name": String,
            "age": Number,
            "phone": String,
        }
        "#,
    );
    Table::new(Parser::parse_schema(&input).unwrap())
}

fn user_model(name: &str, age: &str, phone: &str) -> nodata::ast::Model {
    let text = format!(
        r#""users": {{ "name": "{}", "age": {}, "phone": "{}" }}"#,
        name, age, phone
    );
    Parser::parse_model(&chars(&text)).unwrap()
}

fn entry_string(row: &nodata::database::Row, i: usize) -> String {
    match &row.entries[i] {
        Object::String(s) => s.clone(),
        Object::Number(_) => panic!("expected a string entry"),
    }
}

#[test]
fn round_trip_insert_then_query_by_id() {
    let mut table = users_table();
    let id = table
        .add_row(user_model("Edilson", "22", "+55 123-4567"))
        .unwrap();
    assert_eq!(id, 1);
    let row = table.query_by_id(id).unwrap();
    assert_eq!(row.id, 1);
    assert_eq!(row.entries.len(), 3);
    assert_eq!(entry_string(row, 0), "Edilson");
    match &row.entries[1] {
        Object::Number(d) => assert_eq!(*d.int_part(), vec![2, 2u8]),
        Object::String(_) => panic!("age must be stored as a number"),
    }
    assert_eq!(entry_string(row, 2), "+55 123-4567");
}

#[test]
fn rejected_insert_changes_nothing() {
    let mut table = users_table();
    table
        .add_row(user_model("Edilson", "22", "+55 123-4567"))
        .unwrap();
    let next_before = table.next_id;
    let rows_before = table.rows.len();

    // arity mismatch: two fields against three columns
    let small = Parser::parse_model(&chars(r#""users": { "name": "x", "age": 1 }"#)).unwrap();
    match table.add_row(small) {
        Err(Error::ArityMismatch { expected, found }) => {
            assert_eq!(expected, 3);
            assert_eq!(found, 2);
        }
        other => panic!("expected an arity mismatch, got {:?}", other.map(|_| ())),
    }
    assert_eq!(table.next_id, next_before);
    assert_eq!(table.rows.len(), rows_before);

    // type mismatch: age carries text
    let wrong = Parser::parse_model(&chars(
        r#""users": { "name": "x", "age": "old", "phone": "y" }"#,
    ))
    .unwrap();
    assert!(matches!(
        table.add_row(wrong),
        Err(Error::TypeMismatch { field: _, expected: _, found: _ })
    ));
    assert_eq!(table.next_id, next_before);
    assert_eq!(table.rows.len(), rows_before);

    // a fresh insert still gets the next dense id
    let id = table.add_row(user_model("Mungoi", "26", "+244 123-4567")).unwrap();
    assert_eq!(id, next_before);
}

#[test]
fn missing_field_insert_fails_unchanged() {
    let mut table = users_table();
    table
        .add_row(user_model("Edilson", "22", "+55 123-4567"))
        .unwrap();
    let next_before = table.next_id;
    // right arity, but no "phone" field
    let missing = Parser::parse_model(&chars(
        r#""users": { "name": "x", "age": 1, "phones": "y" }"#,
    ))
    .unwrap();
    match table.add_row(missing) {
        Err(Error::MissingField { name }) => assert_eq!(name, "phone"),
        other => panic!("expected a missing field error, got {:?}", other.map(|_| ())),
    }
    assert_eq!(table.next_id, next_before);
    assert_eq!(table.rows.len(), 1);
    assert_eq!(entry_string(table.query_by_id(1).unwrap(), 0), "Edilson");
}

#[test]
fn query_by_id_out_of_range_is_none() {
    let mut table = users_table();
    assert!(table.query_by_id(0).is_none());
    assert!(table.query_by_id(1).is_none());
    table
        .add_row(user_model("Edilson", "22", "+55 123-4567"))
        .unwrap();
    assert!(table.query_by_id(0).is_none());
    assert!(table.query_by_id(1).is_some());
    assert!(table.query_by_id(table.next_id).is_none());
    assert!(table.query_by_id(table.next_id + 7).is_none());
}

#[test]
fn string_column_rejects_ordering_conditions() {
    let mut table = users_table();
    table
        .add_row(user_model("Edilson", "22", "+55 123-4567"))
        .unwrap();
    let q = WhereQuery {
        field: "name".to_string(),
        cond: Condition::LessThan(Object::String("Zed".to_string())),
    };
    match table.query_where(q) {
        Err(Error::UnsupportedCondition { cond, type_ }) => {
            assert_eq!(cond, "<");
            assert_eq!(type_, nodata::ast::DataType::String)
        }
        other => panic!("expected an unsupported condition error, got {:?}", other.map(|_| ())),
    }
    for cond in [
        Condition::GratherThan(Object::String("A".to_string())),
        Condition::LessOrEqual(Object::String("A".to_string())),
        Condition::GratherOrEqual(Object::String("A".to_string())),
    ] {
        let q = WhereQuery { field: "phone".to_string(), cond };
        assert!(matches!(
            table.query_where(q),
            Err(Error::UnsupportedCondition { cond: _, type_: _ })
        ));
    }
}

#[test]
fn query_where_unknown_field_fails() {
    let table = users_table();
    let q = WhereQuery {
        field: "address".to_string(),
        cond: Condition::IsEqual(Object::String("x".to_string())),
    };
    assert!(matches!(
        table.query_where(q),
        Err(Error::UnknownField { table: _, field: _ })
    ));
}

#[test]
fn three_records_not_equal_scenario() {
    let mut table = users_table();
    assert_eq!(
        table.add_row(user_model("Edilson", "22", "+55 123-4567")).unwrap(),
        1
    );
    assert_eq!(
        table.add_row(user_model("Mungoi", "26", "+244 123-4567")).unwrap(),
        2
    );
    assert_eq!(
        table.add_row(user_model("Grahms", "24", "+34 123-4567")).unwrap(),
        3
    );
    let q = WhereQuery {
        field: "name".to_string(),
        cond: Condition::NotEqual(Object::String("Edilson".to_string())),
    };
    let rows = table.query_where(q).unwrap();
    assert_eq!(rows.len(), 2);
    assert_eq!(entry_string(rows[0], 0), "Mungoi");
    assert_eq!(entry_string(rows[1], 0), "Grahms");
}

#[test]
fn extra_trailing_field_fails_and_rows_survive() {
    let mut table = users_table();
    table
        .add_row(user_model("Edilson", "22", "+55 123-4567"))
        .unwrap();
    table
        .add_row(user_model("Mungoi", "26", "+244 123-4567"))
        .unwrap();
    let extra = Parser::parse_model(&chars(
        r#""users": { "name": "x", "age": 1, "phone": "y", "extra": 9 }"#,
    ))
    .unwrap();
    match table.add_row(extra) {
        Err(Error::ArityMismatch { expected, found }) => {
            assert_eq!(expected, 3);
            assert_eq!(found, 4);
        }
        other => panic!("expected an arity mismatch, got {:?}", other.map(|_| ())),
    }
    assert_eq!(entry_string(table.query_by_id(1).unwrap(), 0), "Edilson");
    assert_eq!(entry_string(table.query_by_id(2).unwrap(), 0), "Mungoi");
    assert!(table.query_by_id(3).is_none());
}

#[test]
fn number_column_supports_all_orderings() {
    let mut table = users_table();
    table
        .add_row(user_model("Edilson", "22", "+55 123-4567"))
        .unwrap();
    table
        .add_row(user_model("Mungoi", "26", "+244 123-4567"))
        .unwrap();
    table
        .add_row(user_model("Grahms", "24", "+34 123-4567"))
        .unwrap();
    let age = |text: &str| {
        let m = Parser::parse_model(&chars(&format!(r#""m": {{ "v": {} }}"#, text))).unwrap();
        match &m.fields[0].value {
            Object::Number(d) => Object::Number(d.clone()),
            Object::String(_) => panic!("expected a number literal"),
        }
    };
    let run = |cond: Condition| {
        let q = WhereQuery { field: "age".to_string(), cond };
        table
            .query_where(q)
            .unwrap()
            .iter()
            .map(|r| entry_string(*r, 0))
            .collect::<Vec<String>>()
    };
    assert_eq!(run(Condition::LessThan(age("24"))), vec!["Edilson"]);
    assert_eq!(run(Condition::LessOrEqual(age("24.0"))), vec!["Edilson", "Grahms"]);
    assert_eq!(run(Condition::GratherThan(age("24"))), vec!["Mungoi"]);
    assert_eq!(run(Condition::GratherOrEqual(age("24"))), vec!["Mungoi", "Grahms"]);
    assert_eq!(run(Condition::IsEqual(age("26.00"))), vec!["Mungoi"]);
    assert_eq!(run(Condition::NotEqual(age("22"))), vec!["Mungoi", "Grahms"]);
}

#[test]
fn service_handle_is_constructible() {
    let _s = CrudSerivice::new();
}
