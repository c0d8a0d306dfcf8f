use nodata::ast::{DataType, Object};
use nodata::database::{Condition, Table, WhereQuery};
use nodata::parser::Parser;

fn chars(text: &str) -> Vec<char> {
    text.chars().collect()
}

#[test]
fn datatype_renders_as_bracketed_tag() {
    assert_eq!(DataType::String.render(), "[String]");
    assert_eq!(DataType::Number.render(), "[Number]");
}

#[test]
fn parse_error_messages_name_expected_and_found() {
    let e = Parser::parse_schema(&chars(r#""users" { "a": Number }"#)).unwrap_err();
    assert_eq!(e.message(), "[Error]: Expected ':' but found {");

    let e = Parser::parse_schema(&chars(r#""users": { "a": 5 }"#)).unwrap_err();
    assert_eq!(e.message(), "[Error]: Invalid field value 5");

    let e = Parser::parse_model(&chars(r#""m": { "x": Number }"#)).unwrap_err();
    assert_eq!(e.message(), "[Error]: Invalid field value [Type Annotation] Number");

    let e = Parser::parse_model(&chars(r#""m": { "x": 1.2.3 }"#)).unwrap_err();
    assert_eq!(e.message(), "[Error]: Invalid field value [Illegal Token] 1.2.3");

    let e = Parser::parse_schema(&chars(r#""users": { "a": Number, "#)).unwrap_err();
    assert_eq!(e.message(), "[Error]: Unexpected EOF");
}

#[test]
fn table_error_messages_name_the_details() {
    let schema = Parser::parse_schema(&chars(
        r#""users": { "name": String, "age": Number, "phone": String }"#,
    ))
    .unwrap();
    let mut table = Table::new(schema);

    let small = Parser::parse_model(&chars(r#""users": { "name": "x", "age": 1 }"#)).unwrap();
    let e = table.add_row(small).unwrap_err();
    assert_eq!(e.message(), "[Error]: Expected 3 fields but found 2");

    let missing = Parser::parse_model(&chars(
        r#""users": { "name": "x", "age": 1, "phones": "y" }"#,
    ))
    .unwrap();
    let e = table.add_row(missing).unwrap_err();
    assert_eq!(e.message(), "[Error]: Missing field 'phone'");

    let wrong = Parser::parse_model(&chars(
        r#""users": { "name": "x", "age": "old", "phone": "y" }"#,
    ))
    .unwrap();
    let e = table.add_row(wrong).unwrap_err();
    assert_eq!(
        e.message(),
        "[Error]: Field 'age' must be of type '[Number]' found type '[String]'"
    );

    let q = WhereQuery {
        field: "address".to_string(),
        cond: Condition::IsEqual(Object::String("x".to_string())),
    };
    let e = table.query_where(q).unwrap_err();
    assert_eq!(e.message(), "[Error]: table 'users' has no field named 'address'");

    let q = WhereQuery {
        field: "name".to_string(),
        cond: Condition::LessThan(Object::String("x".to_string())),
    };
    let e = table.query_where(q).unwrap_err();
    assert_eq!(
        e.message(),
        "[Error]: Condition '<' is not impl for DataType '[String]'"
    );
}

#[test]
fn number_values_render_with_their_digits() {
    let model = Parser::parse_model(&chars(r#""m": { "x": 007.250, "y": 22 }"#)).unwrap();
    match &model.fields[0].value {
        Object::Number(d) => assert_eq!(d.render(), "7.25"),
        Object::String(_) => panic!("x must lex as a number"),
    }
    match &model.fields[1].value {
        Object::Number(d) => assert_eq!(d.render(), "22"),
        Object::String(_) => panic!("y must lex as a number"),
    }
}
