use nodata::ast::{DataType, Object};
use nodata::error::Error;
use nodata::parser::Parser;

fn chars(text: &str) -> Vec<char> {
    text.chars().collect()
}

#[test]
fn schema_valid_text_preserves_order_and_types() {
    let input = chars(
        r#"
        "users": {
            "name": String,
            "age": Number,
            "phone": String,
        }
        "#,
    );
    let schema = Parser::parse_schema(&input).unwrap();
    assert_eq!(schema.name, "users");
    assert_eq!(schema.fields.len(), 3);
    assert_eq!(schema.fields[0].name, "name");
    assert_eq!(schema.fields[0].type_, DataType::String);
    assert_eq!(schema.fields[1].name, "age");
    assert_eq!(schema.fields[1].type_, DataType::Number);
    assert_eq!(schema.fields[2].name, "phone");
    assert_eq!(schema.fields[2].type_, DataType::String);
}

#[test]
fn schema_without_trailing_comma() {
    let input = chars(r#""t": { "a": Number, "b": String }"#);
    let schema = Parser::parse_schema(&input).unwrap();
    assert_eq!(schema.fields.len(), 2);
    assert_eq!(schema.fields[0].name, "a");
    assert_eq!(schema.fields[1].name, "b");
}

#[test]
fn schema_empty_field_list() {
    let input = chars(r#""t": {}"#);
    let schema = Parser::parse_schema(&input).unwrap();
    assert_eq!(schema.name, "t");
    assert_eq!(schema.fields.len(), 0);
}

#[test]
fn schema_bare_word_name_rejected() {
    let input = chars(r#"users: { "a": Number }"#);
    assert!(matches!(Parser::parse_schema(&input), Err(Error::InvalidSchemaName)));
}

#[test]
fn schema_missing_colon_rejected() {
    let input = chars(r#""users" { "a": Number }"#);
    assert!(matches!(
        Parser::parse_schema(&input),
        Err(Error::ExpectedColon { found: _ })
    ));
}

#[test]
fn schema_missing_lbrace_rejected() {
    let input = chars(r#""users": "a": Number }"#);
    assert!(matches!(
        Parser::parse_schema(&input),
        Err(Error::ExpectedLbrace { found: _ })
    ));
}

#[test]
fn schema_unexpected_eof_rejected() {
    let input = chars(r#""users": { "a": Number, "#);
    assert!(matches!(Parser::parse_schema(&input), Err(Error::UnexpectedEof)));
}

#[test]
fn schema_literal_value_rejected() {
    let input = chars(r#""users": { "a": 5 }"#);
    assert!(matches!(
        Parser::parse_schema(&input),
        Err(Error::InvalidFieldValue { found: _ })
    ));
}

#[test]
fn schema_missing_comma_between_fields_rejected() {
    let input = chars(r#""users": { "a": Number "b": String }"#);
    assert!(matches!(Parser::parse_schema(&input), Err(Error::ExpectedCommaOrRbrace)));
}

#[test]
fn model_bare_word_name_rejected() {
    let input = chars(r#"m: { "x": 1 }"#);
    assert!(matches!(Parser::parse_model(&input), Err(Error::InvalidModelName)));
}

#[test]
fn model_types_follow_literal_forms() {
    let input = chars(
        r#"
        "users": {
            "name": "Edilson",
            "age": 22,
            "phone": "+55 123-4567",
        }
        "#,
    );
    let model = Parser::parse_model(&input).unwrap();
    assert_eq!(model.name, "users");
    assert_eq!(model.fields.len(), 3);
    assert_eq!(model.fields[0].type_, DataType::String);
    assert!(matches!(&model.fields[0].value, Object::String(s) if s == "Edilson"));
    assert_eq!(model.fields[1].type_, DataType::Number);
    match &model.fields[1].value {
        Object::Number(d) => {
            assert_eq!(*d.int_part(), vec![2, 2u8]);
            assert_eq!(d.frac_part().len(), 0);
        }
        Object::String(_) => panic!("age must lex as a number"),
    }
    assert_eq!(model.fields[2].type_, DataType::String);
}

#[test]
fn model_number_literal_is_normalized() {
    let input = chars(r#""m": { "x": 007.250, "y": 1., "z": 0.0 }"#);
    let model = Parser::parse_model(&input).unwrap();
    match &model.fields[0].value {
        Object::Number(d) => {
            assert_eq!(*d.int_part(), vec![7u8]);
            assert_eq!(*d.frac_part(), vec![2, 5u8]);
        }
        Object::String(_) => panic!("x must lex as a number"),
    }
    match &model.fields[1].value {
        Object::Number(d) => {
            assert_eq!(*d.int_part(), vec![1u8]);
            assert_eq!(d.frac_part().len(), 0);
        }
        Object::String(_) => panic!("y must lex as a number"),
    }
    match &model.fields[2].value {
        Object::Number(d) => {
            assert_eq!(*d.int_part(), vec![0u8]);
            assert_eq!(d.frac_part().len(), 0);
        }
        Object::String(_) => panic!("z must lex as a number"),
    }
}

#[test]
fn model_type_keyword_as_value_rejected() {
    let input = chars(r#""m": { "x": Number }"#);
    assert!(matches!(
        Parser::parse_model(&input),
        Err(Error::InvalidFieldValue { found: _ })
    ));
}

#[test]
fn model_unterminated_string_rejected() {
    let input = chars(r#""m": { "x": "oops }"#);
    assert!(Parser::parse_model(&input).is_err());
}

#[test]
fn model_double_dot_number_rejected() {
    let input = chars(r#""m": { "x": 1.2.3 }"#);
    assert!(matches!(
        Parser::parse_model(&input),
        Err(Error::InvalidFieldValue { found: _ })
    ));
}

#[test]
fn model_bare_field_name_rejected() {
    let input = chars(r#""m": { x: 1 }"#);
    assert!(matches!(Parser::parse_model(&input), Err(Error::InvalidFieldName)));
}

#[test]
fn model_find_field_first_match_wins() {
    let input = chars(r#""m": { "x": 1, "x": 2, "y": 3 }"#);
    let model = Parser::parse_model(&input).unwrap();
    let f = model.find_field("x").unwrap();
    match &f.value {
        Object::Number(d) => assert_eq!(*d.int_part(), vec![1u8]),
        Object::String(_) => panic!("x must be a number"),
    }
    assert!(model.find_field("missing").is_none());
}
