//! Failures of parsing, insertion and querying, as descriptive values.

use crate::ast::{datatype_text, DataType};
use crate::decimal::{char_of_digit, digit_char};
use crate::strutil::push_char;
use crate::token::{token_text, Token, TokenV};
use vstd::prelude::*;
use vstd::string::StringExecFns;

verus! {

/// Every operation reports failure through one of these variants, carrying
/// what was expected and what was found.
#[derive(Debug)]
pub enum Error {
    /// The leading schema name is not a string literal.
    InvalidSchemaName,
    /// The leading model name is not a string literal.
    InvalidModelName,
    /// A field name is not a string literal.
    InvalidFieldName,
    /// A `:` was expected; the token found instead is carried.
    ExpectedColon { found: Token },
    /// A `{` was expected; the token found instead is carried.
    ExpectedLbrace { found: Token },
    /// After a field, neither a `,` nor a `}` followed.
    ExpectedCommaOrRbrace,
    /// The input ended before the closing brace.
    UnexpectedEof,
    /// A field value of the wrong kind; the token found is carried.
    InvalidFieldValue { found: Token },
    /// The model's field count differs from the table's column count.
    ArityMismatch { expected: usize, found: usize },
    /// The model has no field named after this column.
    MissingField { name: String },
    /// A field's declared type differs from its column's type.
    TypeMismatch { field: String, expected: DataType, found: DataType },
    /// The table has no column with the queried name.
    UnknownField { table: String, field: String },
    /// The condition (carried as its rendered operator) is not implemented
    /// for the column's type.
    UnsupportedCondition { cond: String, type_: DataType },
}

/// The mathematical model of an `Error`.
pub enum ErrorV {
    InvalidSchemaName,
    InvalidModelName,
    InvalidFieldName,
    ExpectedColon { found: TokenV },
    ExpectedLbrace { found: TokenV },
    ExpectedCommaOrRbrace,
    UnexpectedEof,
    InvalidFieldValue { found: TokenV },
    ArityMismatch { expected: int, found: int },
    MissingField { name: Seq<char> },
    TypeMismatch { field: Seq<char>, expected: DataType, found: DataType },
    UnknownField { table: Seq<char>, field: Seq<char> },
    UnsupportedCondition { cond: Seq<char>, type_: DataType },
}

impl View for Error {
    type V = ErrorV;

    open spec fn view(&self) -> ErrorV {
        match self {
            Error::InvalidSchemaName => ErrorV::InvalidSchemaName,
            Error::InvalidModelName => ErrorV::InvalidModelName,
            Error::InvalidFieldName => ErrorV::InvalidFieldName,
            Error::ExpectedColon { found } => (ErrorV::ExpectedColon { found: found@ }),
            Error::ExpectedLbrace { found } => (ErrorV::ExpectedLbrace { found: found@ }),
            Error::ExpectedCommaOrRbrace => ErrorV::ExpectedCommaOrRbrace,
            Error::UnexpectedEof => ErrorV::UnexpectedEof,
            Error::InvalidFieldValue { found } => (ErrorV::InvalidFieldValue { found: found@ }),
            Error::ArityMismatch { expected, found } => (ErrorV::ArityMismatch {
                expected: *expected as int,
                found: *found as int,
            }),
            Error::MissingField { name } => (ErrorV::MissingField { name: name@ }),
            Error::TypeMismatch { field, expected, found } => (ErrorV::TypeMismatch {
                field: field@,
                expected: *expected,
                found: *found,
            }),
            Error::UnknownField { table, field } => (ErrorV::UnknownField {
                table: table@,
                field: field@,
            }),
            Error::UnsupportedCondition { cond, type_ } => (ErrorV::UnsupportedCondition {
                cond: cond@,
                type_: *type_,
            }),
        }
    }
}

/// The decimal digits of a number, most significant first.
pub open spec fn nat_chars(n: nat) -> Seq<char>
    decreases n,
{
    if n < 10 {
        seq![char_of_digit(n as u8)]
    } else {
        nat_chars(n / 10).push(char_of_digit((n % 10) as u8))
    }
}

fn usize_chars(n: usize) -> (s: String)
    ensures
        s@ == nat_chars(n as nat),
    decreases n,
{
    if n < 10 {
        let mut s = String::new();
        push_char(&mut s, digit_char(n as u8));
        proof {
            assert(s@ =~= nat_chars(n as nat));
        }
        s
    } else {
        let mut s = usize_chars(n / 10);
        push_char(&mut s, digit_char((n % 10) as u8));
        s
    }
}

/// The human-readable message an error carries.
pub open spec fn message_text(e: ErrorV) -> Seq<char> {
    match e {
        ErrorV::InvalidSchemaName => "[Error]: Invalid schema name"@,
        ErrorV::InvalidModelName => "[Error]: Invalid model name"@,
        ErrorV::InvalidFieldName => "[Error]: Invalid field name"@,
        ErrorV::ExpectedColon { found } => "[Error]: Expected ':' but found "@ + token_text(
            found,
        ),
        ErrorV::ExpectedLbrace { found } => "[Error]: Expected '{' but found "@ + token_text(
            found,
        ),
        ErrorV::ExpectedCommaOrRbrace => "[Error]: Expected ',' or '}'"@,
        ErrorV::UnexpectedEof => "[Error]: Unexpected EOF"@,
        ErrorV::InvalidFieldValue { found } => "[Error]: Invalid field value "@ + token_text(
            found,
        ),
        ErrorV::ArityMismatch { expected, found } => "[Error]: Expected "@ + nat_chars(
            expected as nat,
        ) + " fields but found "@ + nat_chars(found as nat),
        ErrorV::MissingField { name } => "[Error]: Missing field '"@ + name + "'"@,
        ErrorV::TypeMismatch { field, expected, found } => "[Error]: Field '"@ + field
            + "' must be of type '"@ + datatype_text(expected) + "' found type '"@
            + datatype_text(found) + "'"@,
        ErrorV::UnknownField { table, field } => "[Error]: table '"@ + table
            + "' has no field named '"@ + field + "'"@,
        ErrorV::UnsupportedCondition { cond, type_ } => "[Error]: Condition '"@ + cond
            + "' is not impl for DataType '"@ + datatype_text(type_) + "'"@,
    }
}

impl Error {
    /// The error as text: a descriptive, human-readable message.
    pub fn message(&self) -> (s: String)
        ensures
            s@ == message_text(self@),
    {
        match self {
            Error::InvalidSchemaName => String::from_str("[Error]: Invalid schema name"),
            Error::InvalidModelName => String::from_str("[Error]: Invalid model name"),
            Error::InvalidFieldName => String::from_str("[Error]: Invalid field name"),
            Error::ExpectedColon { found } => {
                let mut s = String::from_str("[Error]: Expected ':' but found ");
                let t = found.render();
                s.append(t.as_str());
                s
            },
            Error::ExpectedLbrace { found } => {
                let mut s = String::from_str("[Error]: Expected '{' but found ");
                let t = found.render();
                s.append(t.as_str());
                s
            },
            Error::ExpectedCommaOrRbrace => String::from_str("[Error]: Expected ',' or '}'"),
            Error::UnexpectedEof => String::from_str("[Error]: Unexpected EOF"),
            Error::InvalidFieldValue { found } => {
                let mut s = String::from_str("[Error]: Invalid field value ");
                let t = found.render();
                s.append(t.as_str());
                s
            },
            Error::ArityMismatch { expected, found } => {
                let mut s = String::from_str("[Error]: Expected ");
                let e = usize_chars(*expected);
                s.append(e.as_str());
                s.append(" fields but found ");
                let f = usize_chars(*found);
                s.append(f.as_str());
                s
            },
            Error::MissingField { name } => {
                let mut s = String::from_str("[Error]: Missing field '");
                s.append(name.as_str());
                s.append("'");
                s
            },
            Error::TypeMismatch { field, expected, found } => {
                let mut s = String::from_str("[Error]: Field '");
                s.append(field.as_str());
                s.append("' must be of type '");
                let e = expected.render();
                s.append(e.as_str());
                s.append("' found type '");
                let f = found.render();
                s.append(f.as_str());
                s.append("'");
                s
            },
            Error::UnknownField { table, field } => {
                let mut s = String::from_str("[Error]: table '");
                s.append(table.as_str());
                s.append("' has no field named '");
                s.append(field.as_str());
                s.append("'");
                s
            },
            Error::UnsupportedCondition { cond, type_ } => {
                let mut s = String::from_str("[Error]: Condition '");
                s.append(cond.as_str());
                s.append("' is not impl for DataType '");
                let t = type_.render();
                s.append(t.as_str());
                s.append("'");
                s
            },
        }
    }
}

} // verus!
