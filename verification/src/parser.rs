//! The predictive recursive-descent parser.
//!
//! The grammar is written down once, as the spec functions `sp_parse_schema`
//! and `sp_parse_model` over the raw character sequence; they define exactly
//! which texts are accepted, what abstract syntax they produce, and which
//! error any rejected text draws.  The executable `Parser` is proved to
//! return precisely what they describe.
//!
//! ```text
//! top           := STRING ':' fields
//! fields        := '{' (field (',' field)* ','? )? '}'
//! field(schema) := STRING ':' TYPE_KEYWORD
//! field(model)  := STRING ':' (STRING | NUMBER)
//! ```

use crate::ast::{
    DataType, Model, ModelField, ModelFieldV, ModelV, Object, ObjectV, Schema, SchemaField,
    SchemaFieldV, SchemaV,
};
use crate::error::{Error, ErrorV};
use crate::lexer::{lemma_tok_advances, spec_tok, Lexer};
use crate::token::{Token, TokenV};
use vstd::prelude::*;

verus! {

// ---------------------------------------------------------------------------
// The grammar, as spec functions from (input, position) to outcome.
// ---------------------------------------------------------------------------

/// One schema field: `STRING ':' TYPE_KEYWORD`.
pub open spec fn sp_schema_field(s: Seq<char>, pos: int) -> Result<(SchemaFieldV, int), ErrorV> {
    let (t0, p1) = spec_tok(s, pos);
    match t0 {
        TokenV::String(name) => {
            let (t1, p2) = spec_tok(s, p1);
            if t1 == TokenV::Colon {
                let (t2, p3) = spec_tok(s, p2);
                match t2 {
                    TokenV::TypeString => Ok(
                        (SchemaFieldV { name, type_: DataType::String }, p3),
                    ),
                    TokenV::TypeNumber => Ok(
                        (SchemaFieldV { name, type_: DataType::Number }, p3),
                    ),
                    _ => Err(ErrorV::InvalidFieldValue { found: t2 }),
                }
            } else {
                Err(ErrorV::ExpectedColon { found: t1 })
            }
        },
        _ => Err(ErrorV::InvalidFieldName),
    }
}

/// One model field: `STRING ':' (STRING | NUMBER)`; the field's type is the
/// literal's form.
pub open spec fn sp_model_field(s: Seq<char>, pos: int) -> Result<(ModelFieldV, int), ErrorV> {
    let (t0, p1) = spec_tok(s, pos);
    match t0 {
        TokenV::String(name) => {
            let (t1, p2) = spec_tok(s, p1);
            if t1 == TokenV::Colon {
                let (t2, p3) = spec_tok(s, p2);
                match t2 {
                    TokenV::String(v) => Ok(
                        (
                            ModelFieldV {
                                name,
                                value: ObjectV::String(v),
                                type_: DataType::String,
                            },
                            p3,
                        ),
                    ),
                    TokenV::Number(d) => Ok(
                        (
                            ModelFieldV {
                                name,
                                value: ObjectV::Number(d),
                                type_: DataType::Number,
                            },
                            p3,
                        ),
                    ),
                    _ => Err(ErrorV::InvalidFieldValue { found: t2 }),
                }
            } else {
                Err(ErrorV::ExpectedColon { found: t1 })
            }
        },
        _ => Err(ErrorV::InvalidFieldName),
    }
}

/// A successfully parsed schema field ends strictly after where it began.
pub proof fn lemma_sp_schema_field_advances(s: Seq<char>, pos: int)
    requires
        0 <= pos <= s.len(),
    ensures
        sp_schema_field(s, pos) matches Ok(r) ==> pos < r.1 <= s.len(),
{
    lemma_tok_advances(s, pos);
    let (t0, p1) = spec_tok(s, pos);
    if t0 is String {
        lemma_tok_advances(s, p1);
        let (t1, p2) = spec_tok(s, p1);
        if t1 == TokenV::Colon {
            lemma_tok_advances(s, p2);
        }
    }
}

/// A successfully parsed model field ends strictly after where it began.
pub proof fn lemma_sp_model_field_advances(s: Seq<char>, pos: int)
    requires
        0 <= pos <= s.len(),
    ensures
        sp_model_field(s, pos) matches Ok(r) ==> pos < r.1 <= s.len(),
{
    lemma_tok_advances(s, pos);
    let (t0, p1) = spec_tok(s, pos);
    if t0 is String {
        lemma_tok_advances(s, p1);
        let (t1, p2) = spec_tok(s, p1);
        if t1 == TokenV::Colon {
            lemma_tok_advances(s, p2);
        }
    }
}

/// The field list after the opening brace: fields separated by commas, a
/// trailing comma tolerated, ended by `}`; the end of input before `}` is a
/// hard failure.  Returns the fields gathered so far plus the position of the
/// closing brace.
pub open spec fn sp_schema_fields_rest(s: Seq<char>, pos: int, acc: Seq<SchemaFieldV>) -> Result<
    (Seq<SchemaFieldV>, int),
    ErrorV,
>
    decreases s.len() - pos,
    when 0 <= pos <= s.len()
    via sp_schema_fields_rest_decreases
{
    let (t, _p) = spec_tok(s, pos);
    if t == TokenV::Eof {
        Err(ErrorV::UnexpectedEof)
    } else if t == TokenV::Rbrace {
        Ok((acc, pos))
    } else {
        match sp_schema_field(s, pos) {
            Err(e) => Err(e),
            Ok((f, p1)) => {
                let (t1, p2) = spec_tok(s, p1);
                if t1 == TokenV::Comma {
                    sp_schema_fields_rest(s, p2, acc.push(f))
                } else if t1 == TokenV::Rbrace {
                    sp_schema_fields_rest(s, p1, acc.push(f))
                } else {
                    Err(ErrorV::ExpectedCommaOrRbrace)
                }
            },
        }
    }
}

#[via_fn]
proof fn sp_schema_fields_rest_decreases(s: Seq<char>, pos: int, acc: Seq<SchemaFieldV>) {
    lemma_sp_schema_field_advances(s, pos);
    if let Ok((f, p1)) = sp_schema_field(s, pos) {
        lemma_tok_advances(s, p1);
    }
}

/// The model field list after the opening brace; same shape as the schema
/// field list.
pub open spec fn sp_model_fields_rest(s: Seq<char>, pos: int, acc: Seq<ModelFieldV>) -> Result<
    (Seq<ModelFieldV>, int),
    ErrorV,
>
    decreases s.len() - pos,
    when 0 <= pos <= s.len()
    via sp_model_fields_rest_decreases
{
    let (t, _p) = spec_tok(s, pos);
    if t == TokenV::Eof {
        Err(ErrorV::UnexpectedEof)
    } else if t == TokenV::Rbrace {
        Ok((acc, pos))
    } else {
        match sp_model_field(s, pos) {
            Err(e) => Err(e),
            Ok((f, p1)) => {
                let (t1, p2) = spec_tok(s, p1);
                if t1 == TokenV::Comma {
                    sp_model_fields_rest(s, p2, acc.push(f))
                } else if t1 == TokenV::Rbrace {
                    sp_model_fields_rest(s, p1, acc.push(f))
                } else {
                    Err(ErrorV::ExpectedCommaOrRbrace)
                }
            },
        }
    }
}

#[via_fn]
proof fn sp_model_fields_rest_decreases(s: Seq<char>, pos: int, acc: Seq<ModelFieldV>) {
    lemma_sp_model_field_advances(s, pos);
    if let Ok((f, p1)) = sp_model_field(s, pos) {
        lemma_tok_advances(s, p1);
    }
}

/// A brace-enclosed schema field list starting at `pos`.
pub open spec fn sp_schema_fields(s: Seq<char>, pos: int) -> Result<
    (Seq<SchemaFieldV>, int),
    ErrorV,
> {
    let (t, p) = spec_tok(s, pos);
    if t == TokenV::Lbrace {
        sp_schema_fields_rest(s, p, Seq::empty())
    } else {
        Err(ErrorV::ExpectedLbrace { found: t })
    }
}

/// A brace-enclosed model field list starting at `pos`.
pub open spec fn sp_model_fields(s: Seq<char>, pos: int) -> Result<
    (Seq<ModelFieldV>, int),
    ErrorV,
> {
    let (t, p) = spec_tok(s, pos);
    if t == TokenV::Lbrace {
        sp_model_fields_rest(s, p, Seq::empty())
    } else {
        Err(ErrorV::ExpectedLbrace { found: t })
    }
}

/// The whole schema form: `STRING ':' fields`.
pub open spec fn sp_parse_schema(s: Seq<char>) -> Result<SchemaV, ErrorV> {
    let (t0, p1) = spec_tok(s, 0);
    match t0 {
        TokenV::String(name) => {
            let (t1, p2) = spec_tok(s, p1);
            if t1 == TokenV::Colon {
                match sp_schema_fields(s, p2) {
                    Ok(r) => Ok(SchemaV { name, fields: r.0 }),
                    Err(e) => Err(e),
                }
            } else {
                Err(ErrorV::ExpectedColon { found: t1 })
            }
        },
        _ => Err(ErrorV::InvalidSchemaName),
    }
}

/// The whole model form: `STRING ':' fields`.
pub open spec fn sp_parse_model(s: Seq<char>) -> Result<ModelV, ErrorV> {
    let (t0, p1) = spec_tok(s, 0);
    match t0 {
        TokenV::String(name) => {
            let (t1, p2) = spec_tok(s, p1);
            if t1 == TokenV::Colon {
                match sp_model_fields(s, p2) {
                    Ok(r) => Ok(ModelV { name, fields: r.0 }),
                    Err(e) => Err(e),
                }
            } else {
                Err(ErrorV::ExpectedColon { found: t1 })
            }
        },
        _ => Err(ErrorV::InvalidModelName),
    }
}

proof fn lemma_model_field_wf(s: Seq<char>, pos: int)
    requires
        0 <= pos <= s.len(),
    ensures
        sp_model_field(s, pos) matches Ok(r) ==> r.0.wf(),
{
    lemma_tok_advances(s, pos);
    let (t0, p1) = spec_tok(s, pos);
    if t0 is String {
        lemma_tok_advances(s, p1);
        let (t1, p2) = spec_tok(s, p1);
        if t1 == TokenV::Colon {
            crate::lexer::lemma_tok_number_wf(s, p2);
        }
    }
}

proof fn lemma_model_fields_rest_wf(s: Seq<char>, pos: int, acc: Seq<ModelFieldV>)
    requires
        0 <= pos <= s.len(),
        forall|i: int| 0 <= i < acc.len() ==> (#[trigger] acc[i]).wf(),
    ensures
        sp_model_fields_rest(s, pos, acc) matches Ok(r) ==> forall|i: int|
            0 <= i < r.0.len() ==> (#[trigger] r.0[i]).wf(),
    decreases s.len() - pos,
{
    let (t, _p) = spec_tok(s, pos);
    if t != TokenV::Eof && t != TokenV::Rbrace {
        if let Ok((f, p1)) = sp_model_field(s, pos) {
            lemma_sp_model_field_advances(s, pos);
            lemma_model_field_wf(s, pos);
            lemma_tok_advances(s, p1);
            assert(forall|i: int|
                0 <= i < acc.push(f).len() ==> (#[trigger] acc.push(f)[i]).wf());
            let (t1, p2) = spec_tok(s, p1);
            if t1 == TokenV::Comma {
                lemma_model_fields_rest_wf(s, p2, acc.push(f));
            } else if t1 == TokenV::Rbrace {
                lemma_model_fields_rest_wf(s, p1, acc.push(f));
            }
        }
    }
}

/// Every field of a parsed model field list is well formed: its declared
/// type is the form of its literal (quoted text is `String`, a digit run is
/// `Number`), and every numeric value is canonical.
pub proof fn lemma_model_fields_wf(s: Seq<char>, pos: int)
    requires
        0 <= pos <= s.len(),
    ensures
        sp_model_fields(s, pos) matches Ok(r) ==> forall|i: int|
            0 <= i < r.0.len() ==> (#[trigger] r.0[i]).wf(),
{
    lemma_tok_advances(s, pos);
    let (t, p) = spec_tok(s, pos);
    if t == TokenV::Lbrace {
        lemma_model_fields_rest_wf(s, p, Seq::empty());
    }
}

// ---------------------------------------------------------------------------
// The grammar generates no text it cannot read back: rendering an abstract
// schema and parsing the result is the identity.
// ---------------------------------------------------------------------------

/// The keyword of a declared type, as schema texts write it.
pub open spec fn render_keyword(t: DataType) -> Seq<char> {
    match t {
        DataType::String => "String"@,
        DataType::Number => "Number"@,
    }
}

/// One schema field as text, with its separating comma.
pub open spec fn render_schema_field(f: SchemaFieldV) -> Seq<char> {
    seq!['"'] + f.name + seq!['"', ':'] + render_keyword(f.type_) + seq![',']
}

/// A field list as text.
pub open spec fn render_schema_fields(fs: Seq<SchemaFieldV>) -> Seq<char>
    decreases fs.len(),
{
    if fs.len() == 0 {
        Seq::empty()
    } else {
        render_schema_field(fs[0]) + render_schema_fields(fs.skip(1))
    }
}

/// A whole schema as text: one of the texts the grammar generates for it.
pub open spec fn render_schema(v: SchemaV) -> Seq<char> {
    seq!['"'] + v.name + seq!['"', ':', '{'] + render_schema_fields(v.fields) + seq!['}']
}

/// Names must not contain the quote character, which would end the literal
/// early.
pub open spec fn quote_free(name: Seq<char>) -> bool {
    forall|k: int| 0 <= k < name.len() ==> #[trigger] name[k] != '"'
}

pub open spec fn schema_renderable(v: SchemaV) -> bool {
    &&& quote_free(v.name)
    &&& forall|i: int| 0 <= i < v.fields.len() ==> quote_free((#[trigger] v.fields[i]).name)
}

proof fn lemma_tok_keyword_at(s: Seq<char>, pos: int, t: DataType)
    requires
        0 <= pos,
        pos + 6 <= s.len(),
        s.subrange(pos, pos + 6) == render_keyword(t),
        pos + 6 == s.len() || !crate::lexer::is_letter_char(s[pos + 6]),
    ensures
        t == DataType::String ==> spec_tok(s, pos) == (TokenV::TypeString, pos + 6),
        t == DataType::Number ==> spec_tok(s, pos) == (TokenV::TypeNumber, pos + 6),
{
    reveal_strlit("String");
    reveal_strlit("Number");
    assert forall|k: int| pos <= k < pos + 6 implies crate::lexer::is_letter_char(
        #[trigger] s[k],
    ) by {
        assert(s[k] == s.subrange(pos, pos + 6)[k - pos]);
    };
    crate::lexer::lemma_word_run_at(s, pos, pos + 6);
    assert(s[pos] == s.subrange(pos, pos + 6)[0]);
}

proof fn lemma_render_fields_roundtrip(
    s: Seq<char>,
    pos: int,
    fs: Seq<SchemaFieldV>,
    acc: Seq<SchemaFieldV>,
)
    requires
        0 <= pos <= s.len(),
        s.subrange(pos, s.len() as int) == render_schema_fields(fs) + seq!['}'],
        forall|i: int| 0 <= i < fs.len() ==> quote_free((#[trigger] fs[i]).name),
    ensures
        sp_schema_fields_rest(s, pos, acc) == Ok::<_, ErrorV>((acc + fs, s.len() - 1)),
    decreases fs.len(),
{
    reveal_strlit("String");
    reveal_strlit("Number");
    let tail = s.subrange(pos, s.len() as int);
    assert(tail.len() == s.len() - pos);
    if fs.len() == 0 {
        assert(s.subrange(pos, s.len() as int)[0] == s[pos]);
        assert(s[pos] == '}');
        assert(pos + 1 == s.len());
        assert(acc + fs =~= acc);
    } else {
        let f = fs[0];
        let n = f.name.len() as int;
        let rlen = n + 10;
        let rsf = render_schema_field(f);
        let rest = render_schema_fields(fs.skip(1));
        assert(render_schema_fields(fs) == rsf + rest);
        assert(rsf.len() == rlen);
        assert(tail.len() == rlen + rest.len() + 1);
        assert(s.len() - pos == rlen + rest.len() + 1);
        // the field's characters, spelled out
        assert forall|k: int| 0 <= k < rlen implies #[trigger] s[pos + k] == rsf[k] by {
            assert(s.subrange(pos, s.len() as int)[k] == s[pos + k]);
            assert(tail[k] == (rsf + rest)[k]);
        };
        assert(rsf[0] == '"');
        assert(s[pos + 0] == rsf[0]);
        assert(s[pos] == '"');
        assert forall|k: int| 0 <= k < n implies s[pos + 1 + k] == #[trigger] f.name[k] by {
            assert(s[pos + (1 + k)] == rsf[1 + k]);
            assert(rsf[1 + k] == (seq!['"'] + f.name)[1 + k]);
        };
        assert(rsf[n + 1] == (seq!['"'] + f.name + seq!['"', ':'])[n + 1]);
        assert(s[pos + (n + 1)] == rsf[n + 1]);
        assert(s[pos + n + 1] == '"');
        assert(rsf[n + 2] == (seq!['"'] + f.name + seq!['"', ':'])[n + 2]);
        assert(s[pos + (n + 2)] == rsf[n + 2]);
        assert(s[pos + n + 2] == ':');
        assert forall|k: int| 0 <= k < 6 implies s[pos + n + 3 + k] == render_keyword(
            f.type_,
        )[k] by {
            assert(s[pos + (n + 3 + k)] == rsf[n + 3 + k]);
            assert(rsf[n + 3 + k] == render_keyword(f.type_)[k - 6 + 6]);
        };
        assert(s.subrange(pos + n + 3, pos + n + 9) =~= render_keyword(f.type_));
        assert(rsf[n + 9] == ',');
        assert(s[pos + (n + 9)] == rsf[n + 9]);
        assert(s[pos + n + 9] == ',');
        crate::lexer::lemma_tok_string_at(s, pos, f.name);
        lemma_tok_keyword_at(s, pos + n + 3, f.type_);
        assert(sp_schema_field(s, pos) == Ok::<_, ErrorV>(
            (SchemaFieldV { name: f.name, type_: f.type_ }, pos + n + 9),
        ));
        assert((SchemaFieldV { name: f.name, type_: f.type_ }) == f);
        assert forall|k: int|
            0 <= k < rest.len() + 1 implies s.subrange(pos + rlen, s.len() as int)[k] == (rest
            + seq!['}'])[k] by {
            assert(s.subrange(pos + rlen, s.len() as int)[k] == s[pos + rlen + k]);
            assert(s.subrange(pos, s.len() as int)[rlen + k] == s[pos + (rlen + k)]);
            assert(tail[rlen + k] == ((rsf + rest) + seq!['}'])[rlen + k]);
        };
        assert(s.subrange(pos + rlen, s.len() as int) =~= rest + seq!['}']);
        lemma_render_fields_roundtrip(s, pos + rlen, fs.skip(1), acc.push(f));
        assert(acc.push(f) + fs.skip(1) =~= acc + fs);
    }
}

/// Round trip of the grammar: every schema text generated by
/// `render_schema` — any field list, any quote-free names — parses back to
/// exactly the abstract schema it was rendered from, fields in order and
/// types as written.
pub proof fn lemma_render_schema_roundtrip(v: SchemaV)
    requires
        schema_renderable(v),
    ensures
        sp_parse_schema(render_schema(v)) == Ok::<_, ErrorV>(v),
{
    let s = render_schema(v);
    let n = v.name.len() as int;
    assert(s[n + 1] == '"');
    assert(s[n + 2] == ':');
    assert(s[n + 3] == '{');
    crate::lexer::lemma_tok_string_at(s, 0, v.name);
    assert(s.subrange(n + 4, s.len() as int) =~= render_schema_fields(v.fields) + seq!['}']);
    lemma_render_fields_roundtrip(s, n + 4, v.fields, Seq::empty());
    assert(Seq::<SchemaFieldV>::empty() + v.fields =~= v.fields);
    assert((SchemaV { name: v.name, fields: v.fields }) == v);
}

/// A field value as model texts write it: text quoted, numbers as their
/// digits.
pub open spec fn render_value(v: ObjectV) -> Seq<char> {
    match v {
        ObjectV::String(t) => seq!['"'] + t + seq!['"'],
        ObjectV::Number(d) => crate::decimal::dec_chars(d),
    }
}

/// One model field as text, with its separating comma.
pub open spec fn render_model_field(f: ModelFieldV) -> Seq<char> {
    seq!['"'] + f.name + seq!['"', ':'] + render_value(f.value) + seq![',']
}

/// A model field list as text.
pub open spec fn render_model_fields(fs: Seq<ModelFieldV>) -> Seq<char>
    decreases fs.len(),
{
    if fs.len() == 0 {
        Seq::empty()
    } else {
        render_model_field(fs[0]) + render_model_fields(fs.skip(1))
    }
}

/// A whole model as text: one of the texts the grammar generates for it.
pub open spec fn render_model(v: ModelV) -> Seq<char> {
    seq!['"'] + v.name + seq!['"', ':', '{'] + render_model_fields(v.fields) + seq!['}']
}

/// A field can be written down faithfully: quote-free names and texts, a
/// well-formed field (canonical number, type agreeing with the literal's
/// form).
pub open spec fn model_field_renderable(f: ModelFieldV) -> bool {
    &&& quote_free(f.name)
    &&& f.wf()
    &&& (f.value matches ObjectV::String(t) ==> quote_free(t))
}

pub open spec fn model_renderable(v: ModelV) -> bool {
    &&& quote_free(v.name)
    &&& forall|i: int| 0 <= i < v.fields.len() ==> model_field_renderable(#[trigger] v.fields[i])
}

proof fn lemma_render_model_fields_roundtrip(
    s: Seq<char>,
    pos: int,
    fs: Seq<ModelFieldV>,
    acc: Seq<ModelFieldV>,
)
    requires
        0 <= pos <= s.len(),
        s.subrange(pos, s.len() as int) == render_model_fields(fs) + seq!['}'],
        forall|i: int| 0 <= i < fs.len() ==> model_field_renderable(#[trigger] fs[i]),
    ensures
        sp_model_fields_rest(s, pos, acc) == Ok::<_, ErrorV>((acc + fs, s.len() - 1)),
    decreases fs.len(),
{
    let tail = s.subrange(pos, s.len() as int);
    assert(tail.len() == s.len() - pos);
    if fs.len() == 0 {
        assert(s.subrange(pos, s.len() as int)[0] == s[pos]);
        assert(s[pos] == '}');
        assert(pos + 1 == s.len());
        assert(acc + fs =~= acc);
    } else {
        let f = fs[0];
        let n = f.name.len() as int;
        let vtext = render_value(f.value);
        let vlen = vtext.len() as int;
        let rlen = n + 4 + vlen;
        let rsf = render_model_field(f);
        let rest = render_model_fields(fs.skip(1));
        assert(render_model_fields(fs) == rsf + rest);
        assert(rsf.len() == rlen);
        assert(tail.len() == rlen + rest.len() + 1);
        assert(s.len() - pos == rlen + rest.len() + 1);
        assert forall|k: int| 0 <= k < rlen implies #[trigger] s[pos + k] == rsf[k] by {
            assert(s.subrange(pos, s.len() as int)[k] == s[pos + k]);
            assert(tail[k] == (rsf + rest)[k]);
        };
        assert(rsf[0] == '"');
        assert(s[pos + 0] == rsf[0]);
        assert(s[pos] == '"');
        assert forall|k: int| 0 <= k < n implies s[pos + 1 + k] == #[trigger] f.name[k] by {
            assert(s[pos + (1 + k)] == rsf[1 + k]);
            assert(rsf[1 + k] == (seq!['"'] + f.name)[1 + k]);
        };
        assert(rsf[n + 1] == (seq!['"'] + f.name + seq!['"', ':'])[n + 1]);
        assert(s[pos + (n + 1)] == rsf[n + 1]);
        assert(s[pos + n + 1] == '"');
        assert(rsf[n + 2] == (seq!['"'] + f.name + seq!['"', ':'])[n + 2]);
        assert(s[pos + (n + 2)] == rsf[n + 2]);
        assert(s[pos + n + 2] == ':');
        assert forall|k: int| 0 <= k < vlen implies s[pos + n + 3 + k] == #[trigger] vtext[k] by {
            assert(s[pos + (n + 3 + k)] == rsf[n + 3 + k]);
            assert(rsf[n + 3 + k] == vtext[k]);
        };
        assert(rsf[n + 3 + vlen] == ',');
        assert(s[pos + (n + 3 + vlen)] == rsf[n + 3 + vlen]);
        assert(s[pos + n + 3 + vlen] == ',');
        crate::lexer::lemma_tok_string_at(s, pos, f.name);
        match f.value {
            ObjectV::String(t) => {
                assert(vtext[0] == '"');
                assert(s[pos + n + 3 + 0] == vtext[0]);
                assert(vtext[t.len() as int + 1] == '"');
                assert(s[pos + n + 3 + (t.len() as int + 1)] == vtext[t.len() as int + 1]);
                assert forall|k: int|
                    0 <= k < t.len() implies s[(pos + n + 3) + 1 + k] == #[trigger] t[k] by {
                    assert(s[pos + n + 3 + (1 + k)] == vtext[1 + k]);
                    assert(vtext[1 + k] == (seq!['"'] + t)[1 + k]);
                };
                crate::lexer::lemma_tok_string_at(s, pos + n + 3, t);
            },
            ObjectV::Number(d) => {
                assert(vtext == crate::decimal::dec_chars(d));
                assert forall|k: int|
                    0 <= k < crate::decimal::dec_chars(d).len() implies s[(pos + n + 3) + k]
                    == #[trigger] crate::decimal::dec_chars(d)[k] by {
                    assert(s[pos + n + 3 + k] == vtext[k]);
                };
                assert(!(crate::lexer::is_digit_char(',') || ',' == '.'));
                crate::lexer::lemma_tok_number_at(s, pos + n + 3, d);
            },
        }
        assert(sp_model_field(s, pos) == Ok::<_, ErrorV>((f, pos + n + 3 + vlen)));
        assert forall|k: int|
            0 <= k < rest.len() + 1 implies s.subrange(pos + rlen, s.len() as int)[k] == (rest
            + seq!['}'])[k] by {
            assert(s.subrange(pos + rlen, s.len() as int)[k] == s[pos + rlen + k]);
            assert(s.subrange(pos, s.len() as int)[rlen + k] == s[pos + (rlen + k)]);
            assert(tail[rlen + k] == ((rsf + rest) + seq!['}'])[rlen + k]);
        };
        assert(s.subrange(pos + rlen, s.len() as int) =~= rest + seq!['}']);
        lemma_render_model_fields_roundtrip(s, pos + rlen, fs.skip(1), acc.push(f));
        assert(acc.push(f) + fs.skip(1) =~= acc + fs);
    }
}

/// Round trip of the grammar: every model text generated by `render_model` —
/// any field list of well-formed fields with quote-free names and texts —
/// parses back to exactly the abstract model it was rendered from, fields in
/// order, each type the form of its literal.
pub proof fn lemma_render_model_roundtrip(v: ModelV)
    requires
        model_renderable(v),
    ensures
        sp_parse_model(render_model(v)) == Ok::<_, ErrorV>(v),
{
    let s = render_model(v);
    let n = v.name.len() as int;
    assert(s[n + 1] == '"');
    assert(s[n + 2] == ':');
    assert(s[n + 3] == '{');
    crate::lexer::lemma_tok_string_at(s, 0, v.name);
    assert(s.subrange(n + 4, s.len() as int) =~= render_model_fields(v.fields) + seq!['}']);
    lemma_render_model_fields_roundtrip(s, n + 4, v.fields, Seq::empty());
    assert(Seq::<ModelFieldV>::empty() + v.fields =~= v.fields);
    assert((ModelV { name: v.name, fields: v.fields }) == v);
}

// ---------------------------------------------------------------------------
// The executable parser.
// ---------------------------------------------------------------------------

/// The parser state: the lexer plus the current token and one token of
/// lookahead, advanced in lock-step.  The ghost positions record where each
/// buffered token was scanned from.
pub struct Parser<'a> {
    l: Lexer<'a>,
    curr_token: Token,
    next_token: Token,
    curr_pos: Ghost<int>,
    next_pos: Ghost<int>,
}

impl<'a> Parser<'a> {
    spec fn inp(self) -> Seq<char> {
        self.l.input@
    }

    spec fn wf(self) -> bool {
        &&& self.l.wf()
        &&& 0 <= self.curr_pos@ <= self.inp().len()
        &&& 0 <= self.next_pos@ <= self.inp().len()
        &&& spec_tok(self.inp(), self.curr_pos@) == (self.curr_token@, self.next_pos@)
        &&& spec_tok(self.inp(), self.next_pos@) == (self.next_token@, self.l.pos as int)
    }

    fn new(input: &'a [char]) -> (p: Parser<'a>)
        ensures
            p.wf(),
            p.inp() == input@,
            p.curr_pos@ == 0,
    {
        let mut l = Lexer::new(input);
        let t0 = l.next_token();
        let ghost np = l.pos as int;
        let t1 = l.next_token();
        proof {
            lemma_tok_advances(input@, 0);
        }
        Parser { l, curr_token: t0, next_token: t1, curr_pos: Ghost(0), next_pos: Ghost(np) }
    }

    /// Advances: the lookahead becomes current and one more token is read.
    fn read_token(&mut self)
        requires
            old(self).wf(),
        ensures
            final(self).wf(),
            final(self).inp() == old(self).inp(),
            final(self).curr_pos@ == old(self).next_pos@,
            final(self).curr_token@ == old(self).next_token@,
    {
        let ghost onp = self.next_pos@;
        let ghost olp = self.l.pos as int;
        proof {
            lemma_tok_advances(self.inp(), olp);
        }
        let nt = self.l.next_token();
        self.curr_token = self.next_token.clone();
        self.next_token = nt;
        self.curr_pos = Ghost(onp);
        self.next_pos = Ghost(olp);
    }

    /// A copy of the current token, for error reports.
    fn clone_curr(&self) -> (t: Token)
        ensures
            t@ == self.curr_token@,
    {
        self.curr_token.clone()
    }

    fn curr_is_eof(&self) -> (b: bool)
        ensures
            b == (self.curr_token@ == TokenV::Eof),
    {
        match &self.curr_token {
            Token::Eof => true,
            _ => false,
        }
    }

    fn curr_is_rbrace(&self) -> (b: bool)
        ensures
            b == (self.curr_token@ == TokenV::Rbrace),
    {
        match &self.curr_token {
            Token::Rbrace => true,
            _ => false,
        }
    }

    /// Consumes the current token when it is a `:`.
    fn skip_colon(&mut self) -> (b: bool)
        requires
            old(self).wf(),
        ensures
            final(self).wf(),
            final(self).inp() == old(self).inp(),
            b == (old(self).curr_token@ == TokenV::Colon),
            b ==> final(self).curr_pos@ == old(self).next_pos@,
            !b ==> *final(self) == *old(self),
    {
        match &self.curr_token {
            Token::Colon => {
                self.read_token();
                true
            },
            _ => false,
        }
    }

    /// Consumes the current token when it is a `{`.
    fn skip_lbrace(&mut self) -> (b: bool)
        requires
            old(self).wf(),
        ensures
            final(self).wf(),
            final(self).inp() == old(self).inp(),
            b == (old(self).curr_token@ == TokenV::Lbrace),
            b ==> final(self).curr_pos@ == old(self).next_pos@,
            !b ==> *final(self) == *old(self),
    {
        match &self.curr_token {
            Token::Lbrace => {
                self.read_token();
                true
            },
            _ => false,
        }
    }

    /// Consumes the current token when it is a `,`.
    fn skip_comma(&mut self) -> (b: bool)
        requires
            old(self).wf(),
        ensures
            final(self).wf(),
            final(self).inp() == old(self).inp(),
            b == (old(self).curr_token@ == TokenV::Comma),
            b ==> final(self).curr_pos@ == old(self).next_pos@,
            !b ==> *final(self) == *old(self),
    {
        match &self.curr_token {
            Token::Comma => {
                self.read_token();
                true
            },
            _ => false,
        }
    }

    fn parse_schema_field(&mut self) -> (r: Result<SchemaField, Error>)
        requires
            old(self).wf(),
        ensures
            final(self).wf(),
            final(self).inp() == old(self).inp(),
            match r {
                Ok(f) => sp_schema_field(old(self).inp(), old(self).curr_pos@) == Ok::<
                    _,
                    ErrorV,
                >((f@, final(self).curr_pos@)),
                Err(e) => sp_schema_field(old(self).inp(), old(self).curr_pos@) == Err::<
                    (SchemaFieldV, int),
                    _,
                >(e@),
            },
    {
        let name: String = match &self.curr_token {
            Token::String(val) => val.clone(),
            _ => {
                return Err(Error::InvalidFieldName);
            },
        };
        self.read_token();
        if !self.skip_colon() {
            return Err(Error::ExpectedColon { found: self.clone_curr() });
        }
        let type_ = match &self.curr_token {
            Token::TypeNumber => DataType::Number,
            Token::TypeString => DataType::String,
            _ => {
                return Err(Error::InvalidFieldValue { found: self.clone_curr() });
            },
        };
        self.read_token();
        Ok(SchemaField { name, type_ })
    }

    fn parse_model_field(&mut self) -> (r: Result<ModelField, Error>)
        requires
            old(self).wf(),
        ensures
            final(self).wf(),
            final(self).inp() == old(self).inp(),
            match r {
                Ok(f) => sp_model_field(old(self).inp(), old(self).curr_pos@) == Ok::<
                    _,
                    ErrorV,
                >((f@, final(self).curr_pos@)),
                Err(e) => sp_model_field(old(self).inp(), old(self).curr_pos@) == Err::<
                    (ModelFieldV, int),
                    _,
                >(e@),
            },
    {
        let name: String = match &self.curr_token {
            Token::String(val) => val.clone(),
            _ => {
                return Err(Error::InvalidFieldName);
            },
        };
        self.read_token();
        if !self.skip_colon() {
            return Err(Error::ExpectedColon { found: self.clone_curr() });
        }
        let (value, type_) = match &self.curr_token {
            Token::String(val) => (Object::String(val.clone()), DataType::String),
            Token::Number(d) => (Object::Number(d.clone()), DataType::Number),
            _ => {
                return Err(Error::InvalidFieldValue { found: self.clone_curr() });
            },
        };
        self.read_token();
        Ok(ModelField { name, value, type_ })
    }

    fn parse_schema_fields(&mut self) -> (r: Result<Vec<SchemaField>, Error>)
        requires
            old(self).wf(),
        ensures
            final(self).wf(),
            match r {
                Ok(v) => sp_schema_fields(old(self).inp(), old(self).curr_pos@) == Ok::<
                    _,
                    ErrorV,
                >((v@.map_values(|f: SchemaField| f@), final(self).curr_pos@)),
                Err(e) => sp_schema_fields(old(self).inp(), old(self).curr_pos@) == Err::<
                    (Seq<SchemaFieldV>, int),
                    _,
                >(e@),
            },
    {
        if !self.skip_lbrace() {
            return Err(Error::ExpectedLbrace { found: self.clone_curr() });
        }
        let ghost inp = self.inp();
        let ghost pos0 = self.curr_pos@;
        let mut fields: Vec<SchemaField> = Vec::new();
        proof {
            assert(fields@.map_values(|f: SchemaField| f@) =~= Seq::<SchemaFieldV>::empty());
        }
        loop
            invariant
                self.wf(),
                self.inp() == inp,
                0 <= pos0 <= inp.len(),
                pos0 <= self.curr_pos@,
                sp_schema_fields(old(self).inp(), old(self).curr_pos@) == sp_schema_fields_rest(
                    inp,
                    self.curr_pos@,
                    fields@.map_values(|f: SchemaField| f@),
                ),
            decreases inp.len() - self.curr_pos@,
        {
            let ghost pos = self.curr_pos@;
            let ghost acc = fields@.map_values(|f: SchemaField| f@);
            if self.curr_is_eof() {
                return Err(Error::UnexpectedEof);
            }
            if self.curr_is_rbrace() {
                return Ok(fields);
            }
            let field = match self.parse_schema_field() {
                Ok(f) => f,
                Err(e) => {
                    return Err(e);
                },
            };
            proof {
                lemma_sp_schema_field_advances(inp, pos);
                lemma_tok_advances(inp, self.curr_pos@);
                assert(acc.push(field@) =~= fields@.push(field).map_values(
                    |f: SchemaField| f@,
                ));
            }
            fields.push(field);
            if !self.skip_comma() {
                if !self.curr_is_rbrace() {
                    return Err(Error::ExpectedCommaOrRbrace);
                }
            }
        }
    }

    fn parse_model_fields(&mut self) -> (r: Result<Vec<ModelField>, Error>)
        requires
            old(self).wf(),
        ensures
            final(self).wf(),
            match r {
                Ok(v) => sp_model_fields(old(self).inp(), old(self).curr_pos@) == Ok::<
                    _,
                    ErrorV,
                >((v@.map_values(|f: ModelField| f@), final(self).curr_pos@)),
                Err(e) => sp_model_fields(old(self).inp(), old(self).curr_pos@) == Err::<
                    (Seq<ModelFieldV>, int),
                    _,
                >(e@),
            },
    {
        if !self.skip_lbrace() {
            return Err(Error::ExpectedLbrace { found: self.clone_curr() });
        }
        let ghost inp = self.inp();
        let ghost pos0 = self.curr_pos@;
        let mut fields: Vec<ModelField> = Vec::new();
        proof {
            assert(fields@.map_values(|f: ModelField| f@) =~= Seq::<ModelFieldV>::empty());
        }
        loop
            invariant
                self.wf(),
                self.inp() == inp,
                0 <= pos0 <= inp.len(),
                pos0 <= self.curr_pos@,
                sp_model_fields(old(self).inp(), old(self).curr_pos@) == sp_model_fields_rest(
                    inp,
                    self.curr_pos@,
                    fields@.map_values(|f: ModelField| f@),
                ),
            decreases inp.len() - self.curr_pos@,
        {
            let ghost pos = self.curr_pos@;
            let ghost acc = fields@.map_values(|f: ModelField| f@);
            if self.curr_is_eof() {
                return Err(Error::UnexpectedEof);
            }
            if self.curr_is_rbrace() {
                return Ok(fields);
            }
            let field = match self.parse_model_field() {
                Ok(f) => f,
                Err(e) => {
                    return Err(e);
                },
            };
            proof {
                lemma_sp_model_field_advances(inp, pos);
                lemma_tok_advances(inp, self.curr_pos@);
                assert(acc.push(field@) =~= fields@.push(field).map_values(|f: ModelField| f@));
            }
            fields.push(field);
            if !self.skip_comma() {
                if !self.curr_is_rbrace() {
                    return Err(Error::ExpectedCommaOrRbrace);
                }
            }
        }
    }

    /// Parses a whole schema text: exactly the texts `sp_parse_schema`
    /// accepts succeed, producing its abstract syntax — field order and
    /// declared types as written — and every other text draws the error it
    /// names.
    pub fn parse_schema(input: &'a [char]) -> (r: Result<Schema, Error>)
        ensures
            match r {
                Ok(schema) => sp_parse_schema(input@) == Ok::<_, ErrorV>(schema@),
                Err(e) => sp_parse_schema(input@) == Err::<SchemaV, _>(e@),
            },
    {
        let mut p = Parser::new(input);
        let name: String = match &p.curr_token {
            Token::String(val) => val.clone(),
            _ => {
                return Err(Error::InvalidSchemaName);
            },
        };
        p.read_token();
        if !p.skip_colon() {
            return Err(Error::ExpectedColon { found: p.clone_curr() });
        }
        match p.parse_schema_fields() {
            Ok(fields) => Ok(Schema { name, fields }),
            Err(e) => Err(e),
        }
    }

    /// Parses a whole model text: exactly the texts `sp_parse_model` accepts
    /// succeed, producing its abstract syntax — each field's type inferred
    /// from its literal's form — and every other text draws the error it
    /// names.
    pub fn parse_model(input: &'a [char]) -> (r: Result<Model, Error>)
        ensures
            match r {
                Ok(model) => sp_parse_model(input@) == Ok::<_, ErrorV>(model@) && model.wf(),
                Err(e) => sp_parse_model(input@) == Err::<ModelV, _>(e@),
            },
    {
        let mut p = Parser::new(input);
        let name: String = match &p.curr_token {
            Token::String(val) => val.clone(),
            _ => {
                return Err(Error::InvalidModelName);
            },
        };
        p.read_token();
        if !p.skip_colon() {
            return Err(Error::ExpectedColon { found: p.clone_curr() });
        }
        let ghost fpos = p.curr_pos@;
        match p.parse_model_fields() {
            Ok(fields) => {
                let m = Model { name, fields };
                proof {
                    lemma_model_fields_wf(input@, fpos);
                    assert forall|i: int|
                        0 <= i < m.fields@.len() implies (#[trigger] m.fields@[i]).wf() by {
                        assert(m.fields@.map_values(|f: ModelField| f@)[i].wf());
                    };
                }
                Ok(m)
            },
            Err(e) => Err(e),
        }
    }
}

} // verus!
