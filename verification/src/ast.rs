//! The typed abstract syntax: declared types, runtime values, schemas and
//! models.

use crate::decimal::{Decimal, DecimalView};
use crate::strutil::str_eq;
use vstd::prelude::*;
use vstd::string::StringExecFns;

verus! {

/// The declared type of a schema column or a model field.
#[derive(Clone, Copy, Debug, PartialEq, Eq, Structural)]
pub enum DataType {
    String,
    Number,
}

/// The type as error reports show it: a bracketed tag.
pub open spec fn datatype_text(t: DataType) -> Seq<char> {
    match t {
        DataType::String => "[String]"@,
        DataType::Number => "[Number]"@,
    }
}

impl DataType {
    /// The type as text, for error reports.
    pub fn render(&self) -> (s: String)
        ensures
            s@ == datatype_text(*self),
    {
        match self {
            DataType::String => String::from_str("[String]"),
            DataType::Number => String::from_str("[Number]"),
        }
    }
}

/// A runtime value: either text or an exact decimal number.
#[derive(Debug)]
pub enum Object {
    String(String),
    Number(Decimal),
}

/// The mathematical model of an `Object`.
pub enum ObjectV {
    String(Seq<char>),
    Number(DecimalView),
}

impl View for Object {
    type V = ObjectV;

    open spec fn view(&self) -> ObjectV {
        match self {
            Object::String(s) => ObjectV::String(s@),
            Object::Number(d) => ObjectV::Number(d@),
        }
    }
}

impl ObjectV {
    /// The type a value belongs to.
    pub open spec fn type_of(self) -> DataType {
        match self {
            ObjectV::String(_) => DataType::String,
            ObjectV::Number(_) => DataType::Number,
        }
    }

    /// Numbers must be in canonical form.
    pub open spec fn wf(self) -> bool {
        match self {
            ObjectV::String(_) => true,
            ObjectV::Number(d) => d.wf(),
        }
    }
}

impl Object {
    pub open spec fn type_of(self) -> DataType {
        self@.type_of()
    }

    pub open spec fn wf(self) -> bool {
        self@.wf()
    }
}

impl Clone for Object {
    fn clone(&self) -> (o: Self)
        ensures
            o@ == self@,
    {
        match self {
            Object::String(s) => Object::String(s.clone()),
            Object::Number(d) => Object::Number(d.clone()),
        }
    }
}

/// One column of a schema: a name and a declared type.
#[derive(Debug)]
pub struct SchemaField {
    pub name: String,
    pub type_: DataType,
}

/// The mathematical model of a `SchemaField`.
pub struct SchemaFieldV {
    pub name: Seq<char>,
    pub type_: DataType,
}

impl View for SchemaField {
    type V = SchemaFieldV;

    open spec fn view(&self) -> SchemaFieldV {
        SchemaFieldV { name: self.name@, type_: self.type_ }
    }
}

/// A named, ordered column list; field order is the row layout.
#[derive(Debug)]
pub struct Schema {
    pub name: String,
    pub fields: Vec<SchemaField>,
}

/// The mathematical model of a `Schema`.
pub struct SchemaV {
    pub name: Seq<char>,
    pub fields: Seq<SchemaFieldV>,
}

impl View for Schema {
    type V = SchemaV;

    open spec fn view(&self) -> SchemaV {
        SchemaV { name: self.name@, fields: self.fields@.map_values(|f: SchemaField| f@) }
    }
}

/// One field of a model: a name, a literal value, and the type inferred from
/// the literal's form.
#[derive(Debug)]
pub struct ModelField {
    pub name: String,
    pub value: Object,
    pub type_: DataType,
}

/// The mathematical model of a `ModelField`.
pub struct ModelFieldV {
    pub name: Seq<char>,
    pub value: ObjectV,
    pub type_: DataType,
}

impl View for ModelField {
    type V = ModelFieldV;

    open spec fn view(&self) -> ModelFieldV {
        ModelFieldV { name: self.name@, value: self.value@, type_: self.type_ }
    }
}

impl ModelFieldV {
    /// The declared type agrees with the value's form, and the value is
    /// canonical; parsing always produces such fields.
    pub open spec fn wf(self) -> bool {
        self.value.wf() && self.type_ == self.value.type_of()
    }
}

impl ModelField {
    pub open spec fn wf(self) -> bool {
        self@.wf()
    }
}

/// A named, ordered list of candidate record fields.
#[derive(Debug)]
pub struct Model {
    pub name: String,
    pub fields: Vec<ModelField>,
}

/// The mathematical model of a `Model`.
pub struct ModelV {
    pub name: Seq<char>,
    pub fields: Seq<ModelFieldV>,
}

impl View for Model {
    type V = ModelV;

    open spec fn view(&self) -> ModelV {
        ModelV { name: self.name@, fields: self.fields@.map_values(|f: ModelField| f@) }
    }
}

/// The first field named `name`, scanning from position `i`.
pub open spec fn find_field_from(fields: Seq<ModelField>, name: Seq<char>, i: int) -> Option<
    ModelField,
>
    decreases fields.len() - i,
{
    if !(0 <= i < fields.len()) {
        None
    } else if fields[i].name@ == name {
        Some(fields[i])
    } else {
        find_field_from(fields, name, i + 1)
    }
}

/// The first field named `name`, or nothing.
pub open spec fn spec_find_field(fields: Seq<ModelField>, name: Seq<char>) -> Option<ModelField> {
    find_field_from(fields, name, 0)
}

proof fn lemma_find_field_from_wf(fields: Seq<ModelField>, name: Seq<char>, k: int)
    requires
        forall|i: int| 0 <= i < fields.len() ==> (#[trigger] fields[i]).wf(),
    ensures
        find_field_from(fields, name, k) matches Some(f) ==> f.wf() && f.name@ == name,
    decreases fields.len() - k,
{
    if 0 <= k < fields.len() && fields[k].name@ != name {
        lemma_find_field_from_wf(fields, name, k + 1);
    }
}

/// A field found in a well-formed field list is itself well formed and bears
/// the looked-up name.
pub proof fn lemma_find_field_wf(fields: Seq<ModelField>, name: Seq<char>)
    requires
        forall|i: int| 0 <= i < fields.len() ==> (#[trigger] fields[i]).wf(),
    ensures
        spec_find_field(fields, name) matches Some(f) ==> f.wf() && f.name@ == name,
{
    lemma_find_field_from_wf(fields, name, 0);
}

impl Model {
    /// Every field's declared type agrees with its value.
    pub open spec fn wf(self) -> bool {
        forall|i: int| 0 <= i < self.fields@.len() ==> (#[trigger] self.fields@[i]).wf()
    }

    /// Linear scan for the first field with the given name.
    pub fn find_field(&self, name: &str) -> (r: Option<&ModelField>)
        ensures
            match r {
                Some(f) => spec_find_field(self.fields@, name@) == Some(*f),
                None => spec_find_field(self.fields@, name@) is None,
            },
    {
        let mut j: usize = 0;
        while j < self.fields.len()
            invariant
                j <= self.fields@.len(),
                find_field_from(self.fields@, name@, 0) == find_field_from(
                    self.fields@,
                    name@,
                    j as int,
                ),
            decreases self.fields@.len() - j,
        {
            if str_eq(self.fields[j].name.as_str(), name) {
                return Some(&self.fields[j]);
            }
            j += 1;
        }
        None
    }

    /// True when every field's declared type agrees with its value's form
    /// and every number is canonical; always holds of a parsed model.
    pub fn well_typed(&self) -> (b: bool)
        ensures
            b == self.wf(),
    {
        let mut j: usize = 0;
        while j < self.fields.len()
            invariant
                j <= self.fields@.len(),
                forall|i: int| 0 <= i < j ==> (#[trigger] self.fields@[i]).wf(),
            decreases self.fields@.len() - j,
        {
            let f = &self.fields[j];
            let declared_ok = match (&f.value, f.type_) {
                (Object::String(_), DataType::String) => true,
                (Object::Number(_), DataType::Number) => true,
                _ => false,
            };
            let canonical = match &f.value {
                Object::String(_) => true,
                Object::Number(d) => d.is_canonical(),
            };
            if !declared_ok || !canonical {
                return false;
            }
            j += 1;
        }
        true
    }
}

} // verus!
