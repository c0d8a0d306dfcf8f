//! The typed table engine: schema-bound storage, insertion-time validation,
//! point lookups and conditional queries.

use crate::ast::{spec_find_field, DataType, Model, ModelField, Object, ObjectV, Schema,
    SchemaField};
use crate::decimal::dec_cmp;
use crate::error::{Error, ErrorV};
use crate::strutil::str_eq;
use vstd::prelude::*;
use vstd::string::StringExecFns;

verus! {

/// A comparison operator carrying its right-hand value.
pub enum Condition {
    IsEqual(Object),
    NotEqual(Object),
    LessThan(Object),
    GratherThan(Object),
    LessOrEqual(Object),
    GratherOrEqual(Object),
}

/// The condition's operator as error reports show it.
pub open spec fn condition_text(c: Condition) -> Seq<char> {
    match c {
        Condition::IsEqual(_) => "=="@,
        Condition::NotEqual(_) => "!="@,
        Condition::LessThan(_) => "<"@,
        Condition::GratherThan(_) => ">"@,
        Condition::LessOrEqual(_) => "<="@,
        Condition::GratherOrEqual(_) => ">="@,
    }
}

impl Condition {
    /// The operator as text, for error reports.
    pub fn render(&self) -> (s: String)
        ensures
            s@ == condition_text(*self),
    {
        match self {
            Condition::IsEqual(_) => String::from_str("=="),
            Condition::NotEqual(_) => String::from_str("!="),
            Condition::LessThan(_) => String::from_str("<"),
            Condition::GratherThan(_) => String::from_str(">"),
            Condition::LessOrEqual(_) => String::from_str("<="),
            Condition::GratherOrEqual(_) => String::from_str(">="),
        }
    }
}

/// A single-column predicate: the field to test and the condition to apply.
pub struct WhereQuery {
    pub field: String,
    pub cond: Condition,
}

/// A stored record: its id and one value per column, positionally aligned
/// with the owning table's column list.
#[derive(Debug)]
pub struct Row {
    pub id: usize,
    pub entries: Vec<Object>,
}

/// The mathematical model of a `Row`.
pub struct RowV {
    pub id: int,
    pub entries: Seq<ObjectV>,
}

impl View for Row {
    type V = RowV;

    open spec fn view(&self) -> RowV {
        RowV { id: self.id as int, entries: self.entries@.map_values(|o: Object| o@) }
    }
}

/// Equality of values: text compares as text, numbers compare numerically,
/// and values of different types are never equal.
pub open spec fn obj_eq(a: Object, b: Object) -> bool {
    match (a, b) {
        (Object::String(x), Object::String(y)) => x@ == y@,
        (Object::Number(x), Object::Number(y)) => dec_cmp(x@, y@) == 0,
        _ => false,
    }
}

/// Numeric strict order; ordering never holds across types or on text.
pub open spec fn obj_lt(a: Object, b: Object) -> bool {
    match (a, b) {
        (Object::Number(x), Object::Number(y)) => dec_cmp(x@, y@) < 0,
        _ => false,
    }
}

pub open spec fn obj_gt(a: Object, b: Object) -> bool {
    match (a, b) {
        (Object::Number(x), Object::Number(y)) => dec_cmp(x@, y@) > 0,
        _ => false,
    }
}

pub open spec fn obj_le(a: Object, b: Object) -> bool {
    match (a, b) {
        (Object::Number(x), Object::Number(y)) => dec_cmp(x@, y@) <= 0,
        _ => false,
    }
}

pub open spec fn obj_ge(a: Object, b: Object) -> bool {
    match (a, b) {
        (Object::Number(x), Object::Number(y)) => dec_cmp(x@, y@) >= 0,
        _ => false,
    }
}

/// What it means for a stored value to satisfy a condition.
pub open spec fn spec_apply_condition(lhs: Object, cond: Condition) -> bool {
    match cond {
        Condition::IsEqual(rhs) => obj_eq(lhs, rhs),
        Condition::NotEqual(rhs) => !obj_eq(lhs, rhs),
        Condition::LessThan(rhs) => obj_lt(lhs, rhs),
        Condition::GratherThan(rhs) => obj_gt(lhs, rhs),
        Condition::LessOrEqual(rhs) => obj_le(lhs, rhs),
        Condition::GratherOrEqual(rhs) => obj_ge(lhs, rhs),
    }
}

/// Which conditions a column type supports: text only equality tests,
/// numbers all six.
pub open spec fn spec_supports(type_: DataType, cond: Condition) -> bool {
    match type_ {
        DataType::String => cond is IsEqual || cond is NotEqual,
        DataType::Number => true,
    }
}

/// The position of the first column with the given name, scanning from `i`.
pub open spec fn col_pos_from(columns: Seq<SchemaField>, name: Seq<char>, i: int) -> Option<int>
    decreases columns.len() - i,
{
    if !(0 <= i < columns.len()) {
        None
    } else if columns[i].name@ == name {
        Some(i)
    } else {
        col_pos_from(columns, name, i + 1)
    }
}

/// The position of the first column with the given name, or nothing.
pub open spec fn spec_col_pos(columns: Seq<SchemaField>, name: Seq<char>) -> Option<int> {
    col_pos_from(columns, name, 0)
}

/// The rows from position `i` on whose entry at column `j` satisfies the
/// condition, in stored order.
pub open spec fn filtered_from(rows: Seq<Row>, j: int, cond: Condition, i: int) -> Seq<Row>
    decreases rows.len() - i,
{
    if !(0 <= i < rows.len()) {
        Seq::empty()
    } else {
        let rest = filtered_from(rows, j, cond, i + 1);
        if spec_apply_condition(rows[i].entries@[j], cond) {
            seq![rows[i]] + rest
        } else {
            rest
        }
    }
}

/// The error insertion of these fields into these columns draws, or nothing
/// when insertion must succeed: first a column whose name the model lacks,
/// then a column whose field has the wrong declared type, in column order,
/// scanning from `i`.
pub open spec fn first_col_err(columns: Seq<SchemaField>, fields: Seq<ModelField>, i: int) -> Option<
    ErrorV,
>
    decreases columns.len() - i,
{
    if !(0 <= i < columns.len()) {
        None
    } else {
        match spec_find_field(fields, columns[i].name@) {
            Option::None => Some(ErrorV::MissingField { name: columns[i].name@ }),
            Option::Some(f) => if f.type_ != columns[i].type_ {
                Some(
                    ErrorV::TypeMismatch {
                        field: columns[i].name@,
                        expected: columns[i].type_,
                        found: f.type_,
                    },
                )
            } else {
                first_col_err(columns, fields, i + 1)
            },
        }
    }
}

/// The exact error `add_row` reports for a model, or nothing when it must
/// succeed: an arity mismatch first, then the first failing column.
pub open spec fn spec_add_err(columns: Seq<SchemaField>, fields: Seq<ModelField>) -> Option<
    ErrorV,
> {
    if fields.len() != columns.len() {
        Some(
            ErrorV::ArityMismatch {
                expected: columns.len() as int,
                found: fields.len() as int,
            },
        )
    } else {
        first_col_err(columns, fields, 0)
    }
}

/// The values of the accepted row: for each column, the value of the first
/// model field bearing its name.
pub open spec fn spec_row_entries(columns: Seq<SchemaField>, fields: Seq<ModelField>) -> Seq<
    ObjectV,
> {
    Seq::new(
        columns.len(),
        |i: int|
            match spec_find_field(fields, columns[i].name@) {
                Option::Some(f) => f.value@,
                Option::None => vstd::pervasive::arbitrary(),
            },
    )
}

/// A table bound to a schema: the column list is fixed at construction, row
/// ids start at 1 and are assigned only on successful insertion.
#[derive(Debug)]
pub struct Table {
    pub name: String,
    pub next_id: usize,
    pub columns: Vec<SchemaField>,
    pub rows: Vec<Row>,
}

impl Row {
    /// A row fits a column list when it has one value per column, of the
    /// column's type, in canonical form.
    pub open spec fn wf_for(self, columns: Seq<SchemaField>) -> bool {
        &&& self.entries@.len() == columns.len()
        &&& forall|j: int|
            0 <= j < columns.len() ==> (#[trigger] self.entries@[j]).type_of()
                == columns[j].type_
        &&& forall|j: int| 0 <= j < columns.len() ==> (#[trigger] self.entries@[j]).wf()
    }
}

impl Table {
    /// The table invariant: ids are exactly 1, 2, ... in storage order, the
    /// next id follows the last, and every stored row fits the columns.
    pub open spec fn wf(self) -> bool {
        &&& self.next_id as int == self.rows@.len() + 1
        &&& forall|i: int|
            0 <= i < self.rows@.len() ==> (#[trigger] self.rows@[i]).id as int == i + 1
        &&& forall|i: int|
            0 <= i < self.rows@.len() ==> (#[trigger] self.rows@[i]).wf_for(self.columns@)
    }

    /// Consumes a schema: its field list becomes the column list, ids start
    /// at 1, no rows yet.
    pub fn new(schema: Schema) -> (t: Table)
        ensures
            t.name@ == schema.name@,
            t.columns@ == schema.fields@,
            t.next_id == 1,
            t.rows@ == Seq::<Row>::empty(),
            t.wf(),
    {
        let t = Table { name: schema.name, next_id: 1, columns: schema.fields, rows: Vec::new() };
        proof {
            assert(t.rows@ =~= Seq::<Row>::empty());
        }
        t
    }

    /// Allocates the next row id.
    fn get_id(&mut self) -> (id: usize)
        requires
            old(self).next_id < usize::MAX,
        ensures
            id == old(self).next_id,
            final(self).next_id == old(self).next_id + 1,
            final(self).name == old(self).name,
            final(self).columns == old(self).columns,
            final(self).rows == old(self).rows,
    {
        let next_id = self.next_id;
        self.next_id = self.next_id + 1;
        next_id
    }

    /// Validates a model against the columns and, only if every column
    /// passes, allocates the next id and appends the new row; any failure
    /// leaves the table exactly as it was.
    pub fn add_row(&mut self, model: Model) -> (r: Result<usize, Error>)
        requires
            old(self).wf(),
            model.wf(),
            old(self).next_id < usize::MAX,
        ensures
            final(self).wf(),
            final(self).name == old(self).name,
            final(self).columns == old(self).columns,
            match r {
                Ok(id) => {
                    &&& spec_add_err(old(self).columns@, model.fields@) is None
                    &&& id == old(self).next_id
                    &&& final(self).next_id == old(self).next_id + 1
                    &&& final(self).rows@.len() == old(self).rows@.len() + 1
                    &&& forall|i: int|
                        0 <= i < old(self).rows@.len() ==> final(self).rows@[i] == old(
                            self,
                        ).rows@[i]
                    &&& final(self).rows@.last()@ == (RowV {
                        id: id as int,
                        entries: spec_row_entries(old(self).columns@, model.fields@),
                    })
                },
                Err(e) => {
                    &&& spec_add_err(old(self).columns@, model.fields@) == Some(e@)
                    &&& *final(self) == *old(self)
                },
            },
    {
        if model.fields.len() != self.columns.len() {
            return Err(
                Error::ArityMismatch {
                    expected: self.columns.len(),
                    found: model.fields.len(),
                },
            );
        }
        let mut entries: Vec<Object> = Vec::new();
        let mut i: usize = 0;
        while i < self.columns.len()
            invariant
                *self == *old(self),
                old(self).wf(),
                model.wf(),
                i <= self.columns@.len(),
                model.fields@.len() == self.columns@.len(),
                first_col_err(self.columns@, model.fields@, 0) == first_col_err(
                    self.columns@,
                    model.fields@,
                    i as int,
                ),
                entries@.len() == i,
                forall|k: int|
                    0 <= k < i ==> (#[trigger] entries@[k])@ == spec_row_entries(
                        self.columns@,
                        model.fields@,
                    )[k],
                forall|k: int|
                    0 <= k < i ==> (#[trigger] entries@[k]).type_of() == self.columns@[k].type_,
                forall|k: int| 0 <= k < i ==> (#[trigger] entries@[k]).wf(),
            decreases self.columns@.len() - i,
        {
            let col = &self.columns[i];
            match model.find_field(col.name.as_str()) {
                None => {
                    return Err(Error::MissingField { name: col.name.clone() });
                },
                Some(f) => {
                    if f.type_ != col.type_ {
                        return Err(
                            Error::TypeMismatch {
                                field: col.name.clone(),
                                expected: col.type_,
                                found: f.type_,
                            },
                        );
                    }
                    proof {
                        crate::ast::lemma_find_field_wf(model.fields@, col.name@);
                    }
                    entries.push(f.value.clone());
                },
            }
            i += 1;
        }
        let id = self.get_id();
        let row = Row { id, entries };
        self.rows.push(row);
        proof {
            assert(self.rows@.last()@.entries =~= spec_row_entries(
                old(self).columns@,
                model.fields@,
            ));
        }
        Ok(id)
    }

    /// The row with this id, or nothing when the id is out of range; with
    /// ids assigned densely from 1, a row exists exactly for ids in
    /// `1 .. next_id`.
    pub fn query_by_id(&self, id: usize) -> (r: Option<&Row>)
        requires
            self.wf(),
        ensures
            r is Some <==> 1 <= id && (id as int) < self.next_id as int,
            r matches Some(row) ==> *row == self.rows@[id as int - 1],
    {
        if id < 1 || id >= self.next_id {
            return None;
        }
        let mut j: usize = 0;
        while j < self.rows.len()
            invariant
                self.wf(),
                1 <= id,
                (id as int) < self.next_id as int,
                j <= self.rows@.len(),
                forall|k: int| 0 <= k < j ==> (#[trigger] self.rows@[k]).id != id,
            decreases self.rows@.len() - j,
        {
            if self.rows[j].id == id {
                return Some(&self.rows[j]);
            }
            j += 1;
        }
        proof {
            assert(self.rows@[id as int - 1].id == id);
            assert(false);
        }
        None
    }

    /// The position of the first column with the given name.
    fn find_col(&self, name: &str) -> (r: Option<usize>)
        ensures
            match r {
                Some(j) => spec_col_pos(self.columns@, name@) == Some(j as int) && j
                    < self.columns@.len(),
                None => spec_col_pos(self.columns@, name@) is None,
            },
    {
        let mut j: usize = 0;
        while j < self.columns.len()
            invariant
                j <= self.columns@.len(),
                col_pos_from(self.columns@, name@, 0) == col_pos_from(
                    self.columns@,
                    name@,
                    j as int,
                ),
            decreases self.columns@.len() - j,
        {
            if str_eq(self.columns[j].name.as_str(), name) {
                return Some(j);
            }
            j += 1;
        }
        None
    }

    /// Resolves the queried field to a column, checks that the column's type
    /// supports the condition, and returns references to exactly the rows
    /// whose value there satisfies it, in stored order.
    pub fn query_where(&self, q: WhereQuery) -> (r: Result<Vec<&Row>, Error>)
        requires
            self.wf(),
        ensures
            match r {
                Ok(v) => spec_col_pos(self.columns@, q.field@) matches Some(j)
                    && spec_supports(self.columns@[j].type_, q.cond) && v@.map_values(
                    |row: &Row| *row,
                ) == filtered_from(self.rows@, j, q.cond, 0),
                Err(e) => match spec_col_pos(self.columns@, q.field@) {
                    Option::None => e@ == (ErrorV::UnknownField {
                        table: self.name@,
                        field: q.field@,
                    }),
                    Option::Some(j) => !spec_supports(self.columns@[j].type_, q.cond) && e@
                        == (ErrorV::UnsupportedCondition {
                        cond: condition_text(q.cond),
                        type_: self.columns@[j].type_,
                    }),
                },
            },
    {
        let j = match self.find_col(q.field.as_str()) {
            None => {
                return Err(
                    Error::UnknownField { table: self.name.clone(), field: q.field.clone() },
                );
            },
            Some(j) => j,
        };
        if !datatype_support_condition(&self.columns[j].type_, &q.cond) {
            return Err(
                Error::UnsupportedCondition {
                    cond: q.cond.render(),
                    type_: self.columns[j].type_,
                },
            );
        }
        let mut out: Vec<&Row> = Vec::new();
        let mut i: usize = 0;
        while i < self.rows.len()
            invariant
                self.wf(),
                j < self.columns@.len(),
                i <= self.rows@.len(),
                filtered_from(self.rows@, j as int, q.cond, 0) == out@.map_values(
                    |row: &Row| *row,
                ) + filtered_from(self.rows@, j as int, q.cond, i as int),
            decreases self.rows@.len() - i,
        {
            let ghost pre = out@.map_values(|row: &Row| *row);
            if apply_condition(&self.rows[i].entries[j], &q.cond) {
                out.push(&self.rows[i]);
                proof {
                    assert(out@.map_values(|row: &Row| *row) =~= pre.push(self.rows@[i as int]));
                    assert(pre + (seq![self.rows@[i as int]] + filtered_from(
                        self.rows@,
                        j as int,
                        q.cond,
                        i as int + 1,
                    )) =~= pre.push(self.rows@[i as int]) + filtered_from(
                        self.rows@,
                        j as int,
                        q.cond,
                        i as int + 1,
                    ));
                }
            }
            i += 1;
        }
        proof {
            assert(filtered_from(self.rows@, j as int, q.cond, self.rows@.len() as int)
                =~= Seq::<Row>::empty());
            assert(out@.map_values(|row: &Row| *row) + Seq::<Row>::empty() =~= out@.map_values(
                |row: &Row| *row,
            ));
        }
        Ok(out)
    }
}

// ---------------------------------------------------------------------------
// Laws of the table engine.
// ---------------------------------------------------------------------------

/// The model's fields line up with the columns one for one: same count, same
/// names, same declared types, in order.
pub open spec fn model_matches_columns(columns: Seq<SchemaField>, fields: Seq<ModelField>) -> bool {
    &&& fields.len() == columns.len()
    &&& forall|i: int|
        0 <= i < columns.len() ==> (#[trigger] fields[i]).name@ == columns[i].name@
            && fields[i].type_ == columns[i].type_
}

/// No two fields share a name.
pub open spec fn distinct_names(fields: Seq<ModelField>) -> bool {
    forall|a: int, b: int|
        0 <= a < b < fields.len() ==> (#[trigger] fields[a]).name@ != (#[trigger] fields[b]).name@
}

/// Column `i` passes validation: the model has a field of its name with the
/// matching declared type.
pub open spec fn col_ok(columns: Seq<SchemaField>, fields: Seq<ModelField>, i: int) -> bool {
    match spec_find_field(fields, columns[i].name@) {
        Option::Some(f) => f.type_ == columns[i].type_,
        Option::None => false,
    }
}

proof fn lemma_find_from_exact(fields: Seq<ModelField>, i: int, k: int)
    requires
        distinct_names(fields),
        0 <= k <= i < fields.len(),
    ensures
        crate::ast::find_field_from(fields, fields[i].name@, k) == Some(fields[i]),
    decreases i - k,
{
    if k < i {
        lemma_find_from_exact(fields, i, k + 1);
    }
}

proof fn lemma_first_col_err_none(columns: Seq<SchemaField>, fields: Seq<ModelField>, i: int)
    requires
        model_matches_columns(columns, fields),
        distinct_names(fields),
        0 <= i <= columns.len(),
    ensures
        first_col_err(columns, fields, i) is None,
    decreases columns.len() - i,
{
    if i < columns.len() {
        lemma_find_from_exact(fields, i, 0);
        lemma_first_col_err_none(columns, fields, i + 1);
    }
}

proof fn lemma_first_col_err_skip(columns: Seq<SchemaField>, fields: Seq<ModelField>, i: int, k: int)
    requires
        0 <= i <= k <= columns.len(),
        forall|j: int| i <= j < k ==> col_ok(columns, fields, j),
    ensures
        first_col_err(columns, fields, i) == first_col_err(columns, fields, k),
    decreases k - i,
{
    if i < k {
        assert(col_ok(columns, fields, i));
        lemma_first_col_err_skip(columns, fields, i + 1, k);
    }
}

/// Round trip: a model whose field names and types match a table's columns
/// one for one (the names distinct) is accepted by `add_row`, and the state
/// that `add_row`'s contract then describes answers `query_by_id` with the
/// returned id, yielding a row holding the model's values unchanged, in
/// column order.
pub proof fn lemma_round_trip(t1: Table, t2: Table, m: Model, id: usize)
    requires
        t1.wf(),
        m.wf(),
        model_matches_columns(t1.columns@, m.fields@),
        distinct_names(m.fields@),
        id == t1.next_id,
        t2.next_id as int == t1.next_id as int + 1,
        t2.columns@ == t1.columns@,
        t2.rows@.len() == t1.rows@.len() + 1,
        forall|i: int| 0 <= i < t1.rows@.len() ==> t2.rows@[i] == t1.rows@[i],
        t2.rows@.last()@ == (RowV {
            id: id as int,
            entries: spec_row_entries(t1.columns@, m.fields@),
        }),
    ensures
        spec_add_err(t1.columns@, m.fields@) is None,
        1 <= id && (id as int) < t2.next_id as int,
        t2.rows@[id as int - 1]@.entries =~= m.fields@.map_values(|f: ModelField| f.value@),
{
    lemma_first_col_err_none(t1.columns@, m.fields@, 0);
    assert(t2.rows@[id as int - 1] == t2.rows@.last());
    assert forall|i: int| 0 <= i < t1.columns@.len() implies spec_row_entries(
        t1.columns@,
        m.fields@,
    )[i] == m.fields@[i].value@ by {
        lemma_find_from_exact(m.fields@, i, 0);
    };
}

/// Condition support: a String column admits only equality tests, so by
/// `query_where`'s contract any ordering condition on it always fails with
/// the unsupported-condition error, whatever the table holds.
pub proof fn lemma_string_ordering_unsupported(cond: Condition)
    requires
        !(cond is IsEqual),
        !(cond is NotEqual),
    ensures
        !spec_supports(DataType::String, cond),
{
}

/// Missing field: when the field count matches, every column whose name the
/// model does carry type-checks, and some column's name is absent, `add_row`
/// reports the missing-field error for the first absent column — and by its
/// contract the table is left unchanged.
pub proof fn lemma_missing_field(columns: Seq<SchemaField>, fields: Seq<ModelField>, k: int)
    requires
        fields.len() == columns.len(),
        0 <= k < columns.len(),
        spec_find_field(fields, columns[k].name@) is None,
        forall|j: int| 0 <= j < k ==> col_ok(columns, fields, j),
    ensures
        spec_add_err(columns, fields) == Some((ErrorV::MissingField { name: columns[k].name@ })),
{
    lemma_first_col_err_skip(columns, fields, 0, k);
}

/// Whether a stored value satisfies a condition.
fn apply_condition(lhs: &Object, cond: &Condition) -> (b: bool)
    ensures
        b == spec_apply_condition(*lhs, *cond),
{
    match cond {
        Condition::IsEqual(rhs) => obj_eq_exec(lhs, rhs),
        Condition::NotEqual(rhs) => !obj_eq_exec(lhs, rhs),
        Condition::LessThan(rhs) => match (lhs, rhs) {
            (Object::Number(x), Object::Number(y)) => x.cmp_to(y) < 0,
            _ => false,
        },
        Condition::GratherThan(rhs) => match (lhs, rhs) {
            (Object::Number(x), Object::Number(y)) => x.cmp_to(y) > 0,
            _ => false,
        },
        Condition::LessOrEqual(rhs) => match (lhs, rhs) {
            (Object::Number(x), Object::Number(y)) => x.cmp_to(y) <= 0,
            _ => false,
        },
        Condition::GratherOrEqual(rhs) => match (lhs, rhs) {
            (Object::Number(x), Object::Number(y)) => x.cmp_to(y) >= 0,
            _ => false,
        },
    }
}

fn obj_eq_exec(a: &Object, b: &Object) -> (r: bool)
    ensures
        r == obj_eq(*a, *b),
{
    match (a, b) {
        (Object::String(x), Object::String(y)) => str_eq(x.as_str(), y.as_str()),
        (Object::Number(x), Object::Number(y)) => x.cmp_to(y) == 0,
        _ => false,
    }
}

/// Which conditions a column's declared type supports.
fn datatype_support_condition(type_: &DataType, cond: &Condition) -> (b: bool)
    ensures
        b == spec_supports(*type_, *cond),
{
    match type_ {
        DataType::String => match cond {
            Condition::IsEqual(_) => true,
            Condition::NotEqual(_) => true,
            _ => false,
        },
        DataType::Number => match cond {
            Condition::IsEqual(_) => true,
            Condition::NotEqual(_) => true,
            Condition::LessThan(_) => true,
            Condition::GratherThan(_) => true,
            Condition::LessOrEqual(_) => true,
            Condition::GratherOrEqual(_) => true,
        },
    }
}

} // verus!
