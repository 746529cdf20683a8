//! The composite record reader: owns one sub-reader per declared field and
//! assembles full records by delegating to them in declaration order.

use vstd::prelude::*;
use crate::column::{scalar_has_type, ColumnData, ScalarValue};
use crate::errors::ReadError;
use crate::schema::LeafType;

verus! {

/// A fully assembled value: a scalar read from one leaf column, or a record
/// holding one named value per field, in declaration order.
pub enum Value {
    Bool(bool),
    Int32(i32),
    Int64(i64),
    Utf8(String),
    Record(Vec<FieldValue>),
}

/// One named field of an assembled record.
pub struct FieldValue {
    pub name: String,
    pub value: Value,
}

/// The spec-level shape of a [`Value`].
pub enum ValueModel {
    Bool(bool),
    Int32(i32),
    Int64(i64),
    Utf8(Seq<char>),
    Record(Seq<FieldValueModel>),
}

/// The spec-level shape of a [`FieldValue`].
pub struct FieldValueModel {
    pub name: Seq<char>,
    pub value: ValueModel,
}

/// The model of an assembled value.
pub open spec fn value_view(v: Value) -> ValueModel
    decreases v,
{
    match v {
        Value::Bool(b) => ValueModel::Bool(b),
        Value::Int32(x) => ValueModel::Int32(x),
        Value::Int64(x) => ValueModel::Int64(x),
        Value::Utf8(s) => ValueModel::Utf8(s@),
        Value::Record(fs) => ValueModel::Record(field_values_view(fs@)),
    }
}

/// The models of a sequence of record fields, in order.
pub open spec fn field_values_view(fs: Seq<FieldValue>) -> Seq<FieldValueModel>
    decreases fs,
{
    if fs.len() == 0 {
        Seq::empty()
    } else {
        seq![FieldValueModel { name: fs[0].name@, value: value_view(fs[0].value) }]
            + field_values_view(fs.drop_first())
    }
}

/// The field models line up with the fields, one to one and in order.
pub proof fn lemma_field_values_view(fs: Seq<FieldValue>)
    ensures
        field_values_view(fs).len() == fs.len(),
        forall|i: int| 0 <= i < fs.len() ==> field_values_view(fs)[i] == (FieldValueModel {
            name: fs[i].name@,
            value: value_view(fs[i].value),
        }),
    decreases fs.len(),
{
    if fs.len() > 0 {
        lemma_field_values_view(fs.drop_first());
        assert forall|i: int| 0 <= i < fs.len() implies field_values_view(fs)[i]
            == (FieldValueModel { name: fs[i].name@, value: value_view(fs[i].value) }) by {
            if i > 0 {
                assert(field_values_view(fs)[i] == field_values_view(fs.drop_first())[i - 1]);
                assert(fs.drop_first()[i - 1] == fs[i]);
            }
        }
    }
}

/// The model of one stored scalar.
pub open spec fn scalar_model(v: ScalarValue) -> ValueModel {
    match v {
        ScalarValue::Bool(b) => ValueModel::Bool(b),
        ScalarValue::Int32(x) => ValueModel::Int32(x),
        ScalarValue::Int64(x) => ValueModel::Int64(x),
        ScalarValue::Utf8(s) => ValueModel::Utf8(s@),
    }
}

/// Turns a stored scalar into an assembled value.
pub fn scalar_to_value(v: &ScalarValue) -> (r: Value)
    ensures
        value_view(r) == scalar_model(*v),
{
    match v {
        ScalarValue::Bool(b) => Value::Bool(*b),
        ScalarValue::Int32(x) => Value::Int32(*x),
        ScalarValue::Int64(x) => Value::Int64(*x),
        ScalarValue::Utf8(s) => Value::Utf8(s.clone()),
    }
}

/// The reader of one leaf column: a cursor over the column's rows, carrying
/// the structural levels inherited from the enclosing group boundary and
/// the batch granularity hint it was composed with.
pub struct LeafReader {
    pub leaf_type: LeafType,
    pub column: ColumnData,
    pub pos: usize,
    pub def_level: i16,
    pub rep_level: i16,
    pub batch_size: usize,
}

/// One field's sub-reader, under the field's declared name.
pub struct ReaderField {
    pub name: String,
    pub reader: RecordReader,
}

/// A sub-reader: a leaf column cursor, or a whole composite reader for a
/// nested record field.
pub enum RecordReader {
    Leaf(LeafReader),
    Group(CompositeRecordReader),
}

/// The composite record reader: one sub-reader per declared field, in
/// declaration order.
pub struct CompositeRecordReader {
    pub fields: Vec<ReaderField>,
}

/// Well-formedness: every column cursor is internally consistent and typed,
/// no cursor stands past its end, and all sibling sub-readers agree on how
/// many records remain — the invariant binding establishes and the
/// first-field delegation of the query operations silently trusts.
pub open spec fn reader_wf(r: RecordReader) -> bool
    decreases r,
{
    match r {
        RecordReader::Leaf(l) => l.column.wf() && l.column.typed(l.leaf_type) && l.pos
            <= l.column.num_rows(),
        RecordReader::Group(g) => (forall|i: int|
            0 <= i < g.fields@.len() ==> reader_wf(#[trigger] g.fields@[i].reader)) && (forall|
            i: int,
        |
            0 <= i < g.fields@.len() ==> remaining(#[trigger] g.fields@[i].reader) == remaining(
                g.fields@[0].reader,
            )),
    }
}

/// How many records are left to read: the leaf count for a column cursor,
/// the first field's count for a record, and no bound at all for a record
/// with no fields anywhere below it.
pub open spec fn remaining(r: RecordReader) -> Option<nat>
    decreases r,
{
    match r {
        RecordReader::Leaf(l) => if l.pos <= l.column.num_rows() {
            Some((l.column.num_rows() - l.pos) as nat)
        } else {
            Some(0nat)
        },
        RecordReader::Group(g) => if g.fields@.len() == 0 {
            None
        } else {
            remaining(g.fields@[0].reader)
        },
    }
}

/// What `has_next` reports: a record with no fields always reports true;
/// otherwise exactly the first declared field is consulted.
pub open spec fn spec_has_next(r: RecordReader) -> bool
    decreases r,
{
    match r {
        RecordReader::Leaf(l) => l.pos < l.column.num_rows(),
        RecordReader::Group(g) => if g.fields@.len() == 0 {
            true
        } else {
            spec_has_next(g.fields@[0].reader)
        },
    }
}

/// What the definition level query reports: the level the column recorded
/// for the next row; a record with no fields has no structural position.
pub open spec fn spec_def_level(r: RecordReader) -> Result<i16, ReadError>
    decreases r,
{
    match r {
        RecordReader::Leaf(l) => if l.pos < l.column.num_rows() {
            Ok(l.column.def_levels@[l.pos as int])
        } else {
            Err(ReadError::EndOfColumn)
        },
        RecordReader::Group(g) => if g.fields@.len() == 0 {
            Err(ReadError::EmptyGroupLevelQuery)
        } else {
            spec_def_level(g.fields@[0].reader)
        },
    }
}

/// What the repetition level query reports.
pub open spec fn spec_rep_level(r: RecordReader) -> Result<i16, ReadError>
    decreases r,
{
    match r {
        RecordReader::Leaf(l) => if l.pos < l.column.num_rows() {
            Ok(l.column.rep_levels@[l.pos as int])
        } else {
            Err(ReadError::EndOfColumn)
        },
        RecordReader::Group(g) => if g.fields@.len() == 0 {
            Err(ReadError::EmptyGroupLevelQuery)
        } else {
            spec_rep_level(g.fields@[0].reader)
        },
    }
}

/// What reading would yield after `k` further advances: the record `k` rows
/// past the cursor, assembled in declaration order, or the error of the
/// first field whose column has too few rows.
pub open spec fn read_at(r: RecordReader, k: nat) -> Result<ValueModel, ReadError>
    decreases r,
{
    match r {
        RecordReader::Leaf(l) => if l.pos + k < l.column.num_rows() {
            Ok(scalar_model(l.column.values@[l.pos + k]))
        } else {
            Err(ReadError::EndOfColumn)
        },
        RecordReader::Group(g) => match read_fields_at(g.fields@, k) {
            Ok(fvs) => Ok(ValueModel::Record(fvs)),
            Err(e) => Err(e),
        },
    }
}

/// Reads every field in order at offset `k`; the first failure aborts.
pub open spec fn read_fields_at(fs: Seq<ReaderField>, k: nat) -> Result<
    Seq<FieldValueModel>,
    ReadError,
>
    decreases fs,
{
    if fs.len() == 0 {
        Ok(Seq::empty())
    } else {
        match read_at(fs[0].reader, k) {
            Err(e) => Err(e),
            Ok(v) => match read_fields_at(fs.drop_first(), k) {
                Err(e) => Err(e),
                Ok(rest) => Ok(seq![FieldValueModel { name: fs[0].name@, value: v }] + rest),
            },
        }
    }
}

/// Prefixes already-read fields onto the outcome of reading the rest.
pub open spec fn prepend_field_values(
    pre: Seq<FieldValueModel>,
    r: Result<Seq<FieldValueModel>, ReadError>,
) -> Result<Seq<FieldValueModel>, ReadError> {
    match r {
        Ok(rest) => Ok(pre + rest),
        Err(e) => Err(e),
    }
}

/// Whether every column cursor below the reader has a row left to advance
/// past. Advancing succeeds exactly on these readers.
pub open spec fn can_advance(r: RecordReader) -> bool
    decreases r,
{
    match r {
        RecordReader::Leaf(l) => l.pos < l.column.num_rows(),
        RecordReader::Group(g) => forall|i: int|
            0 <= i < g.fields@.len() ==> can_advance(#[trigger] g.fields@[i].reader),
    }
}

/// How a reader relates to itself after one advance: every column cursor
/// has moved one row forward and everything else is unchanged.
pub open spec fn advanced(a: RecordReader, b: RecordReader) -> bool
    decreases a,
{
    match (a, b) {
        (RecordReader::Leaf(x), RecordReader::Leaf(y)) => y.leaf_type == x.leaf_type && y.column
            == x.column && y.pos == x.pos + 1 && y.def_level == x.def_level && y.rep_level
            == x.rep_level && y.batch_size == x.batch_size,
        (RecordReader::Group(x), RecordReader::Group(y)) => y.fields@.len() == x.fields@.len()
            && forall|i: int|
            0 <= i < x.fields@.len() ==> (#[trigger] y.fields@[i]).name == x.fields@[i].name
                && advanced(x.fields@[i].reader, y.fields@[i].reader),
        _ => false,
    }
}

impl RecordReader {
    /// The sub-reader's answer to `has_next`.
    pub fn has_next(&self) -> (r: bool)
        ensures
            r == spec_has_next(*self),
        decreases *self,
    {
        match self {
            RecordReader::Leaf(l) => l.pos < l.column.values.len(),
            RecordReader::Group(g) => g.has_next(),
        }
    }

    /// The definition level of the next row of this sub-reader's column.
    pub fn current_def_level(&self) -> (r: Result<i16, ReadError>)
        requires
            reader_wf(*self),
        ensures
            r == spec_def_level(*self),
        decreases *self,
    {
        match self {
            RecordReader::Leaf(l) => {
                if l.pos < l.column.values.len() {
                    Ok(l.column.def_levels[l.pos])
                } else {
                    Err(ReadError::EndOfColumn)
                }
            },
            RecordReader::Group(g) => g.current_def_level(),
        }
    }

    /// The repetition level of the next row of this sub-reader's column.
    pub fn current_rep_level(&self) -> (r: Result<i16, ReadError>)
        requires
            reader_wf(*self),
        ensures
            r == spec_rep_level(*self),
        decreases *self,
    {
        match self {
            RecordReader::Leaf(l) => {
                if l.pos < l.column.values.len() {
                    Ok(l.column.rep_levels[l.pos])
                } else {
                    Err(ReadError::EndOfColumn)
                }
            },
            RecordReader::Group(g) => g.current_rep_level(),
        }
    }

    /// Reads this sub-reader's value for the current row.
    pub fn read(&self) -> (r: Result<Value, ReadError>)
        ensures
            match r {
                Ok(v) => read_at(*self, 0) == Ok::<ValueModel, ReadError>(value_view(v)),
                Err(e) => read_at(*self, 0) == Err::<ValueModel, ReadError>(e),
            },
        decreases *self,
    {
        match self {
            RecordReader::Leaf(l) => {
                if l.pos < l.column.values.len() {
                    Ok(scalar_to_value(&l.column.values[l.pos]))
                } else {
                    Err(ReadError::EndOfColumn)
                }
            },
            RecordReader::Group(g) => g.read(),
        }
    }

    /// Whether every column cursor below this sub-reader has a row left.
    pub fn can_advance_now(&self) -> (r: bool)
        ensures
            r == can_advance(*self),
        decreases *self,
    {
        match self {
            RecordReader::Leaf(l) => l.pos < l.column.values.len(),
            RecordReader::Group(g) => g.can_advance_now(),
        }
    }

    /// Moves every column cursor below this sub-reader one row forward.
    fn advance_all(&mut self)
        requires
            can_advance(*old(self)),
        ensures
            advanced(*old(self), *final(self)),
        decreases *old(self),
    {
        match self {
            RecordReader::Leaf(l) => {
                let rows = l.column.values.len();
                proof {
                    assert(l.pos < rows);
                }
                l.pos = l.pos + 1;
            },
            RecordReader::Group(g) => {
                g.advance_all();
            },
        }
    }
}

impl CompositeRecordReader {
    /// This composite reader, seen as one sub-reader.
    pub open spec fn as_reader(self) -> RecordReader {
        RecordReader::Group(self)
    }

    /// Whether another record is available. A record with no fields always
    /// reports true; otherwise exactly the first declared field's
    /// sub-reader is consulted and the remaining fields are not looked at:
    /// siblings share their structural position at the group boundary.
    pub fn has_next(&self) -> (r: bool)
        ensures
            r == spec_has_next(self.as_reader()),
        decreases *self,
    {
        if self.fields.len() == 0 {
            true
        } else {
            self.fields[0].reader.has_next()
        }
    }

    /// The definition level of the next record, as the enclosing group
    /// composing this record as one of its own fields needs it. Delegates
    /// to the first declared field alone; a record with no fields has no
    /// structural position and reports a fatal error.
    pub fn current_def_level(&self) -> (r: Result<i16, ReadError>)
        requires
            reader_wf(self.as_reader()),
        ensures
            r == spec_def_level(self.as_reader()),
        decreases *self,
    {
        if self.fields.len() == 0 {
            Err(ReadError::EmptyGroupLevelQuery)
        } else {
            self.fields[0].reader.current_def_level()
        }
    }

    /// The repetition level of the next record; first-field delegation as
    /// for the definition level.
    pub fn current_rep_level(&self) -> (r: Result<i16, ReadError>)
        requires
            reader_wf(self.as_reader()),
        ensures
            r == spec_rep_level(self.as_reader()),
        decreases *self,
    {
        if self.fields.len() == 0 {
            Err(ReadError::EmptyGroupLevelQuery)
        } else {
            self.fields[0].reader.current_rep_level()
        }
    }

    /// Reads one record: one value from every field sub-reader, in
    /// declaration order. The first failing field aborts the whole read;
    /// no partial record is produced. A record with no fields reads as the
    /// empty record.
    pub fn read(&self) -> (r: Result<Value, ReadError>)
        ensures
            match r {
                Ok(v) => read_at(self.as_reader(), 0) == Ok::<ValueModel, ReadError>(
                    value_view(v),
                ),
                Err(e) => read_at(self.as_reader(), 0) == Err::<ValueModel, ReadError>(e),
            },
        decreases *self,
    {
        let n = self.fields.len();
        let mut out: Vec<FieldValue> = Vec::new();
        let mut i: usize = 0;
        proof {
            assert(self.fields@.skip(0) =~= self.fields@);
            assert(field_values_view(out@) =~= Seq::<FieldValueModel>::empty());
            assert(Seq::<FieldValueModel>::empty() + read_fields_at(self.fields@, 0)->Ok_0
                =~= read_fields_at(self.fields@, 0)->Ok_0);
        }
        while i < n
            invariant
                n == self.fields@.len(),
                i <= n,
                read_fields_at(self.fields@, 0) == prepend_field_values(
                    field_values_view(out@),
                    read_fields_at(self.fields@.skip(i as int), 0),
                ),
            decreases n - i,
        {
            let ghost suffix = self.fields@.skip(i as int);
            let ghost pre = field_values_view(out@);
            proof {
                assert(suffix[0] == self.fields@[i as int]);
                assert(suffix.drop_first() =~= self.fields@.skip(i + 1));
            }
            match self.fields[i].reader.read() {
                Err(e) => {
                    return Err(e);
                },
                Ok(v) => {
                    let ghost m = FieldValueModel { name: self.fields@[i as int].name@, value: value_view(v) };
                    let ghost before = out@;
                    out.push(FieldValue { name: self.fields[i].name.clone(), value: v });
                    proof {
                        lemma_field_values_view(before);
                        lemma_field_values_view(out@);
                        assert(field_values_view(out@) =~= pre.push(m));
                        assert(pre + (seq![m] + read_fields_at(self.fields@.skip(i + 1), 0)->Ok_0)
                            =~= pre.push(m) + read_fields_at(self.fields@.skip(i + 1), 0)->Ok_0);
                    }
                },
            }
            i = i + 1;
        }
        proof {
            assert(self.fields@.skip(n as int) =~= Seq::<ReaderField>::empty());
            assert(field_values_view(out@) + Seq::<FieldValueModel>::empty() =~= field_values_view(
                out@,
            ));
        }
        Ok(Value::Record(out))
    }

    /// Whether every column cursor below this reader has a row left.
    pub fn can_advance_now(&self) -> (r: bool)
        ensures
            r == can_advance(self.as_reader()),
        decreases *self,
    {
        let n = self.fields.len();
        let mut i: usize = 0;
        while i < n
            invariant
                n == self.fields@.len(),
                i <= n,
                forall|j: int| 0 <= j < i ==> can_advance(#[trigger] self.fields@[j].reader),
            decreases n - i,
        {
            if !self.fields[i].reader.can_advance_now() {
                return false;
            }
            i = i + 1;
        }
        true
    }

    /// Moves every column cursor one row forward; only called when every
    /// cursor has a row left, so no field is left half advanced.
    fn advance_all(&mut self)
        requires
            can_advance(old(self).as_reader()),
        ensures
            advanced(old(self).as_reader(), final(self).as_reader()),
        decreases *old(self),
    {
        let n = self.fields.len();
        let mut i: usize = 0;
        while i < n
            invariant
                n == self.fields@.len(),
                self.fields@.len() == old(self).fields@.len(),
                i <= n,
                can_advance(old(self).as_reader()),
                forall|j: int| i <= j < n ==> self.fields@[j] == old(self).fields@[j],
                forall|j: int|
                    0 <= j < i ==> (#[trigger] self.fields@[j]).name == old(self).fields@[j].name
                        && advanced(old(self).fields@[j].reader, self.fields@[j].reader),
            decreases n - i,
        {
            self.fields[i].reader.advance_all();
            i = i + 1;
        }
    }

    /// Advances every field sub-reader's underlying column cursor, in
    /// declaration order; invoked once after each read (or equivalently,
    /// before the next) to move to the next physical row. Fails, changing
    /// nothing, when a column is already exhausted; a record with no fields
    /// always advances trivially.
    pub fn advance_columns(&mut self) -> (r: Result<(), ReadError>)
        ensures
            match r {
                Ok(()) => can_advance(old(self).as_reader()) && advanced(
                    old(self).as_reader(),
                    final(self).as_reader(),
                ),
                Err(e) => !can_advance(old(self).as_reader()) && *final(self) == *old(self) && e
                    == ReadError::EndOfColumn,
            },
    {
        if !self.can_advance_now() {
            return Err(ReadError::EndOfColumn);
        }
        self.advance_all();
        Ok(())
    }

    /// Drives whole read-then-advance passes until `has_next` reports
    /// false: on a well-formed reader over columns holding `k` rows this
    /// yields exactly the `k` assembled records, in row order, each with
    /// its fields in declaration order, and leaves the reader exhausted.
    pub fn read_all(&mut self) -> (r: Result<Vec<Value>, ReadError>)
        requires
            reader_wf(old(self).as_reader()),
            remaining(old(self).as_reader()) is Some,
        ensures
            r is Ok,
            r->Ok_0@.len() == remaining(old(self).as_reader())->Some_0,
            forall|k: int|
                0 <= k < r->Ok_0@.len() ==> read_at(old(self).as_reader(), k as nat) == Ok::<
                    ValueModel,
                    ReadError,
                >(value_view(#[trigger] r->Ok_0@[k])),
            reader_wf(final(self).as_reader()),
            remaining(final(self).as_reader()) == Some(0nat),
            !spec_has_next(final(self).as_reader()),
    {
        let mut out: Vec<Value> = Vec::new();
        let ghost k0 = remaining(old(self).as_reader())->Some_0;
        let mut more = self.has_next();
        while more
            invariant
                reader_wf(self.as_reader()),
                remaining(old(self).as_reader()) == Some(k0),
                remaining(self.as_reader()) == Some((k0 - out@.len()) as nat),
                out@.len() <= k0,
                more == spec_has_next(self.as_reader()),
                forall|k: int|
                    0 <= k < out@.len() ==> read_at(old(self).as_reader(), k as nat) == Ok::<
                        ValueModel,
                        ReadError,
                    >(value_view(#[trigger] out@[k])),
                forall|j: nat|
                    #[trigger] read_at(self.as_reader(), j) == read_at(
                        old(self).as_reader(),
                        (j + out@.len()) as nat,
                    ),
            decreases k0 - out@.len(),
        {
            proof {
                lemma_wf_reader(self.as_reader());
            }
            let rec = match self.read() {
                Ok(v) => v,
                Err(e) => {
                    // Never taken: with records remaining, reading succeeds.
                    proof {
                        assert(read_at(self.as_reader(), 0) is Ok);
                        assert(false);
                    }
                    return Err(e);
                },
            };
            out.push(rec);
            let ghost a = self.as_reader();
            match self.advance_columns() {
                Ok(()) => {},
                Err(e) => {
                    // Never taken: with records remaining, advancing succeeds.
                    proof {
                        assert(false);
                    }
                    return Err(e);
                },
            }
            proof {
                lemma_advance_step(a, self.as_reader());
            }
            more = self.has_next();
        }
        proof {
            lemma_wf_reader(self.as_reader());
            assert(out@.len() == k0);
        }
        Ok(out)
    }
}

/// Every field reads successfully at offset `k` when each field does.
proof fn lemma_read_fields_ok(fs: Seq<ReaderField>, k: nat)
    requires
        forall|i: int| 0 <= i < fs.len() ==> read_at(#[trigger] fs[i].reader, k) is Ok,
    ensures
        read_fields_at(fs, k) is Ok,
    decreases fs.len(),
{
    if fs.len() > 0 {
        assert forall|i: int| 0 <= i < fs.drop_first().len() implies read_at(
            #[trigger] fs.drop_first()[i].reader,
            k,
        ) is Ok by {
            assert(fs.drop_first()[i] == fs[i + 1]);
        }
        lemma_read_fields_ok(fs.drop_first(), k);
    }
}

/// On a well-formed reader the three cursor questions coincide: another
/// record is there, the reader can advance, and reading succeeds, exactly
/// when the remaining count is not zero (a reader with no fields anywhere
/// below it has no count and always answers yes).
pub proof fn lemma_wf_reader(r: RecordReader)
    requires
        reader_wf(r),
    ensures
        spec_has_next(r) <==> remaining(r) != Some(0nat),
        can_advance(r) <==> remaining(r) != Some(0nat),
        forall|k: nat|
            (remaining(r) is None || k < remaining(r)->Some_0) ==> (#[trigger] read_at(r, k)) is Ok,
    decreases r,
{
    match r {
        RecordReader::Leaf(l) => {
        },
        RecordReader::Group(g) => {
            if g.fields@.len() == 0 {
                assert forall|k: nat| (remaining(r) is None || k < remaining(r)->Some_0) implies (
                #[trigger] read_at(r, k)) is Ok by {
                    assert(read_fields_at(g.fields@, k) is Ok);
                }
            } else {
                assert forall|i: int| 0 <= i < g.fields@.len() implies ((spec_has_next(
                    #[trigger] g.fields@[i].reader,
                ) <==> remaining(g.fields@[i].reader) != Some(0nat)) && (can_advance(
                    g.fields@[i].reader,
                ) <==> remaining(g.fields@[i].reader) != Some(0nat)) && (forall|k: nat|
                    (remaining(g.fields@[i].reader) is None || k < remaining(
                        g.fields@[i].reader,
                    )->Some_0) ==> (#[trigger] read_at(g.fields@[i].reader, k)) is Ok)) by {
                    lemma_wf_reader(g.fields@[i].reader);
                }
                assert(remaining(r) == remaining(g.fields@[0].reader));
                assert(spec_has_next(r) == spec_has_next(g.fields@[0].reader));
                if remaining(r) != Some(0nat) {
                    assert forall|i: int| 0 <= i < g.fields@.len() implies can_advance(
                        #[trigger] g.fields@[i].reader,
                    ) by {
                        assert(remaining(g.fields@[i].reader) == remaining(g.fields@[0].reader));
                    }
                }
                assert forall|k: nat| (remaining(r) is None || k < remaining(r)->Some_0) implies (
                #[trigger] read_at(r, k)) is Ok by {
                    assert forall|i: int| 0 <= i < g.fields@.len() implies read_at(
                        #[trigger] g.fields@[i].reader,
                        k,
                    ) is Ok by {
                        assert(remaining(g.fields@[i].reader) == remaining(g.fields@[0].reader));
                    }
                    lemma_read_fields_ok(g.fields@, k);
                }
            }
        },
    }
}

/// Every field's reads shift by one row when each field's reads do.
proof fn lemma_read_fields_shift(xs: Seq<ReaderField>, ys: Seq<ReaderField>, k: nat)
    requires
        xs.len() == ys.len(),
        forall|i: int| 0 <= i < xs.len() ==> (#[trigger] ys[i]).name == xs[i].name,
        forall|i: int, j: nat|
            0 <= i < xs.len() ==> #[trigger] read_at(ys[i].reader, j) == read_at(
                xs[i].reader,
                (j + 1) as nat,
            ),
    ensures
        read_fields_at(ys, k) == read_fields_at(xs, (k + 1) as nat),
    decreases xs.len(),
{
    if xs.len() > 0 {
        assert(read_at(ys[0].reader, k) == read_at(xs[0].reader, (k + 1) as nat));
        assert forall|i: int, j: nat|
            0 <= i < xs.drop_first().len() implies #[trigger] read_at(
            ys.drop_first()[i].reader,
            j,
        ) == read_at(xs.drop_first()[i].reader, (j + 1) as nat) by {
            assert(ys.drop_first()[i] == ys[i + 1]);
            assert(xs.drop_first()[i] == xs[i + 1]);
            assert(read_at(ys[i + 1].reader, j) == read_at(xs[i + 1].reader, (j + 1) as nat));
        }
        assert forall|i: int| 0 <= i < xs.drop_first().len() implies (#[trigger] ys.drop_first()[i]).name
            == xs.drop_first()[i].name by {
            assert(ys.drop_first()[i] == ys[i + 1]);
            assert(xs.drop_first()[i] == xs[i + 1]);
        }
        lemma_read_fields_shift(xs.drop_first(), ys.drop_first(), k);
    }
}

/// One advance of a well-formed reader keeps it well formed, lowers the
/// remaining count by one, and shifts every later read by one row.
pub proof fn lemma_advance_step(a: RecordReader, b: RecordReader)
    requires
        reader_wf(a),
        can_advance(a),
        advanced(a, b),
    ensures
        reader_wf(b),
        remaining(b) == (match remaining(a) {
            Some(k) => Some((k - 1) as nat),
            None => None::<nat>,
        }),
        forall|k: nat| #[trigger] read_at(b, k) == read_at(a, (k + 1) as nat),
    decreases a,
{
    match a {
        RecordReader::Leaf(x) => {
            let y = b->Leaf_0;
            assert forall|k: nat| #[trigger] read_at(b, k) == read_at(a, (k + 1) as nat) by {
                assert(y.pos + k == x.pos + (k + 1));
            }
        },
        RecordReader::Group(x) => {
            let y = b->Group_0;
            assert forall|i: int| 0 <= i < x.fields@.len() implies (reader_wf(
                #[trigger] y.fields@[i].reader,
            ) && remaining(y.fields@[i].reader) == (match remaining(x.fields@[i].reader) {
                Some(k) => Some((k - 1) as nat),
                None => None::<nat>,
            }) && (forall|k: nat|
                #![trigger read_at(y.fields@[i].reader, k)]
                read_at(y.fields@[i].reader, k) == read_at(
                    x.fields@[i].reader,
                    (k + 1) as nat,
                ))) by {
                lemma_wf_reader(x.fields@[i].reader);
                lemma_advance_step(x.fields@[i].reader, y.fields@[i].reader);
            }
            if x.fields@.len() > 0 {
                assert forall|i: int| 0 <= i < y.fields@.len() implies remaining(
                    #[trigger] y.fields@[i].reader,
                ) == remaining(y.fields@[0].reader) by {
                    assert(remaining(x.fields@[i].reader) == remaining(x.fields@[0].reader));
                }
            }
            assert forall|k: nat| #[trigger] read_at(b, k) == read_at(a, (k + 1) as nat) by {
                lemma_read_fields_shift(x.fields@, y.fields@, k);
            }
        },
    }
}

} // verus!
