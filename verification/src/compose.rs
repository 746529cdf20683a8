//! The reader composer: given a record schema descriptor and a column-path
//! context, recursively builds sub-readers per field and assembles the
//! composite record reader.
//!
//! For each field, in declaration order, the field's external name is pushed
//! onto the path, the field's sub-reader is composed, and the path is popped
//! again. Every field inherits the *same* definition and repetition levels
//! from its enclosing group boundary: in nested-column encodings the levels
//! at a group boundary are identical for every field inside the group, and a
//! field only diverges from its siblings below its own wrappers. Composition
//! never consults physical storage; it only pulls cursors from the shared
//! column reader registry, keyed by fully qualified column path.

use vstd::prelude::*;
use crate::column::{lookup_spec, path_model, ColumnData, ColumnReaderRegistry, RegisteredColumn};
use crate::descriptor::{
    descriptor_view, entries_view, lemma_entries_view, DescriptorModel, RecordSchemaDescriptor,
    SchemaDescriptor,
};
use crate::reader::{CompositeRecordReader, LeafReader, ReaderField, RecordReader};

verus! {

/// Whether two column cursors hold the same rows.
pub open spec fn same_column(a: ColumnData, b: ColumnData) -> bool {
    a.values@ == b.values@ && a.def_levels@ == b.def_levels@ && a.rep_levels@ == b.rep_levels@
}

/// The registry supplies a consistent, correctly typed cursor for every
/// column the descriptor reaches under the given path prefix.
pub open spec fn covers(
    dm: DescriptorModel,
    path: Seq<Seq<char>>,
    cols: Seq<RegisteredColumn>,
) -> bool
    decreases dm,
{
    match dm {
        DescriptorModel::Leaf(t) => lookup_spec(cols, path) matches Some(c) && c.wf() && c.typed(
            t,
        ),
        DescriptorModel::Group(entries) => forall|i: int|
            0 <= i < entries.len() ==> covers(
                (#[trigger] entries[i]).descriptor,
                path.push(entries[i].external),
                cols,
            ),
    }
}

/// The relation composition establishes between a descriptor and the reader
/// built for it: leaf readers sit at row zero on the registry's cursor for
/// their full column path and carry the inherited levels unchanged; group
/// readers hold one sub-reader per entry, in order, under the declared
/// field names, each composed one path segment deeper with the same levels.
pub open spec fn composed_value(
    dm: DescriptorModel,
    path: Seq<Seq<char>>,
    def: i16,
    rep: i16,
    cols: Seq<RegisteredColumn>,
    batch: nat,
    r: RecordReader,
) -> bool
    decreases dm,
{
    match dm {
        DescriptorModel::Leaf(t) => r matches RecordReader::Leaf(l) && l.leaf_type == t && l.pos
            == 0 && l.def_level == def && l.rep_level == rep && l.batch_size == batch && (
        lookup_spec(cols, path) matches Some(c) && same_column(l.column, c)),
        DescriptorModel::Group(entries) => r matches RecordReader::Group(g) && g.fields@.len()
            == entries.len() && forall|i: int|
            0 <= i < entries.len() ==> (#[trigger] g.fields@[i]).name@ == entries[i].name
                && composed_value(
                entries[i].descriptor,
                path.push(entries[i].external),
                def,
                rep,
                cols,
                batch,
                g.fields@[i].reader,
            ),
    }
}

/// Composes the sub-reader for one bound value type: a leaf pulls its
/// cursor from the registry under the current path; a nested record
/// composes a whole composite reader one level deeper.
pub fn compose_value(
    d: &SchemaDescriptor,
    path: &mut Vec<String>,
    curr_def_level: i16,
    curr_rep_level: i16,
    column_readers: &ColumnReaderRegistry,
    batch_size: usize,
) -> (r: RecordReader)
    requires
        covers(descriptor_view(*d), path_model(old(path)@), column_readers.columns@),
    ensures
        final(path)@ == old(path)@,
        composed_value(
            descriptor_view(*d),
            path_model(old(path)@),
            curr_def_level,
            curr_rep_level,
            column_readers.columns@,
            batch_size as nat,
            r,
        ),
    decreases *d,
{
    match d {
        SchemaDescriptor::Leaf(t) => {
            let c = column_readers.lookup(path).unwrap();
            RecordReader::Leaf(
                LeafReader {
                    leaf_type: *t,
                    column: c.duplicate(),
                    pos: 0,
                    def_level: curr_def_level,
                    rep_level: curr_rep_level,
                    batch_size,
                },
            )
        },
        SchemaDescriptor::Group(g) => RecordReader::Group(
            compose(g, path, curr_def_level, curr_rep_level, column_readers, batch_size),
        ),
    }
}

/// Composes the composite record reader for a bound record schema
/// descriptor: one sub-reader per field, in declaration order, each
/// composed under the path extended by the field's external name and with
/// the same inherited definition and repetition levels. The column-path
/// context is left exactly as it was found: every push is matched by a pop,
/// across nested record fields too.
pub fn compose(
    descriptor: &RecordSchemaDescriptor,
    path: &mut Vec<String>,
    curr_def_level: i16,
    curr_rep_level: i16,
    column_readers: &ColumnReaderRegistry,
    batch_size: usize,
) -> (r: CompositeRecordReader)
    requires
        covers(
            DescriptorModel::Group(entries_view(descriptor.entries@)),
            path_model(old(path)@),
            column_readers.columns@,
        ),
    ensures
        final(path)@ == old(path)@,
        composed_value(
            DescriptorModel::Group(entries_view(descriptor.entries@)),
            path_model(old(path)@),
            curr_def_level,
            curr_rep_level,
            column_readers.columns@,
            batch_size as nat,
            r.as_reader(),
        ),
    decreases *descriptor,
{
    let ghost entries_m = entries_view(descriptor.entries@);
    let ghost path0 = path_model(old(path)@);
    let n = descriptor.entries.len();
    let mut fields: Vec<ReaderField> = Vec::new();
    let mut i: usize = 0;
    proof {
        lemma_entries_view(descriptor.entries@);
    }
    while i < n
        invariant
            n == descriptor.entries@.len(),
            i <= n,
            path@ == old(path)@,
            path0 == path_model(old(path)@),
            entries_m == entries_view(descriptor.entries@),
            entries_m.len() == n,
            forall|j: int| 0 <= j < n ==> entries_m[j] == entries_view(descriptor.entries@)[j],
            covers(DescriptorModel::Group(entries_m), path0, column_readers.columns@),
            fields@.len() == i,
            forall|j: int|
                0 <= j < i ==> (#[trigger] fields@[j]).name@ == entries_m[j].name
                    && composed_value(
                    entries_m[j].descriptor,
                    path0.push(entries_m[j].external),
                    curr_def_level,
                    curr_rep_level,
                    column_readers.columns@,
                    batch_size as nat,
                    fields@[j].reader,
                ),
        decreases n - i,
    {
        let e = &descriptor.entries[i];
        proof {
            lemma_entries_view(descriptor.entries@);
            assert(entries_m[i as int].external == descriptor.entries@[i as int].external_name@);
            assert(entries_m[i as int].name == descriptor.entries@[i as int].name@);
            assert(entries_m[i as int].descriptor == descriptor_view(
                descriptor.entries@[i as int].descriptor,
            ));
        }
        let ghost before_push = path@;
        path.push(e.external_name.clone());
        proof {
            assert(path_model(path@) =~= path0.push(e.external_name@));
        }
        let sub = compose_value(
            &e.descriptor,
            path,
            curr_def_level,
            curr_rep_level,
            column_readers,
            batch_size,
        );
        let popped = path.pop();
        proof {
            assert(path@ =~= before_push);
        }
        fields.push(ReaderField { name: e.name.clone(), reader: sub });
        i = i + 1;
    }
    CompositeRecordReader { fields }
}

} // verus!
