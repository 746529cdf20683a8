//! The structural guarantees the binder and the composer give together:
//! when binding succeeds and what it reports when it fails, and what a
//! composed reader yields over uniform column storage.

use vstd::prelude::*;
use crate::bind::{bind_fields_spec, bind_record_spec, bind_value_spec};
use crate::column::{lookup_spec, RegisteredColumn};
use crate::compose::{composed_value, covers};
use crate::declare::{FieldDescriptor, RecordType};
use crate::descriptor::{DescriptorModel, EntryModel};
use crate::errors::{BindFailure, ReadError};
use crate::reader::{
    read_at, read_fields_at, reader_wf, remaining, scalar_model, spec_def_level, spec_has_next,
    spec_rep_level, CompositeRecordReader, FieldValueModel, ReaderField, RecordReader, ValueModel,
};
use crate::schema::{find_child_spec, shape_ok, PhysicalNode};

verus! {

/// Binding every field in order succeeds when each field's external name
/// has a matching, shape-compatible physical child, and the resulting
/// entries carry the declared names in declaration order.
proof fn lemma_bind_fields_total(record: Seq<char>, fields: Seq<FieldDescriptor>, node: PhysicalNode)
    requires
        forall|i: int|
            0 <= i < fields.len() ==> {
                let c = find_child_spec(node.children(), (#[trigger] fields[i]).external_name@);
                c is Some && bind_value_spec(record, fields[i].value_type, c->Some_0) is Ok
            },
    ensures
        bind_fields_spec(record, fields, node) is Ok,
        bind_fields_spec(record, fields, node)->Ok_0.len() == fields.len(),
        forall|i: int|
            0 <= i < fields.len() ==> (#[trigger] bind_fields_spec(record, fields, node)->Ok_0[i]).name
                == fields[i].name@ && bind_fields_spec(record, fields, node)->Ok_0[i].external
                == fields[i].external_name@,
    decreases fields.len(),
{
    if fields.len() > 0 {
        assert forall|i: int|
            0 <= i < fields.drop_first().len() implies {
            let c = find_child_spec(
                node.children(),
                (#[trigger] fields.drop_first()[i]).external_name@,
            );
            c is Some && bind_value_spec(record, fields.drop_first()[i].value_type, c->Some_0) is Ok
        } by {
            assert(fields.drop_first()[i] == fields[i + 1]);
        }
        lemma_bind_fields_total(record, fields.drop_first(), node);
        assert forall|i: int|
            0 <= i < fields.len() implies (#[trigger] bind_fields_spec(
            record,
            fields,
            node,
        )->Ok_0[i]).name == fields[i].name@ && bind_fields_spec(record, fields, node)->Ok_0[i].external
            == fields[i].external_name@ by {
            if i > 0 {
                assert(bind_fields_spec(record, fields, node)->Ok_0[i] == bind_fields_spec(
                    record,
                    fields.drop_first(),
                    node,
                )->Ok_0[i - 1]);
                assert(fields.drop_first()[i - 1] == fields[i]);
            }
        }
    }
}

/// When a record type's fields each have a matching, shape-compatible
/// physical child under their external names — in particular whenever the
/// external names are exactly the group's child names and the declared
/// types fit — binding succeeds, and the descriptor holds exactly one entry
/// per declared field, keyed by the declared field name, in declaration
/// order: no extras, no omissions.
pub proof fn lemma_bind_succeeds(rt: RecordType, node: PhysicalNode)
    requires
        shape_ok(node),
        forall|i: int|
            0 <= i < rt.fields@.len() ==> {
                let c = find_child_spec(node.children(), (#[trigger] rt.fields@[i]).external_name@);
                c is Some && bind_value_spec(rt.name@, rt.fields@[i].value_type, c->Some_0) is Ok
            },
    ensures
        bind_record_spec(rt, node) is Ok,
        bind_record_spec(rt, node)->Ok_0.len() == rt.fields@.len(),
        forall|i: int|
            0 <= i < rt.fields@.len() ==> (#[trigger] bind_record_spec(rt, node)->Ok_0[i]).name
                == rt.fields@[i].name@ && bind_record_spec(rt, node)->Ok_0[i].external
                == rt.fields@[i].external_name@,
{
    lemma_bind_fields_total(rt.name@, rt.fields@, node);
}

/// When the first field in declaration order whose external name has no
/// matching physical child is field `i`, binding fails with `MissingField`
/// naming exactly that field, and produces no descriptor at all.
pub proof fn lemma_bind_missing_field(rt: RecordType, node: PhysicalNode, i: int)
    requires
        shape_ok(node),
        0 <= i < rt.fields@.len(),
        find_child_spec(node.children(), rt.fields@[i].external_name@) is None,
        forall|j: int|
            0 <= j < i ==> {
                let c = find_child_spec(node.children(), (#[trigger] rt.fields@[j]).external_name@);
                c is Some && bind_value_spec(rt.name@, rt.fields@[j].value_type, c->Some_0) is Ok
            },
    ensures
        bind_record_spec(rt, node) == Err::<Seq<EntryModel>, BindFailure>(
            BindFailure::MissingField {
                record: rt.name@,
                field: rt.fields@[i].name@,
                external: rt.fields@[i].external_name@,
            },
        ),
{
    lemma_bind_fields_missing(rt.name@, rt.fields@, node, i);
}

proof fn lemma_bind_fields_missing(
    record: Seq<char>,
    fields: Seq<FieldDescriptor>,
    node: PhysicalNode,
    i: int,
)
    requires
        0 <= i < fields.len(),
        find_child_spec(node.children(), fields[i].external_name@) is None,
        forall|j: int|
            0 <= j < i ==> {
                let c = find_child_spec(node.children(), (#[trigger] fields[j]).external_name@);
                c is Some && bind_value_spec(record, fields[j].value_type, c->Some_0) is Ok
            },
    ensures
        bind_fields_spec(record, fields, node) == Err::<Seq<EntryModel>, BindFailure>(
            BindFailure::MissingField {
                record,
                field: fields[i].name@,
                external: fields[i].external_name@,
            },
        ),
    decreases i,
{
    if i > 0 {
        assert(fields.drop_first()[i - 1] == fields[i]);
        assert forall|j: int|
            0 <= j < i - 1 implies {
            let c = find_child_spec(
                node.children(),
                (#[trigger] fields.drop_first()[j]).external_name@,
            );
            c is Some && bind_value_spec(record, fields.drop_first()[j].value_type, c->Some_0) is Ok
        } by {
            assert(fields.drop_first()[j] == fields[j + 1]);
        }
        lemma_bind_fields_missing(record, fields.drop_first(), node, i - 1);
    }
}

/// Binding any record type against a physical node that is a leaf, or is
/// optional or repeated, or is the tree's root sentinel, fails with
/// `ShapeMismatch` carrying the record type's name.
pub proof fn lemma_bind_shape_mismatch(rt: RecordType, node: PhysicalNode)
    requires
        !shape_ok(node),
    ensures
        bind_record_spec(rt, node) == Err::<Seq<EntryModel>, BindFailure>(
            BindFailure::ShapeMismatch { record: rt.name@ },
        ),
{
}

/// The three query operations of a composite reader with at least one
/// field depend on the first declared field's sub-reader alone: two
/// readers sharing their first field answer identically, whatever the
/// state of the remaining fields.
pub proof fn lemma_first_field_delegation(a: CompositeRecordReader, b: CompositeRecordReader)
    requires
        a.fields@.len() >= 1,
        b.fields@.len() >= 1,
        a.fields@[0].reader == b.fields@[0].reader,
    ensures
        spec_has_next(a.as_reader()) == spec_has_next(b.as_reader()),
        spec_def_level(a.as_reader()) == spec_def_level(b.as_reader()),
        spec_rep_level(a.as_reader()) == spec_rep_level(b.as_reader()),
{
}

/// Every column the descriptor reaches under the path prefix holds exactly
/// `k` rows.
pub open spec fn uniform_rows(
    dm: DescriptorModel,
    path: Seq<Seq<char>>,
    cols: Seq<RegisteredColumn>,
    k: nat,
) -> bool
    decreases dm,
{
    match dm {
        DescriptorModel::Leaf(_) => lookup_spec(cols, path)->Some_0.num_rows() == k,
        DescriptorModel::Group(entries) => forall|i: int|
            0 <= i < entries.len() ==> uniform_rows(
                (#[trigger] entries[i]).descriptor,
                path.push(entries[i].external),
                cols,
                k,
            ),
    }
}

/// Every nested record below the descriptor has at least one field, so
/// every sub-reader is backed by at least one physical column.
pub open spec fn grounded(dm: DescriptorModel) -> bool
    decreases dm,
{
    match dm {
        DescriptorModel::Leaf(_) => true,
        DescriptorModel::Group(entries) => entries.len() > 0 && forall|i: int|
            0 <= i < entries.len() ==> grounded((#[trigger] entries[i]).descriptor),
    }
}

/// The value row `i` of the storage assembles to under a descriptor: leaf
/// columns contribute their stored value for row `i`, records one named
/// field per entry, in declaration order.
pub open spec fn assembled_at(
    dm: DescriptorModel,
    path: Seq<Seq<char>>,
    cols: Seq<RegisteredColumn>,
    i: nat,
) -> ValueModel
    decreases dm,
{
    match dm {
        DescriptorModel::Leaf(_) => scalar_model(lookup_spec(cols, path)->Some_0.values@[i as int]),
        DescriptorModel::Group(entries) => ValueModel::Record(
            assembled_fields_at(entries, path, cols, i),
        ),
    }
}

/// The named field values row `i` assembles to, in declaration order.
pub open spec fn assembled_fields_at(
    entries: Seq<EntryModel>,
    path: Seq<Seq<char>>,
    cols: Seq<RegisteredColumn>,
    i: nat,
) -> Seq<FieldValueModel>
    decreases entries,
{
    if entries.len() == 0 {
        Seq::empty()
    } else {
        seq![
            FieldValueModel {
                name: entries[0].name,
                value: assembled_at(entries[0].descriptor, path.push(entries[0].external), cols, i),
            },
        ] + assembled_fields_at(entries.drop_first(), path, cols, i)
    }
}

/// Reading every field succeeds with the assembled values when each field
/// reads its own assembled value.
proof fn lemma_fields_assemble(
    fields: Seq<ReaderField>,
    entries: Seq<EntryModel>,
    path: Seq<Seq<char>>,
    cols: Seq<RegisteredColumn>,
    i: nat,
)
    requires
        fields.len() == entries.len(),
        forall|j: int|
            0 <= j < entries.len() ==> (#[trigger] fields[j]).name@ == entries[j].name && read_at(
                fields[j].reader,
                i,
            ) == Ok::<ValueModel, ReadError>(
                assembled_at(entries[j].descriptor, path.push(entries[j].external), cols, i),
            ),
    ensures
        read_fields_at(fields, i) == Ok::<Seq<FieldValueModel>, ReadError>(
            assembled_fields_at(entries, path, cols, i),
        ),
    decreases entries.len(),
{
    if entries.len() > 0 {
        assert forall|j: int|
            0 <= j < entries.drop_first().len() implies (#[trigger] fields.drop_first()[j]).name@
            == entries.drop_first()[j].name && read_at(fields.drop_first()[j].reader, i) == Ok::<
            ValueModel,
            ReadError,
        >(
            assembled_at(
                entries.drop_first()[j].descriptor,
                path.push(entries.drop_first()[j].external),
                cols,
                i,
            ),
        ) by {
            assert(fields.drop_first()[j] == fields[j + 1]);
            assert(entries.drop_first()[j] == entries[j + 1]);
        }
        lemma_fields_assemble(fields.drop_first(), entries.drop_first(), path, cols, i);
        assert(read_fields_at(fields, i)->Ok_0 =~= assembled_fields_at(entries, path, cols, i));
    }
}

/// The round trip: a reader composed for a descriptor, over a registry
/// whose columns all hold exactly `k` rows, is well formed, has exactly
/// `k` records remaining, and its reads yield, for every row `i` below
/// `k`, exactly the record the storage assembles to at row `i`, fields in
/// declaration order. Together with `read_all` this says that reading a
/// `k`-row column group yields the `k` stored records and then exhaustion.
pub proof fn lemma_composed_reads(
    dm: DescriptorModel,
    path: Seq<Seq<char>>,
    def: i16,
    rep: i16,
    cols: Seq<RegisteredColumn>,
    batch: nat,
    r: RecordReader,
    k: nat,
)
    requires
        composed_value(dm, path, def, rep, cols, batch, r),
        covers(dm, path, cols),
        uniform_rows(dm, path, cols, k),
        grounded(dm),
    ensures
        reader_wf(r),
        remaining(r) == Some(k),
        forall|i: nat| i < k ==> #[trigger] read_at(r, i) == Ok::<ValueModel, ReadError>(
            assembled_at(dm, path, cols, i),
        ),
    decreases dm,
{
    match dm {
        DescriptorModel::Leaf(t) => {
            let l = r->Leaf_0;
            let c = lookup_spec(cols, path)->Some_0;
            assert(l.column.values@ == c.values@);
            assert(l.column.typed(t)) by {
                assert(forall|j: int|
                    0 <= j < l.column.values@.len() ==> #[trigger] l.column.values@[j]
                        == c.values@[j]);
            }
        },
        DescriptorModel::Group(entries) => {
            let g = r->Group_0;
            assert forall|j: int| 0 <= j < entries.len() implies (reader_wf(
                #[trigger] g.fields@[j].reader,
            ) && remaining(g.fields@[j].reader) == Some(k) && (forall|i: nat|
                #![trigger read_at(g.fields@[j].reader, i)]
                i < k ==> read_at(g.fields@[j].reader, i) == Ok::<ValueModel, ReadError>(
                    assembled_at(entries[j].descriptor, path.push(entries[j].external), cols, i),
                ))) by {
                lemma_composed_reads(
                    entries[j].descriptor,
                    path.push(entries[j].external),
                    def,
                    rep,
                    cols,
                    batch,
                    g.fields@[j].reader,
                    k,
                );
            }
            assert(reader_wf(r)) by {
                assert(forall|j: int|
                    0 <= j < g.fields@.len() ==> remaining(#[trigger] g.fields@[j].reader)
                        == remaining(g.fields@[0].reader));
            }
            assert forall|i: nat| i < k implies #[trigger] read_at(r, i) == Ok::<
                ValueModel,
                ReadError,
            >(assembled_at(dm, path, cols, i)) by {
                lemma_fields_assemble(g.fields@, entries, path, cols, i);
            }
        },
    }
}

} // verus!
