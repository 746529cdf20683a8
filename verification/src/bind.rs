//! The schema binder: matches a record type declaration's ordered fields
//! against a physical schema tree node and produces a record schema
//! descriptor, or the first binding error in declaration order.

use vstd::prelude::*;
use crate::declare::{FieldDescriptor, RecordType, ValueType};
use crate::descriptor::{
    descriptor_view, entries_view, lemma_entries_view, DescriptorEntry, DescriptorModel,
    EntryModel, RecordSchemaDescriptor, SchemaDescriptor,
};
use crate::errors::{BindError, BindFailure};
use crate::schema::{find_child, find_child_spec, shape_ok, LeafType, NodeKind, PhysicalNode, Repetition};

verus! {

/// What binding a whole record type against a physical node yields: the
/// node must be a required, non-root group, and every field must resolve
/// against the child carrying its external name.
pub open spec fn bind_record_spec(rt: RecordType, node: PhysicalNode) -> Result<
    Seq<EntryModel>,
    BindFailure,
>
    decreases rt,
{
    if !shape_ok(node) {
        Err(BindFailure::ShapeMismatch { record: rt.name@ })
    } else {
        bind_fields_spec(rt.name@, rt.fields@, node)
    }
}

/// Binds fields in declaration order; the first missing or mismatched field
/// aborts the whole bind with no partial result.
pub open spec fn bind_fields_spec(
    record: Seq<char>,
    fields: Seq<FieldDescriptor>,
    node: PhysicalNode,
) -> Result<Seq<EntryModel>, BindFailure>
    decreases fields,
{
    if fields.len() == 0 {
        Ok(Seq::empty())
    } else {
        match find_child_spec(node.children(), fields[0].external_name@) {
            None => Err(BindFailure::MissingField {
                record,
                field: fields[0].name@,
                external: fields[0].external_name@,
            }),
            Some(child) => match bind_value_spec(record, fields[0].value_type, child) {
                Err(e) => Err(e),
                Ok(d) => match bind_fields_spec(record, fields.drop_first(), node) {
                    Err(e) => Err(e),
                    Ok(rest) => Ok(
                        seq![
                            EntryModel {
                                name: fields[0].name@,
                                external: fields[0].external_name@,
                                descriptor: d,
                            },
                        ] + rest,
                    ),
                },
            },
        }
    }
}

/// Binds one declared value type against the physical child found for it:
/// scalars demand a required leaf of the same storage type, nested records
/// recurse into the whole record bind.
pub open spec fn bind_value_spec(record: Seq<char>, vt: ValueType, node: PhysicalNode) -> Result<
    DescriptorModel,
    BindFailure,
>
    decreases vt,
{
    match vt {
        ValueType::Bool => bind_leaf_spec(record, LeafType::Bool, node),
        ValueType::Int32 => bind_leaf_spec(record, LeafType::Int32, node),
        ValueType::Int64 => bind_leaf_spec(record, LeafType::Int64, node),
        ValueType::Utf8 => bind_leaf_spec(record, LeafType::Utf8, node),
        ValueType::Record(inner) => match bind_record_spec(inner, node) {
            Ok(entries) => Ok(DescriptorModel::Group(entries)),
            Err(e) => Err(e),
        },
    }
}

/// A scalar binds only against a required leaf of its own storage type.
pub open spec fn bind_leaf_spec(record: Seq<char>, t: LeafType, node: PhysicalNode) -> Result<
    DescriptorModel,
    BindFailure,
> {
    if node.is_leaf_of(t) && node.repetition == Repetition::Required {
        Ok(DescriptorModel::Leaf(t))
    } else {
        Err(BindFailure::ShapeMismatch { record })
    }
}

/// Prefixes already-bound entries onto the outcome of binding the rest.
pub open spec fn prepend_entries(
    pre: Seq<EntryModel>,
    r: Result<Seq<EntryModel>, BindFailure>,
) -> Result<Seq<EntryModel>, BindFailure> {
    match r {
        Ok(rest) => Ok(pre + rest),
        Err(e) => Err(e),
    }
}

fn bind_leaf(record: &String, t: LeafType, node: &PhysicalNode) -> (r: Result<
    SchemaDescriptor,
    BindError,
>)
    ensures
        match r {
            Ok(d) => bind_leaf_spec(record@, t, *node) == Ok::<DescriptorModel, BindFailure>(
                descriptor_view(d),
            ),
            Err(e) => bind_leaf_spec(record@, t, *node) == Err::<DescriptorModel, BindFailure>(e@),
        },
{
    match &node.kind {
        NodeKind::Leaf(nt) => {
            if *nt == t && node.repetition == Repetition::Required {
                Ok(SchemaDescriptor::Leaf(t))
            } else {
                Err(BindError::ShapeMismatch { record: record.clone() })
            }
        },
        NodeKind::Group(_) => Err(BindError::ShapeMismatch { record: record.clone() }),
    }
}

/// Binds one declared value type against a physical node.
pub fn bind_value(record: &String, vt: &ValueType, node: &PhysicalNode) -> (r: Result<
    SchemaDescriptor,
    BindError,
>)
    ensures
        match r {
            Ok(d) => bind_value_spec(record@, *vt, *node) == Ok::<DescriptorModel, BindFailure>(
                descriptor_view(d),
            ),
            Err(e) => bind_value_spec(record@, *vt, *node) == Err::<DescriptorModel, BindFailure>(
                e@,
            ),
        },
    decreases *vt,
{
    match vt {
        ValueType::Bool => bind_leaf(record, LeafType::Bool, node),
        ValueType::Int32 => bind_leaf(record, LeafType::Int32, node),
        ValueType::Int64 => bind_leaf(record, LeafType::Int64, node),
        ValueType::Utf8 => bind_leaf(record, LeafType::Utf8, node),
        ValueType::Record(inner) => match bind(inner, node) {
            Ok(p) => Ok(SchemaDescriptor::Group(p.1)),
            Err(e) => Err(e),
        },
    }
}

/// Binds a record type declaration against a physical schema node.
///
/// On success, returns the physical node's own name — downstream consumers
/// embedding this record as a field of another need the physical identity —
/// and the record schema descriptor, one entry per declared field in
/// declaration order. The first missing or mismatched field aborts the
/// whole bind; no partial descriptor is ever produced.
pub fn bind(rt: &RecordType, node: &PhysicalNode) -> (r: Result<
    (String, RecordSchemaDescriptor),
    BindError,
>)
    ensures
        match r {
            Ok(p) => p.0@ == node.name@ && bind_record_spec(*rt, *node) == Ok::<
                Seq<EntryModel>,
                BindFailure,
            >(entries_view(p.1.entries@)),
            Err(e) => bind_record_spec(*rt, *node) == Err::<Seq<EntryModel>, BindFailure>(e@),
        },
    decreases *rt,
{
    match &node.kind {
        NodeKind::Leaf(_) => Err(BindError::ShapeMismatch { record: rt.name.clone() }),
        NodeKind::Group(children) => {
            if node.is_root || !(node.repetition == Repetition::Required) {
                return Err(BindError::ShapeMismatch { record: rt.name.clone() });
            }
            let n = rt.fields.len();
            let mut entries: Vec<DescriptorEntry> = Vec::new();
            let mut i: usize = 0;
            proof {
                assert(rt.fields@.skip(0) =~= rt.fields@);
                assert(entries_view(entries@) =~= Seq::<EntryModel>::empty());
                assert(Seq::<EntryModel>::empty()
                    + bind_fields_spec(rt.name@, rt.fields@, *node)->Ok_0 =~= bind_fields_spec(
                    rt.name@,
                    rt.fields@,
                    *node,
                )->Ok_0);
            }
            while i < n
                invariant
                    n == rt.fields@.len(),
                    i <= n,
                    shape_ok(*node),
                    node.children() == children@,
                    bind_fields_spec(rt.name@, rt.fields@, *node) == prepend_entries(
                        entries_view(entries@),
                        bind_fields_spec(rt.name@, rt.fields@.skip(i as int), *node),
                    ),
                decreases n - i,
            {
                let ghost suffix = rt.fields@.skip(i as int);
                let ghost pre = entries_view(entries@);
                proof {
                    assert(suffix[0] == rt.fields@[i as int]);
                    assert(suffix.drop_first() =~= rt.fields@.skip(i + 1));
                }
                let f = &rt.fields[i];
                match find_child(children, &f.external_name) {
                    None => {
                        return Err(BindError::MissingField {
                            record: rt.name.clone(),
                            field: f.name.clone(),
                            external: f.external_name.clone(),
                        });
                    },
                    Some(child) => {
                        match bind_value(&rt.name, &f.value_type, child) {
                            Err(e) => {
                                return Err(e);
                            },
                            Ok(d) => {
                                let ghost m = EntryModel {
                                    name: f.name@,
                                    external: f.external_name@,
                                    descriptor: descriptor_view(d),
                                };
                                let ghost before = entries@;
                                entries.push(DescriptorEntry {
                                    name: f.name.clone(),
                                    external_name: f.external_name.clone(),
                                    descriptor: d,
                                });
                                proof {
                                    lemma_entries_view(before);
                                    lemma_entries_view(entries@);
                                    assert(entries_view(entries@) =~= pre.push(m));
                                    assert(pre + (seq![m] + bind_fields_spec(
                                        rt.name@,
                                        rt.fields@.skip(i + 1),
                                        *node,
                                    )->Ok_0) =~= pre.push(m) + bind_fields_spec(
                                        rt.name@,
                                        rt.fields@.skip(i + 1),
                                        *node,
                                    )->Ok_0);
                                }
                            },
                        }
                    },
                }
                i = i + 1;
            }
            proof {
                assert(rt.fields@.skip(n as int) =~= Seq::<FieldDescriptor>::empty());
                assert(entries_view(entries@) + Seq::<EntryModel>::empty() =~= entries_view(
                    entries@,
                ));
            }
            Ok((node.name.clone(), RecordSchemaDescriptor { entries }))
        },
    }
}

} // verus!
