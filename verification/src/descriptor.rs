//! The typed schema descriptor that binding produces: one entry per declared
//! field, each holding the field's own sub-descriptor.

use vstd::prelude::*;
use crate::schema::LeafType;

verus! {

/// The bound descriptor of one declared value type: the storage type of a
/// leaf column, or a whole record schema descriptor for a nested record.
pub enum SchemaDescriptor {
    Leaf(LeafType),
    Group(RecordSchemaDescriptor),
}

/// One entry of a record schema descriptor, keyed by the declared field
/// name. The external name is kept because reader composition addresses
/// physical columns by it.
pub struct DescriptorEntry {
    pub name: String,
    pub external_name: String,
    pub descriptor: SchemaDescriptor,
}

/// The descriptor a record type binds to: exactly one entry per declared
/// field, in declaration order, no extras and no omissions.
pub struct RecordSchemaDescriptor {
    pub entries: Vec<DescriptorEntry>,
}

/// The spec-level shape of a [`SchemaDescriptor`].
pub enum DescriptorModel {
    Leaf(LeafType),
    Group(Seq<EntryModel>),
}

/// The spec-level shape of a [`DescriptorEntry`].
pub struct EntryModel {
    pub name: Seq<char>,
    pub external: Seq<char>,
    pub descriptor: DescriptorModel,
}

/// The model of a descriptor.
pub open spec fn descriptor_view(d: SchemaDescriptor) -> DescriptorModel
    decreases d,
{
    match d {
        SchemaDescriptor::Leaf(t) => DescriptorModel::Leaf(t),
        SchemaDescriptor::Group(g) => DescriptorModel::Group(entries_view(g.entries@)),
    }
}

/// The models of a sequence of descriptor entries, in order.
pub open spec fn entries_view(es: Seq<DescriptorEntry>) -> Seq<EntryModel>
    decreases es,
{
    if es.len() == 0 {
        Seq::empty()
    } else {
        seq![
            EntryModel {
                name: es[0].name@,
                external: es[0].external_name@,
                descriptor: descriptor_view(es[0].descriptor),
            },
        ] + entries_view(es.drop_first())
    }
}

/// The entry models line up with the entries, one to one and in order.
pub proof fn lemma_entries_view(es: Seq<DescriptorEntry>)
    ensures
        entries_view(es).len() == es.len(),
        forall|i: int| 0 <= i < es.len() ==> entries_view(es)[i] == (EntryModel {
            name: es[i].name@,
            external: es[i].external_name@,
            descriptor: descriptor_view(es[i].descriptor),
        }),
    decreases es.len(),
{
    if es.len() > 0 {
        lemma_entries_view(es.drop_first());
        assert forall|i: int| 0 <= i < es.len() implies entries_view(es)[i] == (EntryModel {
            name: es[i].name@,
            external: es[i].external_name@,
            descriptor: descriptor_view(es[i].descriptor),
        }) by {
            if i > 0 {
                assert(entries_view(es)[i] == entries_view(es.drop_first())[i - 1]);
                assert(es.drop_first()[i - 1] == es[i]);
            }
        }
    }
}

} // verus!
