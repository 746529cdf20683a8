//! Record type declarations: the ordered field lists a reader is generated
//! for, and the resolution of per-field rename overrides.

use vstd::prelude::*;
use crate::errors::{BindError, BindFailure};

verus! {

/// The value type a field declares: a scalar stored in one leaf column, or a
/// nested record type stored as a group of columns.
pub enum ValueType {
    Bool,
    Int32,
    Int64,
    Utf8,
    Record(RecordType),
}

/// A declared field after rename resolution: the declared name, the external
/// name used to match physical schema children, and the declared value type.
pub struct FieldDescriptor {
    pub name: String,
    pub external_name: String,
    pub value_type: ValueType,
}

/// A record type declaration: a name and an ordered list of fields.
pub struct RecordType {
    pub name: String,
    pub fields: Vec<FieldDescriptor>,
}

/// The spec-level shape of a [`FieldDescriptor`].
pub struct FieldModel {
    pub name: Seq<char>,
    pub external: Seq<char>,
    pub value_type: ValueType,
}

impl View for FieldDescriptor {
    type V = FieldModel;

    open spec fn view(&self) -> FieldModel {
        FieldModel { name: self.name@, external: self.external_name@, value_type: self.value_type }
    }
}

/// A field as the generation driver hands it in: the declared name, the
/// declared value type, and every rename override found on the field. At
/// most one override is allowed; its absence means the declared name is used
/// externally as well.
pub struct RawField {
    pub name: String,
    pub value_type: ValueType,
    pub rename_overrides: Vec<String>,
}

/// The structural kind of a declaration. Products bind; unions and enums are
/// rejected, enums being left unimplemented deliberately rather than given a
/// guessed encoding.
#[derive(Clone, Copy, PartialEq, Eq, Structural, Debug)]
pub enum DeclarationShape {
    NamedProduct,
    UnitProduct,
    PositionalProduct,
    UnionDeclaration,
    EnumDeclaration { variants: usize },
}

/// What resolving one raw field yields: its external name defaults to the
/// declared name, one override replaces it, two or more are a configuration
/// error.
pub open spec fn resolve_field_spec(raw: RawField) -> Result<FieldModel, BindFailure> {
    if raw.rename_overrides@.len() == 0 {
        Ok(FieldModel { name: raw.name@, external: raw.name@, value_type: raw.value_type })
    } else if raw.rename_overrides@.len() == 1 {
        Ok(FieldModel {
            name: raw.name@,
            external: raw.rename_overrides@[0]@,
            value_type: raw.value_type,
        })
    } else {
        Err(BindFailure::DuplicateRenameOverride { field: raw.name@ })
    }
}

/// Resolves raw fields in declaration order; the first failure aborts.
pub open spec fn resolve_fields_spec(raws: Seq<RawField>) -> Result<Seq<FieldModel>, BindFailure>
    decreases raws.len(),
{
    if raws.len() == 0 {
        Ok(Seq::empty())
    } else {
        match resolve_field_spec(raws[0]) {
            Err(e) => Err(e),
            Ok(m) => match resolve_fields_spec(raws.drop_first()) {
                Err(e) => Err(e),
                Ok(rest) => Ok(seq![m] + rest),
            },
        }
    }
}

/// Prefixes already-resolved fields onto the outcome of resolving the rest.
pub open spec fn prepend_fields(
    pre: Seq<FieldModel>,
    r: Result<Seq<FieldModel>, BindFailure>,
) -> Result<Seq<FieldModel>, BindFailure> {
    match r {
        Ok(rest) => Ok(pre + rest),
        Err(e) => Err(e),
    }
}

/// What declaring a record type yields: unions and enums are rejected
/// outright, products have their fields resolved in order.
pub open spec fn declare_record_spec(
    name: Seq<char>,
    shape: DeclarationShape,
    raws: Seq<RawField>,
) -> Result<Seq<FieldModel>, BindFailure> {
    match shape {
        DeclarationShape::UnionDeclaration => Err(BindFailure::UnsupportedDeclarationShape {
            declaration: name,
        }),
        DeclarationShape::EnumDeclaration { .. } => Err(BindFailure::UnsupportedDeclarationShape {
            declaration: name,
        }),
        _ => resolve_fields_spec(raws),
    }
}

/// Resolves one raw field into a field descriptor, applying its rename
/// override if present and rejecting duplicates.
pub fn resolve_field(raw: RawField) -> (r: Result<FieldDescriptor, BindError>)
    ensures
        match r {
            Ok(f) => resolve_field_spec(raw) == Ok::<FieldModel, BindFailure>(f@),
            Err(e) => resolve_field_spec(raw) == Err::<FieldModel, BindFailure>(e@),
        },
{
    let RawField { name, value_type, mut rename_overrides } = raw;
    if rename_overrides.len() == 0 {
        let external_name = name.clone();
        Ok(FieldDescriptor { name, external_name, value_type })
    } else if rename_overrides.len() == 1 {
        let external_name = rename_overrides.pop().unwrap();
        Ok(FieldDescriptor { name, external_name, value_type })
    } else {
        Err(BindError::DuplicateRenameOverride { field: name })
    }
}

/// Turns a declaration into a record type: rejects union and enum shapes,
/// and resolves every field's rename override in declaration order, the
/// first failure aborting the whole declaration.
pub fn declare_record(name: String, shape: DeclarationShape, raws: Vec<RawField>) -> (r: Result<
    RecordType,
    BindError,
>)
    requires
        shape is UnitProduct ==> raws@.len() == 0,
    ensures
        match r {
            Ok(rt) => rt.name@ == name@ && declare_record_spec(name@, shape, raws@)
                == Ok::<Seq<FieldModel>, BindFailure>(rt.fields@.map_values(|f: FieldDescriptor| f@)),
            Err(e) => declare_record_spec(name@, shape, raws@) == Err::<Seq<FieldModel>, BindFailure>(e@),
        },
{
    match shape {
        DeclarationShape::UnionDeclaration => {
            return Err(BindError::UnsupportedDeclarationShape { declaration: name });
        },
        DeclarationShape::EnumDeclaration { .. } => {
            return Err(BindError::UnsupportedDeclarationShape { declaration: name });
        },
        _ => {},
    }
    let ghost all = raws@;
    let mut pending = raws;
    let mut fields: Vec<FieldDescriptor> = Vec::new();
    proof {
        assert(fields@.map_values(|f: FieldDescriptor| f@) =~= Seq::<FieldModel>::empty());
        assert(Seq::<FieldModel>::empty() + resolve_fields_spec(all)->Ok_0 =~= resolve_fields_spec(all)->Ok_0);
    }
    while pending.len() > 0
        invariant
            all == raws@,
            !(shape is UnionDeclaration),
            !(shape is EnumDeclaration),
            resolve_fields_spec(all) == prepend_fields(
                fields@.map_values(|f: FieldDescriptor| f@),
                resolve_fields_spec(pending@),
            ),
        decreases pending@.len(),
    {
        let ghost entry_raws = pending@;
        let ghost pre = fields@.map_values(|f: FieldDescriptor| f@);
        let raw = pending.remove(0);
        proof {
            assert(entry_raws.drop_first() =~= pending@);
        }
        match resolve_field(raw) {
            Ok(f) => {
                fields.push(f);
                proof {
                    assert(fields@.map_values(|f: FieldDescriptor| f@) =~= pre.push(f@));
                    assert(pre + (seq![f@] + resolve_fields_spec(pending@)->Ok_0) =~= pre.push(f@)
                        + resolve_fields_spec(pending@)->Ok_0);
                }
            },
            Err(e) => {
                return Err(e);
            },
        }
    }
    proof {
        assert(pending@.len() == 0);
        assert(fields@.map_values(|f: FieldDescriptor| f@) + Seq::<FieldModel>::empty()
            =~= fields@.map_values(|f: FieldDescriptor| f@));
    }
    Ok(RecordType { name, fields })
}

} // verus!
