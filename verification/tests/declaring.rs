use record_assembly::bind::bind;
use record_assembly::declare::{declare_record, DeclarationShape, RawField, ValueType};
use record_assembly::errors::BindError;
use record_assembly::schema::{LeafType, NodeKind, PhysicalNode, Repetition};

fn raw(name: &str, vt: ValueType, overrides: Vec<&str>) -> RawField {
    RawField {
        name: name.to_string(),
        value_type: vt,
        rename_overrides: overrides.into_iter().map(|s| s.to_string()).collect(),
    }
}

fn one_leaf_group(group: &str, child: &str, t: LeafType) -> PhysicalNode {
    PhysicalNode {
        name: group.to_string(),
        repetition: Repetition::Required,
        is_root: false,
        kind: NodeKind::Group(vec![PhysicalNode {
            name: child.to_string(),
            repetition: Repetition::Required,
            is_root: false,
            kind: NodeKind::Leaf(t),
        }]),
    }
}

#[test]
fn external_name_defaults_to_declared_name() {
    let rt = declare_record(
        "Row".to_string(),
        DeclarationShape::NamedProduct,
        vec![raw("count", ValueType::Int64, vec![])],
    )
    .unwrap();
    assert_eq!(rt.fields.len(), 1);
    assert_eq!(rt.fields[0].name, "count");
    assert_eq!(rt.fields[0].external_name, "count");
}

#[test]
fn rename_override_matches_renamed_child() {
    let rt = declare_record(
        "Row".to_string(),
        DeclarationShape::NamedProduct,
        vec![raw("count", ValueType::Int64, vec!["cnt"])],
    )
    .unwrap();
    assert_eq!(rt.fields[0].name, "count");
    assert_eq!(rt.fields[0].external_name, "cnt");

    let (_, desc) = bind(&rt, &one_leaf_group("Row", "cnt", LeafType::Int64)).unwrap();
    assert_eq!(desc.entries[0].name, "count");
    assert_eq!(desc.entries[0].external_name, "cnt");
}

#[test]
fn rename_override_no_longer_matches_declared_name() {
    let rt = declare_record(
        "Row".to_string(),
        DeclarationShape::NamedProduct,
        vec![raw("count", ValueType::Int64, vec!["cnt"])],
    )
    .unwrap();
    match bind(&rt, &one_leaf_group("Row", "count", LeafType::Int64)) {
        Err(BindError::MissingField { field, external, .. }) => {
            assert_eq!(field, "count");
            assert_eq!(external, "cnt");
        }
        other => panic!("expected MissingField, got {:?}", other.is_ok()),
    }
}

#[test]
fn duplicate_rename_override_is_configuration_error() {
    let r = declare_record(
        "Row".to_string(),
        DeclarationShape::NamedProduct,
        vec![raw("count", ValueType::Int64, vec!["cnt", "n"])],
    );
    match r {
        Err(BindError::DuplicateRenameOverride { field }) => assert_eq!(field, "count"),
        other => panic!("expected DuplicateRenameOverride, got {:?}", other.is_ok()),
    }
}

#[test]
fn duplicate_override_aborts_at_first_offending_field() {
    let r = declare_record(
        "Row".to_string(),
        DeclarationShape::NamedProduct,
        vec![
            raw("a", ValueType::Int64, vec![]),
            raw("b", ValueType::Int64, vec!["x", "y"]),
            raw("c", ValueType::Int64, vec!["z", "w"]),
        ],
    );
    match r {
        Err(BindError::DuplicateRenameOverride { field }) => assert_eq!(field, "b"),
        other => panic!("expected DuplicateRenameOverride, got {:?}", other.is_ok()),
    }
}

#[test]
fn union_declaration_is_rejected() {
    let r = declare_record("U".to_string(), DeclarationShape::UnionDeclaration, vec![]);
    match r {
        Err(BindError::UnsupportedDeclarationShape { declaration }) => {
            assert_eq!(declaration, "U");
        }
        other => panic!("expected UnsupportedDeclarationShape, got {:?}", other.is_ok()),
    }
}

#[test]
fn zero_variant_enum_declaration_is_rejected() {
    let r = declare_record(
        "E".to_string(),
        DeclarationShape::EnumDeclaration { variants: 0 },
        vec![],
    );
    assert!(matches!(r, Err(BindError::UnsupportedDeclarationShape { .. })));
}

#[test]
fn enum_declaration_with_variants_is_rejected() {
    let r = declare_record(
        "E".to_string(),
        DeclarationShape::EnumDeclaration { variants: 3 },
        vec![],
    );
    assert!(matches!(r, Err(BindError::UnsupportedDeclarationShape { .. })));
}

#[test]
fn unit_declaration_yields_zero_fields() {
    let rt = declare_record("Unit".to_string(), DeclarationShape::UnitProduct, vec![]).unwrap();
    assert_eq!(rt.fields.len(), 0);
    let schema = PhysicalNode {
        name: "Unit".to_string(),
        repetition: Repetition::Required,
        is_root: false,
        kind: NodeKind::Group(vec![]),
    };
    let (resolved, desc) = bind(&rt, &schema).unwrap();
    assert_eq!(resolved, "Unit");
    assert_eq!(desc.entries.len(), 0);
}

#[test]
fn positional_declaration_resolves_like_named() {
    let rt = declare_record(
        "Pair".to_string(),
        DeclarationShape::PositionalProduct,
        vec![raw("0", ValueType::Int64, vec![]), raw("1", ValueType::Utf8, vec![])],
    )
    .unwrap();
    assert_eq!(rt.fields.len(), 2);
    assert_eq!(rt.fields[0].external_name, "0");
    assert_eq!(rt.fields[1].external_name, "1");
}
