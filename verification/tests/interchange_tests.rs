use entity_type_model::entity_type::{
    StandardValidatorEntityType, ValidatorEntityType, ValidatorEntityTypeKind,
};
use entity_type_model::interchange::{
    InterchangeEntityType, InterchangeError, TagPayload, CLOSED_ATTRIBUTES_CODE,
    OPEN_ATTRIBUTES_CODE,
};
use entity_type_model::name::EntityTypeName;
use entity_type_model::types::{AttributeType, Attributes, OpenTag, ValueType};

fn name(s: &str) -> EntityTypeName {
    EntityTypeName::new(s.to_string())
}

fn standard_record() -> ValidatorEntityType {
    ValidatorEntityType {
        name: name("App::User"),
        descendants: vec![name("App::Admin"), name("App::Guest")],
        kind: ValidatorEntityTypeKind::Standard(StandardValidatorEntityType {
            attributes: Attributes::with_attributes(vec![
                (
                    "a".to_string(),
                    AttributeType::new(ValueType::new("String".to_string()), true),
                ),
                (
                    "b".to_string(),
                    AttributeType::new(ValueType::new("Long".to_string()), false),
                ),
            ]),
            open_attributes: OpenTag::OpenAttributes,
            tags: None,
        }),
    }
}

fn descendant_ids(r: &ValidatorEntityType) -> Vec<String> {
    r.out_edges().iter().map(|n| n.id.clone()).collect()
}

#[test]
fn standard_round_trip() {
    let r = standard_record();
    let wire = r.to_interchange();
    let back = ValidatorEntityType::from_interchange(&wire).expect("round trip decodes");
    assert_eq!(back.get_key().id, "App::User");
    assert_eq!(descendant_ids(&back), descendant_ids(&r));
    let attrs = back.attributes();
    assert_eq!(attrs.attrs.len(), 2);
    assert_eq!(attrs.attrs[0].0, "a");
    assert_eq!(attrs.attrs[0].1.attr_type.id, "String");
    assert!(attrs.attrs[0].1.is_required);
    assert_eq!(attrs.attrs[1].0, "b");
    assert_eq!(attrs.attrs[1].1.attr_type.id, "Long");
    assert!(!attrs.attrs[1].1.is_required);
    assert_eq!(back.open_attributes(), OpenTag::OpenAttributes);
    assert!(back.tag_type().is_none());
}

#[test]
fn standard_round_trip_with_tags() {
    let r = ValidatorEntityType {
        name: name("App::Doc"),
        descendants: Vec::new(),
        kind: ValidatorEntityTypeKind::Standard(StandardValidatorEntityType {
            attributes: Attributes::new(),
            open_attributes: OpenTag::ClosedAttributes,
            tags: Some(ValueType::new("String".to_string())),
        }),
    };
    let back = ValidatorEntityType::from_interchange(&r.to_interchange()).expect("decodes");
    assert_eq!(back.open_attributes(), OpenTag::ClosedAttributes);
    assert_eq!(back.tag_type().expect("tags preserved").id, "String");
}

#[test]
fn enum_round_trip() {
    let r = ValidatorEntityType {
        name: name("App::Role"),
        descendants: Vec::new(),
        kind: ValidatorEntityTypeKind::new_enum("ADMIN".to_string(), vec!["GUEST".to_string()]),
    };
    let wire = r.to_interchange();
    assert_eq!(wire.enums, vec!["ADMIN".to_string(), "GUEST".to_string()]);
    let back = ValidatorEntityType::from_interchange(&wire).expect("decodes");
    match &back.kind {
        ValidatorEntityTypeKind::Enum(ne) => {
            assert_eq!(ne.head, "ADMIN");
            assert_eq!(ne.tail, vec!["GUEST".to_string()]);
        }
        ValidatorEntityTypeKind::Standard(_) => panic!("enum record decoded as standard"),
    }
    assert!(back.attributes().attrs.is_empty());
    assert_eq!(back.open_attributes(), OpenTag::ClosedAttributes);
    assert!(back.tag_type().is_none());
}

#[test]
fn discriminator_precedence_ignores_standard_fields() {
    // A crafted payload with a non-empty choice list AND populated
    // standard-shaped fields must decode as Enum, discarding them all.
    let wire = InterchangeEntityType {
        name: Some(name("App::Role")),
        descendants: vec![name("App::X")],
        attributes: Some(Attributes::with_attributes(vec![(
            "stray".to_string(),
            AttributeType::new(ValueType::new("Bool".to_string()), true),
        )])),
        open_attributes: OPEN_ATTRIBUTES_CODE,
        tags: Some(TagPayload {
            optional_type: Some(ValueType::new("String".to_string())),
        }),
        enums: vec!["ON".to_string(), "OFF".to_string()],
    };
    let back = ValidatorEntityType::from_interchange(&wire).expect("decodes as enum");
    match &back.kind {
        ValidatorEntityTypeKind::Enum(ne) => {
            assert_eq!(ne.head, "ON");
            assert_eq!(ne.tail, vec!["OFF".to_string()]);
        }
        ValidatorEntityTypeKind::Standard(_) => panic!("choice list did not take precedence"),
    }
    assert!(back.attributes().attrs.is_empty());
    assert!(back.attr("stray").is_none());
    assert_eq!(back.open_attributes(), OpenTag::ClosedAttributes);
    assert!(back.tag_type().is_none());
}

#[test]
fn decode_requires_the_name() {
    let wire = InterchangeEntityType {
        name: None,
        descendants: Vec::new(),
        attributes: Some(Attributes::new()),
        open_attributes: CLOSED_ATTRIBUTES_CODE,
        tags: None,
        enums: vec!["ON".to_string()],
    };
    let err = ValidatorEntityType::from_interchange(&wire).expect_err("name is required");
    assert_eq!(err, InterchangeError::MissingName);
}

#[test]
fn decode_requires_attributes_for_standard() {
    let wire = InterchangeEntityType {
        name: Some(name("App::User")),
        descendants: Vec::new(),
        attributes: None,
        open_attributes: CLOSED_ATTRIBUTES_CODE,
        tags: None,
        enums: Vec::new(),
    };
    let err = ValidatorEntityType::from_interchange(&wire).expect_err("attributes are required");
    assert_eq!(err, InterchangeError::MissingAttributes);
}

#[test]
fn decode_rejects_unknown_openness_code() {
    let wire = InterchangeEntityType {
        name: Some(name("App::User")),
        descendants: Vec::new(),
        attributes: Some(Attributes::new()),
        open_attributes: 7,
        tags: None,
        enums: Vec::new(),
    };
    let err = ValidatorEntityType::from_interchange(&wire).expect_err("code 7 is unknown");
    assert_eq!(err, InterchangeError::UnknownOpenTag);
}

#[test]
fn decode_collapses_repeated_descendants() {
    let wire = InterchangeEntityType {
        name: Some(name("App::User")),
        descendants: vec![name("A"), name("B"), name("A")],
        attributes: Some(Attributes::new()),
        open_attributes: CLOSED_ATTRIBUTES_CODE,
        tags: None,
        enums: Vec::new(),
    };
    let back = ValidatorEntityType::from_interchange(&wire).expect("decodes");
    assert_eq!(
        descendant_ids(&back),
        vec!["A".to_string(), "B".to_string()]
    );
}

#[test]
fn encode_openness_codes() {
    let r = standard_record();
    assert_eq!(r.to_interchange().open_attributes, OPEN_ATTRIBUTES_CODE);
    let closed = ValidatorEntityType {
        name: name("App::Doc"),
        descendants: Vec::new(),
        kind: ValidatorEntityTypeKind::Standard(StandardValidatorEntityType {
            attributes: Attributes::new(),
            open_attributes: OpenTag::ClosedAttributes,
            tags: None,
        }),
    };
    assert_eq!(closed.to_interchange().open_attributes, CLOSED_ATTRIBUTES_CODE);
}
