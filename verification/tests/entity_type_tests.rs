use entity_type_model::entity_type::{
    StandardValidatorEntityType, ValidatorEntityType, ValidatorEntityTypeKind,
};
use entity_type_model::name::EntityTypeName;
use entity_type_model::types::{AttributeType, Attributes, OpenTag, ValueType};

fn name(s: &str) -> EntityTypeName {
    EntityTypeName::new(s.to_string())
}

fn standard_kind() -> ValidatorEntityTypeKind {
    ValidatorEntityTypeKind::Standard(StandardValidatorEntityType {
        attributes: Attributes::with_attributes(vec![
            (
                "a".to_string(),
                AttributeType::new(ValueType::new("String".to_string()), true),
            ),
            (
                "b".to_string(),
                AttributeType::new(ValueType::new("Long".to_string()), false),
            ),
        ]),
        open_attributes: OpenTag::OpenAttributes,
        tags: None,
    })
}

fn standard_record() -> ValidatorEntityType {
    ValidatorEntityType {
        name: name("App::User"),
        descendants: Vec::new(),
        kind: standard_kind(),
    }
}

fn enum_record() -> ValidatorEntityType {
    ValidatorEntityType {
        name: name("App::Role"),
        descendants: Vec::new(),
        kind: ValidatorEntityTypeKind::new_enum("ADMIN".to_string(), vec!["GUEST".to_string()]),
    }
}

#[test]
fn standard_attributes_are_returned() {
    let r = standard_record();
    let attrs = r.attributes();
    assert_eq!(attrs.attrs.len(), 2);
    assert_eq!(attrs.attrs[0].0, "a");
    assert_eq!(attrs.attrs[0].1.attr_type.id, "String");
    assert!(attrs.attrs[0].1.is_required);
    assert_eq!(attrs.attrs[1].0, "b");
    assert_eq!(attrs.attrs[1].1.attr_type.id, "Long");
    assert!(!attrs.attrs[1].1.is_required);
}

#[test]
fn standard_attr_lookup_hits_and_misses() {
    let r = standard_record();
    let a = r.attr("a").expect("a is declared");
    assert_eq!(a.attr_type.id, "String");
    assert!(a.is_required);
    let b = r.attr("b").expect("b is declared");
    assert_eq!(b.attr_type.id, "Long");
    assert!(!b.is_required);
    assert!(r.attr("c").is_none());
    assert!(r.attr("").is_none());
}

#[test]
fn standard_openness_and_tags() {
    let r = standard_record();
    assert_eq!(r.open_attributes(), OpenTag::OpenAttributes);
    assert!(r.tag_type().is_none());
    let tagged = ValidatorEntityType {
        name: name("App::Doc"),
        descendants: Vec::new(),
        kind: ValidatorEntityTypeKind::Standard(StandardValidatorEntityType {
            attributes: Attributes::new(),
            open_attributes: OpenTag::ClosedAttributes,
            tags: Some(ValueType::new("String".to_string())),
        }),
    };
    assert_eq!(tagged.open_attributes(), OpenTag::ClosedAttributes);
    assert_eq!(tagged.tag_type().expect("tags allowed").id, "String");
}

#[test]
fn enum_kind_isolation() {
    let r = enum_record();
    assert!(r.attributes().attrs.is_empty());
    assert!(r.attr("a").is_none());
    assert!(r.attr("ADMIN").is_none());
    assert_eq!(r.open_attributes(), OpenTag::ClosedAttributes);
    assert!(r.tag_type().is_none());
}

#[test]
fn standard_type_accessors() {
    let st = StandardValidatorEntityType {
        attributes: Attributes::with_attributes(vec![(
            "x".to_string(),
            AttributeType::new(ValueType::new("Bool".to_string()), true),
        )]),
        open_attributes: OpenTag::ClosedAttributes,
        tags: Some(ValueType::new("Long".to_string())),
    };
    let pairs = st.attributes();
    assert_eq!(pairs.len(), 1);
    assert_eq!(pairs[0].0, "x");
    assert_eq!(st.tag_type().expect("tags allowed").id, "Long");
}

#[test]
fn get_key_returns_the_name() {
    let r = standard_record();
    assert_eq!(r.get_key().id, "App::User");
}

#[test]
fn add_edge_to_is_idempotent() {
    let mut r = standard_record();
    assert!(!r.has_edge_to(&name("App::Group")));
    r.add_edge_to(name("App::Group"));
    assert!(r.has_edge_to(&name("App::Group")));
    assert_eq!(r.out_edges().len(), 1);
    r.add_edge_to(name("App::Group"));
    assert_eq!(r.out_edges().len(), 1);
    r.add_edge_to(name("App::Team"));
    assert_eq!(r.out_edges().len(), 2);
    assert!(r.has_edge_to(&name("App::Team")));
    assert!(r.has_descendant_entity_type(&name("App::Group")));
    assert!(!r.has_descendant_entity_type(&name("App::Missing")));
}

#[test]
fn out_edges_reflects_latest_mutations() {
    let mut r = standard_record();
    assert!(r.out_edges().is_empty());
    r.add_edge_to(name("A"));
    r.add_edge_to(name("B"));
    let ids: Vec<String> = r.out_edges().iter().map(|n| n.id.clone()).collect();
    assert_eq!(ids, vec!["A".to_string(), "B".to_string()]);
}

#[test]
fn name_equality_is_structural() {
    assert!(name("App::User").eq_name(&name("App::User")));
    assert!(!name("App::User").eq_name(&name("App::Group")));
    assert_eq!(name("App::User").duplicate().id, "App::User");
}
