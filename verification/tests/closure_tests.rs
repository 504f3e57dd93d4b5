use entity_type_model::closure::compute_transitive_closure;
use entity_type_model::entity_type::{
    StandardValidatorEntityType, ValidatorEntityType, ValidatorEntityTypeKind,
};
use entity_type_model::name::EntityTypeName;
use entity_type_model::types::{Attributes, OpenTag};

fn name(s: &str) -> EntityTypeName {
    EntityTypeName::new(s.to_string())
}

fn record(n: &str, children: &[&str]) -> ValidatorEntityType {
    ValidatorEntityType {
        name: name(n),
        descendants: children.iter().map(|c| name(c)).collect(),
        kind: ValidatorEntityTypeKind::Standard(StandardValidatorEntityType {
            attributes: Attributes::new(),
            open_attributes: OpenTag::ClosedAttributes,
            tags: None,
        }),
    }
}

fn descendant_ids(r: &ValidatorEntityType) -> Vec<String> {
    let mut ids: Vec<String> = r.out_edges().iter().map(|n| n.id.clone()).collect();
    ids.sort();
    ids
}

#[test]
fn end_to_end_group_and_user() {
    // Group has-member User, stored in reverse: User starts with no
    // descendants, Group starts with {User}.
    let mut schema = vec![record("User", &[]), record("Group", &["User"])];
    compute_transitive_closure(&mut schema);
    let user = &schema[0];
    let group = &schema[1];
    assert!(group.has_descendant_entity_type(&name("User")));
    assert!(!user.has_descendant_entity_type(&name("Group")));
}

#[test]
fn closure_is_transitive() {
    let mut schema = vec![
        record("A", &["B"]),
        record("B", &["C"]),
        record("C", &["D"]),
        record("D", &[]),
    ];
    compute_transitive_closure(&mut schema);
    assert_eq!(descendant_ids(&schema[0]), vec!["B", "C", "D"]);
    assert_eq!(descendant_ids(&schema[1]), vec!["C", "D"]);
    assert_eq!(descendant_ids(&schema[2]), vec!["D"]);
    assert!(descendant_ids(&schema[3]).is_empty());
}

#[test]
fn closure_is_monotone() {
    let mut schema = vec![
        record("A", &["B", "C"]),
        record("B", &["C"]),
        record("C", &[]),
    ];
    let before: Vec<Vec<String>> = schema.iter().map(descendant_ids).collect();
    compute_transitive_closure(&mut schema);
    for (i, r) in schema.iter().enumerate() {
        let after = descendant_ids(r);
        for d in &before[i] {
            assert!(after.contains(d), "descendant {} of record {} was dropped", d, i);
        }
    }
}

#[test]
fn closure_is_idempotent() {
    let mut once = vec![
        record("A", &["B"]),
        record("B", &["C", "D"]),
        record("C", &["A"]),
        record("D", &[]),
    ];
    compute_transitive_closure(&mut once);
    let mut twice: Vec<ValidatorEntityType> = Vec::new();
    for r in &once {
        twice.push(ValidatorEntityType {
            name: r.get_key(),
            descendants: r.out_edges().iter().map(|n| n.duplicate()).collect(),
            kind: ValidatorEntityTypeKind::Standard(StandardValidatorEntityType {
                attributes: Attributes::new(),
                open_attributes: OpenTag::ClosedAttributes,
                tags: None,
            }),
        });
    }
    compute_transitive_closure(&mut twice);
    for (a, b) in once.iter().zip(twice.iter()) {
        assert_eq!(descendant_ids(a), descendant_ids(b));
    }
}

#[test]
fn closure_handles_cycles() {
    // A cycle is a legal, if unusual, closure input: every member reaches
    // every other, itself included.
    let mut schema = vec![record("A", &["B"]), record("B", &["A"])];
    compute_transitive_closure(&mut schema);
    assert_eq!(descendant_ids(&schema[0]), vec!["A", "B"]);
    assert_eq!(descendant_ids(&schema[1]), vec!["A", "B"]);
}

#[test]
fn closure_of_diamond() {
    let mut schema = vec![
        record("Top", &["L", "R"]),
        record("L", &["Bottom"]),
        record("R", &["Bottom"]),
        record("Bottom", &[]),
    ];
    compute_transitive_closure(&mut schema);
    assert_eq!(descendant_ids(&schema[0]), vec!["Bottom", "L", "R"]);
    assert_eq!(descendant_ids(&schema[1]), vec!["Bottom"]);
    assert_eq!(descendant_ids(&schema[2]), vec!["Bottom"]);
}
