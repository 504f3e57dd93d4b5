//! The per-entity-type registry record and its two kinds: a standard
//! (attribute-bearing) entity type and an enumerated (fixed-literal-set)
//! entity type, with the uniform query surface over both kinds and the
//! narrow contract the whole-schema closure pass works through.

use crate::name::{contains_name, name_views, EntityTypeName};
use crate::types::{
    attrs_wf, spec_attr, AttributeType, AttributeTypeView, Attributes, AttributesView, OpenTag,
    ValueType,
};
use nonempty::NonEmpty;
use vstd::prelude::*;

verus! {

#[verifier::external_type_specification]
#[verifier::external_body]
#[verifier::reject_recursive_types(T)]
pub struct ExNonEmpty<T>(NonEmpty<T>);

/// What an enumerated type's choice container holds: the character-level
/// views of its literals, head first, then the tail in order.
pub uninterp spec fn choices_view(ne: NonEmpty<String>) -> Seq<Seq<char>>;

/// Relies on `nonempty::NonEmpty`'s public layout: a list is a `head`
/// element followed by a `tail` vector, so it is never empty.
#[verifier::external_body]
pub fn nonempty_from_parts(head: String, tail: Vec<String>) -> (r: NonEmpty<String>)
    ensures
        choices_view(r) == seq![head@] + tail@.map_values(|s: String| s@),
{
    NonEmpty { head, tail }
}

/// Relies on `nonempty::NonEmpty`'s public layout: reading `head` and `tail`
/// yields every element in order, and `head` is always present.
#[verifier::external_body]
pub fn nonempty_elems(ne: &NonEmpty<String>) -> (r: Vec<String>)
    ensures
        r@.map_values(|s: String| s@) == choices_view(*ne),
        r@.len() >= 1,
{
    let mut out = Vec::with_capacity(1 + ne.tail.len());
    out.push(ne.head.clone());
    out.extend(ne.tail.iter().cloned());
    out
}

/// The mathematical content of a [`StandardValidatorEntityType`].
#[verifier::ext_equal]
pub struct StandardEntityTypeView {
    pub attributes: AttributesView,
    pub open_attributes: OpenTag,
    pub tags: Option<Seq<char>>,
}

/// A standard (non-enumerated) entity type: its declared attribute mapping,
/// its openness flag, and its tag type. A tag type of `None` means entities
/// of this type may carry no tags at all.
#[derive(Debug)]
pub struct StandardValidatorEntityType {
    /// The attributes associated with this entity type.
    pub attributes: Attributes,
    /// Whether this entity type may have additional attributes beyond the
    /// declared ones under partial-schema validation. Accessing an
    /// undeclared attribute under standard validation is an error
    /// regardless of this flag.
    pub open_attributes: OpenTag,
    /// Tag type for this entity type. `None` indicates that entities of
    /// this type are not allowed to have tags.
    pub tags: Option<ValueType>,
}

impl View for StandardValidatorEntityType {
    type V = StandardEntityTypeView;

    open spec fn view(&self) -> StandardEntityTypeView {
        StandardEntityTypeView {
            attributes: self.attributes@,
            open_attributes: self.open_attributes,
            tags: match self.tags {
                Some(t) => Some(t@),
                None => None,
            },
        }
    }
}

impl StandardValidatorEntityType {
    /// The declared attribute mapping, name/type pairs in order.
    pub fn attributes(&self) -> (r: &Vec<(String, AttributeType)>)
        ensures
            r@.map_values(|p: (String, AttributeType)| (p.0@, p.1@)) == self@.attributes,
    {
        &self.attributes.attrs
    }

    /// The type of tags on entities of this type. `None` indicates that
    /// entities of this type are not allowed to have tags.
    pub fn tag_type(&self) -> (r: Option<&ValueType>)
        ensures
            r matches Some(t) ==> self@.tags == Some(t@),
            r is None ==> self@.tags is None,
    {
        self.tags.as_ref()
    }
}

/// The mathematical content of a [`ValidatorEntityTypeKind`].
#[verifier::ext_equal]
pub enum EntityTypeKindView {
    Standard(StandardEntityTypeView),
    Enum(Seq<Seq<char>>),
}

/// The kind of a validator entity type: either standard (attribute-bearing)
/// or enumerated (a fixed, non-empty set of literal identifiers). An
/// enumerated type has no attributes and no tags by construction.
#[derive(Debug)]
pub enum ValidatorEntityTypeKind {
    /// Standard, that is, non-enumerated.
    Standard(StandardValidatorEntityType),
    /// Enumerated: the literal identifier values entities of this type may
    /// take, never empty.
    Enum(NonEmpty<String>),
}

impl View for ValidatorEntityTypeKind {
    type V = EntityTypeKindView;

    open spec fn view(&self) -> EntityTypeKindView {
        match self {
            ValidatorEntityTypeKind::Standard(s) => EntityTypeKindView::Standard(s@),
            ValidatorEntityTypeKind::Enum(ne) => EntityTypeKindView::Enum(choices_view(*ne)),
        }
    }
}

impl ValidatorEntityTypeKind {
    /// Build an enumerated kind from its first literal and the rest, so that
    /// emptiness is unrepresentable.
    pub fn new_enum(head: String, tail: Vec<String>) -> (r: ValidatorEntityTypeKind)
        ensures
            r@ == EntityTypeKindView::Enum(seq![head@] + tail@.map_values(|s: String| s@)),
    {
        ValidatorEntityTypeKind::Enum(nonempty_from_parts(head, tail))
    }
}

/// The declared attribute mapping of a kind: a standard kind's mapping, and
/// the empty mapping for an enumerated kind.
pub open spec fn spec_attributes(k: EntityTypeKindView) -> AttributesView {
    match k {
        EntityTypeKindView::Standard(s) => s.attributes,
        EntityTypeKindView::Enum(_) => Seq::empty(),
    }
}

/// The attribute type a kind declares under `name`, if any; an enumerated
/// kind declares none.
pub open spec fn spec_kind_attr(k: EntityTypeKindView, name: Seq<char>) -> Option<
    AttributeTypeView,
> {
    spec_attr(spec_attributes(k), name)
}

/// The openness of a kind; an enumerated kind is always closed.
pub open spec fn spec_open_attributes(k: EntityTypeKindView) -> OpenTag {
    match k {
        EntityTypeKindView::Standard(s) => s.open_attributes,
        EntityTypeKindView::Enum(_) => OpenTag::ClosedAttributes,
    }
}

/// The tag type of a kind; an enumerated kind allows no tags.
pub open spec fn spec_tag_type(k: EntityTypeKindView) -> Option<Seq<char>> {
    match k {
        EntityTypeKindView::Standard(s) => s.tags,
        EntityTypeKindView::Enum(_) => None,
    }
}

/// A well-formed kind: a standard kind declares each attribute name once,
/// an enumerated kind has at least one choice.
pub open spec fn kind_wf(k: EntityTypeKindView) -> bool {
    match k {
        EntityTypeKindView::Standard(s) => attrs_wf(s.attributes),
        EntityTypeKindView::Enum(cs) => cs.len() >= 1,
    }
}

/// Kind isolation: an enumerated kind has the empty attribute mapping,
/// declares no attribute under any name, is closed, and allows no tags —
/// these are derived constants of the kind, not stored fields.
pub proof fn lemma_enum_kind_isolation(k: EntityTypeKindView)
    requires
        k is Enum,
    ensures
        spec_attributes(k) == Seq::<(Seq<char>, AttributeTypeView)>::empty(),
        forall|name: Seq<char>| #[trigger] spec_kind_attr(k, name) is None,
        spec_open_attributes(k) == OpenTag::ClosedAttributes,
        spec_tag_type(k) is None,
{
}

/// The mathematical content of a [`ValidatorEntityType`].
#[verifier::ext_equal]
pub struct EntityTypeView {
    pub name: Seq<char>,
    pub descendants: Seq<Seq<char>>,
    pub kind: EntityTypeKindView,
}

impl EntityTypeView {
    /// A well-formed record lists each descendant once and has a
    /// well-formed kind.
    pub open spec fn wf(self) -> bool {
        &&& self.descendants.no_duplicates()
        &&& kind_wf(self.kind)
    }
}

/// Entity-type information for use by a policy validator. The record plays
/// the schema's `member_of` relation in reverse: `descendants` holds direct
/// children when the record is first built, and the closure of all
/// descendants once the whole-schema closure pass has run; only then may
/// validation queries read it.
#[derive(Debug)]
pub struct ValidatorEntityType {
    /// The name of the entity type.
    pub name: EntityTypeName,
    /// The entity types that can be members of this entity type. Direct
    /// children at construction; the full transitive descendant set after
    /// the closure pass.
    pub descendants: Vec<EntityTypeName>,
    /// The kind of entity type: enumerated or standard.
    pub kind: ValidatorEntityTypeKind,
}

impl View for ValidatorEntityType {
    type V = EntityTypeView;

    open spec fn view(&self) -> EntityTypeView {
        EntityTypeView {
            name: self.name@,
            descendants: name_views(self.descendants@),
            kind: self.kind@,
        }
    }
}

impl ValidatorEntityType {
    /// Whether `ety` is declared a possible descendant of this entity type
    /// in the schema. Meaningful only after the whole-schema closure pass;
    /// before it, the answer covers direct children alone.
    pub fn has_descendant_entity_type(&self, ety: &EntityTypeName) -> (r: bool)
        ensures
            r == self@.descendants.contains(ety@),
    {
        contains_name(&self.descendants, ety)
    }

    /// The attribute mapping of this entity type: the declared mapping of a
    /// standard type, the empty mapping of an enumerated type. Never fails.
    pub fn attributes(&self) -> (r: Attributes)
        ensures
            r@ == spec_attributes(self@.kind),
    {
        match &self.kind {
            ValidatorEntityTypeKind::Enum(_) => Attributes::new(),
            ValidatorEntityTypeKind::Standard(ty) => ty.attributes.duplicate(),
        }
    }

    /// The type of the attribute with the given name, if this entity type
    /// declares one. Absence means "not declared", never an error; an
    /// enumerated type declares no attributes.
    pub fn attr(&self, attr: &str) -> (r: Option<&AttributeType>)
        ensures
            r matches Some(t) ==> spec_kind_attr(self@.kind, attr@) == Some(t@),
            r is None ==> spec_kind_attr(self@.kind, attr@) is None,
    {
        match &self.kind {
            ValidatorEntityTypeKind::Enum(_) => None,
            ValidatorEntityTypeKind::Standard(ty) => ty.attributes.get_attr(attr),
        }
    }

    /// The openness of this entity type; an enumerated type can never gain
    /// undeclared attributes, so it is always closed.
    pub fn open_attributes(&self) -> (r: OpenTag)
        ensures
            r == spec_open_attributes(self@.kind),
    {
        match &self.kind {
            ValidatorEntityTypeKind::Enum(_) => OpenTag::ClosedAttributes,
            ValidatorEntityTypeKind::Standard(ty) => ty.open_attributes,
        }
    }

    /// The type of tags on this entity type. `None` indicates that entities
    /// of this type are not allowed to have tags; an enumerated type never
    /// allows tags.
    pub fn tag_type(&self) -> (r: Option<&ValueType>)
        ensures
            r matches Some(t) ==> spec_tag_type(self@.kind) == Some(t@),
            r is None ==> spec_tag_type(self@.kind) is None,
    {
        match &self.kind {
            ValidatorEntityTypeKind::Enum(_) => None,
            ValidatorEntityTypeKind::Standard(ty) => ty.tag_type(),
        }
    }

    /// The stable identity this record is keyed by in the closure graph.
    pub fn get_key(&self) -> (r: EntityTypeName)
        ensures
            r@ == self@.name,
    {
        self.name.duplicate()
    }

    /// Idempotently insert `k` into the descendant set: a no-op when `k` is
    /// already present, an append otherwise. The set only ever grows.
    pub fn add_edge_to(&mut self, k: EntityTypeName)
        ensures
            final (self)@.name == old(self)@.name,
            final (self)@.kind == old(self)@.kind,
            final (self)@.descendants == if old(self)@.descendants.contains(k@) {
                old(self)@.descendants
            } else {
                old(self)@.descendants.push(k@)
            },
    {
        if !contains_name(&self.descendants, &k) {
            self.descendants.push(k);
            proof {
                assert(name_views(self.descendants@) =~= name_views(
                    old(self).descendants@,
                ).push(k@));
            }
        }
    }

    /// The current descendant set, as it stands, reflecting the latest
    /// mutations.
    pub fn out_edges(&self) -> (r: &Vec<EntityTypeName>)
        ensures
            name_views(r@) == self@.descendants,
    {
        &self.descendants
    }

    /// Direct membership test against the current descendant set.
    pub fn has_edge_to(&self, e: &EntityTypeName) -> (r: bool)
        ensures
            r == self@.descendants.contains(e@),
    {
        contains_name(&self.descendants, e)
    }
}

} // verus!
