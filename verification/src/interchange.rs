//! The interchange adapter: a bidirectional conversion between the in-memory
//! entity-type record and a wire-shaped message, preserving the kind
//! discrimination. The emptiness of the literal-choice list is the sole
//! discriminator on decode: a non-empty list decodes as an enumerated type
//! and every standard-shaped field is ignored; an empty list decodes as a
//! standard type. A missing required sub-field is payload corruption and
//! fails the decode.

use crate::entity_type::{
    nonempty_elems, spec_attributes, spec_open_attributes, spec_tag_type,
    EntityTypeKindView, EntityTypeView, StandardEntityTypeView, StandardValidatorEntityType,
    ValidatorEntityType, ValidatorEntityTypeKind,
};
use crate::name::{clone_names, contains_name, name_views, EntityTypeName};
use crate::types::{attrs_wf, Attributes, AttributesView, OpenTag, ValueType};
use vstd::prelude::*;

verus! {

/// The wire code for open attributes.
pub const OPEN_ATTRIBUTES_CODE: u32 = 0;

/// The wire code for closed attributes.
pub const CLOSED_ATTRIBUTES_CODE: u32 = 1;

/// The wire code of an openness flag.
pub open spec fn open_tag_code(t: OpenTag) -> u32 {
    match t {
        OpenTag::OpenAttributes => OPEN_ATTRIBUTES_CODE,
        OpenTag::ClosedAttributes => CLOSED_ATTRIBUTES_CODE,
    }
}

/// The openness flag a wire code stands for, if it stands for one.
pub open spec fn open_tag_of_code(c: u32) -> Option<OpenTag> {
    if c == OPEN_ATTRIBUTES_CODE {
        Some(OpenTag::OpenAttributes)
    } else if c == CLOSED_ATTRIBUTES_CODE {
        Some(OpenTag::ClosedAttributes)
    } else {
        None
    }
}

/// Why a decode failed: the payload is corrupt, not legitimately sparse.
#[derive(Clone, Copy, PartialEq, Eq, Structural, Debug)]
pub enum InterchangeError {
    /// The type-name reference is absent.
    MissingName,
    /// The attribute payload is absent on a standard-typed payload.
    MissingAttributes,
    /// The openness code stands for no openness flag.
    UnknownOpenTag,
}

/// The tag-type payload of the wire message: an optional wrapper around an
/// optional value type.
#[derive(Debug)]
pub struct TagPayload {
    pub optional_type: Option<ValueType>,
}

impl View for TagPayload {
    type V = Option<Seq<char>>;

    open spec fn view(&self) -> Option<Seq<char>> {
        match self.optional_type {
            Some(t) => Some(t@),
            None => None,
        }
    }
}

/// The mathematical content of an [`InterchangeEntityType`].
#[verifier::ext_equal]
pub struct InterchangeView {
    pub name: Option<Seq<char>>,
    pub descendants: Seq<Seq<char>>,
    pub attributes: Option<AttributesView>,
    pub open_attributes: u32,
    pub tags: Option<Option<Seq<char>>>,
    pub enums: Seq<Seq<char>>,
}

/// The wire message an entity-type record converts to and from: a type-name
/// reference, the descendant name list, an optional attribute payload, an
/// openness code, an optional tag-type payload, and the literal-choice list
/// (possibly empty) that discriminates the kinds.
#[derive(Debug)]
pub struct InterchangeEntityType {
    pub name: Option<EntityTypeName>,
    pub descendants: Vec<EntityTypeName>,
    pub attributes: Option<Attributes>,
    pub open_attributes: u32,
    pub tags: Option<TagPayload>,
    pub enums: Vec<String>,
}

impl View for InterchangeEntityType {
    type V = InterchangeView;

    open spec fn view(&self) -> InterchangeView {
        InterchangeView {
            name: match self.name {
                Some(n) => Some(n@),
                None => None,
            },
            descendants: name_views(self.descendants@),
            attributes: match self.attributes {
                Some(a) => Some(a@),
                None => None,
            },
            open_attributes: self.open_attributes,
            tags: match self.tags {
                Some(t) => Some(t@),
                None => None,
            },
            enums: self.enums@.map_values(|s: String| s@),
        }
    }
}

/// `s` with every repeated name dropped, keeping first occurrences.
pub open spec fn dedup_names(s: Seq<Seq<char>>) -> Seq<Seq<char>>
    decreases s.len(),
{
    if s.len() == 0 {
        s
    } else {
        let prefix = dedup_names(s.drop_last());
        if prefix.contains(s.last()) {
            prefix
        } else {
            prefix.push(s.last())
        }
    }
}

/// Deduplication keeps membership, introduces none, and leaves no repeats.
pub proof fn lemma_dedup_names(s: Seq<Seq<char>>)
    ensures
        forall|x: Seq<char>| #[trigger] dedup_names(s).contains(x) <==> s.contains(x),
        dedup_names(s).no_duplicates(),
    decreases s.len(),
{
    if s.len() > 0 {
        lemma_dedup_names(s.drop_last());
        let prefix = dedup_names(s.drop_last());
        assert forall|x: Seq<char>| #[trigger] dedup_names(s).contains(x) implies s.contains(
            x,
        ) by {
            if prefix.contains(x) || x == s.last() {
                if prefix.contains(x) {
                    assert(s.drop_last().contains(x));
                    let u = choose|u: int| 0 <= u < s.drop_last().len() && s.drop_last()[u] == x;
                    assert(s[u] == x);
                } else {
                    assert(s[s.len() - 1] == x);
                }
            } else {
                let u = choose|u: int|
                    0 <= u < dedup_names(s).len() && dedup_names(s)[u] == x;
                if dedup_names(s) == prefix {
                    assert(prefix.contains(x));
                } else {
                    assert(dedup_names(s) == prefix.push(s.last()));
                    if u < prefix.len() {
                        assert(prefix[u] == x);
                        assert(prefix.contains(x));
                    }
                }
            }
        }
        assert forall|x: Seq<char>| s.contains(x) implies #[trigger] dedup_names(s).contains(
            x,
        ) by {
            let u = choose|u: int| 0 <= u < s.len() && s[u] == x;
            if u < s.len() - 1 {
                assert(s.drop_last()[u] == x);
                assert(s.drop_last().contains(x));
                assert(prefix.contains(x));
                if !prefix.contains(s.last()) {
                    let w = choose|w: int| 0 <= w < prefix.len() && prefix[w] == x;
                    assert(dedup_names(s)[w] == x);
                }
            } else {
                assert(x == s.last());
                if prefix.contains(x) {
                    if !prefix.contains(s.last()) {
                        assert(false);
                    }
                } else {
                    assert(dedup_names(s).last() == x);
                }
            }
        }
        if !prefix.contains(s.last()) {
            assert forall|a: int, b: int|
                0 <= a < dedup_names(s).len() && 0 <= b < dedup_names(s).len() && a
                    != b implies dedup_names(s)[a] != dedup_names(s)[b] by {
                if a < prefix.len() && b < prefix.len() {
                } else if a == prefix.len() {
                    assert(dedup_names(s)[b] == prefix[b]);
                    assert(prefix.contains(prefix[b]));
                } else if b == prefix.len() {
                    assert(dedup_names(s)[a] == prefix[a]);
                    assert(prefix.contains(prefix[a]));
                }
            }
        }
    }
}

/// A sequence without repeats is already deduplicated.
pub proof fn lemma_dedup_names_of_unique(s: Seq<Seq<char>>)
    requires
        s.no_duplicates(),
    ensures
        dedup_names(s) == s,
    decreases s.len(),
{
    if s.len() > 0 {
        assert(s.drop_last().no_duplicates());
        lemma_dedup_names_of_unique(s.drop_last());
        if s.drop_last().contains(s.last()) {
            let u = choose|u: int| 0 <= u < s.drop_last().len() && s.drop_last()[u] == s.last();
            assert(s[u] == s[s.len() - 1]);
            assert(false);
        }
        assert(dedup_names(s) =~= s);
    }
}

/// An owned copy of `v` with every repeated name dropped, keeping first
/// occurrences.
fn dedup_name_vec(v: &Vec<EntityTypeName>) -> (r: Vec<EntityTypeName>)
    ensures
        name_views(r@) == dedup_names(name_views(v@)),
{
    let mut out: Vec<EntityTypeName> = Vec::new();
    let mut i: usize = 0;
    while i < v.len()
        invariant
            i <= v.len(),
            name_views(out@) == dedup_names(name_views(v@).subrange(0, i as int)),
        decreases v.len() - i,
    {
        let ghost pre = name_views(v@).subrange(0, i as int);
        let ghost cur = name_views(v@).subrange(0, i + 1 as int);
        proof {
            assert(cur.drop_last() =~= pre);
            assert(cur.last() == v@[i as int]@);
        }
        if contains_name(&out, &v[i]) {
            proof {
                assert(dedup_names(cur) == dedup_names(pre));
            }
        } else {
            let ghost vs0 = name_views(out@);
            out.push(v[i].duplicate());
            proof {
                assert(name_views(out@) =~= vs0.push(v@[i as int]@));
                assert(dedup_names(cur) == dedup_names(pre).push(cur.last()));
            }
        }
        i += 1;
    }
    proof {
        assert(name_views(v@).subrange(0, v@.len() as int) =~= name_views(v@));
    }
    out
}

/// What encoding a record yields: the name and attribute payloads always
/// present, the openness and tag type as the uniform queries answer them,
/// and the choice list empty exactly for a standard record.
pub open spec fn spec_encode(v: EntityTypeView) -> InterchangeView {
    InterchangeView {
        name: Some(v.name),
        descendants: v.descendants,
        attributes: Some(spec_attributes(v.kind)),
        open_attributes: open_tag_code(spec_open_attributes(v.kind)),
        tags: match spec_tag_type(v.kind) {
            Some(t) => Some(Some(t)),
            None => None,
        },
        enums: match v.kind {
            EntityTypeKindView::Enum(cs) => cs,
            EntityTypeKindView::Standard(_) => Seq::empty(),
        },
    }
}

/// What decoding a wire message yields. The name is required. A non-empty
/// choice list decodes as an enumerated record and every standard-shaped
/// field is ignored; an empty one decodes as a standard record, for which
/// the attribute payload is required and the openness code must be known.
/// Repeated descendant names collapse into one.
pub open spec fn spec_decode(w: InterchangeView) -> Result<EntityTypeView, InterchangeError> {
    if w.name is None {
        Err(InterchangeError::MissingName)
    } else if w.enums.len() > 0 {
        Ok(
            EntityTypeView {
                name: w.name->0,
                descendants: dedup_names(w.descendants),
                kind: EntityTypeKindView::Enum(w.enums),
            },
        )
    } else if w.attributes is None {
        Err(InterchangeError::MissingAttributes)
    } else if open_tag_of_code(w.open_attributes) is None {
        Err(InterchangeError::UnknownOpenTag)
    } else {
        Ok(
            EntityTypeView {
                name: w.name->0,
                descendants: dedup_names(w.descendants),
                kind: EntityTypeKindView::Standard(
                    StandardEntityTypeView {
                        attributes: w.attributes->0,
                        open_attributes: open_tag_of_code(w.open_attributes)->0,
                        tags: match w.tags {
                            Some(o) => o,
                            None => None,
                        },
                    },
                ),
            },
        )
    }
}

/// A wire message whose attribute payload, if present, declares each
/// attribute name once.
pub open spec fn wire_wf(w: InterchangeView) -> bool {
    match w.attributes {
        Some(a) => attrs_wf(a),
        None => true,
    }
}

impl ValidatorEntityType {
    /// Encode this record as the wire message.
    pub fn to_interchange(&self) -> (r: InterchangeEntityType)
        ensures
            r@ == spec_encode(self@),
    {
        let name = Some(self.name.duplicate());
        let descendants = clone_names(&self.descendants);
        let attributes = Some(self.attributes());
        let open_attributes = match self.open_attributes() {
            OpenTag::OpenAttributes => OPEN_ATTRIBUTES_CODE,
            OpenTag::ClosedAttributes => CLOSED_ATTRIBUTES_CODE,
        };
        let tags = match self.tag_type() {
            Some(t) => Some(TagPayload { optional_type: Some(t.duplicate()) }),
            None => None,
        };
        let enums = match &self.kind {
            ValidatorEntityTypeKind::Enum(ne) => nonempty_elems(ne),
            ValidatorEntityTypeKind::Standard(_) => Vec::new(),
        };
        let r = InterchangeEntityType { name, descendants, attributes, open_attributes, tags, enums };
        proof {
            assert(r@.enums =~= spec_encode(self@).enums);
            assert(r@ =~= spec_encode(self@));
        }
        r
    }

    /// Decode a wire message into a record, or say why the payload is
    /// corrupt. A record that comes back is well formed whenever the
    /// message's attribute payload declares no attribute name twice.
    pub fn from_interchange(w: &InterchangeEntityType) -> (r: Result<
        ValidatorEntityType,
        InterchangeError,
    >)
        ensures
            r matches Ok(rec) ==> spec_decode(w@) == Ok::<EntityTypeView, InterchangeError>(rec@),
            r matches Err(e) ==> spec_decode(w@) == Err::<EntityTypeView, InterchangeError>(e),
            r matches Ok(rec) ==> (wire_wf(w@) ==> rec@.wf()),
    {
        let name = match &w.name {
            None => {
                return Err(InterchangeError::MissingName);
            },
            Some(n) => n.duplicate(),
        };
        let descendants = dedup_name_vec(&w.descendants);
        proof {
            lemma_dedup_names(name_views(w.descendants@));
        }
        if w.enums.len() > 0 {
            let head = w.enums[0].clone();
            let mut tail: Vec<String> = Vec::new();
            let mut i: usize = 1;
            while i < w.enums.len()
                invariant
                    1 <= i <= w.enums@.len(),
                    tail@.map_values(|s: String| s@) =~= w.enums@.map_values(
                        |s: String| s@,
                    ).subrange(1, i as int),
                decreases w.enums@.len() - i,
            {
                let ghost t0 = tail@.map_values(|s: String| s@);
                tail.push(w.enums[i].clone());
                proof {
                    assert(tail@.map_values(|s: String| s@) =~= t0.push(w.enums@[i as int]@));
                    assert(w.enums@.map_values(|s: String| s@)[i as int] == w.enums@[i as int]@);
                    assert(w.enums@.map_values(|s: String| s@).subrange(1, i + 1 as int)
                        =~= w.enums@.map_values(|s: String| s@).subrange(1, i as int).push(
                        w.enums@.map_values(|s: String| s@)[i as int],
                    ));
                }
                i += 1;
            }
            let kind = ValidatorEntityTypeKind::new_enum(head, tail);
            proof {
                assert(kind@ == EntityTypeKindView::Enum(
                    seq![w.enums@.map_values(|s: String| s@)[0]] + w.enums@.map_values(
                        |s: String| s@,
                    ).subrange(1, w.enums@.len() as int),
                ));
                assert(seq![w.enums@.map_values(|s: String| s@)[0]] + w.enums@.map_values(
                    |s: String| s@,
                ).subrange(1, w.enums@.len() as int) =~= w@.enums);
            }
            let rec = ValidatorEntityType { name, descendants, kind };
            proof {
                assert(rec@ =~= spec_decode(w@)->Ok_0);
            }
            Ok(rec)
        } else {
            let attributes = match &w.attributes {
                None => {
                    return Err(InterchangeError::MissingAttributes);
                },
                Some(a) => a.duplicate(),
            };
            let open_attributes = if w.open_attributes == OPEN_ATTRIBUTES_CODE {
                OpenTag::OpenAttributes
            } else if w.open_attributes == CLOSED_ATTRIBUTES_CODE {
                OpenTag::ClosedAttributes
            } else {
                return Err(InterchangeError::UnknownOpenTag);
            };
            let tags = match &w.tags {
                None => None,
                Some(tp) => match &tp.optional_type {
                    None => None,
                    Some(t) => Some(t.duplicate()),
                },
            };
            let rec = ValidatorEntityType {
                name,
                descendants,
                kind: ValidatorEntityTypeKind::Standard(
                    StandardValidatorEntityType { attributes, open_attributes, tags },
                ),
            };
            proof {
                assert(rec@ =~= spec_decode(w@)->Ok_0);
            }
            Ok(rec)
        }
    }
}

/// Interchange round-trip: encoding a well-formed record and decoding the
/// message yields the record back — name, descendants, attributes, openness,
/// tag type and kind all preserved.
pub proof fn lemma_interchange_round_trip(v: EntityTypeView)
    requires
        v.wf(),
    ensures
        spec_decode(spec_encode(v)) == Ok::<EntityTypeView, InterchangeError>(v),
{
    lemma_dedup_names_of_unique(v.descendants);
    match v.kind {
        EntityTypeKindView::Enum(cs) => {
            assert(spec_decode(spec_encode(v))->Ok_0 =~= v);
        },
        EntityTypeKindView::Standard(s) => {
            assert(spec_encode(v).enums.len() == 0);
            assert(open_tag_of_code(open_tag_code(s.open_attributes)) == Some(s.open_attributes));
            assert(spec_decode(spec_encode(v))->Ok_0 =~= v);
        },
    }
}

/// The encoding of a well-formed record is a well-formed wire message.
pub proof fn lemma_encode_wire_wf(v: EntityTypeView)
    requires
        v.wf(),
    ensures
        wire_wf(spec_encode(v)),
{
}

/// Discriminator precedence: a payload with a name and a non-empty choice
/// list decodes as an enumerated record whatever its standard-shaped fields
/// hold — the attribute payload, openness code and tag payload are all
/// discarded.
pub proof fn lemma_discriminator_precedence(w: InterchangeView)
    requires
        w.name is Some,
        w.enums.len() > 0,
    ensures
        spec_decode(w) matches Ok(rec) && rec.kind == EntityTypeKindView::Enum(w.enums),
{
}

} // verus!
