//! The attribute shape consumed by the entity-type model: value types,
//! per-attribute types with a required/optional marker, and the ordered
//! attribute mapping of a standard entity type.

use vstd::prelude::*;

verus! {

/// A value type, as used for attribute values and tag values. The model
/// consumes value types opaquely, beyond identity and equality, so one is
/// held as its textual identifier.
#[derive(Debug)]
pub struct ValueType {
    pub id: String,
}

impl View for ValueType {
    type V = Seq<char>;

    open spec fn view(&self) -> Seq<char> {
        self.id@
    }
}

impl ValueType {
    /// Wrap a value-type identifier.
    pub fn new(id: String) -> (r: ValueType)
        ensures
            r@ == id@,
    {
        ValueType { id }
    }

    /// An owned copy of this value type.
    pub fn duplicate(&self) -> (r: ValueType)
        ensures
            r@ == self@,
    {
        ValueType { id: self.id.clone() }
    }
}

/// The mathematical content of an [`AttributeType`].
#[verifier::ext_equal]
pub struct AttributeTypeView {
    pub attr_type: Seq<char>,
    pub is_required: bool,
}

/// The type of one declared attribute, together with whether the attribute
/// is required or optional.
#[derive(Debug)]
pub struct AttributeType {
    pub attr_type: ValueType,
    pub is_required: bool,
}

impl View for AttributeType {
    type V = AttributeTypeView;

    open spec fn view(&self) -> AttributeTypeView {
        AttributeTypeView { attr_type: self.attr_type@, is_required: self.is_required }
    }
}

impl AttributeType {
    /// Build an attribute type.
    pub fn new(attr_type: ValueType, is_required: bool) -> (r: AttributeType)
        ensures
            r@ == (AttributeTypeView { attr_type: attr_type@, is_required }),
    {
        AttributeType { attr_type, is_required }
    }

    /// An owned copy of this attribute type.
    pub fn duplicate(&self) -> (r: AttributeType)
        ensures
            r@ == self@,
    {
        AttributeType { attr_type: self.attr_type.duplicate(), is_required: self.is_required }
    }
}

/// Whether attributes not declared in the attribute mapping are tolerated
/// (but untyped) under partial-schema validation. `ClosedAttributes` means an
/// undeclared attribute is always an error; `OpenAttributes` does not relax
/// the validation of declared attributes.
#[derive(Clone, Copy, PartialEq, Eq, Structural, Debug)]
pub enum OpenTag {
    OpenAttributes,
    ClosedAttributes,
}

/// The view of an attribute mapping: declared names with their attribute
/// types, in declaration order.
pub type AttributesView = Seq<(Seq<char>, AttributeTypeView)>;

/// An ordered mapping from attribute name to attribute type.
#[derive(Debug)]
pub struct Attributes {
    pub attrs: Vec<(String, AttributeType)>,
}

impl View for Attributes {
    type V = AttributesView;

    open spec fn view(&self) -> AttributesView {
        self.attrs@.map_values(|p: (String, AttributeType)| (p.0@, p.1@))
    }
}

/// The declared attribute names of a mapping view, in order.
pub open spec fn attr_keys(s: AttributesView) -> Seq<Seq<char>> {
    s.map_values(|p: (Seq<char>, AttributeTypeView)| p.0)
}

/// A well-formed attribute mapping declares each attribute name once.
pub open spec fn attrs_wf(s: AttributesView) -> bool {
    attr_keys(s).no_duplicates()
}

/// First match for `name` in `s`, searching from position `i` on.
pub open spec fn attr_search(s: AttributesView, name: Seq<char>, i: int) -> Option<
    AttributeTypeView,
>
    decreases s.len() - i,
{
    if i < 0 || i >= s.len() {
        None
    } else if s[i].0 == name {
        Some(s[i].1)
    } else {
        attr_search(s, name, i + 1)
    }
}

/// The attribute type declared under `name`, if any.
pub open spec fn spec_attr(s: AttributesView, name: Seq<char>) -> Option<AttributeTypeView> {
    attr_search(s, name, 0)
}

/// Relies on `str`'s `PartialEq` implementation: `==` on two string slices
/// compares their character contents.
#[verifier::external_body]
fn str_eq(a: &str, b: &str) -> (r: bool)
    ensures
        r == (a@ == b@),
{
    a == b
}

impl Attributes {
    /// An attribute mapping that declares nothing.
    pub fn new() -> (r: Attributes)
        ensures
            r@ == Seq::<(Seq<char>, AttributeTypeView)>::empty(),
    {
        let r = Attributes { attrs: Vec::new() };
        proof {
            assert(r@ =~= Seq::<(Seq<char>, AttributeTypeView)>::empty());
        }
        r
    }

    /// An attribute mapping over the given name/type pairs, kept in order.
    pub fn with_attributes(attrs: Vec<(String, AttributeType)>) -> (r: Attributes)
        ensures
            r@ == attrs@.map_values(|p: (String, AttributeType)| (p.0@, p.1@)),
    {
        Attributes { attrs }
    }

    /// Look up the attribute type declared under `attr`, if any. Absence is
    /// a legitimate result, not an error: it means "not declared".
    pub fn get_attr(&self, attr: &str) -> (r: Option<&AttributeType>)
        ensures
            r matches Some(t) ==> spec_attr(self@, attr@) == Some(t@),
            r is None ==> spec_attr(self@, attr@) is None,
    {
        let mut i: usize = 0;
        while i < self.attrs.len()
            invariant
                i <= self.attrs.len(),
                spec_attr(self@, attr@) == attr_search(self@, attr@, i as int),
            decreases self.attrs.len() - i,
        {
            if str_eq(self.attrs[i].0.as_str(), attr) {
                proof {
                    assert(self@[i as int].0 == attr@);
                }
                return Some(&self.attrs[i].1);
            }
            proof {
                assert(self@[i as int].0 != attr@);
            }
            i += 1;
        }
        None
    }

    /// An owned copy of this attribute mapping.
    pub fn duplicate(&self) -> (r: Attributes)
        ensures
            r@ == self@,
    {
        let mut out: Vec<(String, AttributeType)> = Vec::new();
        let mut i: usize = 0;
        while i < self.attrs.len()
            invariant
                i <= self.attrs.len(),
                out@.map_values(|p: (String, AttributeType)| (p.0@, p.1@)) =~= self@.subrange(
                    0,
                    i as int,
                ),
            decreases self.attrs.len() - i,
        {
            let name = self.attrs[i].0.clone();
            let ty = self.attrs[i].1.duplicate();
            out.push((name, ty));
            proof {
                assert(out@.map_values(|p: (String, AttributeType)| (p.0@, p.1@)) =~= self@
                    .subrange(0, i as int).push(self@[i as int]));
                assert(self@.subrange(0, i + 1 as int) =~= self@.subrange(0, i as int).push(
                    self@[i as int],
                ));
            }
            i += 1;
        }
        let r = Attributes { attrs: out };
        proof {
            assert(r@ =~= self@);
        }
        r
    }
}

} // verus!
