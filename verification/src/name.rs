//! Entity-type names: the unique keys of the schema's entity-type registry.

use vstd::prelude::*;

verus! {

/// A namespace-qualified entity-type identifier, held in its fully qualified
/// textual form. It is the unique key of an entity type within one schema;
/// equality is structural (character for character).
#[derive(Debug)]
pub struct EntityTypeName {
    pub id: String,
}

impl View for EntityTypeName {
    type V = Seq<char>;

    open spec fn view(&self) -> Seq<char> {
        self.id@
    }
}

impl EntityTypeName {
    /// Wrap a fully qualified textual name.
    pub fn new(id: String) -> (r: EntityTypeName)
        ensures
            r@ == id@,
    {
        EntityTypeName { id }
    }

    /// Structural equality of two names.
    pub fn eq_name(&self, other: &EntityTypeName) -> (r: bool)
        ensures
            r == (self@ == other@),
    {
        self.id == other.id
    }

    /// An owned copy of this name.
    pub fn duplicate(&self) -> (r: EntityTypeName)
        ensures
            r@ == self@,
    {
        EntityTypeName { id: self.id.clone() }
    }
}

/// The sequence of character-level views of a sequence of names.
pub open spec fn name_views(s: Seq<EntityTypeName>) -> Seq<Seq<char>> {
    s.map_values(|n: EntityTypeName| n@)
}

/// Whether `v` holds a name whose view is `x`.
pub fn contains_name(v: &Vec<EntityTypeName>, x: &EntityTypeName) -> (r: bool)
    ensures
        r == name_views(v@).contains(x@),
{
    let mut i: usize = 0;
    while i < v.len()
        invariant
            i <= v.len(),
            forall|k: int| 0 <= k < i ==> name_views(v@)[k] != x@,
        decreases v.len() - i,
    {
        if v[i].eq_name(x) {
            proof {
                assert(name_views(v@)[i as int] == x@);
            }
            return true;
        }
        i += 1;
    }
    proof {
        assert(forall|k: int| 0 <= k < name_views(v@).len() ==> name_views(v@)[k] != x@);
    }
    false
}

/// An owned copy of a vector of names, element for element.
pub fn clone_names(v: &Vec<EntityTypeName>) -> (r: Vec<EntityTypeName>)
    ensures
        name_views(r@) == name_views(v@),
{
    let mut out: Vec<EntityTypeName> = Vec::new();
    let mut i: usize = 0;
    while i < v.len()
        invariant
            i <= v.len(),
            name_views(out@) =~= name_views(v@).subrange(0, i as int),
        decreases v.len() - i,
    {
        out.push(v[i].duplicate());
        proof {
            assert(name_views(out@) =~= name_views(v@).subrange(0, i as int).push(
                v@[i as int]@,
            ));
            assert(name_views(v@).subrange(0, i + 1 as int) =~= name_views(v@).subrange(
                0,
                i as int,
            ).push(v@[i as int]@));
        }
        i += 1;
    }
    proof {
        assert(name_views(out@) =~= name_views(v@));
    }
    out
}

} // verus!
