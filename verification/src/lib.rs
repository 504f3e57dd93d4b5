//! Schema-derived entity-type model for a policy validator.
//!
//! For each entity type declared in an authorization schema the model keeps a
//! record of the type's attribute shape, its allowed tag type, and its
//! position in the entity-type hierarchy, and answers the queries a policy
//! type-checker needs: attribute lookup, descendant testing, and tag and
//! openness queries. A whole-schema transitive-closure pass turns the
//! schema's direct "member-of" declarations (stored in reverse, as direct
//! children) into the fully resolved descendant relation before any
//! validation query is answered. Records can also round-trip through an
//! interchange representation that discriminates the two entity-type kinds
//! by the emptiness of the enumerated-choice list.

pub mod closure;
pub mod entity_type;
pub mod interchange;
pub mod name;
pub mod types;
