//! The whole-schema transitive-closure pass: it expands each record's direct
//! member-of edges (held in reverse, as direct children) into the full
//! reachability relation, together with the laws the pass obeys — the result
//! is exactly reachability in the initial graph, it grows every descendant
//! set monotonically, it is transitive, and it is a stable fixed point.

use crate::entity_type::{EntityTypeView, ValidatorEntityType};
use crate::name::{clone_names, contains_name, name_views, EntityTypeName};
use vstd::prelude::*;
use vstd::set_lib::lemma_len_subset;

verus! {

/// The views of a schema's records, in registry order.
pub open spec fn views_of(rs: Seq<ValidatorEntityType>) -> Seq<EntityTypeView> {
    rs.map_values(|r: ValidatorEntityType| r@)
}

/// Whether some record named `a` lists `b` as a direct descendant.
pub open spec fn has_edge(rs: Seq<EntityTypeView>, a: Seq<char>, b: Seq<char>) -> bool {
    exists|j: int| 0 <= j < rs.len() && (#[trigger] rs[j]).name == a && rs[j].descendants.contains(b)
}

/// A walk through the direct-edge graph: at least one edge, each step a
/// direct descendant of the one before.
pub open spec fn is_path(rs: Seq<EntityTypeView>, p: Seq<Seq<char>>) -> bool {
    &&& p.len() >= 2
    &&& forall|k: int| 0 <= k < p.len() - 1 ==> has_edge(rs, #[trigger] p[k], p[k + 1])
}

/// Whether `b` is reachable from `a` through one or more direct edges.
pub open spec fn reaches(rs: Seq<EntityTypeView>, a: Seq<char>, b: Seq<char>) -> bool {
    exists|p: Seq<Seq<char>>| #[trigger] is_path(rs, p) && p.first() == a && p.last() == b
}

/// A well-formed schema: each record well formed, names unique, and every
/// descendant name present in the schema's name space.
pub open spec fn wf_schema(rs: Seq<EntityTypeView>) -> bool {
    &&& forall|i: int| 0 <= i < rs.len() ==> (#[trigger] rs[i]).wf()
    &&& forall|i: int, j: int|
        0 <= i < rs.len() && 0 <= j < rs.len() && i != j ==> (#[trigger] rs[i]).name != (
        #[trigger] rs[j]).name
    &&& forall|i: int, x: Seq<char>|
        0 <= i < rs.len() && #[trigger] rs[i].descendants.contains(x) ==> schema_names(
            rs,
        ).contains(x)
}

/// The schema's name space: the record names, in registry order.
pub open spec fn schema_names(rs: Seq<EntityTypeView>) -> Seq<Seq<char>> {
    rs.map_values(|r: EntityTypeView| r.name)
}

/// A direct edge is a reachability witness of length one.
pub proof fn lemma_edge_reach(rs: Seq<EntityTypeView>, a: Seq<char>, b: Seq<char>)
    requires
        has_edge(rs, a, b),
    ensures
        reaches(rs, a, b),
{
    let p: Seq<Seq<char>> = seq![a, b];
    assert(is_path(rs, p));
    assert(p.first() == a && p.last() == b);
}

/// Reachability extends along one more direct edge.
pub proof fn lemma_reach_step(rs: Seq<EntityTypeView>, a: Seq<char>, b: Seq<char>, c: Seq<char>)
    requires
        reaches(rs, a, b),
        has_edge(rs, b, c),
    ensures
        reaches(rs, a, c),
{
    let p = choose|p: Seq<Seq<char>>| is_path(rs, p) && p.first() == a && p.last() == b;
    let q = p.push(c);
    assert forall|k: int| 0 <= k < q.len() - 1 implies has_edge(rs, #[trigger] q[k], q[k + 1]) by {
        if k < p.len() - 1 {
            assert(q[k] == p[k] && q[k + 1] == p[k + 1]);
        } else {
            assert(q[k] == p.last() && q[k + 1] == c);
        }
    }
    assert(is_path(rs, q));
    assert(q.first() == a && q.last() == c);
}

/// Reachability is transitive: two walks concatenate.
pub proof fn lemma_reach_trans(rs: Seq<EntityTypeView>, a: Seq<char>, b: Seq<char>, c: Seq<char>)
    requires
        reaches(rs, a, b),
        reaches(rs, b, c),
    ensures
        reaches(rs, a, c),
{
    let p = choose|p: Seq<Seq<char>>| is_path(rs, p) && p.first() == a && p.last() == b;
    let q = choose|q: Seq<Seq<char>>| is_path(rs, q) && q.first() == b && q.last() == c;
    let w = p + q.subrange(1, q.len() as int);
    assert forall|k: int| 0 <= k < w.len() - 1 implies has_edge(rs, #[trigger] w[k], w[k + 1]) by {
        if k < p.len() - 1 {
            assert(w[k] == p[k] && w[k + 1] == p[k + 1]);
        } else if k == p.len() - 1 {
            assert(w[k] == p.last() && w[k + 1] == q[1]);
            assert(has_edge(rs, q[0], q[1]));
        } else {
            let m = k - p.len() + 1;
            assert(w[k] == q[m] && w[k + 1] == q[m + 1]);
            assert(has_edge(rs, q[m], q[m + 1]));
        }
    }
    assert(is_path(rs, w));
    assert(w.first() == a && w.last() == c);
}

/// Every inner step of a walk whose start's direct children lie in the
/// edge-closed set `s` lies in `s` itself.
proof fn lemma_path_in_closed_set(
    rs: Seq<EntityTypeView>,
    s: Seq<Seq<char>>,
    p: Seq<Seq<char>>,
)
    requires
        is_path(rs, p),
        forall|c: Seq<char>| has_edge(rs, p.first(), c) ==> s.contains(c),
        forall|x: Seq<char>, c: Seq<char>|
            s.contains(x) && has_edge(rs, x, c) ==> s.contains(c),
    ensures
        forall|k: int| 1 <= k < p.len() ==> s.contains(#[trigger] p[k]),
    decreases p.len(),
{
    assert(has_edge(rs, p[0], p[1]));
    assert(s.contains(p[1]));
    if p.len() > 2 {
        let q = p.subrange(1, p.len() as int);
        assert forall|k: int| 0 <= k < q.len() - 1 implies has_edge(rs, #[trigger] q[k], q[k + 1])
            by {
            assert(q[k] == p[k + 1] && q[k + 1] == p[k + 2]);
            assert(has_edge(rs, p[k + 1], p[k + 2]));
        }
        assert(is_path(rs, q));
        assert(q.first() == p[1]);
        assert forall|c: Seq<char>| has_edge(rs, q.first(), c) implies s.contains(c) by {
            assert(s.contains(p[1]));
        }
        lemma_path_in_closed_set(rs, s, q);
        assert forall|k: int| 1 <= k < p.len() implies s.contains(#[trigger] p[k]) by {
            if k >= 2 {
                assert(s.contains(q[k - 1]));
            }
        }
    }
}

/// Everything reachable from `src` lies in any set that holds `src`'s direct
/// children and is closed under direct edges.
pub proof fn lemma_reach_complete(
    rs: Seq<EntityTypeView>,
    src: Seq<char>,
    s: Seq<Seq<char>>,
    b: Seq<char>,
)
    requires
        forall|c: Seq<char>| has_edge(rs, src, c) ==> s.contains(c),
        forall|x: Seq<char>, c: Seq<char>|
            s.contains(x) && has_edge(rs, x, c) ==> s.contains(c),
        reaches(rs, src, b),
    ensures
        s.contains(b),
{
    let p = choose|p: Seq<Seq<char>>| is_path(rs, p) && p.first() == src && p.last() == b;
    lemma_path_in_closed_set(rs, s, p);
    assert(b == p[p.len() - 1]);
}

/// The position of the record named `name`, if the schema has one.
fn find_record(records: &Vec<ValidatorEntityType>, name: &EntityTypeName) -> (r: Option<usize>)
    ensures
        r matches Some(j) ==> j < records@.len() && views_of(records@)[j as int].name == name@,
        r is None ==> forall|j: int|
            0 <= j < records@.len() ==> views_of(records@)[j].name != name@,
{
    let mut i: usize = 0;
    while i < records.len()
        invariant
            i <= records.len(),
            forall|j: int| 0 <= j < i ==> views_of(records@)[j].name != name@,
        decreases records.len() - i,
    {
        if records[i].name.eq_name(name) {
            proof {
                assert(views_of(records@)[i as int].name == name@);
            }
            return Some(i);
        }
        i += 1;
    }
    None
}

/// Every name reachable from the record at position `i` through the current
/// direct edges, each exactly once.
fn reach_from(records: &Vec<ValidatorEntityType>, i: usize) -> (r: Vec<EntityTypeName>)
    requires
        wf_schema(views_of(records@)),
        i < records@.len(),
    ensures
        name_views(r@).no_duplicates(),
        forall|x: Seq<char>|
            #[trigger] name_views(r@).contains(x) ==> reaches(
                views_of(records@),
                views_of(records@)[i as int].name,
                x,
            ),
        forall|x: Seq<char>|
            #[trigger] reaches(views_of(records@), views_of(records@)[i as int].name, x)
                ==> name_views(r@).contains(x),
{
    let ghost rs = views_of(records@);
    let ghost src = rs[i as int].name;
    let mut visited: Vec<EntityTypeName> = clone_names(&records[i].descendants);
    proof {
        assert(name_views(visited@) == rs[i as int].descendants);
        assert(schema_names(rs).no_duplicates());
        assert forall|x: Seq<char>| name_views(visited@).contains(x) implies reaches(
            rs,
            src,
            x,
        ) by {
            assert(rs[i as int].descendants.contains(x));
            assert(has_edge(rs, src, x));
            lemma_edge_reach(rs, src, x);
        }
        lemma_unique_subset_len(name_views(visited@), schema_names(rs));
    }
    let mut h: usize = 0;
    while h < visited.len()
        invariant
            rs == views_of(records@),
            wf_schema(rs),
            i < records@.len(),
            src == rs[i as int].name,
            h <= visited.len(),
            visited@.len() <= records@.len(),
            name_views(visited@).no_duplicates(),
            forall|x: Seq<char>|
                #[trigger] name_views(visited@).contains(x) ==> schema_names(rs).contains(x),
            forall|x: Seq<char>| #[trigger] name_views(visited@).contains(x) ==> reaches(
                rs,
                src,
                x,
            ),
            forall|x: Seq<char>| #[trigger] rs[i as int].descendants.contains(x)
                ==> name_views(visited@).contains(x),
            forall|k: int, c: Seq<char>|
                #![trigger has_edge(rs, name_views(visited@)[k], c)]
                0 <= k < h && has_edge(rs, name_views(visited@)[k], c)
                    ==> name_views(visited@).contains(c),
        decreases records@.len() - visited@.len(), visited@.len() - h,
    {
        let node = visited[h].duplicate();
        let ghost before = name_views(visited@);
        match find_record(records, &node) {
            Some(j) => {
                let mut t: usize = 0;
                while t < records[j].descendants.len()
                    invariant
                        rs == views_of(records@),
                        wf_schema(rs),
                        i < records@.len(),
                        j < records@.len(),
                        src == rs[i as int].name,
                        rs[j as int].name == node@,
                        h < visited@.len(),
                        visited@.len() >= before.len(),
                        name_views(visited@)[h as int] == node@,
                        t <= rs[j as int].descendants.len(),
                        visited@.len() <= records@.len(),
                        name_views(visited@).no_duplicates(),
                        forall|x: Seq<char>| #[trigger] name_views(visited@).contains(x)
                            ==> schema_names(rs).contains(x),
                        forall|x: Seq<char>| #[trigger] name_views(visited@).contains(x)
                            ==> reaches(rs, src, x),
                        forall|x: Seq<char>| #[trigger] rs[i as int].descendants.contains(x)
                            ==> name_views(visited@).contains(x),
                        forall|k: int, c: Seq<char>|
                            #![trigger has_edge(rs, name_views(visited@)[k], c)]
                            0 <= k < h && has_edge(rs, name_views(visited@)[k], c)
                                ==> name_views(visited@).contains(c),
                        forall|u: int| 0 <= u < t ==> name_views(visited@).contains(
                            #[trigger] rs[j as int].descendants[u],
                        ),
                    decreases rs[j as int].descendants.len() - t,
                {
                    let c = &records[j].descendants[t];
                    proof {
                        assert(c@ == rs[j as int].descendants[t as int]);
                        assert(rs[j as int].descendants.contains(c@));
                    }
                    if !contains_name(&visited, c) {
                        let ghost vs0 = name_views(visited@);
                        visited.push(c.duplicate());
                        proof {
                            assert(name_views(visited@) =~= vs0.push(c@));
                            assert forall|x: Seq<char>| vs0.contains(x) implies name_views(
                                visited@,
                            ).contains(x) by {
                                let u = choose|u: int| 0 <= u < vs0.len() && vs0[u] == x;
                                assert(name_views(visited@)[u] == x);
                            }
                            assert(name_views(visited@).last() == c@);
                            assert(name_views(visited@).contains(c@));
                            assert forall|a: int, b: int|
                                0 <= a < name_views(visited@).len() && 0 <= b < name_views(
                                    visited@,
                                ).len() && a != b implies name_views(visited@)[a] != name_views(
                                visited@,
                            )[b] by {
                                if a < vs0.len() && b < vs0.len() {
                                } else if a == vs0.len() {
                                    assert(name_views(visited@)[b] == vs0[b]);
                                } else if b == vs0.len() {
                                    assert(name_views(visited@)[a] == vs0[a]);
                                }
                            }
                            assert(name_views(visited@).no_duplicates());
                            assert forall|x: Seq<char>| name_views(visited@).contains(
                                x,
                            ) implies (vs0.contains(x) || x == c@) by {
                                let u = choose|u: int|
                                    0 <= u < name_views(visited@).len() && name_views(
                                        visited@,
                                    )[u] == x;
                                if u < vs0.len() {
                                    assert(vs0[u] == x);
                                }
                            }
                            assert(has_edge(rs, node@, c@));
                            assert(vs0[h as int] == node@);
                            assert(vs0.contains(node@));
                            assert(reaches(rs, src, node@));
                            lemma_reach_step(rs, src, node@, c@);
                            assert(schema_names(rs).contains(c@));
                            assert forall|x: Seq<char>| name_views(visited@).contains(
                                x,
                            ) implies schema_names(rs).contains(x) by {
                                if vs0.contains(x) {
                                } else {
                                    assert(x == c@);
                                }
                            }
                            assert forall|x: Seq<char>| name_views(visited@).contains(
                                x,
                            ) implies reaches(rs, src, x) by {
                                if vs0.contains(x) {
                                } else {
                                    assert(x == c@);
                                }
                            }
                            assert forall|x: Seq<char>| rs[i as int].descendants.contains(
                                x,
                            ) implies name_views(visited@).contains(x) by {
                                assert(vs0.contains(x));
                                let u = choose|u: int| 0 <= u < vs0.len() && vs0[u] == x;
                                assert(name_views(visited@)[u] == x);
                            }
                            lemma_unique_subset_len(name_views(visited@), schema_names(rs));
                            assert forall|k: int, cc: Seq<char>|
                                #![trigger has_edge(rs, name_views(visited@)[k], cc)]
                                0 <= k < h && has_edge(rs, name_views(visited@)[k], cc)
                                    implies name_views(visited@).contains(cc) by {
                                assert(name_views(visited@)[k] == vs0[k]);
                                assert(vs0.contains(cc));
                                let u = choose|u: int| 0 <= u < vs0.len() && vs0[u] == cc;
                                assert(name_views(visited@)[u] == cc);
                            }
                        }
                    }
                    t += 1;
                }
                proof {
                    assert forall|k: int, c: Seq<char>|
                        #![trigger has_edge(rs, name_views(visited@)[k], c)]
                        0 <= k < h + 1 && has_edge(rs, name_views(visited@)[k], c)
                            implies name_views(visited@).contains(c) by {
                        if k == h {
                            let j2 = choose|j2: int|
                                0 <= j2 < rs.len() && (#[trigger] rs[j2]).name == node@
                                    && rs[j2].descendants.contains(c);
                            assert(j2 == j);
                            let jj = j as int;
                            let u = choose|u: int|
                                0 <= u < rs[jj].descendants.len() && rs[jj].descendants[u] == c;
                            assert(name_views(visited@).contains(rs[j as int].descendants[u]));
                        }
                    }
                }
            },
            None => {
                proof {
                    assert forall|k: int, c: Seq<char>|
                        #![trigger has_edge(rs, name_views(visited@)[k], c)]
                        0 <= k < h + 1 && has_edge(rs, name_views(visited@)[k], c)
                            implies name_views(visited@).contains(c) by {
                        if k == h {
                            let j2 = choose|j2: int|
                                0 <= j2 < rs.len() && (#[trigger] rs[j2]).name == node@
                                    && rs[j2].descendants.contains(c);
                            assert(false);
                        }
                    }
                }
            },
        }
        h += 1;
    }
    proof {
        assert forall|c: Seq<char>| has_edge(rs, src, c) implies name_views(visited@).contains(
            c,
        ) by {
            let j2 = choose|j2: int|
                0 <= j2 < rs.len() && (#[trigger] rs[j2]).name == src
                    && rs[j2].descendants.contains(c);
            assert(j2 == i);
        }
        assert forall|x: Seq<char>, c: Seq<char>|
            name_views(visited@).contains(x) && has_edge(rs, x, c) implies name_views(
            visited@,
        ).contains(c) by {
            let k = choose|k: int|
                0 <= k < name_views(visited@).len() && name_views(visited@)[k] == x;
            assert(has_edge(rs, name_views(visited@)[k], c));
        }
        assert forall|b: Seq<char>| reaches(rs, src, b) implies name_views(visited@).contains(
            b,
        ) by {
            lemma_reach_complete(rs, src, name_views(visited@), b);
        }
    }
    visited
}

/// What it means for `post` to be the closure of `pre`: the same registry —
/// names, kinds and order untouched — with each record's descendant set
/// exactly the names reachable from it through `pre`'s direct edges.
pub open spec fn is_closure_of(pre: Seq<EntityTypeView>, post: Seq<EntityTypeView>) -> bool {
    &&& post.len() == pre.len()
    &&& forall|i: int|
        0 <= i < pre.len() ==> (#[trigger] post[i]).name == pre[i].name && post[i].kind
            == pre[i].kind
    &&& forall|i: int, x: Seq<char>|
        0 <= i < pre.len() && #[trigger] post[i].descendants.contains(x) ==> reaches(
            pre,
            pre[i].name,
            x,
        )
    &&& forall|i: int, x: Seq<char>|
        0 <= i < pre.len() && #[trigger] reaches(pre, pre[i].name, x)
            ==> post[i].descendants.contains(x)
}

/// The whole-schema closure pass: it rewrites every record's descendant set
/// in place, from the direct children it was built with to the full
/// transitive descendant set, and leaves names and kinds untouched.
pub fn compute_transitive_closure(records: &mut Vec<ValidatorEntityType>)
    requires
        wf_schema(views_of(old(records)@)),
    ensures
        is_closure_of(views_of(old(records)@), views_of(final (records)@)),
        forall|i: int|
            0 <= i < final (records)@.len() ==> (#[trigger] views_of(final (records)@)[i]).wf(),
{
    let ghost rs0 = views_of(records@);
    let n = records.len();
    let mut closed: Vec<Vec<EntityTypeName>> = Vec::new();
    let mut i: usize = 0;
    while i < n
        invariant
            rs0 == views_of(records@),
            wf_schema(rs0),
            n == records@.len(),
            i <= n,
            closed@.len() == i,
            forall|k: int| 0 <= k < i ==> name_views((#[trigger] closed@[k])@).no_duplicates(),
            forall|k: int, x: Seq<char>|
                0 <= k < i && #[trigger] name_views(closed@[k]@).contains(x) ==> reaches(
                    rs0,
                    rs0[k].name,
                    x,
                ),
            forall|k: int, x: Seq<char>|
                0 <= k < i && #[trigger] reaches(rs0, rs0[k].name, x) ==> name_views(
                    closed@[k]@,
                ).contains(x),
        decreases n - i,
    {
        let row = reach_from(records, i);
        closed.push(row);
        i += 1;
    }
    let mut m: usize = n;
    while m > 0
        invariant
            wf_schema(rs0),
            n == records@.len(),
            rs0.len() == n,
            closed@.len() == m,
            m <= n,
            forall|k: int| 0 <= k < m ==> views_of(records@)[k] == rs0[k],
            forall|k: int| 0 <= k < m ==> name_views((#[trigger] closed@[k])@).no_duplicates(),
            forall|k: int, x: Seq<char>|
                0 <= k < m && #[trigger] name_views(closed@[k]@).contains(x) ==> reaches(
                    rs0,
                    rs0[k].name,
                    x,
                ),
            forall|k: int, x: Seq<char>|
                0 <= k < m && #[trigger] reaches(rs0, rs0[k].name, x) ==> name_views(
                    closed@[k]@,
                ).contains(x),
            forall|k: int|
                m <= k < n ==> (#[trigger] views_of(records@)[k]).name == rs0[k].name && views_of(
                    records@,
                )[k].kind == rs0[k].kind,
            forall|k: int|
                m <= k < n ==> (#[trigger] views_of(records@)[k]).descendants.no_duplicates(),
            forall|k: int, x: Seq<char>|
                m <= k < n && #[trigger] views_of(records@)[k].descendants.contains(x) ==> reaches(
                    rs0,
                    rs0[k].name,
                    x,
                ),
            forall|k: int, x: Seq<char>|
                m <= k < n && #[trigger] reaches(rs0, rs0[k].name, x) ==> views_of(
                    records@,
                )[k].descendants.contains(x),
        decreases m,
    {
        m -= 1;
        let row = closed.pop().unwrap();
        let ghost pre_records = records@;
        records[m].descendants = row;
        proof {
            assert(records@ == pre_records.update(m as int, records@[m as int]));
            assert(views_of(records@)[m as int].descendants == name_views(row@));
            assert forall|k: int| 0 <= k < n && k != m implies views_of(records@)[k] == views_of(
                pre_records,
            )[k] by {
                assert(records@[k] == pre_records[k]);
            }
            assert(records@[m as int].name == pre_records[m as int].name);
            assert(records@[m as int].kind == pre_records[m as int].kind);
            assert(views_of(pre_records)[m as int] == rs0[m as int]);
            assert(views_of(records@)[m as int].name == rs0[m as int].name);
            assert(views_of(records@)[m as int].kind == rs0[m as int].kind);
            assert(name_views(row@).no_duplicates());
            assert forall|k: int|
                m <= k < n implies (#[trigger] views_of(records@)[k]).name == rs0[k].name
                && views_of(records@)[k].kind == rs0[k].kind by {
                if k != m {
                    assert(views_of(records@)[k] == views_of(pre_records)[k]);
                }
            }
            assert forall|k: int|
                m <= k < n implies (#[trigger] views_of(records@)[k]).descendants.no_duplicates()
                by {
                if k != m {
                    assert(views_of(records@)[k] == views_of(pre_records)[k]);
                }
            }
            assert forall|k: int, x: Seq<char>|
                m <= k < n && #[trigger] views_of(records@)[k].descendants.contains(x) implies
                reaches(rs0, rs0[k].name, x) by {
                if k == m {
                    assert(name_views(row@).contains(x));
                } else {
                    assert(views_of(records@)[k] == views_of(pre_records)[k]);
                    assert(views_of(pre_records)[k].descendants.contains(x));
                }
            }
            assert forall|k: int, x: Seq<char>|
                m <= k < n && #[trigger] reaches(rs0, rs0[k].name, x) implies views_of(
                records@,
            )[k].descendants.contains(x) by {
                if k == m {
                    assert(name_views(row@).contains(x));
                } else {
                    assert(views_of(records@)[k] == views_of(pre_records)[k]);
                    assert(views_of(pre_records)[k].descendants.contains(x));
                }
            }
        }
    }
    proof {
        assert(is_closure_of(rs0, views_of(records@)));
        assert forall|i2: int| 0 <= i2 < records@.len() implies (#[trigger] views_of(
            records@,
        )[i2]).wf() by {
            assert(rs0[i2].wf());
            assert(views_of(records@)[i2].kind == rs0[i2].kind);
        }
    }
}

/// Closure monotonicity: the pass only ever grows a descendant set — after
/// it, every record's descendant set is a superset of the set it started
/// with.
pub proof fn lemma_closure_monotone(pre: Seq<EntityTypeView>, post: Seq<EntityTypeView>)
    requires
        is_closure_of(pre, post),
    ensures
        forall|i: int, x: Seq<char>|
            0 <= i < pre.len() && #[trigger] pre[i].descendants.contains(x)
                ==> post[i].descendants.contains(x),
{
    assert forall|i: int, x: Seq<char>|
        0 <= i < pre.len() && #[trigger] pre[i].descendants.contains(x) implies post[i].descendants.contains(x) by {
        assert(has_edge(pre, pre[i].name, x));
        lemma_edge_reach(pre, pre[i].name, x);
    }
}

/// Closure transitivity: if `b` is a direct child of the record at `i` and
/// `c` is reachable from `b` before the pass, then `c` is in that record's
/// descendant set after the pass.
pub proof fn lemma_closure_transitive(
    pre: Seq<EntityTypeView>,
    post: Seq<EntityTypeView>,
    i: int,
    b: Seq<char>,
    c: Seq<char>,
)
    requires
        is_closure_of(pre, post),
        0 <= i < pre.len(),
        pre[i].descendants.contains(b),
        reaches(pre, b, c),
    ensures
        post[i].descendants.contains(c),
{
    assert(has_edge(pre, pre[i].name, b));
    lemma_edge_reach(pre, pre[i].name, b);
    lemma_reach_trans(pre, pre[i].name, b, c);
}

/// A walk through a closed graph collapses to reachability in the graph the
/// closure was taken of.
proof fn lemma_closed_path_reach(
    pre: Seq<EntityTypeView>,
    mid: Seq<EntityTypeView>,
    p: Seq<Seq<char>>,
)
    requires
        is_closure_of(pre, mid),
        is_path(mid, p),
    ensures
        reaches(pre, p.first(), p.last()),
    decreases p.len(),
{
    if p.len() == 2 {
        assert(has_edge(mid, p[0], p[1]));
        let j = choose|j: int|
            0 <= j < mid.len() && (#[trigger] mid[j]).name == p[0] && mid[j].descendants.contains(
                p[1],
            );
        assert(reaches(pre, pre[j].name, p[1]));
    } else {
        let q = p.drop_last();
        assert forall|k: int| 0 <= k < q.len() - 1 implies has_edge(mid, #[trigger] q[k], q[k + 1])
            by {
            assert(q[k] == p[k] && q[k + 1] == p[k + 1]);
            assert(has_edge(mid, p[k], p[k + 1]));
        }
        assert(is_path(mid, q));
        lemma_closed_path_reach(pre, mid, q);
        let e = p.len() - 2;
        assert(has_edge(mid, p[e], p[e + 1]));
        let j = choose|j: int|
            0 <= j < mid.len() && (#[trigger] mid[j]).name == p[e] && mid[j].descendants.contains(
                p[e + 1],
            );
        assert(reaches(pre, pre[j].name, p[e + 1]));
        lemma_reach_trans(pre, p.first(), p[e], p.last());
    }
}

/// Closure idempotence: the closure is a stable fixed point — running the
/// pass on an already-closed schema changes no descendant set.
pub proof fn lemma_closure_idempotent(
    pre: Seq<EntityTypeView>,
    mid: Seq<EntityTypeView>,
    post: Seq<EntityTypeView>,
)
    requires
        is_closure_of(pre, mid),
        is_closure_of(mid, post),
    ensures
        forall|i: int, x: Seq<char>|
            0 <= i < pre.len() && #[trigger] post[i].descendants.contains(x)
                ==> mid[i].descendants.contains(x),
        forall|i: int, x: Seq<char>|
            0 <= i < pre.len() && #[trigger] mid[i].descendants.contains(x)
                ==> post[i].descendants.contains(x),
{
    assert forall|i: int, x: Seq<char>|
        0 <= i < pre.len() && #[trigger] mid[i].descendants.contains(x) implies post[i].descendants.contains(x) by {
        assert(has_edge(mid, mid[i].name, x));
        lemma_edge_reach(mid, mid[i].name, x);
        assert(reaches(mid, mid[i].name, x));
    }
    assert forall|i: int, x: Seq<char>|
        0 <= i < pre.len() && #[trigger] post[i].descendants.contains(x) implies mid[i].descendants.contains(x) by {
        assert(reaches(mid, mid[i].name, x));
        let p = choose|p: Seq<Seq<char>>|
            is_path(mid, p) && p.first() == mid[i].name && p.last() == x;
        lemma_closed_path_reach(pre, mid, p);
        assert(reaches(pre, pre[i].name, x));
    }
}

/// The closure is a function of the input graph: two closure results of the
/// same schema hold exactly the same descendants.
pub proof fn lemma_closure_unique(
    pre: Seq<EntityTypeView>,
    post1: Seq<EntityTypeView>,
    post2: Seq<EntityTypeView>,
)
    requires
        is_closure_of(pre, post1),
        is_closure_of(pre, post2),
    ensures
        forall|i: int, x: Seq<char>|
            0 <= i < pre.len() ==> (#[trigger] post1[i].descendants.contains(x)
                <==> #[trigger] post2[i].descendants.contains(x)),
{
}

/// A sequence without duplicates whose elements all occur in another such
/// sequence is no longer than it.
proof fn lemma_unique_subset_len(a: Seq<Seq<char>>, b: Seq<Seq<char>>)
    requires
        a.no_duplicates(),
        b.no_duplicates(),
        forall|x: Seq<char>| a.contains(x) ==> b.contains(x),
    ensures
        a.len() <= b.len(),
{
    broadcast use vstd::seq_lib::group_seq_properties;

    a.unique_seq_to_set();
    b.unique_seq_to_set();
    assert(a.to_set().subset_of(b.to_set()));
    lemma_len_subset(a.to_set(), b.to_set());
}

} // verus!
