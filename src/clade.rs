use vstd::prelude::*;

use crate::id::fresh_id;
use std::cmp::Ordering;

verus! {

broadcast use vstd::std_specs::vec::group_vec_axioms;

/// Mathematical model of a taxonomy node.
pub enum Taxon {
    Branch { id: u128, name: Seq<char>, children: Seq<Taxon> },
    Leaf { id: u128, name: Seq<char> },
}

impl Taxon {
    pub open spec fn id(self) -> u128 {
        match self {
            Taxon::Branch { id, .. } => id,
            Taxon::Leaf { id, .. } => id,
        }
    }

    pub open spec fn name(self) -> Seq<char> {
        match self {
            Taxon::Branch { name, .. } => name,
            Taxon::Leaf { name, .. } => name,
        }
    }

    /// The children of a branch, in order; none for a leaf.
    pub open spec fn kids(self) -> Seq<Taxon> {
        match self {
            Taxon::Branch { children, .. } => children,
            Taxon::Leaf { .. } => Seq::empty(),
        }
    }
}

/// Whether `x` is the id of `t` or of a node below it.
pub open spec fn descends(t: Taxon, x: u128) -> bool
    decreases t, 0nat,
{
    t.id() == x || match t {
        Taxon::Branch { children, .. } => descends_from(children, 0, x),
        Taxon::Leaf { .. } => false,
    }
}

/// Whether `x` is found in one of the trees `s[i..]`.
pub open spec fn descends_from(s: Seq<Taxon>, i: int, x: u128) -> bool
    decreases s, s.len() - i,
{
    if 0 <= i < s.len() {
        descends(s[i], x) || descends_from(s, i + 1, x)
    } else {
        false
    }
}

/// The ids of the ancestors of the node with id `x`, nearest first and `t`'s
/// own id last; empty when `t` itself has id `x`; none when `x` is not in `t`.
/// The children are searched in order.
pub open spec fn path_to(t: Taxon, x: u128) -> Option<Seq<u128>>
    decreases t, 0nat,
{
    if t.id() == x {
        Some(Seq::empty())
    } else {
        match t {
            Taxon::Branch { id, children, .. } => match path_from(children, 0, x) {
                Some(p) => Some(p.push(id)),
                None => None,
            },
            Taxon::Leaf { .. } => None,
        }
    }
}

/// The path found in the first of the trees `s[i..]` that holds `x`.
pub open spec fn path_from(s: Seq<Taxon>, i: int, x: u128) -> Option<Seq<u128>>
    decreases s, s.len() - i,
{
    if 0 <= i < s.len() {
        match path_to(s[i], x) {
            Some(p) => Some(p),
            None => path_from(s, i + 1, x),
        }
    } else {
        None
    }
}

/// The first node of `t`, in pre-order, whose name is `q`.
pub open spec fn named_in(t: Taxon, q: Seq<char>) -> Option<Taxon>
    decreases t, 0nat,
{
    if t.name() == q {
        Some(t)
    } else {
        match t {
            Taxon::Branch { children, .. } => named_from(children, 0, q),
            Taxon::Leaf { .. } => None,
        }
    }
}

pub open spec fn named_from(s: Seq<Taxon>, i: int, q: Seq<char>) -> Option<Taxon>
    decreases s, s.len() - i,
{
    if 0 <= i < s.len() {
        match named_in(s[i], q) {
            Some(n) => Some(n),
            None => named_from(s, i + 1, q),
        }
    } else {
        None
    }
}

/// The first node of `t`, in pre-order, whose id is `x`.
pub open spec fn node_in(t: Taxon, x: u128) -> Option<Taxon>
    decreases t, 0nat,
{
    if t.id() == x {
        Some(t)
    } else {
        match t {
            Taxon::Branch { children, .. } => node_from(children, 0, x),
            Taxon::Leaf { .. } => None,
        }
    }
}

pub open spec fn node_from(s: Seq<Taxon>, i: int, x: u128) -> Option<Taxon>
    decreases s, s.len() - i,
{
    if 0 <= i < s.len() {
        match node_in(s[i], x) {
            Some(n) => Some(n),
            None => node_from(s, i + 1, x),
        }
    } else {
        None
    }
}

/// The order of the taxonomy: a node is greater than every node below it.
pub open spec fn taxon_cmp(a: Taxon, b: Taxon) -> Option<Ordering> {
    match (descends(a, b.id()), descends(b, a.id())) {
        (true, true) => Some(Ordering::Equal),
        (true, false) => Some(Ordering::Greater),
        (false, true) => Some(Ordering::Less),
        (false, false) => None,
    }
}

/// The nodes of `t` in pre-order: `t` first, then each child's nodes in turn.
pub open spec fn nodes(t: Taxon) -> Seq<Taxon>
    decreases t, 0nat,
{
    match t {
        Taxon::Branch { children, .. } => seq![t] + nodes_from(children, 0),
        Taxon::Leaf { .. } => seq![t],
    }
}

/// The nodes of the trees `s[i..]`, in pre-order.
pub open spec fn nodes_from(s: Seq<Taxon>, i: int) -> Seq<Taxon>
    decreases s, s.len() - i,
{
    if 0 <= i < s.len() {
        nodes(s[i]) + nodes_from(s, i + 1)
    } else {
        Seq::empty()
    }
}

/// No two nodes of `t` share an id.
pub open spec fn unique_ids(t: Taxon) -> bool {
    forall|i: int, j: int|
        0 <= i < j < nodes(t).len() ==> (#[trigger] nodes(t)[i]).id() != (#[trigger] nodes(
            t,
        )[j]).id()
}

/// Whether some node of `s` has id `x`.
pub open spec fn has_id(s: Seq<Taxon>, x: u128) -> bool {
    exists|i: int| 0 <= i < s.len() && (#[trigger] s[i]).id() == x
}

/// The first node of `s` named `q`.
pub open spec fn first_named(s: Seq<Taxon>, q: Seq<char>) -> Option<Taxon>
    decreases s.len(),
{
    if s.len() == 0 {
        None
    } else if s[0].name() == q {
        Some(s[0])
    } else {
        first_named(s.subrange(1, s.len() as int), q)
    }
}

proof fn lemma_first_named_concat(a: Seq<Taxon>, b: Seq<Taxon>, q: Seq<char>)
    ensures
        first_named(a + b, q) == match first_named(a, q) {
            Some(n) => Some(n),
            None => first_named(b, q),
        },
    decreases a.len(),
{
    if a.len() > 0 {
        assert((a + b).subrange(1, (a + b).len() as int) =~= a.subrange(1, a.len() as int) + b);
        lemma_first_named_concat(a.subrange(1, a.len() as int), b, q);
    } else {
        assert(a + b =~= b);
    }
}

proof fn lemma_has_id_concat(a: Seq<Taxon>, b: Seq<Taxon>, x: u128)
    ensures
        has_id(a + b, x) == (has_id(a, x) || has_id(b, x)),
{
    if has_id(a + b, x) {
        let i = choose|i: int| 0 <= i < (a + b).len() && (#[trigger] (a + b)[i]).id() == x;
        if i >= a.len() {
            assert(b[i - a.len()] == (a + b)[i]);
        }
    }
    if has_id(b, x) {
        let i = choose|i: int| 0 <= i < b.len() && (#[trigger] b[i]).id() == x;
        assert((a + b)[i + a.len()] == b[i]);
    }
    if has_id(a, x) {
        let i = choose|i: int| 0 <= i < a.len() && (#[trigger] a[i]).id() == x;
        assert((a + b)[i] == a[i]);
    }
}

/// `descends` holds of exactly the ids of the nodes of the tree.
pub proof fn lemma_descends_nodes(t: Taxon, x: u128)
    ensures
        descends(t, x) == has_id(nodes(t), x),
    decreases t, 0nat,
{
    match t {
        Taxon::Branch { children, .. } => {
            lemma_descends_nodes_from(children, 0, x);
            lemma_has_id_concat(seq![t], nodes_from(children, 0), x);
            assert(has_id(seq![t], x) == (t.id() == x)) by {
                if t.id() == x {
                    assert(seq![t][0].id() == x);
                }
            }
        },
        Taxon::Leaf { .. } => {
            assert(has_id(seq![t], x) == (t.id() == x)) by {
                if t.id() == x {
                    assert(seq![t][0].id() == x);
                }
            }
        },
    }
}

proof fn lemma_descends_nodes_from(s: Seq<Taxon>, i: int, x: u128)
    ensures
        descends_from(s, i, x) == has_id(nodes_from(s, i), x),
    decreases s, s.len() - i,
{
    if 0 <= i < s.len() {
        lemma_descends_nodes(s[i], x);
        lemma_descends_nodes_from(s, i + 1, x);
        lemma_has_id_concat(nodes(s[i]), nodes_from(s, i + 1), x);
    }
}

/// When the nodes of the trees `s[i..]` hold `a`, one of those trees holds it.
proof fn lemma_nodes_from_member(s: Seq<Taxon>, i: int, a: Taxon)
    requires
        nodes_from(s, i).contains(a),
    ensures
        exists|j: int| i <= j < s.len() && (#[trigger] nodes(s[j])).contains(a),
    decreases s.len() - i,
{
    if 0 <= i < s.len() {
        let k = choose|k: int| 0 <= k < nodes_from(s, i).len() && (#[trigger] nodes_from(s, i)[k]) == a;
        if k < nodes(s[i]).len() {
            assert(nodes(s[i])[k] == a);
        } else {
            assert(nodes_from(s, i + 1)[k - nodes(s[i]).len()] == a);
            lemma_nodes_from_member(s, i + 1, a);
        }
    }
}

/// Every node of `s[j]` is among the nodes of `s[i..]`, for `i <= j`, and
/// `s[j]` has no more nodes than they have.
proof fn lemma_nodes_from_covers(s: Seq<Taxon>, i: int, j: int)
    requires
        0 <= i <= j < s.len(),
    ensures
        forall|n: Taxon| nodes(s[j]).contains(n) ==> #[trigger] nodes_from(s, i).contains(n),
        nodes(s[j]).len() <= nodes_from(s, i).len(),
    decreases j - i,
{
    if i < j {
        lemma_nodes_from_covers(s, i + 1, j);
        assert(nodes_from(s, i) == nodes(s[i]) + nodes_from(s, i + 1));
        assert forall|n: Taxon| nodes(s[j]).contains(n) implies #[trigger] nodes_from(
            s,
            i,
        ).contains(n) by {
            assert(nodes_from(s, i + 1).contains(n));
            let k = choose|k: int|
                0 <= k < nodes_from(s, i + 1).len() && (#[trigger] nodes_from(s, i + 1)[k]) == n;
            assert(nodes_from(s, i)[k + nodes(s[i]).len()] == n);
        }
    } else {
        assert forall|n: Taxon| nodes(s[j]).contains(n) implies #[trigger] nodes_from(
            s,
            i,
        ).contains(n) by {
            let k = choose|k: int| 0 <= k < nodes(s[j]).len() && (#[trigger] nodes(s[j])[k]) == n;
            assert(nodes_from(s, i)[k] == n);
        }
    }
}

/// A node of `r` has its nodes among those of `r`, and fewer of them unless
/// it is `r` itself.
pub proof fn lemma_member(r: Taxon, a: Taxon)
    requires
        nodes(r).contains(a),
    ensures
        forall|n: Taxon| nodes(a).contains(n) ==> #[trigger] nodes(r).contains(n),
        nodes(a).len() <= nodes(r).len(),
        a != r ==> nodes(a).len() < nodes(r).len(),
    decreases r,
{
    if a != r {
        let k = choose|k: int| 0 <= k < nodes(r).len() && (#[trigger] nodes(r)[k]) == a;
        match r {
            Taxon::Branch { children, .. } => {
                assert(k != 0);
                assert(nodes_from(children, 0)[k - 1] == a);
                lemma_nodes_from_member(children, 0, a);
                let j = choose|j: int| 0 <= j < children.len() && (#[trigger] nodes(
                    children[j],
                )).contains(a);
                lemma_member(children[j], a);
                lemma_nodes_from_covers(children, 0, j);
                assert forall|n: Taxon| nodes(a).contains(n) implies #[trigger] nodes(r).contains(
                    n,
                ) by {
                    assert(nodes(children[j]).contains(n));
                    assert(nodes_from(children, 0).contains(n));
                    let m = choose|m: int| 0 <= m < nodes_from(children, 0).len() && (#[trigger] nodes_from(
                        children,
                        0,
                    )[m]) == n;
                    assert(nodes(r)[m + 1] == n);
                }
            },
            Taxon::Leaf { .. } => {
                assert(nodes(r)[k] == r);
            },
        }
    } else {
        assert forall|n: Taxon| nodes(a).contains(n) implies #[trigger] nodes(r).contains(n) by {}
    }
}

/// In a tree whose ids are unique, a node of the tree that descends from
/// another node of it by id lies below it.
proof fn lemma_found_below(root: Taxon, a: Taxon, b: Taxon)
    requires
        unique_ids(root),
        nodes(root).contains(a),
        nodes(root).contains(b),
        descends(a, b.id()),
    ensures
        nodes(a).contains(b),
{
    lemma_descends_nodes(a, b.id());
    let i = choose|i: int| 0 <= i < nodes(a).len() && (#[trigger] nodes(a)[i]).id() == b.id();
    let n = nodes(a)[i];
    lemma_member(root, a);
    assert(nodes(root).contains(n));
    let p = choose|p: int| 0 <= p < nodes(root).len() && (#[trigger] nodes(root)[p]) == n;
    let q = choose|q: int| 0 <= q < nodes(root).len() && (#[trigger] nodes(root)[q]) == b;
    if p < q {
        assert(nodes(root)[p].id() != nodes(root)[q].id());
    } else if q < p {
        assert(nodes(root)[q].id() != nodes(root)[p].id());
    }
    assert(n == b);
}

/// Every clade descends from itself, equals itself, and compares equal to
/// itself.
pub proof fn lemma_descends_self(c: Clade)
    ensures
        descends(c@, c@.id()),
        vstd::std_specs::cmp::PartialEqSpec::eq_spec(&c, &c),
        taxon_cmp(c@, c@) == Some(Ordering::Equal),
{
}

/// Of two distinct nodes of one tree with unique ids, at most one descends
/// from the other.
pub proof fn lemma_descends_antisymmetric(root: Taxon, a: Taxon, b: Taxon)
    requires
        unique_ids(root),
        nodes(root).contains(a),
        nodes(root).contains(b),
        a.id() != b.id(),
    ensures
        !(descends(a, b.id()) && descends(b, a.id())),
{
    if descends(a, b.id()) && descends(b, a.id()) {
        lemma_found_below(root, a, b);
        lemma_found_below(root, b, a);
        lemma_member(a, b);
        lemma_member(b, a);
    }
}

/// Among the nodes of one tree with unique ids, descent is transitive.
pub proof fn lemma_descends_transitive(root: Taxon, a: Taxon, b: Taxon, c: Taxon)
    requires
        unique_ids(root),
        nodes(root).contains(a),
        nodes(root).contains(b),
        descends(a, b.id()),
        descends(b, c.id()),
    ensures
        descends(a, c.id()),
{
    lemma_found_below(root, a, b);
    lemma_member(a, b);
    lemma_descends_nodes(b, c.id());
    let i = choose|i: int| 0 <= i < nodes(b).len() && (#[trigger] nodes(b)[i]).id() == c.id();
    assert(nodes(a).contains(nodes(b)[i]));
    let k = choose|k: int| 0 <= k < nodes(a).len() && (#[trigger] nodes(a)[k]) == nodes(b)[i];
    lemma_descends_nodes(a, c.id());
    assert(nodes(a)[k].id() == c.id());
}

/// Two clades whose subtrees share no id are incomparable.
pub proof fn lemma_disjoint_incomparable(a: Taxon, b: Taxon)
    requires
        forall|i: int, j: int|
            0 <= i < nodes(a).len() && 0 <= j < nodes(b).len() ==> (#[trigger] nodes(a)[i]).id()
                != (#[trigger] nodes(b)[j]).id(),
    ensures
        taxon_cmp(a, b) is None,
{
    lemma_descends_nodes(a, b.id());
    lemma_descends_nodes(b, a.id());
    assert(nodes(a)[0] == a);
    assert(nodes(b)[0] == b);
    if has_id(nodes(a), b.id()) {
        let i = choose|i: int| 0 <= i < nodes(a).len() && (#[trigger] nodes(a)[i]).id() == b.id();
        assert(nodes(a)[i].id() != nodes(b)[0].id());
    }
    if has_id(nodes(b), a.id()) {
        let j = choose|j: int| 0 <= j < nodes(b).len() && (#[trigger] nodes(b)[j]).id() == a.id();
        assert(nodes(a)[0].id() != nodes(b)[j].id());
    }
}

/// A query by name finds the first node of the tree, in pre-order, that has
/// the name: a node before its children, children from left to right.
pub proof fn lemma_query_first_in_preorder(t: Taxon, q: Seq<char>)
    ensures
        named_in(t, q) == first_named(nodes(t), q),
    decreases t, 0nat,
{
    match t {
        Taxon::Branch { children, .. } => {
            lemma_query_first_from(children, 0, q);
            lemma_first_named_concat(seq![t], nodes_from(children, 0), q);
            assert(seq![t].subrange(1, 1) =~= Seq::<Taxon>::empty());
            assert(first_named(Seq::<Taxon>::empty(), q) is None);
        },
        Taxon::Leaf { .. } => {
            assert(seq![t].subrange(1, 1) =~= Seq::<Taxon>::empty());
            assert(first_named(Seq::<Taxon>::empty(), q) is None);
        },
    }
}

proof fn lemma_query_first_from(s: Seq<Taxon>, i: int, q: Seq<char>)
    ensures
        named_from(s, i, q) == first_named(nodes_from(s, i), q),
    decreases s, s.len() - i,
{
    if 0 <= i < s.len() {
        lemma_query_first_in_preorder(s[i], q);
        lemma_query_first_from(s, i + 1, q);
        lemma_first_named_concat(nodes(s[i]), nodes_from(s, i + 1), q);
    }
}

/// Whether some node of `t` with id `p` has a child with id `c`.
pub open spec fn is_parent(t: Taxon, p: u128, c: u128) -> bool {
    exists|n: Taxon|
        #[trigger] nodes(t).contains(n) && n.id() == p && exists|j: int|
            0 <= j < n.kids().len() && (#[trigger] n.kids()[j]).id() == c
}

/// The nodes of a child are among the nodes of its parent.
proof fn lemma_child_nodes(t: Taxon, j: int)
    requires
        0 <= j < t.kids().len(),
    ensures
        forall|n: Taxon| nodes(t.kids()[j]).contains(n) ==> #[trigger] nodes(t).contains(n),
{
    let kids = t.kids();
    lemma_nodes_from_covers(kids, 0, j);
    assert forall|n: Taxon| nodes(kids[j]).contains(n) implies #[trigger] nodes(t).contains(n) by {
        assert(nodes_from(kids, 0).contains(n));
        let m = choose|m: int|
            0 <= m < nodes_from(kids, 0).len() && (#[trigger] nodes_from(kids, 0)[m]) == n;
        assert(nodes(t)[m + 1] == n);
    }
}

proof fn lemma_path_from_found(s: Seq<Taxon>, i: int, x: u128)
    requires
        path_from(s, i, x) is Some,
    ensures
        exists|j: int| i <= j < s.len() && #[trigger] path_to(s[j], x) == path_from(s, i, x),
    decreases s.len() - i,
{
    if 0 <= i < s.len() {
        if path_to(s[i], x) is None {
            lemma_path_from_found(s, i + 1, x);
        }
    }
}

/// The ancestry of `x` in `t` is a chain of parents: its first id is the
/// parent of the node with id `x`, and each later id the parent of the one
/// before it.
pub proof fn lemma_parentage_chain(t: Taxon, x: u128)
    requires
        path_to(t, x) is Some,
    ensures
        path_to(t, x)->0.len() > 0 ==> is_parent(t, path_to(t, x)->0[0], x),
        forall|k: int|
            0 <= k < path_to(t, x)->0.len() - 1 ==> is_parent(
                t,
                #[trigger] path_to(t, x)->0[k + 1],
                path_to(t, x)->0[k],
            ),
    decreases t,
{
    if t.id() != x {
        let kids = t.kids();
        lemma_path_from_found(kids, 0, x);
        let j = choose|j: int| 0 <= j < kids.len() && #[trigger] path_to(kids[j], x) == path_from(
            kids,
            0,
            x,
        );
        let q = path_to(kids[j], x)->0;
        let p = path_to(t, x)->0;
        assert(p == q.push(t.id()));
        assert(nodes(t)[0] == t);
        assert(nodes(t).contains(t));
        lemma_child_nodes(t, j);
        lemma_parentage(kids[j], x);
        if q.len() == 0 {
            assert(kids[j].id() == x);
            assert(is_parent(t, p[0], x));
        } else {
            lemma_parentage_chain(kids[j], x);
            let n0 = choose|n: Taxon|
                #[trigger] nodes(kids[j]).contains(n) && n.id() == q[0] && exists|i: int|
                    0 <= i < n.kids().len() && (#[trigger] n.kids()[i]).id() == x;
            assert(nodes(t).contains(n0));
            assert(is_parent(t, p[0], x));
            assert forall|k: int| 0 <= k < p.len() - 1 implies is_parent(
                t,
                #[trigger] p[k + 1],
                p[k],
            ) by {
                if k < q.len() - 1 {
                    assert(is_parent(kids[j], q[k + 1], q[k]));
                    let n = choose|n: Taxon|
                        #[trigger] nodes(kids[j]).contains(n) && n.id() == q[k + 1] && exists|i: int|
                            0 <= i < n.kids().len() && (#[trigger] n.kids()[i]).id() == q[k];
                    assert(nodes(t).contains(n));
                    assert(p[k + 1] == q[k + 1] && p[k] == q[k]);
                } else {
                    assert(p[k + 1] == t.id());
                    assert(p[k] == q.last());
                    assert(t.kids()[j].id() == q.last());
                }
            }
        }
    }
}

/// The ancestry of `x` in `t` exists exactly when `x` is in `t`; it is empty
/// exactly when `x` is `t`'s own id, and otherwise ends with `t`'s id.
pub proof fn lemma_parentage(t: Taxon, x: u128)
    ensures
        path_to(t, x) is Some == descends(t, x),
        path_to(t, x) is Some ==> (path_to(t, x)->0.len() == 0 <==> t.id() == x),
        path_to(t, x) is Some && t.id() != x ==> path_to(t, x)->0.last() == t.id(),
    decreases t, 0nat,
{
    match t {
        Taxon::Branch { children, .. } => {
            lemma_parentage_from(children, 0, x);
        },
        Taxon::Leaf { .. } => {},
    }
}

proof fn lemma_parentage_from(s: Seq<Taxon>, i: int, x: u128)
    ensures
        path_from(s, i, x) is Some == descends_from(s, i, x),
    decreases s, s.len() - i,
{
    if 0 <= i < s.len() {
        lemma_parentage(s[i], x);
        lemma_parentage_from(s, i + 1, x);
    }
}

/// A node of a taxonomy tree: a branch with ordered children, or a leaf.
#[derive(Debug)]
pub enum Clade {
    Branch { uuid: u128, name: String, children: Vec<Clade> },
    Leaf { uuid: u128, name: String },
}

impl View for Clade {
    type V = Taxon;

    open spec fn view(&self) -> Taxon {
        clade_view(*self)
    }
}

/// The model of a clade.
pub open spec fn clade_view(c: Clade) -> Taxon
    decreases c,
{
    match c {
        Clade::Branch { uuid, name, children } => Taxon::Branch {
            id: uuid,
            name: name@,
            children: forest_view(children@),
        },
        Clade::Leaf { uuid, name } => Taxon::Leaf { id: uuid, name: name@ },
    }
}

/// The models of a sequence of clades, in order.
pub open spec fn forest_view(s: Seq<Clade>) -> Seq<Taxon>
    decreases s,
{
    if s.len() == 0 {
        Seq::empty()
    } else {
        seq![clade_view(s[0])] + forest_view(s.subrange(1, s.len() as int))
    }
}

pub proof fn lemma_forest_view(s: Seq<Clade>)
    ensures
        forest_view(s).len() == s.len(),
        forall|i: int| 0 <= i < s.len() ==> #[trigger] forest_view(s)[i] == s[i]@,
    decreases s.len(),
{
    if s.len() > 0 {
        lemma_forest_view(s.subrange(1, s.len() as int));
    }
}

impl Clade {
    /// A leaf when `children` is absent, else a branch; the id is fresh.
    pub fn new(name: String, children: Option<Vec<Clade>>) -> (r: Clade)
        ensures
            r@.name() == name@,
            match children {
                Some(c) => r is Branch && r->Branch_children == c,
                None => r is Leaf,
            },
    {
        match children {
            Some(c) => Clade::Branch { uuid: fresh_id(), name, children: c },
            None => Clade::Leaf { uuid: fresh_id(), name },
        }
    }

    pub fn id(&self) -> (r: u128)
        ensures
            r == self@.id(),
    {
        match self {
            Clade::Branch { uuid, .. } => *uuid,
            Clade::Leaf { uuid, .. } => *uuid,
        }
    }

    pub fn name(&self) -> (r: String)
        ensures
            r@ == self@.name(),
    {
        match self {
            Clade::Branch { name, .. } => name.clone(),
            Clade::Leaf { name, .. } => name.clone(),
        }
    }

    /// The children of a branch; none for a leaf.
    pub fn children(&self) -> (r: Option<&Vec<Clade>>)
        ensures
            match r {
                Some(c) => self is Branch && *c == self->Branch_children && forest_view(c@)
                    == self@.kids(),
                None => self is Leaf,
            },
    {
        match self {
            Clade::Branch { children, .. } => Some(children),
            Clade::Leaf { .. } => None,
        }
    }

    /// Whether `uuid` is the id of this node or of a node below it.
    pub fn descendent(&self, uuid: &u128) -> (r: bool)
        ensures
            r == descends(self@, *uuid),
        decreases self,
    {
        match self {
            Clade::Branch { uuid: u, children, .. } => {
                if *u == *uuid {
                    return true;
                }
                let ghost kids = self@.kids();
                proof {
                    lemma_forest_view(children@);
                }
                let n = children.len();
                let mut i: usize = 0;
                while i < n
                    invariant
                        i <= n,
                        n == children.len(),
                        *self is Branch,
                        self->Branch_children == *children,
                        kids == forest_view(children@),
                        kids.len() == n,
                        forall|j: int| 0 <= j < n ==> kids[j] == (#[trigger] children@[j])@,
                        descends(self@, *uuid) == descends_from(kids, i as int, *uuid),
                    decreases n - i,
                {
                    let c: &Clade = &children[i];
                    proof {
                        assert(decreases_to!(*self => *children));
                        assert(decreases_to!(children => children@));
                        assert(decreases_to!(children@ => children@[i as int]));
                    }
                    if c.descendent(uuid) {
                        return true;
                    }
                    i = i + 1;
                }
                false
            },
            Clade::Leaf { uuid: u, .. } => *u == *uuid,
        }
    }

    /// The ids of the ancestors of the node with id `uuid`, nearest first and
    /// this node's id last; empty when this node has that id; none when no
    /// node below has it.
    pub fn parentage(&self, uuid: &u128) -> (r: Option<Vec<u128>>)
        ensures
            match r {
                Some(p) => path_to(self@, *uuid) == Some(p@),
                None => path_to(self@, *uuid) is None,
            },
        decreases self,
    {
        match self {
            Clade::Branch { uuid: u, children, .. } => {
                if *u == *uuid {
                    return Some(Vec::new());
                }
                let ghost kids = self@.kids();
                proof {
                    lemma_forest_view(children@);
                }
                let n = children.len();
                let mut i: usize = 0;
                while i < n
                    invariant
                        i <= n,
                        n == children.len(),
                        *self is Branch,
                        self->Branch_children == *children,
                        *u == self@.id(),
                        *u != *uuid,
                        kids == forest_view(children@),
                        kids.len() == n,
                        forall|j: int| 0 <= j < n ==> kids[j] == (#[trigger] children@[j])@,
                        path_from(kids, 0, *uuid) == path_from(kids, i as int, *uuid),
                    decreases n - i,
                {
                    let c: &Clade = &children[i];
                    proof {
                        assert(decreases_to!(*self => *children));
                        assert(decreases_to!(children => children@));
                        assert(decreases_to!(children@ => children@[i as int]));
                    }
                    match c.parentage(uuid) {
                        Some(p) => {
                            let mut p = p;
                            p.push(*u);
                            return Some(p);
                        },
                        None => {},
                    }
                    i = i + 1;
                }
                None
            },
            Clade::Leaf { uuid: u, .. } => {
                if *u == *uuid {
                    Some(Vec::new())
                } else {
                    None
                }
            },
        }
    }

    /// The id of the first node, in pre-order, named `name_query`.
    pub fn query(&self, name_query: &String) -> (r: Option<u128>)
        ensures
            match r {
                Some(x) => named_in(self@, name_query@) is Some && x == named_in(
                    self@,
                    name_query@,
                )->0.id(),
                None => named_in(self@, name_query@) is None,
            },
        decreases self,
    {
        match self {
            Clade::Branch { uuid, name, children } => {
                if *name_query == *name {
                    return Some(*uuid);
                }
                let ghost kids = self@.kids();
                proof {
                    lemma_forest_view(children@);
                }
                let n = children.len();
                let mut i: usize = 0;
                while i < n
                    invariant
                        i <= n,
                        n == children.len(),
                        *self is Branch,
                        self->Branch_children == *children,
                        self@.name() != name_query@,
                        kids == forest_view(children@),
                        kids.len() == n,
                        forall|j: int| 0 <= j < n ==> kids[j] == (#[trigger] children@[j])@,
                        named_from(kids, 0, name_query@) == named_from(kids, i as int, name_query@),
                    decreases n - i,
                {
                    let c: &Clade = &children[i];
                    proof {
                        assert(decreases_to!(*self => *children));
                        assert(decreases_to!(children => children@));
                        assert(decreases_to!(children@ => children@[i as int]));
                    }
                    match c.query(name_query) {
                        Some(x) => {
                            return Some(x);
                        },
                        None => {},
                    }
                    i = i + 1;
                }
                None
            },
            Clade::Leaf { uuid, name } => {
                if *name_query == *name {
                    Some(*uuid)
                } else {
                    None
                }
            },
        }
    }

    /// A copy of the subtree whose root has id `id`, the first in pre-order.
    pub fn get(&self, id: &u128) -> (r: Option<Clade>)
        ensures
            match r {
                Some(c) => node_in(self@, *id) == Some(c@),
                None => node_in(self@, *id) is None,
            },
        decreases self,
    {
        match self {
            Clade::Branch { uuid, children, .. } => {
                if *uuid == *id {
                    return Some(self.clone());
                }
                let ghost kids = self@.kids();
                proof {
                    lemma_forest_view(children@);
                }
                let n = children.len();
                let mut i: usize = 0;
                while i < n
                    invariant
                        i <= n,
                        n == children.len(),
                        *self is Branch,
                        self->Branch_children == *children,
                        self@.id() != *id,
                        kids == forest_view(children@),
                        kids.len() == n,
                        forall|j: int| 0 <= j < n ==> kids[j] == (#[trigger] children@[j])@,
                        node_from(kids, 0, *id) == node_from(kids, i as int, *id),
                    decreases n - i,
                {
                    let c: &Clade = &children[i];
                    proof {
                        assert(decreases_to!(*self => *children));
                        assert(decreases_to!(children => children@));
                        assert(decreases_to!(children@ => children@[i as int]));
                    }
                    match c.get(id) {
                        Some(t) => {
                            return Some(t);
                        },
                        None => {},
                    }
                    i = i + 1;
                }
                None
            },
            Clade::Leaf { uuid, .. } => {
                if *uuid == *id {
                    Some(self.clone())
                } else {
                    None
                }
            },
        }
    }
}

impl PartialEq for Clade {
    /// Clades are equal when their ids are.
    fn eq(&self, other: &Self) -> (r: bool) {
        self.id() == other.id()
    }
}

impl vstd::std_specs::cmp::PartialEqSpecImpl for Clade {
    open spec fn obeys_eq_spec() -> bool {
        true
    }

    open spec fn eq_spec(&self, other: &Clade) -> bool {
        self@.id() == other@.id()
    }
}

impl PartialOrd for Clade {
    /// Greater when `other` lies below this node, less when this node lies
    /// below `other`, equal when both hold, and no order otherwise.
    fn partial_cmp(&self, other: &Self) -> (r: Option<Ordering>) {
        match (self.descendent(&other.id()), other.descendent(&self.id())) {
            (true, true) => Some(Ordering::Equal),
            (true, false) => Some(Ordering::Greater),
            (false, true) => Some(Ordering::Less),
            (false, false) => None,
        }
    }
}

impl vstd::std_specs::cmp::PartialOrdSpecImpl for Clade {
    open spec fn obeys_partial_cmp_spec() -> bool {
        true
    }

    open spec fn partial_cmp_spec(&self, other: &Clade) -> Option<Ordering> {
        taxon_cmp(self@, other@)
    }
}

impl Clone for Clade {
    fn clone(&self) -> (r: Self)
        ensures
            r@ == self@,
        decreases self,
    {
        match self {
            Clade::Branch { uuid, name, children } => {
                let mut copies: Vec<Clade> = Vec::new();
                let n = children.len();
                for i in 0..n
                    invariant
                        n == children.len(),
                        *self is Branch,
                        self->Branch_children == *children,
                        copies.len() == i,
                        forall|j: int| 0 <= j < i ==> (#[trigger] copies@[j])@ == children@[j]@,
                {
                    let c: &Clade = &children[i];
                    proof {
                        assert(*c == children@[i as int]);
                        assert(decreases_to!(children@ => children@[i as int]));
                        assert(decreases_to!(*self => *children));
                        assert(decreases_to!(children => children@));
                    }
                    copies.push(c.clone());
                }
                let r = Clade::Branch { uuid: *uuid, name: name.clone(), children: copies };
                proof {
                    lemma_forest_view(copies@);
                    lemma_forest_view(children@);
                    assert(forest_view(copies@) =~= forest_view(children@));
                }
                r
            },
            Clade::Leaf { uuid, name } => Clade::Leaf { uuid: *uuid, name: name.clone() },
        }
    }
}

} // verus!
