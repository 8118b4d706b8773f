//! The structured configuration tree and the merge pass over it.
//!
//! One tree type serves both the JSON-like configuration descriptor and the
//! YAML-like compose descriptor: both passes use the identical conflict
//! policy. A tree is modelled in specifications by `NodeV`, whose mappings
//! are association lists in insertion order; numbers carry their canonical
//! text rendering, so no floating point stands in the library.

use vstd::prelude::*;

verus! {

/// A structured configuration value.
#[derive(Debug)]
pub enum Node {
    /// The null scalar.
    Null,
    /// A boolean scalar.
    Bool(bool),
    /// A number, held as its canonical text rendering.
    Num(String),
    /// A text scalar.
    Str(String),
    /// A sequence of values.
    Arr(Vec<Node>),
    /// A mapping, as key/value pairs in insertion order.
    Obj(Vec<(String, Node)>),
}

/// The mathematical model of a `Node`.
pub enum NodeV {
    /// The null scalar.
    Null,
    /// A boolean scalar.
    Bool(bool),
    /// A number, as the characters of its canonical rendering.
    Num(Seq<char>),
    /// A text scalar.
    Str(Seq<char>),
    /// A sequence of values.
    Arr(Seq<NodeV>),
    /// A mapping, as key/value pairs in insertion order.
    Obj(Seq<(Seq<char>, NodeV)>),
}

/// The model of a tree: deep views of every string and vector.
pub open spec fn node_view(n: Node) -> NodeV
    decreases n,
{
    match n {
        Node::Null => NodeV::Null,
        Node::Bool(b) => NodeV::Bool(b),
        Node::Num(s) => NodeV::Num(s@),
        Node::Str(s) => NodeV::Str(s@),
        Node::Arr(v) => NodeV::Arr(nodes_view(v@)),
        Node::Obj(v) => NodeV::Obj(entries_view(v@)),
    }
}

/// The models of a sequence of trees, elementwise.
pub open spec fn nodes_view(v: Seq<Node>) -> Seq<NodeV>
    decreases v,
{
    if v.len() == 0 {
        Seq::empty()
    } else {
        seq![node_view(v[0])] + nodes_view(v.drop_first())
    }
}

/// The models of a sequence of mapping entries, elementwise.
pub open spec fn entries_view(v: Seq<(String, Node)>) -> Seq<(Seq<char>, NodeV)>
    decreases v,
{
    if v.len() == 0 {
        Seq::empty()
    } else {
        seq![(v[0].0@, node_view(v[0].1))] + entries_view(v.drop_first())
    }
}

/// `nodes_view` keeps the length and maps each element through `node_view`.
pub broadcast proof fn lemma_nodes_view(v: Seq<Node>)
    ensures
        (#[trigger] nodes_view(v)).len() == v.len(),
        forall|i: int| 0 <= i < v.len() ==> nodes_view(v)[i] == node_view(v[i]),
    decreases v.len(),
{
    if v.len() > 0 {
        lemma_nodes_view(v.drop_first());
        assert forall|i: int| 0 <= i < v.len() implies nodes_view(v)[i] == node_view(v[i]) by {
            if i > 0 {
                assert(nodes_view(v)[i] == nodes_view(v.drop_first())[i - 1]);
                assert(v.drop_first()[i - 1] == v[i]);
            }
        }
    }
}

/// `entries_view` keeps the length and maps each entry through the views.
pub broadcast proof fn lemma_entries_view(v: Seq<(String, Node)>)
    ensures
        (#[trigger] entries_view(v)).len() == v.len(),
        forall|i: int|
            0 <= i < v.len() ==> entries_view(v)[i] == (v[i].0@, node_view(v[i].1)),
    decreases v.len(),
{
    if v.len() > 0 {
        lemma_entries_view(v.drop_first());
        assert forall|i: int|
            0 <= i < v.len() implies entries_view(v)[i] == (v[i].0@, node_view(v[i].1)) by {
            if i > 0 {
                assert(entries_view(v)[i] == entries_view(v.drop_first())[i - 1]);
                assert(v.drop_first()[i - 1] == v[i]);
            }
        }
    }
}

impl View for Node {
    type V = NodeV;

    open spec fn view(&self) -> NodeV {
        node_view(*self)
    }
}

/// Structural equality of two trees, decided recursively.
#[verifier::rlimit(60)]
pub fn node_equal(a: &Node, b: &Node) -> (r: bool)
    ensures
        r == (a@ == b@),
    decreases *a,
{
    broadcast use lemma_nodes_view, lemma_entries_view;

    match (a, b) {
        (Node::Null, Node::Null) => {
            proof {
                assert(*a == Node::Null);
                assert(*b == Node::Null);
                assert(node_view(*a) == NodeV::Null);
                assert(node_view(*b) == NodeV::Null);
                assert(a@ == b@);
            }
            return true;
        },
        (Node::Bool(x), Node::Bool(y)) => {
            proof {
                assert(*a == Node::Bool(*x));
                assert(*b == Node::Bool(*y));
                assert((a@ == b@) == (*x == *y));
            }
            return *x == *y;
        },
        (Node::Num(x), Node::Num(y)) => {
            proof {
                assert(*a == Node::Num(*x));
                assert(*b == Node::Num(*y));
                assert((a@ == b@) == (x@ == y@));
            }
            return x.eq(y);
        },
        (Node::Str(x), Node::Str(y)) => {
            proof {
                assert(*a == Node::Str(*x));
                assert(*b == Node::Str(*y));
                assert((a@ == b@) == (x@ == y@));
            }
            return x.eq(y);
        },
        (Node::Arr(x), Node::Arr(y)) => {
            if x.len() != y.len() {
                proof {
                    assert(a@ == NodeV::Arr(nodes_view(x@)));
                    assert(b@ == NodeV::Arr(nodes_view(y@)));
                    assert(nodes_view(x@).len() != nodes_view(y@).len());
                }
                return false;
            }
            let mut i: usize = 0;
            while i < x.len()
                invariant
                    0 <= i <= x@.len(),
                    x@.len() == y@.len(),
                    a is Arr && a->Arr_0 == *x,
                    b is Arr && b->Arr_0 == *y,
                    forall|j: int| 0 <= j < i ==> node_view(x@[j]) == node_view(y@[j]),
                decreases x@.len() - i,
            {
                if !node_equal(&x[i], &y[i]) {
                    proof {
                        broadcast use lemma_nodes_view;

                        assert(nodes_view(x@)[i as int] != nodes_view(y@)[i as int]);
                    }
                    return false;
                }
                i += 1;
            }
            proof {
                broadcast use lemma_nodes_view;

                assert(nodes_view(x@) =~= nodes_view(y@));
                assert(a@ == b@);
            }
            return true;
        },
        (Node::Obj(x), Node::Obj(y)) => {
            if x.len() != y.len() {
                proof {
                    assert(a@ == NodeV::Obj(entries_view(x@)));
                    assert(b@ == NodeV::Obj(entries_view(y@)));
                    assert(entries_view(x@).len() != entries_view(y@).len());
                }
                return false;
            }
            let mut i: usize = 0;
            while i < x.len()
                invariant
                    0 <= i <= x@.len(),
                    x@.len() == y@.len(),
                    a is Obj && a->Obj_0 == *x,
                    b is Obj && b->Obj_0 == *y,
                    forall|j: int|
                        0 <= j < i ==> x@[j].0@ == y@[j].0@ && node_view(x@[j].1) == node_view(
                            y@[j].1,
                        ),
                decreases x@.len() - i,
            {
                let keys_eq = crate::names::str_eq(x[i].0.as_str(), y[i].0.as_str());
                if !keys_eq {
                    proof {
                        broadcast use lemma_entries_view;

                        assert(entries_view(x@)[i as int].0 != entries_view(y@)[i as int].0);
                    }
                    return false;
                }
                if !node_equal(&x[i].1, &y[i].1) {
                    proof {
                        broadcast use lemma_entries_view;

                        assert(entries_view(x@)[i as int].1 != entries_view(y@)[i as int].1);
                    }
                    return false;
                }
                i += 1;
            }
            proof {
                broadcast use lemma_entries_view;

                assert(entries_view(x@) =~= entries_view(y@));
                assert(a@ == b@);
            }
            return true;
        },
        _ => {
            proof {
                match (a, b) {
                    (Node::Null, Node::Null) => {},
                    (Node::Bool(_), Node::Bool(_)) => {},
                    (Node::Num(_), Node::Num(_)) => {},
                    (Node::Str(_), Node::Str(_)) => {},
                    (Node::Arr(_), Node::Arr(_)) => {},
                    (Node::Obj(_), Node::Obj(_)) => {},
                    _ => {
                        assert(a@ != b@);
                    },
                }
                assert(a@ != b@);
            }
            return false;
        },
    }
}

/// A copy of a tree, equal in the model.
pub fn clone_node(a: &Node) -> (r: Node)
    ensures
        r@ == a@,
    decreases *a,
{
    broadcast use lemma_nodes_view, lemma_entries_view;

    match a {
        Node::Null => Node::Null,
        Node::Bool(b) => Node::Bool(*b),
        Node::Num(s) => Node::Num(s.clone()),
        Node::Str(s) => Node::Str(s.clone()),
        Node::Arr(v) => {
            let mut out: Vec<Node> = Vec::new();
            let mut i: usize = 0;
            while i < v.len()
                invariant
                    0 <= i <= v@.len(),
                    a is Arr && a->Arr_0 == *v,
                    out@.len() == i,
                    forall|j: int| 0 <= j < i ==> node_view(out@[j]) == node_view(v@[j]),
                decreases v@.len() - i,
            {
                let c = clone_node(&v[i]);
                out.push(c);
                i += 1;
            }
            proof {
                broadcast use lemma_nodes_view;

                assert(nodes_view(out@) =~= nodes_view(v@));
            }
            Node::Arr(out)
        },
        Node::Obj(v) => {
            let mut out: Vec<(String, Node)> = Vec::new();
            let mut i: usize = 0;
            while i < v.len()
                invariant
                    0 <= i <= v@.len(),
                    a is Obj && a->Obj_0 == *v,
                    out@.len() == i,
                    forall|j: int|
                        0 <= j < i ==> out@[j].0@ == v@[j].0@ && node_view(out@[j].1) == node_view(
                            v@[j].1,
                        ),
                decreases v@.len() - i,
            {
                let k = v[i].0.clone();
                let c = clone_node(&v[i].1);
                out.push((k, c));
                i += 1;
            }
            proof {
                broadcast use lemma_entries_view;

                assert(entries_view(out@) =~= entries_view(v@));
            }
            Node::Obj(out)
        },
    }
}

} // verus!
