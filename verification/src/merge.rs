//! The structural merge over configuration trees.
//!
//! Mappings merge key by key: a key present in only one side is added, equal
//! values are a no-op, two mappings or two sequences merge recursively, and
//! anything else is a conflict naming the dotted path. Sequences concatenate;
//! a concatenation whose elements are all text, all numbers or all booleans
//! is deduplicated keeping the first occurrence of each value. Fragments fold
//! in resolution order into an initially empty root mapping, so components
//! resolved earlier establish the keys that later components extend or error
//! against.

use vstd::prelude::*;

use crate::codec::chars_to_string;
use crate::names::str_eq;
use crate::node::{clone_node, entries_view, lemma_entries_view, lemma_nodes_view, node_equal,
    nodes_view, Node, NodeV};
use crate::text::{append_chars, clone_chars};

verus! {

/// A structural merge conflict, in the model: the dotted path at which the
/// two sides disagree, and whether they disagree in shape rather than value.
pub struct ConflictV {
    /// The two sides are differently shaped (a container against a scalar,
    /// or two unequal scalars of different kinds).
    pub type_conflict: bool,
    /// The dotted path from the root to the offending key.
    pub path: Seq<char>,
}

/// A structural merge conflict.
#[derive(Debug)]
pub struct MergeConflict {
    /// The two sides are differently shaped.
    pub type_conflict: bool,
    /// The dotted path from the root to the offending key.
    pub path: String,
}

impl View for MergeConflict {
    type V = ConflictV;

    open spec fn view(&self) -> ConflictV {
        ConflictV { type_conflict: self.type_conflict, path: self.path@ }
    }
}

/// The index of the first entry of `d` whose key is `k`.
pub open spec fn spec_lookup_key(d: Seq<(Seq<char>, NodeV)>, k: Seq<char>) -> Option<int>
    decreases d.len(),
{
    if d.len() == 0 {
        None
    } else if d[0].0 == k {
        Some(0int)
    } else {
        match spec_lookup_key(d.drop_first(), k) {
            None => None,
            Some(i) => Some(i + 1),
        }
    }
}

/// When no key of `d` is `k`, the lookup finds nothing.
pub proof fn lemma_lookup_none(d: Seq<(Seq<char>, NodeV)>, k: Seq<char>)
    requires
        forall|l: int| 0 <= l < d.len() ==> (#[trigger] d[l]).0 != k,
    ensures
        spec_lookup_key(d, k) is None,
    decreases d.len(),
{
    if d.len() > 0 {
        assert(forall|l: int|
            0 <= l < d.drop_first().len() ==> (#[trigger] d.drop_first()[l]).0 != k);
        lemma_lookup_none(d.drop_first(), k);
    }
}

/// When `j` is the first position whose key is `k`, the lookup finds `j`.
pub proof fn lemma_lookup_some(d: Seq<(Seq<char>, NodeV)>, k: Seq<char>, j: int)
    requires
        0 <= j < d.len(),
        d[j].0 == k,
        forall|l: int| 0 <= l < j ==> (#[trigger] d[l]).0 != k,
    ensures
        spec_lookup_key(d, k) == Some(j),
    decreases j,
{
    if j > 0 {
        assert(d.drop_first()[j - 1].0 == k);
        assert(forall|l: int|
            0 <= l < j - 1 ==> (#[trigger] d.drop_first()[l]).0 == d[l + 1].0);
        lemma_lookup_some(d.drop_first(), k, j - 1);
    }
}

/// Whether every element of `a` is a text, number or boolean scalar, all of
/// one kind.
pub open spec fn spec_all_of_scalar_kind(a: Seq<NodeV>) -> bool {
    ||| forall|i: int| 0 <= i < a.len() ==> (#[trigger] a[i]) is Str
    ||| forall|i: int| 0 <= i < a.len() ==> (#[trigger] a[i]) is Num
    ||| forall|i: int| 0 <= i < a.len() ==> (#[trigger] a[i]) is Bool
}

/// `a` with every repeated value removed, keeping the first occurrence of
/// each value in order.
pub open spec fn spec_dedup(a: Seq<NodeV>) -> Seq<NodeV>
    decreases a.len(),
{
    if a.len() == 0 {
        Seq::empty()
    } else {
        let p = spec_dedup(a.drop_last());
        if p.contains(a.last()) {
            p
        } else {
            p.push(a.last())
        }
    }
}

/// What merging two sequences yields: the concatenation, deduplicated when
/// all elements are scalars of one kind.
pub open spec fn spec_merge_arrays(d: Seq<NodeV>, s: Seq<NodeV>) -> Seq<NodeV> {
    let all = d + s;
    if spec_all_of_scalar_kind(all) {
        spec_dedup(all)
    } else {
        all
    }
}

/// What merging `src` into `dst` at `path` yields: mappings merge key-wise
/// through `spec_merge_entries`, sequences through `spec_merge_arrays`, and
/// any other pairing must be equal or conflicts at `path`.
pub open spec fn spec_merge(dst: NodeV, src: NodeV, path: Seq<char>) -> Result<NodeV, ConflictV>
    decreases src,
{
    match (dst, src) {
        (NodeV::Obj(d), NodeV::Obj(s)) => spec_merge_entries(d, s, path),
        (NodeV::Arr(d), NodeV::Arr(s)) => Ok(NodeV::Arr(spec_merge_arrays(d, s))),
        (d, s) => if d == s {
            Ok(d)
        } else {
            Err(ConflictV { type_conflict: true, path })
        },
    }
}

/// Folds the entries of `s` into `d`, left to right: an absent key is
/// appended, an equal value is a no-op, two mappings or two sequences merge
/// recursively under the key's dotted path, and anything else conflicts
/// there.
pub open spec fn spec_merge_entries(
    d: Seq<(Seq<char>, NodeV)>,
    s: Seq<(Seq<char>, NodeV)>,
    path: Seq<char>,
) -> Result<NodeV, ConflictV>
    decreases s,
{
    if s.len() == 0 {
        Ok(NodeV::Obj(d))
    } else {
        let k = s[0].0;
        let sv = s[0].1;
        let sub_path = path + seq!['.'] + k;
        match spec_lookup_key(d, k) {
            None => spec_merge_entries(d.push((k, sv)), s.drop_first(), path),
            Some(i) => {
                let dv = d[i].1;
                if dv == sv {
                    spec_merge_entries(d, s.drop_first(), path)
                } else if (dv is Obj && sv is Obj) || (dv is Arr && sv is Arr) {
                    match spec_merge(dv, sv, sub_path) {
                        Ok(nv) => spec_merge_entries(
                            d.update(i, (k, nv)),
                            s.drop_first(),
                            path,
                        ),
                        Err(e) => Err(e),
                    }
                } else {
                    Err(ConflictV { type_conflict: false, path: sub_path })
                }
            },
        }
    }
}

} // verus!

verus! {

/// Appending an entry appends its view.
pub proof fn lemma_entries_view_push(v: Seq<(String, Node)>, e: (String, Node))
    ensures
        entries_view(v.push(e)) =~= entries_view(v).push((e.0@, e.1@)),
{
    broadcast use lemma_entries_view;

    assert(entries_view(v.push(e)).len() == v.len() + 1);
    assert forall|i: int| 0 <= i < v.len() + 1 implies entries_view(v.push(e))[i] == entries_view(
        v,
    ).push((e.0@, e.1@))[i] by {
        if i < v.len() {
            assert(v.push(e)[i] == v[i]);
        } else {
            assert(v.push(e)[i] == e);
        }
    }
}

/// Updating an entry updates its view.
pub proof fn lemma_entries_view_update(v: Seq<(String, Node)>, i: int, e: (String, Node))
    requires
        0 <= i < v.len(),
    ensures
        entries_view(v.update(i, e)) =~= entries_view(v).update(i, (e.0@, e.1@)),
{
    broadcast use lemma_entries_view;

    assert forall|j: int| 0 <= j < v.len() implies entries_view(v.update(i, e))[j] == entries_view(
        v,
    ).update(i, (e.0@, e.1@))[j] by {
        if j == i {
            assert(v.update(i, e)[j] == e);
        } else {
            assert(v.update(i, e)[j] == v[j]);
        }
    }
}

/// Appending a node appends its view.
pub proof fn lemma_nodes_view_push(v: Seq<Node>, e: Node)
    ensures
        nodes_view(v.push(e)) =~= nodes_view(v).push(e@),
{
    broadcast use lemma_nodes_view;

    assert forall|i: int| 0 <= i < v.len() + 1 implies nodes_view(v.push(e))[i] == nodes_view(
        v,
    ).push(e@)[i] by {
        if i < v.len() {
            assert(v.push(e)[i] == v[i]);
        } else {
            assert(v.push(e)[i] == e);
        }
    }
}

/// A copy of a vector of mapping entries, equal in the model.
#[verifier::loop_isolation(false)]
fn clone_entries(v: &Vec<(String, Node)>) -> (r: Vec<(String, Node)>)
    ensures
        entries_view(r@) == entries_view(v@),
{
    broadcast use lemma_entries_view;

    let mut r: Vec<(String, Node)> = Vec::new();
    let mut i: usize = 0;
    while i < v.len()
        invariant
            0 <= i <= v@.len(),
            r@.len() == i,
            forall|j: int|
                0 <= j < i ==> r@[j].0@ == v@[j].0@ && (#[trigger] r@[j]).1@ == v@[j].1@,
        decreases v@.len() - i,
    {
        let k = v[i].0.clone();
        let n = clone_node(&v[i].1);
        r.push((k, n));
        i += 1;
    }
    proof {
        assert(entries_view(r@) =~= entries_view(v@));
    }
    r
}

/// A copy of a vector of nodes, equal in the model.
#[verifier::loop_isolation(false)]
fn clone_nodes(v: &Vec<Node>) -> (r: Vec<Node>)
    ensures
        nodes_view(r@) == nodes_view(v@),
{
    broadcast use lemma_nodes_view;

    let mut r: Vec<Node> = Vec::new();
    let mut i: usize = 0;
    while i < v.len()
        invariant
            0 <= i <= v@.len(),
            r@.len() == i,
            forall|j: int| 0 <= j < i ==> (#[trigger] r@[j])@ == v@[j]@,
        decreases v@.len() - i,
    {
        let n = clone_node(&v[i]);
        r.push(n);
        i += 1;
    }
    proof {
        assert(nodes_view(r@) =~= nodes_view(v@));
    }
    r
}

/// Whether the model of some element of `v` is `x`'s model.
#[verifier::loop_isolation(false)]
fn contains_node(v: &Vec<Node>, x: &Node) -> (r: bool)
    ensures
        r == nodes_view(v@).contains(x@),
{
    broadcast use lemma_nodes_view;

    let mut i: usize = 0;
    while i < v.len()
        invariant
            0 <= i <= v@.len(),
            forall|j: int| 0 <= j < i ==> nodes_view(v@)[j] != x@,
        decreases v@.len() - i,
    {
        if node_equal(&v[i], x) {
            proof {
                assert(nodes_view(v@)[i as int] == x@);
            }
            return true;
        }
        i += 1;
    }
    proof {
        if nodes_view(v@).contains(x@) {
            let w = choose|j: int| 0 <= j < nodes_view(v@).len() && nodes_view(v@)[j] == x@;
            assert(nodes_view(v@)[w] != x@);
        }
    }
    false
}

/// Removes repeated values, keeping the first occurrence of each, as
/// `spec_dedup` says.
#[verifier::loop_isolation(false)]
fn dedup_nodes(v: Vec<Node>) -> (r: Vec<Node>)
    ensures
        nodes_view(r@) == spec_dedup(nodes_view(v@)),
{
    broadcast use lemma_nodes_view;

    let mut out: Vec<Node> = Vec::new();
    let mut i: usize = 0;
    proof {
        assert(nodes_view(v@).take(0) =~= Seq::<NodeV>::empty());
    }
    while i < v.len()
        invariant
            0 <= i <= v@.len(),
            nodes_view(out@) == spec_dedup(nodes_view(v@).take(i as int)),
        decreases v@.len() - i,
    {
        let ghost pre = nodes_view(v@).take(i as int);
        proof {
            assert(nodes_view(v@).take(i + 1).drop_last() =~= pre);
            assert(nodes_view(v@).take(i + 1).last() == nodes_view(v@)[i as int]);
        }
        if !contains_node(&out, &v[i]) {
            let n = clone_node(&v[i]);
            proof {
                lemma_nodes_view_push(out@, n);
            }
            out.push(n);
        }
        i += 1;
    }
    proof {
        assert(nodes_view(v@).take(v@.len() as int) =~= nodes_view(v@));
    }
    out
}

/// Whether every node of `v` is a text scalar.
#[verifier::loop_isolation(false)]
fn all_str(v: &Vec<Node>) -> (r: bool)
    ensures
        r == forall|i: int| 0 <= i < nodes_view(v@).len() ==> (#[trigger] nodes_view(v@)[i]) is Str,
{
    broadcast use lemma_nodes_view;

    let mut i: usize = 0;
    while i < v.len()
        invariant
            0 <= i <= v@.len(),
            forall|j: int| 0 <= j < i ==> (#[trigger] nodes_view(v@)[j]) is Str,
        decreases v@.len() - i,
    {
        let is_kind = match &v[i] {
            Node::Str(_) => true,
            _ => false,
        };
        if !is_kind {
            proof {
                assert(!(nodes_view(v@)[i as int] is Str));
            }
            return false;
        }
        i += 1;
    }
    true
}

/// Whether every node of `v` is a number scalar.
#[verifier::loop_isolation(false)]
fn all_num(v: &Vec<Node>) -> (r: bool)
    ensures
        r == forall|i: int| 0 <= i < nodes_view(v@).len() ==> (#[trigger] nodes_view(v@)[i]) is Num,
{
    broadcast use lemma_nodes_view;

    let mut i: usize = 0;
    while i < v.len()
        invariant
            0 <= i <= v@.len(),
            forall|j: int| 0 <= j < i ==> (#[trigger] nodes_view(v@)[j]) is Num,
        decreases v@.len() - i,
    {
        let is_kind = match &v[i] {
            Node::Num(_) => true,
            _ => false,
        };
        if !is_kind {
            proof {
                assert(!(nodes_view(v@)[i as int] is Num));
            }
            return false;
        }
        i += 1;
    }
    true
}

/// Whether every node of `v` is a boolean scalar.
#[verifier::loop_isolation(false)]
fn all_bool(v: &Vec<Node>) -> (r: bool)
    ensures
        r == forall|i: int| 0 <= i < nodes_view(v@).len() ==> (#[trigger] nodes_view(v@)[i]) is Bool,
{
    broadcast use lemma_nodes_view;

    let mut i: usize = 0;
    while i < v.len()
        invariant
            0 <= i <= v@.len(),
            forall|j: int| 0 <= j < i ==> (#[trigger] nodes_view(v@)[j]) is Bool,
        decreases v@.len() - i,
    {
        let is_kind = match &v[i] {
            Node::Bool(_) => true,
            _ => false,
        };
        if !is_kind {
            proof {
                assert(!(nodes_view(v@)[i as int] is Bool));
            }
            return false;
        }
        i += 1;
    }
    true
}

/// The dotted path one key deeper: `path`, `.`, then the key.
fn extend_path(path: &Vec<char>, k: &String) -> (r: Vec<char>)
    ensures
        r@ == path@ + seq!['.'] + k@,
{
    let mut r = clone_chars(path);
    r.push('.');
    let kc = crate::names::chars_of(k.as_str());
    append_chars(&mut r, &kc);
    proof {
        assert(r@ =~= path@ + seq!['.'] + k@);
    }
    r
}

/// Merges two sequences as `spec_merge_arrays` says.
#[verifier::loop_isolation(false)]
fn merge_arrays(d: &Vec<Node>, s: &Vec<Node>) -> (r: Vec<Node>)
    ensures
        nodes_view(r@) == spec_merge_arrays(nodes_view(d@), nodes_view(s@)),
{
    broadcast use lemma_nodes_view;

    let mut all = clone_nodes(d);
    let mut i: usize = 0;
    while i < s.len()
        invariant
            0 <= i <= s@.len(),
            nodes_view(all@) == nodes_view(d@) + nodes_view(s@).take(i as int),
        decreases s@.len() - i,
    {
        let n = clone_node(&s[i]);
        proof {
            lemma_nodes_view_push(all@, n);
            assert(nodes_view(d@) + nodes_view(s@).take(i + 1) =~= (nodes_view(d@) + nodes_view(
                s@,
            ).take(i as int)).push(nodes_view(s@)[i as int]));
        }
        all.push(n);
        i += 1;
    }
    proof {
        assert(nodes_view(d@) + nodes_view(s@).take(s@.len() as int) =~= nodes_view(d@)
            + nodes_view(s@));
    }
    let scalar = all_str(&all) || all_num(&all) || all_bool(&all);
    if scalar {
        dedup_nodes(all)
    } else {
        all
    }
}

} // verus!

verus! {

/// A node and its model share their shape.
pub proof fn lemma_view_shape(n: Node)
    ensures
        (n is Null <==> n@ is Null),
        (n is Bool <==> n@ is Bool),
        (n is Num <==> n@ is Num),
        (n is Str <==> n@ is Str),
        (n is Arr <==> n@ is Arr),
        (n is Obj <==> n@ is Obj),
{
    match n {
        Node::Null => {},
        Node::Bool(_) => {},
        Node::Num(_) => {},
        Node::Str(_) => {},
        Node::Arr(_) => {},
        Node::Obj(_) => {},
    }
}

/// Merges `src` into `dst` as `spec_merge` says.
#[verifier::loop_isolation(false)]
pub fn merge_nodes(dst: &Node, src: &Node, path: &Vec<char>) -> (r: Result<Node, MergeConflict>)
    ensures
        r is Ok <==> spec_merge(dst@, src@, path@) is Ok,
        r is Ok ==> r->Ok_0@ == spec_merge(dst@, src@, path@)->Ok_0,
        r is Err ==> r->Err_0@ == spec_merge(dst@, src@, path@)->Err_0,
    decreases *src,
{
    broadcast use lemma_nodes_view, lemma_entries_view;

    match (dst, src) {
        (Node::Obj(d0), Node::Obj(s0)) => {
            proof {
                assert(*dst == Node::Obj(*d0));
                assert(*src == Node::Obj(*s0));
            }
            let ghost dv0 = entries_view(d0@);
            let ghost sv0 = entries_view(s0@);
            let mut d = clone_entries(d0);
            let mut j: usize = 0;
            proof {
                assert(sv0.skip(0) =~= sv0);
            }
            while j < s0.len()
                invariant
                    0 <= j <= s0@.len(),
                    spec_merge_entries(dv0, sv0, path@) == spec_merge_entries(
                        entries_view(d@),
                        sv0.skip(j as int),
                        path@,
                    ),
                decreases s0@.len() - j,
            {
                let ghost dcur = entries_view(d@);
                let ghost scur = sv0.skip(j as int);
                proof {
                    assert(scur.len() > 0);
                    assert(scur[0] == sv0[j as int]);
                    assert(scur.drop_first() =~= sv0.skip(j as int + 1));
                }
                let k: &String = &s0[j].0;
                let mut found: Option<usize> = None;
                let mut l: usize = 0;
                while l < d.len()
                    invariant
                        0 <= l <= d@.len(),
                        found is None,
                        forall|m: int| 0 <= m < l ==> (#[trigger] entries_view(d@)[m]).0 != k@,
                    decreases d@.len() - l,
                {
                    if str_eq(d[l].0.as_str(), k.as_str()) {
                        found = Some(l);
                        break ;
                    }
                    l += 1;
                }
                match found {
                    None => {
                        proof {
                            lemma_lookup_none(dcur, k@);
                        }
                        let kc = k.clone();
                        let nv = clone_node(&s0[j].1);
                        proof {
                            lemma_entries_view_push(d@, (kc, nv));
                        }
                        d.push((kc, nv));
                    },
                    Some(l) => {
                        proof {
                            assert(entries_view(d@)[l as int].0 == k@);
                            lemma_lookup_some(dcur, k@, l as int);
                        }
                        let equal_here = node_equal(&d[l].1, &s0[j].1);
                        if equal_here {
                            // equal values: a no-op
                        } else {
                            let both_obj = matches!(&d[l].1, Node::Obj(_)) && matches!(
                                &s0[j].1,
                                Node::Obj(_),
                            );
                            let both_arr = matches!(&d[l].1, Node::Arr(_)) && matches!(
                                &s0[j].1,
                                Node::Arr(_),
                            );
                            proof {
                                lemma_view_shape(d@[l as int].1);
                                lemma_view_shape(s0@[j as int].1);
                            }
                            if both_obj || both_arr {
                                let sub_path = extend_path(path, k);
                                proof {
                                    assert(decreases_to!(*src => s0@[j as int].1));
                                }
                                let sub = merge_nodes(&d[l].1, &s0[j].1, &sub_path);
                                match sub {
                                    Ok(nv) => {
                                        let kc = k.clone();
                                        proof {
                                            lemma_entries_view_update(d@, l as int, (kc, nv));
                                        }
                                        d.set(l, (kc, nv));
                                    },
                                    Err(e) => {
                                        return Err(e);
                                    },
                                }
                            } else {
                                let sub_path = extend_path(path, k);
                                return Err(
                                    MergeConflict {
                                        type_conflict: false,
                                        path: chars_to_string(&sub_path),
                                    },
                                );
                            }
                        }
                    },
                }
                j += 1;
            }
            proof {
                assert(sv0.skip(s0@.len() as int) =~= Seq::<(Seq<char>, NodeV)>::empty());
            }
            Ok(Node::Obj(d))
        },
        (Node::Arr(d0), Node::Arr(s0)) => {
            proof {
                assert(*dst == Node::Arr(*d0));
                assert(*src == Node::Arr(*s0));
            }
            let merged = merge_arrays(d0, s0);
            Ok(Node::Arr(merged))
        },
        _ => {
            proof {
                lemma_view_shape(*dst);
                lemma_view_shape(*src);
            }
            if node_equal(dst, src) {
                Ok(clone_node(dst))
            } else {
                Err(MergeConflict { type_conflict: true, path: chars_to_string(path) })
            }
        },
    }
}

/// A merge conflict together with the component whose fragment raised it.
#[derive(Debug)]
pub struct FragmentError {
    /// The id of the component being folded in when the conflict arose.
    pub component: String,
    /// The conflict itself.
    pub conflict: MergeConflict,
}

impl View for FragmentError {
    type V = (Seq<char>, ConflictV);

    open spec fn view(&self) -> (Seq<char>, ConflictV) {
        (self.component@, self.conflict@)
    }
}

/// Folds fragments in order into `acc`, each at the root path; a conflict
/// carries the contributing component's id.
pub open spec fn spec_merge_fragments(
    frags: Seq<(Seq<char>, NodeV)>,
    acc: NodeV,
) -> Result<NodeV, (Seq<char>, ConflictV)>
    decreases frags.len(),
{
    if frags.len() == 0 {
        Ok(acc)
    } else {
        match spec_merge(acc, frags[0].1, "$"@) {
            Ok(n) => spec_merge_fragments(frags.drop_first(), n),
            Err(e) => Err((frags[0].0, e)),
        }
    }
}

/// Merges the fragments, in order, into an initially empty root mapping, as
/// `spec_merge_fragments` says. Each pair is a component id and its parsed
/// fragment.
#[verifier::loop_isolation(false)]
pub fn merge_fragments(frags: &Vec<(String, Node)>) -> (r: Result<Node, FragmentError>)
    ensures
        ({
            let m = spec_merge_fragments(entries_view(frags@), NodeV::Obj(Seq::empty()));
            &&& r is Ok <==> m is Ok
            &&& r is Ok ==> r->Ok_0@ == m->Ok_0
            &&& r is Err ==> r->Err_0@ == m->Err_0
        }),
{
    broadcast use lemma_entries_view;

    let ghost fv = entries_view(frags@);
    let mut acc = Node::Obj(Vec::new());
    let root_path = crate::names::chars_of("$");
    proof {
        assert(entries_view(Seq::<(String, Node)>::empty()) == Seq::<(Seq<char>, NodeV)>::empty());
        assert(fv.skip(0) =~= fv);
    }
    let mut i: usize = 0;
    while i < frags.len()
        invariant
            0 <= i <= frags@.len(),
            root_path@ == "$"@,
            spec_merge_fragments(fv, NodeV::Obj(Seq::empty())) == spec_merge_fragments(
                fv.skip(i as int),
                acc@,
            ),
        decreases frags@.len() - i,
    {
        let ghost fcur = fv.skip(i as int);
        proof {
            assert(fcur.len() > 0);
            assert(fcur[0] == fv[i as int]);
            assert(fcur.drop_first() =~= fv.skip(i as int + 1));
        }
        let step = merge_nodes(&acc, &frags[i].1, &root_path);
        match step {
            Ok(n) => {
                acc = n;
            },
            Err(e) => {
                return Err(FragmentError { component: frags[i].0.clone(), conflict: e });
            },
        }
        i += 1;
    }
    proof {
        assert(fv.skip(frags@.len() as int) =~= Seq::<(Seq<char>, NodeV)>::empty());
    }
    Ok(acc)
}

} // verus!

verus! {

/// A found key lies in range and carries the key looked for.
pub proof fn lemma_lookup_in_range(d: Seq<(Seq<char>, NodeV)>, k: Seq<char>)
    requires
        spec_lookup_key(d, k) is Some,
    ensures
        0 <= spec_lookup_key(d, k)->0 < d.len(),
        d[spec_lookup_key(d, k)->0].0 == k,
    decreases d.len(),
{
    if d.len() > 0 && d[0].0 != k {
        lemma_lookup_in_range(d.drop_first(), k);
        assert(d.drop_first()[spec_lookup_key(d.drop_first(), k)->0] == d[spec_lookup_key(
            d,
            k,
        )->0]);
    }
}

/// Folding entries whose keys are fresh and pairwise distinct appends them.
pub proof fn lemma_merge_entries_fresh(
    d: Seq<(Seq<char>, NodeV)>,
    s: Seq<(Seq<char>, NodeV)>,
    path: Seq<char>,
)
    requires
        forall|i: int, j: int|
            0 <= i < j < s.len() ==> (#[trigger] s[i]).0 != (#[trigger] s[j]).0,
        forall|i: int, j: int|
            0 <= i < d.len() && 0 <= j < s.len() ==> (#[trigger] d[i]).0 != (#[trigger] s[j]).0,
    ensures
        spec_merge_entries(d, s, path) == Ok::<NodeV, ConflictV>(NodeV::Obj(d + s)),
    decreases s.len(),
{
    if s.len() == 0 {
        assert(d + s =~= d);
    } else {
        lemma_lookup_none(d, s[0].0);
        let d2 = d.push((s[0].0, s[0].1));
        assert((s[0].0, s[0].1) == s[0]);
        assert forall|i: int, j: int|
            0 <= i < d2.len() && 0 <= j < s.drop_first().len() implies (#[trigger] d2[i]).0 != (
        #[trigger] s.drop_first()[j]).0 by {
            assert(s.drop_first()[j] == s[j + 1]);
            if i < d.len() {
                assert(d2[i] == d[i]);
            } else {
                assert(d2[i] == s[0]);
            }
        }
        assert forall|i: int, j: int|
            0 <= i < j < s.drop_first().len() implies (#[trigger] s.drop_first()[i]).0 != (
        #[trigger] s.drop_first()[j]).0 by {
            assert(s.drop_first()[i] == s[i + 1]);
            assert(s.drop_first()[j] == s[j + 1]);
        }
        lemma_merge_entries_fresh(d2, s.drop_first(), path);
        assert(d2 + s.drop_first() =~= d + s);
    }
}

/// Folding entries that already stand in the mapping, with the same values,
/// changes nothing.
pub proof fn lemma_merge_entries_absorbed(
    d: Seq<(Seq<char>, NodeV)>,
    s: Seq<(Seq<char>, NodeV)>,
    path: Seq<char>,
)
    requires
        forall|j: int|
            0 <= j < s.len() ==> spec_lookup_key(d, (#[trigger] s[j]).0) is Some && d[spec_lookup_key(
                d,
                s[j].0,
            )->0].1 == s[j].1,
    ensures
        spec_merge_entries(d, s, path) == Ok::<NodeV, ConflictV>(NodeV::Obj(d)),
    decreases s.len(),
{
    if s.len() > 0 {
        lemma_lookup_in_range(d, s[0].0);
        assert forall|j: int|
            0 <= j < s.drop_first().len() implies spec_lookup_key(
            d,
            (#[trigger] s.drop_first()[j]).0,
        ) is Some && d[spec_lookup_key(d, s.drop_first()[j].0)->0].1 == s.drop_first()[j].1 by {
            assert(s.drop_first()[j] == s[j + 1]);
        }
        lemma_merge_entries_absorbed(d, s.drop_first(), path);
    }
}

/// Merging a fragment with itself, key for key, never errors and changes
/// nothing: folding two fragments of identical content equals folding either
/// alone. The fragment's top-level keys are pairwise distinct, as a parsed
/// mapping's are.
pub proof fn lemma_merge_identical_fragments(
    id1: Seq<char>,
    id2: Seq<char>,
    x: Seq<(Seq<char>, NodeV)>,
)
    requires
        forall|i: int, j: int|
            0 <= i < j < x.len() ==> (#[trigger] x[i]).0 != (#[trigger] x[j]).0,
    ensures
        spec_merge_fragments(seq![(id1, NodeV::Obj(x))], NodeV::Obj(Seq::empty())) == Ok::<
            NodeV,
            (Seq<char>, ConflictV),
        >(NodeV::Obj(x)),
        spec_merge_fragments(
            seq![(id1, NodeV::Obj(x)), (id2, NodeV::Obj(x))],
            NodeV::Obj(Seq::empty()),
        ) == Ok::<NodeV, (Seq<char>, ConflictV)>(NodeV::Obj(x)),
{
    let e = Seq::<(Seq<char>, NodeV)>::empty();
    lemma_merge_entries_fresh(e, x, "$"@);
    assert(e + x =~= x);
    assert(spec_merge(NodeV::Obj(e), NodeV::Obj(x), "$"@) == Ok::<NodeV, ConflictV>(NodeV::Obj(x)));
    assert forall|j: int|
        0 <= j < x.len() implies spec_lookup_key(x, (#[trigger] x[j]).0) is Some && x[spec_lookup_key(
        x,
        x[j].0,
    )->0].1 == x[j].1 by {
        lemma_lookup_some(x, x[j].0, j);
    }
    lemma_merge_entries_absorbed(x, x, "$"@);
    assert(spec_merge(NodeV::Obj(x), NodeV::Obj(x), "$"@) == Ok::<NodeV, ConflictV>(NodeV::Obj(x)));
    let once = seq![(id1, NodeV::Obj(x))];
    let twice = seq![(id1, NodeV::Obj(x)), (id2, NodeV::Obj(x))];
    let fe = Seq::<(Seq<char>, NodeV)>::empty();
    assert(spec_merge_fragments(fe, NodeV::Obj(x)) == Ok::<NodeV, (Seq<char>, ConflictV)>(
        NodeV::Obj(x),
    ));
    assert(once[0].1 == NodeV::Obj(x));
    assert(once.drop_first() =~= fe);
    assert(spec_merge_fragments(once, NodeV::Obj(e)) == spec_merge_fragments(fe, NodeV::Obj(x)));
    let second = seq![(id2, NodeV::Obj(x))];
    assert(second[0].1 == NodeV::Obj(x));
    assert(second.drop_first() =~= fe);
    assert(spec_merge_fragments(second, NodeV::Obj(x)) == spec_merge_fragments(
        fe,
        NodeV::Obj(x),
    ));
    assert(twice[0].1 == NodeV::Obj(x));
    assert(twice.drop_first() =~= second);
    assert(spec_merge_fragments(twice, NodeV::Obj(e)) == spec_merge_fragments(
        second,
        NodeV::Obj(x),
    ));
}

/// Two fragments that set one key to different scalar values always conflict,
/// and the conflict names that key's dotted path and the second component.
pub proof fn lemma_merge_scalar_conflict(
    id1: Seq<char>,
    id2: Seq<char>,
    k: Seq<char>,
    v1: NodeV,
    v2: NodeV,
)
    requires
        !(v1 is Arr),
        !(v1 is Obj),
        !(v2 is Arr),
        !(v2 is Obj),
        v1 != v2,
    ensures
        ({
            let r = spec_merge_fragments(
                seq![(id1, NodeV::Obj(seq![(k, v1)])), (id2, NodeV::Obj(seq![(k, v2)]))],
                NodeV::Obj(Seq::empty()),
            );
            &&& r is Err
            &&& r->Err_0.0 == id2
            &&& r->Err_0.1.path == "$"@ + seq!['.'] + k
            &&& !r->Err_0.1.type_conflict
        }),
{
    let e = Seq::<(Seq<char>, NodeV)>::empty();
    let x1 = seq![(k, v1)];
    let x2 = seq![(k, v2)];
    lemma_merge_entries_fresh(e, x1, "$"@);
    assert(e + x1 =~= x1);
    let frags = seq![(id1, NodeV::Obj(x1)), (id2, NodeV::Obj(x2))];
    assert(frags[0].1 == NodeV::Obj(x1));
    let second = seq![(id2, NodeV::Obj(x2))];
    assert(frags.drop_first() =~= second);
    lemma_lookup_some(x1, k, 0);
    assert(x2[0].0 == k && x2[0].1 == v2);
    assert(spec_lookup_key(x1, x2[0].0) == Some(0int));
    assert(x1[0].1 == v1);
    let conflict = ConflictV { type_conflict: false, path: "$"@ + seq!['.'] + k };
    assert(x2.drop_first().len() == 0);
    assert(spec_merge_entries(x1, x2, "$"@) == Err::<NodeV, ConflictV>(conflict));
    assert(spec_merge(NodeV::Obj(x1), NodeV::Obj(x2), "$"@) == Err::<NodeV, ConflictV>(conflict));
    assert(second[0].1 == NodeV::Obj(x2));
    assert(spec_merge_fragments(second, NodeV::Obj(x1)) == Err::<
        NodeV,
        (Seq<char>, ConflictV),
    >((id2, conflict)));
    assert(spec_merge_fragments(frags, NodeV::Obj(e)) == spec_merge_fragments(
        second,
        NodeV::Obj(x1),
    ));
}

/// A value stands in the deduplicated sequence exactly when it stands in
/// the input.
pub proof fn lemma_dedup_contains(a: Seq<NodeV>, x: NodeV)
    ensures
        spec_dedup(a).contains(x) <==> a.contains(x),
    decreases a.len(),
{
    if a.len() == 0 {
        assert(!a.contains(x));
        assert(!spec_dedup(a).contains(x));
    } else {
        lemma_dedup_contains(a.drop_last(), x);
        let p = spec_dedup(a.drop_last());
        if a.contains(x) {
            let w = choose|i: int| 0 <= i < a.len() && a[i] == x;
            if w < a.len() - 1 {
                assert(a.drop_last()[w] == x);
                assert(a.drop_last().contains(x));
                if !p.contains(a.last()) {
                    let u = choose|i: int| 0 <= i < p.len() && p[i] == x;
                    assert(spec_dedup(a)[u] == x);
                }
            } else {
                assert(x == a.last());
                if p.contains(a.last()) {
                } else {
                    assert(spec_dedup(a)[p.len() as int] == x);
                }
            }
            assert(spec_dedup(a).contains(x));
        }
        if spec_dedup(a).contains(x) {
            let w = choose|i: int| 0 <= i < spec_dedup(a).len() && spec_dedup(a)[i] == x;
            if p.contains(a.last()) {
                assert(p[w] == x);
                assert(a.drop_last().contains(x));
                let u = choose|i: int| 0 <= i < a.drop_last().len() && a.drop_last()[i] == x;
                assert(a[u] == x);
            } else {
                if w < p.len() {
                    assert(p[w] == x);
                    assert(a.drop_last().contains(x));
                    let u = choose|i: int| 0 <= i < a.drop_last().len() && a.drop_last()[i] == x;
                    assert(a[u] == x);
                } else {
                    assert(x == a.last());
                    assert(a[a.len() - 1] == x);
                }
            }
            assert(a.contains(x));
        }
    }
}

/// A deduplicated sequence holds no value twice.
pub proof fn lemma_dedup_distinct(a: Seq<NodeV>)
    ensures
        forall|i: int, j: int|
            0 <= i < j < spec_dedup(a).len() ==> spec_dedup(a)[i] != spec_dedup(a)[j],
    decreases a.len(),
{
    if a.len() > 0 {
        lemma_dedup_distinct(a.drop_last());
        let p = spec_dedup(a.drop_last());
        if !p.contains(a.last()) {
            assert forall|i: int, j: int|
                0 <= i < j < spec_dedup(a).len() implies spec_dedup(a)[i] != spec_dedup(a)[j] by {
                if j < p.len() {
                } else {
                    assert(spec_dedup(a)[j] == a.last());
                    assert(spec_dedup(a)[i] == p[i]);
                    assert(p.contains(p[i]));
                }
            }
        }
    }
}

/// Merging two sequences of scalars of one kind concatenates and
/// deduplicates, keeping the first occurrence of each value; a sequence pair
/// holding a mapping anywhere concatenates unchanged, never deduplicated.
pub proof fn lemma_merge_array_policy(d: Seq<NodeV>, s: Seq<NodeV>, path: Seq<char>)
    ensures
        spec_all_of_scalar_kind(d + s) ==> spec_merge(NodeV::Arr(d), NodeV::Arr(s), path) == Ok::<
            NodeV,
            ConflictV,
        >(NodeV::Arr(spec_dedup(d + s))),
        (exists|i: int| 0 <= i < (d + s).len() && (#[trigger] (d + s)[i]) is Obj) ==> spec_merge(
            NodeV::Arr(d),
            NodeV::Arr(s),
            path,
        ) == Ok::<NodeV, ConflictV>(NodeV::Arr(d + s)),
{
    if exists|i: int| 0 <= i < (d + s).len() && (#[trigger] (d + s)[i]) is Obj {
        let w = choose|i: int| 0 <= i < (d + s).len() && (#[trigger] (d + s)[i]) is Obj;
        assert(!((d + s)[w] is Str));
        assert(!((d + s)[w] is Num));
        assert(!((d + s)[w] is Bool));
    }
}

} // verus!


