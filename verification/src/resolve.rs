//! The dependency resolver: expands a requested component-id list into a
//! full, cycle-checked, dependency-ordered, duplicate-free list, then
//! validates declared conflicts.
//!
//! The expansion is a depth-first search with three colours: ids in
//! `visited` are done, ids in `visiting` are on the current path, and
//! revisiting one of those is a cycle. A dependency is appended to the
//! output, post-order, before the component that required it. After
//! expansion, every resolved component's declared conflicts are checked
//! against the full resolved set; a present conflict is a hard error naming
//! both ids. Resolution is pure: the same store and request give the same
//! answer.

use vstd::prelude::*;

use crate::names::{chars_of, map_legacy_component_name, spec_map_legacy_component_name, str_eq};
use crate::store::{ComponentStore, LoadedComponent};

verus! {

/// Why resolution fails, in the model.
pub enum ResolveErrorV {
    /// A component id was empty.
    EmptyId,
    /// A component id held `..`.
    InvalidId(Seq<char>),
    /// No component with this id is in the store.
    Unknown(Seq<char>),
    /// The dependency graph closes a cycle at this id.
    Cycle(Seq<char>),
    /// The first id declares a conflict with the second, and both resolved.
    Conflict(Seq<char>, Seq<char>),
}

/// Why resolution fails.
#[derive(Debug)]
pub enum ResolveError {
    /// A component id was empty.
    EmptyId,
    /// A component id held `..`.
    InvalidId(String),
    /// No component with this id is in the store.
    Unknown(String),
    /// The dependency graph closes a cycle at this id.
    Cycle(String),
    /// The first id declares a conflict with the second, and both resolved.
    Conflict(String, String),
}

impl View for ResolveError {
    type V = ResolveErrorV;

    open spec fn view(&self) -> ResolveErrorV {
        match self {
            ResolveError::EmptyId => ResolveErrorV::EmptyId,
            ResolveError::InvalidId(s) => ResolveErrorV::InvalidId(s@),
            ResolveError::Unknown(s) => ResolveErrorV::Unknown(s@),
            ResolveError::Cycle(s) => ResolveErrorV::Cycle(s@),
            ResolveError::Conflict(a, b) => ResolveErrorV::Conflict(a@, b@),
        }
    }
}

/// The views of a sequence of strings.
pub open spec fn strings_view(v: Seq<String>) -> Seq<Seq<char>> {
    v.map_values(|s: String| s@)
}

/// Appending a string appends its view.
pub proof fn lemma_strings_view_push(v: Seq<String>, x: String)
    ensures
        strings_view(v.push(x)) =~= strings_view(v).push(x@),
{
    assert forall|i: int| 0 <= i < v.len() + 1 implies strings_view(v.push(x))[i] == strings_view(
        v,
    ).push(x@)[i] by {
        if i < v.len() {
            assert(v.push(x)[i] == v[i]);
        } else {
            assert(v.push(x)[i] == x);
        }
    }
}

/// Dropping the last string drops its view.
pub proof fn lemma_strings_view_drop_last(v: Seq<String>)
    requires
        v.len() > 0,
    ensures
        strings_view(v.drop_last()) =~= strings_view(v).drop_last(),
{
    assert forall|i: int| 0 <= i < v.len() - 1 implies strings_view(v.drop_last())[i]
        == strings_view(v).drop_last()[i] by {
        assert(v.drop_last()[i] == v[i]);
    }
}

/// Whether `s` holds two consecutive dots.
pub open spec fn spec_has_dotdot(s: Seq<char>) -> bool {
    exists|i: int| 0 <= i && i + 1 < s.len() && (#[trigger] s[i]) == '.' && s[i + 1] == '.'
}

/// Decides `spec_has_dotdot`.
#[verifier::loop_isolation(false)]
pub fn has_dotdot(s: &str) -> (r: bool)
    ensures
        r == spec_has_dotdot(s@),
{
    let cs = chars_of(s);
    if cs.len() < 2 {
        return false;
    }
    let mut i: usize = 0;
    while i + 1 < cs.len()
        invariant
            0 <= i,
            i + 1 <= cs@.len(),
            forall|j: int| 0 <= j && j < i ==> !((#[trigger] cs@[j]) == '.' && cs@[j + 1] == '.'),
        decreases cs@.len() - i,
    {
        if cs[i] == '.' && cs[i + 1] == '.' {
            proof {
                assert((s@[i as int]) == '.' && s@[i as int + 1] == '.');
            }
            return true;
        }
        i += 1;
    }
    false
}

/// What looking a component up for resolution yields: an empty id and an id
/// holding `..` are invalid, an id absent from the store is unknown.
pub open spec fn spec_load_check(s: ComponentStore, id: Seq<char>) -> Result<
    LoadedComponent,
    ResolveErrorV,
> {
    if id.len() == 0 {
        Err(ResolveErrorV::EmptyId)
    } else if spec_has_dotdot(id) {
        Err(ResolveErrorV::InvalidId(id))
    } else {
        match crate::store::spec_store_lookup(s, id) {
            None => Err(ResolveErrorV::Unknown(id)),
            Some(c) => Ok(c),
        }
    }
}

/// Looks a component up for resolution, as `spec_load_check` says.
pub fn load_component<'a>(store: &'a ComponentStore, id: &str) -> (r: Result<
    &'a LoadedComponent,
    ResolveError,
>)
    ensures
        r is Ok <==> spec_load_check(*store, id@) is Ok,
        r is Ok ==> *r->Ok_0 == spec_load_check(*store, id@)->Ok_0,
        r is Err ==> r->Err_0@ == spec_load_check(*store, id@)->Err_0,
{
    if id.unicode_len() == 0 {
        return Err(ResolveError::EmptyId);
    }
    if has_dotdot(id) {
        return Err(ResolveError::InvalidId(id.to_owned()));
    }
    match store.lookup(id) {
        None => Err(ResolveError::Unknown(id.to_owned())),
        Some(c) => Ok(c),
    }
}

/// The three-colour state of the search: the ordered output, the ids on the
/// current path, and the ids already done.
pub struct DfsSt {
    /// The dependency-ordered output so far.
    pub out: Seq<Seq<char>>,
    /// Ids on the current path, in path order.
    pub visiting: Seq<Seq<char>>,
    /// Ids fully resolved.
    pub visited: Seq<Seq<char>>,
}

/// One step of the search at `id`: a done id is a no-op, an id on the path
/// is a cycle, otherwise the component's dependencies resolve first and the
/// id is appended post-order. `fuel` bounds the nesting depth; resolution
/// starts it above the number of components in the store, which the path
/// can never exceed.
pub open spec fn spec_dfs(s: ComponentStore, id: Seq<char>, st: DfsSt, fuel: nat) -> Result<
    DfsSt,
    ResolveErrorV,
>
    decreases fuel, 0nat,
{
    if st.visited.contains(id) {
        Ok(st)
    } else if st.visiting.contains(id) {
        Err(ResolveErrorV::Cycle(id))
    } else {
        match spec_load_check(s, id) {
            Err(e) => Err(e),
            Ok(c) => {
                if fuel == 0 {
                    Err(ResolveErrorV::Cycle(id))
                } else {
                    let entered = DfsSt { visiting: st.visiting.push(id), ..st };
                    match spec_dfs_list(
                        s,
                        strings_view(c.manifest.depends@),
                        entered,
                        (fuel - 1) as nat,
                    ) {
                        Err(e) => Err(e),
                        Ok(done) => Ok(
                            DfsSt {
                                out: done.out.push(id),
                                visiting: done.visiting.drop_last(),
                                visited: done.visited.push(id),
                            },
                        ),
                    }
                }
            },
        }
    }
}

/// Resolves each id of `ids` in order, threading the state through.
pub open spec fn spec_dfs_list(s: ComponentStore, ids: Seq<Seq<char>>, st: DfsSt, fuel: nat) -> Result<
    DfsSt,
    ResolveErrorV,
>
    decreases fuel, ids.len() + 1,
{
    if ids.len() == 0 {
        Ok(st)
    } else {
        match spec_dfs(s, ids[0], st, fuel) {
            Err(e) => Err(e),
            Ok(st2) => spec_dfs_list(s, ids.drop_first(), st2, fuel),
        }
    }
}

/// A successful step leaves the path it was called with.
pub proof fn lemma_dfs_visiting(s: ComponentStore, id: Seq<char>, st: DfsSt, fuel: nat)
    ensures
        spec_dfs(s, id, st, fuel) is Ok ==> spec_dfs(s, id, st, fuel)->Ok_0.visiting
            == st.visiting,
    decreases fuel, 0nat,
{
    if !st.visited.contains(id) && !st.visiting.contains(id) && spec_load_check(s, id) is Ok
        && fuel > 0 {
        let c = spec_load_check(s, id)->Ok_0;
        let entered = DfsSt { visiting: st.visiting.push(id), ..st };
        lemma_dfs_list_visiting(s, strings_view(c.manifest.depends@), entered, (fuel - 1) as nat);
        if spec_dfs_list(s, strings_view(c.manifest.depends@), entered, (fuel - 1) as nat) is Ok {
            assert(st.visiting.push(id).drop_last() =~= st.visiting);
        }
    }
}

/// A successful pass over a list leaves the path it was called with.
pub proof fn lemma_dfs_list_visiting(s: ComponentStore, ids: Seq<Seq<char>>, st: DfsSt, fuel: nat)
    ensures
        spec_dfs_list(s, ids, st, fuel) is Ok ==> spec_dfs_list(s, ids, st, fuel)->Ok_0.visiting
            == st.visiting,
    decreases fuel, ids.len() + 1,
{
    if ids.len() > 0 {
        lemma_dfs_visiting(s, ids[0], st, fuel);
        if spec_dfs(s, ids[0], st, fuel) is Ok {
            let st2 = spec_dfs(s, ids[0], st, fuel)->Ok_0;
            lemma_dfs_list_visiting(s, ids.drop_first(), st2, fuel);
        }
    }
}

/// The first id of `conflicts` that stands in `resolved`.
pub open spec fn spec_first_conflict(conflicts: Seq<Seq<char>>, resolved: Seq<Seq<char>>) -> Option<
    Seq<char>,
>
    decreases conflicts.len(),
{
    if conflicts.len() == 0 {
        None
    } else if resolved.contains(conflicts[0]) {
        Some(conflicts[0])
    } else {
        spec_first_conflict(conflicts.drop_first(), resolved)
    }
}

/// Walks `rem` in order; the first id whose declared conflicts meet
/// `resolved` yields a conflict error naming both ids.
pub open spec fn spec_check_conflicts(
    s: ComponentStore,
    resolved: Seq<Seq<char>>,
    rem: Seq<Seq<char>>,
) -> Option<ResolveErrorV>
    decreases rem.len(),
{
    if rem.len() == 0 {
        None
    } else {
        match spec_load_check(s, rem[0]) {
            Err(e) => Some(e),
            Ok(c) => match spec_first_conflict(strings_view(c.manifest.conflicts@), resolved) {
                Some(conf) => Some(ResolveErrorV::Conflict(rem[0], conf)),
                None => spec_check_conflicts(s, resolved, rem.drop_first()),
            },
        }
    }
}

/// The fuel the search starts with: more than the store can ever put on one
/// path.
pub open spec fn spec_fuel(s: ComponentStore) -> nat {
    (s.overrides@.len() + s.embedded@.len() + 2) as nat
}

/// What resolution returns: legacy names map to canonical ids, the search
/// expands them depth-first from an empty state, and the expanded list
/// passes the conflict check.
pub open spec fn spec_resolve(s: ComponentStore, requested: Seq<Seq<char>>) -> Result<
    Seq<Seq<char>>,
    ResolveErrorV,
> {
    let initial = requested.map_values(|id: Seq<char>| spec_map_legacy_component_name(id));
    let st0 = DfsSt { out: Seq::empty(), visiting: Seq::empty(), visited: Seq::empty() };
    match spec_dfs_list(s, initial, st0, spec_fuel(s)) {
        Err(e) => Err(e),
        Ok(st) => match spec_check_conflicts(s, st.out, st.out) {
            Some(e) => Err(e),
            None => Ok(st.out),
        },
    }
}

/// Whether some string of `v` reads `id`.
#[verifier::loop_isolation(false)]
pub fn contains_str(v: &Vec<String>, id: &str) -> (r: bool)
    ensures
        r == strings_view(v@).contains(id@),
{
    let mut i: usize = 0;
    while i < v.len()
        invariant
            0 <= i <= v@.len(),
            forall|j: int| 0 <= j < i ==> strings_view(v@)[j] != id@,
        decreases v@.len() - i,
    {
        if str_eq(v[i].as_str(), id) {
            proof {
                assert(strings_view(v@)[i as int] == id@);
            }
            return true;
        }
        i += 1;
    }
    proof {
        if strings_view(v@).contains(id@) {
            let w = choose|j: int|
                0 <= j < strings_view(v@).len() && strings_view(v@)[j] == id@;
            assert(strings_view(v@)[w] != id@);
        }
    }
    false
}

/// One step of the search at `id`, as `spec_dfs` says, threading the state
/// through the three vectors.
#[verifier::loop_isolation(false)]
pub fn dfs_component(
    store: &ComponentStore,
    id: &str,
    out: &mut Vec<String>,
    visiting: &mut Vec<String>,
    visited: &mut Vec<String>,
    fuel: usize,
) -> (r: Result<(), ResolveError>)
    ensures
        ({
            let pre = DfsSt {
                out: strings_view(old(out)@),
                visiting: strings_view(old(visiting)@),
                visited: strings_view(old(visited)@),
            };
            let post = spec_dfs(*store, id@, pre, fuel as nat);
            &&& r is Ok <==> post is Ok
            &&& r is Ok ==> strings_view(final(out)@) == post->Ok_0.out && strings_view(
                final(visiting)@,
            ) == post->Ok_0.visiting && strings_view(final(visited)@) == post->Ok_0.visited
            &&& r is Err ==> r->Err_0@ == post->Err_0
        }),
    decreases fuel, 0nat,
{
    let ghost pre = DfsSt {
        out: strings_view(old(out)@),
        visiting: strings_view(old(visiting)@),
        visited: strings_view(old(visited)@),
    };
    if contains_str(visited, id) {
        return Ok(());
    }
    if contains_str(visiting, id) {
        return Err(ResolveError::Cycle(id.to_owned()));
    }
    let c = match load_component(store, id) {
        Ok(c) => c,
        Err(e) => {
            return Err(e);
        },
    };
    if fuel == 0 {
        return Err(ResolveError::Cycle(id.to_owned()));
    }
    let owned_id = id.to_owned();
    let ghost pre_visiting = visiting@;
    visiting.push(owned_id);
    proof {
        lemma_strings_view_push(pre_visiting, visiting@.last());
        assert(strings_view(visiting@) =~= pre.visiting.push(id@));
    }
    let ghost entered = DfsSt { visiting: pre.visiting.push(id@), ..pre };
    let ghost deps = strings_view(c.manifest.depends@);
    let mut k: usize = 0;
    proof {
        assert(deps.skip(0) =~= deps);
    }
    while k < c.manifest.depends.len()
        invariant
            0 <= k <= c.manifest.depends@.len(),
            deps == strings_view(c.manifest.depends@),
            ({
                let cur = DfsSt {
                    out: strings_view(out@),
                    visiting: strings_view(visiting@),
                    visited: strings_view(visited@),
                };
                spec_dfs_list(*store, deps, entered, (fuel - 1) as nat) == spec_dfs_list(
                    *store,
                    deps.skip(k as int),
                    cur,
                    (fuel - 1) as nat,
                )
            }),
        decreases c.manifest.depends@.len() - k,
    {
        let ghost dcur = deps.skip(k as int);
        proof {
            assert(dcur.len() > 0);
            assert(dcur[0] == deps[k as int]);
            assert(dcur.drop_first() =~= deps.skip(k as int + 1));
        }
        match dfs_component(store, c.manifest.depends[k].as_str(), out, visiting, visited, fuel
            - 1) {
            Ok(()) => {},
            Err(e) => {
                return Err(e);
            },
        }
        k += 1;
    }
    let ghost exit_cur = DfsSt {
        out: strings_view(out@),
        visiting: strings_view(visiting@),
        visited: strings_view(visited@),
    };
    proof {
        assert(deps.skip(c.manifest.depends@.len() as int) =~= Seq::<Seq<char>>::empty());
        assert(spec_dfs_list(*store, deps, entered, (fuel - 1) as nat) == Ok::<
            DfsSt,
            ResolveErrorV,
        >(exit_cur));
    }
    proof {
        lemma_dfs_list_visiting(*store, deps, entered, (fuel - 1) as nat);
        assert(exit_cur.visiting == entered.visiting);
        assert(strings_view(visiting@).len() == entered.visiting.len());
        assert(visiting@.len() > 0);
    }
    let ghost exit_visiting = visiting@;
    visiting.pop();
    let ghost exit_out = out@;
    out.push(id.to_owned());
    let ghost exit_visited = visited@;
    visited.push(id.to_owned());
    proof {
        lemma_strings_view_push(exit_out, out@.last());
        assert(out@.last()@ == id@);
        assert(strings_view(out@) =~= exit_cur.out.push(id@));
        lemma_strings_view_push(exit_visited, visited@.last());
        assert(visited@.last()@ == id@);
        assert(strings_view(visited@) =~= exit_cur.visited.push(id@));
        lemma_strings_view_drop_last(exit_visiting);
        assert(visiting@ =~= exit_visiting.drop_last());
        assert(strings_view(visiting@) =~= exit_cur.visiting.drop_last());
    }
    Ok(())
}

/// Checks every resolved component's declared conflicts against the full
/// resolved set, as `spec_check_conflicts` says.
#[verifier::loop_isolation(false)]
pub fn check_conflicts(store: &ComponentStore, resolved: &Vec<String>) -> (r: Result<
    (),
    ResolveError,
>)
    ensures
        ({
            let post = spec_check_conflicts(
                *store,
                strings_view(resolved@),
                strings_view(resolved@),
            );
            &&& r is Ok <==> post is None
            &&& r is Err ==> r->Err_0@ == post->0
        }),
{
    let ghost all = strings_view(resolved@);
    let mut i: usize = 0;
    proof {
        assert(all.skip(0) =~= all);
    }
    while i < resolved.len()
        invariant
            0 <= i <= resolved@.len(),
            spec_check_conflicts(*store, all, all) == spec_check_conflicts(
                *store,
                all,
                all.skip(i as int),
            ),
        decreases resolved@.len() - i,
    {
        let ghost rcur = all.skip(i as int);
        proof {
            assert(rcur.len() > 0);
            assert(rcur[0] == all[i as int]);
            assert(rcur.drop_first() =~= all.skip(i as int + 1));
        }
        let c = match load_component(store, resolved[i].as_str()) {
            Ok(c) => c,
            Err(e) => {
                return Err(e);
            },
        };
        let ghost confs = strings_view(c.manifest.conflicts@);
        let mut k: usize = 0;
        proof {
            assert(confs.skip(0) =~= confs);
        }
        while k < c.manifest.conflicts.len()
            invariant
                0 <= k <= c.manifest.conflicts@.len(),
                confs == strings_view(c.manifest.conflicts@),
                spec_first_conflict(confs, all) == spec_first_conflict(
                    confs.skip(k as int),
                    all,
                ),
            decreases c.manifest.conflicts@.len() - k,
        {
            let ghost ccur = confs.skip(k as int);
            proof {
                assert(ccur.len() > 0);
                assert(ccur[0] == confs[k as int]);
                assert(ccur.drop_first() =~= confs.skip(k as int + 1));
            }
            if contains_str(resolved, c.manifest.conflicts[k].as_str()) {
                return Err(
                    ResolveError::Conflict(
                        resolved[i].clone(),
                        c.manifest.conflicts[k].clone(),
                    ),
                );
            }
            k += 1;
        }
        proof {
            assert(confs.skip(c.manifest.conflicts@.len() as int) =~= Seq::<Seq<char>>::empty());
        }
        i += 1;
    }
    proof {
        assert(all.skip(resolved@.len() as int) =~= Seq::<Seq<char>>::empty());
    }
    Ok(())
}

/// Expands `requested` into the full, dependency-ordered component list, as
/// `spec_resolve` says.
#[verifier::loop_isolation(false)]
pub fn resolve_components(store: &ComponentStore, requested: &Vec<String>) -> (r: Result<
    Vec<String>,
    ResolveError,
>)
    requires
        store.overrides@.len() + store.embedded@.len() + 2 <= usize::MAX,
    ensures
        ({
            let post = spec_resolve(*store, strings_view(requested@));
            &&& r is Ok <==> post is Ok
            &&& r is Ok ==> strings_view(r->Ok_0@) == post->Ok_0
            &&& r is Err ==> r->Err_0@ == post->Err_0
        }),
{
    let ghost req = strings_view(requested@);
    let ghost initial = req.map_values(|id: Seq<char>| spec_map_legacy_component_name(id));
    let mut mapped: Vec<String> = Vec::new();
    let mut i: usize = 0;
    while i < requested.len()
        invariant
            0 <= i <= requested@.len(),
            mapped@.len() == i,
            forall|j: int| 0 <= j < i ==> strings_view(mapped@)[j] == initial[j],
        decreases requested@.len() - i,
    {
        let m = map_legacy_component_name(requested[i].as_str());
        mapped.push(m);
        i += 1;
    }
    proof {
        assert(strings_view(mapped@) =~= initial);
    }

    let mut out: Vec<String> = Vec::new();
    let mut visiting: Vec<String> = Vec::new();
    let mut visited: Vec<String> = Vec::new();
    let fuel: usize = store.overrides.len() + store.embedded.len() + 2;
    let ghost st0 = DfsSt { out: Seq::empty(), visiting: Seq::empty(), visited: Seq::empty() };
    proof {
        assert(strings_view(out@) =~= st0.out);
        assert(strings_view(visiting@) =~= st0.visiting);
        assert(strings_view(visited@) =~= st0.visited);
        assert(fuel as nat == spec_fuel(*store));
        assert(initial.skip(0) =~= initial);
    }
    let mut k: usize = 0;
    while k < mapped.len()
        invariant
            0 <= k <= mapped@.len(),
            strings_view(mapped@) == initial,
            fuel as nat == spec_fuel(*store),
            ({
                let cur = DfsSt {
                    out: strings_view(out@),
                    visiting: strings_view(visiting@),
                    visited: strings_view(visited@),
                };
                spec_dfs_list(*store, initial, st0, spec_fuel(*store)) == spec_dfs_list(
                    *store,
                    initial.skip(k as int),
                    cur,
                    spec_fuel(*store),
                )
            }),
        decreases mapped@.len() - k,
    {
        let ghost icur = initial.skip(k as int);
        proof {
            assert(icur.len() > 0);
            assert(icur[0] == initial[k as int]);
            assert(icur.drop_first() =~= initial.skip(k as int + 1));
        }
        match dfs_component(store, mapped[k].as_str(), &mut out, &mut visiting, &mut visited,
            fuel) {
            Ok(()) => {},
            Err(e) => {
                return Err(e);
            },
        }
        k += 1;
    }
    proof {
        assert(initial.skip(mapped@.len() as int) =~= Seq::<Seq<char>>::empty());
    }
    match check_conflicts(store, &out) {
        Ok(()) => Ok(out),
        Err(e) => Err(e),
    }
}

} // verus!

verus! {

/// A successful step keeps everything already output, keeps the output
/// covering the done set, and outputs the id it was called at.
pub proof fn lemma_dfs_out(s: ComponentStore, id: Seq<char>, st: DfsSt, fuel: nat)
    requires
        forall|x: Seq<char>| st.visited.contains(x) ==> st.out.contains(x),
    ensures
        spec_dfs(s, id, st, fuel) is Ok ==> {
            let r = spec_dfs(s, id, st, fuel)->Ok_0;
            &&& forall|x: Seq<char>| st.out.contains(x) ==> r.out.contains(x)
            &&& forall|x: Seq<char>| r.visited.contains(x) ==> r.out.contains(x)
            &&& r.out.contains(id)
        },
    decreases fuel, 0nat,
{
    if st.visited.contains(id) {
    } else if !st.visiting.contains(id) && spec_load_check(s, id) is Ok && fuel > 0 {
        let c = spec_load_check(s, id)->Ok_0;
        let entered = DfsSt { visiting: st.visiting.push(id), ..st };
        lemma_dfs_list_out(s, strings_view(c.manifest.depends@), entered, (fuel - 1) as nat);
        if spec_dfs_list(s, strings_view(c.manifest.depends@), entered, (fuel - 1) as nat) is Ok {
            let done = spec_dfs_list(
                s,
                strings_view(c.manifest.depends@),
                entered,
                (fuel - 1) as nat,
            )->Ok_0;
            let r = spec_dfs(s, id, st, fuel)->Ok_0;
            assert(r.out == done.out.push(id));
            assert(r.out[r.out.len() - 1] == id);
            assert(r.out.contains(id));
            assert forall|x: Seq<char>| done.out.contains(x) implies r.out.contains(x) by {
                let w = choose|i: int| 0 <= i < done.out.len() && done.out[i] == x;
                assert(r.out[w] == x);
            }
            assert forall|x: Seq<char>| r.visited.contains(x) implies r.out.contains(x) by {
                let w = choose|i: int| 0 <= i < r.visited.len() && r.visited[i] == x;
                if w < done.visited.len() {
                    assert(done.visited[w] == x);
                    assert(done.visited.contains(x));
                    assert(done.out.contains(x));
                } else {
                    assert(x == id);
                }
            }
        }
    }
}

/// A successful pass over a list keeps everything already output and
/// outputs every id of the list.
pub proof fn lemma_dfs_list_out(s: ComponentStore, ids: Seq<Seq<char>>, st: DfsSt, fuel: nat)
    requires
        forall|x: Seq<char>| st.visited.contains(x) ==> st.out.contains(x),
    ensures
        spec_dfs_list(s, ids, st, fuel) is Ok ==> {
            let r = spec_dfs_list(s, ids, st, fuel)->Ok_0;
            &&& forall|x: Seq<char>| st.out.contains(x) ==> r.out.contains(x)
            &&& forall|x: Seq<char>| r.visited.contains(x) ==> r.out.contains(x)
            &&& forall|k: int| 0 <= k < ids.len() ==> r.out.contains(#[trigger] ids[k])
        },
    decreases fuel, ids.len() + 1,
{
    if ids.len() > 0 {
        lemma_dfs_out(s, ids[0], st, fuel);
        if spec_dfs(s, ids[0], st, fuel) is Ok {
            let st2 = spec_dfs(s, ids[0], st, fuel)->Ok_0;
            lemma_dfs_list_out(s, ids.drop_first(), st2, fuel);
            if spec_dfs_list(s, ids.drop_first(), st2, fuel) is Ok {
                let r = spec_dfs_list(s, ids, st, fuel)->Ok_0;
                assert forall|k: int| 0 <= k < ids.len() implies r.out.contains(
                    #[trigger] ids[k],
                ) by {
                    if k == 0 {
                        assert(st2.out.contains(ids[0]));
                    } else {
                        assert(ids.drop_first()[k - 1] == ids[k]);
                    }
                }
            }
        }
    }
}

/// No conflict survives a clean conflict check: every id the walk reached
/// loads, and none of its declared conflicts stands in the resolved set.
pub proof fn lemma_check_conflicts_none(s: ComponentStore, all: Seq<Seq<char>>, rem: Seq<Seq<char>>)
    requires
        spec_check_conflicts(s, all, rem) is None,
    ensures
        forall|k: int|
            0 <= k < rem.len() ==> spec_load_check(s, #[trigger] rem[k]) is Ok
                && spec_first_conflict(
                strings_view(spec_load_check(s, rem[k])->Ok_0.manifest.conflicts@),
                all,
            ) is None,
    decreases rem.len(),
{
    if rem.len() > 0 {
        lemma_check_conflicts_none(s, all, rem.drop_first());
        assert forall|k: int|
            0 <= k < rem.len() implies spec_load_check(s, #[trigger] rem[k]) is Ok
            && spec_first_conflict(
            strings_view(spec_load_check(s, rem[k])->Ok_0.manifest.conflicts@),
            all,
        ) is None by {
            if k > 0 {
                assert(rem.drop_first()[k - 1] == rem[k]);
            }
        }
    }
}

/// A conflict list that passes the check holds nothing of the resolved
/// set.
pub proof fn lemma_first_conflict_none(confs: Seq<Seq<char>>, all: Seq<Seq<char>>)
    requires
        spec_first_conflict(confs, all) is None,
    ensures
        forall|j: int| 0 <= j < confs.len() ==> !all.contains(#[trigger] confs[j]),
    decreases confs.len(),
{
    if confs.len() > 0 {
        lemma_first_conflict_none(confs.drop_first(), all);
        assert forall|j: int| 0 <= j < confs.len() implies !all.contains(
            #[trigger] confs[j],
        ) by {
            if j > 0 {
                assert(confs.drop_first()[j - 1] == confs[j]);
            }
        }
    }
}

} // verus!

verus! {

/// The declared dependencies of `id`, when it loads.
pub open spec fn spec_deps_of(s: ComponentStore, id: Seq<char>) -> Seq<Seq<char>> {
    match spec_load_check(s, id) {
        Ok(c) => strings_view(c.manifest.depends@),
        Err(_) => Seq::empty(),
    }
}

/// No id stands twice.
pub open spec fn spec_distinct(out: Seq<Seq<char>>) -> bool {
    forall|i: int, j: int| 0 <= i < j < out.len() ==> out[i] != out[j]
}

/// Every id's declared dependencies stand before it.
pub open spec fn spec_dep_ordered(s: ComponentStore, out: Seq<Seq<char>>) -> bool {
    forall|i: int, j: int|
        0 <= i < out.len() && 0 <= j < spec_deps_of(s, #[trigger] out[i]).len() ==> out.take(
            i,
        ).contains(#[trigger] spec_deps_of(s, out[i])[j])
}

/// The inductive shape of a state the search maintains: the output and the
/// done set coincide, the output holds no id twice with its dependencies
/// before it, and done ids cover the output.
pub open spec fn spec_dfs_wf(s: ComponentStore, st: DfsSt) -> bool {
    &&& st.out == st.visited
    &&& spec_distinct(st.out)
    &&& spec_dep_ordered(s, st.out)
}

/// A successful step keeps the inductive shape, extends the output as a
/// prefix, and never marks an id of the entry path done.
pub proof fn lemma_dfs_shape(s: ComponentStore, id: Seq<char>, st: DfsSt, fuel: nat)
    requires
        spec_dfs_wf(s, st),
    ensures
        spec_dfs(s, id, st, fuel) is Ok ==> {
            let r = spec_dfs(s, id, st, fuel)->Ok_0;
            &&& spec_dfs_wf(s, r)
            &&& r.out.len() >= st.out.len() && r.out.take(st.out.len() as int) == st.out
            &&& forall|x: Seq<char>|
                st.visiting.contains(x) && !st.visited.contains(x) ==> !r.visited.contains(x)
        },
    decreases fuel, 0nat,
{
    if st.visited.contains(id) {
    } else if !st.visiting.contains(id) && spec_load_check(s, id) is Ok && fuel > 0 {
        let c = spec_load_check(s, id)->Ok_0;
        let deps = strings_view(c.manifest.depends@);
        let entered = DfsSt { visiting: st.visiting.push(id), ..st };
        lemma_dfs_list_shape(s, deps, entered, (fuel - 1) as nat);
        if spec_dfs_list(s, deps, entered, (fuel - 1) as nat) is Ok {
            let done = spec_dfs_list(s, deps, entered, (fuel - 1) as nat)->Ok_0;
            assert(forall|x: Seq<char>| st.visited.contains(x) ==> st.out.contains(x));
            lemma_dfs_list_out(s, deps, entered, (fuel - 1) as nat);
            let r = spec_dfs(s, id, st, fuel)->Ok_0;
            assert(r.out == done.out.push(id));
            assert(r.visited == done.visited.push(id));

            // the id itself was never marked done while on the path
            assert(entered.visiting.contains(id)) by {
                assert(entered.visiting[entered.visiting.len() - 1] == id);
            }
            assert(!done.visited.contains(id));
            assert(!done.out.contains(id));

            // the output stays duplicate-free
            assert(spec_distinct(r.out)) by {
                assert forall|i: int, j: int| 0 <= i < j < r.out.len() implies r.out[i]
                    != r.out[j] by {
                    if j < done.out.len() {
                        assert(r.out[i] == done.out[i] && r.out[j] == done.out[j]);
                    } else {
                        assert(r.out[j] == id);
                        assert(r.out[i] == done.out[i]);
                        assert(done.out.contains(done.out[i]));
                    }
                }
            }

            // the output stays dependency-ordered: the new id's dependencies
            // were all resolved by the pass over them
            assert(spec_dep_ordered(s, r.out)) by {
                assert forall|i: int, j: int|
                    0 <= i < r.out.len() && 0 <= j < spec_deps_of(s, #[trigger] r.out[i]).len()
                    implies r.out.take(i).contains(#[trigger] spec_deps_of(s, r.out[i])[j]) by {
                    if i < done.out.len() {
                        assert(r.out[i] == done.out[i]);
                        assert(done.out.take(i).contains(spec_deps_of(s, done.out[i])[j]));
                        let w = choose|k: int|
                            0 <= k < done.out.take(i).len() && done.out.take(i)[k] == spec_deps_of(
                                s,
                                done.out[i],
                            )[j];
                        assert(r.out.take(i)[w] == spec_deps_of(s, done.out[i])[j]);
                    } else {
                        assert(r.out[i] == id);
                        assert(spec_deps_of(s, id) == deps);
                        assert(done.out.contains(deps[j]));
                        let w = choose|k: int|
                            0 <= k < done.out.len() && done.out[k] == deps[j];
                        assert(r.out.take(i)[w] == deps[j]);
                    }
                }
            }

            // wf carries over: output and done set coincide
            assert(r.out =~= r.visited);

            // prefix extension
            assert(r.out.take(st.out.len() as int) =~= done.out.take(st.out.len() as int));

            // ids of the entry path stay out of the done set
            assert forall|x: Seq<char>|
                st.visiting.contains(x) && !st.visited.contains(x) implies !r.visited.contains(
                x,
            ) by {
                assert(entered.visiting.contains(x)) by {
                    let w = choose|k: int|
                        0 <= k < st.visiting.len() && st.visiting[k] == x;
                    assert(entered.visiting[w] == x);
                }
                assert(!done.visited.contains(x));
                if r.visited.contains(x) {
                    let w = choose|k: int| 0 <= k < r.visited.len() && r.visited[k] == x;
                    if w < done.visited.len() {
                        assert(done.visited[w] == x);
                    } else {
                        assert(x == id);
                        assert(st.visiting.contains(id));
                    }
                }
            }
        }
    }
}

/// A successful pass over a list keeps the inductive shape and the other
/// guarantees of `lemma_dfs_shape`.
pub proof fn lemma_dfs_list_shape(s: ComponentStore, ids: Seq<Seq<char>>, st: DfsSt, fuel: nat)
    requires
        spec_dfs_wf(s, st),
    ensures
        spec_dfs_list(s, ids, st, fuel) is Ok ==> {
            let r = spec_dfs_list(s, ids, st, fuel)->Ok_0;
            &&& spec_dfs_wf(s, r)
            &&& r.out.len() >= st.out.len() && r.out.take(st.out.len() as int) == st.out
            &&& forall|x: Seq<char>|
                st.visiting.contains(x) && !st.visited.contains(x) ==> !r.visited.contains(x)
        },
    decreases fuel, ids.len() + 1,
{
    if ids.len() > 0 {
        lemma_dfs_shape(s, ids[0], st, fuel);
        if spec_dfs(s, ids[0], st, fuel) is Ok {
            let st2 = spec_dfs(s, ids[0], st, fuel)->Ok_0;
            lemma_dfs_list_shape(s, ids.drop_first(), st2, fuel);
            if spec_dfs_list(s, ids.drop_first(), st2, fuel) is Ok {
                let r = spec_dfs_list(s, ids, st, fuel)->Ok_0;
                lemma_dfs_visiting(s, ids[0], st, fuel);
                assert(st2.visiting == st.visiting);
                assert(r.out.take(st.out.len() as int) =~= r.out.take(
                    st2.out.len() as int,
                ).take(st.out.len() as int));
                assert forall|x: Seq<char>|
                    st.visiting.contains(x) && !st.visited.contains(x) implies !r.visited.contains(
                    x,
                ) by {
                    assert(!st2.visited.contains(x));
                }
            }
        }
    }
}

/// A resolved list holds no id twice, and every resolved component's
/// declared dependencies stand before it, post-order: a dependency is fully
/// resolved before the component that required it.
pub proof fn lemma_resolution_dependency_ordered(s: ComponentStore, requested: Seq<Seq<char>>)
    ensures
        spec_resolve(s, requested) is Ok ==> spec_distinct(spec_resolve(s, requested)->Ok_0)
            && spec_dep_ordered(s, spec_resolve(s, requested)->Ok_0),
{
    let initial = requested.map_values(|id: Seq<char>| spec_map_legacy_component_name(id));
    let st0 = DfsSt { out: Seq::empty(), visiting: Seq::empty(), visited: Seq::empty() };
    if spec_resolve(s, requested) is Ok {
        assert(spec_dfs_wf(s, st0));
        lemma_dfs_list_shape(s, initial, st0, spec_fuel(s));
    }
}

} // verus!
