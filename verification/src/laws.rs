//! Properties the library promises, stated and proved over the same spec
//! functions its contracts use.

use vstd::prelude::*;

use crate::lifecycle::{spec_compose_project_for, spec_default_compose_project,
    spec_removal_follow_up, spec_removal_plan, spec_rollback_plan, RemovalFollowUp,
    TeardownAction};
use crate::names::{spec_map_legacy_component_name, spec_sanitize_compose};
use crate::codec::sha1_hex_of;
use crate::render::{spec_dedup_files, spec_insert_file, spec_path_present, spec_sort_files};
use crate::resolve::{lemma_check_conflicts_none, lemma_dfs_list_out, lemma_first_conflict_none,
    spec_check_conflicts, spec_dfs, spec_dfs_list, spec_first_conflict, spec_load_check,
    spec_resolve, strings_view, DfsSt, ResolveErrorV};
use crate::store::ComponentStore;

verus! {

/// Resolution is deterministic and idempotent: it is a function of the
/// store and the requested list alone, so resolving the same request twice
/// yields identical ordered output.
pub proof fn lemma_resolution_deterministic(
    s: ComponentStore,
    r1: Seq<Seq<char>>,
    r2: Seq<Seq<char>>,
)
    requires
        r1 == r2,
    ensures
        spec_resolve(s, r1) == spec_resolve(s, r2),
{
}

/// A request whose component closes a dependency cycle immediately at
/// itself never partially succeeds: resolution fails with a cycle error
/// naming that component.
pub proof fn lemma_self_cycle_fails(s: ComponentStore, id: Seq<char>)
    requires
        ({
            let m = spec_map_legacy_component_name(id);
            &&& spec_load_check(s, m) is Ok
            &&& spec_load_check(s, m)->Ok_0.manifest.depends@.len() > 0
            &&& spec_load_check(s, m)->Ok_0.manifest.depends@[0]@ == m
        }),
    ensures
        spec_resolve(s, seq![id]) == Err::<Seq<Seq<char>>, ResolveErrorV>(
            ResolveErrorV::Cycle(spec_map_legacy_component_name(id)),
        ),
{
    let m = spec_map_legacy_component_name(id);
    let initial = seq![id].map_values(|x: Seq<char>| spec_map_legacy_component_name(x));
    assert(initial.len() == 1);
    assert(initial[0] == m);
    let st0 = DfsSt { out: Seq::empty(), visiting: Seq::empty(), visited: Seq::empty() };
    let fuel = crate::resolve::spec_fuel(s);
    assert(fuel >= 2);
    assert(!st0.visited.contains(m));
    assert(!st0.visiting.contains(m));
    let c = spec_load_check(s, m)->Ok_0;
    let entered = DfsSt { visiting: st0.visiting.push(m), ..st0 };
    let deps = strings_view(c.manifest.depends@);
    assert(deps[0] == m);
    assert(!entered.visited.contains(m));
    assert(entered.visiting.contains(m)) by {
        assert(entered.visiting[0] == m);
    }
    assert(spec_dfs(s, m, entered, (fuel - 1) as nat) == Err::<DfsSt, ResolveErrorV>(
        ResolveErrorV::Cycle(m),
    ));
    assert(spec_dfs_list(s, deps, entered, (fuel - 1) as nat) == Err::<DfsSt, ResolveErrorV>(
        ResolveErrorV::Cycle(m),
    ));
    assert(spec_dfs(s, m, st0, fuel) == Err::<DfsSt, ResolveErrorV>(ResolveErrorV::Cycle(m)));
    assert(spec_dfs_list(s, initial, st0, fuel) == Err::<DfsSt, ResolveErrorV>(
        ResolveErrorV::Cycle(m),
    ));
}

/// Two components of which one declares a conflict with the other never
/// resolve together, in either request order.
pub proof fn lemma_conflicting_pair_fails(s: ComponentStore, a: Seq<char>, b: Seq<char>)
    requires
        ({
            let ma = spec_map_legacy_component_name(a);
            let mb = spec_map_legacy_component_name(b);
            &&& spec_load_check(s, ma) is Ok
            &&& strings_view(spec_load_check(s, ma)->Ok_0.manifest.conflicts@).contains(mb)
        }),
    ensures
        spec_resolve(s, seq![a, b]) is Err,
        spec_resolve(s, seq![b, a]) is Err,
{
    lemma_pair_order_fails(s, a, b, a, b);
    lemma_pair_order_fails(s, a, b, b, a);
}

/// One request order of a conflicting pair fails.
proof fn lemma_pair_order_fails(
    s: ComponentStore,
    a: Seq<char>,
    b: Seq<char>,
    first: Seq<char>,
    second: Seq<char>,
)
    requires
        ({
            let ma = spec_map_legacy_component_name(a);
            let mb = spec_map_legacy_component_name(b);
            &&& spec_load_check(s, ma) is Ok
            &&& strings_view(spec_load_check(s, ma)->Ok_0.manifest.conflicts@).contains(mb)
        }),
        (first == a && second == b) || (first == b && second == a),
    ensures
        spec_resolve(s, seq![first, second]) is Err,
{
    let ma = spec_map_legacy_component_name(a);
    let mb = spec_map_legacy_component_name(b);
    let req = seq![first, second];
    let initial = req.map_values(|x: Seq<char>| spec_map_legacy_component_name(x));
    assert(initial.len() == 2);
    assert(initial[0] == spec_map_legacy_component_name(first));
    assert(initial[1] == spec_map_legacy_component_name(second));
    let st0 = DfsSt { out: Seq::empty(), visiting: Seq::empty(), visited: Seq::empty() };
    let fuel = crate::resolve::spec_fuel(s);
    if spec_resolve(s, req) is Ok {
        assert(spec_dfs_list(s, initial, st0, fuel) is Ok);
        assert(forall|x: Seq<char>| st0.visited.contains(x) ==> st0.out.contains(x));
        lemma_dfs_list_out(s, initial, st0, fuel);
        let done = spec_dfs_list(s, initial, st0, fuel)->Ok_0;
        assert(done.out.contains(ma) && done.out.contains(mb)) by {
            assert(done.out.contains(initial[0]));
            assert(done.out.contains(initial[1]));
        }
        assert(spec_check_conflicts(s, done.out, done.out) is None);
        lemma_check_conflicts_none(s, done.out, done.out);
        let w = choose|i: int| 0 <= i < done.out.len() && done.out[i] == ma;
        assert(done.out[w] == ma);
        assert(spec_load_check(s, done.out[w]) is Ok && spec_first_conflict(
            strings_view(spec_load_check(s, done.out[w])->Ok_0.manifest.conflicts@),
            done.out,
        ) is None);
        lemma_first_conflict_none(
            strings_view(spec_load_check(s, ma)->Ok_0.manifest.conflicts@),
            done.out,
        );
        let confs = strings_view(spec_load_check(s, ma)->Ok_0.manifest.conflicts@);
        let u = choose|j: int| 0 <= j < confs.len() && confs[j] == mb;
        assert(confs[u] == mb);
        assert(!done.out.contains(confs[u]));
        assert(false);
    }
}

/// Inserting a file adds its path and keeps the others.
proof fn lemma_insert_file_path_iff(
    f: (Seq<char>, Seq<u8>),
    sorted: Seq<(Seq<char>, Seq<u8>)>,
    x: Seq<char>,
)
    ensures
        spec_path_present(spec_insert_file(f, sorted), x) <==> (x == f.0 || spec_path_present(
            sorted,
            x,
        )),
    decreases sorted.len(),
{
    let r = spec_insert_file(f, sorted);
    if sorted.len() == 0 || crate::text::spec_lex_lt(f.0, sorted[0].0) {
        if spec_path_present(r, x) {
            let w = choose|i: int| 0 <= i < r.len() && (#[trigger] r[i]).0 == x;
            if sorted.len() > 0 && w > 0 {
                assert(sorted[w - 1].0 == x);
            }
        }
        if x == f.0 {
            assert(r[0].0 == x);
        }
        if spec_path_present(sorted, x) {
            let w = choose|i: int| 0 <= i < sorted.len() && (#[trigger] sorted[i]).0 == x;
            assert(r[w + 1].0 == x);
        }
    } else {
        lemma_insert_file_path_iff(f, sorted.drop_first(), x);
        let rr = spec_insert_file(f, sorted.drop_first());
        assert(r == seq![sorted[0]] + rr);
        if spec_path_present(r, x) {
            let w = choose|i: int| 0 <= i < r.len() && (#[trigger] r[i]).0 == x;
            if w == 0 {
                assert(sorted[0].0 == x);
            } else {
                assert(rr[w - 1].0 == x);
                assert(spec_path_present(rr, x));
                if x != f.0 {
                    let u = choose|i: int|
                        0 <= i < sorted.drop_first().len() && (#[trigger] sorted.drop_first()[i]).0
                            == x;
                    assert(sorted[u + 1].0 == x);
                }
            }
        }
        if x == f.0 {
            assert(spec_path_present(rr, x));
            let u = choose|i: int| 0 <= i < rr.len() && (#[trigger] rr[i]).0 == x;
            assert(r[u + 1].0 == x);
        }
        if spec_path_present(sorted, x) {
            let w = choose|i: int| 0 <= i < sorted.len() && (#[trigger] sorted[i]).0 == x;
            if w == 0 {
                assert(r[0].0 == x);
            } else {
                assert(sorted.drop_first()[w - 1].0 == x);
                assert(spec_path_present(sorted.drop_first(), x));
                assert(spec_path_present(rr, x));
                let u = choose|i: int| 0 <= i < rr.len() && (#[trigger] rr[i]).0 == x;
                assert(r[u + 1].0 == x);
            }
        }
    }
}

/// Inserting a fresh path into files of pairwise distinct paths keeps the
/// paths pairwise distinct.
proof fn lemma_insert_file_distinct(f: (Seq<char>, Seq<u8>), sorted: Seq<(Seq<char>, Seq<u8>)>)
    requires
        forall|i: int, j: int|
            0 <= i < j < sorted.len() ==> (#[trigger] sorted[i]).0 != (#[trigger] sorted[j]).0,
        !spec_path_present(sorted, f.0),
    ensures
        forall|i: int, j: int|
            0 <= i < j < spec_insert_file(f, sorted).len() ==> (#[trigger] spec_insert_file(
                f,
                sorted,
            )[i]).0 != (#[trigger] spec_insert_file(f, sorted)[j]).0,
    decreases sorted.len(),
{
    let r = spec_insert_file(f, sorted);
    if sorted.len() == 0 || crate::text::spec_lex_lt(f.0, sorted[0].0) {
        assert forall|i: int, j: int| 0 <= i < j < r.len() implies (#[trigger] r[i]).0 != (
        #[trigger] r[j]).0 by {
            if i == 0 {
                if sorted.len() > 0 {
                    assert(r[j] == sorted[j - 1]);
                    assert(sorted[j - 1].0 != f.0) by {
                        if sorted[j - 1].0 == f.0 {
                            assert(spec_path_present(sorted, f.0));
                        }
                    }
                }
            } else {
                assert(r[i] == sorted[i - 1] && r[j] == sorted[j - 1]);
            }
        }
    } else {
        assert(!spec_path_present(sorted.drop_first(), f.0)) by {
            if spec_path_present(sorted.drop_first(), f.0) {
                let w = choose|i: int|
                    0 <= i < sorted.drop_first().len() && (#[trigger] sorted.drop_first()[i]).0
                        == f.0;
                assert(sorted[w + 1].0 == f.0);
            }
        }
        lemma_insert_file_distinct(f, sorted.drop_first());
        let rr = spec_insert_file(f, sorted.drop_first());
        assert(r == seq![sorted[0]] + rr);
        assert forall|i: int, j: int| 0 <= i < j < r.len() implies (#[trigger] r[i]).0 != (
        #[trigger] r[j]).0 by {
            if i == 0 {
                assert(r[j] == rr[j - 1]);
                if rr[j - 1].0 == sorted[0].0 {
                    assert(spec_path_present(rr, sorted[0].0));
                    lemma_insert_file_path_iff(f, sorted.drop_first(), sorted[0].0);
                    if sorted[0].0 != f.0 {
                        assert(spec_path_present(sorted.drop_first(), sorted[0].0));
                        let w = choose|m: int|
                            0 <= m < sorted.drop_first().len() && (#[trigger] sorted.drop_first()[m]).0
                                == sorted[0].0;
                        assert(sorted[w + 1].0 == sorted[0].0);
                    } else {
                        assert(spec_path_present(sorted, f.0)) by {
                            assert(sorted[0].0 == f.0);
                        }
                    }
                }
            } else {
                assert(r[i] == rr[i - 1] && r[j] == rr[j - 1]);
            }
        }
    }
}

/// Deduplicated files hold pairwise distinct paths.
pub proof fn lemma_dedup_files_distinct(v: Seq<(Seq<char>, Seq<u8>)>)
    ensures
        forall|i: int, j: int|
            0 <= i < j < spec_dedup_files(v).len() ==> (#[trigger] spec_dedup_files(v)[i]).0 != (
            #[trigger] spec_dedup_files(v)[j]).0,
    decreases v.len(),
{
    if v.len() > 0 {
        lemma_dedup_files_distinct(v.drop_last());
        let p = spec_dedup_files(v.drop_last());
        if !spec_path_present(p, v.last().0) {
            assert forall|i: int, j: int|
                0 <= i < j < spec_dedup_files(v).len() implies (#[trigger] spec_dedup_files(
                v,
            )[i]).0 != (#[trigger] spec_dedup_files(v)[j]).0 by {
                if j == p.len() {
                    assert(spec_dedup_files(v)[i] == p[i]);
                    if p[i].0 == v.last().0 {
                        assert(spec_path_present(p, v.last().0));
                    }
                } else {
                    assert(spec_dedup_files(v)[i] == p[i] && spec_dedup_files(v)[j] == p[j]);
                }
            }
        }
    }
}

/// Ordering files keeps their paths and their pairwise distinctness.
pub proof fn lemma_sort_files_distinct(v: Seq<(Seq<char>, Seq<u8>)>)
    requires
        forall|i: int, j: int|
            0 <= i < j < v.len() ==> (#[trigger] v[i]).0 != (#[trigger] v[j]).0,
    ensures
        forall|x: Seq<char>| spec_path_present(spec_sort_files(v), x) <==> spec_path_present(v, x),
        forall|i: int, j: int|
            0 <= i < j < spec_sort_files(v).len() ==> (#[trigger] spec_sort_files(v)[i]).0 != (
            #[trigger] spec_sort_files(v)[j]).0,
    decreases v.len(),
{
    if v.len() == 0 {
        assert forall|x: Seq<char>|
            spec_path_present(spec_sort_files(v), x) <==> spec_path_present(v, x) by {
            if spec_path_present(v, x) {
                let w = choose|i: int| 0 <= i < v.len() && (#[trigger] v[i]).0 == x;
            }
            if spec_path_present(spec_sort_files(v), x) {
                let w = choose|i: int|
                    0 <= i < spec_sort_files(v).len() && (#[trigger] spec_sort_files(v)[i]).0 == x;
            }
        }
    } else {
        assert forall|i: int, j: int|
            0 <= i < j < v.drop_first().len() implies (#[trigger] v.drop_first()[i]).0 != (
        #[trigger] v.drop_first()[j]).0 by {
            assert(v.drop_first()[i] == v[i + 1] && v.drop_first()[j] == v[j + 1]);
        }
        lemma_sort_files_distinct(v.drop_first());
        let sorted_rest = spec_sort_files(v.drop_first());
        assert(!spec_path_present(sorted_rest, v[0].0)) by {
            if spec_path_present(sorted_rest, v[0].0) {
                assert(spec_path_present(v.drop_first(), v[0].0));
                let w = choose|i: int|
                    0 <= i < v.drop_first().len() && (#[trigger] v.drop_first()[i]).0 == v[0].0;
                assert(v[w + 1].0 == v[0].0);
            }
        }
        lemma_insert_file_distinct(v[0], sorted_rest);
        assert forall|x: Seq<char>|
            spec_path_present(spec_sort_files(v), x) <==> spec_path_present(v, x) by {
            lemma_insert_file_path_iff(v[0], sorted_rest, x);
            if spec_path_present(v, x) {
                let w = choose|i: int| 0 <= i < v.len() && (#[trigger] v[i]).0 == x;
                if w > 0 {
                    assert(v.drop_first()[w - 1].0 == x);
                    assert(spec_path_present(v.drop_first(), x));
                }
            }
            if spec_path_present(spec_sort_files(v), x) && x != v[0].0 {
                assert(spec_path_present(v.drop_first(), x));
                let w = choose|i: int|
                    0 <= i < v.drop_first().len() && (#[trigger] v.drop_first()[i]).0 == x;
                assert(v[w + 1].0 == x);
            }
        }
    }
}

/// The store a written file set makes: later files overwrite earlier ones
/// at the same path.
pub open spec fn spec_write_files(files: Seq<(Seq<char>, Seq<u8>)>) -> Map<Seq<char>, Seq<u8>>
    decreases files.len(),
{
    if files.len() == 0 {
        Map::empty()
    } else {
        spec_write_files(files.drop_last()).insert(files.last().0, files.last().1)
    }
}

/// Round trip: writing a rendered file set, whose paths are pairwise
/// distinct as the renderer leaves them, and reading every path back
/// yields each file's bytes unchanged.
pub proof fn lemma_files_round_trip(files: Seq<(Seq<char>, Seq<u8>)>)
    requires
        forall|i: int, j: int|
            0 <= i < j < files.len() ==> (#[trigger] files[i]).0 != (#[trigger] files[j]).0,
    ensures
        forall|i: int|
            0 <= i < files.len() ==> spec_write_files(files).contains_key(
                (#[trigger] files[i]).0,
            ) && spec_write_files(files)[files[i].0] == files[i].1,
    decreases files.len(),
{
    if files.len() > 0 {
        assert forall|i: int, j: int|
            0 <= i < j < files.drop_last().len() implies (#[trigger] files.drop_last()[i]).0 != (
        #[trigger] files.drop_last()[j]).0 by {
            assert(files.drop_last()[i] == files[i] && files.drop_last()[j] == files[j]);
        }
        lemma_files_round_trip(files.drop_last());
        assert forall|i: int|
            0 <= i < files.len() implies spec_write_files(files).contains_key(
            (#[trigger] files[i]).0,
        ) && spec_write_files(files)[files[i].0] == files[i].1 by {
            if i < files.len() - 1 {
                assert(files.drop_last()[i] == files[i]);
                assert(files[i].0 != files.last().0);
            }
        }
    }
}

/// The paths of a rendered output are pairwise distinct, so the round
/// trip of `lemma_files_round_trip` applies to every render.
pub proof fn lemma_render_output_distinct(v: Seq<(Seq<char>, Seq<u8>)>)
    ensures
        forall|i: int, j: int|
            0 <= i < j < spec_sort_files(spec_dedup_files(v)).len() ==> (
            #[trigger] spec_sort_files(spec_dedup_files(v))[i]).0 != (#[trigger] spec_sort_files(
                spec_dedup_files(v),
            )[j]).0,
{
    lemma_dedup_files_distinct(v);
    lemma_sort_files_distinct(spec_dedup_files(v));
}

/// Removal never deletes a branch: the teardown plan holds no branch
/// action, whatever was observed.
pub proof fn lemma_removal_preserves_branch(has_own_compose: bool, force: bool)
    ensures
        !spec_removal_plan(has_own_compose, force).contains(TeardownAction::DeleteBranch),
{
    let plan = spec_removal_plan(has_own_compose, force);
    if plan.contains(TeardownAction::DeleteBranch) {
        let w = choose|i: int|
            0 <= i < plan.len() && plan[i] == TeardownAction::DeleteBranch;
        assert(plan[w] != TeardownAction::DeleteBranch);
    }
}

/// A clean checkout needs no force: when the unforced removal succeeded,
/// the follow-up is done, never a forced retry.
pub proof fn lemma_clean_removal_needs_no_force(suggests_force: bool, can_prompt: bool)
    ensures
        spec_removal_follow_up(true, suggests_force, can_prompt) == RemovalFollowUp::Done,
{
}

/// Rollback deletes the branch exactly when this invocation created it,
/// and always removes the checkout it created.
pub proof fn lemma_rollback_branch_policy(created_branch: bool)
    ensures
        spec_rollback_plan(created_branch).contains(TeardownAction::DeleteBranch)
            <==> created_branch,
        spec_rollback_plan(created_branch).contains(TeardownAction::RemoveWorktreeForced),
{
    let plan = spec_rollback_plan(created_branch);
    assert(plan[2] == TeardownAction::RemoveWorktreeForced);
    assert(plan.contains(TeardownAction::RemoveWorktreeForced));
    if created_branch {
        assert(plan[3] == TeardownAction::DeleteBranch);
        assert(plan.contains(TeardownAction::DeleteBranch));
    } else {
        if plan.contains(TeardownAction::DeleteBranch) {
            let w = choose|i: int|
                0 <= i < plan.len() && plan[i] == TeardownAction::DeleteBranch;
            assert(plan[w] != TeardownAction::DeleteBranch);
        }
    }
}

/// Two agents whose sanitized names differ never share a compose project
/// name.
pub proof fn lemma_distinct_agent_projects(a: Seq<char>, b: Seq<char>)
    requires
        spec_sanitize_compose(a) != spec_sanitize_compose(b),
    ensures
        spec_compose_project_for(a) != spec_compose_project_for(b),
{
    reveal_strlit("agent_");
    let pa = spec_compose_project_for(a);
    let pb = spec_compose_project_for(b);
    if pa == pb {
        assert(spec_sanitize_compose(a) =~= pa.skip(6));
        assert(spec_sanitize_compose(b) =~= pb.skip(6));
    }
}

/// Two directories whose path digests differ in their leading eight hex
/// digits never share a default compose project name, even when their
/// sanitized base names collide.
pub proof fn lemma_distinct_default_projects(
    base_a: Seq<char>,
    bytes_a: Seq<u8>,
    base_b: Seq<char>,
    bytes_b: Seq<u8>,
)
    requires
        sha1_hex_of(bytes_a).len() == 40,
        sha1_hex_of(bytes_b).len() == 40,
        sha1_hex_of(bytes_a).take(8) != sha1_hex_of(bytes_b).take(8),
    ensures
        spec_default_compose_project(base_a, bytes_a) != spec_default_compose_project(
            base_b,
            bytes_b,
        ),
{
    let na = spec_default_compose_project(base_a, bytes_a);
    let nb = spec_default_compose_project(base_b, bytes_b);
    if na == nb {
        assert(sha1_hex_of(bytes_a).take(8) =~= na.skip(na.len() - 8));
        assert(sha1_hex_of(bytes_b).take(8) =~= nb.skip(nb.len() - 8));
    }
}

} // verus!

verus! {

/// The position of `x` in `out`; meaningful when `out` holds `x` exactly
/// once.
pub open spec fn spec_pos(out: Seq<Seq<char>>, x: Seq<char>) -> int {
    choose|i: int| 0 <= i < out.len() && out[i] == x
}

/// In a duplicate-free list, the chosen position is the one position.
proof fn lemma_pos_of(out: Seq<Seq<char>>, x: Seq<char>)
    requires
        crate::resolve::spec_distinct(out),
        out.contains(x),
    ensures
        0 <= spec_pos(out, x) < out.len(),
        out[spec_pos(out, x)] == x,
        forall|i: int| 0 <= i < out.len() && out[i] == x ==> i == spec_pos(out, x),
{
    let w = choose|i: int| 0 <= i < out.len() && out[i] == x;
    assert(out[w] == x);
    assert forall|i: int| 0 <= i < out.len() && out[i] == x implies i == spec_pos(out, x) by {
        if i != spec_pos(out, x) {
            assert(out[i] != out[spec_pos(out, x)]);
        }
    }
}

/// In a duplicate-free, dependency-ordered list, a dependency edge points
/// strictly backwards.
proof fn lemma_dep_edge_backwards(
    s: ComponentStore,
    out: Seq<Seq<char>>,
    x: Seq<char>,
    d: Seq<char>,
)
    requires
        crate::resolve::spec_distinct(out),
        crate::resolve::spec_dep_ordered(s, out),
        out.contains(x),
        crate::resolve::spec_deps_of(s, x).contains(d),
    ensures
        out.contains(d),
        spec_pos(out, d) < spec_pos(out, x),
{
    lemma_pos_of(out, x);
    let i = spec_pos(out, x);
    let j = choose|k: int|
        0 <= k < crate::resolve::spec_deps_of(s, x).len() && crate::resolve::spec_deps_of(
            s,
            x,
        )[k] == d;
    assert(out.take(i).contains(crate::resolve::spec_deps_of(s, out[i])[j]));
    let w = choose|k: int| 0 <= k < out.take(i).len() && out.take(i)[k] == d;
    assert(out[w] == d);
    assert(out.contains(d));
    lemma_pos_of(out, d);
}

/// Following dependency edges along a path, positions fall by at least one
/// per step.
proof fn lemma_path_positions_fall(
    s: ComponentStore,
    out: Seq<Seq<char>>,
    p: Seq<Seq<char>>,
)
    requires
        crate::resolve::spec_distinct(out),
        crate::resolve::spec_dep_ordered(s, out),
        p.len() > 0,
        out.contains(p[0]),
        forall|k: int|
            0 <= k < p.len() - 1 ==> crate::resolve::spec_deps_of(s, #[trigger] p[k]).contains(
                p[k + 1],
            ),
    ensures
        forall|k: int|
            0 <= k < p.len() ==> out.contains(#[trigger] p[k]) && spec_pos(out, p[k]) + k
                <= spec_pos(out, p[0]),
    decreases p.len(),
{
    if p.len() > 1 {
        lemma_dep_edge_backwards(s, out, p[0], p[1]);
        let q = p.drop_first();
        assert forall|k: int|
            0 <= k < q.len() - 1 implies crate::resolve::spec_deps_of(
            s,
            #[trigger] q[k],
        ).contains(q[k + 1]) by {
            assert(q[k] == p[k + 1] && q[k + 1] == p[k + 2]);
        }
        lemma_path_positions_fall(s, out, q);
        assert forall|k: int|
            0 <= k < p.len() implies out.contains(#[trigger] p[k]) && spec_pos(out, p[k]) + k
            <= spec_pos(out, p[0]) by {
            if k > 0 {
                assert(q[k - 1] == p[k]);
                assert(spec_pos(out, q[k - 1]) + (k - 1) <= spec_pos(out, q[0]));
                assert(spec_pos(out, p[1]) < spec_pos(out, p[0]));
            }
        }
    }
}

/// A request from which a dependency cycle is reachable never resolves: it
/// fails, and never partially succeeds. `chain` witnesses the reach from a
/// requested id to the cycle `p`, whose every component depends on the
/// next and whose last depends on its first.
pub proof fn lemma_reachable_cycle_fails(
    s: ComponentStore,
    requested: Seq<Seq<char>>,
    chain: Seq<Seq<char>>,
    p: Seq<Seq<char>>,
)
    requires
        chain.len() > 0,
        exists|m: int|
            0 <= m < requested.len() && chain[0] == spec_map_legacy_component_name(
                #[trigger] requested[m],
            ),
        forall|k: int|
            0 <= k < chain.len() - 1 ==> crate::resolve::spec_deps_of(
                s,
                #[trigger] chain[k],
            ).contains(chain[k + 1]),
        chain.last() == p[0],
        p.len() > 0,
        forall|k: int|
            0 <= k < p.len() - 1 ==> crate::resolve::spec_deps_of(s, #[trigger] p[k]).contains(
                p[k + 1],
            ),
        crate::resolve::spec_deps_of(s, p.last()).contains(p[0]),
    ensures
        spec_resolve(s, requested) is Err,
{
    if spec_resolve(s, requested) is Ok {
        let initial = requested.map_values(|id: Seq<char>| spec_map_legacy_component_name(id));
        let st0 = DfsSt { out: Seq::empty(), visiting: Seq::empty(), visited: Seq::empty() };
        let fuel = crate::resolve::spec_fuel(s);
        assert(spec_dfs_list(s, initial, st0, fuel) is Ok);
        assert(forall|x: Seq<char>| st0.visited.contains(x) ==> st0.out.contains(x));
        lemma_dfs_list_out(s, initial, st0, fuel);
        crate::resolve::lemma_dfs_list_shape(s, initial, st0, fuel);
        let out = spec_dfs_list(s, initial, st0, fuel)->Ok_0.out;
        assert(spec_resolve(s, requested)->Ok_0 == out);

        // the chain's head is a requested id, so it resolved
        let m = choose|m: int|
            0 <= m < requested.len() && chain[0] == spec_map_legacy_component_name(
                #[trigger] requested[m],
            );
        assert(initial[m] == chain[0]);
        assert(out.contains(chain[0]));

        // the cycle's entry is reached along the chain
        lemma_path_positions_fall(s, out, chain);
        assert(out.contains(chain[chain.len() - 1]));
        assert(out.contains(p[0]));

        // positions fall around the cycle, and once more across the back
        // edge: a contradiction
        lemma_path_positions_fall(s, out, p);
        assert(out.contains(p[p.len() - 1]));
        assert(spec_pos(out, p[p.len() - 1]) + (p.len() - 1) <= spec_pos(out, p[0]));
        lemma_dep_edge_backwards(s, out, p[p.len() - 1], p[0]);
        assert(spec_pos(out, p[0]) < spec_pos(out, p[p.len() - 1]));
        assert(false);
    }
}

} // verus!
