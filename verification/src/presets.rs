//! The preset and profile resolver, and collection of parameter
//! definitions across a resolved component set.
//!
//! For a named target, resolution order is: a caller-provided pre-rendered
//! file tree, which must hold all three top-level descriptor files or is a
//! hard error; a caller-provided named profile, rendered on demand; and an
//! embedded profile, rendered on demand. Falling through all of them is an
//! unknown-preset error. The embedded set carries its presets as profiles,
//! so there is no separate pre-rendered embedded tree to consult.

use vstd::prelude::*;

use crate::names::str_eq;
use crate::params::{pairs_view, Params};
use crate::render::{clone_template_file, files_view, render_from_components, spec_path_present,
    spec_render, RenderError, RenderErrorV};
use crate::resolve::{resolve_components, spec_load_check, spec_resolve, strings_view,
    load_component, ResolveError, ResolveErrorV};
use crate::store::{ComponentParam, ComponentStore, ProfileManifest, TemplateFile};
use crate::text::{spec_lex_lt, str_lt};

verus! {

/// The model of one parameter definition.
pub struct ParamDefV {
    /// The global parameter key.
    pub key: Seq<char>,
    /// The prompt shown when a value is asked for.
    pub prompt: Seq<char>,
    /// The default value.
    pub default: Seq<char>,
    /// The closed set of allowed values, when non-empty.
    pub choices: Seq<Seq<char>>,
}

/// The model of a parameter definition.
pub open spec fn cp_view(p: ComponentParam) -> ParamDefV {
    ParamDefV {
        key: p.key@,
        prompt: p.prompt@,
        default: p.default@,
        choices: strings_view(p.choices@),
    }
}

/// The models of a sequence of parameter definitions.
pub open spec fn cps_view(v: Seq<ComponentParam>) -> Seq<ParamDefV> {
    v.map_values(|p: ComponentParam| cp_view(p))
}

/// Whether some definition carries key `k`.
pub open spec fn spec_def_has_key(defs: Seq<ParamDefV>, k: Seq<char>) -> bool {
    exists|i: int| 0 <= i < defs.len() && (#[trigger] defs[i]).key == k
}

/// Where a fresh definition belongs: before the first key that reads
/// greater.
pub open spec fn spec_def_insert_pos(defs: Seq<ParamDefV>, k: Seq<char>) -> int
    decreases defs.len(),
{
    if defs.len() == 0 {
        0
    } else if spec_lex_lt(k, defs[0].key) {
        0
    } else {
        1 + spec_def_insert_pos(defs.drop_first(), k)
    }
}

/// The definitions after `p` is offered: the first definition of a key
/// wins; a fresh key is inserted in key order.
pub open spec fn spec_add_def(defs: Seq<ParamDefV>, p: ParamDefV) -> Seq<ParamDefV> {
    if spec_def_has_key(defs, p.key) {
        defs
    } else {
        defs.insert(spec_def_insert_pos(defs, p.key), p)
    }
}

/// Folds one component's declared parameters into the definitions.
pub open spec fn spec_fold_defs(defs: Seq<ParamDefV>, ps: Seq<ComponentParam>) -> Seq<ParamDefV>
    decreases ps.len(),
{
    if ps.len() == 0 {
        defs
    } else {
        spec_fold_defs(spec_add_def(defs, cp_view(ps[0])), ps.drop_first())
    }
}

/// Collects every resolved component's parameter definitions in resolution
/// order, first definition of a key winning, held in key order.
pub open spec fn spec_collect_param_defs(
    s: ComponentStore,
    resolved: Seq<Seq<char>>,
    defs: Seq<ParamDefV>,
) -> Result<Seq<ParamDefV>, ResolveErrorV>
    decreases resolved.len(),
{
    if resolved.len() == 0 {
        Ok(defs)
    } else {
        match spec_load_check(s, resolved[0]) {
            Err(e) => Err(e),
            Ok(c) => spec_collect_param_defs(
                s,
                resolved.drop_first(),
                spec_fold_defs(defs, c.manifest.params@),
            ),
        }
    }
}

/// What `component_param_defs` returns: the request resolves, and the
/// resolved components' parameter definitions collect.
pub open spec fn spec_component_param_defs(s: ComponentStore, requested: Seq<Seq<char>>) -> Result<
    Seq<ParamDefV>,
    ResolveErrorV,
> {
    match spec_resolve(s, requested) {
        Err(e) => Err(e),
        Ok(res) => spec_collect_param_defs(s, res, Seq::empty()),
    }
}

/// A copy of a parameter definition, equal in the model.
#[verifier::loop_isolation(false)]
fn clone_component_param(p: &ComponentParam) -> (r: ComponentParam)
    ensures
        cp_view(r) == cp_view(*p),
{
    let mut choices: Vec<String> = Vec::new();
    let mut i: usize = 0;
    while i < p.choices.len()
        invariant
            0 <= i <= p.choices@.len(),
            choices@.len() == i,
            forall|j: int| 0 <= j < i ==> (#[trigger] choices@[j])@ == p.choices@[j]@,
        decreases p.choices@.len() - i,
    {
        choices.push(p.choices[i].clone());
        i += 1;
    }
    let r = ComponentParam {
        key: p.key.clone(),
        prompt: p.prompt.clone(),
        default: p.default.clone(),
        choices,
    };
    proof {
        assert(strings_view(r.choices@) =~= strings_view(p.choices@));
    }
    r
}

/// Whether some collected definition carries `key`.
#[verifier::loop_isolation(false)]
fn defs_have_key(defs: &Vec<ComponentParam>, key: &String) -> (r: bool)
    ensures
        r == spec_def_has_key(cps_view(defs@), key@),
{
    let mut i: usize = 0;
    while i < defs.len()
        invariant
            0 <= i <= defs@.len(),
            forall|j: int| 0 <= j < i ==> (#[trigger] cps_view(defs@)[j]).key != key@,
        decreases defs@.len() - i,
    {
        if str_eq(defs[i].key.as_str(), key.as_str()) {
            proof {
                assert(cps_view(defs@)[i as int].key == key@);
            }
            return true;
        }
        i += 1;
    }
    proof {
        if spec_def_has_key(cps_view(defs@), key@) {
            let w = choose|j: int|
                0 <= j < cps_view(defs@).len() && (#[trigger] cps_view(defs@)[j]).key == key@;
            assert(cps_view(defs@)[w].key != key@);
        }
    }
    false
}

/// Inserts a definition with a fresh key at its ordered position.
#[verifier::loop_isolation(false)]
fn insert_def_sorted(defs: &mut Vec<ComponentParam>, p: ComponentParam)
    ensures
        cps_view(final(defs)@) == cps_view(old(defs)@).insert(
            spec_def_insert_pos(cps_view(old(defs)@), p.key@),
            cp_view(p),
        ),
{
    let ghost all = cps_view(old(defs)@);
    let mut pos: usize = 0;
    proof {
        assert(all.skip(0) =~= all);
    }
    while pos < defs.len() && !str_lt(p.key.as_str(), defs[pos].key.as_str())
        invariant
            0 <= pos <= defs@.len(),
            *defs == *old(defs),
            spec_def_insert_pos(all, p.key@) == pos + spec_def_insert_pos(
                all.skip(pos as int),
                p.key@,
            ),
        decreases defs@.len() - pos,
    {
        proof {
            assert(all.skip(pos as int)[0] == all[pos as int]);
            assert(all.skip(pos as int).drop_first() =~= all.skip(pos as int + 1));
        }
        pos += 1;
    }
    proof {
        if pos < defs@.len() {
            assert(all.skip(pos as int)[0] == all[pos as int]);
            assert(spec_def_insert_pos(all.skip(pos as int), p.key@) == 0);
        } else {
            assert(all.skip(pos as int) =~= Seq::<ParamDefV>::empty());
        }
    }
    defs.insert(pos, p);
    proof {
        assert(cps_view(defs@) =~= all.insert(pos as int, cp_view(defs@[pos as int])));
    }
}

/// Resolves `components` and collects the parameter definitions they
/// declare, as `spec_component_param_defs` says: the first definition of a
/// key wins, and the result is held in key order.
#[verifier::loop_isolation(false)]
pub fn component_param_defs(store: &ComponentStore, components: &Vec<String>) -> (r: Result<
    Vec<ComponentParam>,
    ResolveError,
>)
    requires
        store.overrides@.len() + store.embedded@.len() + 2 <= usize::MAX,
    ensures
        ({
            let post = spec_component_param_defs(*store, strings_view(components@));
            &&& r is Ok <==> post is Ok
            &&& r is Ok ==> cps_view(r->Ok_0@) == post->Ok_0
            &&& r is Err ==> r->Err_0@ == post->Err_0
        }),
{
    let resolved = match resolve_components(store, components) {
        Ok(v) => v,
        Err(e) => {
            return Err(e);
        },
    };
    let ghost rv = strings_view(resolved@);
    let mut defs: Vec<ComponentParam> = Vec::new();
    let mut i: usize = 0;
    proof {
        assert(cps_view(defs@) =~= Seq::<ParamDefV>::empty());
        assert(rv.skip(0) =~= rv);
    }
    while i < resolved.len()
        invariant
            0 <= i <= resolved@.len(),
            rv == strings_view(resolved@),
            spec_collect_param_defs(*store, rv, Seq::empty()) == spec_collect_param_defs(
                *store,
                rv.skip(i as int),
                cps_view(defs@),
            ),
        decreases resolved@.len() - i,
    {
        let ghost rcur = rv.skip(i as int);
        proof {
            assert(rcur.len() > 0);
            assert(rcur[0] == rv[i as int]);
            assert(rcur.drop_first() =~= rv.skip(i as int + 1));
        }
        let c = match load_component(store, resolved[i].as_str()) {
            Ok(c) => c,
            Err(e) => {
                return Err(e);
            },
        };
        let ghost ps = c.manifest.params@;
        let ghost defs0 = cps_view(defs@);
        let mut k: usize = 0;
        proof {
            assert(ps.skip(0) =~= ps);
        }
        while k < c.manifest.params.len()
            invariant
                0 <= k <= c.manifest.params@.len(),
                ps == c.manifest.params@,
                spec_fold_defs(defs0, ps) == spec_fold_defs(cps_view(defs@), ps.skip(k as int)),
            decreases c.manifest.params@.len() - k,
        {
            let ghost pcur = ps.skip(k as int);
            proof {
                assert(pcur.len() > 0);
                assert(pcur[0] == ps[k as int]);
                assert(pcur.drop_first() =~= ps.skip(k as int + 1));
            }
            if !defs_have_key(&defs, &c.manifest.params[k].key) {
                let p = clone_component_param(&c.manifest.params[k]);
                insert_def_sorted(&mut defs, p);
            }
            k += 1;
        }
        proof {
            assert(ps.skip(c.manifest.params@.len() as int) =~= Seq::<ComponentParam>::empty());
        }
        i += 1;
    }
    proof {
        assert(rv.skip(resolved@.len() as int) =~= Seq::<Seq<char>>::empty());
    }
    Ok(defs)
}

/// Why a preset cannot be materialized.
#[derive(Debug)]
pub enum PresetError {
    /// The caller's pre-rendered tree lacks a required top-level file.
    Incomplete(String),
    /// No pre-rendered tree, profile or embedded profile carries the name.
    Unknown(String),
    /// The profile's component set did not render.
    Render(RenderError),
}

/// Why a preset cannot be materialized, in the model.
pub enum PresetErrorV {
    /// The caller's pre-rendered tree lacks a required top-level file.
    Incomplete(Seq<char>),
    /// No pre-rendered tree, profile or embedded profile carries the name.
    Unknown(Seq<char>),
    /// The profile's component set did not render.
    Render(RenderErrorV),
}

impl View for PresetError {
    type V = PresetErrorV;

    open spec fn view(&self) -> PresetErrorV {
        match self {
            PresetError::Incomplete(s) => PresetErrorV::Incomplete(s@),
            PresetError::Unknown(s) => PresetErrorV::Unknown(s@),
            PresetError::Render(e) => PresetErrorV::Render(e@),
        }
    }
}

/// The model of a profile: its component ids and parameter overrides.
pub open spec fn pm_view(p: ProfileManifest) -> (Seq<Seq<char>>, Seq<(Seq<char>, Seq<char>)>) {
    (strings_view(p.components@), pairs_view(p.params@))
}

/// The first profile of `profiles` whose name reads `name`.
pub open spec fn spec_profile_lookup(
    profiles: Seq<(String, ProfileManifest)>,
    name: Seq<char>,
) -> Option<ProfileManifest>
    decreases profiles.len(),
{
    if profiles.len() == 0 {
        None
    } else if profiles[0].0@ == name {
        Some(profiles[0].1)
    } else {
        spec_profile_lookup(profiles.drop_first(), name)
    }
}

/// Whether a caller-provided pre-rendered tree holds all three required
/// top-level files; names the first missing one otherwise.
pub open spec fn spec_template_complete(files: Seq<(Seq<char>, Seq<u8>)>) -> Result<
    (),
    Seq<char>,
> {
    if !spec_path_present(files, "devcontainer.json"@) {
        Err("devcontainer.json"@)
    } else if !spec_path_present(files, "compose.yaml"@) {
        Err("compose.yaml"@)
    } else if !spec_path_present(files, "Dockerfile"@) {
        Err("Dockerfile"@)
    } else {
        Ok(())
    }
}

/// What `preset_files` returns for a target name: a complete
/// caller-provided tree is taken as it stands, and an incomplete one is a
/// hard error; else a caller-provided profile renders; else an embedded
/// profile renders; else the name is unknown.
pub open spec fn spec_preset_files(
    s: ComponentStore,
    preset: Seq<char>,
    user_template: Option<Seq<(Seq<char>, Seq<u8>)>>,
    user_profile: Option<ProfileManifest>,
    profiles: Seq<(String, ProfileManifest)>,
) -> Result<Seq<(Seq<char>, Seq<u8>)>, PresetErrorV> {
    match user_template {
        Some(files) => match spec_template_complete(files) {
            Err(missing) => Err(PresetErrorV::Incomplete(missing)),
            Ok(()) => Ok(files),
        },
        None => {
            let profile = match user_profile {
                Some(p) => Some(p),
                None => spec_profile_lookup(profiles, preset),
            };
            match profile {
                None => Err(PresetErrorV::Unknown(preset)),
                Some(p) => match spec_render(s, pm_view(p).0, pm_view(p).1) {
                    Err(e) => Err(PresetErrorV::Render(e)),
                    Ok(files) => Ok(files),
                },
            }
        },
    }
}

/// The index of the first profile whose name reads `preset`.
#[verifier::loop_isolation(false)]
fn profile_index(profiles: &Vec<(String, ProfileManifest)>, preset: &str) -> (r: Option<usize>)
    ensures
        r is Some <==> spec_profile_lookup(profiles@, preset@) is Some,
        r is Some ==> r->0 < profiles@.len() && profiles@[r->0 as int].1 == spec_profile_lookup(
            profiles@,
            preset@,
        )->0,
{
    let ghost pv = profiles@;
    let mut i: usize = 0;
    proof {
        assert(pv.skip(0) =~= pv);
    }
    while i < profiles.len()
        invariant
            0 <= i <= profiles@.len(),
            spec_profile_lookup(pv, preset@) == spec_profile_lookup(pv.skip(i as int), preset@),
        decreases profiles@.len() - i,
    {
        proof {
            assert(pv.skip(i as int)[0] == pv[i as int]);
            assert(pv.skip(i as int).drop_first() =~= pv.skip(i as int + 1));
        }
        if str_eq(profiles[i].0.as_str(), preset) {
            return Some(i);
        }
        i += 1;
    }
    proof {
        assert(pv.skip(profiles@.len() as int) =~= Seq::<(String, ProfileManifest)>::empty());
    }
    None
}

/// Decides `spec_template_complete`.
fn template_complete(files: &Vec<TemplateFile>) -> (r: Result<(), String>)
    ensures
        r is Ok <==> spec_template_complete(files_view(files@)) is Ok,
        r is Err ==> r->Err_0@ == spec_template_complete(files_view(files@))->Err_0,
{
    let dc = String::from_str("devcontainer.json");
    if !crate::render::path_present(files, &dc) {
        return Err(dc);
    }
    let cy = String::from_str("compose.yaml");
    if !crate::render::path_present(files, &cy) {
        return Err(cy);
    }
    let df = String::from_str("Dockerfile");
    if !crate::render::path_present(files, &df) {
        return Err(df);
    }
    Ok(())
}

/// Materializes the file set for the target `preset`, as
/// `spec_preset_files` says. The caller hands in what it read from the
/// user's override directories: a pre-rendered tree, a named profile, or
/// neither; `profiles` is the embedded profile set.
#[verifier::loop_isolation(false)]
pub fn preset_files(
    store: &ComponentStore,
    preset: &str,
    user_template: Option<&Vec<TemplateFile>>,
    user_profile: Option<&ProfileManifest>,
    profiles: &Vec<(String, ProfileManifest)>,
) -> (r: Result<Vec<TemplateFile>, PresetError>)
    requires
        store.overrides@.len() + store.embedded@.len() + 2 <= usize::MAX,
    ensures
        ({
            let post = spec_preset_files(
                *store,
                preset@,
                match user_template {
                    Some(v) => Some(files_view(v@)),
                    None => None,
                },
                match user_profile {
                    Some(p) => Some(*p),
                    None => None,
                },
                profiles@,
            );
            &&& r is Ok <==> post is Ok
            &&& r is Ok ==> files_view(r->Ok_0@) == post->Ok_0
            &&& r is Err ==> r->Err_0@ == post->Err_0
        }),
{
    match user_template {
        Some(files) => {
            match template_complete(files) {
                Err(missing) => Err(PresetError::Incomplete(missing)),
                Ok(()) => {
                    let mut out: Vec<TemplateFile> = Vec::new();
                    let mut i: usize = 0;
                    while i < files.len()
                        invariant
                            0 <= i <= files@.len(),
                            out@.len() == i,
                            forall|j: int|
                                0 <= j < i ==> (#[trigger] files_view(out@)[j]) == files_view(
                                    files@,
                                )[j],
                        decreases files@.len() - i,
                    {
                        let f = clone_template_file(&files[i]);
                        proof {
                            crate::render::lemma_files_view_push(out@, f);
                        }
                        out.push(f);
                        i += 1;
                    }
                    proof {
                        assert(files_view(out@) =~= files_view(files@));
                    }
                    Ok(out)
                },
            }
        },
        None => {
            let chosen: Option<&ProfileManifest> = match user_profile {
                Some(p) => Some(p),
                None => match profile_index(profiles, preset) {
                    Some(i) => Some(&profiles[i].1),
                    None => None,
                },
            };
            match chosen {
                None => Err(PresetError::Unknown(preset.to_owned())),
                Some(p) => {
                    let params = Params::from_entries(&p.params);
                    match render_from_components(store, &p.components, &params) {
                        Err(e) => Err(PresetError::Render(e)),
                        Ok(files) => Ok(files),
                    }
                },
            }
        },
    }
}

} // verus!
