//! The fragment renderer: applies parameter substitution to each resolved
//! component's fragments, merges the structured fragments into one
//! configuration descriptor and one compose descriptor, concatenates the
//! image-build fragments between marker comments, and assembles the output
//! file set, deduplicated by path and sorted by path.

use vstd::prelude::*;

use crate::codec::{chars_to_string, json_pretty_of, json_tree_of, parse_json, parse_yaml,
    to_json_pretty, to_yaml, utf8_decode_of, yaml_text_of, yaml_tree_of};
use crate::merge::{merge_fragments, spec_merge_fragments, ConflictV, FragmentError,
    MergeConflict};
use crate::names::{chars_of, str_eq};
use crate::node::{entries_view, Node, NodeV};
use crate::params::{pairs_view, spec_apply_params, spec_set_default, apply_params_str, Params};
use crate::resolve::{resolve_components, spec_load_check, spec_resolve, strings_view,
    ResolveError, ResolveErrorV, load_component, contains_str};
use crate::store::{ComponentStore, ComposeSpec, LoadedComponent, TemplateFile};
use crate::text::{append_chars, clone_chars, spec_lex_lt, str_lt};

verus! {

/// The id of the implicit base component that every render starts from.
pub open spec fn spec_base_component_id() -> Seq<char> {
    "base/devcontainer"@
}

/// What `ensure_base_component` leaves: the list itself when the base
/// component is already requested, else the list with the base component
/// put first.
pub open spec fn spec_ensure_base(ids: Seq<Seq<char>>) -> Seq<Seq<char>> {
    if ids.contains(spec_base_component_id()) {
        ids
    } else {
        seq![spec_base_component_id()] + ids
    }
}

/// Puts the implicit base component first unless it is already requested.
#[verifier::loop_isolation(false)]
pub fn ensure_base_component(components: &mut Vec<String>)
    ensures
        strings_view(final(components)@) == spec_ensure_base(strings_view(old(components)@)),
{
    if contains_str(components, "base/devcontainer") {
        return ;
    }
    let ghost before = strings_view(components@);
    components.insert(0, String::from_str("base/devcontainer"));
    proof {
        assert(strings_view(components@) =~= seq![spec_base_component_id()] + before);
    }
}

/// The marker line opening a component's part of the image-build file.
pub open spec fn spec_part_begin(id: Seq<char>) -> Seq<char> {
    "# pc:component "@ + id + " begin\n"@
}

/// The marker line closing a component's part of the image-build file.
pub open spec fn spec_part_end(id: Seq<char>) -> Seq<char> {
    "# pc:component "@ + id + " end\n\n"@
}

/// A fragment with a newline supplied if it lacks one.
pub open spec fn spec_with_newline(text: Seq<char>) -> Seq<char> {
    if text.len() > 0 && text[text.len() - 1] == '\n' {
        text
    } else {
        text + "\n"@
    }
}

/// The image-build parts after the first, each wrapped in its begin and end
/// markers.
pub open spec fn spec_dockerfile_rest(parts: Seq<(Seq<char>, Seq<char>)>) -> Seq<char>
    decreases parts.len(),
{
    if parts.len() == 0 {
        Seq::empty()
    } else {
        spec_part_begin(parts[0].0) + spec_with_newline(parts[0].1) + spec_part_end(parts[0].0)
            + spec_dockerfile_rest(parts.drop_first())
    }
}

/// What `render_dockerfile` returns: a default base directive when no part
/// was contributed; else the first part bare, so the output opens with the
/// mandatory leading build directive, followed by its end marker and every
/// later part between markers.
pub open spec fn spec_render_dockerfile(parts: Seq<(Seq<char>, Seq<char>)>) -> Seq<char> {
    if parts.len() == 0 {
        "FROM mcr.microsoft.com/devcontainers/base:bookworm\n"@
    } else {
        spec_with_newline(parts[0].1) + "\n"@ + spec_part_end(parts[0].0)
            + spec_dockerfile_rest(parts.drop_first())
    }
}

/// Appends `tail`'s characters and a final newline when it lacks one.
#[verifier::loop_isolation(false)]
fn push_with_newline(out: &mut Vec<char>, tail: &Vec<char>)
    ensures
        final(out)@ == old(out)@ + spec_with_newline(tail@),
{
    append_chars(out, tail);
    if tail.len() == 0 || tail[tail.len() - 1] != '\n' {
        out.push('\n');
        proof {
            assert(out@ =~= old(out)@ + (tail@ + "\n"@)) by {
                assert("\n"@.len() == 1 && "\n"@[0] == '\n') by {
                    reveal_strlit("\n");
                }
            }
        }
    }
}

/// Appends the begin marker for `id`.
fn push_part_begin(out: &mut Vec<char>, id: &String)
    ensures
        final(out)@ == old(out)@ + spec_part_begin(id@),
{
    let head = chars_of("# pc:component ");
    append_chars(out, &head);
    let idc = chars_of(id.as_str());
    append_chars(out, &idc);
    let tail = chars_of(" begin\n");
    append_chars(out, &tail);
    proof {
        assert(out@ =~= old(out)@ + spec_part_begin(id@));
    }
}

/// Appends the end marker for `id`.
fn push_part_end(out: &mut Vec<char>, id: &String)
    ensures
        final(out)@ == old(out)@ + spec_part_end(id@),
{
    let head = chars_of("# pc:component ");
    append_chars(out, &head);
    let idc = chars_of(id.as_str());
    append_chars(out, &idc);
    let tail = chars_of(" end\n\n");
    append_chars(out, &tail);
    proof {
        assert(out@ =~= old(out)@ + spec_part_end(id@));
    }
}

/// Concatenates the image-build parts, as `spec_render_dockerfile` says.
#[verifier::loop_isolation(false)]
pub fn render_dockerfile(parts: &Vec<(String, String)>) -> (r: String)
    ensures
        r@ == spec_render_dockerfile(pairs_view(parts@)),
{
    let ghost pv = pairs_view(parts@);
    if parts.len() == 0 {
        let s = String::from_str("FROM mcr.microsoft.com/devcontainers/base:bookworm\n");
        return s;
    }
    let mut out: Vec<char> = Vec::new();
    let first_text = chars_of(parts[0].1.as_str());
    push_with_newline(&mut out, &first_text);
    out.push('\n');
    proof {
        assert(out@ =~= spec_with_newline(pv[0].1) + "\n"@) by {
            assert("\n"@.len() == 1 && "\n"@[0] == '\n') by {
                reveal_strlit("\n");
            }
        }
    }
    push_part_end(&mut out, &parts[0].0);
    let ghost head = out@;
    let mut i: usize = 1;
    proof {
        assert(pv.drop_first().skip(0) =~= pv.skip(1));
        assert(out@ + Seq::<char>::empty() =~= out@);
    }
    while i < parts.len()
        invariant
            1 <= i <= parts@.len(),
            parts@.len() >= 1,
            head == spec_with_newline(pv[0].1) + "\n"@ + spec_part_end(pv[0].0),
            head + spec_dockerfile_rest(pv.skip(1)) == out@ + spec_dockerfile_rest(
                pv.skip(i as int),
            ),
        decreases parts@.len() - i,
    {
        let ghost rest = pv.skip(i as int);
        proof {
            assert(rest.len() > 0);
            assert(rest[0] == pv[i as int]);
            assert(rest.drop_first() =~= pv.skip(i as int + 1));
        }
        let ghost out_before = out@;
        push_part_begin(&mut out, &parts[i].0);
        let text = chars_of(parts[i].1.as_str());
        push_with_newline(&mut out, &text);
        push_part_end(&mut out, &parts[i].0);
        proof {
            assert(out@ =~= out_before + (spec_part_begin(pv[i as int].0) + spec_with_newline(
                pv[i as int].1,
            ) + spec_part_end(pv[i as int].0)));
            assert(out_before + (spec_part_begin(pv[i as int].0) + spec_with_newline(
                pv[i as int].1,
            ) + spec_part_end(pv[i as int].0)) + spec_dockerfile_rest(pv.skip(i as int + 1)) =~= (
            out_before + spec_dockerfile_rest(pv.skip(i as int))));
        }
        i += 1;
    }
    proof {
        assert(pv.skip(parts@.len() as int) =~= Seq::<(Seq<char>, Seq<char>)>::empty());
        assert(out@ + Seq::<char>::empty() =~= out@);
        assert(pv.drop_first() =~= pv.skip(1));
        assert(out@ =~= spec_render_dockerfile(pv));
    }
    chars_to_string(&out)
}

/// The views of a sequence of output files: path and bytes.
pub open spec fn files_view(v: Seq<TemplateFile>) -> Seq<(Seq<char>, Seq<u8>)> {
    v.map_values(|f: TemplateFile| (f.rel_path@, f.bytes@))
}

/// Whether some file of `v` stands at `path`.
pub open spec fn spec_path_present(v: Seq<(Seq<char>, Seq<u8>)>, path: Seq<char>) -> bool {
    exists|i: int| 0 <= i < v.len() && (#[trigger] v[i]).0 == path
}

/// The files with every repeated path removed, keeping the first file at
/// each path.
pub open spec fn spec_dedup_files(v: Seq<(Seq<char>, Seq<u8>)>) -> Seq<(Seq<char>, Seq<u8>)>
    decreases v.len(),
{
    if v.len() == 0 {
        Seq::empty()
    } else {
        let p = spec_dedup_files(v.drop_last());
        if spec_path_present(p, v.last().0) {
            p
        } else {
            p.push(v.last())
        }
    }
}

/// `f` inserted into `sorted` before the first file whose path reads
/// greater.
pub open spec fn spec_insert_file(
    f: (Seq<char>, Seq<u8>),
    sorted: Seq<(Seq<char>, Seq<u8>)>,
) -> Seq<(Seq<char>, Seq<u8>)>
    decreases sorted.len(),
{
    if sorted.len() == 0 {
        seq![f]
    } else if spec_lex_lt(f.0, sorted[0].0) {
        seq![f] + sorted
    } else {
        seq![sorted[0]] + spec_insert_file(f, sorted.drop_first())
    }
}

/// The files ordered by path, by insertion from the front.
pub open spec fn spec_sort_files(v: Seq<(Seq<char>, Seq<u8>)>) -> Seq<(Seq<char>, Seq<u8>)>
    decreases v.len(),
{
    if v.len() == 0 {
        Seq::empty()
    } else {
        spec_insert_file(v[0], spec_sort_files(v.drop_first()))
    }
}

/// A copy of a byte vector.
#[verifier::loop_isolation(false)]
pub fn clone_bytes(v: &Vec<u8>) -> (r: Vec<u8>)
    ensures
        r@ == v@,
{
    let mut r: Vec<u8> = Vec::new();
    let mut i: usize = 0;
    while i < v.len()
        invariant
            0 <= i <= v@.len(),
            r@ == v@.take(i as int),
        decreases v@.len() - i,
    {
        r.push(v[i]);
        proof {
            assert(v@.take(i + 1) =~= v@.take(i as int).push(v@[i as int]));
        }
        i += 1;
    }
    proof {
        assert(v@.take(v@.len() as int) =~= v@);
    }
    r
}

/// A copy of an output file, equal in the model.
pub fn clone_template_file(f: &TemplateFile) -> (r: TemplateFile)
    ensures
        r.rel_path@ == f.rel_path@,
        r.bytes@ == f.bytes@,
{
    TemplateFile { rel_path: f.rel_path.clone(), bytes: clone_bytes(&f.bytes) }
}

/// Whether some file of `v` stands at `path`, decided by scan.
#[verifier::loop_isolation(false)]
pub fn path_present(v: &Vec<TemplateFile>, path: &String) -> (r: bool)
    ensures
        r == spec_path_present(files_view(v@), path@),
{
    let mut i: usize = 0;
    while i < v.len()
        invariant
            0 <= i <= v@.len(),
            forall|j: int| 0 <= j < i ==> (#[trigger] files_view(v@)[j]).0 != path@,
        decreases v@.len() - i,
    {
        if str_eq(v[i].rel_path.as_str(), path.as_str()) {
            proof {
                assert(files_view(v@)[i as int].0 == path@);
            }
            return true;
        }
        i += 1;
    }
    proof {
        if spec_path_present(files_view(v@), path@) {
            let w = choose|j: int|
                0 <= j < files_view(v@).len() && (#[trigger] files_view(v@)[j]).0 == path@;
            assert(files_view(v@)[w].0 != path@);
        }
    }
    false
}

/// Inserts `f` into the path-ordered `out`, as `spec_insert_file` says.
#[verifier::loop_isolation(false)]
fn insert_file_sorted(out: &mut Vec<TemplateFile>, f: TemplateFile)
    ensures
        files_view(final(out)@) == spec_insert_file(
            (f.rel_path@, f.bytes@),
            files_view(old(out)@),
        ),
{
    let ghost all = files_view(old(out)@);
    let ghost fv = (f.rel_path@, f.bytes@);
    let mut p: usize = 0;
    proof {
        assert(all.skip(0) =~= all);
    }
    while p < out.len() && !str_lt(f.rel_path.as_str(), out[p].rel_path.as_str())
        invariant
            0 <= p <= out@.len(),
            *out == *old(out),
            spec_insert_file(fv, all) == all.take(p as int) + spec_insert_file(
                fv,
                all.skip(p as int),
            ),
        decreases out@.len() - p,
    {
        proof {
            assert(all.skip(p as int)[0] == all[p as int]);
            assert(all.skip(p as int).drop_first() =~= all.skip(p as int + 1));
            assert(all.take(p as int) + (seq![all[p as int]] + spec_insert_file(
                fv,
                all.skip(p as int + 1),
            )) =~= all.take(p + 1) + spec_insert_file(fv, all.skip(p as int + 1)));
        }
        p += 1;
    }
    proof {
        if p < out@.len() {
            assert(all.skip(p as int)[0] == all[p as int]);
            assert(spec_insert_file(fv, all.skip(p as int)) == seq![fv] + all.skip(p as int));
        } else {
            assert(all.skip(p as int) =~= Seq::<(Seq<char>, Seq<u8>)>::empty());
            assert(spec_insert_file(fv, all.skip(p as int)) == seq![fv]);
        }
    }
    out.insert(p, f);
    proof {
        assert(files_view(out@) =~= all.take(p as int) + (seq![fv] + all.skip(p as int)));
        if p < all.len() {
            assert(all.take(p as int) + (seq![fv] + all.skip(p as int)) =~= all.take(p as int)
                + spec_insert_file(fv, all.skip(p as int)));
        }
    }
}

/// Collapses duplicate paths, first file wins, then orders the files by
/// path for deterministic output.
#[verifier::loop_isolation(false)]
pub fn stable_dedup_files(files: Vec<TemplateFile>) -> (r: Vec<TemplateFile>)
    ensures
        files_view(r@) == spec_sort_files(spec_dedup_files(files_view(files@))),
{
    let ghost fv = files_view(files@);
    let mut kept: Vec<TemplateFile> = Vec::new();
    let mut i: usize = 0;
    proof {
        assert(files_view(kept@) =~= Seq::<(Seq<char>, Seq<u8>)>::empty());
        assert(fv.take(0) =~= Seq::<(Seq<char>, Seq<u8>)>::empty());
    }
    while i < files.len()
        invariant
            0 <= i <= files@.len(),
            files_view(kept@) == spec_dedup_files(fv.take(i as int)),
        decreases files@.len() - i,
    {
        proof {
            assert(fv.take(i + 1).drop_last() =~= fv.take(i as int));
            assert(fv.take(i + 1).last() == fv[i as int]);
        }
        if !path_present(&kept, &files[i].rel_path) {
            let ghost kept_before = files_view(kept@);
            let c = clone_template_file(&files[i]);
            kept.push(c);
            proof {
                assert(files_view(kept@) =~= kept_before.push(fv[i as int]));
            }
        }
        i += 1;
    }
    proof {
        assert(fv.take(files@.len() as int) =~= fv);
    }
    let ghost dv = spec_dedup_files(fv);
    let mut out: Vec<TemplateFile> = Vec::new();
    let mut k: usize = kept.len();
    proof {
        assert(files_view(out@) =~= Seq::<(Seq<char>, Seq<u8>)>::empty());
        assert(dv.skip(kept@.len() as int) =~= Seq::<(Seq<char>, Seq<u8>)>::empty());
    }
    while k > 0
        invariant
            0 <= k <= kept@.len(),
            files_view(kept@) == dv,
            files_view(out@) == spec_sort_files(dv.skip(k as int)),
        decreases k,
    {
        k -= 1;
        let f = clone_template_file(&kept[k]);
        proof {
            assert(dv.skip(k as int)[0] == dv[k as int]);
            assert(dv.skip(k as int).drop_first() =~= dv.skip(k as int + 1));
            assert((f.rel_path@, f.bytes@) == dv[k as int]);
        }
        insert_file_sorted(&mut out, f);
    }
    proof {
        assert(dv.skip(0) =~= dv);
    }
    out
}

} // verus!

verus! {

/// Which synthesized descriptor a fragment belongs to.
#[derive(Clone, Copy, Debug, PartialEq, Eq, Structural)]
pub enum FragmentKind {
    /// The JSON-like configuration descriptor.
    Devcontainer,
    /// The YAML-like compose descriptor.
    Compose,
}

/// Why a render fails, in the model.
pub enum RenderErrorV {
    /// Resolution failed; nothing was rendered.
    Resolve(ResolveErrorV),
    /// A component's fragment did not parse after substitution.
    FragmentParse { kind: FragmentKind, component: Seq<char> },
    /// Merging a component's fragment conflicted.
    Merge { kind: FragmentKind, component: Seq<char>, conflict: ConflictV },
}

/// Why a render fails.
#[derive(Debug)]
pub enum RenderError {
    /// Resolution failed; nothing was rendered.
    Resolve(ResolveError),
    /// A component's fragment did not parse after substitution.
    FragmentParse { kind: FragmentKind, component: String },
    /// Merging a component's fragment conflicted.
    Merge { kind: FragmentKind, component: String, conflict: MergeConflict },
}

impl View for RenderError {
    type V = RenderErrorV;

    open spec fn view(&self) -> RenderErrorV {
        match self {
            RenderError::Resolve(e) => RenderErrorV::Resolve(e@),
            RenderError::FragmentParse { kind, component } => RenderErrorV::FragmentParse {
                kind: *kind,
                component: component@,
            },
            RenderError::Merge { kind, component, conflict } => RenderErrorV::Merge {
                kind: *kind,
                component: component@,
                conflict: conflict@,
            },
        }
    }
}

/// Everything one pass over the resolved components contributes: auxiliary
/// files, image-build parts, and the two fragment lists.
pub struct CollectedV {
    /// Auxiliary files after substitution.
    pub files: Seq<(Seq<char>, Seq<u8>)>,
    /// Image-build parts, one per contributing component.
    pub docker: Seq<(Seq<char>, Seq<char>)>,
    /// Configuration-descriptor fragments, parsed.
    pub dev: Seq<(Seq<char>, NodeV)>,
    /// Compose-descriptor fragments, parsed.
    pub comp: Seq<(Seq<char>, NodeV)>,
}

/// Folds a component's declared parameters into the table as defaults.
pub open spec fn spec_fold_defaults(
    entries: Seq<(Seq<char>, Seq<char>)>,
    ps: Seq<crate::store::ComponentParam>,
) -> Seq<(Seq<char>, Seq<char>)>
    decreases ps.len(),
{
    if ps.len() == 0 {
        entries
    } else {
        spec_fold_defaults(
            spec_set_default(entries, ps[0].key@, ps[0].default@),
            ps.drop_first(),
        )
    }
}

/// The effective parameter table: caller values first, then every resolved
/// component's defaults in resolution order; the first holder of a key
/// wins.
pub open spec fn spec_collect_defaults(
    s: ComponentStore,
    resolved: Seq<Seq<char>>,
    entries: Seq<(Seq<char>, Seq<char>)>,
) -> Result<Seq<(Seq<char>, Seq<char>)>, ResolveErrorV>
    decreases resolved.len(),
{
    if resolved.len() == 0 {
        Ok(entries)
    } else {
        match spec_load_check(s, resolved[0]) {
            Err(e) => Err(e),
            Ok(c) => spec_collect_defaults(
                s,
                resolved.drop_first(),
                spec_fold_defaults(entries, c.manifest.params@),
            ),
        }
    }
}

/// A component's auxiliary files after substitution: text files take the
/// parameter substitution, files that are not UTF-8 pass through unchanged.
pub open spec fn spec_subst_files(
    files: Seq<TemplateFile>,
    entries: Seq<(Seq<char>, Seq<char>)>,
) -> Seq<(Seq<char>, Seq<u8>)>
    decreases files.len(),
{
    if files.len() == 0 {
        Seq::empty()
    } else {
        let f = files[0];
        let out = match utf8_decode_of(f.bytes@) {
            Some(txt) => (
                f.rel_path@,
                vstd::utf8::encode_utf8(spec_apply_params(txt, entries)),
            ),
            None => (f.rel_path@, f.bytes@),
        };
        seq![out] + spec_subst_files(files.drop_first(), entries)
    }
}

/// A component's configuration-descriptor fragment after substitution and
/// parsing: nothing, one parsed tree, or a parse error.
pub open spec fn spec_dev_frag(
    c: LoadedComponent,
    id: Seq<char>,
    entries: Seq<(Seq<char>, Seq<char>)>,
) -> Result<Seq<(Seq<char>, NodeV)>, RenderErrorV> {
    match c.devcontainer_json {
        None => Ok(Seq::empty()),
        Some(t) => match json_tree_of(spec_apply_params(t@, entries)) {
            None => Err(RenderErrorV::FragmentParse { kind: FragmentKind::Devcontainer, component: id }),
            Some(n) => Ok(seq![(id, n)]),
        },
    }
}

/// A component's compose fragment after substitution and parsing.
pub open spec fn spec_comp_frag(
    c: LoadedComponent,
    id: Seq<char>,
    entries: Seq<(Seq<char>, Seq<char>)>,
) -> Result<Seq<(Seq<char>, NodeV)>, RenderErrorV> {
    match c.compose_yaml {
        None => Ok(Seq::empty()),
        Some(t) => match yaml_tree_of(spec_apply_params(t@, entries)) {
            None => Err(RenderErrorV::FragmentParse { kind: FragmentKind::Compose, component: id }),
            Some(n) => Ok(seq![(id, n)]),
        },
    }
}

/// A component's image-build part after substitution: nothing or one part.
pub open spec fn spec_docker_frag(
    c: LoadedComponent,
    id: Seq<char>,
    entries: Seq<(Seq<char>, Seq<char>)>,
) -> Seq<(Seq<char>, Seq<char>)> {
    match c.dockerfile_part {
        None => Seq::empty(),
        Some(t) => seq![(id, spec_apply_params(t@, entries))],
    }
}

/// One pass over the resolved list, collecting every component's
/// contributions in resolution order.
pub open spec fn spec_collect(
    s: ComponentStore,
    resolved: Seq<Seq<char>>,
    entries: Seq<(Seq<char>, Seq<char>)>,
    acc: CollectedV,
) -> Result<CollectedV, RenderErrorV>
    decreases resolved.len(),
{
    if resolved.len() == 0 {
        Ok(acc)
    } else {
        let id = resolved[0];
        match spec_load_check(s, id) {
            Err(e) => Err(RenderErrorV::Resolve(e)),
            Ok(c) => match spec_dev_frag(c, id, entries) {
                Err(e) => Err(e),
                Ok(df) => match spec_comp_frag(c, id, entries) {
                    Err(e) => Err(e),
                    Ok(cf) => spec_collect(
                        s,
                        resolved.drop_first(),
                        entries,
                        CollectedV {
                            files: acc.files + spec_subst_files(c.extra_files@, entries),
                            docker: acc.docker + spec_docker_frag(c, id, entries),
                            dev: acc.dev + df,
                            comp: acc.comp + cf,
                        },
                    ),
                },
            },
        }
    }
}

/// What rendering a component set yields: the request resolves and the
/// implicit base component is put first; the effective parameters collect;
/// every fragment substitutes and parses; the two descriptor fragment
/// lists merge; the image-build parts concatenate; and the three
/// synthesized files join the auxiliary files, deduplicated by path, first
/// occurrence winning, and ordered by path.
pub open spec fn spec_render(
    s: ComponentStore,
    components: Seq<Seq<char>>,
    entries0: Seq<(Seq<char>, Seq<char>)>,
) -> Result<Seq<(Seq<char>, Seq<u8>)>, RenderErrorV> {
    match spec_resolve(s, components) {
        Err(e) => Err(RenderErrorV::Resolve(e)),
        Ok(res0) => {
            let resolved = spec_ensure_base(res0);
            match spec_collect_defaults(s, resolved, entries0) {
                Err(e) => Err(RenderErrorV::Resolve(e)),
                Ok(entries) => {
                    let acc0 = CollectedV {
                        files: Seq::empty(),
                        docker: Seq::empty(),
                        dev: Seq::empty(),
                        comp: Seq::empty(),
                    };
                    match spec_collect(s, resolved, entries, acc0) {
                        Err(e) => Err(e),
                        Ok(col) => match spec_merge_fragments(col.dev, NodeV::Obj(Seq::empty())) {
                            Err(e) => Err(
                                RenderErrorV::Merge {
                                    kind: FragmentKind::Devcontainer,
                                    component: e.0,
                                    conflict: e.1,
                                },
                            ),
                            Ok(devdoc) => match spec_merge_fragments(
                                col.comp,
                                NodeV::Obj(Seq::empty()),
                            ) {
                                Err(e) => Err(
                                    RenderErrorV::Merge {
                                        kind: FragmentKind::Compose,
                                        component: e.0,
                                        conflict: e.1,
                                    },
                                ),
                                Ok(compdoc) => {
                                    let all = col.files + seq![
                                        (
                                            "devcontainer.json"@,
                                            vstd::utf8::encode_utf8(
                                                json_pretty_of(devdoc).push('\n'),
                                            ),
                                        ),
                                        ("compose.yaml"@, vstd::utf8::encode_utf8(yaml_text_of(compdoc))),
                                        (
                                            "Dockerfile"@,
                                            vstd::utf8::encode_utf8(
                                                spec_render_dockerfile(col.docker),
                                            ),
                                        ),
                                    ];
                                    Ok(spec_sort_files(spec_dedup_files(all)))
                                },
                            },
                        },
                    }
                },
            }
        },
    }
}

} // verus!

verus! {

/// Appending a file appends its view.
pub proof fn lemma_files_view_push(v: Seq<TemplateFile>, f: TemplateFile)
    ensures
        files_view(v.push(f)) =~= files_view(v).push((f.rel_path@, f.bytes@)),
{
    assert forall|i: int| 0 <= i < v.len() + 1 implies files_view(v.push(f))[i] == files_view(
        v,
    ).push((f.rel_path@, f.bytes@))[i] by {
        if i < v.len() {
            assert(v.push(f)[i] == v[i]);
        } else {
            assert(v.push(f)[i] == f);
        }
    }
}

/// Renders the requested component set into its output file set, as
/// `spec_render` says.
#[verifier::loop_isolation(false)]
pub fn render_from_components(
    store: &ComponentStore,
    components: &Vec<String>,
    params: &Params,
) -> (r: Result<Vec<TemplateFile>, RenderError>)
    requires
        store.overrides@.len() + store.embedded@.len() + 2 <= usize::MAX,
    ensures
        ({
            let post = spec_render(*store, strings_view(components@), params.view_entries());
            &&& r is Ok <==> post is Ok
            &&& r is Ok ==> files_view(r->Ok_0@) == post->Ok_0
            &&& r is Err ==> r->Err_0@ == post->Err_0
        }),
{
    broadcast use crate::node::lemma_entries_view;

    let mut resolved = match resolve_components(store, components) {
        Ok(v) => v,
        Err(e) => {
            return Err(RenderError::Resolve(e));
        },
    };
    ensure_base_component(&mut resolved);
    let ghost rv = strings_view(resolved@);
    let ghost e0 = params.view_entries();

    let mut effective = params.duplicate();
    let mut i: usize = 0;
    proof {
        assert(rv.skip(0) =~= rv);
    }
    while i < resolved.len()
        invariant
            0 <= i <= resolved@.len(),
            rv == strings_view(resolved@),
            spec_collect_defaults(*store, rv, e0) == spec_collect_defaults(
                *store,
                rv.skip(i as int),
                effective.view_entries(),
            ),
        decreases resolved@.len() - i,
    {
        let ghost rcur = rv.skip(i as int);
        proof {
            assert(rcur.len() > 0);
            assert(rcur[0] == rv[i as int]);
            assert(rcur.drop_first() =~= rv.skip(i as int + 1));
        }
        let c = match load_component(store, resolved[i].as_str()) {
            Ok(c) => c,
            Err(e) => {
                return Err(RenderError::Resolve(e));
            },
        };
        let ghost ps = c.manifest.params@;
        let ghost ent0 = effective.view_entries();
        let mut k: usize = 0;
        proof {
            assert(ps.skip(0) =~= ps);
        }
        while k < c.manifest.params.len()
            invariant
                0 <= k <= c.manifest.params@.len(),
                ps == c.manifest.params@,
                spec_fold_defaults(ent0, ps) == spec_fold_defaults(
                    effective.view_entries(),
                    ps.skip(k as int),
                ),
            decreases c.manifest.params@.len() - k,
        {
            let ghost pcur = ps.skip(k as int);
            proof {
                assert(pcur.len() > 0);
                assert(pcur[0] == ps[k as int]);
                assert(pcur.drop_first() =~= ps.skip(k as int + 1));
            }
            effective.set_default(
                c.manifest.params[k].key.as_str(),
                c.manifest.params[k].default.as_str(),
            );
            k += 1;
        }
        proof {
            assert(ps.skip(c.manifest.params@.len() as int) =~= Seq::<
                crate::store::ComponentParam,
            >::empty());
        }
        i += 1;
    }
    proof {
        assert(rv.skip(resolved@.len() as int) =~= Seq::<Seq<char>>::empty());
    }
    let ghost entries = effective.view_entries();

    let mut all_files: Vec<TemplateFile> = Vec::new();
    let mut docker_parts: Vec<(String, String)> = Vec::new();
    let mut dev_frags: Vec<(String, Node)> = Vec::new();
    let mut comp_frags: Vec<(String, Node)> = Vec::new();
    let ghost acc0 = CollectedV {
        files: Seq::empty(),
        docker: Seq::empty(),
        dev: Seq::empty(),
        comp: Seq::empty(),
    };
    let mut j: usize = 0;
    proof {
        assert(files_view(all_files@) =~= acc0.files);
        assert(pairs_view(docker_parts@) =~= acc0.docker);
        assert(entries_view(dev_frags@) =~= acc0.dev);
        assert(entries_view(comp_frags@) =~= acc0.comp);
        assert(rv.skip(0) =~= rv);
    }
    while j < resolved.len()
        invariant
            0 <= j <= resolved@.len(),
            rv == strings_view(resolved@),
            entries == effective.view_entries(),
            ({
                let cur = CollectedV {
                    files: files_view(all_files@),
                    docker: pairs_view(docker_parts@),
                    dev: entries_view(dev_frags@),
                    comp: entries_view(comp_frags@),
                };
                spec_collect(*store, rv, entries, acc0) == spec_collect(
                    *store,
                    rv.skip(j as int),
                    entries,
                    cur,
                )
            }),
        decreases resolved@.len() - j,
    {
        let ghost rcur = rv.skip(j as int);
        proof {
            assert(rcur.len() > 0);
            assert(rcur[0] == rv[j as int]);
            assert(rcur.drop_first() =~= rv.skip(j as int + 1));
        }
        let c = match load_component(store, resolved[j].as_str()) {
            Ok(c) => c,
            Err(e) => {
                return Err(RenderError::Resolve(e));
            },
        };
        match &c.devcontainer_json {
            Some(t) => {
                let applied = apply_params_str(t.as_str(), &effective);
                match parse_json(applied.as_str()) {
                    None => {
                        return Err(
                            RenderError::FragmentParse {
                                kind: FragmentKind::Devcontainer,
                                component: resolved[j].clone(),
                            },
                        );
                    },
                    Some(n) => {
                        let ghost before = entries_view(dev_frags@);
                        let key = resolved[j].clone();
                        proof {
                            crate::merge::lemma_entries_view_push(dev_frags@, (key, n));
                        }
                        dev_frags.push((key, n));
                        proof {
                            assert(entries_view(dev_frags@) =~= before + spec_dev_frag(
                                *c,
                                rv[j as int],
                                entries,
                            )->Ok_0);
                        }
                    },
                }
            },
            None => {
                proof {
                    assert(entries_view(dev_frags@) + spec_dev_frag(*c, rv[j as int], entries)->Ok_0
                        =~= entries_view(dev_frags@));
                }
            },
        }
        match &c.compose_yaml {
            Some(t) => {
                let applied = apply_params_str(t.as_str(), &effective);
                match parse_yaml(applied.as_str()) {
                    None => {
                        return Err(
                            RenderError::FragmentParse {
                                kind: FragmentKind::Compose,
                                component: resolved[j].clone(),
                            },
                        );
                    },
                    Some(n) => {
                        let ghost before = entries_view(comp_frags@);
                        let key = resolved[j].clone();
                        proof {
                            crate::merge::lemma_entries_view_push(comp_frags@, (key, n));
                        }
                        comp_frags.push((key, n));
                        proof {
                            assert(entries_view(comp_frags@) =~= before + spec_comp_frag(
                                *c,
                                rv[j as int],
                                entries,
                            )->Ok_0);
                        }
                    },
                }
            },
            None => {
                proof {
                    assert(entries_view(comp_frags@) + spec_comp_frag(
                        *c,
                        rv[j as int],
                        entries,
                    )->Ok_0 =~= entries_view(comp_frags@));
                }
            },
        }
        match &c.dockerfile_part {
            Some(t) => {
                let applied = apply_params_str(t.as_str(), &effective);
                let ghost before = pairs_view(docker_parts@);
                let key = resolved[j].clone();
                proof {
                    crate::params::lemma_pairs_view_push(docker_parts@, (key, applied));
                }
                docker_parts.push((key, applied));
                proof {
                    assert(pairs_view(docker_parts@) =~= before + spec_docker_frag(
                        *c,
                        rv[j as int],
                        entries,
                    ));
                }
            },
            None => {
                proof {
                    assert(pairs_view(docker_parts@) + spec_docker_frag(*c, rv[j as int], entries)
                        =~= pairs_view(docker_parts@));
                }
            },
        }
        let ghost ef = c.extra_files@;
        let ghost files_before = files_view(all_files@);
        let mut m: usize = 0;
        proof {
            assert(ef.skip(0) =~= ef);
            assert(files_before + spec_subst_files(ef, entries) =~= files_view(all_files@)
                + spec_subst_files(ef.skip(0), entries));
        }
        while m < c.extra_files.len()
            invariant
                0 <= m <= c.extra_files@.len(),
                ef == c.extra_files@,
                entries == effective.view_entries(),
                files_before + spec_subst_files(ef, entries) == files_view(all_files@)
                    + spec_subst_files(ef.skip(m as int), entries),
            decreases c.extra_files@.len() - m,
        {
            let ghost fcur = ef.skip(m as int);
            proof {
                assert(fcur.len() > 0);
                assert(fcur[0] == ef[m as int]);
                assert(fcur.drop_first() =~= ef.skip(m as int + 1));
            }
            let ghost out_before = files_view(all_files@);
            match crate::codec::bytes_to_string(&c.extra_files[m].bytes) {
                Some(txt) => {
                    let applied = apply_params_str(txt.as_str(), &effective);
                    let bytes = applied.as_str().as_bytes_vec();
                    let nf = TemplateFile {
                        rel_path: c.extra_files[m].rel_path.clone(),
                        bytes,
                    };
                    proof {
                        lemma_files_view_push(all_files@, nf);
                    }
                    all_files.push(nf);
                },
                None => {
                    let nf = clone_template_file(&c.extra_files[m]);
                    proof {
                        lemma_files_view_push(all_files@, nf);
                    }
                    all_files.push(nf);
                },
            }
            proof {
                assert(out_before + spec_subst_files(fcur, entries) =~= files_view(all_files@)
                    + spec_subst_files(fcur.drop_first(), entries));
            }
            m += 1;
        }
        proof {
            assert(ef.skip(c.extra_files@.len() as int) =~= Seq::<TemplateFile>::empty());
            assert(files_view(all_files@) + Seq::<(Seq<char>, Seq<u8>)>::empty() =~= files_view(
                all_files@,
            ));
            assert(files_view(all_files@) =~= files_before + spec_subst_files(ef, entries));
        }
        j += 1;
    }
    proof {
        assert(rv.skip(resolved@.len() as int) =~= Seq::<Seq<char>>::empty());
    }
    let ghost col = spec_collect(*store, rv, entries, acc0)->Ok_0;

    let devdoc = match merge_fragments(&dev_frags) {
        Ok(n) => n,
        Err(fe) => {
            return Err(
                RenderError::Merge {
                    kind: FragmentKind::Devcontainer,
                    component: fe.component,
                    conflict: fe.conflict,
                },
            );
        },
    };
    let compdoc = match merge_fragments(&comp_frags) {
        Ok(n) => n,
        Err(fe) => {
            return Err(
                RenderError::Merge {
                    kind: FragmentKind::Compose,
                    component: fe.component,
                    conflict: fe.conflict,
                },
            );
        },
    };
    let dockerfile = render_dockerfile(&docker_parts);

    let dev_text = to_json_pretty(&devdoc);
    let mut dev_chars = chars_of(dev_text.as_str());
    dev_chars.push('\n');
    let dev_full = chars_to_string(&dev_chars);
    let dev_bytes = dev_full.as_str().as_bytes_vec();
    let f_dev = TemplateFile { rel_path: String::from_str("devcontainer.json"), bytes: dev_bytes };
    proof {
        lemma_files_view_push(all_files@, f_dev);
    }
    all_files.push(f_dev);

    let comp_text = to_yaml(&compdoc);
    let comp_bytes = comp_text.as_str().as_bytes_vec();
    let f_comp = TemplateFile { rel_path: String::from_str("compose.yaml"), bytes: comp_bytes };
    proof {
        lemma_files_view_push(all_files@, f_comp);
    }
    all_files.push(f_comp);

    let docker_bytes = dockerfile.as_str().as_bytes_vec();
    let f_dock = TemplateFile { rel_path: String::from_str("Dockerfile"), bytes: docker_bytes };
    proof {
        lemma_files_view_push(all_files@, f_dock);
    }
    all_files.push(f_dock);

    proof {
        assert(files_view(all_files@) =~= col.files + seq![
            (
                "devcontainer.json"@,
                vstd::utf8::encode_utf8(json_pretty_of(devdoc@).push('\n')),
            ),
            ("compose.yaml"@, vstd::utf8::encode_utf8(yaml_text_of(compdoc@))),
            ("Dockerfile"@, vstd::utf8::encode_utf8(spec_render_dockerfile(col.docker))),
        ]);
    }
    Ok(stable_dedup_files(all_files))
}

} // verus!

verus! {

/// Renders an explicit request: the spec's component ids with its
/// parameter overrides as the caller values.
pub fn render_compose_spec(store: &ComponentStore, spec: &ComposeSpec) -> (r: Result<
    Vec<TemplateFile>,
    RenderError,
>)
    requires
        store.overrides@.len() + store.embedded@.len() + 2 <= usize::MAX,
    ensures
        ({
            let post = spec_render(
                *store,
                strings_view(spec.components@),
                crate::params::pairs_view(spec.params@),
            );
            &&& r is Ok <==> post is Ok
            &&& r is Ok ==> files_view(r->Ok_0@) == post->Ok_0
            &&& r is Err ==> r->Err_0@ == post->Err_0
        }),
{
    let params = Params::from_entries(&spec.params);
    render_from_components(store, &spec.components, &params)
}

} // verus!
