//! The agent lifecycle: naming, persisted metadata, and the transactional
//! plans for creation and removal.
//!
//! Creation sequences checkout creation, configuration materialization,
//! sandbox startup and metadata persistence as one logical unit; a failure
//! after the checkout exists triggers a fixed, ordered list of best-effort
//! rollback steps, each independent of the others. Removal tears the same
//! resources down symmetrically and preserves the originating branch. The
//! decisions stand here as pure functions from observed facts to plans;
//! running the external tools is the caller's work.

use vstd::prelude::*;

use crate::codec::{chars_to_string, json_pretty_of, parse_json, sha1_hex, sha1_hex_of,
    to_json_pretty};
use crate::names::{chars_of, sanitize_compose, spec_sanitize_compose, str_eq};
use crate::node::{entries_view, Node, NodeV};
use crate::stealth::{find_sub, spec_contains_sub};
use crate::text::append_chars;

verus! {

/// What is persisted for one agent: enough to tear a stealth sandbox down
/// and to re-derive what creation chose.
pub struct AgentMeta {
    /// The preset the agent's configuration came from.
    pub preset: String,
    /// The compose project name that namespaces the sandbox.
    pub compose_project: String,
    /// The prefix that namespaces shared cache volumes.
    pub cache_prefix: String,
    /// The branch the agent was created from, when recorded.
    pub branch_name: Option<String>,
}

/// The model of persisted agent metadata.
pub struct AgentMetaV {
    /// The preset name.
    pub preset: Seq<char>,
    /// The compose project name.
    pub compose_project: Seq<char>,
    /// The cache prefix.
    pub cache_prefix: Seq<char>,
    /// The originating branch, when recorded.
    pub branch_name: Option<Seq<char>>,
}

impl View for AgentMeta {
    type V = AgentMetaV;

    open spec fn view(&self) -> AgentMetaV {
        AgentMetaV {
            preset: self.preset@,
            compose_project: self.compose_project@,
            cache_prefix: self.cache_prefix@,
            branch_name: match self.branch_name {
                Some(b) => Some(b@),
                None => None,
            },
        }
    }
}

/// The compose project name for an agent: `agent_` and the sanitized agent
/// name.
pub open spec fn spec_compose_project_for(agent_name: Seq<char>) -> Seq<char> {
    "agent_"@ + spec_sanitize_compose(agent_name)
}

/// Derives the compose project name for an agent.
pub fn compose_project_for(agent_name: &str) -> (r: String)
    ensures
        r@ == spec_compose_project_for(agent_name@),
{
    let mut out = chars_of("agent_");
    let s = sanitize_compose(agent_name);
    let sc = chars_of(s.as_str());
    append_chars(&mut out, &sc);
    chars_to_string(&out)
}

/// The cache prefix for a repository: its sanitized name.
pub fn cache_prefix_for(repo_name: &str) -> (r: String)
    ensures
        r@ == spec_sanitize_compose(repo_name@),
{
    sanitize_compose(repo_name)
}

/// The default compose project name for a directory outside the agent
/// flow: `dc_`, the sanitized base name, `_`, and the first eight hex
/// digits of the digest of the absolute path.
pub open spec fn spec_default_compose_project(base: Seq<char>, abs_bytes: Seq<u8>) -> Seq<char> {
    "dc_"@ + spec_sanitize_compose(base) + "_"@ + sha1_hex_of(abs_bytes).take(8)
}

/// Derives the default compose project name for a directory, as
/// `spec_default_compose_project` says; the digest disambiguates
/// directories whose sanitized base names collide.
pub fn default_compose_project_name(base: &str, abs_path_bytes: &Vec<u8>) -> (r: String)
    ensures
        r@ == spec_default_compose_project(base@, abs_path_bytes@),
{
    let mut out = chars_of("dc_");
    let s = sanitize_compose(base);
    let sc = chars_of(s.as_str());
    append_chars(&mut out, &sc);
    let us = chars_of("_");
    append_chars(&mut out, &us);
    let hex = sha1_hex(abs_path_bytes);
    let hc = chars_of(hex.as_str());
    let mut i: usize = 0;
    let ghost mid = out@;
    while i < 8
        invariant
            0 <= i <= 8,
            hc@.len() == 40,
            out@ == mid + hc@.take(i as int),
        decreases 8 - i,
    {
        out.push(hc[i]);
        proof {
            assert(mid + hc@.take(i + 1) =~= (mid + hc@.take(i as int)).push(hc@[i as int]));
        }
        i += 1;
    }
    proof {
        assert(out@ =~= spec_default_compose_project(base@, abs_path_bytes@));
    }
    chars_to_string(&out)
}

/// The pinned image tag for an image-build file: `pc-devcontainer:` and
/// the first twelve hex digits of the file's digest.
pub open spec fn spec_image_tag_for(dockerfile: Seq<u8>) -> Seq<char> {
    "pc-devcontainer:"@ + sha1_hex_of(dockerfile).take(12)
}

/// Derives the pinned image tag for an image-build file, as
/// `spec_image_tag_for` says: repeated invocations of the same content
/// reuse the same image.
pub fn image_tag_for_dockerfile(dockerfile: &Vec<u8>) -> (r: String)
    ensures
        r@ == spec_image_tag_for(dockerfile@),
{
    let mut out = chars_of("pc-devcontainer:");
    let hex = sha1_hex(dockerfile);
    let hc = chars_of(hex.as_str());
    let mut i: usize = 0;
    let ghost mid = out@;
    while i < 12
        invariant
            0 <= i <= 12,
            hc@.len() == 40,
            out@ == mid + hc@.take(i as int),
        decreases 12 - i,
    {
        out.push(hc[i]);
        proof {
            assert(mid + hc@.take(i + 1) =~= (mid + hc@.take(i as int)).push(hc@[i as int]));
        }
        i += 1;
    }
    proof {
        assert(out@ =~= spec_image_tag_for(dockerfile@));
    }
    chars_to_string(&out)
}

/// The project-naming and cache-namespacing file written into a fresh
/// checkout, never overwritten.
pub open spec fn spec_env_text(compose_project: Seq<char>, cache_prefix: Seq<char>) -> Seq<char> {
    "COMPOSE_PROJECT_NAME="@ + compose_project + "\nDEVCONTAINER_CACHE_PREFIX="@ + cache_prefix
        + "\n"@
}

/// Renders the env file content, as `spec_env_text` says.
pub fn devcontainer_env_text(compose_project: &str, cache_prefix: &str) -> (r: String)
    ensures
        r@ == spec_env_text(compose_project@, cache_prefix@),
{
    let mut out = chars_of("COMPOSE_PROJECT_NAME=");
    let cp = chars_of(compose_project);
    append_chars(&mut out, &cp);
    let mid = chars_of("\nDEVCONTAINER_CACHE_PREFIX=");
    append_chars(&mut out, &mid);
    let cx = chars_of(cache_prefix);
    append_chars(&mut out, &cx);
    let nl = chars_of("\n");
    append_chars(&mut out, &nl);
    proof {
        assert(out@ =~= spec_env_text(compose_project@, cache_prefix@));
    }
    chars_to_string(&out)
}

/// One step of tearing agent resources down. Rollback and removal both
/// draw from this list.
#[derive(Clone, Copy, Debug, PartialEq, Eq, Structural)]
pub enum TeardownAction {
    /// Bring the sandbox down against the checkout's own configuration.
    ComposeDownIfPresent,
    /// Bring the sandbox down against the stealth runtime configuration.
    ComposeDownStealth,
    /// Remove the checkout, forcing.
    RemoveWorktreeForced,
    /// Remove the checkout without force.
    RemoveWorktree,
    /// Delete the branch.
    DeleteBranch,
    /// Remove the persisted metadata.
    RemoveMeta,
}

/// The rollback steps after a failed creation, in order: sandbox teardown
/// both ways, forced checkout removal, branch deletion only when this
/// invocation created the branch, and metadata removal. Each step is
/// best-effort and independent.
pub open spec fn spec_rollback_plan(created_branch: bool) -> Seq<TeardownAction> {
    if created_branch {
        seq![
            TeardownAction::ComposeDownIfPresent,
            TeardownAction::ComposeDownStealth,
            TeardownAction::RemoveWorktreeForced,
            TeardownAction::DeleteBranch,
            TeardownAction::RemoveMeta,
        ]
    } else {
        seq![
            TeardownAction::ComposeDownIfPresent,
            TeardownAction::ComposeDownStealth,
            TeardownAction::RemoveWorktreeForced,
            TeardownAction::RemoveMeta,
        ]
    }
}

/// Plans the rollback of a failed creation, as `spec_rollback_plan` says.
pub fn rollback_plan(created_branch: bool) -> (r: Vec<TeardownAction>)
    ensures
        r@ == spec_rollback_plan(created_branch),
{
    let mut out: Vec<TeardownAction> = Vec::new();
    out.push(TeardownAction::ComposeDownIfPresent);
    out.push(TeardownAction::ComposeDownStealth);
    out.push(TeardownAction::RemoveWorktreeForced);
    if created_branch {
        out.push(TeardownAction::DeleteBranch);
    }
    out.push(TeardownAction::RemoveMeta);
    proof {
        assert(out@ =~= spec_rollback_plan(created_branch));
    }
    out
}

/// The teardown steps of agent removal, in order: sandbox teardown against
/// the checkout's configuration, the stealth teardown only when the
/// checkout has no compose file of its own, then unforced checkout
/// removal. The branch is never touched; metadata goes only once the
/// checkout is confirmed gone.
pub open spec fn spec_removal_plan(has_own_compose: bool, force: bool) -> Seq<TeardownAction> {
    let down = if has_own_compose {
        seq![TeardownAction::ComposeDownIfPresent]
    } else {
        seq![TeardownAction::ComposeDownIfPresent, TeardownAction::ComposeDownStealth]
    };
    let remove = if force {
        seq![TeardownAction::RemoveWorktreeForced]
    } else {
        seq![TeardownAction::RemoveWorktree]
    };
    down + remove
}

/// Plans the teardown of an agent removal, as `spec_removal_plan` says.
pub fn removal_plan(has_own_compose: bool, force: bool) -> (r: Vec<TeardownAction>)
    ensures
        r@ == spec_removal_plan(has_own_compose, force),
{
    let mut out: Vec<TeardownAction> = Vec::new();
    out.push(TeardownAction::ComposeDownIfPresent);
    if !has_own_compose {
        out.push(TeardownAction::ComposeDownStealth);
    }
    if force {
        out.push(TeardownAction::RemoveWorktreeForced);
    } else {
        out.push(TeardownAction::RemoveWorktree);
    }
    proof {
        assert(out@ =~= spec_removal_plan(has_own_compose, force));
    }
    out
}

/// What to do after an unforced checkout removal attempt.
#[derive(Clone, Copy, Debug, PartialEq, Eq, Structural)]
pub enum RemovalFollowUp {
    /// The checkout is gone; metadata may now be removed.
    Done,
    /// The tool wants force; ask the user to confirm a forced retry.
    ConfirmForce,
    /// Fail closed, surfacing the tool's diagnostics.
    Fail,
}

/// What follows an unforced removal attempt: success is done; a failure
/// whose diagnostics ask for force is confirmed interactively when a
/// terminal is attached, and fails closed when none is.
pub open spec fn spec_removal_follow_up(
    succeeded: bool,
    suggests_force: bool,
    can_prompt: bool,
) -> RemovalFollowUp {
    if succeeded {
        RemovalFollowUp::Done
    } else if suggests_force && can_prompt {
        RemovalFollowUp::ConfirmForce
    } else {
        RemovalFollowUp::Fail
    }
}

/// Decides `spec_removal_follow_up`.
pub fn removal_follow_up(succeeded: bool, suggests_force: bool, can_prompt: bool) -> (r:
    RemovalFollowUp)
    ensures
        r == spec_removal_follow_up(succeeded, suggests_force, can_prompt),
{
    if succeeded {
        RemovalFollowUp::Done
    } else if suggests_force && can_prompt {
        RemovalFollowUp::ConfirmForce
    } else {
        RemovalFollowUp::Fail
    }
}

/// Whether the version-control tool's diagnostics ask for force; the only
/// thing ever pattern-matched out of its output.
pub fn stderr_suggests_force(stderr: &str) -> (r: bool)
    ensures
        r == spec_contains_sub(stderr@, "use --force"@),
{
    let text = chars_of(stderr);
    let pat = chars_of("use --force");
    match find_sub(&text, &pat) {
        Some(_) => true,
        None => false,
    }
}

/// The local ignore rules added before removal, so common generated
/// artifact directories do not force a non-clean removal.
pub fn removal_exclude_patterns() -> (r: Vec<String>)
    ensures
        r@.len() == 7,
        r@[0]@ == ".devcontainer/"@,
        r@[1]@ == ".env"@,
        r@[2]@ == ".venv/"@,
        r@[3]@ == "node_modules/"@,
        r@[4]@ == "target/"@,
        r@[5]@ == ".pytest_cache/"@,
        r@[6]@ == ".ruff_cache/"@,
{
    let mut out: Vec<String> = Vec::new();
    out.push(String::from_str(".devcontainer/"));
    out.push(String::from_str(".env"));
    out.push(String::from_str(".venv/"));
    out.push(String::from_str("node_modules/"));
    out.push(String::from_str("target/"));
    out.push(String::from_str(".pytest_cache/"));
    out.push(String::from_str(".ruff_cache/"));
    out
}

/// The cache volume suffixes a compose text may refer to.
pub fn cache_volume_suffixes() -> (r: Vec<String>)
    ensures
        r@.len() == 7,
        r@[0]@ == "uv-cache"@,
        r@[1]@ == "pip-cache"@,
        r@[2]@ == "pnpm-home"@,
        r@[3]@ == "npm-cache"@,
        r@[4]@ == "vscode-extensions"@,
        r@[5]@ == "go-mod-cache"@,
        r@[6]@ == "go-build-cache"@,
{
    let mut out: Vec<String> = Vec::new();
    out.push(String::from_str("uv-cache"));
    out.push(String::from_str("pip-cache"));
    out.push(String::from_str("pnpm-home"));
    out.push(String::from_str("npm-cache"));
    out.push(String::from_str("vscode-extensions"));
    out.push(String::from_str("go-mod-cache"));
    out.push(String::from_str("go-build-cache"));
    out
}

/// The external cache volume names to create before a sandbox starts:
/// one `prefix-suffix` name for each known suffix that the compose text
/// mentions as `-suffix`.
pub open spec fn spec_cache_volume_names(
    compose: Seq<char>,
    prefix: Seq<char>,
    suffixes: Seq<Seq<char>>,
) -> Seq<Seq<char>>
    decreases suffixes.len(),
{
    if suffixes.len() == 0 {
        Seq::empty()
    } else {
        let head = if spec_contains_sub(compose, "-"@ + suffixes[0]) {
            seq![prefix + "-"@ + suffixes[0]]
        } else {
            Seq::empty()
        };
        head + spec_cache_volume_names(compose, prefix, suffixes.drop_first())
    }
}

/// Names the external cache volumes that the compose text calls for, as
/// `spec_cache_volume_names` says, over the known suffix list.
#[verifier::loop_isolation(false)]
pub fn cache_volume_names(compose: &str, cache_prefix: &str) -> (r: Vec<String>)
    ensures
        crate::resolve::strings_view(r@) == spec_cache_volume_names(
            compose@,
            cache_prefix@,
            seq![
                "uv-cache"@,
                "pip-cache"@,
                "pnpm-home"@,
                "npm-cache"@,
                "vscode-extensions"@,
                "go-mod-cache"@,
                "go-build-cache"@,
            ],
        ),
{
    let suffixes = cache_volume_suffixes();
    let ghost sv = crate::resolve::strings_view(suffixes@);
    let ghost fixed = seq![
        "uv-cache"@,
        "pip-cache"@,
        "pnpm-home"@,
        "npm-cache"@,
        "vscode-extensions"@,
        "go-mod-cache"@,
        "go-build-cache"@,
    ];
    proof {
        assert(sv =~= fixed);
    }
    let text = chars_of(compose);
    let mut out: Vec<String> = Vec::new();
    let mut i: usize = 0;
    proof {
        assert(sv.skip(0) =~= sv);
        assert(crate::resolve::strings_view(out@) =~= Seq::<Seq<char>>::empty());
    }
    while i < suffixes.len()
        invariant
            0 <= i <= suffixes@.len(),
            sv == crate::resolve::strings_view(suffixes@),
            text@ == compose@,
            spec_cache_volume_names(compose@, cache_prefix@, sv) == crate::resolve::strings_view(
                out@,
            ) + spec_cache_volume_names(compose@, cache_prefix@, sv.skip(i as int)),
        decreases suffixes@.len() - i,
    {
        let ghost scur = sv.skip(i as int);
        proof {
            assert(scur.len() > 0);
            assert(scur[0] == sv[i as int]);
            assert(scur.drop_first() =~= sv.skip(i as int + 1));
        }
        let mut needle = chars_of("-");
        let sc = chars_of(suffixes[i].as_str());
        append_chars(&mut needle, &sc);
        let hit = match find_sub(&text, &needle) {
            Some(_) => true,
            None => false,
        };
        if hit {
            let mut name = chars_of(cache_prefix);
            append_chars(&mut name, &needle);
            let ghost out_before = crate::resolve::strings_view(out@);
            let name_s = chars_to_string(&name);
            proof {
                assert(name_s@ =~= cache_prefix@ + "-"@ + sv[i as int]);
                crate::resolve::lemma_strings_view_push(out@, name_s);
            }
            out.push(name_s);
            proof {
                assert(crate::resolve::strings_view(out@) =~= out_before.push(
                    cache_prefix@ + "-"@ + sv[i as int],
                ));
                assert(out_before + (seq![cache_prefix@ + "-"@ + sv[i as int]]
                    + spec_cache_volume_names(compose@, cache_prefix@, scur.drop_first())) =~= crate::resolve::strings_view(
                    out@,
                ) + spec_cache_volume_names(compose@, cache_prefix@, scur.drop_first()));
            }
        } else {
            proof {
                assert(crate::resolve::strings_view(out@) + (Seq::<Seq<char>>::empty()
                    + spec_cache_volume_names(compose@, cache_prefix@, scur.drop_first()))
                    =~= crate::resolve::strings_view(out@) + spec_cache_volume_names(
                    compose@,
                    cache_prefix@,
                    scur.drop_first(),
                ));
            }
        }
        i += 1;
    }
    proof {
        assert(sv.skip(suffixes@.len() as int) =~= Seq::<Seq<char>>::empty());
        assert(crate::resolve::strings_view(out@) + Seq::<Seq<char>>::empty()
            =~= crate::resolve::strings_view(out@));
    }
    out
}

} // verus!

verus! {

/// The tree persisted for an agent: one mapping with the four fields in
/// key order; an unrecorded branch is held as null.
pub open spec fn spec_meta_tree(m: AgentMetaV) -> NodeV {
    NodeV::Obj(
        seq![
            (
                "branch_name"@,
                match m.branch_name {
                    Some(b) => NodeV::Str(b),
                    None => NodeV::Null,
                },
            ),
            ("cache_prefix"@, NodeV::Str(m.cache_prefix)),
            ("compose_project"@, NodeV::Str(m.compose_project)),
            ("preset"@, NodeV::Str(m.preset)),
        ],
    )
}

/// Renders the persisted metadata document: the pretty rendering of
/// `spec_meta_tree` and a final line feed.
pub fn meta_to_json(m: &AgentMeta) -> (r: String)
    ensures
        r@ == json_pretty_of(spec_meta_tree(m@)).push('\n'),
{
    broadcast use crate::node::lemma_entries_view;

    let mut entries: Vec<(String, Node)> = Vec::new();
    let branch_node = match &m.branch_name {
        Some(b) => Node::Str(b.clone()),
        None => Node::Null,
    };
    entries.push((String::from_str("branch_name"), branch_node));
    entries.push((String::from_str("cache_prefix"), Node::Str(m.cache_prefix.clone())));
    entries.push((String::from_str("compose_project"), Node::Str(m.compose_project.clone())));
    entries.push((String::from_str("preset"), Node::Str(m.preset.clone())));
    let node = Node::Obj(entries);
    proof {
        assert(node@ == spec_meta_tree(m@)) by {
            assert(entries_view(node->Obj_0@) =~= spec_meta_tree(m@)->Obj_0);
        }
    }
    let text = to_json_pretty(&node);
    let mut out = chars_of(text.as_str());
    out.push('\n');
    chars_to_string(&out)
}

/// The metadata read from a parsed tree: the tree must be a mapping whose
/// three name fields are text; the branch field may be absent, null, or
/// text.
pub open spec fn spec_meta_of_tree(t: NodeV) -> Option<AgentMetaV> {
    if !(t is Obj) {
        None
    } else {
        let e = t->Obj_0;
        let preset = crate::merge::spec_lookup_key(e, "preset"@);
        let cp = crate::merge::spec_lookup_key(e, "compose_project"@);
        let cx = crate::merge::spec_lookup_key(e, "cache_prefix"@);
        let br = crate::merge::spec_lookup_key(e, "branch_name"@);
        if preset is None || cp is None || cx is None {
            None
        } else if !(e[preset->0].1 is Str) || !(e[cp->0].1 is Str) || !(e[cx->0].1 is Str) {
            None
        } else {
            let read = AgentMetaV {
                preset: e[preset->0].1->Str_0,
                compose_project: e[cp->0].1->Str_0,
                cache_prefix: e[cx->0].1->Str_0,
                branch_name: None,
            };
            match br {
                None => Some(read),
                Some(i) => match e[i].1 {
                    NodeV::Null => Some(read),
                    NodeV::Str(b) => Some(AgentMetaV { branch_name: Some(b), ..read }),
                    _ => None,
                },
            }
        }
    }
}

/// What reading a metadata document yields: nothing unless the text parses
/// and the tree has the expected shape.
pub open spec fn spec_meta_from_json(s: Seq<char>) -> Option<AgentMetaV> {
    match crate::codec::json_tree_of(s) {
        None => None,
        Some(t) => spec_meta_of_tree(t),
    }
}

/// Finds the first entry with the given key, as the merge lookup says.
#[verifier::loop_isolation(false)]
fn entry_index(entries: &Vec<(String, Node)>, key: &str) -> (r: Option<usize>)
    ensures
        ({
            let post = crate::merge::spec_lookup_key(entries_view(entries@), key@);
            &&& r is Some <==> post is Some
            &&& r is Some ==> r->0 as int == post->0 && r->0 < entries@.len()
        }),
{
    broadcast use crate::node::lemma_entries_view;

    let ghost ev = entries_view(entries@);
    let mut i: usize = 0;
    while i < entries.len()
        invariant
            0 <= i <= entries@.len(),
            forall|j: int| 0 <= j < i ==> (#[trigger] ev[j]).0 != key@,
        decreases entries@.len() - i,
    {
        if str_eq(entries[i].0.as_str(), key) {
            proof {
                crate::merge::lemma_lookup_some(ev, key@, i as int);
            }
            return Some(i);
        }
        i += 1;
    }
    proof {
        crate::merge::lemma_lookup_none(ev, key@);
    }
    None
}

/// Reads a persisted metadata document, as `spec_meta_from_json` says.
#[verifier::loop_isolation(false)]
pub fn meta_from_json(s: &str) -> (r: Option<AgentMeta>)
    ensures
        r is Some <==> spec_meta_from_json(s@) is Some,
        r is Some ==> r->0@ == spec_meta_from_json(s@)->0,
{
    broadcast use crate::node::lemma_entries_view;

    let t = match parse_json(s) {
        Some(t) => t,
        None => {
            return None;
        },
    };
    let entries = match t {
        Node::Obj(e) => e,
        _ => {
            proof {
                crate::merge::lemma_view_shape(t);
            }
            return None;
        },
    };
    proof {
        assert(t@ == NodeV::Obj(entries_view(entries@)));
    }
    let ghost ev = entries_view(entries@);
    let preset_i = entry_index(&entries, "preset");
    let cp_i = entry_index(&entries, "compose_project");
    let cx_i = entry_index(&entries, "cache_prefix");
    let br_i = entry_index(&entries, "branch_name");
    let pi = match preset_i {
        Some(i) => i,
        None => {
            return None;
        },
    };
    let ci = match cp_i {
        Some(i) => i,
        None => {
            return None;
        },
    };
    let xi = match cx_i {
        Some(i) => i,
        None => {
            return None;
        },
    };
    let preset = match &entries[pi].1 {
        Node::Str(v) => v.clone(),
        _ => {
            proof {
                crate::merge::lemma_view_shape(entries@[pi as int].1);
            }
            return None;
        },
    };
    let compose_project = match &entries[ci].1 {
        Node::Str(v) => v.clone(),
        _ => {
            proof {
                crate::merge::lemma_view_shape(entries@[ci as int].1);
            }
            return None;
        },
    };
    let cache_prefix = match &entries[xi].1 {
        Node::Str(v) => v.clone(),
        _ => {
            proof {
                crate::merge::lemma_view_shape(entries@[xi as int].1);
            }
            return None;
        },
    };
    let branch_name: Option<String> = match br_i {
        None => None,
        Some(bi) => match &entries[bi].1 {
            Node::Null => None,
            Node::Str(v) => Some(v.clone()),
            _ => {
                proof {
                    crate::merge::lemma_view_shape(entries@[bi as int].1);
                }
                return None;
            },
        },
    };
    proof {
        if br_i is Some {
            crate::merge::lemma_view_shape(entries@[br_i->0 as int].1);
        }
        crate::merge::lemma_view_shape(entries@[pi as int].1);
        crate::merge::lemma_view_shape(entries@[ci as int].1);
        crate::merge::lemma_view_shape(entries@[xi as int].1);
    }
    Some(AgentMeta { preset, compose_project, cache_prefix, branch_name })
}

} // verus!
