//! Component and profile manifests, and the layered component store.
//!
//! The store holds loaded components from two places: an override list that
//! a caller injects (read from the user's override directory) and the
//! embedded default set. Lookup by id checks the overrides first, so a user
//! component shadows the embedded one with the same id.

use vstd::prelude::*;

verus! {

/// One parameter a component declares: a key, a human prompt, a default
/// value, and an optional closed set of choices.
pub struct ComponentParam {
    /// The global parameter key.
    pub key: String,
    /// The prompt shown when a value is asked for interactively.
    pub prompt: String,
    /// The value used when the caller supplies none.
    pub default: String,
    /// When non-empty, the closed set of allowed values.
    pub choices: Vec<String>,
}

/// A component's manifest: identity, display data, edges and parameters.
pub struct ComponentManifest {
    /// The hierarchical id, unique within the merged namespace.
    pub id: String,
    /// The display name.
    pub name: String,
    /// A short description.
    pub description: String,
    /// The category used to group components.
    pub category: String,
    /// Ids of components this one depends on.
    pub depends: Vec<String>,
    /// Ids of components this one cannot stand together with.
    pub conflicts: Vec<String>,
    /// Declared parameters.
    pub params: Vec<ComponentParam>,
}

/// One output file: a relative path and raw bytes.
pub struct TemplateFile {
    /// The path relative to the output root.
    pub rel_path: String,
    /// The file's bytes.
    pub bytes: Vec<u8>,
}

/// An explicit request: component ids plus parameter overrides.
pub struct ComposeSpec {
    /// The requested component ids.
    pub components: Vec<String>,
    /// Caller-supplied parameter values, keyed by parameter key.
    pub params: Vec<(String, String)>,
}

/// A named, persisted `ComposeSpec`.
pub struct ProfileManifest {
    /// The profile's component ids.
    pub components: Vec<String>,
    /// The profile's parameter overrides.
    pub params: Vec<(String, String)>,
}

/// A write refused because the target already exists and force was not
/// given.
pub struct ForceRequired {
    /// The path that already exists.
    pub target: String,
}

impl ForceRequired {
    /// The single-line, actionable message for this refusal.
    pub fn message(&self) -> (r: String)
        ensures
            r@ == "Target exists: "@ + self.target@,
    {
        let mut out = crate::names::chars_of("Target exists: ");
        let t = crate::names::chars_of(self.target.as_str());
        crate::text::append_chars(&mut out, &t);
        proof {
            assert(out@ =~= "Target exists: "@ + self.target@);
        }
        crate::codec::chars_to_string(&out)
    }
}

/// A manifest together with its optional raw fragments and auxiliary files.
pub struct LoadedComponent {
    /// The component's manifest.
    pub manifest: ComponentManifest,
    /// The raw configuration-descriptor fragment, if any.
    pub devcontainer_json: Option<String>,
    /// The raw compose fragment, if any.
    pub compose_yaml: Option<String>,
    /// The raw image-build fragment, if any.
    pub dockerfile_part: Option<String>,
    /// Auxiliary files at component-declared relative paths.
    pub extra_files: Vec<TemplateFile>,
}

/// The layered component store: overrides shadow the embedded defaults.
pub struct ComponentStore {
    /// Components read from the user's override directory.
    pub overrides: Vec<LoadedComponent>,
    /// The embedded default set.
    pub embedded: Vec<LoadedComponent>,
}

/// The first component of `list` whose id reads `id`.
pub open spec fn spec_list_lookup(list: Seq<LoadedComponent>, id: Seq<char>) -> Option<
    LoadedComponent,
>
    decreases list.len(),
{
    if list.len() == 0 {
        None
    } else if list[0].manifest.id@ == id {
        Some(list[0])
    } else {
        spec_list_lookup(list.drop_first(), id)
    }
}

/// What `ComponentStore::lookup` finds: the first override with the id,
/// else the first embedded component with it.
pub open spec fn spec_store_lookup(s: ComponentStore, id: Seq<char>) -> Option<LoadedComponent> {
    match spec_list_lookup(s.overrides@, id) {
        Some(c) => Some(c),
        None => spec_list_lookup(s.embedded@, id),
    }
}

/// Scans `list` for the first component whose id reads `id`.
#[verifier::loop_isolation(false)]
fn list_lookup<'a>(list: &'a Vec<LoadedComponent>, id: &str) -> (r: Option<&'a LoadedComponent>)
    ensures
        r is Some <==> spec_list_lookup(list@, id@) is Some,
        r is Some ==> *r->0 == spec_list_lookup(list@, id@)->0,
{
    let mut i: usize = 0;
    proof {
        assert(list@.skip(0) =~= list@);
    }
    while i < list.len()
        invariant
            0 <= i <= list@.len(),
            spec_list_lookup(list@, id@) == spec_list_lookup(list@.skip(i as int), id@),
        decreases list@.len() - i,
    {
        proof {
            assert(list@.skip(i as int)[0] == list@[i as int]);
            assert(list@.skip(i as int).drop_first() =~= list@.skip(i as int + 1));
        }
        if crate::names::str_eq(list[i].manifest.id.as_str(), id) {
            return Some(&list[i]);
        }
        i += 1;
    }
    proof {
        assert(list@.skip(list@.len() as int) =~= Seq::<LoadedComponent>::empty());
    }
    None
}

impl ComponentStore {
    /// Looks `id` up, overrides first, as `spec_store_lookup` says.
    pub fn lookup<'a>(&'a self, id: &str) -> (r: Option<&'a LoadedComponent>)
        ensures
            r is Some <==> spec_store_lookup(*self, id@) is Some,
            r is Some ==> *r->0 == spec_store_lookup(*self, id@)->0,
    {
        match list_lookup(&self.overrides, id) {
            Some(c) => Some(c),
            None => list_lookup(&self.embedded, id),
        }
    }
}

} // verus!
