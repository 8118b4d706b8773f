//! The composition engine: resolution, merging, rendering, presets and the
//! stealth rewriter, exercised end to end with the real outside crates.

use std::collections::HashMap;

use pc_cli::embedded::{embedded_profiles, embedded_store};
use pc_cli::merge::{merge_fragments, merge_nodes};
use pc_cli::node::{Node};
use pc_cli::params::{parse_key_value_args, KvError, Params};
use pc_cli::presets::{component_param_defs, preset_files, PresetError};
use pc_cli::render::render_from_components;
use pc_cli::resolve::{resolve_components, ResolveError};
use pc_cli::stealth::make_compose_stealth;
use pc_cli::store::{
    ComponentManifest, ComponentStore, ComposeSpec, LoadedComponent, ProfileManifest,
    TemplateFile,
};

fn plain_component(id: &str, depends: Vec<&str>, conflicts: Vec<&str>) -> LoadedComponent {
    LoadedComponent {
        manifest: ComponentManifest {
            id: id.to_string(),
            name: id.to_string(),
            description: String::new(),
            category: String::new(),
            depends: depends.into_iter().map(|s| s.to_string()).collect(),
            conflicts: conflicts.into_iter().map(|s| s.to_string()).collect(),
            params: Vec::new(),
        },
        devcontainer_json: None,
        compose_yaml: None,
        dockerfile_part: None,
        extra_files: Vec::new(),
    }
}

fn store_of(components: Vec<LoadedComponent>) -> ComponentStore {
    ComponentStore { overrides: Vec::new(), embedded: components }
}

fn ids(v: &[&str]) -> Vec<String> {
    v.iter().map(|s| s.to_string()).collect()
}

fn file_text<'a>(files: &'a [TemplateFile], path: &str) -> &'a str {
    let f = files.iter().find(|f| f.rel_path == path).expect("missing output file");
    std::str::from_utf8(&f.bytes).expect("output file not UTF-8")
}

#[test]
fn resolution_is_deterministic_and_idempotent() {
    let store = embedded_store();
    let req = ids(&["tool/python/uv", "lang/go"]);
    let once = resolve_components(&store, &req).unwrap();
    let twice = resolve_components(&store, &req).unwrap();
    assert_eq!(once, twice);
    assert_eq!(once, ids(&["lang/python", "tool/python/uv", "lang/go"]));
}

#[test]
fn dependency_cycle_is_reported() {
    let mut x = plain_component("x", vec!["y"], vec![]);
    let y = plain_component("y", vec!["x"], vec![]);
    x.manifest.depends = vec!["y".to_string()];
    let store = store_of(vec![x, y]);
    match resolve_components(&store, &ids(&["x"])).unwrap_err() {
        ResolveError::Cycle(id) => assert_eq!(id, "x"),
        other => panic!("expected a cycle error, got {:?}", discriminant_name(&other)),
    }
}

#[test]
fn self_cycle_is_reported() {
    let store = store_of(vec![plain_component("x", vec!["x"], vec![])]);
    match resolve_components(&store, &ids(&["x"])).unwrap_err() {
        ResolveError::Cycle(id) => assert_eq!(id, "x"),
        other => panic!("expected a cycle error, got {:?}", discriminant_name(&other)),
    }
}

fn discriminant_name(e: &ResolveError) -> &'static str {
    match e {
        ResolveError::EmptyId => "EmptyId",
        ResolveError::InvalidId(_) => "InvalidId",
        ResolveError::Unknown(_) => "Unknown",
        ResolveError::Cycle(_) => "Cycle",
        ResolveError::Conflict(_, _) => "Conflict",
    }
}

#[test]
fn conflicting_pair_fails_in_both_orders() {
    let a = plain_component("a", vec![], vec!["b"]);
    let b = plain_component("b", vec![], vec![]);
    let store = store_of(vec![a, b]);
    match resolve_components(&store, &ids(&["a", "b"])).unwrap_err() {
        ResolveError::Conflict(x, y) => {
            assert_eq!(x, "a");
            assert_eq!(y, "b");
        },
        other => panic!("expected a conflict error, got {:?}", discriminant_name(&other)),
    }
    assert!(matches!(
        resolve_components(&store, &ids(&["b", "a"])),
        Err(ResolveError::Conflict(_, _))
    ));
}

#[test]
fn unknown_and_invalid_ids_are_reported() {
    let store = embedded_store();
    assert!(matches!(
        resolve_components(&store, &ids(&["no/such"])),
        Err(ResolveError::Unknown(_))
    ));
    assert!(matches!(
        resolve_components(&store, &ids(&[""])),
        Err(ResolveError::EmptyId)
    ));
    assert!(matches!(
        resolve_components(&store, &ids(&["a/../b"])),
        Err(ResolveError::InvalidId(_))
    ));
}

#[test]
fn merging_identical_fragments_is_idempotent() {
    let frag = || {
        Node::Obj(vec![
            ("name".to_string(), Node::Str("x".to_string())),
            ("count".to_string(), Node::Num("3".to_string())),
        ])
    };
    let once = merge_fragments(&vec![("c1".to_string(), frag())]).unwrap();
    let twice =
        merge_fragments(&vec![("c1".to_string(), frag()), ("c2".to_string(), frag())]).unwrap();
    assert!(pc_cli::node::node_equal(&once, &twice));
}

#[test]
fn same_key_different_scalars_conflict() {
    let f1 = Node::Obj(vec![("k".to_string(), Node::Str("x".to_string()))]);
    let f2 = Node::Obj(vec![("k".to_string(), Node::Str("y".to_string()))]);
    let err =
        merge_fragments(&vec![("c1".to_string(), f1), ("c2".to_string(), f2)]).unwrap_err();
    assert_eq!(err.component, "c2");
    assert_eq!(err.conflict.path, "$.k");
}

#[test]
fn scalar_arrays_deduplicate_object_arrays_do_not() {
    let path = Vec::new();
    let a = Node::Arr(vec![Node::Str("x".to_string()), Node::Str("y".to_string())]);
    let b = Node::Arr(vec![Node::Str("y".to_string()), Node::Str("z".to_string())]);
    let merged = merge_nodes(&a, &b, &path).unwrap();
    match merged {
        Node::Arr(items) => {
            let texts: Vec<&str> = items
                .iter()
                .map(|n| match n {
                    Node::Str(s) => s.as_str(),
                    _ => panic!("expected text scalars"),
                })
                .collect();
            assert_eq!(texts, vec!["x", "y", "z"]);
        },
        _ => panic!("expected a sequence"),
    }

    let obj = || Node::Obj(vec![("m".to_string(), Node::Str("v".to_string()))]);
    let oa = Node::Arr(vec![obj()]);
    let ob = Node::Arr(vec![obj()]);
    let merged = merge_nodes(&oa, &ob, &path).unwrap();
    match merged {
        Node::Arr(items) => assert_eq!(items.len(), 2),
        _ => panic!("expected a sequence"),
    }
}

#[test]
fn container_against_scalar_conflicts() {
    let f1 = Node::Obj(vec![("k".to_string(), Node::Obj(vec![]))]);
    let f2 = Node::Obj(vec![("k".to_string(), Node::Str("y".to_string()))]);
    let err =
        merge_fragments(&vec![("c1".to_string(), f1), ("c2".to_string(), f2)]).unwrap_err();
    assert_eq!(err.component, "c2");
    assert_eq!(err.conflict.path, "$.k");
}

#[test]
fn python_uv_render_has_python_and_uv_but_no_node_or_go() {
    let store = embedded_store();
    let params = Params::new();
    let files =
        render_from_components(&store, &ids(&["lang/python", "tool/python/uv"]), &params)
            .unwrap();
    let dc = file_text(&files, "devcontainer.json");
    assert!(dc.contains("devcontainers/features/python"));
    assert!(!dc.contains("features/node"));
    assert!(!dc.contains("features/go"));
    let compose = file_text(&files, "compose.yaml");
    assert!(compose.contains("uv_cache"));
    assert!(!compose.contains("pnpm"));
    assert!(!compose.contains("go_mod_cache"));
    let dockerfile = file_text(&files, "Dockerfile");
    assert!(dockerfile.starts_with("FROM mcr.microsoft.com/devcontainers/base:bookworm"));
    assert!(dockerfile.contains("pip install --user uv"));
    assert!(dockerfile.contains("# pc:component tool/python/uv end"));
}

#[test]
fn pnpm_implies_node() {
    let store = embedded_store();
    let params = Params::new();
    let implicit =
        render_from_components(&store, &ids(&["tool/node/pnpm"]), &params).unwrap();
    let explicit =
        render_from_components(&store, &ids(&["tool/node/pnpm", "lang/node"]), &params).unwrap();
    assert_eq!(implicit.len(), explicit.len());
    for (a, b) in implicit.iter().zip(explicit.iter()) {
        assert_eq!(a.rel_path, b.rel_path);
        assert_eq!(a.bytes, b.bytes);
    }
    let dc = file_text(&implicit, "devcontainer.json");
    assert!(dc.contains("devcontainers/features/node"));
}

#[test]
fn render_round_trips_through_a_written_tree() {
    let store = embedded_store();
    let params = Params::new();
    let files = render_from_components(&store, &ids(&["python"]), &params).unwrap();
    // paths are unique and sorted
    for w in files.windows(2) {
        assert!(w[0].rel_path < w[1].rel_path);
    }
    // writing to a keyed store and reading back is byte-identical
    let mut disk: HashMap<String, Vec<u8>> = HashMap::new();
    for f in &files {
        disk.insert(f.rel_path.clone(), f.bytes.clone());
    }
    for f in &files {
        assert_eq!(disk.get(&f.rel_path).unwrap(), &f.bytes);
    }
    // rendering again yields byte-identical contents for every path
    let again = render_from_components(&store, &ids(&["python"]), &params).unwrap();
    assert_eq!(files.len(), again.len());
    for (a, b) in files.iter().zip(again.iter()) {
        assert_eq!(a.rel_path, b.rel_path);
        assert_eq!(a.bytes, b.bytes);
    }
}

#[test]
fn caller_params_override_component_defaults() {
    let store = embedded_store();
    let params =
        parse_key_value_args(&vec!["base_image=debian:stable".to_string()]).unwrap();
    let files = render_from_components(&store, &ids(&[]), &params).unwrap();
    let dockerfile = file_text(&files, "Dockerfile");
    assert!(dockerfile.starts_with("FROM debian:stable"));
}

#[test]
fn key_value_arguments_are_checked() {
    assert!(matches!(
        parse_key_value_args(&vec!["novalue".to_string()]),
        Err(KvError::NotKeyValue(_))
    ));
    assert!(matches!(
        parse_key_value_args(&vec![" =x".to_string()]),
        Err(KvError::EmptyKey(_))
    ));
    let p = parse_key_value_args(&vec!["k=1".to_string(), "k=2".to_string()]).unwrap();
    assert_eq!(p.get("k").unwrap().as_str(), "2");
}

#[test]
fn non_utf8_auxiliary_files_pass_through_unchanged() {
    let mut c = plain_component("withfiles", vec![], vec![]);
    c.extra_files.push(TemplateFile {
        rel_path: "blob.bin".to_string(),
        bytes: vec![0xff, 0xfe, 0x00, 0x01],
    });
    c.extra_files.push(TemplateFile {
        rel_path: "note.txt".to_string(),
        bytes: "hello {{who}}\n".as_bytes().to_vec(),
    });
    let mut store = embedded_store();
    store.embedded.push(c);
    let params = parse_key_value_args(&vec!["who=world".to_string()]).unwrap();
    let files = render_from_components(&store, &ids(&["withfiles"]), &params).unwrap();
    let blob = files.iter().find(|f| f.rel_path == "blob.bin").unwrap();
    assert_eq!(blob.bytes, vec![0xff, 0xfe, 0x00, 0x01]);
    assert_eq!(file_text(&files, "note.txt"), "hello world\n");
}

#[test]
fn fragment_parse_failures_name_the_component() {
    let mut c = plain_component("broken", vec![], vec![]);
    c.devcontainer_json = Some("{ not json".to_string());
    let mut store = embedded_store();
    store.embedded.push(c);
    let params = Params::new();
    match render_from_components(&store, &ids(&["broken"]), &params) {
        Err(pc_cli::render::RenderError::FragmentParse { component, .. }) => {
            assert_eq!(component, "broken");
        },
        _ => panic!("expected a fragment parse error"),
    }
}

#[test]
fn param_defs_collect_first_definition_per_key_in_key_order() {
    let store = embedded_store();
    let defs =
        component_param_defs(&store, &ids(&["tool/python/uv", "base/devcontainer"])).unwrap();
    let keys: Vec<&str> = defs.iter().map(|d| d.key.as_str()).collect();
    assert_eq!(keys, vec!["base_image", "python_version"]);
    assert_eq!(defs[1].default, "3.12");
}

#[test]
fn preset_resolution_order_and_errors() {
    let store = embedded_store();
    let profiles = embedded_profiles();

    // a complete caller-provided tree wins as it stands
    let tree = vec![
        TemplateFile { rel_path: "devcontainer.json".to_string(), bytes: b"{}".to_vec() },
        TemplateFile { rel_path: "compose.yaml".to_string(), bytes: b"services: {}".to_vec() },
        TemplateFile { rel_path: "Dockerfile".to_string(), bytes: b"FROM scratch".to_vec() },
    ];
    let got = preset_files(&store, "python-uv", Some(&tree), None, &profiles).unwrap();
    assert_eq!(got.len(), 3);
    assert_eq!(got[0].bytes, b"{}".to_vec());

    // an incomplete tree is a hard error naming the first missing file
    let partial = vec![TemplateFile {
        rel_path: "devcontainer.json".to_string(),
        bytes: b"{}".to_vec(),
    }];
    match preset_files(&store, "python-uv", Some(&partial), None, &profiles) {
        Err(PresetError::Incomplete(missing)) => assert_eq!(missing, "compose.yaml"),
        _ => panic!("expected an incomplete-preset error"),
    }

    // an embedded profile renders on demand
    let rendered = preset_files(&store, "python-uv", None, None, &profiles).unwrap();
    assert!(rendered.iter().any(|f| f.rel_path == "devcontainer.json"));
    assert!(rendered.iter().any(|f| f.rel_path == "compose.yaml"));
    assert!(rendered.iter().any(|f| f.rel_path == "Dockerfile"));

    // falling through everything is unknown
    match preset_files(&store, "no-such", None, None, &profiles) {
        Err(PresetError::Unknown(name)) => assert_eq!(name, "no-such"),
        _ => panic!("expected an unknown-preset error"),
    }

    // a caller-provided profile renders via the engine
    let profile = ProfileManifest {
        components: ids(&["lang/go"]),
        params: Vec::new(),
    };
    let fromprofile =
        preset_files(&store, "goish", None, Some(&profile), &profiles).unwrap();
    let dc = file_text(&fromprofile, "devcontainer.json");
    assert!(dc.contains("features/go"));
}

#[test]
fn stealth_rewrites_mount_and_build() {
    let store = embedded_store();
    let params = Params::new();
    let files = render_from_components(&store, &ids(&["python"]), &params).unwrap();
    let compose = file_text(&files, "compose.yaml").to_string();
    assert!(compose.contains(":/workspaces/workspace"));

    let out = make_compose_stealth(&compose, "python-uv").unwrap();
    assert!(out.contains("- ${PC_WORKSPACE_DIR}:/workspaces/workspace"));
    assert!(out.contains(
        "- ${PC_DEVCONTAINER_DIR}:/workspaces/workspace/.devcontainer:ro"
    ));
    assert!(out.contains("image: ${DEVCONTAINER_IMAGE:-pc-devcontainer:python-uv}"));
    assert!(!out.contains("build:"));
    assert!(!out.contains("dockerfile: Dockerfile"));
    assert!(out.ends_with('\n'));

    // a text that already exposes the configuration directory gets no
    // second mount inserted
    let pre_mounted = "services:\n  dev:\n    volumes:\n    - ..:/workspaces/workspace\n    - cfg:/workspaces/workspace/.devcontainer\n";
    let kept = make_compose_stealth(pre_mounted, "p").unwrap();
    assert!(!kept.contains("PC_DEVCONTAINER_DIR"));
}

#[test]
fn stealth_without_workspace_mount_is_refused() {
    assert!(make_compose_stealth("services:\n  dev:\n    image: x\n", "p").is_none());
}

#[test]
fn embedded_catalog_names_its_profiles() {
    let names = pc_cli::embedded::embedded_profile_names();
    assert_eq!(names, vec!["node-pnpm".to_string(), "python-uv".to_string()]);
    // the embedded set ships its presets as profiles, none pre-rendered
    assert!(pc_cli::embedded::embedded_presets().is_empty());
    let profiles = embedded_profiles();
    assert_eq!(profiles.len(), names.len());
}

#[test]
fn force_required_message_names_the_target() {
    let e = pc_cli::store::ForceRequired { target: "/tmp/x/devcontainer.json".to_string() };
    assert_eq!(e.message(), "Target exists: /tmp/x/devcontainer.json");
}

#[test]
fn compose_spec_renders_with_its_overrides() {
    let store = embedded_store();
    let spec = ComposeSpec {
        components: ids(&["base/devcontainer"]),
        params: vec![("base_image".to_string(), "debian:trixie".to_string())],
    };
    let files = pc_cli::render::render_compose_spec(&store, &spec).unwrap();
    assert!(file_text(&files, "Dockerfile").starts_with("FROM debian:trixie"));
}
