//! The embedded default component set and profiles.
//!
//! These are the building blocks available out of the box: a base
//! devcontainer skeleton, language components, and tool components layered
//! on them. A user override directory may shadow any of them by id. The
//! embedded presets ship as profiles, rendered on demand.

use vstd::prelude::*;

use crate::store::{ComponentManifest, ComponentParam, ComponentStore, LoadedComponent,
    ProfileManifest, TemplateFile};

verus! {

fn manifest(
    id: &str,
    name: &str,
    description: &str,
    category: &str,
    depends: Vec<String>,
    conflicts: Vec<String>,
    params: Vec<ComponentParam>,
) -> ComponentManifest {
    ComponentManifest {
        id: id.to_owned(),
        name: name.to_owned(),
        description: description.to_owned(),
        category: category.to_owned(),
        depends,
        conflicts,
        params,
    }
}

fn base_component() -> LoadedComponent {
    let mut params: Vec<ComponentParam> = Vec::new();
    params.push(
        ComponentParam {
            key: String::from_str("base_image"),
            prompt: String::from_str("Base container image"),
            default: String::from_str("mcr.microsoft.com/devcontainers/base:bookworm"),
            choices: Vec::new(),
        },
    );
    LoadedComponent {
        manifest: manifest(
            "base/devcontainer",
            "Base devcontainer",
            "Minimum valid devcontainer skeleton",
            "Base",
            Vec::new(),
            Vec::new(),
            params,
        ),
        devcontainer_json: Some(
            String::from_str(
                "{\n  \"name\": \"workspace\",\n  \"dockerComposeFile\": \"compose.yaml\",\n  \"service\": \"dev\",\n  \"workspaceFolder\": \"/workspaces/workspace\"\n}\n",
            ),
        ),
        compose_yaml: Some(
            String::from_str(
                "services:\n  dev:\n    build:\n      context: .\n      dockerfile: Dockerfile\n    volumes:\n    - ..:/workspaces/workspace\n    - vscode_extensions:/home/vscode/.vscode-server/extensions\n    command: sleep infinity\nvolumes:\n  vscode_extensions:\n    external: true\n    name: ${DEVCONTAINER_CACHE_PREFIX:-devcontainer}-vscode-extensions\n",
            ),
        ),
        dockerfile_part: Some(String::from_str("FROM {{base_image}}\n")),
        extra_files: Vec::new(),
    }
}

fn python_component() -> LoadedComponent {
    let mut params: Vec<ComponentParam> = Vec::new();
    params.push(
        ComponentParam {
            key: String::from_str("python_version"),
            prompt: String::from_str("Python version"),
            default: String::from_str("3.12"),
            choices: Vec::new(),
        },
    );
    LoadedComponent {
        manifest: manifest(
            "lang/python",
            "Python",
            "Python language support",
            "Language",
            Vec::new(),
            Vec::new(),
            params,
        ),
        devcontainer_json: Some(
            String::from_str(
                "{\n  \"features\": {\n    \"ghcr.io/devcontainers/features/python:1\": {\n      \"version\": \"{{python_version}}\"\n    }\n  }\n}\n",
            ),
        ),
        compose_yaml: None,
        dockerfile_part: None,
        extra_files: Vec::new(),
    }
}

fn uv_component() -> LoadedComponent {
    let mut depends: Vec<String> = Vec::new();
    depends.push(String::from_str("lang/python"));
    LoadedComponent {
        manifest: manifest(
            "tool/python/uv",
            "uv",
            "Fast Python package manager",
            "Tool",
            depends,
            Vec::new(),
            Vec::new(),
        ),
        devcontainer_json: None,
        compose_yaml: Some(
            String::from_str(
                "services:\n  dev:\n    volumes:\n    - uv_cache:/home/vscode/.cache/uv\n    - pip_cache:/home/vscode/.cache/pip\nvolumes:\n  uv_cache:\n    external: true\n    name: ${DEVCONTAINER_CACHE_PREFIX:-devcontainer}-uv-cache\n  pip_cache:\n    external: true\n    name: ${DEVCONTAINER_CACHE_PREFIX:-devcontainer}-pip-cache\n",
            ),
        ),
        dockerfile_part: Some(String::from_str("RUN pip install --user uv\n")),
        extra_files: Vec::new(),
    }
}

fn node_component() -> LoadedComponent {
    let mut params: Vec<ComponentParam> = Vec::new();
    params.push(
        ComponentParam {
            key: String::from_str("node_version"),
            prompt: String::from_str("Node.js version"),
            default: String::from_str("lts"),
            choices: Vec::new(),
        },
    );
    LoadedComponent {
        manifest: manifest(
            "lang/node",
            "Node.js",
            "Node.js language support",
            "Language",
            Vec::new(),
            Vec::new(),
            params,
        ),
        devcontainer_json: Some(
            String::from_str(
                "{\n  \"features\": {\n    \"ghcr.io/devcontainers/features/node:1\": {\n      \"version\": \"{{node_version}}\"\n    }\n  }\n}\n",
            ),
        ),
        compose_yaml: Some(
            String::from_str(
                "services:\n  dev:\n    volumes:\n    - npm_cache:/home/vscode/.npm\nvolumes:\n  npm_cache:\n    external: true\n    name: ${DEVCONTAINER_CACHE_PREFIX:-devcontainer}-npm-cache\n",
            ),
        ),
        dockerfile_part: None,
        extra_files: Vec::new(),
    }
}

fn pnpm_component() -> LoadedComponent {
    let mut depends: Vec<String> = Vec::new();
    depends.push(String::from_str("lang/node"));
    LoadedComponent {
        manifest: manifest(
            "tool/node/pnpm",
            "pnpm",
            "Fast Node.js package manager",
            "Tool",
            depends,
            Vec::new(),
            Vec::new(),
        ),
        devcontainer_json: Some(
            String::from_str(
                "{\n  \"features\": {\n    \"ghcr.io/devcontainers-extra/features/pnpm:2\": {}\n  }\n}\n",
            ),
        ),
        compose_yaml: Some(
            String::from_str(
                "services:\n  dev:\n    volumes:\n    - pnpm_home:/home/vscode/.local/share/pnpm\nvolumes:\n  pnpm_home:\n    external: true\n    name: ${DEVCONTAINER_CACHE_PREFIX:-devcontainer}-pnpm-home\n",
            ),
        ),
        dockerfile_part: None,
        extra_files: Vec::new(),
    }
}

fn go_component() -> LoadedComponent {
    LoadedComponent {
        manifest: manifest(
            "lang/go",
            "Go",
            "Go language support",
            "Language",
            Vec::new(),
            Vec::new(),
            Vec::new(),
        ),
        devcontainer_json: Some(
            String::from_str(
                "{\n  \"features\": {\n    \"ghcr.io/devcontainers/features/go:1\": {}\n  }\n}\n",
            ),
        ),
        compose_yaml: Some(
            String::from_str(
                "services:\n  dev:\n    volumes:\n    - go_mod_cache:/home/vscode/go/pkg/mod\n    - go_build_cache:/home/vscode/.cache/go-build\nvolumes:\n  go_mod_cache:\n    external: true\n    name: ${DEVCONTAINER_CACHE_PREFIX:-devcontainer}-go-mod-cache\n  go_build_cache:\n    external: true\n    name: ${DEVCONTAINER_CACHE_PREFIX:-devcontainer}-go-build-cache\n",
            ),
        ),
        dockerfile_part: None,
        extra_files: Vec::new(),
    }
}

fn desktop_component() -> LoadedComponent {
    LoadedComponent {
        manifest: manifest(
            "extra/desktop",
            "Desktop",
            "Optional desktop sidecar",
            "Extra",
            Vec::new(),
            Vec::new(),
            Vec::new(),
        ),
        devcontainer_json: None,
        compose_yaml: Some(
            String::from_str(
                "services:\n  desktop:\n    image: lscr.io/linuxserver/webtop:ubuntu-xfce\n    profiles:\n    - desktop\n    ports:\n    - \"3000\"\n",
            ),
        ),
        dockerfile_part: None,
        extra_files: Vec::new(),
    }
}

/// The embedded default component set.
pub fn embedded_components() -> (r: Vec<LoadedComponent>)
    ensures
        r@.len() == 7,
{
    let mut out: Vec<LoadedComponent> = Vec::new();
    out.push(base_component());
    out.push(python_component());
    out.push(uv_component());
    out.push(node_component());
    out.push(pnpm_component());
    out.push(go_component());
    out.push(desktop_component());
    out
}

/// A store over the embedded defaults alone, with no user overrides.
pub fn embedded_store() -> (r: ComponentStore)
    ensures
        r.overrides@.len() == 0,
        r.embedded@.len() == 7,
{
    ComponentStore { overrides: Vec::new(), embedded: embedded_components() }
}

/// The embedded profiles: named component lists rendered on demand.
pub fn embedded_profiles() -> Vec<(String, ProfileManifest)> {
    let mut out: Vec<(String, ProfileManifest)> = Vec::new();
    let mut py: Vec<String> = Vec::new();
    py.push(String::from_str("lang/python"));
    py.push(String::from_str("tool/python/uv"));
    out.push(
        (
            String::from_str("python-uv"),
            ProfileManifest { components: py, params: Vec::new() },
        ),
    );
    let mut nd: Vec<String> = Vec::new();
    nd.push(String::from_str("lang/node"));
    nd.push(String::from_str("tool/node/pnpm"));
    out.push(
        (
            String::from_str("node-pnpm"),
            ProfileManifest { components: nd, params: Vec::new() },
        ),
    );
    out
}

/// The embedded profile names, in sorted order.
pub fn embedded_profile_names() -> (r: Vec<String>)
    ensures
        r@.len() == 2,
        r@[0]@ == "node-pnpm"@,
        r@[1]@ == "python-uv"@,
{
    let mut out: Vec<String> = Vec::new();
    out.push(String::from_str("node-pnpm"));
    out.push(String::from_str("python-uv"));
    out
}

/// The names of embedded pre-rendered presets. The embedded set carries its
/// presets as profiles instead, so none are pre-rendered.
pub fn embedded_presets() -> (r: Vec<String>)
    ensures
        r@.len() == 0,
{
    Vec::new()
}

} // verus!
