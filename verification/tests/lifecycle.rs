//! Agent lifecycle decisions: naming, metadata, plans and follow-ups.

use pc_cli::names::derive_agent_name_from_branch;
use pc_cli::lifecycle::{
    cache_volume_names, compose_project_for, cache_prefix_for, default_compose_project_name,
    devcontainer_env_text, image_tag_for_dockerfile, meta_from_json, meta_to_json,
    removal_follow_up, removal_plan, rollback_plan, stderr_suggests_force, AgentMeta,
    RemovalFollowUp, TeardownAction,
};

#[test]
fn compose_project_and_cache_prefix_are_namespaced() {
    assert_eq!(compose_project_for("agent-a"), "agent_agent_a");
    assert_eq!(compose_project_for("feat_a"), "agent_feat_a");
    assert_eq!(cache_prefix_for("My-Repo"), "my_repo");
}

#[test]
fn image_tag_pins_the_digest() {
    // the digest of the empty input is a fixed, well-known value
    let tag = image_tag_for_dockerfile(&Vec::new());
    assert_eq!(tag, "pc-devcontainer:da39a3ee5e6b");
    let other = image_tag_for_dockerfile(&b"FROM scratch\n".to_vec());
    assert_ne!(tag, other);
    assert!(other.starts_with("pc-devcontainer:"));
    assert_eq!(other.len(), "pc-devcontainer:".len() + 12);
}

#[test]
fn default_projects_differ_for_different_paths() {
    let a = default_compose_project_name("repo", &b"/home/u/one/repo".to_vec());
    let b = default_compose_project_name("repo", &b"/home/u/two/repo".to_vec());
    assert!(a.starts_with("dc_repo_"));
    assert!(b.starts_with("dc_repo_"));
    assert_ne!(a, b);
}

#[test]
fn env_text_has_both_namespacing_lines() {
    let text = devcontainer_env_text("agent_feat_a", "repo");
    assert_eq!(
        text,
        "COMPOSE_PROJECT_NAME=agent_feat_a\nDEVCONTAINER_CACHE_PREFIX=repo\n"
    );
}

#[test]
fn cache_volumes_follow_the_compose_text() {
    let compose = "volumes:\n  uv_cache:\n    name: ${DEVCONTAINER_CACHE_PREFIX:-devcontainer}-uv-cache\n  pip_cache:\n    name: ${DEVCONTAINER_CACHE_PREFIX:-devcontainer}-pip-cache\n";
    let names = cache_volume_names(compose, "repo");
    assert_eq!(names, vec!["repo-uv-cache".to_string(), "repo-pip-cache".to_string()]);
    assert_eq!(cache_volume_names("services: {}\n", "repo").len(), 0);
}

#[test]
fn rollback_deletes_branch_only_when_created() {
    let with_branch = rollback_plan(true);
    assert!(with_branch.contains(&TeardownAction::DeleteBranch));
    assert!(with_branch.contains(&TeardownAction::RemoveWorktreeForced));
    let without = rollback_plan(false);
    assert!(!without.contains(&TeardownAction::DeleteBranch));
    assert!(without.contains(&TeardownAction::RemoveWorktreeForced));
    // the worktree goes before the branch, and metadata last
    assert_eq!(with_branch.last(), Some(&TeardownAction::RemoveMeta));
    let wt = with_branch.iter().position(|a| *a == TeardownAction::RemoveWorktreeForced);
    let br = with_branch.iter().position(|a| *a == TeardownAction::DeleteBranch);
    assert!(wt < br);
}

#[test]
fn removal_never_deletes_the_branch() {
    for has_own in [false, true] {
        for force in [false, true] {
            let plan = removal_plan(has_own, force);
            assert!(!plan.contains(&TeardownAction::DeleteBranch));
        }
    }
    assert!(removal_plan(false, false).contains(&TeardownAction::ComposeDownStealth));
    assert!(!removal_plan(true, false).contains(&TeardownAction::ComposeDownStealth));
    assert!(removal_plan(true, false).contains(&TeardownAction::RemoveWorktree));
    assert!(removal_plan(true, true).contains(&TeardownAction::RemoveWorktreeForced));
}

#[test]
fn clean_removal_needs_no_force() {
    assert_eq!(removal_follow_up(true, false, false), RemovalFollowUp::Done);
    assert_eq!(removal_follow_up(true, true, true), RemovalFollowUp::Done);
    assert_eq!(removal_follow_up(false, true, true), RemovalFollowUp::ConfirmForce);
    assert_eq!(removal_follow_up(false, true, false), RemovalFollowUp::Fail);
    assert_eq!(removal_follow_up(false, false, true), RemovalFollowUp::Fail);
}

#[test]
fn force_suggestion_is_pattern_matched() {
    assert!(stderr_suggests_force(
        "fatal: 'x' contains modified or untracked files, use --force to delete it"
    ));
    assert!(!stderr_suggests_force("fatal: not a working tree"));
}

#[test]
fn metadata_round_trips_through_json() {
    let meta = AgentMeta {
        preset: "python-uv".to_string(),
        compose_project: "agent_feat_a".to_string(),
        cache_prefix: "repo".to_string(),
        branch_name: Some("feat/a".to_string()),
    };
    let text = meta_to_json(&meta);
    assert!(text.ends_with('\n'));
    let back = meta_from_json(&text).unwrap();
    assert_eq!(back.preset, "python-uv");
    assert_eq!(back.compose_project, "agent_feat_a");
    assert_eq!(back.cache_prefix, "repo");
    assert_eq!(back.branch_name.as_deref(), Some("feat/a"));
}

#[test]
fn metadata_without_branch_field_still_reads() {
    let old = "{\n  \"cache_prefix\": \"repo\",\n  \"compose_project\": \"agent_feat_a\",\n  \"preset\": \"python-uv\"\n}\n";
    let meta = meta_from_json(old).unwrap();
    assert_eq!(meta.branch_name, None);
    assert_eq!(meta.preset, "python-uv");

    let nullbranch = "{\"branch_name\": null, \"cache_prefix\": \"r\", \"compose_project\": \"c\", \"preset\": \"p\"}";
    assert_eq!(meta_from_json(nullbranch).unwrap().branch_name, None);

    assert!(meta_from_json("not json").is_none());
    assert!(meta_from_json("{\"preset\": 3}").is_none());
}

#[test]
fn derived_agents_from_different_branches_get_distinct_projects() {
    let a = derive_agent_name_from_branch("feat/one").unwrap();
    let b = derive_agent_name_from_branch("feat/two").unwrap();
    assert_ne!(compose_project_for(&a), compose_project_for(&b));
}
