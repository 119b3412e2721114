use barzel::diff::{git_repo_root, DiffContext};
use barzel::process::ProcessOutput;

fn output(success: bool, stdout: &str) -> ProcessOutput {
    ProcessOutput { success, stdout: stdout.to_string(), stderr: String::new() }
}

/// The changes of a repository at `/repo`.
fn changes(changed: &str) -> DiffContext {
    DiffContext::since("/repo".to_string(), &output(true, changed), None).unwrap()
}

#[test]
fn non_git_dir_returns_none() {
    assert!(git_repo_root(&output(false, "")).is_none());
    assert!(git_repo_root(&output(true, "\n")).is_none());
}

#[test]
fn invalid_rev_returns_none() {
    let root = git_repo_root(&output(true, "/repo\n")).unwrap();
    assert!(DiffContext::since(root, &output(false, ""), None).is_none());
}

#[test]
fn detects_changed_files_since_rev() {
    let ctx = changes("b.txt\n");
    assert_eq!(ctx.changed_files.len(), 1);
    assert_eq!(ctx.changed_files[0], "b.txt");
}

#[test]
fn no_changes_since_rev_returns_empty_list() {
    assert!(changes("").changed_files.is_empty());
}

#[test]
fn affects_path_true_when_file_under_project_root() {
    let ctx = changes("crates/foo/lib.rs\n");
    assert!(ctx.affects_path("/repo/crates/foo"));
    assert!(!ctx.affects_path("/repo/crates/bar"));
}

#[test]
fn has_lockfile_changes_detected() {
    assert!(changes("Cargo.lock\n").has_lockfile_changes());
}

#[test]
fn has_lockfile_changes_false_for_source_only() {
    assert!(!changes("lib.rs\n").has_lockfile_changes());
}

#[test]
fn root_cargo_toml_forces_full_run() {
    assert!(changes("Cargo.toml\n").forces_full_run(), "root Cargo.toml change must force full run");
}

#[test]
fn root_package_json_forces_full_run() {
    assert!(
        changes("package.json\n").forces_full_run(),
        "root package.json change must force full run"
    );
}

#[test]
fn nested_package_json_does_not_force_full_run() {
    let ctx = changes("packages/a/package.json\n");
    assert!(!ctx.forces_full_run(), "nested package.json must not force full run");
    assert!(ctx.affects_path("/repo/packages/a"));
}

#[test]
fn root_barzel_rules_change_forces_full_run() {
    assert!(
        changes(".barzel/rules/shared.yml\n").forces_full_run(),
        ".barzel/rules/*.yml change at repo root must force a full workspace run"
    );
}

#[test]
fn package_local_barzel_rules_do_not_force_full_run() {
    let ctx = changes("packages/api/.barzel/rules/api-rule.yml\n");
    assert!(
        !ctx.forces_full_run(),
        "package-local .barzel/rules change must not force a full run (handled by affects_path)"
    );
    assert!(ctx.affects_path("/repo/packages/api"));
}

#[test]
fn untracked_files_included_in_changed() {
    let untracked = output(true, "new_module.rs\n");
    let ctx =
        DiffContext::since("/repo".to_string(), &output(true, ""), Some(&untracked)).unwrap();
    assert!(
        ctx.changed_files.iter().any(|p| p == "new_module.rs"),
        "untracked new_module.rs must appear in changed_files"
    );
}

#[test]
fn names_that_only_begin_alike_are_not_affected() {
    let ctx = changes("crates/foobar/lib.rs\n");
    assert!(!ctx.affects_path("/repo/crates/foo"));
    assert!(ctx.affects_path("/repo/crates/foobar/"));
}

#[test]
fn no_changes_affect_nothing() {
    let ctx = changes("");
    assert!(!ctx.affects_path("/repo"));
    assert!(!ctx.forces_full_run());
    assert_eq!(ctx.summary(), "0 file(s) changed");
}
