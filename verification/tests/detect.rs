use barzel::detect::{
    detect_project, detect_workspace, extract_go_module_name, extract_json_string_field,
    extract_package_name_from_content, extract_python_package_name, js_glob_excludes,
    parse_yaml_list_items, Language, Member, ProjectInfo, WorkspaceInfo, WorkspaceKind,
};
use barzel::files::{Entry, Files};

/// The files of a project at `root`, with the directories they stand in.
fn files_at(root: &str, texts: &[(&str, &str)]) -> Files {
    let mut entries = vec![Entry {
        path: String::new(),
        dir: true,
        absolute: root.to_string(),
        text: None,
    }];
    for (path, text) in texts {
        let parts: Vec<&str> = path.split('/').collect();
        for n in 1..parts.len() {
            let parent = parts[..n].join("/");
            if !entries.iter().any(|e| e.path == parent) {
                entries.push(Entry {
                    absolute: format!("{root}/{parent}"),
                    path: parent,
                    dir: true,
                    text: None,
                });
            }
        }
        if !path.ends_with('/') {
            entries.push(Entry {
                path: path.to_string(),
                dir: false,
                absolute: format!("{root}/{path}"),
                text: Some(text.to_string()),
            });
        }
    }
    Files { entries }
}

const ROOT: &str = "/tmp/project";

fn project(texts: &[(&str, &str)]) -> ProjectInfo {
    detect_project(&files_at(ROOT, texts), "")
}

fn workspace(texts: &[(&str, &str)]) -> WorkspaceInfo {
    detect_workspace(&files_at(ROOT, texts))
}

fn members_of(ws: WorkspaceInfo) -> (WorkspaceKind, Vec<Member>) {
    match ws {
        WorkspaceInfo::Multi { kind, members } => (kind, members),
        WorkspaceInfo::Single(_) => panic!("Expected Multi"),
    }
}

fn paths(members: &[Member]) -> Vec<&str> {
    members.iter().map(|m| m.path.as_str()).collect()
}

#[test]
fn language_display_values() {
    assert_eq!(Language::Rust.as_str(), "rust");
    assert_eq!(Language::TypeScript.as_str(), "typescript");
    assert_eq!(Language::Python.as_str(), "python");
    assert_eq!(Language::Go.as_str(), "go");
    assert_eq!(Language::Unknown.as_str(), "unknown");
}

#[test]
fn detects_rust_project() {
    let info = project(&[("Cargo.toml", "[package]\nname = \"test-crate\"")]);
    assert_eq!(info.language, Language::Rust);
    assert_eq!(info.package_name, Some("test-crate".to_string()));
}

#[test]
fn rust_has_tests_with_lib_rs_only() {
    let info = project(&[("Cargo.toml", "[package]\nname=\"x\""), ("src/lib.rs", "pub fn x() {}")]);
    assert!(info.has_tests);
}

#[test]
fn detects_typescript_with_package_json() {
    let info = project(&[("package.json", r#"{"name":"my-app"}"#)]);
    assert_eq!(info.language, Language::TypeScript);
    assert_eq!(info.package_name, Some("my-app".to_string()));
}

#[test]
fn detects_nextjs_from_next_config() {
    let info = project(&[
        ("package.json", r#"{"name":"my-app"}"#),
        ("next.config.js", "module.exports = {}"),
    ]);
    assert!(info.frameworks.is_nextjs);
}

#[test]
fn detects_nextjs_from_package_json_dep() {
    let info =
        project(&[("package.json", r#"{"name":"app","dependencies":{"next":"14.0.0"}}"#)]);
    assert!(info.frameworks.is_nextjs);
}

#[test]
fn typescript_has_tests_with_playwright_config() {
    let info =
        project(&[("package.json", "{}"), ("playwright.config.ts", "export default {}")]);
    assert!(info.has_tests);
}

#[test]
fn detects_python_from_pyproject_toml() {
    let info = project(&[("pyproject.toml", "[project]\nname = \"my-lib\"")]);
    assert_eq!(info.language, Language::Python);
    assert_eq!(info.package_name, Some("my-lib".to_string()));
}

#[test]
fn detects_python_from_requirements_txt() {
    assert_eq!(project(&[("requirements.txt", "pytest\nrequests")]).language, Language::Python);
}

#[test]
fn detects_python_from_setup_py() {
    let info = project(&[("setup.py", "from setuptools import setup")]);
    assert_eq!(info.language, Language::Python);
}

#[test]
fn detects_openai_in_typescript() {
    let info = project(&[("package.json", r#"{"dependencies":{"openai":"4.0.0"}}"#)]);
    assert!(info.frameworks.has_ai_deps);
    assert!(info.frameworks.ai_frameworks.iter().any(|f| f.contains("OpenAI")));
}

#[test]
fn detects_anthropic_in_python() {
    let info = project(&[("requirements.txt", "anthropic\nfastapi")]);
    assert!(info.frameworks.has_ai_deps);
    assert!(info.frameworks.ai_frameworks.iter().any(|f| f.contains("Anthropic")));
}

#[test]
fn detects_langchain_in_python() {
    let info = project(&[("requirements.txt", "langchain\nlangchain-openai")]);
    assert!(info.frameworks.has_ai_deps);
}

#[test]
fn detects_go_project_with_module_name() {
    let info = project(&[("go.mod", "module github.com/user/myproject\ngo 1.21\n")]);
    assert_eq!(info.language, Language::Go);
    assert_eq!(info.package_name, Some("myproject".to_string()));
}

#[test]
fn detects_unknown_project() {
    assert_eq!(project(&[]).language, Language::Unknown);
}

#[test]
fn extracts_package_name_basic() {
    assert_eq!(
        extract_package_name_from_content("[package]\nname = \"my-crate\"\nversion = \"0.1.0\""),
        Some("my-crate".to_string())
    );
}

#[test]
fn extract_returns_none_for_empty() {
    assert_eq!(extract_package_name_from_content(""), None);
}

#[test]
fn extracts_python_package_name() {
    assert_eq!(
        extract_python_package_name("[project]\nname = \"my-lib\"\n"),
        Some("my-lib".to_string())
    );
}

#[test]
fn extracts_name_when_not_first_field() {
    let json = r#"{"version":"1.0","description":"a lib","name":"real-name"}"#;
    assert_eq!(extract_json_string_field(json, "name"), Some("real-name".to_string()));
}

#[test]
fn go_module_name_extracts_last_segment() {
    assert_eq!(
        extract_go_module_name("module github.com/user/my-app\n"),
        Some("my-app".to_string())
    );
}

const ODD_TEXTS: [&str; 6] = ["", "name", "name = ", "module ", "\"name\":", "\u{1F600}\r\nname='é'"];

#[test]
fn extract_never_panics() {
    for s in ODD_TEXTS {
        let _ = extract_package_name_from_content(s);
    }
}

#[test]
fn detect_always_returns_result() {
    let files = files_at(ROOT, &[]);
    for at in ["a", "missing", "zzzzzzzz"] {
        assert_eq!(detect_project(&files, at).language, Language::Unknown);
    }
}

#[test]
fn extract_with_explicit_name_round_trips() {
    for name in ["a", "my-crate", "x9-", "abcdefghijklmnopqrstu"] {
        let content = format!("[package]\nname = \"{name}\"");
        assert_eq!(extract_package_name_from_content(&content), Some(name.to_string()));
    }
}

#[test]
fn extract_json_field_never_panics() {
    for s in ODD_TEXTS {
        let _ = extract_json_string_field(s, "name");
    }
}

#[test]
fn go_module_name_never_panics() {
    for s in ODD_TEXTS {
        let _ = extract_go_module_name(s);
    }
}

#[test]
fn python_package_name_never_panics() {
    for s in ODD_TEXTS {
        let _ = extract_python_package_name(s);
    }
}

#[test]
fn single_rust_project_returns_single() {
    let ws = workspace(&[("Cargo.toml", "[package]\nname=\"myapp\"")]);
    assert!(matches!(ws, WorkspaceInfo::Single(_)));
}

#[test]
fn cargo_workspace_with_members_returns_multi() {
    let (kind, members) = members_of(workspace(&[
        ("Cargo.toml", "[workspace]\nmembers = [\"crates/a\", \"crates/b\"]\n"),
        ("crates/a/Cargo.toml", "[package]\nname=\"a\""),
        ("crates/b/Cargo.toml", "[package]\nname=\"b\""),
    ]));
    assert_eq!(kind, WorkspaceKind::Cargo);
    assert_eq!(members.len(), 2);
    assert!(paths(&members).contains(&"crates/a"));
    assert!(paths(&members).contains(&"crates/b"));
}

#[test]
fn pnpm_workspace_returns_multi() {
    let (kind, members) = members_of(workspace(&[
        ("pnpm-workspace.yaml", "packages:\n  - 'apps/*'\n"),
        ("apps/web/package.json", r#"{"name":"web"}"#),
    ]));
    assert_eq!(kind, WorkspaceKind::Pnpm);
    assert_eq!(members.len(), 1);
    assert_eq!(members[0].path, "apps/web");
    assert_eq!(members[0].info.language, Language::TypeScript);
}

#[test]
fn npm_workspace_returns_multi() {
    let (kind, members) = members_of(workspace(&[
        ("package.json", r#"{"name":"root","workspaces":["packages/*"]}"#),
        ("packages/ui/package.json", r#"{"name":"ui"}"#),
    ]));
    assert_eq!(kind, WorkspaceKind::Npm);
    assert_eq!(members.len(), 1);
    assert_eq!(members[0].path, "packages/ui");
}

#[test]
fn lerna_workspace_returns_multi() {
    let (kind, members) = members_of(workspace(&[
        ("lerna.json", r#"{"packages":["packages/*"]}"#),
        ("packages/core/package.json", r#"{"name":"core"}"#),
    ]));
    assert_eq!(kind, WorkspaceKind::Lerna);
    assert_eq!(members.len(), 1);
}

#[test]
fn empty_workspace_falls_back_to_single() {
    let ws = workspace(&[("Cargo.toml", "[workspace]\nmembers = [\"nonexistent\"]\n")]);
    assert!(matches!(ws, WorkspaceInfo::Single(_)));
}

#[test]
fn workspace_member_language_detected_correctly() {
    let (_, members) = members_of(workspace(&[
        ("pnpm-workspace.yaml", "packages:\n  - 'apps/*'\n"),
        ("apps/api/pyproject.toml", "[project]\nname = 'api'"),
    ]));
    assert_eq!(members.len(), 1);
    assert_eq!(members[0].info.language, Language::Python);
}

#[test]
fn cargo_workspace_with_glob_members_returns_multi() {
    let (kind, members) = members_of(workspace(&[
        ("Cargo.toml", "[workspace]\nmembers = [\"crates/*\"]\n"),
        ("crates/alpha/Cargo.toml", "[package]\nname=\"alpha\""),
        ("crates/beta/Cargo.toml", "[package]\nname=\"beta\""),
    ]));
    assert_eq!(kind, WorkspaceKind::Cargo);
    assert_eq!(members.len(), 2);
    assert!(paths(&members).iter().any(|p| p.ends_with("alpha")));
    assert!(paths(&members).iter().any(|p| p.ends_with("beta")));
}

#[test]
fn turbo_workspace_returns_turbo_kind() {
    let ws = workspace(&[
        ("package.json", r#"{"workspaces":["apps/*"]}"#),
        ("turbo.json", "{}"),
        ("apps/web/package.json", r#"{"name":"web"}"#),
    ]);
    assert!(matches!(ws, WorkspaceInfo::Multi { kind: WorkspaceKind::Turbo, .. }));
}

#[test]
fn cargo_workspace_members_have_workspace_root_set() {
    let (_, members) = members_of(workspace(&[
        ("Cargo.toml", "[workspace]\nmembers = [\"crates/a\", \"crates/b\"]\n"),
        ("crates/a/Cargo.toml", "[package]\nname=\"a\""),
        ("crates/b/Cargo.toml", "[package]\nname=\"b\""),
    ]));
    for m in &members {
        assert!(
            m.info.workspace_root.is_some(),
            "each Cargo workspace member must have workspace_root set"
        );
        assert_eq!(
            m.info.workspace_root.as_deref(),
            Some(ROOT),
            "workspace_root must point to the directory containing the workspace Cargo.toml"
        );
    }
}

#[test]
fn pnpm_workspace_members_have_workspace_root_set() {
    let (_, members) = members_of(workspace(&[
        ("pnpm-workspace.yaml", "packages:\n  - 'apps/*'\n"),
        ("apps/web/package.json", r#"{"name":"web"}"#),
    ]));
    assert!(members[0].info.workspace_root.is_some());
}

#[test]
fn single_project_workspace_root_is_none() {
    match workspace(&[("Cargo.toml", "[package]\nname=\"solo\"")]) {
        WorkspaceInfo::Single(info) => {
            assert!(info.workspace_root.is_none(), "single-project workspace_root must be None");
        }
        _ => panic!("Expected Single"),
    }
}

#[test]
fn cargo_workspace_with_package_and_workspace_includes_root_as_dot() {
    let (_, members) = members_of(workspace(&[
        ("Cargo.toml", "[package]\nname=\"root-crate\"\n[workspace]\nmembers = [\"crates/a\"]\n"),
        ("crates/a/Cargo.toml", "[package]\nname=\"a\""),
    ]));
    assert!(paths(&members).contains(&"."), "root package must be included as \".\"");
    assert!(paths(&members).contains(&"crates/a"), "declared member must still be present");
    assert_eq!(members.len(), 2);
}

#[test]
fn cargo_workspace_exclude_removes_matching_members() {
    let (_, members) = members_of(workspace(&[
        (
            "Cargo.toml",
            "[workspace]\nmembers = [\"crates/*\"]\nexclude = [\"crates/experimental\"]\n",
        ),
        ("crates/api/Cargo.toml", "[package]\nname=\"api\""),
        ("crates/core/Cargo.toml", "[package]\nname=\"core\""),
        ("crates/experimental/Cargo.toml", "[package]\nname=\"experimental\""),
    ]));
    let found = paths(&members);
    assert!(!found.iter().any(|p| p.ends_with("experimental")), "excluded member must not appear");
    assert!(found.iter().any(|p| p.ends_with("api")), "non-excluded member must be present");
    assert!(found.iter().any(|p| p.ends_with("core")), "non-excluded member must be present");
    assert_eq!(members.len(), 2);
}

#[test]
fn cargo_workspace_deduplicates_overlapping_patterns() {
    let (_, members) = members_of(workspace(&[
        ("Cargo.toml", "[workspace]\nmembers = [\"crates/*\", \"crates/api\"]\n"),
        ("crates/api/Cargo.toml", "[package]\nname=\"api\""),
        ("crates/lib/Cargo.toml", "[package]\nname=\"lib\""),
    ]));
    let api_count = members.iter().filter(|m| m.path.ends_with("api")).count();
    assert_eq!(api_count, 1, "crates/api must appear exactly once despite duplicate patterns");
    assert_eq!(members.len(), 2, "total members must be 2 (api + lib)");
}

#[test]
fn cargo_workspace_root_member_has_workspace_root_stamped() {
    let (_, members) = members_of(workspace(&[
        ("Cargo.toml", "[package]\nname=\"root-crate\"\n[workspace]\nmembers = [\"crates/a\"]\n"),
        ("crates/a/Cargo.toml", "[package]\nname=\"a\""),
    ]));
    let root_member = members.iter().find(|m| m.path == ".");
    assert!(root_member.is_some(), "root member must be present");
    assert!(
        root_member.unwrap().info.workspace_root.is_some(),
        "root member must have workspace_root stamped"
    );
}

#[test]
fn pnpm_workspace_exclude_removes_matching_member() {
    let (_, members) = members_of(workspace(&[
        ("pnpm-workspace.yaml", "packages:\n  - 'packages/*'\n  - '!packages/experimental'\n"),
        ("packages/core/package.json", r#"{"name":"core"}"#),
        ("packages/experimental/package.json", r#"{"name":"experimental"}"#),
    ]));
    let found = paths(&members);
    assert!(found.contains(&"packages/core"), "core must be included");
    assert!(!found.contains(&"packages/experimental"), "experimental must be excluded");
}

#[test]
fn lerna_exclude_removes_matching_member() {
    let (_, members) = members_of(workspace(&[
        ("lerna.json", r#"{"packages":["packages/*","!packages/legacy"]}"#),
        ("packages/api/package.json", r#"{"name":"api"}"#),
        ("packages/legacy/package.json", r#"{"name":"legacy"}"#),
    ]));
    let found = paths(&members);
    assert!(found.contains(&"packages/api"), "api must be included");
    assert!(!found.contains(&"packages/legacy"), "legacy must be excluded");
}

#[test]
fn npm_workspaces_exclude_removes_matching_member() {
    let (_, members) = members_of(workspace(&[
        ("package.json", r#"{"name":"root","workspaces":["apps/*","!apps/legacy"]}"#),
        ("apps/web/package.json", r#"{"name":"web"}"#),
        ("apps/legacy/package.json", r#"{"name":"legacy"}"#),
    ]));
    let found = paths(&members);
    assert!(found.contains(&"apps/web"), "web must be included");
    assert!(!found.contains(&"apps/legacy"), "legacy must be excluded");
}

#[test]
fn js_workspace_deduplicates_overlapping_patterns() {
    let (_, members) = members_of(workspace(&[
        ("package.json", r#"{"name":"root","workspaces":["packages/*","packages/api"]}"#),
        ("packages/api/package.json", r#"{"name":"api"}"#),
        ("packages/utils/package.json", r#"{"name":"utils"}"#),
    ]));
    let api_count = members.iter().filter(|m| m.path == "packages/api").count();
    assert_eq!(
        api_count, 1,
        "packages/api must appear exactly once despite two matching patterns"
    );
    assert_eq!(members.len(), 2, "total members must be 2 (api + utils)");
}

#[test]
fn pnpm_other_yaml_sections_not_treated_as_workspace_members() {
    let (_, members) = members_of(workspace(&[
        (
            "pnpm-workspace.yaml",
            "packages:\n  - \"packages/*\"\nignoredBuiltDependencies:\n  - \"tools/not-a-workspace\"\n",
        ),
        ("packages/core/package.json", r#"{"name":"core"}"#),
        ("tools/not-a-workspace/package.json", r#"{"name":"not-a-member"}"#),
    ]));
    let found = paths(&members);
    assert!(found.contains(&"packages/core"), "packages/core must be detected");
    assert!(
        !found.contains(&"tools/not-a-workspace"),
        "tools/not-a-workspace must not be detected — it is in ignoredBuiltDependencies, not packages"
    );
}

#[test]
fn members_come_in_the_order_of_their_names() {
    let (_, members) = members_of(workspace(&[
        ("pnpm-workspace.yaml", "packages:\n  - 'apps/*'\n"),
        ("apps/zeta/package.json", "{}"),
        ("apps/alpha/package.json", "{}"),
    ]));
    assert_eq!(paths(&members), ["apps/alpha", "apps/zeta"]);
}

#[test]
fn excluded_globs_match_one_level() {
    assert!(js_glob_excludes("packages/*", "packages/a"));
    assert!(!js_glob_excludes("packages/*", "apps/a"));
    assert!(js_glob_excludes("packages/a", "packages/a"));
}

#[test]
fn go_tests_count_in_the_directory_itself() {
    let at = |path: &str| project(&[("go.mod", "module m\n"), (path, "package m\n")]);
    assert!(at("main_test.go").has_tests);
    assert!(!at("main.go").has_tests);
    assert!(!at("sub/main_test.go").has_tests);
}

#[test]
fn only_top_level_keys_end_the_packages_section() {
    let items = parse_yaml_list_items(
        "# workspace\npackages:\n  - 'apps/*'\n\n# more\n  - libs/*\n- \"tools\"\ncatalog:\n  - no\n",
    );
    assert_eq!(items, ["apps/*", "libs/*", "tools"]);
    assert_eq!(parse_yaml_list_items("packages:\n  - a\nmode: strict\n  - b\n"), ["a"]);
    assert!(parse_yaml_list_items("catalog:\n  - a\n").is_empty());
}

#[test]
fn excluded_cargo_members_are_left_out() {
    let manifest = "[workspace]\nmembers = [\"crates/*\", \"crates/a\"]\nexclude = [\"crates/b\"]\n";
    let (kind, members) = members_of(workspace(&[
        ("Cargo.toml", manifest),
        ("crates/a/Cargo.toml", "[package]\nname = \"a\"\n"),
        ("crates/b/Cargo.toml", "[package]\nname = \"b\"\n"),
    ]));
    assert_eq!(kind, WorkspaceKind::Cargo);
    assert_eq!(paths(&members), ["crates/a"]);
}
