use barzel::check::{
    build_check_payload, in_section, member_list, missing_required,
    validate_workspace_member_configs, workspace_heading, Section, ToolStatus,
};
use barzel::config::BarzelConfig;
use barzel::data::Data;
use barzel::detect::{
    Language, Member, ProjectFrameworks, ProjectInfo, WorkspaceInfo, WorkspaceKind,
};
use barzel::error::BarzelError;

fn tool(available: bool, required: bool, applicable: bool) -> ToolStatus {
    ToolStatus {
        name: "t".to_string(),
        layer: "logic".to_string(),
        install: "install t".to_string(),
        available,
        required,
        applicable,
    }
}

fn member(path: &str) -> Member {
    Member {
        path: path.to_string(),
        info: ProjectInfo {
            language: Language::Rust,
            root: format!("/ws/{path}"),
            has_tests: false,
            package_name: None,
            frameworks: ProjectFrameworks::default(),
            workspace_root: Some("/ws".to_string()),
        },
    }
}

#[test]
fn only_required_tools_can_be_missing() {
    let tools = vec![
        tool(false, true, true),
        tool(true, true, true),
        tool(false, false, true),
        tool(false, false, false),
    ];
    assert_eq!(missing_required(&tools), 1);
}

#[test]
fn every_tool_stands_in_one_section() {
    for (required, applicable) in [(true, true), (false, true), (false, false)] {
        let t = tool(true, required, applicable);
        let sections = [Section::Required, Section::LayerDisabled, Section::NotApplicable];
        let n = sections.iter().filter(|s| in_section(&t, **s)).count();
        assert_eq!(n, 1);
    }
}

#[test]
fn members_are_checked_one_by_one() {
    let workspace = WorkspaceInfo::Multi {
        kind: WorkspaceKind::Cargo,
        members: vec![member("a"), member("b")],
    };
    assert!(validate_workspace_member_configs(&workspace, &vec![None, None]).is_ok());
    let mut bad = BarzelConfig::default();
    bad.layers.enabled = vec![];
    let read = vec![Some(Ok(BarzelConfig::default())), Some(Ok(bad))];
    let err = validate_workspace_member_configs(&workspace, &read).unwrap_err().message();
    assert!(err.contains("b"), "error must name the member: {err}");
    let unread = vec![Some(Err(BarzelError::Config("odd".to_string()))), None];
    assert!(validate_workspace_member_configs(&workspace, &unread).is_err());
}

#[test]
fn headings_name_the_members() {
    let members = vec![member("crates/a"), member("crates/b")];
    assert!(member_list(&members).contains("crates/b"));
    assert!(workspace_heading(WorkspaceKind::Cargo, &members).contains("2"));
}

#[test]
fn payload_of_a_project_names_its_frameworks() {
    let mut info = member("app").info;
    info.frameworks.has_ai_deps = true;
    info.frameworks.ai_frameworks = vec!["openai".to_string()];
    let tools = vec![tool(false, true, true), tool(true, true, true)];
    let doc = build_check_payload(
        &WorkspaceInfo::Single(info),
        &tools,
        Data::List(vec![Data::Text("t".to_string())]),
    );
    assert_eq!(doc.get_str("language"), Some("rust"));
    assert_eq!(doc.get("missing_required_tools").unwrap().as_u64(), Some(1));
    assert_eq!(doc.get_array("tools").unwrap().len(), 1);
    assert!(doc.get("is_workspace").is_none());
    let frameworks = doc.get("frameworks").unwrap();
    assert_eq!(frameworks.get("is_nextjs").unwrap().as_bool(), Some(false));
    assert_eq!(frameworks.get("has_ai_deps").unwrap().as_bool(), Some(true));
    let names = frameworks.get_array("ai_frameworks").unwrap();
    assert_eq!(names[0].as_str(), Some("openai"));
}

#[test]
fn payload_of_a_workspace_lists_its_packages() {
    let mut named = member("crates/a");
    named.info.package_name = Some("a".to_string());
    let workspace = WorkspaceInfo::Multi {
        kind: WorkspaceKind::Cargo,
        members: vec![named, member("crates/b")],
    };
    let doc = build_check_payload(&workspace, &vec![], Data::List(vec![]));
    assert_eq!(doc.get("is_workspace").unwrap().as_bool(), Some(true));
    assert_eq!(doc.get_str("workspace_kind"), Some("cargo"));
    assert_eq!(doc.get("missing_required_tools").unwrap().as_u64(), Some(0));
    let packages = doc.get_array("packages").unwrap();
    assert_eq!(packages.len(), 2);
    assert_eq!(packages[0].get_str("path"), Some("crates/a"));
    assert_eq!(packages[0].get_str("name"), Some("a"));
    assert_eq!(packages[0].get_str("language"), Some("rust"));
    assert!(matches!(packages[1].get("name"), Some(Data::Null)));
}
