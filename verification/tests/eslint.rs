use barzel::data::parse_json;
use barzel::detect::{Language, ProjectFrameworks, ProjectInfo};
use barzel::files::{Entry, Files};
use barzel::plugin::{Layer, TestRunner};
use barzel::process::MockProcessRunner;
use barzel::report::LayerStatus;
use barzel::runners::eslint::{eslint_file_to_findings, parse_eslint_json, EslintRunner};

fn info(language: Language, root: &str) -> ProjectInfo {
    ProjectInfo {
        language,
        root: root.to_string(),
        has_tests: true,
        package_name: None,
        frameworks: ProjectFrameworks::default(),
        workspace_root: None,
    }
}

/// The files of a project at `root`, with the directories they stand in.
fn files_at(root: &str, texts: &[(&str, &str)]) -> Files {
    let mut entries = vec![Entry {
        path: String::new(),
        dir: true,
        absolute: root.to_string(),
        text: None,
    }];
    for (path, text) in texts {
        let parts: Vec<&str> = path.split('/').collect();
        for n in 1..parts.len() {
            let parent = parts[..n].join("/");
            if !entries.iter().any(|e| e.path == parent) {
                entries.push(Entry {
                    absolute: format!("{root}/{parent}"),
                    path: parent,
                    dir: true,
                    text: None,
                });
            }
        }
        if !path.ends_with('/') {
            entries.push(Entry {
                path: path.to_string(),
                dir: false,
                absolute: format!("{root}/{path}"),
                text: Some(text.to_string()),
            });
        }
    }
    Files { entries }
}

fn ts_info(root: &str) -> ProjectInfo {
    ProjectInfo {
        language: Language::TypeScript,
        root: root.to_string(),
        has_tests: true,
        package_name: Some("my-app".to_string()),
        frameworks: ProjectFrameworks { is_nextjs: true, ..Default::default() },
        workspace_root: None,
    }
}

fn eslint_dir() -> Files {
    files_at(
        "/tmp",
        &[("node_modules/.bin/eslint", "#!/bin/sh\necho hi"), (".eslintrc.json", "{}")],
    )
}

#[test]
fn name_is_eslint() {
    assert_eq!(EslintRunner::default().name(), "eslint");
}

#[test]
fn eslint_layer_is_hostile() {
    assert!(matches!(EslintRunner::default().layer(), Layer::Hostile));
}

#[test]
fn eslint_not_available_for_rust() {
    assert!(!EslintRunner.is_available(&info(Language::Rust, "/tmp"), &files_at("/tmp", &[])));
}

#[test]
fn not_available_without_config() {
    let files = files_at("/tmp", &[("node_modules/.bin/eslint", "")]);
    assert!(!EslintRunner.is_available(&ts_info("/tmp"), &files));
}

#[test]
fn available_with_config_and_binary() {
    assert!(EslintRunner.is_available(&ts_info("/tmp"), &eslint_dir()));
}

#[test]
fn available_with_eslint_config_js() {
    let files = files_at("/tmp", &[("node_modules/.bin/eslint", ""), ("eslint.config.js", "")]);
    assert!(EslintRunner.is_available(&ts_info("/tmp"), &files));
}

#[test]
fn clean_run_returns_pass_with_info_finding() {
    let json =
        r#"[{"filePath":"/app/src/index.ts","messages":[],"errorCount":0,"warningCount":0}]"#;
    let result = EslintRunner.run(&mut MockProcessRunner::passing(json), &ts_info("/tmp"));
    assert!(matches!(result.status, LayerStatus::Pass));
    assert!(result.findings.iter().any(|f| f.code == "ESLINT_PASSED"));
}

#[test]
fn run_with_errors_returns_partial() {
    let json = r#"[{"filePath":"/app/src/index.ts","messages":[{"ruleId":"no-console","severity":2,"message":"Unexpected console statement.","line":5}],"errorCount":1,"warningCount":0}]"#;
    let result = EslintRunner.run(&mut MockProcessRunner::failing(json), &ts_info("/tmp"));
    assert!(matches!(result.status, LayerStatus::Partial));
    assert!(!result.findings.is_empty());
    assert!(result.findings[0].message.contains("no-console"));
}

#[test]
fn parse_extracts_rule_and_location() {
    let json = r#"[{"filePath":"/src/app.ts","messages":[{"ruleId":"@typescript-eslint/no-explicit-any","severity":2,"message":"Unexpected any.","line":10}]}]"#;
    let findings = parse_eslint_json(json);
    assert_eq!(findings.len(), 1);
    assert!(findings[0].location.as_ref().unwrap().contains("/src/app.ts:10"));
    assert!(findings[0].code.contains("NO_EXPLICIT_ANY"));
}

#[test]
fn parse_empty_array_returns_no_findings() {
    assert!(parse_eslint_json(r#"[]"#).is_empty());
}

#[test]
fn eslint_codes_are_upper_case_beyond_ascii() {
    let doc = parse_json(r#"{"filePath":"a.ts","messages":[{"ruleId":"straße","severity":2,"message":"m","line":1}]}"#);
    let findings = eslint_file_to_findings(&doc.unwrap());
    assert!(findings[0].code.contains("STRASSE"));
}
