use barzel::config::BarzelConfig;
use barzel::detect::{Language, ProjectFrameworks, ProjectInfo};
use barzel::init::{action_word, run_init, InitOutcome};

fn info(language: Language, name: &str) -> ProjectInfo {
    ProjectInfo {
        language,
        root: "/tmp".to_string(),
        has_tests: false,
        package_name: Some(name.to_string()),
        frameworks: ProjectFrameworks::default(),
        workspace_root: None,
    }
}

#[test]
fn init_creates_barzel_toml() {
    assert_eq!(run_init(false, false), InitOutcome::Created);
}

#[test]
fn init_skips_if_toml_already_exists_without_force() {
    assert_eq!(run_init(true, false), InitOutcome::Skipped);
}

#[test]
fn init_force_overwrites_existing_toml() {
    assert_eq!(run_init(true, true), InitOutcome::Overwritten);
}

#[test]
fn init_force_without_a_file_creates_it() {
    assert_eq!(run_init(false, true), InitOutcome::Created);
}

#[test]
fn init_works_for_typescript_project() {
    let cfg = BarzelConfig::from_project_info(&info(Language::TypeScript, "my-app"));
    assert!(cfg.project.language.contains("typescript") || cfg.project.name.contains("my-app"));
}

#[test]
fn init_toml_contains_project_name() {
    let cfg = BarzelConfig::from_project_info(&info(Language::Rust, "my-crate"));
    assert!(cfg.project.name.contains("my-crate"));
}

#[test]
fn outcomes_have_words_of_their_own() {
    assert_ne!(action_word(InitOutcome::Created), action_word(InitOutcome::Overwritten));
}
