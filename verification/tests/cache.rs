use barzel::cache::{
    cache_path, compute_project_hash, hash_sources, is_cached, load_runner_hash, sanitize,
    save_runner_hash, source_files,
};
use barzel::detect::Language;
use barzel::files::{Entry, Files};

/// The files of a project at `root`, with the directories they stand in.
fn files_at(root: &str, texts: &[(&str, &str)]) -> Files {
    let mut entries = vec![Entry {
        path: String::new(),
        dir: true,
        absolute: root.to_string(),
        text: None,
    }];
    for (path, text) in texts {
        let parts: Vec<&str> = path.split('/').collect();
        for n in 1..parts.len() {
            let parent = parts[..n].join("/");
            if !entries.iter().any(|e| e.path == parent) {
                entries.push(Entry {
                    absolute: format!("{root}/{parent}"),
                    path: parent,
                    dir: true,
                    text: None,
                });
            }
        }
        if !path.ends_with('/') {
            entries.push(Entry {
                path: path.to_string(),
                dir: false,
                absolute: format!("{root}/{path}"),
                text: Some(text.to_string()),
            });
        }
    }
    Files { entries }
}

/// What the files of a project hold.
fn contents_of(texts: &[(&str, &str)]) -> Vec<(String, Vec<u8>)> {
    texts.iter().map(|(path, text)| (path.to_string(), text.as_bytes().to_vec())).collect()
}

fn hash_at(texts: &[(&str, &str)], language: Language) -> u64 {
    compute_project_hash(&files_at("/tmp", texts), &contents_of(texts), language)
}

/// The hash files of a project, by path.
struct Store(Vec<(String, String)>);

impl Store {
    fn save(&mut self, language: Language, runner: &str, hash: u64) {
        self.0.push((cache_path(language, runner), save_runner_hash(hash)));
    }

    fn load(&self, language: Language, runner: &str) -> Option<u64> {
        let path = cache_path(language, runner);
        let content = self.0.iter().rev().find(|(p, _)| *p == path).map(|(_, c)| c.as_str());
        load_runner_hash(content)
    }
}

#[test]
fn sanitize_replaces_slash() {
    let result = sanitize("cargo/mutants");
    assert!(!result.contains('/'));
    assert_eq!(result, "cargo_mutants");
}

#[test]
fn sanitize_keeps_hyphens() {
    assert_eq!(sanitize("cargo-mutants"), "cargo-mutants");
}

#[test]
fn sanitize_empty_stays_empty() {
    assert_eq!(sanitize(""), "");
}

#[test]
fn hash_changes_when_file_content_changes() {
    let h1 = hash_at(&[("Cargo.toml", "version = '1'")], Language::Rust);
    let h2 = hash_at(&[("Cargo.toml", "version = '2'")], Language::Rust);
    assert_ne!(h1, h2);
}

#[test]
fn hash_changes_when_src_file_added() {
    let h1 = hash_at(&[("Cargo.toml", "[package]")], Language::Rust);
    let h2 =
        hash_at(&[("Cargo.toml", "[package]"), ("src/main.rs", "fn main() {}")], Language::Rust);
    assert_ne!(h1, h2);
}

#[test]
fn hash_typescript_uses_package_json() {
    let h1 = hash_at(&[("package.json", r#"{"name":"a"}"#)], Language::TypeScript);
    let h2 = hash_at(&[("package.json", r#"{"name":"b"}"#)], Language::TypeScript);
    assert_ne!(h1, h2);
}

#[test]
fn hash_python_uses_pyproject_toml() {
    let h1 = hash_at(&[("pyproject.toml", "[project]\nname = 'x'")], Language::Python);
    let h2 = hash_at(&[("pyproject.toml", "[project]\nname = 'y'")], Language::Python);
    assert_ne!(h1, h2);
}

#[test]
fn hash_go_uses_go_mod() {
    let h1 = hash_at(&[("go.mod", "module example.com/a\n")], Language::Go);
    let h2 = hash_at(&[("go.mod", "module example.com/b\n")], Language::Go);
    assert_ne!(h1, h2);
}

#[test]
fn hash_unknown_fallback_is_deterministic() {
    let h1 = hash_at(&[("README.md", "hello")], Language::Unknown);
    let h2 = hash_at(&[("README.md", "hello")], Language::Unknown);
    assert_eq!(h1, h2);
}

#[test]
fn rust_and_typescript_hashes_differ_for_same_root() {
    let texts = [("Cargo.toml", "[package]"), ("package.json", r#"{"name":"x"}"#)];
    assert_ne!(hash_at(&texts, Language::Rust), hash_at(&texts, Language::TypeScript));
}

#[test]
fn save_and_load_hash_round_trips() {
    let mut store = Store(vec![]);
    store.save(Language::Rust, "test-runner", 0xDEAD_BEEF);
    assert_eq!(store.load(Language::Rust, "test-runner"), Some(0xDEAD_BEEF));
}

#[test]
fn load_returns_none_when_no_cache() {
    assert!(Store(vec![]).load(Language::Rust, "nonexistent").is_none());
}

#[test]
fn different_runner_names_have_isolated_caches() {
    let mut store = Store(vec![]);
    store.save(Language::Rust, "runner-a", 111);
    store.save(Language::Rust, "runner-b", 222);
    assert_eq!(store.load(Language::Rust, "runner-a"), Some(111));
    assert_eq!(store.load(Language::Rust, "runner-b"), Some(222));
}

#[test]
fn different_languages_have_isolated_caches() {
    let mut store = Store(vec![]);
    store.save(Language::Rust, "runner", 111);
    store.save(Language::TypeScript, "runner", 222);
    assert_eq!(store.load(Language::Rust, "runner"), Some(111));
    assert_eq!(store.load(Language::TypeScript, "runner"), Some(222));
}

#[test]
fn is_cached_true_when_hash_matches() {
    let hash = hash_at(&[("Cargo.toml", "[package]")], Language::Rust);
    let mut store = Store(vec![]);
    store.save(Language::Rust, "cargo-mutants", hash);
    assert!(is_cached(store.load(Language::Rust, "cargo-mutants"), hash));
}

#[test]
fn is_cached_false_when_no_stored_hash() {
    let hash = hash_at(&[], Language::Rust);
    assert!(!is_cached(Store(vec![]).load(Language::Rust, "cargo-mutants"), hash));
}

#[test]
fn is_cached_false_after_file_changes() {
    let mut store = Store(vec![]);
    store.save(
        Language::Rust,
        "runner",
        hash_at(&[("Cargo.toml", "version = '1'")], Language::Rust),
    );
    let now = hash_at(&[("Cargo.toml", "version = '2'")], Language::Rust);
    assert!(!is_cached(store.load(Language::Rust, "runner"), now));
}

#[test]
fn save_current_hash_then_is_cached_true() {
    let texts = [("Cargo.toml", "[package]")];
    let mut store = Store(vec![]);
    store.save(Language::Rust, "runner", hash_at(&texts, Language::Rust));
    let now = hash_at(&texts, Language::Rust);
    assert!(is_cached(store.load(Language::Rust, "runner"), now));
}

#[test]
fn sanitize_only_safe_chars() {
    for s in ["", "a/b", "..", "naïve name", "\u{1F600}-\n", "日本 語"] {
        let result = sanitize(s);
        assert!(result.chars().all(|c| c.is_alphanumeric() || c == '-' || c == '_'));
    }
}

#[test]
fn sanitize_preserves_length() {
    for s in ["", "a/b", "..", "naïve name", "\u{1F600}-\n", "日本 語"] {
        assert_eq!(sanitize(s).chars().count(), s.chars().count());
    }
}

#[test]
fn sanitizing_keeps_letters_of_all_scripts() {
    assert_eq!(sanitize("naïve.日本"), "naïve_日本");
    assert_eq!(sanitize(&sanitize("a b/c")), sanitize("a b/c"));
}

#[test]
fn hash_is_deterministic() {
    for seed in [0u8, 7, 64, 127] {
        let text = (seed as char).to_string().repeat(64);
        let h1 = hash_at(&[("Cargo.toml", text.as_str())], Language::Rust);
        let h2 = hash_at(&[("Cargo.toml", text.as_str())], Language::Rust);
        assert_eq!(h1, h2);
    }
}

#[test]
fn different_content_different_hash() {
    for (a, b) in [('a', 'é'), ('0', 'ü'), ('z', 'ÿ')] {
        let first = a.to_string().repeat(32);
        let second = b.to_string().repeat(32);
        let h1 = hash_at(&[("Cargo.toml", first.as_str())], Language::Rust);
        let h2 = hash_at(&[("Cargo.toml", second.as_str())], Language::Rust);
        assert_ne!(h1, h2);
    }
}

#[test]
fn save_load_round_trip() {
    for (hash, name) in [(0u64, "a"), (u64::MAX - 1, "z9-"), (42, "cargo-mutants")] {
        let mut store = Store(vec![]);
        store.save(Language::Rust, name, hash);
        assert_eq!(store.load(Language::Rust, name), Some(hash));
    }
}

#[test]
fn stored_hashes_may_end_in_a_line_feed() {
    assert_eq!(load_runner_hash(Some("17\n")), Some(17));
    assert_eq!(load_runner_hash(Some("-17")), None);
    assert_eq!(load_runner_hash(Some("seventeen")), None);
}

#[test]
fn cache_paths_stand_below_the_language() {
    assert_eq!(cache_path(Language::Go, "go/x y"), ".barzel/cache/go/go_x_y.hash");
}

#[test]
fn sources_are_hashed_with_their_paths_in_order() {
    let file = |path: &str, content: &[u8]| (path.to_string(), content.to_vec());
    let both = hash_sources(&vec![file("a", b"1"), file("b", b"2")]);
    assert_eq!(both, hash_sources(&vec![file("a", b"1"), file("b", b"2")]));
    assert_ne!(both, hash_sources(&vec![file("b", b"2"), file("a", b"1")]));
    assert_ne!(both, hash_sources(&vec![file("a", b"2"), file("b", b"1")]));
    assert_ne!(hash_sources(&vec![file("ab", b"")]), hash_sources(&vec![file("b", b"a")]));
    assert_ne!(hash_sources(&vec![]), hash_sources(&vec![file("", b"")]));
}

#[test]
fn hash_depends_on_the_scope_alone() {
    let base = [("Cargo.toml", "[package]"), ("src/a.rs", "a"), ("src/b.rs", "b")];
    let other = [
        ("README.md", "new"),
        ("src/b.rs", "b"),
        ("package.json", "{}"),
        ("src/a.rs", "a"),
        ("Cargo.toml", "[package]"),
    ];
    assert_eq!(hash_at(&base, Language::Rust), hash_at(&other, Language::Rust));
    let changed = [("Cargo.toml", "[package]"), ("src/a.rs", "a"), ("src/b.rs", "c")];
    assert_ne!(hash_at(&base, Language::Rust), hash_at(&changed, Language::Rust));
}

#[test]
fn saving_a_hash_does_not_change_it() {
    let languages = [
        Language::Rust,
        Language::TypeScript,
        Language::Python,
        Language::Go,
        Language::Unknown,
    ];
    for language in languages {
        let before = [("README.md", "x"), ("src/a.go", "a")];
        let hash = hash_at(&before, language);
        let saved = save_runner_hash(hash);
        let path = cache_path(language, "runner");
        let after = [("README.md", "x"), ("src/a.go", "a"), (path.as_str(), saved.as_str())];
        assert!(is_cached(load_runner_hash(Some(&saved)), hash_at(&after, language)));
        assert!(!is_cached(load_runner_hash(None), hash_at(&after, language)));
    }
}

#[test]
fn files_that_cannot_be_read_are_left_out() {
    let files = files_at("/tmp", &[("Cargo.toml", ""), ("src/a.rs", "")]);
    assert_eq!(source_files(&files, Language::Rust), ["Cargo.toml", "src/a.rs"]);
    let read = contents_of(&[("Cargo.toml", "x")]);
    let only = files_at("/tmp", &[("Cargo.toml", "")]);
    assert_eq!(
        compute_project_hash(&files, &read, Language::Rust),
        compute_project_hash(&only, &read, Language::Rust)
    );
}

#[test]
fn cache_paths_of_languages_and_runners_differ() {
    let path = cache_path(Language::Go, "go-mutesting");
    assert_eq!(path, ".barzel/cache/go/go-mutesting.hash");
    assert_ne!(path, cache_path(Language::Rust, "go-mutesting"));
    assert_ne!(path, cache_path(Language::Go, "gotest"));
    assert_eq!(cache_path(Language::Go, "a.b"), cache_path(Language::Go, "a/b"));
}
