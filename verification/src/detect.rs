//! Project and workspace detection.
//!
//! Detection reads a `Files`: which paths exist and what stands in them.
use vstd::prelude::*;

use crate::data;
use crate::data::Data;
use crate::files;
use crate::files::Files;
use crate::text;

verus! {

#[derive(Debug, Clone, Copy, PartialEq, Eq, Structural)]
pub enum Language {
    Rust,
    TypeScript,
    Python,
    Go,
    Unknown,
}

impl Language {
    pub open spec fn text(self) -> Seq<char> {
        match self {
            Language::Rust => "rust"@,
            Language::TypeScript => "typescript"@,
            Language::Python => "python"@,
            Language::Go => "go"@,
            Language::Unknown => "unknown"@,
        }
    }

    pub fn as_str(self) -> (r: &'static str)
        ensures
            r@ == self.text(),
    {
        match self {
            Language::Rust => "rust",
            Language::TypeScript => "typescript",
            Language::Python => "python",
            Language::Go => "go",
            Language::Unknown => "unknown",
        }
    }
}

/// Extended project metadata used by framework-specific runners.
#[derive(Debug)]
pub struct ProjectFrameworks {
    /// Next.js / React project detected
    pub is_nextjs: bool,
    /// AI framework detected
    pub has_ai_deps: bool,
    /// Detected AI framework names
    pub ai_frameworks: Vec<String>,
}

impl Default for ProjectFrameworks {
    fn default() -> (r: Self)
        ensures
            !r.is_nextjs,
            !r.has_ai_deps,
            r.ai_frameworks@.len() == 0,
    {
        ProjectFrameworks { is_nextjs: false, has_ai_deps: false, ai_frameworks: Vec::new() }
    }
}

#[derive(Debug)]
pub struct ProjectInfo {
    pub language: Language,
    pub root: String,
    pub has_tests: bool,
    pub package_name: Option<String>,
    pub frameworks: ProjectFrameworks,
    /// Absolute path to the workspace root, when this project is a workspace member.
    pub workspace_root: Option<String>,
}

/// The model of a `ProjectInfo`.
pub struct ProjectInfoV {
    pub language: Language,
    pub root: Seq<char>,
    pub has_tests: bool,
    pub package_name: Option<Seq<char>>,
    pub is_nextjs: bool,
    pub has_ai_deps: bool,
    pub ai_frameworks: Seq<Seq<char>>,
    pub workspace_root: Option<Seq<char>>,
}

impl View for ProjectInfo {
    type V = ProjectInfoV;

    open spec fn view(&self) -> ProjectInfoV {
        ProjectInfoV {
            language: self.language,
            root: self.root@,
            has_tests: self.has_tests,
            package_name: text::opt_view(self.package_name),
            is_nextjs: self.frameworks.is_nextjs,
            has_ai_deps: self.frameworks.has_ai_deps,
            ai_frameworks: text::views(self.frameworks.ai_frameworks@),
            workspace_root: text::opt_view(self.workspace_root),
        }
    }
}

impl Clone for ProjectInfo {
    fn clone(&self) -> (r: Self)
        ensures
            r@ == self@,
    {
        ProjectInfo {
            language: self.language,
            root: self.root.clone(),
            has_tests: self.has_tests,
            package_name: text::copy_opt(&self.package_name),
            frameworks: ProjectFrameworks {
                is_nextjs: self.frameworks.is_nextjs,
                has_ai_deps: self.frameworks.has_ai_deps,
                ai_frameworks: text::copy_all(&self.frameworks.ai_frameworks),
            },
            workspace_root: text::copy_opt(&self.workspace_root),
        }
    }
}

#[derive(Debug, Clone, Copy, PartialEq, Eq, Structural)]
pub enum WorkspaceKind {
    Cargo,
    Pnpm,
    Npm,
    Lerna,
    Turbo,
}

impl WorkspaceKind {
    pub open spec fn text(self) -> Seq<char> {
        match self {
            WorkspaceKind::Cargo => "cargo"@,
            WorkspaceKind::Pnpm => "pnpm"@,
            WorkspaceKind::Npm => "npm"@,
            WorkspaceKind::Lerna => "lerna"@,
            WorkspaceKind::Turbo => "turbo"@,
        }
    }

    pub fn as_str(self) -> (r: &'static str)
        ensures
            r@ == self.text(),
    {
        match self {
            WorkspaceKind::Cargo => "cargo",
            WorkspaceKind::Pnpm => "pnpm",
            WorkspaceKind::Npm => "npm",
            WorkspaceKind::Lerna => "lerna",
            WorkspaceKind::Turbo => "turbo",
        }
    }
}

/// A package of a workspace: its path from the root, and what it is.
#[derive(Debug)]
pub struct Member {
    pub path: String,
    pub info: ProjectInfo,
}

/// Result of workspace detection.
#[derive(Debug)]
pub enum WorkspaceInfo {
    /// Ordinary single-project repository
    Single(ProjectInfo),
    /// Monorepo with multiple independently runnable packages.
    Multi { kind: WorkspaceKind, members: Vec<Member> },
}

// ── AI frameworks ───────────────────────────────────────────────────────────

pub open spec fn js_ai_deps() -> Seq<(Seq<char>, Seq<char>)> {
    seq![
        ("openai"@, "OpenAI SDK"@),
        ("@anthropic-ai"@, "Anthropic SDK"@),
        ("langchain"@, "LangChain"@),
        ("@langchain"@, "LangChain"@),
        ("llamaindex"@, "LlamaIndex"@),
        ("@google/generative-ai"@, "Google Generative AI"@),
        ("cohere-ai"@, "Cohere"@),
        ("@mistralai"@, "Mistral AI"@),
        ("ai"@, "Vercel AI SDK"@),
        ("@vercel/ai"@, "Vercel AI SDK"@),
        ("groq-sdk"@, "Groq"@),
        ("together-ai"@, "Together AI"@),
    ]
}

pub open spec fn python_ai_deps() -> Seq<(Seq<char>, Seq<char>)> {
    seq![
        ("openai"@, "OpenAI SDK"@),
        ("anthropic"@, "Anthropic SDK"@),
        ("langchain"@, "LangChain"@),
        ("langchain-openai"@, "LangChain OpenAI"@),
        ("llama-index"@, "LlamaIndex"@),
        ("llama_index"@, "LlamaIndex"@),
        ("google-generativeai"@, "Google Generative AI"@),
        ("cohere"@, "Cohere"@),
        ("mistralai"@, "Mistral AI"@),
        ("groq"@, "Groq"@),
        ("together"@, "Together AI"@),
        ("transformers"@, "HuggingFace Transformers"@),
        ("sentence-transformers"@, "Sentence Transformers"@),
        ("tiktoken"@, "tiktoken (OpenAI tokenizer)"@),
        ("litellm"@, "LiteLLM"@),
        ("instructor"@, "Instructor"@),
        ("dspy"@, "DSPy"@),
        ("crewai"@, "CrewAI"@),
        ("autogen"@, "AutoGen"@),
    ]
}

pub open spec fn rust_ai_deps() -> Seq<(Seq<char>, Seq<char>)> {
    seq![
        ("async-openai"@, "async-openai"@),
        ("anthropic"@, "Anthropic SDK"@),
        ("langchain-rust"@, "LangChain Rust"@),
        ("rig-core"@, "Rig"@),
        ("llm"@, "LLM crate"@),
    ]
}

pub open spec fn go_ai_deps() -> Seq<(Seq<char>, Seq<char>)> {
    seq![
        ("github.com/sashabaranov/go-openai"@, "go-openai"@),
        ("github.com/tmc/langchaingo"@, "LangChain Go"@),
        ("github.com/anthropics/anthropic-sdk-go"@, "Anthropic SDK Go"@),
    ]
}

/// The names of the registered dependencies that stand in `content`.
pub open spec fn frameworks_in(
    content: Seq<char>,
    registry: Seq<(Seq<char>, Seq<char>)>,
) -> Seq<Seq<char>>
    decreases registry.len(),
{
    if registry.len() == 0 {
        Seq::empty()
    } else {
        let before = frameworks_in(content, registry.drop_last());
        if text::has(content, registry.last().0) {
            before.push(registry.last().1)
        } else {
            before
        }
    }
}

pub open spec fn registry_view(v: Seq<(&'static str, &'static str)>) -> Seq<(Seq<char>, Seq<char>)> {
    v.map_values(|p: (&'static str, &'static str)| (p.0@, p.1@))
}

/// The names of the registered dependencies that stand in `content`.
pub fn detect_in_content(content: &str, registry: &Vec<(&'static str, &'static str)>) -> (r: Vec<
    String,
>)
    ensures
        text::views(r@) == frameworks_in(content@, registry_view(registry@)),
{
    let ghost all = registry_view(registry@);
    let mut r: Vec<String> = Vec::new();
    let mut i: usize = 0;
    assert(all.subrange(0, 0) =~= Seq::<(Seq<char>, Seq<char>)>::empty());
    assert(text::views(r@) =~= Seq::<Seq<char>>::empty());
    while i < registry.len()
        invariant
            i <= registry@.len(),
            all == registry_view(registry@),
            text::views(r@) == frameworks_in(content@, all.subrange(0, i as int)),
        decreases registry@.len() - i,
    {
        let ghost before = text::views(r@);
        proof {
            let next = all.subrange(0, i + 1);
            assert(next.drop_last() =~= all.subrange(0, i as int));
        }
        if text::contains(content, registry[i].0) {
            r.push(registry[i].1.to_string());
            assert(text::views(r@) =~= before.push(registry@[i as int].1@));
        }
        i += 1;
    }
    assert(all.subrange(0, i as int) =~= all);
    r
}

pub fn detect_js_ai_frameworks(pkg_json: &str) -> (r: Vec<String>)
    ensures
        text::views(r@) == frameworks_in(pkg_json@, js_ai_deps()),
{
    let registry: Vec<(&'static str, &'static str)> = vec![
        ("openai", "OpenAI SDK"),
        ("@anthropic-ai", "Anthropic SDK"),
        ("langchain", "LangChain"),
        ("@langchain", "LangChain"),
        ("llamaindex", "LlamaIndex"),
        ("@google/generative-ai", "Google Generative AI"),
        ("cohere-ai", "Cohere"),
        ("@mistralai", "Mistral AI"),
        ("ai", "Vercel AI SDK"),
        ("@vercel/ai", "Vercel AI SDK"),
        ("groq-sdk", "Groq"),
        ("together-ai", "Together AI"),
    ];
    assert(registry_view(registry@) =~= js_ai_deps());
    detect_in_content(pkg_json, &registry)
}

pub fn detect_python_ai_frameworks(deps: &str) -> (r: Vec<String>)
    ensures
        text::views(r@) == frameworks_in(deps@, python_ai_deps()),
{
    let registry: Vec<(&'static str, &'static str)> = vec![
        ("openai", "OpenAI SDK"),
        ("anthropic", "Anthropic SDK"),
        ("langchain", "LangChain"),
        ("langchain-openai", "LangChain OpenAI"),
        ("llama-index", "LlamaIndex"),
        ("llama_index", "LlamaIndex"),
        ("google-generativeai", "Google Generative AI"),
        ("cohere", "Cohere"),
        ("mistralai", "Mistral AI"),
        ("groq", "Groq"),
        ("together", "Together AI"),
        ("transformers", "HuggingFace Transformers"),
        ("sentence-transformers", "Sentence Transformers"),
        ("tiktoken", "tiktoken (OpenAI tokenizer)"),
        ("litellm", "LiteLLM"),
        ("instructor", "Instructor"),
        ("dspy", "DSPy"),
        ("crewai", "CrewAI"),
        ("autogen", "AutoGen"),
    ];
    assert(registry_view(registry@) =~= python_ai_deps());
    detect_in_content(deps, &registry)
}

pub fn detect_rust_ai_frameworks(cargo_toml: &str) -> (r: Vec<String>)
    ensures
        text::views(r@) == frameworks_in(cargo_toml@, rust_ai_deps()),
{
    let registry: Vec<(&'static str, &'static str)> = vec![
        ("async-openai", "async-openai"),
        ("anthropic", "Anthropic SDK"),
        ("langchain-rust", "LangChain Rust"),
        ("rig-core", "Rig"),
        ("llm", "LLM crate"),
    ];
    assert(registry_view(registry@) =~= rust_ai_deps());
    detect_in_content(cargo_toml, &registry)
}

pub fn detect_go_ai_frameworks(go_mod: &str) -> (r: Vec<String>)
    ensures
        text::views(r@) == frameworks_in(go_mod@, go_ai_deps()),
{
    let registry: Vec<(&'static str, &'static str)> = vec![
        ("github.com/sashabaranov/go-openai", "go-openai"),
        ("github.com/tmc/langchaingo", "LangChain Go"),
        ("github.com/anthropics/anthropic-sdk-go", "Anthropic SDK Go"),
    ];
    assert(registry_view(registry@) =~= go_ai_deps());
    detect_in_content(go_mod, &registry)
}

// ── package names ───────────────────────────────────────────────────────────

pub open spec fn non_empty(s: Seq<char>) -> Option<Seq<char>> {
    if s.len() > 0 {
        Some(s)
    } else {
        None
    }
}

/// A value without the whitespace, double and single quotes around it.
pub open spec fn unquoted(s: Seq<char>) -> Seq<char> {
    text::strip_both(text::strip_both(text::trimmed(s), '"'), '\'')
}

/// The name that a line `name = "..."` gives.
pub open spec fn cargo_name_line(line: Seq<char>) -> Option<Seq<char>> {
    let t = text::trimmed(line);
    if text::begins(t, "name"@) {
        match text::second_piece(t, '=') {
            Some(v) => non_empty(unquoted(v)),
            None => None,
        }
    } else {
        None
    }
}

/// The name that a line of `pyproject.toml` gives.
pub open spec fn python_name_line(line: Seq<char>) -> Option<Seq<char>> {
    let t = text::trimmed(line);
    if text::begins(t, "name"@) {
        match text::second_piece(t, '=') {
            Some(v) => non_empty(text::strip_both(unquoted(v), '"')),
            None => None,
        }
    } else {
        None
    }
}

/// The last part of the module path that a line of `go.mod` gives.
pub open spec fn go_name_line(line: Seq<char>) -> Option<Seq<char>> {
    match text::without_front(text::trimmed(line), "module "@) {
        Some(rest) => if text::trimmed(rest).len() > 0 {
            Some(text::pieces(text::trimmed(rest), '/').last())
        } else {
            None
        },
        None => None,
    }
}

pub open spec fn package_name_in(content: Seq<char>) -> Option<Seq<char>> {
    text::first_in(text::lines_of(content), |l: Seq<char>| cargo_name_line(l))
}

pub open spec fn python_name_in(content: Seq<char>) -> Option<Seq<char>> {
    text::first_in(text::lines_of(content), |l: Seq<char>| python_name_line(l))
}

pub open spec fn go_name_in(content: Seq<char>) -> Option<Seq<char>> {
    text::first_in(text::lines_of(content), |l: Seq<char>| go_name_line(l))
}

/// A name that stands in a manifest is read back from it: one that holds no line feed and
/// no `=`, and has no quotes at its ends.
pub proof fn law_explicit_name_reads_back(name: Seq<char>)
    requires
        name.len() > 0,
        forall|i: int| 0 <= i < name.len() ==> name[i] != '\n' && name[i] != '=',
        name[0] != '"' && name[0] != '\'',
        name.last() != '"' && name.last() != '\'',
    ensures
        package_name_in("[package]\nname = \""@ + name + "\""@) == Some(name),
{
    reveal_strlit("[package]\nname = \"");
    reveal_strlit("\"");
    reveal_strlit("name");
    let content = "[package]\nname = \""@ + name + "\""@;
    text::lemma_before_len_is(content, '\n', 9);
    let first = text::without_cr(text::before(content, '\n'));
    let line = text::after(content, '\n');
    let n = line.len() as int;
    assert(line[0] == 'n' && line[1] == 'a' && line[2] == 'm' && line[3] == 'e');
    assert(line[4] == ' ' && line[5] == '=' && line[6] == ' ' && line[7] == '"');
    assert(n == name.len() + 9 && line[n - 1] == '"');
    assert forall|i: int| 8 <= i < n - 1 implies line[i] == name[i - 8] by {}
    text::lemma_before_len_is(line, '\n', n);
    assert(text::lines_of(line) =~= seq![line]);
    assert(text::lines_of(content) =~= seq![first, line]);
    // the heading gives no name
    assert(first[0] == '[' && first.last() == ']');
    text::lemma_trim_front_is(first, 0);
    assert(first.subrange(0, first.len() as int) =~= first);
    text::lemma_trim_back_is(first, first.len() as int);
    assert(!text::begins(text::trimmed(first), "name"@)) by {
        assert(text::trimmed(first) =~= first);
        assert(first.subrange(0, 4)[0] == '[');
    }
    // the next line does
    text::lemma_trim_front_is(line, 0);
    assert(line.subrange(0, n) =~= line);
    text::lemma_trim_back_is(line, n);
    assert(text::trimmed(line) =~= line);
    assert(text::begins(line, "name"@)) by {
        assert(line.subrange(0, 4) =~= "name"@);
    }
    text::lemma_before_len_is(line, '=', 5);
    let value = text::after(line, '=');
    assert(value =~= line.subrange(6, n));
    text::lemma_before_len_is(value, '=', value.len() as int);
    assert(text::before(value, '=') =~= value);
    text::lemma_trim_front_is(value, 1);
    let quoted = line.subrange(7, n);
    assert(value.subrange(1, value.len() as int) =~= quoted);
    text::lemma_trim_back_is(quoted, quoted.len() as int);
    assert(quoted.subrange(0, quoted.len() as int) =~= quoted);
    text::lemma_strip_front_is(quoted, '"', 1);
    let opened = quoted.subrange(1, quoted.len() as int);
    assert(opened =~= name.push('"'));
    text::lemma_strip_back_is(opened, '"', name.len() as int);
    assert(opened.subrange(0, name.len() as int) =~= name);
    text::lemma_strip_front_is(name, '\'', 0);
    assert(name.subrange(0, name.len() as int) =~= name);
    text::lemma_strip_back_is(name, '\'', name.len() as int);
    assert(cargo_name_line(line) == Some(name));
    let f = |l: Seq<char>| cargo_name_line(l);
    let lines = seq![first, line];
    assert(lines.subrange(1, 2) =~= seq![line]);
    assert(f(first) is None && f(line) == Some(name));
    assert(text::first_in(seq![line], f) == Some(name));
    assert(text::first_in(lines, f) == Some(name));
}

fn some_non_empty(s: String) -> (r: Option<String>)
    ensures
        text::opt_view(r) == non_empty(s@),
{
    if s.as_str().is_empty() {
        None
    } else {
        Some(s)
    }
}

fn unquote(s: &str) -> (r: String)
    ensures
        r@ == unquoted(s@),
{
    let t = text::trim(s);
    let u = text::trim_char(t.as_str(), '"');
    text::trim_char(u.as_str(), '\'')
}

fn cargo_name_of(line: &str) -> (r: Option<String>)
    ensures
        text::opt_view(r) == cargo_name_line(line@),
{
    let t = text::trim(line);
    if text::starts_with(t.as_str(), "name") {
        match text::second(t.as_str(), '=') {
            Some(v) => some_non_empty(unquote(v.as_str())),
            None => None,
        }
    } else {
        None
    }
}

fn python_name_of(line: &str) -> (r: Option<String>)
    ensures
        text::opt_view(r) == python_name_line(line@),
{
    let t = text::trim(line);
    if text::starts_with(t.as_str(), "name") {
        match text::second(t.as_str(), '=') {
            Some(v) => {
                let u = unquote(v.as_str());
                some_non_empty(text::trim_char(u.as_str(), '"'))
            },
            None => None,
        }
    } else {
        None
    }
}

fn go_name_of(line: &str) -> (r: Option<String>)
    ensures
        text::opt_view(r) == go_name_line(line@),
{
    let t = text::trim(line);
    match text::strip_prefix(t.as_str(), "module ") {
        Some(rest) => {
            let name = text::trim(rest.as_str());
            if name.as_str().is_empty() {
                None
            } else {
                let parts = text::split(name.as_str(), '/');
                let last = &parts[parts.len() - 1];
                assert(text::views(parts@).last() == last@);
                Some(last.clone())
            }
        },
        None => None,
    }
}

/// The package name that `Cargo.toml` gives.
pub fn extract_package_name_from_content(content: &str) -> (r: Option<String>)
    ensures
        text::opt_view(r) == package_name_in(content@),
{
    let lines = text::lines(content);
    let ghost all = text::lines_of(content@);
    let ghost f = |l: Seq<char>| cargo_name_line(l);
    let mut i: usize = 0;
    assert(all.subrange(0, all.len() as int) =~= all);
    while i < lines.len()
        invariant
            i <= lines@.len(),
            all == text::views(lines@),
            all == text::lines_of(content@),
            f == (|l: Seq<char>| cargo_name_line(l)),
            text::first_in(all.subrange(i as int, all.len() as int), f) == text::first_in(all, f),
        decreases lines@.len() - i,
    {
        let ghost rest = all.subrange(i as int, all.len() as int);
        assert(rest[0] == lines@[i as int]@);
        assert(rest.subrange(1, rest.len() as int) =~= all.subrange(i + 1, all.len() as int));
        let name = cargo_name_of(lines[i].as_str());
        if name.is_some() {
            assert(f(rest[0]) == text::opt_view(name));
            return name;
        }
        assert(f(rest[0]) is None);
        i += 1;
    }
    None
}

/// The package name that `pyproject.toml` gives.
pub fn extract_python_package_name(pyproject: &str) -> (r: Option<String>)
    ensures
        text::opt_view(r) == python_name_in(pyproject@),
{
    let lines = text::lines(pyproject);
    let ghost all = text::lines_of(pyproject@);
    let ghost f = |l: Seq<char>| python_name_line(l);
    let mut i: usize = 0;
    assert(all.subrange(0, all.len() as int) =~= all);
    while i < lines.len()
        invariant
            i <= lines@.len(),
            all == text::views(lines@),
            all == text::lines_of(pyproject@),
            f == (|l: Seq<char>| python_name_line(l)),
            text::first_in(all.subrange(i as int, all.len() as int), f) == text::first_in(all, f),
        decreases lines@.len() - i,
    {
        let ghost rest = all.subrange(i as int, all.len() as int);
        assert(rest[0] == lines@[i as int]@);
        assert(rest.subrange(1, rest.len() as int) =~= all.subrange(i + 1, all.len() as int));
        let name = python_name_of(lines[i].as_str());
        if name.is_some() {
            assert(f(rest[0]) == text::opt_view(name));
            return name;
        }
        assert(f(rest[0]) is None);
        i += 1;
    }
    None
}

/// The last part of the module path that `go.mod` gives.
pub fn extract_go_module_name(content: &str) -> (r: Option<String>)
    ensures
        text::opt_view(r) == go_name_in(content@),
{
    let lines = text::lines(content);
    let ghost all = text::lines_of(content@);
    let ghost f = |l: Seq<char>| go_name_line(l);
    let mut i: usize = 0;
    assert(all.subrange(0, all.len() as int) =~= all);
    while i < lines.len()
        invariant
            i <= lines@.len(),
            all == text::views(lines@),
            all == text::lines_of(content@),
            f == (|l: Seq<char>| go_name_line(l)),
            text::first_in(all.subrange(i as int, all.len() as int), f) == text::first_in(all, f),
        decreases lines@.len() - i,
    {
        let ghost rest = all.subrange(i as int, all.len() as int);
        assert(rest[0] == lines@[i as int]@);
        assert(rest.subrange(1, rest.len() as int) =~= all.subrange(i + 1, all.len() as int));
        let name = go_name_of(lines[i].as_str());
        if name.is_some() {
            assert(f(rest[0]) == text::opt_view(name));
            return name;
        }
        assert(f(rest[0]) is None);
        i += 1;
    }
    None
}

/// The text between the quotes that follow the first `"field"` and the first colon
/// behind it, where such a text is there and is not empty.
pub open spec fn json_field_in(json: Seq<char>, field: Seq<char>) -> Option<Seq<char>> {
    let search = "\""@ + field + "\""@;
    match text::behind_of(json, search) {
        Some(after_key) => {
            if text::before_len(after_key, ':') < after_key.len() {
                let value = text::trim_front(text::after(after_key, ':'));
                if value.len() > 0 && value[0] == '"' {
                    let inner = value.subrange(1, value.len() as int);
                    if text::before_len(inner, '"') < inner.len() {
                        non_empty(text::before(inner, '"'))
                    } else {
                        None
                    }
                } else {
                    None
                }
            } else {
                None
            }
        },
        None => None,
    }
}

/// The text that a JSON field holds, without parsing the document.
pub fn extract_json_string_field(json: &str, field: &str) -> (r: Option<String>)
    ensures
        text::opt_view(r) == json_field_in(json@, field@),
{
    let search = text::cat3("\"", field, "\"");
    match text::behind(json, search.as_str()) {
        Some(after_key) => {
            match text::after_char(after_key.as_str(), ':') {
                Some(after_colon) => {
                    let value = text::trim_start(after_colon.as_str());
                    proof {
                        reveal_strlit("\"");
                        assert(text::begins(value@, "\""@) <==> value@.len() > 0 && value@[0] == '"') by {
                            if value@.len() > 0 {
                                assert(value@.subrange(0, 1) =~= seq![value@[0]]);
                                assert("\""@ =~= seq!['"']);
                                if value@.subrange(0, 1) == "\""@ {
                                    assert(value@.subrange(0, 1)[0] == '"');
                                }
                            }
                        }
                    }
                    match text::strip_prefix(value.as_str(), "\"") {
                        Some(inner) => match text::after_char(inner.as_str(), '"') {
                            Some(_) => some_non_empty(text::before_char(inner.as_str(), '"')),
                            None => None,
                        },
                        None => None,
                    }
                },
                None => None,
            }
        },
        None => None,
    }
}

// ── projects ────────────────────────────────────────────────────────────────

/// A file directly in the directory `at` whose name ends in `suffix`.
pub open spec fn is_file_with_suffix(e: files::Entry, at: Seq<char>, suffix: Seq<char>) -> bool {
    let front = if at.len() == 0 {
        at
    } else {
        at + "/"@
    };
    &&& !e.dir
    &&& match text::without_front(e.path@, front) {
        Some(name) => name.len() > 0 && !name.contains('/') && text::ends(name, suffix),
        None => false,
    }
}

/// One of the files directly in the directory `at` has a name that ends in `suffix`.
pub open spec fn some_ends(entries: Seq<files::Entry>, at: Seq<char>, suffix: Seq<char>) -> bool {
    exists|i: int|
        0 <= i < entries.len() && is_file_with_suffix(#[trigger] entries[i], at, suffix)
}

/// Walks one level of a directory and tells whether a file ends in `suffix`.
fn walk_dir_has_suffix(files: &Files, at: &str, suffix: &str) -> (r: bool)
    ensures
        r == some_ends(files.entries@, at@, suffix@),
{
    let front = if at.is_empty() {
        String::new()
    } else {
        text::cat(at, "/")
    };
    assert(at@.len() == 0 ==> front@ =~= at@);
    let mut i: usize = 0;
    while i < files.entries.len()
        invariant
            i <= files.entries@.len(),
            front@ == (if at@.len() == 0 {
                at@
            } else {
                at@ + "/"@
            }),
            forall|k: int|
                0 <= k < i ==> !is_file_with_suffix(#[trigger] files.entries@[k], at@, suffix@),
        decreases files.entries@.len() - i,
    {
        let e = &files.entries[i];
        let found = match text::strip_prefix(e.path.as_str(), front.as_str()) {
            Some(name) => !e.dir && !name.as_str().is_empty() && !text::contains_char(
                name.as_str(),
                '/',
            ) && text::ends_with(name.as_str(), suffix),
            None => false,
        };
        assert(found == is_file_with_suffix(files.entries@[i as int], at@, suffix@));
        if found {
            return true;
        }
        i += 1;
    }
    false
}

/// `name` stands in the directory `at`.
pub open spec fn has_in(files: Files, at: Seq<char>, name: Seq<char>) -> bool {
    files.has(files::path_in(at, name))
}

pub open spec fn content_in(files: Files, at: Seq<char>, name: Seq<char>) -> Seq<char> {
    files.content(files::path_in(at, name))
}

fn there(files: &Files, at: &str, name: &str) -> (r: bool)
    ensures
        r == has_in(*files, at@, name@),
{
    let path = files::join(at, name);
    files.is_there(path.as_str())
}

fn read_in(files: &Files, at: &str, name: &str) -> (r: String)
    ensures
        r@ == content_in(*files, at@, name@),
{
    let path = files::join(at, name);
    files.read(path.as_str())
}

pub open spec fn project(
    language: Language,
    root: Seq<char>,
    has_tests: bool,
    package_name: Option<Seq<char>>,
    is_nextjs: bool,
    ai_frameworks: Seq<Seq<char>>,
) -> ProjectInfoV {
    ProjectInfoV {
        language,
        root,
        has_tests,
        package_name,
        is_nextjs,
        has_ai_deps: ai_frameworks.len() > 0,
        ai_frameworks,
        workspace_root: None,
    }
}

pub open spec fn rust_project(files: Files, at: Seq<char>) -> ProjectInfoV {
    let content = content_in(files, at, "Cargo.toml"@);
    project(
        Language::Rust,
        files.real_path(at),
        has_in(files, at, "tests"@) || has_in(files, at, "src/lib.rs"@),
        package_name_in(content),
        false,
        frameworks_in(content, rust_ai_deps()),
    )
}

pub open spec fn typescript_project(files: Files, at: Seq<char>) -> ProjectInfoV {
    let content = content_in(files, at, "package.json"@);
    project(
        Language::TypeScript,
        files.real_path(at),
        has_in(files, at, "tests"@) || has_in(files, at, "__tests__"@) || has_in(
            files,
            at,
            "src/__tests__"@,
        ) || has_in(files, at, "e2e"@) || has_in(files, at, "playwright.config.ts"@) || has_in(
            files,
            at,
            "playwright.config.js"@,
        ),
        json_field_in(content, "name"@),
        has_in(files, at, "next.config.js"@) || has_in(files, at, "next.config.ts"@) || has_in(
            files,
            at,
            "next.config.mjs"@,
        ) || text::has(content, "\"next\""@),
        frameworks_in(content, js_ai_deps()),
    )
}

pub open spec fn python_project(files: Files, at: Seq<char>) -> ProjectInfoV {
    let pyproject = content_in(files, at, "pyproject.toml"@);
    project(
        Language::Python,
        files.real_path(at),
        has_in(files, at, "tests"@) || has_in(files, at, "test"@) || has_in(files, at, "tests.py"@),
        python_name_in(pyproject),
        false,
        frameworks_in(
            pyproject + "\n"@ + content_in(files, at, "requirements.txt"@),
            python_ai_deps(),
        ),
    )
}

pub open spec fn go_project(files: Files, at: Seq<char>) -> ProjectInfoV {
    let content = content_in(files, at, "go.mod"@);
    project(
        Language::Go,
        files.real_path(at),
        some_ends(files.entries@, at, "_test.go"@),
        go_name_in(content),
        false,
        frameworks_in(content, go_ai_deps()),
    )
}

/// What the directory `at` holds. `Cargo.toml` decides first, then `package.json`, then
/// the files of Python, then `go.mod`.
pub open spec fn detected(files: Files, at: Seq<char>) -> ProjectInfoV {
    if has_in(files, at, "Cargo.toml"@) {
        rust_project(files, at)
    } else if has_in(files, at, "package.json"@) {
        typescript_project(files, at)
    } else if has_in(files, at, "pyproject.toml"@) || has_in(files, at, "setup.py"@) || has_in(
        files,
        at,
        "requirements.txt"@,
    ) {
        python_project(files, at)
    } else if has_in(files, at, "go.mod"@) {
        go_project(files, at)
    } else {
        project(Language::Unknown, files.real_path(at), false, None, false, Seq::empty())
    }
}

fn make_project(
    language: Language,
    root: String,
    has_tests: bool,
    package_name: Option<String>,
    is_nextjs: bool,
    ai_frameworks: Vec<String>,
) -> (r: ProjectInfo)
    ensures
        r@ == project(
            language,
            root@,
            has_tests,
            text::opt_view(package_name),
            is_nextjs,
            text::views(ai_frameworks@),
        ),
{
    ProjectInfo {
        language,
        root,
        has_tests,
        package_name,
        frameworks: ProjectFrameworks {
            is_nextjs,
            has_ai_deps: ai_frameworks.len() > 0,
            ai_frameworks,
        },
        workspace_root: None,
    }
}

/// What the directory `at` holds.
pub fn detect_project(files: &Files, at: &str) -> (r: ProjectInfo)
    ensures
        r@ == detected(*files, at@),
{
    let root = files.absolute(at);
    if there(files, at, "Cargo.toml") {
        let content = read_in(files, at, "Cargo.toml");
        return make_project(
            Language::Rust,
            root,
            there(files, at, "tests") || there(files, at, "src/lib.rs"),
            extract_package_name_from_content(content.as_str()),
            false,
            detect_rust_ai_frameworks(content.as_str()),
        );
    }
    if there(files, at, "package.json") {
        let content = read_in(files, at, "package.json");
        let has_tests = there(files, at, "tests") || there(files, at, "__tests__") || there(
            files,
            at,
            "src/__tests__",
        ) || there(files, at, "e2e") || there(files, at, "playwright.config.ts") || there(
            files,
            at,
            "playwright.config.js",
        );
        let is_nextjs = there(files, at, "next.config.js") || there(files, at, "next.config.ts")
            || there(files, at, "next.config.mjs") || text::contains(content.as_str(), "\"next\"");
        return make_project(
            Language::TypeScript,
            root,
            has_tests,
            extract_json_string_field(content.as_str(), "name"),
            is_nextjs,
            detect_js_ai_frameworks(content.as_str()),
        );
    }
    if there(files, at, "pyproject.toml") || there(files, at, "setup.py") || there(
        files,
        at,
        "requirements.txt",
    ) {
        let pyproject = read_in(files, at, "pyproject.toml");
        let requirements = read_in(files, at, "requirements.txt");
        let combined = text::cat3(pyproject.as_str(), "\n", requirements.as_str());
        return make_project(
            Language::Python,
            root,
            there(files, at, "tests") || there(files, at, "test") || there(files, at, "tests.py"),
            extract_python_package_name(pyproject.as_str()),
            false,
            detect_python_ai_frameworks(combined.as_str()),
        );
    }
    if there(files, at, "go.mod") {
        let content = read_in(files, at, "go.mod");
        return make_project(
            Language::Go,
            root,
            walk_dir_has_suffix(files, at, "_test.go"),
            extract_go_module_name(content.as_str()),
            false,
            detect_go_ai_frameworks(content.as_str()),
        );
    }
    let none: Vec<String> = Vec::new();
    assert(text::views(none@) =~= Seq::<Seq<char>>::empty());
    make_project(Language::Unknown, root, false, None, false, none)
}

// ── workspace members ───────────────────────────────────────────────────────

/// The model of a `Member`.
pub struct MemberV {
    pub path: Seq<char>,
    pub info: ProjectInfoV,
}

impl View for Member {
    type V = MemberV;

    open spec fn view(&self) -> MemberV {
        MemberV { path: self.path@, info: self.info@ }
    }
}

pub open spec fn members_view(v: Seq<Member>) -> Seq<MemberV> {
    v.map_values(|m: Member| m@)
}

pub open spec fn has_member(members: Seq<MemberV>, path: Seq<char>) -> bool {
    exists|i: int| 0 <= i < members.len() && (#[trigger] members[i]).path == path
}

/// The paths that a pattern stands for: the directories in `dir` for `dir/*`, else the
/// directory that the pattern names.
pub open spec fn candidates(files: Files, pattern: Seq<char>) -> Seq<Seq<char>> {
    match text::without_back(pattern, "/*"@) {
        Some(dir) => files.subdirs(dir).map_values(|name: Seq<char>| dir + "/"@ + name),
        None => if files.has_dir(pattern) {
            seq![pattern]
        } else {
            Seq::empty()
        },
    }
}

/// The paths that a pattern stands for.
fn expand(files: &Files, pattern: &str) -> (r: Vec<String>)
    ensures
        text::views(r@) == candidates(*files, pattern@),
{
    let mut r: Vec<String> = Vec::new();
    match text::strip_suffix(pattern, "/*") {
        Some(dir) => {
            let names = files.list_dirs(dir.as_str());
            let ghost all = candidates(*files, pattern@);
            let mut i: usize = 0;
            while i < names.len()
                invariant
                    i <= names@.len(),
                    text::views(names@) == files.subdirs(dir@),
                    all == files.subdirs(dir@).map_values(|name: Seq<char>| dir@ + "/"@ + name),
                    r@.len() == i,
                    forall|k: int| 0 <= k < i ==> (#[trigger] r@[k])@ == all[k],
                decreases names@.len() - i,
            {
                assert(text::views(names@)[i as int] == names@[i as int]@);
                r.push(text::cat3(dir.as_str(), "/", names[i].as_str()));
                i += 1;
            }
            assert(text::views(r@) =~= all);
        },
        None => {
            if files.is_dir(pattern) {
                r.push(pattern.to_string());
                assert(text::views(r@) =~= seq![pattern@]);
            } else {
                assert(text::views(r@) =~= Seq::<Seq<char>>::empty());
            }
        },
    }
    r
}

/// `members`, and behind them the projects at `paths` that `keep` keeps and that are not
/// there yet.
pub open spec fn with_members(
    files: Files,
    members: Seq<MemberV>,
    paths: Seq<Seq<char>>,
    keep: spec_fn(Seq<char>) -> bool,
) -> Seq<MemberV>
    decreases paths.len(),
{
    if paths.len() == 0 {
        members
    } else {
        let before = with_members(files, members, paths.drop_last(), keep);
        if keep(paths.last()) && !has_member(before, paths.last()) {
            before.push(MemberV { path: paths.last(), info: detected(files, paths.last()) })
        } else {
            before
        }
    }
}

fn knows(members: &Vec<Member>, path: &str) -> (r: bool)
    ensures
        r == has_member(members_view(members@), path@),
{
    let ghost v = members_view(members@);
    let mut i: usize = 0;
    while i < members.len()
        invariant
            i <= members@.len(),
            v == members_view(members@),
            forall|k: int| 0 <= k < i ==> (#[trigger] v[k]).path != path@,
        decreases members@.len() - i,
    {
        assert(v[i as int] == members@[i as int]@);
        if text::same(members[i].path.as_str(), path) {
            return true;
        }
        i += 1;
    }
    false
}

fn push_member(members: &mut Vec<Member>, m: Member)
    ensures
        members_view(final(members)@) == members_view(old(members)@).push(m@),
{
    members.push(m);
    assert(members_view(members@) =~= members_view(old(members)@).push(m@));
}

// JavaScript workspaces

/// `pattern` (without its `!`) matches `path`.
pub open spec fn js_excludes(pattern: Seq<char>, path: Seq<char>) -> bool {
    match text::without_back(pattern, "/*"@) {
        Some(dir) => text::begins(path, dir + "/"@),
        None => path == pattern,
    }
}

/// Whether `exclude_pat` (without its `!`) matches `rel_path`.
pub fn js_glob_excludes(exclude_pat: &str, rel_path: &str) -> (r: bool)
    ensures
        r == js_excludes(exclude_pat@, rel_path@),
{
    match text::strip_suffix(exclude_pat, "/*") {
        Some(dir) => {
            let front = text::cat(dir.as_str(), "/");
            text::starts_with(rel_path, front.as_str())
        },
        None => text::same(rel_path, exclude_pat),
    }
}

/// The patterns behind a `!`, without it.
pub open spec fn excludes_in(patterns: Seq<Seq<char>>) -> Seq<Seq<char>>
    decreases patterns.len(),
{
    if patterns.len() == 0 {
        Seq::empty()
    } else {
        match text::without_front(patterns.last(), "!"@) {
            Some(p) => excludes_in(patterns.drop_last()).push(p),
            None => excludes_in(patterns.drop_last()),
        }
    }
}

/// The patterns without a `!` in front.
pub open spec fn includes_in(patterns: Seq<Seq<char>>) -> Seq<Seq<char>>
    decreases patterns.len(),
{
    if patterns.len() == 0 {
        Seq::empty()
    } else {
        match text::without_front(patterns.last(), "!"@) {
            Some(_) => includes_in(patterns.drop_last()),
            None => includes_in(patterns.drop_last()).push(patterns.last()),
        }
    }
}

/// None of the excluding patterns matches `path`.
pub open spec fn js_keeps(excludes: Seq<Seq<char>>, path: Seq<char>) -> bool {
    forall|i: int| 0 <= i < excludes.len() ==> !js_excludes(#[trigger] excludes[i], path)
}

/// The members that including patterns stand for.
pub open spec fn js_members_of(
    files: Files,
    includes: Seq<Seq<char>>,
    excludes: Seq<Seq<char>>,
) -> Seq<MemberV>
    decreases includes.len(),
{
    if includes.len() == 0 {
        Seq::empty()
    } else {
        with_members(
            files,
            js_members_of(files, includes.drop_last(), excludes),
            candidates(files, includes.last()),
            |path: Seq<char>| js_keeps(excludes, path),
        )
    }
}

/// The members of a workspace with these patterns.
pub open spec fn js_members(files: Files, patterns: Seq<Seq<char>>) -> Seq<MemberV> {
    js_members_of(files, includes_in(patterns), excludes_in(patterns))
}

fn js_kept(excludes: &Vec<String>, path: &str) -> (r: bool)
    ensures
        r == js_keeps(text::views(excludes@), path@),
{
    let ghost v = text::views(excludes@);
    let mut i: usize = 0;
    while i < excludes.len()
        invariant
            i <= excludes@.len(),
            v == text::views(excludes@),
            forall|k: int| 0 <= k < i ==> !js_excludes(#[trigger] v[k], path@),
        decreases excludes@.len() - i,
    {
        assert(v[i as int] == excludes@[i as int]@);
        if js_glob_excludes(excludes[i].as_str(), path) {
            return false;
        }
        i += 1;
    }
    true
}

/// The members of a JavaScript workspace: what its patterns stand for, without what
/// patterns behind a `!` match, each path once.
pub fn expand_js_workspace_patterns(files: &Files, patterns: &Vec<String>) -> (r: Vec<Member>)
    ensures
        members_view(r@) == js_members(*files, text::views(patterns@)),
{
    let ghost all = text::views(patterns@);
    let mut includes: Vec<String> = Vec::new();
    let mut excludes: Vec<String> = Vec::new();
    let mut i: usize = 0;
    assert(all.subrange(0, 0) =~= Seq::<Seq<char>>::empty());
    assert(text::views(includes@) =~= Seq::<Seq<char>>::empty());
    assert(text::views(excludes@) =~= Seq::<Seq<char>>::empty());
    while i < patterns.len()
        invariant
            i <= patterns@.len(),
            all == text::views(patterns@),
            text::views(includes@) == includes_in(all.subrange(0, i as int)),
            text::views(excludes@) == excludes_in(all.subrange(0, i as int)),
        decreases patterns@.len() - i,
    {
        let ghost vi = text::views(includes@);
        let ghost ve = text::views(excludes@);
        proof {
            let next = all.subrange(0, i + 1);
            assert(next.drop_last() =~= all.subrange(0, i as int));
            assert(next.last() == patterns@[i as int]@);
        }
        match text::strip_prefix(patterns[i].as_str(), "!") {
            Some(p) => {
                excludes.push(p);
                assert(text::views(excludes@) =~= ve.push(p@));
            },
            None => {
                includes.push(patterns[i].clone());
                assert(text::views(includes@) =~= vi.push(patterns@[i as int]@));
            },
        }
        i += 1;
    }
    assert(all.subrange(0, i as int) =~= all);
    let ghost ex = text::views(excludes@);
    let ghost inc = text::views(includes@);
    let ghost keep = |path: Seq<char>| js_keeps(ex, path);
    let mut members: Vec<Member> = Vec::new();
    let mut j: usize = 0;
    assert(inc.subrange(0, 0) =~= Seq::<Seq<char>>::empty());
    assert(members_view(members@) =~= Seq::<MemberV>::empty());
    while j < includes.len()
        invariant
            j <= includes@.len(),
            ex == text::views(excludes@),
            inc == text::views(includes@),
            keep == (|path: Seq<char>| js_keeps(ex, path)),
            members_view(members@) == js_members_of(*files, inc.subrange(0, j as int), ex),
        decreases includes@.len() - j,
    {
        let paths = expand(files, includes[j].as_str());
        let ghost pv = text::views(paths@);
        let ghost start = members_view(members@);
        let mut k: usize = 0;
        assert(pv.subrange(0, 0) =~= Seq::<Seq<char>>::empty());
        while k < paths.len()
            invariant
                k <= paths@.len(),
                pv == text::views(paths@),
                ex == text::views(excludes@),
                keep == (|path: Seq<char>| js_keeps(ex, path)),
                members_view(members@) == with_members(
                    *files,
                    start,
                    pv.subrange(0, k as int),
                    keep,
                ),
            decreases paths@.len() - k,
        {
            proof {
                let next = pv.subrange(0, k + 1);
                assert(next.drop_last() =~= pv.subrange(0, k as int));
                assert(next.last() == paths@[k as int]@);
            }
            let path = paths[k].as_str();
            if js_kept(&excludes, path) && !knows(&members, path) {
                let info = detect_project(files, path);
                push_member(&mut members, Member { path: path.to_string(), info });
            }
            k += 1;
        }
        proof {
            assert(pv.subrange(0, k as int) =~= pv);
            let next = inc.subrange(0, j + 1);
            assert(next.drop_last() =~= inc.subrange(0, j as int));
            assert(next.last() == includes@[j as int]@);
        }
        j += 1;
    }
    assert(inc.subrange(0, j as int) =~= inc);
    members
}

/// An item of a YAML list, without its dash and quotes.
pub open spec fn yaml_item(line: Seq<char>) -> Seq<char> {
    unquoted(text::strip_front(text::trimmed(line), '-'))
}

/// The item stands for something: it is not empty and no comment.
pub open spec fn is_item(s: Seq<char>) -> bool {
    s.len() > 0 && s[0] != '#'
}

/// A top-level line that leaves the section as it is: a blank line, a comment or an item.
/// Any other, and any that ends in a colon, begins a section.
pub open spec fn stays_in_section(line: Seq<char>) -> bool {
    let t = text::trimmed(line);
    !text::ends(t, ":"@) && (t.len() == 0 || t[0] == '#' || t[0] == '-')
}

/// The line has no whitespace in front.
pub open spec fn is_top_level(line: Seq<char>) -> bool {
    line.len() == 0 || (line[0] != ' ' && line[0] != '\t')
}

/// The line begins a section.
pub open spec fn begins_section(line: Seq<char>) -> bool {
    is_top_level(line) && !stays_in_section(line)
}

/// The items of the `packages:` section among lines, of which the first stands in that
/// section or not.
pub open spec fn yaml_items(lines: Seq<Seq<char>>, in_packages: bool) -> Seq<Seq<char>>
    decreases lines.len(),
{
    if lines.len() == 0 {
        Seq::empty()
    } else {
        let line = lines[0];
        let rest = lines.subrange(1, lines.len() as int);
        if begins_section(line) {
            yaml_items(rest, text::trimmed(line) == "packages:"@)
        } else if in_packages && is_item(yaml_item(line)) {
            seq![yaml_item(line)] + yaml_items(rest, in_packages)
        } else {
            yaml_items(rest, in_packages)
        }
    }
}

fn starts_section(line: &str) -> (r: bool)
    ensures
        r == begins_section(line@),
{
    if !line.is_empty() && (line.get_char(0) == ' ' || line.get_char(0) == '\t') {
        return false;
    }
    let t = text::trim(line);
    text::ends_with(t.as_str(), ":") || !(t.as_str().is_empty() || t.as_str().get_char(0) == '#'
        || t.as_str().get_char(0) == '-')
}

fn item_of(line: &str) -> (r: String)
    ensures
        r@ == yaml_item(line@),
{
    let t = text::trim(line);
    let u = text::trim_start_char(t.as_str(), '-');
    unquote(u.as_str())
}

fn stands_for_something(s: &str) -> (r: bool)
    ensures
        r == is_item(s@),
{
    !s.is_empty() && s.get_char(0) != '#'
}

/// The items of the top-level `packages:` section of `pnpm-workspace.yaml`. Another
/// top-level key ends the section; blank lines and comments do not.
pub fn parse_yaml_list_items(content: &str) -> (r: Vec<String>)
    ensures
        text::views(r@) == yaml_items(text::lines_of(content@), false),
{
    let lines = text::lines(content);
    let ghost all = text::lines_of(content@);
    let mut in_packages = false;
    let mut r: Vec<String> = Vec::new();
    let mut i: usize = 0;
    assert(all.subrange(0, all.len() as int) =~= all);
    assert(text::views(r@) + yaml_items(all, false) =~= yaml_items(all, false));
    while i < lines.len()
        invariant
            i <= lines@.len(),
            all == text::views(lines@),
            all == text::lines_of(content@),
            text::views(r@) + yaml_items(all.subrange(i as int, all.len() as int), in_packages)
                == yaml_items(all, false),
        decreases lines@.len() - i,
    {
        let ghost rest = all.subrange(i as int, all.len() as int);
        let ghost before = text::views(r@);
        let line = lines[i].as_str();
        proof {
            assert(rest[0] == lines@[i as int]@);
            assert(rest.subrange(1, rest.len() as int) =~= all.subrange(i + 1, all.len() as int));
        }
        if starts_section(line) {
            let t = text::trim(line);
            in_packages = text::same(t.as_str(), "packages:");
        } else if in_packages {
            let item = item_of(line);
            if stands_for_something(item.as_str()) {
                r.push(item);
                proof {
                    assert(text::views(r@) =~= before.push(item@));
                    let tail = yaml_items(all.subrange(i + 1, all.len() as int), in_packages);
                    assert(text::views(r@) + tail =~= before + (seq![item@] + tail));
                }
            }
        }
        i += 1;
    }
    assert(all.subrange(i as int, all.len() as int) =~= Seq::<Seq<char>>::empty());
    assert(text::views(r@) + Seq::<Seq<char>>::empty() =~= text::views(r@));
    r
}

/// The patterns in the `workspaces` field of `package.json`: a list, or the list in its
/// `packages` field.
pub open spec fn npm_patterns(doc: data::DataV) -> Seq<Seq<char>> {
    match doc.field("workspaces"@) {
        Some(w) => match w.as_list() {
            Some(l) => data::texts_from(l),
            None => match w.list_at("packages"@) {
                Some(l) => data::texts_from(l),
                None => Seq::empty(),
            },
        },
        None => Seq::empty(),
    }
}

/// The patterns in the `packages` field of `lerna.json`.
pub open spec fn lerna_patterns(doc: data::DataV) -> Seq<Seq<char>> {
    match doc.list_at("packages"@) {
        Some(l) => data::texts_from(l),
        None => Seq::empty(),
    }
}

/// The workspace patterns in a parsed `package.json`.
pub fn npm_workspace_patterns(doc: &Data) -> (r: Vec<String>)
    ensures
        text::views(r@) == npm_patterns(doc@),
{
    let none: Vec<String> = Vec::new();
    assert(text::views(none@) =~= Seq::<Seq<char>>::empty());
    match doc.get("workspaces") {
        Some(w) => match w.as_array() {
            Some(l) => data::strings(l),
            None => match w.get_array("packages") {
                Some(l) => data::strings(l),
                None => none,
            },
        },
        None => none,
    }
}

/// The workspace patterns in a parsed `lerna.json`.
pub fn lerna_workspace_patterns(doc: &Data) -> (r: Vec<String>)
    ensures
        text::views(r@) == lerna_patterns(doc@),
{
    let none: Vec<String> = Vec::new();
    assert(text::views(none@) =~= Seq::<Seq<char>>::empty());
    match doc.get_array("packages") {
        Some(l) => data::strings(l),
        None => none,
    }
}

pub open spec fn npm_members(files: Files, content: Seq<char>) -> Seq<MemberV> {
    match data::json_parsed(content) {
        Some(doc) => js_members(files, npm_patterns(doc)),
        None => Seq::empty(),
    }
}

pub open spec fn lerna_members(files: Files, content: Seq<char>) -> Seq<MemberV> {
    match data::json_parsed(content) {
        Some(doc) => js_members(files, lerna_patterns(doc)),
        None => Seq::empty(),
    }
}

/// The members that `package.json` gives.
pub fn parse_npm_workspace_members(files: &Files, pkg_json: &str) -> (r: Vec<Member>)
    ensures
        members_view(r@) == npm_members(*files, pkg_json@),
{
    match data::parse_json(pkg_json) {
        Some(doc) => {
            let patterns = npm_workspace_patterns(&doc);
            expand_js_workspace_patterns(files, &patterns)
        },
        None => {
            let none: Vec<Member> = Vec::new();
            assert(members_view(none@) =~= Seq::<MemberV>::empty());
            none
        },
    }
}

/// The members that `lerna.json` gives.
pub fn parse_lerna_members(files: &Files, lerna_json: &str) -> (r: Vec<Member>)
    ensures
        members_view(r@) == lerna_members(*files, lerna_json@),
{
    match data::parse_json(lerna_json) {
        Some(doc) => {
            let patterns = lerna_workspace_patterns(&doc);
            expand_js_workspace_patterns(files, &patterns)
        },
        None => {
            let none: Vec<Member> = Vec::new();
            assert(members_view(none@) =~= Seq::<MemberV>::empty());
            none
        },
    }
}

// Cargo workspaces

/// A pattern of an `exclude` list matches `path`.
pub open spec fn cargo_excludes(pattern: Seq<char>, path: Seq<char>) -> bool {
    ||| path == pattern
    ||| match text::without_back(pattern, "/*"@) {
        Some(dir) => text::begins(path, dir + "/"@),
        None => false,
    }
}

/// None of the excluding patterns matches `path`.
pub open spec fn cargo_keeps(excludes: Seq<Seq<char>>, path: Seq<char>) -> bool {
    forall|i: int| 0 <= i < excludes.len() ==> !cargo_excludes(#[trigger] excludes[i], path)
}

fn cargo_kept(excludes: &Vec<String>, path: &str) -> (r: bool)
    ensures
        r == cargo_keeps(text::views(excludes@), path@),
{
    let ghost v = text::views(excludes@);
    let mut i: usize = 0;
    while i < excludes.len()
        invariant
            i <= excludes@.len(),
            v == text::views(excludes@),
            forall|k: int| 0 <= k < i ==> !cargo_excludes(#[trigger] v[k], path@),
        decreases excludes@.len() - i,
    {
        assert(v[i as int] == excludes@[i as int]@);
        let ex = excludes[i].as_str();
        let within = match text::strip_suffix(ex, "/*") {
            Some(dir) => {
                let front = text::cat(dir.as_str(), "/");
                text::starts_with(path, front.as_str())
            },
            None => false,
        };
        if text::same(path, ex) || within {
            return false;
        }
        i += 1;
    }
    true
}

/// The paths that the lines of a list stand for.
pub open spec fn listed_paths(files: Files, lines: Seq<Seq<char>>) -> Seq<Seq<char>>
    decreases lines.len(),
{
    if lines.len() == 0 {
        Seq::empty()
    } else {
        let before = listed_paths(files, lines.drop_last());
        let item = yaml_item(lines.last());
        if is_item(item) {
            before + candidates(files, item)
        } else {
            before
        }
    }
}

/// The paths that `dir/*` patterns and plain paths, one to a line, stand for.
pub fn expand_glob_patterns(files: &Files, content: &str) -> (r: Vec<String>)
    ensures
        text::views(r@) == listed_paths(*files, text::lines_of(content@)),
{
    let lines = text::lines(content);
    let ghost all = text::views(lines@);
    let mut r: Vec<String> = Vec::new();
    let mut i: usize = 0;
    assert(all.subrange(0, 0) =~= Seq::<Seq<char>>::empty());
    assert(text::views(r@) =~= Seq::<Seq<char>>::empty());
    while i < lines.len()
        invariant
            i <= lines@.len(),
            all == text::views(lines@),
            text::views(r@) == listed_paths(*files, all.subrange(0, i as int)),
        decreases lines@.len() - i,
    {
        proof {
            let next = all.subrange(0, i + 1);
            assert(next.drop_last() =~= all.subrange(0, i as int));
            assert(next.last() == lines@[i as int]@);
        }
        let item = item_of(lines[i].as_str());
        if stands_for_something(item.as_str()) {
            let ghost before = text::views(r@);
            let mut paths = expand(files, item.as_str());
            let ghost found = text::views(paths@);
            r.append(&mut paths);
            assert(text::views(r@) =~= before + found);
        }
        i += 1;
    }
    assert(all.subrange(0, i as int) =~= all);
    r
}

/// The paths that a `members` pattern stands for.
pub open spec fn cargo_candidates(files: Files, pattern: Seq<char>) -> Seq<Seq<char>> {
    if pattern.contains('*') {
        listed_paths(files, text::lines_of("- "@ + pattern))
    } else if files.has_dir(pattern) {
        seq![pattern]
    } else {
        Seq::empty()
    }
}

fn expand_cargo(files: &Files, pattern: &str) -> (r: Vec<String>)
    ensures
        text::views(r@) == cargo_candidates(*files, pattern@),
{
    if text::contains_char(pattern, '*') {
        let list = text::cat("- ", pattern);
        return expand_glob_patterns(files, list.as_str());
    }
    let mut r: Vec<String> = Vec::new();
    if files.is_dir(pattern) {
        r.push(pattern.to_string());
        assert(text::views(r@) =~= seq![pattern@]);
    } else {
        assert(text::views(r@) =~= Seq::<Seq<char>>::empty());
    }
    r
}

/// The members that patterns of a `members` list stand for.
pub open spec fn cargo_members_of(
    files: Files,
    patterns: Seq<Seq<char>>,
    excludes: Seq<Seq<char>>,
) -> Seq<MemberV>
    decreases patterns.len(),
{
    if patterns.len() == 0 {
        Seq::empty()
    } else {
        with_members(
            files,
            cargo_members_of(files, patterns.drop_last(), excludes),
            cargo_candidates(files, patterns.last()),
            |path: Seq<char>| cargo_keeps(excludes, path),
        )
    }
}

/// The texts in a list field.
pub open spec fn texts_at(doc: data::DataV, key: Seq<char>) -> Seq<Seq<char>> {
    match doc.list_at(key) {
        Some(l) => data::texts_from(l),
        None => Seq::empty(),
    }
}

/// The members that a `Cargo.toml` gives: those of `workspace.members` without those of
/// `workspace.exclude`, each path once, and the root itself where it is a package.
pub open spec fn cargo_members(files: Files, doc: data::DataV) -> Seq<MemberV> {
    match doc.field("workspace"@) {
        Some(w) => {
            let listed = cargo_members_of(files, texts_at(w, "members"@), texts_at(w, "exclude"@));
            if doc.field("package"@) is Some && !has_member(listed, "."@) {
                listed.push(MemberV { path: "."@, info: detected(files, Seq::empty()) })
            } else {
                listed
            }
        },
        None => Seq::empty(),
    }
}

fn strings_at(doc: &Data, key: &str) -> (r: Vec<String>)
    ensures
        text::views(r@) == texts_at(doc@, key@),
{
    match doc.get_array(key) {
        Some(l) => data::strings(l),
        None => {
            let none: Vec<String> = Vec::new();
            assert(text::views(none@) =~= Seq::<Seq<char>>::empty());
            none
        },
    }
}

/// The members that a parsed `Cargo.toml` gives.
pub fn parse_cargo_workspace_members_toml(files: &Files, doc: &Data) -> (r: Vec<Member>)
    ensures
        members_view(r@) == cargo_members(*files, doc@),
{
    let mut members: Vec<Member> = Vec::new();
    assert(members_view(members@) =~= Seq::<MemberV>::empty());
    let workspace = match doc.get("workspace") {
        Some(w) => w,
        None => {
            return members;
        },
    };
    let patterns = strings_at(workspace, "members");
    let excludes = strings_at(workspace, "exclude");
    let ghost pat = text::views(patterns@);
    let ghost ex = text::views(excludes@);
    let ghost keep = |path: Seq<char>| cargo_keeps(ex, path);
    let mut j: usize = 0;
    assert(pat.subrange(0, 0) =~= Seq::<Seq<char>>::empty());
    while j < patterns.len()
        invariant
            j <= patterns@.len(),
            ex == text::views(excludes@),
            pat == text::views(patterns@),
            keep == (|path: Seq<char>| cargo_keeps(ex, path)),
            members_view(members@) == cargo_members_of(*files, pat.subrange(0, j as int), ex),
        decreases patterns@.len() - j,
    {
        let paths = expand_cargo(files, patterns[j].as_str());
        let ghost pv = text::views(paths@);
        let ghost start = members_view(members@);
        let mut k: usize = 0;
        assert(pv.subrange(0, 0) =~= Seq::<Seq<char>>::empty());
        while k < paths.len()
            invariant
                k <= paths@.len(),
                pv == text::views(paths@),
                ex == text::views(excludes@),
                keep == (|path: Seq<char>| cargo_keeps(ex, path)),
                members_view(members@) == with_members(
                    *files,
                    start,
                    pv.subrange(0, k as int),
                    keep,
                ),
            decreases paths@.len() - k,
        {
            proof {
                let next = pv.subrange(0, k + 1);
                assert(next.drop_last() =~= pv.subrange(0, k as int));
                assert(next.last() == paths@[k as int]@);
            }
            let path = paths[k].as_str();
            if cargo_kept(&excludes, path) && !knows(&members, path) {
                let info = detect_project(files, path);
                push_member(&mut members, Member { path: path.to_string(), info });
            }
            k += 1;
        }
        proof {
            assert(pv.subrange(0, k as int) =~= pv);
            let next = pat.subrange(0, j + 1);
            assert(next.drop_last() =~= pat.subrange(0, j as int));
            assert(next.last() == patterns@[j as int]@);
        }
        j += 1;
    }
    assert(pat.subrange(0, j as int) =~= pat);
    if doc.get("package").is_some() && !knows(&members, ".") {
        let info = detect_project(files, "");
        proof {
            reveal_strlit("");
            assert(""@ =~= Seq::<char>::empty());
        }
        push_member(&mut members, Member { path: ".".to_string(), info });
    }
    members
}

/// The texts between double quotes in `s`; an open quote at the end holds none.
pub open spec fn quoted(s: Seq<char>) -> Seq<Seq<char>>
    decreases s.len(),
{
    let rest = text::after(s, '"');
    if 0 <= text::before_len(s, '"') < s.len() && 0 <= text::before_len(rest, '"') < rest.len() {
        seq![text::before(rest, '"')] + quoted(text::after(rest, '"'))
    } else {
        Seq::empty()
    }
}

/// The quoted texts of the `members` list among lines, of which the first stands in that
/// list or not. A line with `]` ends the list.
pub open spec fn scanned(lines: Seq<Seq<char>>, in_members: bool) -> Seq<Seq<char>>
    decreases lines.len(),
{
    if lines.len() == 0 {
        Seq::empty()
    } else {
        let t = text::trimmed(lines[0]);
        let inside = in_members || (text::begins(t, "members"@) && t.contains('='));
        let rest = lines.subrange(1, lines.len() as int);
        if !inside {
            scanned(rest, false)
        } else if t.contains(']') {
            quoted(t)
        } else {
            quoted(t) + scanned(rest, true)
        }
    }
}

/// The projects that scanned texts stand for, in order, repetitions kept.
pub open spec fn scanned_members(files: Files, names: Seq<Seq<char>>) -> Seq<MemberV>
    decreases names.len(),
{
    if names.len() == 0 {
        Seq::empty()
    } else {
        let before = scanned_members(files, names.drop_last());
        if names.last().len() == 0 {
            before
        } else {
            before + cargo_candidates(files, names.last()).map_values(
                |path: Seq<char>| MemberV { path, info: detected(files, path) },
            )
        }
    }
}

fn quoted_in(s: &str) -> (r: Vec<String>)
    ensures
        text::views(r@) == quoted(s@),
{
    let mut r: Vec<String> = Vec::new();
    let mut rest = s.to_string();
    assert(text::views(r@) + quoted(s@) =~= quoted(s@));
    loop
        invariant
            text::views(r@) + quoted(rest@) == quoted(s@),
        decreases rest@.len(),
    {
        let ghost here = rest@;
        let ghost before = text::views(r@);
        proof {
            text::lemma_before_len(here, '"');
            text::lemma_before_len(text::after(here, '"'), '"');
            assert(before + Seq::<Seq<char>>::empty() =~= before);
        }
        match text::after_char(rest.as_str(), '"') {
            Some(tail) => {
                match text::after_char(tail.as_str(), '"') {
                    Some(next) => {
                        let name = text::before_char(tail.as_str(), '"');
                        r.push(name);
                        proof {
                            assert(text::views(r@) =~= before.push(name@));
                            assert(text::views(r@) + quoted(next@) =~= before + (seq![name@]
                                + quoted(next@)));
                        }
                        rest = next;
                    },
                    None => {
                        return r;
                    },
                }
            },
            None => {
                return r;
            },
        }
    }
}

fn scan_members(content: &str) -> (r: Vec<String>)
    ensures
        text::views(r@) == scanned(text::lines_of(content@), false),
{
    let lines = text::lines(content);
    let ghost all = text::lines_of(content@);
    let mut in_members = false;
    let mut r: Vec<String> = Vec::new();
    let mut i: usize = 0;
    assert(all.subrange(0, all.len() as int) =~= all);
    assert(text::views(r@) + scanned(all, false) =~= scanned(all, false));
    while i < lines.len()
        invariant
            i <= lines@.len(),
            all == text::views(lines@),
            all == text::lines_of(content@),
            text::views(r@) + scanned(all.subrange(i as int, all.len() as int), in_members)
                == scanned(all, false),
        decreases lines@.len() - i,
    {
        let ghost rest = all.subrange(i as int, all.len() as int);
        let ghost before = text::views(r@);
        proof {
            assert(rest[0] == lines@[i as int]@);
            assert(rest.subrange(1, rest.len() as int) =~= all.subrange(i + 1, all.len() as int));
        }
        let t = text::trim(lines[i].as_str());
        if text::starts_with(t.as_str(), "members") && text::contains_char(t.as_str(), '=') {
            in_members = true;
        }
        if in_members {
            let mut found = quoted_in(t.as_str());
            let ghost f = text::views(found@);
            r.append(&mut found);
            assert(text::views(r@) =~= before + f);
            if text::contains_char(t.as_str(), ']') {
                return r;
            }
            proof {
                let tail = scanned(all.subrange(i + 1, all.len() as int), true);
                assert(text::views(r@) + tail =~= before + (f + tail));
            }
        }
        i += 1;
    }
    assert(all.subrange(i as int, all.len() as int) =~= Seq::<Seq<char>>::empty());
    assert(text::views(r@) + Seq::<Seq<char>>::empty() =~= text::views(r@));
    r
}

/// The members that a scan of the lines of a `Cargo.toml` gives, for one that does not
/// parse.
pub fn parse_cargo_workspace_members_fallback(files: &Files, content: &str) -> (r: Vec<Member>)
    ensures
        members_view(r@) == scanned_members(*files, scanned(text::lines_of(content@), false)),
{
    let names = scan_members(content);
    let ghost all = text::views(names@);
    let mut members: Vec<Member> = Vec::new();
    let mut i: usize = 0;
    assert(all.subrange(0, 0) =~= Seq::<Seq<char>>::empty());
    assert(members_view(members@) =~= Seq::<MemberV>::empty());
    while i < names.len()
        invariant
            i <= names@.len(),
            all == text::views(names@),
            members_view(members@) == scanned_members(*files, all.subrange(0, i as int)),
        decreases names@.len() - i,
    {
        let name = names[i].as_str();
        let ghost start = members_view(members@);
        proof {
            let next = all.subrange(0, i + 1);
            assert(next.drop_last() =~= all.subrange(0, i as int));
            assert(next.last() == names@[i as int]@);
        }
        if !name.is_empty() {
            let paths = expand_cargo(files, name);
            let ghost found = cargo_candidates(*files, name@).map_values(
                |path: Seq<char>| MemberV { path, info: detected(*files, path) },
            );
            let mut k: usize = 0;
            assert(start + found.subrange(0, 0) =~= start);
            while k < paths.len()
                invariant
                    k <= paths@.len(),
                    text::views(paths@) == cargo_candidates(*files, name@),
                    found == cargo_candidates(*files, name@).map_values(
                        |path: Seq<char>| MemberV { path, info: detected(*files, path) },
                    ),
                    members_view(members@) == start + found.subrange(0, k as int),
                decreases paths@.len() - k,
            {
                let path = paths[k].as_str();
                assert(text::views(paths@)[k as int] == path@);
                let info = detect_project(files, path);
                push_member(&mut members, Member { path: path.to_string(), info });
                k += 1;
                assert(members_view(members@) =~= start + found.subrange(0, k as int));
            }
            assert(found.subrange(0, k as int) =~= found);
        }
        i += 1;
    }
    assert(all.subrange(0, i as int) =~= all);
    members
}

/// The members of a Cargo workspace; the lines are scanned where the text is no TOML.
pub open spec fn cargo_members_in(files: Files, content: Seq<char>) -> Seq<MemberV> {
    match data::toml_parsed(content) {
        Some(doc) => cargo_members(files, doc),
        None => scanned_members(files, scanned(text::lines_of(content), false)),
    }
}

/// The members that `Cargo.toml` gives.
pub fn parse_cargo_workspace_members(files: &Files, content: &str) -> (r: Vec<Member>)
    ensures
        members_view(r@) == cargo_members_in(*files, content@),
{
    match data::parse_toml(content) {
        Some(doc) => parse_cargo_workspace_members_toml(files, &doc),
        None => parse_cargo_workspace_members_fallback(files, content),
    }
}

// ── workspaces ──────────────────────────────────────────────────────────────

/// The members with the root of their workspace.
pub open spec fn stamped(members: Seq<MemberV>, root: Seq<char>) -> Seq<MemberV> {
    members.map_values(
        |m: MemberV|
            MemberV {
                path: m.path,
                info: ProjectInfoV { workspace_root: Some(root), ..m.info },
            },
    )
}

/// Sets the root of the workspace on every member.
pub fn stamp_workspace_root(members: Vec<Member>, root: &str) -> (r: Vec<Member>)
    ensures
        members_view(r@) == stamped(members_view(members@), root@),
{
    let mut r: Vec<Member> = Vec::new();
    let mut i: usize = 0;
    while i < members.len()
        invariant
            i <= members@.len(),
            r@.len() == i,
            forall|k: int|
                0 <= k < i ==> (#[trigger] r@[k])@ == stamped(members_view(members@), root@)[k],
        decreases members@.len() - i,
    {
        let mut info = members[i].info.clone();
        info.workspace_root = Some(root.to_string());
        r.push(Member { path: members[i].path.clone(), info });
        i += 1;
    }
    assert(members_view(r@) =~= stamped(members_view(members@), root@));
    r
}

/// The model of a `WorkspaceInfo`.
pub enum WorkspaceInfoV {
    Single(ProjectInfoV),
    Multi { kind: WorkspaceKind, members: Seq<MemberV> },
}

impl View for WorkspaceInfo {
    type V = WorkspaceInfoV;

    open spec fn view(&self) -> WorkspaceInfoV {
        match *self {
            WorkspaceInfo::Single(p) => WorkspaceInfoV::Single(p@),
            WorkspaceInfo::Multi { kind, members } => WorkspaceInfoV::Multi {
                kind,
                members: members_view(members@),
            },
        }
    }
}

pub open spec fn cargo_part(files: Files) -> Seq<MemberV> {
    let content = files.content("Cargo.toml"@);
    if files.has("Cargo.toml"@) && text::has(content, "[workspace]"@) {
        cargo_members_in(files, content)
    } else {
        Seq::empty()
    }
}

pub open spec fn pnpm_part(files: Files) -> Seq<MemberV> {
    if files.has("pnpm-workspace.yaml"@) {
        js_members(
            files,
            yaml_items(text::lines_of(files.content("pnpm-workspace.yaml"@)), false),
        )
    } else {
        Seq::empty()
    }
}

pub open spec fn npm_part(files: Files) -> Seq<MemberV> {
    let content = files.content("package.json"@);
    if files.has("package.json"@) && text::has(content, "\"workspaces\""@) {
        npm_members(files, content)
    } else {
        Seq::empty()
    }
}

pub open spec fn lerna_part(files: Files) -> Seq<MemberV> {
    if files.has("lerna.json"@) {
        lerna_members(files, files.content("lerna.json"@))
    } else {
        Seq::empty()
    }
}

pub open spec fn multi(kind: WorkspaceKind, members: Seq<MemberV>, files: Files) -> WorkspaceInfoV {
    WorkspaceInfoV::Multi { kind, members: stamped(members, files.real_path(Seq::empty())) }
}

/// What a directory is: the first kind of workspace that has members, Cargo before pnpm
/// before npm (with Turborepo) before Lerna; else a single project.
pub open spec fn workspace_of(files: Files) -> WorkspaceInfoV {
    if cargo_part(files).len() > 0 {
        multi(WorkspaceKind::Cargo, cargo_part(files), files)
    } else if pnpm_part(files).len() > 0 {
        multi(WorkspaceKind::Pnpm, pnpm_part(files), files)
    } else if npm_part(files).len() > 0 {
        multi(
            if files.has("turbo.json"@) {
                WorkspaceKind::Turbo
            } else {
                WorkspaceKind::Npm
            },
            npm_part(files),
            files,
        )
    } else if lerna_part(files).len() > 0 {
        multi(WorkspaceKind::Lerna, lerna_part(files), files)
    } else {
        WorkspaceInfoV::Single(detected(files, Seq::empty()))
    }
}

/// Whether a directory is a workspace, and with which members.
pub fn detect_workspace(files: &Files) -> (r: WorkspaceInfo)
    ensures
        r@ == workspace_of(*files),
{
    let root = files.absolute("");
    proof {
        reveal_strlit("");
        assert(""@ =~= Seq::<char>::empty());
    }
    if files.is_there("Cargo.toml") {
        let content = files.read("Cargo.toml");
        if text::contains(content.as_str(), "[workspace]") {
            let found = parse_cargo_workspace_members(files, content.as_str());
            if found.len() > 0 {
                let members = stamp_workspace_root(found, root.as_str());
                return WorkspaceInfo::Multi { kind: WorkspaceKind::Cargo, members };
            }
        }
    }
    if files.is_there("pnpm-workspace.yaml") {
        let content = files.read("pnpm-workspace.yaml");
        let patterns = parse_yaml_list_items(content.as_str());
        let found = expand_js_workspace_patterns(files, &patterns);
        if found.len() > 0 {
            let members = stamp_workspace_root(found, root.as_str());
            return WorkspaceInfo::Multi { kind: WorkspaceKind::Pnpm, members };
        }
    }
    if files.is_there("package.json") {
        let content = files.read("package.json");
        if text::contains(content.as_str(), "\"workspaces\"") {
            let found = parse_npm_workspace_members(files, content.as_str());
            if found.len() > 0 {
                let members = stamp_workspace_root(found, root.as_str());
                let kind = if files.is_there("turbo.json") {
                    WorkspaceKind::Turbo
                } else {
                    WorkspaceKind::Npm
                };
                return WorkspaceInfo::Multi { kind, members };
            }
        }
    }
    if files.is_there("lerna.json") {
        let content = files.read("lerna.json");
        let found = parse_lerna_members(files, content.as_str());
        if found.len() > 0 {
            let members = stamp_workspace_root(found, root.as_str());
            return WorkspaceInfo::Multi { kind: WorkspaceKind::Lerna, members };
        }
    }
    WorkspaceInfo::Single(detect_project(files, ""))
}

// ── laws ────────────────────────────────────────────────────────────────────

pub open spec fn distinct_paths(members: Seq<MemberV>) -> bool {
    forall|i: int, j: int|
        0 <= i < j < members.len() ==> (#[trigger] members[i]).path != (#[trigger] members[j]).path
}

proof fn lemma_with_members(
    files: Files,
    members: Seq<MemberV>,
    paths: Seq<Seq<char>>,
    keep: spec_fn(Seq<char>) -> bool,
)
    requires
        distinct_paths(members),
        forall|i: int| 0 <= i < members.len() ==> keep((#[trigger] members[i]).path),
    ensures
        distinct_paths(with_members(files, members, paths, keep)),
        forall|i: int|
            0 <= i < with_members(files, members, paths, keep).len() ==> keep(
                (#[trigger] with_members(files, members, paths, keep)[i]).path,
            ),
    decreases paths.len(),
{
    if paths.len() > 0 {
        lemma_with_members(files, members, paths.drop_last(), keep);
    }
}

/// A JavaScript workspace lists each path once, and none that an excluding pattern
/// matches.
pub proof fn law_js_members_distinct_and_kept(
    files: Files,
    includes: Seq<Seq<char>>,
    excludes: Seq<Seq<char>>,
)
    ensures
        distinct_paths(js_members_of(files, includes, excludes)),
        forall|i: int|
            0 <= i < js_members_of(files, includes, excludes).len() ==> js_keeps(
                excludes,
                (#[trigger] js_members_of(files, includes, excludes)[i]).path,
            ),
    decreases includes.len(),
{
    if includes.len() > 0 {
        law_js_members_distinct_and_kept(files, includes.drop_last(), excludes);
        let keep = |path: Seq<char>| js_keeps(excludes, path);
        let before = js_members_of(files, includes.drop_last(), excludes);
        lemma_with_members(files, before, candidates(files, includes.last()), keep);
        assert forall|i: int| 0 <= i < js_members_of(files, includes, excludes).len() implies js_keeps(
            excludes,
            (#[trigger] js_members_of(files, includes, excludes)[i]).path,
        ) by {
            assert(keep(js_members_of(files, includes, excludes)[i].path));
        }
    }
}

/// A Cargo workspace lists each path once, and, the root aside, none that an excluding
/// pattern matches.
pub proof fn law_cargo_members_distinct_and_kept(files: Files, doc: data::DataV)
    ensures
        distinct_paths(cargo_members(files, doc)),
        doc.field("workspace"@) matches Some(w) ==> forall|i: int|
            0 <= i < cargo_members(files, doc).len() ==> (#[trigger] cargo_members(
                files,
                doc,
            )[i]).path == "."@ || cargo_keeps(
                texts_at(w, "exclude"@),
                cargo_members(files, doc)[i].path,
            ),
{
    match doc.field("workspace"@) {
        Some(w) => {
            lemma_cargo_members_of(files, texts_at(w, "members"@), texts_at(w, "exclude"@));
        },
        None => {},
    }
}

proof fn lemma_cargo_members_of(
    files: Files,
    patterns: Seq<Seq<char>>,
    excludes: Seq<Seq<char>>,
)
    ensures
        distinct_paths(cargo_members_of(files, patterns, excludes)),
        forall|i: int|
            0 <= i < cargo_members_of(files, patterns, excludes).len() ==> cargo_keeps(
                excludes,
                (#[trigger] cargo_members_of(files, patterns, excludes)[i]).path,
            ),
    decreases patterns.len(),
{
    if patterns.len() > 0 {
        lemma_cargo_members_of(files, patterns.drop_last(), excludes);
        let keep = |path: Seq<char>| cargo_keeps(excludes, path);
        let before = cargo_members_of(files, patterns.drop_last(), excludes);
        lemma_with_members(files, before, cargo_candidates(files, patterns.last()), keep);
        assert forall|i: int|
            0 <= i < cargo_members_of(files, patterns, excludes).len() implies cargo_keeps(
            excludes,
            (#[trigger] cargo_members_of(files, patterns, excludes)[i]).path,
        ) by {
            assert(keep(cargo_members_of(files, patterns, excludes)[i].path));
        }
    }
}

/// What stands in other sections of `pnpm-workspace.yaml` is never taken for a workspace
/// member: from a line that begins another section, up to a next `packages:`, nothing is
/// listed.
pub proof fn law_other_sections_list_nothing(
    before: Seq<Seq<char>>,
    key: Seq<char>,
    others: Seq<Seq<char>>,
    in_packages: bool,
)
    requires
        begins_section(key),
        text::trimmed(key) != "packages:"@,
        forall|i: int|
            0 <= i < others.len() ==> !(begins_section(#[trigger] others[i]) && text::trimmed(
                others[i],
            ) == "packages:"@),
    ensures
        yaml_items(before + (seq![key] + others), in_packages) == yaml_items(before, in_packages),
    decreases before.len(),
{
    let all = before + (seq![key] + others);
    let rest = all.subrange(1, all.len() as int);
    if before.len() == 0 {
        assert(all[0] == key);
        assert(rest =~= others);
        lemma_no_packages(others);
    } else {
        let t = before.subrange(1, before.len() as int);
        assert(all[0] == before[0]);
        assert(rest =~= t + (seq![key] + others));
        if begins_section(before[0]) {
            law_other_sections_list_nothing(
                t,
                key,
                others,
                text::trimmed(before[0]) == "packages:"@,
            );
        } else {
            law_other_sections_list_nothing(t, key, others, in_packages);
        }
    }
}

proof fn lemma_no_packages(lines: Seq<Seq<char>>)
    requires
        forall|i: int|
            0 <= i < lines.len() ==> !(begins_section(#[trigger] lines[i]) && text::trimmed(
                lines[i],
            ) == "packages:"@),
    ensures
        yaml_items(lines, false) == Seq::<Seq<char>>::empty(),
    decreases lines.len(),
{
    if lines.len() > 0 {
        let rest = lines.subrange(1, lines.len() as int);
        assert(!(begins_section(lines[0]) && text::trimmed(lines[0]) == "packages:"@));
        assert forall|i: int| 0 <= i < rest.len() implies !(begins_section(#[trigger] rest[i])
            && text::trimmed(rest[i]) == "packages:"@) by {
            assert(rest[i] == lines[i + 1]);
        }
        lemma_no_packages(rest);
    }
}

/// Every member of a workspace knows the root of the workspace; a workspace has a member.
pub proof fn law_members_know_their_root(files: Files)
    ensures
        workspace_of(files) matches WorkspaceInfoV::Multi { kind, members } ==> members.len() > 0
            && forall|i: int|
            0 <= i < members.len() ==> (#[trigger] members[i]).info.workspace_root == Some(
                files.real_path(Seq::empty()),
            ),
        workspace_of(files) matches WorkspaceInfoV::Single(p) ==> p.workspace_root is None,
{
}

// ── what is known of a project ──────────────────────────────────────────────

/// The language of a project is that of the first manifest there is: of Rust, then of
/// TypeScript, then of Python, then of Go.
pub proof fn law_manifests_tell_the_language(files: Files, at: Seq<char>)
    ensures
        ({
            let rust = files.has(files::path_in(at, "Cargo.toml"@));
            let js = files.has(files::path_in(at, "package.json"@));
            let python = files.has(files::path_in(at, "pyproject.toml"@)) || files.has(
                files::path_in(at, "setup.py"@),
            ) || files.has(files::path_in(at, "requirements.txt"@));
            let go = files.has(files::path_in(at, "go.mod"@));
            let r = detected(files, at);
            &&& r.language == Language::Rust <==> rust
            &&& r.language == Language::TypeScript <==> !rust && js
            &&& r.language == Language::Python <==> !rust && !js && python
            &&& r.language == Language::Go <==> !rust && !js && !python && go
            &&& r.language == Language::Unknown <==> !rust && !js && !python && !go
            &&& r.root == files.real_path(at)
            &&& r.workspace_root is None
            &&& r.has_ai_deps <==> r.ai_frameworks.len() > 0
        }),
{
}

/// A project has tests where its language keeps them.
pub proof fn law_where_tests_stand(files: Files, at: Seq<char>)
    ensures
        ({
            let r = detected(files, at);
            &&& r.language == Language::Rust ==> (r.has_tests <==> files.has(
                files::path_in(at, "tests"@),
            ) || files.has(files::path_in(at, "src/lib.rs"@)))
            &&& r.language == Language::TypeScript ==> (r.has_tests <==> files.has(
                files::path_in(at, "tests"@),
            ) || files.has(files::path_in(at, "__tests__"@)) || files.has(
                files::path_in(at, "src/__tests__"@),
            ) || files.has(files::path_in(at, "e2e"@)) || files.has(
                files::path_in(at, "playwright.config.ts"@),
            ) || files.has(files::path_in(at, "playwright.config.js"@)))
            &&& r.language == Language::Python ==> (r.has_tests <==> files.has(
                files::path_in(at, "tests"@),
            ) || files.has(files::path_in(at, "test"@)) || files.has(
                files::path_in(at, "tests.py"@),
            ))
            &&& r.language == Language::Go ==> (r.has_tests <==> some_ends(
                files.entries@,
                at,
                "_test.go"@,
            ))
            &&& r.language == Language::Unknown ==> !r.has_tests
            &&& r.is_nextjs <==> r.language == Language::TypeScript && (files.has(
                files::path_in(at, "next.config.js"@),
            ) || files.has(files::path_in(at, "next.config.ts"@)) || files.has(
                files::path_in(at, "next.config.mjs"@),
            ) || text::has(files.content(files::path_in(at, "package.json"@)), "\"next\""@))
        }),
{
}

/// The files directly in a directory are looked at by the end of their name: those that are
/// deeper, and directories, are not.
pub proof fn law_files_by_their_end(
    entries: Seq<files::Entry>,
    at: Seq<char>,
    front: Seq<char>,
    suffix: Seq<char>,
    i: int,
)
    requires
        0 <= i < entries.len(),
        !front.contains('/') && !suffix.contains('/'),
        front.len() + suffix.len() > 0,
        !entries[i].dir,
        entries[i].path@ == files::path_in(at, front + suffix),
    ensures
        some_ends(entries, at, suffix),
{
    let e = entries[i];
    let name = front + suffix;
    reveal_strlit("/");
    let lead = if at.len() == 0 {
        at
    } else {
        at + "/"@
    };
    assert(e.path@ =~= lead + name);
    assert(e.path@.subrange(0, lead.len() as int) =~= lead);
    assert(e.path@.subrange(lead.len() as int, e.path@.len() as int) =~= name);
    assert(name.subrange(front.len() as int, name.len() as int) =~= suffix);
    if name.contains('/') {
        let k = choose|k: int| 0 <= k < name.len() && name[k] == '/';
        if k < front.len() {
            assert(front[k] == '/');
        } else {
            assert(suffix[k - front.len()] == '/');
        }
    }
    assert(is_file_with_suffix(entries[i], at, suffix));
}

/// The frameworks that are named, in the order of the list, are those whose dependency
/// occurs in the manifest.
pub proof fn law_frameworks_occur(content: Seq<char>, registry: Seq<(Seq<char>, Seq<char>)>)
    ensures
        frameworks_in(content, registry) == registry.filter(
            |p: (Seq<char>, Seq<char>)| text::has(content, p.0),
        ).map_values(|p: (Seq<char>, Seq<char>)| p.1),
        frameworks_in(content, registry).len() > 0 <==> exists|i: int|
            0 <= i < registry.len() && text::has(content, (#[trigger] registry[i]).0),
    decreases registry.len(),
{
    reveal(Seq::filter);
    let f = |p: (Seq<char>, Seq<char>)| text::has(content, p.0);
    let g = |p: (Seq<char>, Seq<char>)| p.1;
    if registry.len() > 0 {
        let front = registry.drop_last();
        law_frameworks_occur(content, front);
        assert(registry.last() == registry[registry.len() - 1]);
        if exists|i: int| 0 <= i < registry.len() && text::has(content, (#[trigger] registry[i]).0) {
            let i = choose|i: int|
                0 <= i < registry.len() && text::has(content, (#[trigger] registry[i]).0);
            if i < front.len() {
                assert(text::has(content, front[i].0));
            }
        }
        if exists|i: int| 0 <= i < front.len() && text::has(content, (#[trigger] front[i]).0) {
            let i = choose|i: int| 0 <= i < front.len() && text::has(content, (#[trigger] front[i]).0);
            assert(text::has(content, registry[i].0));
        }
        assert(frameworks_in(content, registry) =~= registry.filter(f).map_values(g));
    } else {
        assert(registry.filter(f).map_values(g) =~= Seq::empty());
    }
}

/// A project uses AI libraries exactly where its manifest names one: the manifest of its
/// language, for Python also the list of requirements.
pub proof fn law_ai_projects_name_a_library(files: Files, at: Seq<char>)
    ensures
        ({
            let r = detected(files, at);
            let c = files.content(files::path_in(at, "Cargo.toml"@));
            let j = files.content(files::path_in(at, "package.json"@));
            let p = files.content(files::path_in(at, "pyproject.toml"@)) + "\n"@ + files.content(
                files::path_in(at, "requirements.txt"@),
            );
            let g = files.content(files::path_in(at, "go.mod"@));
            &&& r.language == Language::Rust ==> (r.has_ai_deps <==> text::has(c, "async-openai"@)
                || text::has(c, "anthropic"@) || text::has(c, "langchain-rust"@) || text::has(
                c,
                "rig-core"@,
            ) || text::has(c, "llm"@))
            &&& r.language == Language::TypeScript ==> (r.has_ai_deps <==> text::has(j, "openai"@)
                || text::has(j, "@anthropic-ai"@) || text::has(j, "langchain"@) || text::has(
                j,
                "@langchain"@,
            ) || text::has(j, "llamaindex"@) || text::has(j, "@google/generative-ai"@)
                || text::has(j, "cohere-ai"@) || text::has(j, "@mistralai"@) || text::has(j, "ai"@)
                || text::has(j, "@vercel/ai"@) || text::has(j, "groq-sdk"@) || text::has(
                j,
                "together-ai"@,
            ))
            &&& r.language == Language::Python ==> (r.has_ai_deps <==> text::has(p, "openai"@)
                || text::has(p, "anthropic"@) || text::has(p, "langchain"@) || text::has(
                p,
                "langchain-openai"@,
            ) || text::has(p, "llama-index"@) || text::has(p, "llama_index"@) || text::has(
                p,
                "google-generativeai"@,
            ) || text::has(p, "cohere"@) || text::has(p, "mistralai"@) || text::has(p, "groq"@)
                || text::has(p, "together"@) || text::has(p, "transformers"@) || text::has(
                p,
                "sentence-transformers"@,
            ) || text::has(p, "tiktoken"@) || text::has(p, "litellm"@) || text::has(
                p,
                "instructor"@,
            ) || text::has(p, "dspy"@) || text::has(p, "crewai"@) || text::has(p, "autogen"@))
            &&& r.language == Language::Go ==> (r.has_ai_deps <==> text::has(
                g,
                "github.com/sashabaranov/go-openai"@,
            ) || text::has(g, "github.com/tmc/langchaingo"@) || text::has(
                g,
                "github.com/anthropics/anthropic-sdk-go"@,
            ))
            &&& r.language == Language::Unknown ==> !r.has_ai_deps
        }),
{
    let c = files.content(files::path_in(at, "Cargo.toml"@));
    let j = files.content(files::path_in(at, "package.json"@));
    let p = files.content(files::path_in(at, "pyproject.toml"@)) + "\n"@ + files.content(
        files::path_in(at, "requirements.txt"@),
    );
    let g = files.content(files::path_in(at, "go.mod"@));
    lemma_rust_ai(c);
    lemma_js_ai(j);
    lemma_python_ai(p);
    lemma_go_ai(g);
}

proof fn lemma_rust_ai(c: Seq<char>)
    ensures
        frameworks_in(c, rust_ai_deps()).len() > 0 <==> text::has(c, "async-openai"@) || text::has(c, "anthropic"@) || text::has(c, "langchain-rust"@) || text::has(c, "rig-core"@) || text::has(c, "llm"@),
{
    let r = rust_ai_deps();
    law_frameworks_occur(c, r);
    assert(r[0].0 == "async-openai"@);
    assert(r[1].0 == "anthropic"@);
    assert(r[2].0 == "langchain-rust"@);
    assert(r[3].0 == "rig-core"@);
    assert(r[4].0 == "llm"@);
}

proof fn lemma_js_ai(c: Seq<char>)
    ensures
        frameworks_in(c, js_ai_deps()).len() > 0 <==> text::has(c, "openai"@) || text::has(c, "@anthropic-ai"@) || text::has(c, "langchain"@) || text::has(c, "@langchain"@) || text::has(c, "llamaindex"@) || text::has(c, "@google/generative-ai"@) || text::has(c, "cohere-ai"@) || text::has(c, "@mistralai"@) || text::has(c, "ai"@) || text::has(c, "@vercel/ai"@) || text::has(c, "groq-sdk"@) || text::has(c, "together-ai"@),
{
    let r = js_ai_deps();
    law_frameworks_occur(c, r);
    assert(r[0].0 == "openai"@);
    assert(r[1].0 == "@anthropic-ai"@);
    assert(r[2].0 == "langchain"@);
    assert(r[3].0 == "@langchain"@);
    assert(r[4].0 == "llamaindex"@);
    assert(r[5].0 == "@google/generative-ai"@);
    assert(r[6].0 == "cohere-ai"@);
    assert(r[7].0 == "@mistralai"@);
    assert(r[8].0 == "ai"@);
    assert(r[9].0 == "@vercel/ai"@);
    assert(r[10].0 == "groq-sdk"@);
    assert(r[11].0 == "together-ai"@);
}

proof fn lemma_python_ai(c: Seq<char>)
    ensures
        frameworks_in(c, python_ai_deps()).len() > 0 <==> text::has(c, "openai"@) || text::has(c, "anthropic"@) || text::has(c, "langchain"@) || text::has(c, "langchain-openai"@) || text::has(c, "llama-index"@) || text::has(c, "llama_index"@) || text::has(c, "google-generativeai"@) || text::has(c, "cohere"@) || text::has(c, "mistralai"@) || text::has(c, "groq"@) || text::has(c, "together"@) || text::has(c, "transformers"@) || text::has(c, "sentence-transformers"@) || text::has(c, "tiktoken"@) || text::has(c, "litellm"@) || text::has(c, "instructor"@) || text::has(c, "dspy"@) || text::has(c, "crewai"@) || text::has(c, "autogen"@),
{
    let r = python_ai_deps();
    law_frameworks_occur(c, r);
    assert(r[0].0 == "openai"@);
    assert(r[1].0 == "anthropic"@);
    assert(r[2].0 == "langchain"@);
    assert(r[3].0 == "langchain-openai"@);
    assert(r[4].0 == "llama-index"@);
    assert(r[5].0 == "llama_index"@);
    assert(r[6].0 == "google-generativeai"@);
    assert(r[7].0 == "cohere"@);
    assert(r[8].0 == "mistralai"@);
    assert(r[9].0 == "groq"@);
    assert(r[10].0 == "together"@);
    assert(r[11].0 == "transformers"@);
    assert(r[12].0 == "sentence-transformers"@);
    assert(r[13].0 == "tiktoken"@);
    assert(r[14].0 == "litellm"@);
    assert(r[15].0 == "instructor"@);
    assert(r[16].0 == "dspy"@);
    assert(r[17].0 == "crewai"@);
    assert(r[18].0 == "autogen"@);
}

proof fn lemma_go_ai(c: Seq<char>)
    ensures
        frameworks_in(c, go_ai_deps()).len() > 0 <==> text::has(c, "github.com/sashabaranov/go-openai"@) || text::has(c, "github.com/tmc/langchaingo"@) || text::has(c, "github.com/anthropics/anthropic-sdk-go"@),
{
    let r = go_ai_deps();
    law_frameworks_occur(c, r);
    assert(r[0].0 == "github.com/sashabaranov/go-openai"@);
    assert(r[1].0 == "github.com/tmc/langchaingo"@);
    assert(r[2].0 == "github.com/anthropics/anthropic-sdk-go"@);
}

// ── members of a workspace ──────────────────────────────────────────────────

/// Whether some pattern lets `path` in and none that begins with `!` keeps it out. A pattern
/// that ends in `/*` stands for the directories in it.
pub open spec fn is_listed(files: Files, patterns: Seq<Seq<char>>, path: Seq<char>) -> bool {
    &&& exists|i: int|
        0 <= i < patterns.len() && !is_exclusion(#[trigger] patterns[i]) && candidates(
            files,
            patterns[i],
        ).contains(path)
    &&& forall|i: int|
        0 <= i < patterns.len() && is_exclusion(#[trigger] patterns[i]) ==> !js_excludes(
            patterns[i].subrange(1, patterns[i].len() as int),
            path,
        )
}

pub open spec fn is_exclusion(pattern: Seq<char>) -> bool {
    pattern.len() > 0 && pattern[0] == '!'
}

proof fn lemma_exclusion(p: Seq<char>)
    ensures
        is_exclusion(p) <==> text::without_front(p, "!"@) is Some,
        is_exclusion(p) ==> text::without_front(p, "!"@) == Some(p.subrange(1, p.len() as int)),
{
    reveal_strlit("!");
    if is_exclusion(p) {
        assert(p.subrange(0, 1) =~= "!"@);
    }
    if text::begins(p, "!"@) {
        assert(p[0] == p.subrange(0, 1)[0]);
    }
}

/// The patterns that begin with `!` keep directories out, the others let them in.
pub proof fn law_exclamation_marks_exclude(patterns: Seq<Seq<char>>)
    ensures
        includes_in(patterns) == patterns.filter(
            |p: Seq<char>| !(p.len() > 0 && p[0] == '!'),
        ),
        excludes_in(patterns) == patterns.filter(
            |p: Seq<char>| p.len() > 0 && p[0] == '!',
        ).map_values(|p: Seq<char>| p.subrange(1, p.len() as int)),
    decreases patterns.len(),
{
    reveal(Seq::filter);
    let f = |p: Seq<char>| p.len() > 0 && p[0] == '!';
    let g = |p: Seq<char>| p.subrange(1, p.len() as int);
    if patterns.len() > 0 {
        law_exclamation_marks_exclude(patterns.drop_last());
        lemma_exclusion(patterns.last());
        assert(excludes_in(patterns) =~= patterns.filter(f).map_values(g));
    } else {
        assert(patterns.filter(f).map_values(g) =~= Seq::empty());
    }
}

/// A pattern that ends in `/*` stands for the directories directly in the one before it; any
/// other for itself, where it is a directory.
pub proof fn law_what_a_pattern_stands_for(
    files: Files,
    dir: Seq<char>,
    name: Seq<char>,
    pattern: Seq<char>,
)
    ensures
        candidates(files, dir + "/*"@).contains(dir + "/"@ + name) <==> files.subdirs(dir).contains(
            name,
        ),
        candidates(files, dir + "/*"@).len() == files.subdirs(dir).len(),
        pattern.len() == 0 || pattern.last() != '*' ==> (candidates(files, pattern) == (
        if files.has_dir(pattern) {
            seq![pattern]
        } else {
            Seq::<Seq<char>>::empty()
        })),
{
    reveal_strlit("/*");
    let q = dir + "/*"@;
    assert(q.subrange(q.len() - 2, q.len() as int) =~= "/*"@);
    assert(q.subrange(0, q.len() - 2) =~= dir);
    let v = files.subdirs(dir);
    let c = candidates(files, q);
    if v.contains(name) {
        let i = choose|i: int| 0 <= i < v.len() && v[i] == name;
        assert(c[i] == dir + "/"@ + name);
    }
    if c.contains(dir + "/"@ + name) {
        let i = choose|i: int| 0 <= i < c.len() && c[i] == dir + "/"@ + name;
        let lead = dir + "/"@;
        assert(c[i] == lead + v[i]);
        assert(c[i].subrange(lead.len() as int, c[i].len() as int) =~= v[i]);
        assert((lead + name).subrange(lead.len() as int, (lead + name).len() as int) =~= name);
    }
    if text::ends(pattern, "/*"@) {
        assert(pattern.subrange(pattern.len() - 2, pattern.len() as int)[1] == pattern.last());
    }
}

/// An exclusion that ends in `/*` keeps out all that stands in the directory before it; any
/// other only the directory of that name. An exclusion of Cargo's that ends so keeps out the
/// directory of that very name too.
pub proof fn law_what_an_exclusion_keeps_out(
    dir: Seq<char>,
    rest: Seq<char>,
    pattern: Seq<char>,
    path: Seq<char>,
)
    ensures
        js_excludes(dir + "/*"@, dir + "/"@ + rest),
        cargo_excludes(dir + "/*"@, dir + "/"@ + rest),
        js_excludes(dir + "/*"@, path) ==> path.len() > dir.len() && path.subrange(
            0,
            dir.len() as int,
        ) == dir && path[dir.len() as int] == '/',
        pattern.len() == 0 || pattern.last() != '*' ==> (js_excludes(pattern, path) <==> path
            == pattern) && (cargo_excludes(pattern, path) <==> path == pattern),
        cargo_excludes(pattern, pattern),
{
    reveal_strlit("/*");
    reveal_strlit("/");
    let q = dir + "/*"@;
    let lead = dir + "/"@;
    assert(q.subrange(q.len() - 2, q.len() as int) =~= "/*"@);
    assert(q.subrange(0, q.len() - 2) =~= dir);
    assert((lead + rest).subrange(0, lead.len() as int) =~= lead);
    if text::begins(path, lead) {
        assert(path.subrange(0, dir.len() as int) =~= path.subrange(0, lead.len() as int).subrange(
            0,
            dir.len() as int,
        ));
        assert(lead.subrange(0, dir.len() as int) =~= dir);
        assert(path[dir.len() as int] == path.subrange(0, lead.len() as int)[dir.len() as int]);
    }
    if text::ends(pattern, "/*"@) {
        assert(pattern.subrange(pattern.len() - 2, pattern.len() as int)[1] == pattern.last());
    }
}

/// Each member stands for the project in its directory.
pub open spec fn are_detected(files: Files, members: Seq<MemberV>) -> bool {
    forall|i: int|
        0 <= i < members.len() ==> (#[trigger] members[i]).info == detected(files, members[i].path)
}

proof fn lemma_pushed(members: Seq<MemberV>, m: MemberV, path: Seq<char>)
    ensures
        has_member(members.push(m), path) <==> has_member(members, path) || m.path == path,
{
    let all = members.push(m);
    if has_member(members, path) {
        let i = choose|i: int| 0 <= i < members.len() && (#[trigger] members[i]).path == path;
        assert(all[i].path == path);
    }
    if m.path == path {
        assert(all[members.len() as int].path == path);
    }
    if has_member(all, path) {
        let i = choose|i: int| 0 <= i < all.len() && (#[trigger] all[i]).path == path;
        if i < members.len() {
            assert(members[i].path == path);
        }
    }
}

proof fn lemma_last_or_before(paths: Seq<Seq<char>>, path: Seq<char>)
    requires
        paths.len() > 0,
    ensures
        paths.contains(path) <==> paths.drop_last().contains(path) || paths.last() == path,
{
    let front = paths.drop_last();
    assert(paths[paths.len() - 1] == paths.last());
    if paths.contains(path) {
        let i = choose|i: int| 0 <= i < paths.len() && paths[i] == path;
        if i < front.len() {
            assert(front[i] == path);
        }
    }
    if front.contains(path) {
        let i = choose|i: int| 0 <= i < front.len() && front[i] == path;
        assert(paths[i] == path);
    }
}

proof fn lemma_detected_pushed(files: Files, members: Seq<MemberV>, m: MemberV)
    requires
        are_detected(files, members),
        m.info == detected(files, m.path),
    ensures
        are_detected(files, members.push(m)),
{
    let all = members.push(m);
    assert forall|i: int| 0 <= i < all.len() implies (#[trigger] all[i]).info == detected(
        files,
        all[i].path,
    ) by {
        if i < members.len() {
            assert(all[i] == members[i]);
        }
    }
}

proof fn lemma_members_added(
    files: Files,
    members: Seq<MemberV>,
    paths: Seq<Seq<char>>,
    keep: spec_fn(Seq<char>) -> bool,
    path: Seq<char>,
)
    requires
        are_detected(files, members),
    ensures
        has_member(with_members(files, members, paths, keep), path) <==> has_member(members, path)
            || (paths.contains(path) && keep(path)),
        are_detected(files, with_members(files, members, paths, keep)),
    decreases paths.len(),
{
    if paths.len() > 0 {
        let last = paths.last();
        lemma_members_added(files, members, paths.drop_last(), keep, path);
        lemma_last_or_before(paths, path);
        let before = with_members(files, members, paths.drop_last(), keep);
        let m = MemberV { path: last, info: detected(files, last) };
        if keep(last) && !has_member(before, last) {
            lemma_pushed(before, m, path);
            lemma_detected_pushed(files, before, m);
        }
    }
}

/// The members that patterns list are the directories that some pattern lets in and none
/// keeps out, each with the project in it.
pub proof fn law_patterns_list_members(files: Files, patterns: Seq<Seq<char>>, path: Seq<char>)
    ensures
        has_member(js_members(files, patterns), path) <==> is_listed(files, patterns, path),
        are_detected(files, js_members(files, patterns)),
        distinct_paths(js_members(files, patterns)),
{
    let inc = includes_in(patterns);
    let exc = excludes_in(patterns);
    law_js_members_distinct_and_kept(files, inc, exc);
    lemma_js_members(files, inc, exc, path);
    lemma_in_and_out(files, patterns, path);
}

proof fn lemma_js_members(
    files: Files,
    inc: Seq<Seq<char>>,
    exc: Seq<Seq<char>>,
    path: Seq<char>,
)
    ensures
        has_member(js_members_of(files, inc, exc), path) <==> js_keeps(exc, path) && exists|i: int|
            0 <= i < inc.len() && candidates(files, #[trigger] inc[i]).contains(path),
        are_detected(files, js_members_of(files, inc, exc)),
    decreases inc.len(),
{
    if inc.len() > 0 {
        let front = inc.drop_last();
        lemma_js_members(files, front, exc, path);
        lemma_members_added(
            files,
            js_members_of(files, front, exc),
            candidates(files, inc.last()),
            |p: Seq<char>| js_keeps(exc, p),
            path,
        );
        assert(inc[inc.len() - 1] == inc.last());
        if exists|i: int| 0 <= i < front.len() && candidates(files, #[trigger] front[i]).contains(path) {
            let i = choose|i: int|
                0 <= i < front.len() && candidates(files, #[trigger] front[i]).contains(path);
            assert(inc[i] == front[i]);
        }
        if exists|i: int| 0 <= i < inc.len() && candidates(files, #[trigger] inc[i]).contains(path) {
            let i = choose|i: int|
                0 <= i < inc.len() && candidates(files, #[trigger] inc[i]).contains(path);
            if i < front.len() {
                assert(inc[i] == front[i]);
            }
        }
    }
}

proof fn lemma_in_and_out(files: Files, patterns: Seq<Seq<char>>, path: Seq<char>)
    ensures
        is_listed(files, patterns, path) <==> js_keeps(excludes_in(patterns), path) && exists|i: int|
            0 <= i < includes_in(patterns).len() && candidates(
                files,
                #[trigger] includes_in(patterns)[i],
            ).contains(path),
    decreases patterns.len(),
{
    let inc = includes_in(patterns);
    let exc = excludes_in(patterns);
    lemma_includes(patterns);
    if is_listed(files, patterns, path) {
        let i = choose|i: int|
            0 <= i < patterns.len() && !is_exclusion(#[trigger] patterns[i]) && candidates(
                files,
                patterns[i],
            ).contains(path);
        assert(inc.contains(patterns[i]));
        let k = choose|k: int| 0 <= k < inc.len() && inc[k] == patterns[i];
        assert(candidates(files, inc[k]).contains(path));
        assert forall|k: int| 0 <= k < exc.len() implies !js_excludes(#[trigger] exc[k], path) by {
            assert(exc.contains(exc[k]));
            let i = choose|i: int|
                0 <= i < patterns.len() && is_exclusion(#[trigger] patterns[i])
                    && patterns[i].subrange(1, patterns[i].len() as int) == exc[k];
            assert(is_exclusion(patterns[i]));
        }
    }
    if js_keeps(exc, path) && exists|i: int|
        0 <= i < inc.len() && candidates(files, #[trigger] inc[i]).contains(path) {
        let k = choose|k: int| 0 <= k < inc.len() && candidates(files, #[trigger] inc[k]).contains(path);
        assert(inc.contains(inc[k]));
        let i = choose|i: int|
            0 <= i < patterns.len() && !is_exclusion(#[trigger] patterns[i]) && patterns[i] == inc[k];
        assert(!is_exclusion(patterns[i]));
        assert forall|i: int|
            0 <= i < patterns.len() && is_exclusion(#[trigger] patterns[i]) implies !js_excludes(
            patterns[i].subrange(1, patterns[i].len() as int),
            path,
        ) by {
            let e = patterns[i].subrange(1, patterns[i].len() as int);
            assert(exc.contains(e));
            let k = choose|k: int| 0 <= k < exc.len() && exc[k] == e;
            assert(!js_excludes(exc[k], path));
        }
    }
}

proof fn lemma_includes(patterns: Seq<Seq<char>>)
    ensures
        forall|p: Seq<char>|
            #![trigger includes_in(patterns).contains(p)]
            includes_in(patterns).contains(p) <==> exists|i: int|
                0 <= i < patterns.len() && !is_exclusion(#[trigger] patterns[i]) && patterns[i] == p,
        forall|e: Seq<char>|
            #![trigger excludes_in(patterns).contains(e)]
            excludes_in(patterns).contains(e) <==> exists|i: int|
                0 <= i < patterns.len() && is_exclusion(#[trigger] patterns[i])
                    && patterns[i].subrange(1, patterns[i].len() as int) == e,
    decreases patterns.len(),
{
    if patterns.len() > 0 {
        let front = patterns.drop_last();
        let last = patterns.last();
        lemma_includes(front);
        lemma_exclusion(last);
        let (inc, exc) = (includes_in(patterns), excludes_in(patterns));
        let (inc0, exc0) = (includes_in(front), excludes_in(front));
        assert(patterns[patterns.len() - 1] == last);
        assert forall|i: int| 0 <= i < front.len() implies #[trigger] patterns[i] == front[i] by {}
        assert forall|p: Seq<char>|
            #![trigger inc.contains(p)]
            inc.contains(p) <==> exists|i: int|
                0 <= i < patterns.len() && !is_exclusion(#[trigger] patterns[i]) && patterns[i]
                    == p by {
            if inc.contains(p) {
                let k = choose|k: int| 0 <= k < inc.len() && inc[k] == p;
                if k < inc0.len() {
                    assert(inc0[k] == p);
                    assert(inc0.contains(p));
                    let i = choose|i: int|
                        0 <= i < front.len() && !is_exclusion(#[trigger] front[i]) && front[i] == p;
                    assert(!is_exclusion(patterns[i]));
                } else {
                    assert(!is_exclusion(patterns[patterns.len() - 1]));
                }
            }
            if exists|i: int|
                0 <= i < patterns.len() && !is_exclusion(#[trigger] patterns[i]) && patterns[i] == p {
                let i = choose|i: int|
                    0 <= i < patterns.len() && !is_exclusion(#[trigger] patterns[i]) && patterns[i]
                        == p;
                if i < front.len() {
                    assert(!is_exclusion(front[i]));
                    assert(inc0.contains(p));
                    let k = choose|k: int| 0 <= k < inc0.len() && inc0[k] == p;
                    assert(inc[k] == p);
                } else {
                    assert(inc[inc.len() - 1] == p);
                }
            }
        }
        assert forall|e: Seq<char>|
            #![trigger exc.contains(e)]
            exc.contains(e) <==> exists|i: int|
                0 <= i < patterns.len() && is_exclusion(#[trigger] patterns[i])
                    && patterns[i].subrange(1, patterns[i].len() as int) == e by {
            if exc.contains(e) {
                let k = choose|k: int| 0 <= k < exc.len() && exc[k] == e;
                if k < exc0.len() {
                    assert(exc0[k] == e);
                    assert(exc0.contains(e));
                    let i = choose|i: int|
                        0 <= i < front.len() && is_exclusion(#[trigger] front[i])
                            && front[i].subrange(1, front[i].len() as int) == e;
                    assert(is_exclusion(patterns[i]));
                } else {
                    assert(is_exclusion(patterns[patterns.len() - 1]));
                }
            }
            if exists|i: int|
                0 <= i < patterns.len() && is_exclusion(#[trigger] patterns[i])
                    && patterns[i].subrange(1, patterns[i].len() as int) == e {
                let i = choose|i: int|
                    0 <= i < patterns.len() && is_exclusion(#[trigger] patterns[i])
                        && patterns[i].subrange(1, patterns[i].len() as int) == e;
                if i < front.len() {
                    assert(is_exclusion(front[i]));
                    assert(exc0.contains(e));
                    let k = choose|k: int| 0 <= k < exc0.len() && exc0[k] == e;
                    assert(exc[k] == e);
                } else {
                    assert(exc[exc.len() - 1] == e);
                }
            }
        }
    }
}

/// The members of a Cargo workspace are the directories that a pattern lets in and no
/// exclusion keeps out, and the root where it is a package; each with the project in it.
pub proof fn law_cargo_lists_members(
    files: Files,
    doc: data::DataV,
    w: data::DataV,
    path: Seq<char>,
)
    requires
        doc.field("workspace"@) == Some(w),
    ensures
        path != "."@ ==> (has_member(cargo_members(files, doc), path) <==> cargo_keeps(
            texts_at(w, "exclude"@),
            path,
        ) && exists|i: int|
            0 <= i < texts_at(w, "members"@).len() && cargo_candidates(
                files,
                #[trigger] texts_at(w, "members"@)[i],
            ).contains(path)),
        doc.field("package"@) is Some ==> has_member(cargo_members(files, doc), "."@),
        distinct_paths(cargo_members(files, doc)),
{
    let inc = texts_at(w, "members"@);
    let exc = texts_at(w, "exclude"@);
    law_cargo_members_distinct_and_kept(files, doc);
    lemma_cargo_members(files, inc, exc, path);
    let listed = cargo_members_of(files, inc, exc);
    let all = cargo_members(files, doc);
    if doc.field("package"@) is Some && !has_member(listed, "."@) {
        assert(all[listed.len() as int].path == "."@);
        if has_member(listed, path) {
            let i = choose|i: int| 0 <= i < listed.len() && (#[trigger] listed[i]).path == path;
            assert(all[i].path == path);
        }
        if has_member(all, path) && path != "."@ {
            let i = choose|i: int| 0 <= i < all.len() && (#[trigger] all[i]).path == path;
            assert(i < listed.len());
            assert(listed[i].path == path);
        }
    }
}

proof fn lemma_cargo_members(
    files: Files,
    inc: Seq<Seq<char>>,
    exc: Seq<Seq<char>>,
    path: Seq<char>,
)
    ensures
        has_member(cargo_members_of(files, inc, exc), path) <==> cargo_keeps(exc, path)
            && exists|i: int|
            0 <= i < inc.len() && cargo_candidates(files, #[trigger] inc[i]).contains(path),
        are_detected(files, cargo_members_of(files, inc, exc)),
    decreases inc.len(),
{
    if inc.len() > 0 {
        let front = inc.drop_last();
        lemma_cargo_members(files, front, exc, path);
        lemma_members_added(
            files,
            cargo_members_of(files, front, exc),
            cargo_candidates(files, inc.last()),
            |p: Seq<char>| cargo_keeps(exc, p),
            path,
        );
        assert(inc[inc.len() - 1] == inc.last());
        if exists|i: int|
            0 <= i < front.len() && cargo_candidates(files, #[trigger] front[i]).contains(path) {
            let i = choose|i: int|
                0 <= i < front.len() && cargo_candidates(files, #[trigger] front[i]).contains(path);
            assert(inc[i] == front[i]);
        }
        if exists|i: int|
            0 <= i < inc.len() && cargo_candidates(files, #[trigger] inc[i]).contains(path) {
            let i = choose|i: int|
                0 <= i < inc.len() && cargo_candidates(files, #[trigger] inc[i]).contains(path);
            if i < front.len() {
                assert(inc[i] == front[i]);
            }
        }
    }
}

/// Workspaces of Cargo come before those of pnpm, these before those of npm, and these before
/// those of lerna; a workspace of npm with a `turbo.json` is one of Turborepo. Where none
/// has members the whole is one project.
pub proof fn law_which_workspace_it_is(files: Files)
    ensures
        ({
            let cargo = files.has("Cargo.toml"@) && text::has(
                files.content("Cargo.toml"@),
                "[workspace]"@,
            ) && cargo_members_in(files, files.content("Cargo.toml"@)).len() > 0;
            let pnpm = files.has("pnpm-workspace.yaml"@) && js_members(
                files,
                yaml_items(text::lines_of(files.content("pnpm-workspace.yaml"@)), false),
            ).len() > 0;
            let npm = files.has("package.json"@) && text::has(
                files.content("package.json"@),
                "\"workspaces\""@,
            ) && npm_members(files, files.content("package.json"@)).len() > 0;
            let lerna = files.has("lerna.json"@) && lerna_members(
                files,
                files.content("lerna.json"@),
            ).len() > 0;
            let w = workspace_of(files);
            &&& w matches WorkspaceInfoV::Multi { kind, .. } ==> (kind == WorkspaceKind::Cargo
                <==> cargo) && (kind == WorkspaceKind::Pnpm <==> !cargo && pnpm) && (kind
                == WorkspaceKind::Turbo <==> !cargo && !pnpm && npm && files.has("turbo.json"@))
                && (kind == WorkspaceKind::Npm <==> !cargo && !pnpm && npm && !files.has(
                "turbo.json"@,
            )) && (kind == WorkspaceKind::Lerna <==> !cargo && !pnpm && !npm && lerna)
            &&& w is Single <==> !cargo && !pnpm && !npm && !lerna
            &&& w matches WorkspaceInfoV::Single(p) ==> p == detected(files, Seq::empty())
        }),
{
}

/// The packages of npm stand in the list at `workspaces`, or in the list at `packages` in it;
/// those of lerna in the list at `packages`.
pub proof fn law_where_patterns_stand(doc: data::DataV, w: data::DataV, l: Seq<data::DataV>)
    ensures
        doc.field("workspaces"@) == Some(data::DataV::List(l)) ==> npm_patterns(doc)
            == data::texts_from(l),
        doc.field("workspaces"@) == Some(w) && w.as_list() is None && w.field("packages"@) == Some(
            data::DataV::List(l),
        ) ==> npm_patterns(doc) == data::texts_from(l),
        doc.field("workspaces"@) is None ==> npm_patterns(doc).len() == 0,
        doc.field("packages"@) == Some(data::DataV::List(l)) ==> lerna_patterns(doc)
            == data::texts_from(l),
        doc.field("packages"@) is None ==> lerna_patterns(doc).len() == 0,
{
}

/// A workspace gives its root to its members and leaves all else of them as it is.
pub proof fn law_root_is_stamped(members: Seq<MemberV>, root: Seq<char>, i: int)
    requires
        0 <= i < members.len(),
    ensures
        stamped(members, root).len() == members.len(),
        stamped(members, root)[i].path == members[i].path,
        stamped(members, root)[i].info.workspace_root == Some(root),
        stamped(members, root)[i].info.language == members[i].info.language,
        stamped(members, root)[i].info.root == members[i].info.root,
        stamped(members, root)[i].info.has_tests == members[i].info.has_tests,
        stamped(members, root)[i].info.package_name == members[i].info.package_name,
        stamped(members, root)[i].info.is_nextjs == members[i].info.is_nextjs,
        stamped(members, root)[i].info.ai_frameworks == members[i].info.ai_frameworks,
        stamped(members, root)[i].info.has_ai_deps == members[i].info.has_ai_deps,
{
}

/// The words for languages and for kinds of workspaces.
pub proof fn law_words_for_languages()
    ensures
        Language::Rust.text() == "rust"@ && Language::TypeScript.text() == "typescript"@,
        Language::Python.text() == "python"@ && Language::Go.text() == "go"@,
        Language::Unknown.text() == "unknown"@,
        WorkspaceKind::Cargo.text() == "cargo"@ && WorkspaceKind::Pnpm.text() == "pnpm"@,
        WorkspaceKind::Npm.text() == "npm"@ && WorkspaceKind::Lerna.text() == "lerna"@,
        WorkspaceKind::Turbo.text() == "turbo"@,
{
}

// ── names and lists in files ────────────────────────────────────────────────

/// A line that begins with `name` gives, of a manifest of Rust and of Python, the text in
/// quotes behind the `=`; a line that does not gives none.
pub proof fn law_name_lines_give_the_name(name: Seq<char>, other: Seq<char>)
    requires
        name.len() > 0,
        text::lacks(name, '='),
        name[0] != '"' && name[0] != '\'',
        name.last() != '"' && name.last() != '\'',
    ensures
        cargo_name_line("name = \""@ + name + "\""@) == Some(name),
        python_name_line("name = \""@ + name + "\""@) == Some(name),
        !text::begins(text::trimmed(other), "name"@) ==> cargo_name_line(other) is None
            && python_name_line(other) is None,
{
    reveal_strlit("name = \"");
    reveal_strlit("\"");
    reveal_strlit("name");
    let line = "name = \""@ + name + "\""@;
    let n = line.len() as int;
    let quoted = seq!['"'] + name + seq!['"'];
    assert(line[0] == 'n' && line[4] == ' ' && line[5] == '=' && line[6] == ' ' && line[n - 1]
        == '"');
    text::law_spaces_are_taken_off(line);
    assert(line.subrange(0, 4) =~= "name"@);
    text::lemma_before_len_is(line, '=', 5);
    let value = text::after(line, '=');
    assert(value =~= seq![' '] + quoted);
    assert forall|i: int| 0 <= i < value.len() implies value[i] != '=' by {
        if 2 <= i < value.len() - 1 {
            assert(value[i] == name[i - 2]);
        }
    }
    text::lemma_before_len_is(value, '=', value.len() as int);
    assert(text::before(value, '=') =~= value);
    text::law_spaces_are_taken_off(quoted);
    text::law_quotes_are_taken_off(name, '"');
    text::law_quotes_are_taken_off(name, '\'');
}

/// The name of a Python project is read back from its manifest.
pub proof fn law_python_name_reads_back(name: Seq<char>)
    requires
        name.len() > 0,
        text::lacks(name, '=') && text::lacks(name, '\n'),
        name[0] != '"' && name[0] != '\'',
        name.last() != '"' && name.last() != '\'',
    ensures
        python_name_in(
            text::with_feeds(seq!["[project]"@, "name = \""@ + name + "\""@]),
        ) == Some(name),
{
    reveal_strlit("[project]");
    reveal_strlit("name = \"");
    reveal_strlit("\"");
    reveal_strlit("name");
    let line = "name = \""@ + name + "\""@;
    let lines = seq!["[project]"@, line];
    assert(text::lacks(lines[0], '\n'));
    assert forall|i: int| 0 <= i < line.len() implies #[trigger] line[i] != '\n' by {
        if 8 <= i < line.len() - 1 {
            assert(line[i] == name[i - 8]);
        }
    }
    assert(text::lacks(lines[1], '\n') && line.last() == '"');
    text::law_lines_read_back(lines);
    law_name_lines_give_the_name(name, "[project]"@);
    text::law_spaces_are_taken_off("[project]"@);
    assert("[project]"@.subrange(0, 4)[0] == '[');
    let f = |l: Seq<char>| python_name_line(l);
    assert(f("[project]"@) is None && f(line) == Some(name));
    let front = seq!["[project]"@];
    text::law_first_line_counts(front, line, Seq::empty(), f);
    assert(front + seq![line] + Seq::<Seq<char>>::empty() =~= lines);
}

/// The name of a Go project is the last part of the path that its `module` line gives.
pub proof fn law_go_name_is_the_last_part(path: Seq<char>, name: Seq<char>)
    requires
        name.len() > 0 && text::lacks(name, '/'),
        !text::is_space(name[0]) && !text::is_space(name.last()),
        path.len() > 0 && !text::is_space(path[0]),
    ensures
        go_name_line("module "@ + name) == Some(name),
        go_name_line("module "@ + (path + seq!['/'] + name)) == Some(name),
{
    reveal_strlit("module ");
    lemma_go_line(name);
    lemma_go_line(path + seq!['/'] + name);
    text::lemma_before_len_is(name, '/', name.len() as int);
    text::law_split_of_both_sides(path, name, '/');
    assert(text::pieces(name, '/') =~= seq![name]);
    let all = text::pieces(path, '/') + seq![name];
    assert(all.last() == name);
}

proof fn lemma_go_line(path: Seq<char>)
    requires
        path.len() > 0,
        !text::is_space(path[0]) && !text::is_space(path.last()),
    ensures
        go_name_line("module "@ + path) == Some(text::pieces(path, '/').last()),
{
    reveal_strlit("module ");
    let line = "module "@ + path;
    assert(line[0] == 'm' && line.last() == path.last());
    text::law_spaces_are_taken_off(line);
    assert(line.subrange(0, 7) =~= "module "@);
    assert(line.subrange(7, line.len() as int) =~= path);
    text::law_spaces_are_taken_off(path);
}

/// A text that stands at the first field of an object in JSON is read back by its name.
pub proof fn law_json_texts_read_back(field: Seq<char>, value: Seq<char>, rest: Seq<char>)
    requires
        field.len() > 0,
        value.len() > 0 && text::lacks(value, '"'),
    ensures
        json_field_in("{\""@ + field + "\": \""@ + value + "\""@ + rest, field) == Some(value),
{
    reveal_strlit("{\"");
    reveal_strlit("\": \"");
    reveal_strlit("\"");
    let json = "{\""@ + field + "\": \""@ + value + "\""@ + rest;
    let search = "\""@ + field + "\""@;
    let n = search.len() as int;
    assert(json.subrange(1, 1 + n) =~= search);
    assert(text::occurs_at(json, search, 1));
    assert(json[0] == '{' && search[0] == '"');
    assert(!text::occurs_at(json, search, 0)) by {
        if text::occurs_at(json, search, 0) {
            assert(json.subrange(0, n)[0] == json[0]);
        }
    }
    text::lemma_find_from(json, search, 0);
    let key = json.subrange(1 + n, json.len() as int);
    let quoted = seq!['"'] + value + seq!['"'] + rest;
    assert(key =~= seq![':', ' '] + quoted);
    text::lemma_before_len_is(key, ':', 0);
    assert(text::after(key, ':') =~= seq![' '] + quoted);
    text::lemma_trim_front_is(seq![' '] + quoted, 1);
    assert((seq![' '] + quoted).subrange(1, (quoted.len() + 1) as int) =~= quoted);
    let inner = quoted.subrange(1, quoted.len() as int);
    assert(inner =~= value + seq!['"'] + rest);
    text::lemma_before_len_is(inner, '"', value.len() as int);
    assert(text::before(inner, '"') =~= value);
}

/// Of `pnpm-workspace.yaml` the items below `packages:` count, each without its dash and its
/// quotes.
pub proof fn law_items_below_packages_count(
    name: Seq<char>,
    rest: Seq<Seq<char>>,
    in_packages: bool,
)
    requires
        name.len() > 0,
        name[0] != '-' && name[0] != '#' && name[0] != '"' && name[0] != '\'',
        name.last() != '"' && name.last() != '\'',
        !text::is_space(name[0]) && !text::is_space(name.last()),
    ensures
        yaml_items(seq!["packages:"@] + rest, in_packages) == yaml_items(rest, true),
        yaml_items(seq!["  - "@ + name] + rest, true) == seq![name] + yaml_items(rest, true),
        yaml_items(seq!["  - \""@ + name + "\""@] + rest, true) == seq![name] + yaml_items(
            rest,
            true,
        ),
        yaml_items(seq!["  - '"@ + name + "'"@] + rest, true) == seq![name] + yaml_items(rest, true),
        yaml_items(seq!["  - "@ + name] + rest, false) == yaml_items(rest, false),
{
    reveal_strlit("packages:");
    reveal_strlit(":");
    reveal_strlit("  - ");
    reveal_strlit("  - \"");
    reveal_strlit("\"");
    reveal_strlit("  - '");
    reveal_strlit("'");
    let head = "packages:"@;
    let all = seq![head] + rest;
    assert(all.subrange(1, all.len() as int) =~= rest);
    text::law_spaces_are_taken_off(head);
    assert(head.subrange(8, 9) =~= ":"@);
    assert(begins_section(head));
    let (d, s) = (seq!['"'] + name + seq!['"'], seq!['\''] + name + seq!['\'']);
    text::law_quotes_are_taken_off(name, '"');
    text::law_quotes_are_taken_off(name, '\'');
    text::law_quotes_are_taken_off(s, '"');
    assert("  - "@ + name =~= seq![' ', ' ', '-', ' '] + name);
    assert("  - \""@ + name + "\""@ =~= seq![' ', ' ', '-', ' '] + d);
    assert("  - '"@ + name + "'"@ =~= seq![' ', ' ', '-', ' '] + s);
    lemma_yaml_line(name, rest);
    lemma_yaml_line(d, rest);
    lemma_yaml_line(s, rest);
}

proof fn lemma_yaml_line(item: Seq<char>, rest: Seq<Seq<char>>)
    requires
        item.len() > 0 && item[0] != '-',
        !text::is_space(item[0]) && !text::is_space(item.last()),
    ensures
        ({
            let line = seq![' ', ' ', '-', ' '] + item;
            let name = text::strip_both(text::strip_both(item, '"'), '\'');
            &&& is_item(name) ==> yaml_items(seq![line] + rest, true) == seq![name] + yaml_items(
                rest,
                true,
            )
            &&& yaml_items(seq![line] + rest, false) == yaml_items(rest, false)
        }),
{
    let line = seq![' ', ' ', '-', ' '] + item;
    let all = seq![line] + rest;
    assert(all.subrange(1, all.len() as int) =~= rest);
    assert(all[0] == line && line[0] == ' ');
    assert(!begins_section(line));
    let t = seq!['-', ' '] + item;
    assert(t[0] == '-' && t[1] == ' ' && t.last() == item.last());
    assert(line =~= seq![' ', ' '] + t);
    text::law_spaces_are_taken_off(t);
    text::lemma_strip_front_is(t, '-', 1);
    assert(t.subrange(1, t.len() as int) =~= seq![' '] + item);
    text::law_spaces_are_taken_off(item);
}

/// The texts in quotes on a line are read off one by one.
pub proof fn law_quoted_texts_are_read_off(front: Seq<char>, name: Seq<char>, rest: Seq<char>)
    requires
        text::lacks(front, '"') && text::lacks(name, '"'),
    ensures
        quoted(front + seq!['"'] + name + seq!['"'] + rest) == seq![name] + quoted(rest),
        quoted(front).len() == 0,
{
    let s = front + seq!['"'] + name + seq!['"'] + rest;
    text::lemma_before_len_is(s, '"', front.len() as int);
    let t = text::after(s, '"');
    assert(t =~= name + seq!['"'] + rest);
    text::lemma_before_len_is(t, '"', name.len() as int);
    assert(text::before(t, '"') =~= name);
    assert(text::after(t, '"') =~= rest);
    text::lemma_before_len_is(front, '"', front.len() as int);
}

/// In a manifest of Rust that cannot be read, the members are the texts in quotes from the
/// line that begins with `members` and holds a `=` up to the one that holds a `]`.
pub proof fn law_members_are_scanned(line: Seq<char>, rest: Seq<Seq<char>>)
    ensures
        ({
            let t = text::trimmed(line);
            let all = seq![line] + rest;
            &&& !(text::begins(t, "members"@) && t.contains('=')) ==> scanned(all, false) == scanned(
                rest,
                false,
            )
            &&& text::begins(t, "members"@) && t.contains('=') && t.contains(']') ==> scanned(
                all,
                false,
            ) == quoted(t)
            &&& text::begins(t, "members"@) && t.contains('=') && !t.contains(']') ==> scanned(
                all,
                false,
            ) == quoted(t) + scanned(rest, true)
            &&& t.contains(']') ==> scanned(all, true) == quoted(t)
            &&& !t.contains(']') ==> scanned(all, true) == quoted(t) + scanned(rest, true)
        }),
{
    let all = seq![line] + rest;
    assert(all.subrange(1, all.len() as int) =~= rest);
    assert(all[0] == line);
}

/// A pattern of Cargo's without a star stands for itself, where it is a directory.
pub proof fn law_cargo_patterns_without_star(files: Files, pattern: Seq<char>)
    requires
        text::lacks(pattern, '*'),
    ensures
        files.has_dir(pattern) ==> cargo_candidates(files, pattern) == seq![pattern],
        !files.has_dir(pattern) ==> cargo_candidates(files, pattern).len() == 0,
{
    if pattern.contains('*') {
        let i = choose|i: int| 0 <= i < pattern.len() && pattern[i] == '*';
        assert(pattern[i] != '*');
    }
}

/// A pattern of Cargo's that ends in `/*` stands for the directories directly in the one
/// before it.
pub proof fn law_cargo_patterns_with_star(files: Files, dir: Seq<char>)
    requires
        dir.len() > 0 && text::lacks(dir, '\n'),
        dir[0] != '-' && dir[0] != '#' && dir[0] != '"' && dir[0] != '\'' && !text::is_space(dir[0]),
    ensures
        cargo_candidates(files, dir + "/*"@) == files.subdirs(dir).map_values(
            |name: Seq<char>| dir + "/"@ + name,
        ),
{
    reveal_strlit("/*");
    reveal_strlit("- ");
    let p = dir + "/*"@;
    assert(p[p.len() - 1] == '*' && p[0] == dir[0] && p.last() == '*');
    let line = "- "@ + p;
    assert(line[0] == '-' && line[1] == ' ' && line.last() == '*');
    assert forall|i: int| 0 <= i < line.len() implies line[i] != '\n' by {
        if 2 <= i < dir.len() + 2 {
            assert(line[i] == dir[i - 2]);
        }
    }
    text::lemma_before_len_is(line, '\n', line.len() as int);
    assert(text::lines_of(line) =~= seq![line]);
    text::law_spaces_are_taken_off(line);
    text::lemma_strip_front_is(line, '-', 1);
    assert(line.subrange(1, line.len() as int) =~= seq![' '] + p);
    text::law_spaces_are_taken_off(p);
    text::law_quotes_are_taken_off(p, '"');
    text::law_quotes_are_taken_off(p, '\'');
    let lines = seq![line];
    assert(lines.drop_last() =~= Seq::<Seq<char>>::empty());
    assert(lines.last() == line);
    assert(yaml_item(line) == p && is_item(p));
    reveal_with_fuel(listed_paths, 2);
    assert(listed_paths(files, lines) =~= candidates(files, p));
    assert(p.subrange(p.len() - 2, p.len() as int) =~= "/*"@);
    assert(p.subrange(0, p.len() - 2) =~= dir);
}

/// The names of the AI libraries of a Rust project.
pub proof fn law_names_of_rust_libraries(c: Seq<char>)
    ensures
        text::has(c, "async-openai"@) ==> frameworks_in(c, rust_ai_deps()).contains("async-openai"@),
        text::has(c, "anthropic"@) ==> frameworks_in(c, rust_ai_deps()).contains("Anthropic SDK"@),
        text::has(c, "langchain-rust"@) ==> frameworks_in(c, rust_ai_deps()).contains("LangChain Rust"@),
        text::has(c, "rig-core"@) ==> frameworks_in(c, rust_ai_deps()).contains("Rig"@),
        text::has(c, "llm"@) ==> frameworks_in(c, rust_ai_deps()).contains("LLM crate"@),
{
    let r = rust_ai_deps();
    assert(r[0] == ("async-openai"@, "async-openai"@));
    assert(r[1] == ("anthropic"@, "Anthropic SDK"@));
    assert(r[2] == ("langchain-rust"@, "LangChain Rust"@));
    assert(r[3] == ("rig-core"@, "Rig"@));
    assert(r[4] == ("llm"@, "LLM crate"@));
    lemma_framework_listed(c, r, 0);
    lemma_framework_listed(c, r, 1);
    lemma_framework_listed(c, r, 2);
    lemma_framework_listed(c, r, 3);
    lemma_framework_listed(c, r, 4);
}

/// The names of the AI libraries of a TypeScript project.
pub proof fn law_names_of_js_libraries(c: Seq<char>)
    ensures
        text::has(c, "openai"@) ==> frameworks_in(c, js_ai_deps()).contains("OpenAI SDK"@),
        text::has(c, "@anthropic-ai"@) ==> frameworks_in(c, js_ai_deps()).contains("Anthropic SDK"@),
        text::has(c, "langchain"@) ==> frameworks_in(c, js_ai_deps()).contains("LangChain"@),
        text::has(c, "@langchain"@) ==> frameworks_in(c, js_ai_deps()).contains("LangChain"@),
        text::has(c, "llamaindex"@) ==> frameworks_in(c, js_ai_deps()).contains("LlamaIndex"@),
        text::has(c, "@google/generative-ai"@) ==> frameworks_in(c, js_ai_deps()).contains("Google Generative AI"@),
        text::has(c, "cohere-ai"@) ==> frameworks_in(c, js_ai_deps()).contains("Cohere"@),
        text::has(c, "@mistralai"@) ==> frameworks_in(c, js_ai_deps()).contains("Mistral AI"@),
        text::has(c, "ai"@) ==> frameworks_in(c, js_ai_deps()).contains("Vercel AI SDK"@),
        text::has(c, "@vercel/ai"@) ==> frameworks_in(c, js_ai_deps()).contains("Vercel AI SDK"@),
        text::has(c, "groq-sdk"@) ==> frameworks_in(c, js_ai_deps()).contains("Groq"@),
        text::has(c, "together-ai"@) ==> frameworks_in(c, js_ai_deps()).contains("Together AI"@),
{
    let r = js_ai_deps();
    assert(r[0] == ("openai"@, "OpenAI SDK"@));
    assert(r[1] == ("@anthropic-ai"@, "Anthropic SDK"@));
    assert(r[2] == ("langchain"@, "LangChain"@));
    assert(r[3] == ("@langchain"@, "LangChain"@));
    assert(r[4] == ("llamaindex"@, "LlamaIndex"@));
    assert(r[5] == ("@google/generative-ai"@, "Google Generative AI"@));
    assert(r[6] == ("cohere-ai"@, "Cohere"@));
    assert(r[7] == ("@mistralai"@, "Mistral AI"@));
    assert(r[8] == ("ai"@, "Vercel AI SDK"@));
    assert(r[9] == ("@vercel/ai"@, "Vercel AI SDK"@));
    assert(r[10] == ("groq-sdk"@, "Groq"@));
    assert(r[11] == ("together-ai"@, "Together AI"@));
    lemma_framework_listed(c, r, 0);
    lemma_framework_listed(c, r, 1);
    lemma_framework_listed(c, r, 2);
    lemma_framework_listed(c, r, 3);
    lemma_framework_listed(c, r, 4);
    lemma_framework_listed(c, r, 5);
    lemma_framework_listed(c, r, 6);
    lemma_framework_listed(c, r, 7);
    lemma_framework_listed(c, r, 8);
    lemma_framework_listed(c, r, 9);
    lemma_framework_listed(c, r, 10);
    lemma_framework_listed(c, r, 11);
}

/// The names of the AI libraries of a Python project.
pub proof fn law_names_of_python_libraries(c: Seq<char>)
    ensures
        text::has(c, "openai"@) ==> frameworks_in(c, python_ai_deps()).contains("OpenAI SDK"@),
        text::has(c, "anthropic"@) ==> frameworks_in(c, python_ai_deps()).contains("Anthropic SDK"@),
        text::has(c, "langchain"@) ==> frameworks_in(c, python_ai_deps()).contains("LangChain"@),
        text::has(c, "langchain-openai"@) ==> frameworks_in(c, python_ai_deps()).contains("LangChain OpenAI"@),
        text::has(c, "llama-index"@) ==> frameworks_in(c, python_ai_deps()).contains("LlamaIndex"@),
        text::has(c, "llama_index"@) ==> frameworks_in(c, python_ai_deps()).contains("LlamaIndex"@),
        text::has(c, "google-generativeai"@) ==> frameworks_in(c, python_ai_deps()).contains("Google Generative AI"@),
        text::has(c, "cohere"@) ==> frameworks_in(c, python_ai_deps()).contains("Cohere"@),
        text::has(c, "mistralai"@) ==> frameworks_in(c, python_ai_deps()).contains("Mistral AI"@),
        text::has(c, "groq"@) ==> frameworks_in(c, python_ai_deps()).contains("Groq"@),
        text::has(c, "together"@) ==> frameworks_in(c, python_ai_deps()).contains("Together AI"@),
        text::has(c, "transformers"@) ==> frameworks_in(c, python_ai_deps()).contains("HuggingFace Transformers"@),
        text::has(c, "sentence-transformers"@) ==> frameworks_in(c, python_ai_deps()).contains("Sentence Transformers"@),
        text::has(c, "tiktoken"@) ==> frameworks_in(c, python_ai_deps()).contains("tiktoken (OpenAI tokenizer)"@),
        text::has(c, "litellm"@) ==> frameworks_in(c, python_ai_deps()).contains("LiteLLM"@),
        text::has(c, "instructor"@) ==> frameworks_in(c, python_ai_deps()).contains("Instructor"@),
        text::has(c, "dspy"@) ==> frameworks_in(c, python_ai_deps()).contains("DSPy"@),
        text::has(c, "crewai"@) ==> frameworks_in(c, python_ai_deps()).contains("CrewAI"@),
        text::has(c, "autogen"@) ==> frameworks_in(c, python_ai_deps()).contains("AutoGen"@),
{
    let r = python_ai_deps();
    assert(r[0] == ("openai"@, "OpenAI SDK"@));
    assert(r[1] == ("anthropic"@, "Anthropic SDK"@));
    assert(r[2] == ("langchain"@, "LangChain"@));
    assert(r[3] == ("langchain-openai"@, "LangChain OpenAI"@));
    assert(r[4] == ("llama-index"@, "LlamaIndex"@));
    assert(r[5] == ("llama_index"@, "LlamaIndex"@));
    assert(r[6] == ("google-generativeai"@, "Google Generative AI"@));
    assert(r[7] == ("cohere"@, "Cohere"@));
    assert(r[8] == ("mistralai"@, "Mistral AI"@));
    assert(r[9] == ("groq"@, "Groq"@));
    assert(r[10] == ("together"@, "Together AI"@));
    assert(r[11] == ("transformers"@, "HuggingFace Transformers"@));
    assert(r[12] == ("sentence-transformers"@, "Sentence Transformers"@));
    assert(r[13] == ("tiktoken"@, "tiktoken (OpenAI tokenizer)"@));
    assert(r[14] == ("litellm"@, "LiteLLM"@));
    assert(r[15] == ("instructor"@, "Instructor"@));
    assert(r[16] == ("dspy"@, "DSPy"@));
    assert(r[17] == ("crewai"@, "CrewAI"@));
    assert(r[18] == ("autogen"@, "AutoGen"@));
    lemma_framework_listed(c, r, 0);
    lemma_framework_listed(c, r, 1);
    lemma_framework_listed(c, r, 2);
    lemma_framework_listed(c, r, 3);
    lemma_framework_listed(c, r, 4);
    lemma_framework_listed(c, r, 5);
    lemma_framework_listed(c, r, 6);
    lemma_framework_listed(c, r, 7);
    lemma_framework_listed(c, r, 8);
    lemma_framework_listed(c, r, 9);
    lemma_framework_listed(c, r, 10);
    lemma_framework_listed(c, r, 11);
    lemma_framework_listed(c, r, 12);
    lemma_framework_listed(c, r, 13);
    lemma_framework_listed(c, r, 14);
    lemma_framework_listed(c, r, 15);
    lemma_framework_listed(c, r, 16);
    lemma_framework_listed(c, r, 17);
    lemma_framework_listed(c, r, 18);
}

/// The names of the AI libraries of a Go project.
pub proof fn law_names_of_go_libraries(c: Seq<char>)
    ensures
        text::has(c, "github.com/sashabaranov/go-openai"@) ==> frameworks_in(c, go_ai_deps()).contains("go-openai"@),
        text::has(c, "github.com/tmc/langchaingo"@) ==> frameworks_in(c, go_ai_deps()).contains("LangChain Go"@),
        text::has(c, "github.com/anthropics/anthropic-sdk-go"@) ==> frameworks_in(c, go_ai_deps()).contains("Anthropic SDK Go"@),
{
    let r = go_ai_deps();
    assert(r[0] == ("github.com/sashabaranov/go-openai"@, "go-openai"@));
    assert(r[1] == ("github.com/tmc/langchaingo"@, "LangChain Go"@));
    assert(r[2] == ("github.com/anthropics/anthropic-sdk-go"@, "Anthropic SDK Go"@));
    lemma_framework_listed(c, r, 0);
    lemma_framework_listed(c, r, 1);
    lemma_framework_listed(c, r, 2);
}

proof fn lemma_framework_listed(c: Seq<char>, r: Seq<(Seq<char>, Seq<char>)>, i: int)
    requires
        0 <= i < r.len(),
    ensures
        text::has(c, r[i].0) ==> frameworks_in(c, r).contains(r[i].1),
    decreases r.len(),
{
    if text::has(c, r[i].0) {
        let front = r.drop_last();
        let all = frameworks_in(c, r);
        if i < front.len() {
            lemma_framework_listed(c, front, i);
            assert(front[i] == r[i]);
            let before = frameworks_in(c, front);
            let k = choose|k: int| 0 <= k < before.len() && before[k] == r[i].1;
            assert(all[k] == r[i].1);
        } else {
            assert(r.last() == r[i]);
            assert(all[all.len() - 1] == r[i].1);
        }
    }
}

} // verus!
