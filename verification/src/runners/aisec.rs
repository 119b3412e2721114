//! Security of projects that use language models.
//!
//! Looks for keys in the source, user input in prompts, execution of what a model wrote,
//! and answers that are taken without validation.
use vstd::prelude::*;

use crate::data;
use crate::data::{Data, DataV};
use crate::detect::ProjectInfo;
use crate::files;
use crate::files::{Entry, Files};
use crate::plugin::{Layer, TestRunner};
use crate::process;
use crate::process::{ProcessOutput, SubprocessRunner};
use crate::report;
use crate::report::{Finding, FindingV, LayerMetrics, LayerResult, LayerResultV, LayerStatus, Severity};
use crate::runners::parts;
use crate::runners::semgrep;
use crate::text;
use crate::time;

verus! {

#[derive(Debug, Default)]
pub struct AiSecRunner;

pub const SKIP: &'static str = "No AI framework detected — ai-sec scanner only runs when AI dependencies (openai, anthropic, langchain, etc.) are found";

pub const ADVERSARIAL_HINT: &'static str = "Consider adding adversarial prompt tests. Test with inputs like 'Ignore all previous instructions and...' to verify prompt injection resistance.";

pub const REVIEW_HINT: &'static str = "Review the flagged code for AI-specific security risks.";

impl TestRunner for AiSecRunner {
    fn name(&self) -> (r: &'static str)
        ensures
            r@ == "ai-sec"@,
    {
        "ai-sec"
    }

    fn layer(&self) -> (r: Layer)
        ensures
            r == Layer::Hostile,
    {
        Layer::Hostile
    }

    fn skip_message(&self) -> (r: &'static str)
        ensures
            r@ == SKIP@,
    {
        SKIP
    }
}

// ── patterns ────────────────────────────────────────────────────────────────

/// A pattern in the source that tells of a problem.
#[derive(Debug)]
pub struct AiSecPattern {
    pub code: &'static str,
    pub pattern: &'static str,
    pub severity: Severity,
    pub message: &'static str,
    pub suggestion: &'static str,
    pub extensions: Vec<String>,
}

/// The model of an `AiSecPattern`.
pub struct PatternV {
    pub code: Seq<char>,
    pub pattern: Seq<char>,
    pub severity: Severity,
    pub message: Seq<char>,
    pub suggestion: Seq<char>,
    pub extensions: Seq<Seq<char>>,
}

impl View for AiSecPattern {
    type V = PatternV;

    open spec fn view(&self) -> PatternV {
        PatternV {
            code: self.code@,
            pattern: self.pattern@,
            severity: self.severity,
            message: self.message@,
            suggestion: self.suggestion@,
            extensions: text::views(self.extensions@),
        }
    }
}

pub const OPENAI_KEY: &'static str = "Possible hardcoded OpenAI API key (sk- prefix)";

pub const OPENAI_KEY_HINT: &'static str = "Move API keys to environment variables. Use `os.environ['OPENAI_API_KEY']` or dotenv.";

pub const ANTHROPIC_KEY: &'static str = "Possible hardcoded Anthropic API key (sk-ant- prefix)";

pub const ANTHROPIC_KEY_HINT: &'static str = "Move API keys to environment variables. Never commit API keys to source control.";

pub const FSTRING: &'static str = "F-string interpolation in potential prompt — risk of prompt injection";

pub const FSTRING_HINT: &'static str = "Validate and sanitize user input before including it in prompts. Use structured inputs with system/user role separation.";

pub const TEMPLATE: &'static str = "Template literal in potential prompt — risk of prompt injection";

pub const TEMPLATE_HINT: &'static str = "Sanitize user input before template interpolation. Consider using structured message arrays instead of string templates.";

pub const EVAL: &'static str = "`eval()` detected — never execute LLM-generated code without sandboxing";

pub const EVAL_HINT: &'static str = "Never pass LLM output to eval(). Use a safe interpreter or sandbox. LLM output is untrusted user input.";

pub const EXEC: &'static str = "`exec()` detected — executing LLM-generated code is a critical security risk";

pub const EXEC_HINT: &'static str = "Use a sandboxed execution environment (e.g., subprocess with restricted permissions).";

pub const PICKLE: &'static str = "`pickle.loads` detected — deserializing LLM responses via pickle is unsafe";

pub const PICKLE_HINT: &'static str = "Use JSON for LLM response deserialization. Never unpickle untrusted data.";

pub const UNCHECKED: &'static str = "Direct JSON parsing of LLM response without validation";

pub const UNCHECKED_HINT: &'static str = "Always validate LLM JSON responses against a schema (e.g., Pydantic, Zod). LLMs can return malformed or adversarial JSON.";

pub open spec fn pattern_of(
    code: Seq<char>,
    pattern: Seq<char>,
    severity: Severity,
    message: Seq<char>,
    suggestion: Seq<char>,
    extensions: Seq<Seq<char>>,
) -> PatternV {
    PatternV { code, pattern, severity, message, suggestion, extensions }
}

/// The extensions of source files in all languages.
pub open spec fn all_sources() -> Seq<Seq<char>> {
    seq![".py"@, ".ts"@, ".js"@, ".go"@, ".rs"@]
}

/// All patterns, in the order in which a file is searched for them.
pub open spec fn patterns() -> Seq<PatternV> {
    seq![
        pattern_of(
            "HARDCODED_API_KEY"@,
            "sk-"@,
            Severity::Critical,
            OPENAI_KEY@,
            OPENAI_KEY_HINT@,
            all_sources(),
        ),
        pattern_of(
            "HARDCODED_ANTHROPIC_KEY"@,
            "sk-ant-"@,
            Severity::Critical,
            ANTHROPIC_KEY@,
            ANTHROPIC_KEY_HINT@,
            all_sources(),
        ),
        pattern_of(
            "PROMPT_INJECTION_RISK"@,
            "f\""@,
            Severity::High,
            FSTRING@,
            FSTRING_HINT@,
            seq![".py"@],
        ),
        pattern_of(
            "PROMPT_TEMPLATE_INJECTION"@,
            "${"@,
            Severity::High,
            TEMPLATE@,
            TEMPLATE_HINT@,
            seq![".ts"@, ".js"@],
        ),
        pattern_of(
            "EVAL_LLM_OUTPUT"@,
            "eval("@,
            Severity::Critical,
            EVAL@,
            EVAL_HINT@,
            seq![".py"@, ".js"@, ".ts"@],
        ),
        pattern_of(
            "EXEC_LLM_OUTPUT"@,
            "exec("@,
            Severity::Critical,
            EXEC@,
            EXEC_HINT@,
            seq![".py"@],
        ),
        pattern_of(
            "UNSAFE_PICKLE"@,
            "pickle.loads"@,
            Severity::High,
            PICKLE@,
            PICKLE_HINT@,
            seq![".py"@],
        ),
        pattern_of(
            "MISSING_OUTPUT_VALIDATION"@,
            "json.loads(response"@,
            Severity::Medium,
            UNCHECKED@,
            UNCHECKED_HINT@,
            seq![".py"@],
        ),
    ]
}

pub open spec fn patterns_view(v: Seq<AiSecPattern>) -> Seq<PatternV> {
    v.map_values(|p: AiSecPattern| p@)
}

fn new_pattern(
    code: &'static str,
    pattern: &'static str,
    severity: Severity,
    message: &'static str,
    suggestion: &'static str,
    extensions: Vec<String>,
) -> (r: AiSecPattern)
    ensures
        r@ == pattern_of(
            code@,
            pattern@,
            severity,
            message@,
            suggestion@,
            text::views(extensions@),
        ),
{
    AiSecPattern { code, pattern, severity, message, suggestion, extensions }
}

fn sources() -> (r: Vec<String>)
    ensures
        text::views(r@) == all_sources(),
{
    let r = vec![
        ".py".to_string(),
        ".ts".to_string(),
        ".js".to_string(),
        ".go".to_string(),
        ".rs".to_string(),
    ];
    assert(text::views(r@) =~= all_sources());
    r
}

fn python() -> (r: Vec<String>)
    ensures
        text::views(r@) == seq![".py"@],
{
    let r = vec![".py".to_string()];
    assert(text::views(r@) =~= seq![".py"@]);
    r
}

/// All patterns, in the order in which a file is searched for them.
pub fn ai_sec_patterns() -> (r: Vec<AiSecPattern>)
    ensures
        patterns_view(r@) == patterns(),
{
    let scripts = vec![".ts".to_string(), ".js".to_string()];
    assert(text::views(scripts@) =~= seq![".ts"@, ".js"@]);
    let evaluated = vec![".py".to_string(), ".js".to_string(), ".ts".to_string()];
    assert(text::views(evaluated@) =~= seq![".py"@, ".js"@, ".ts"@]);
    let mut r: Vec<AiSecPattern> = Vec::new();
    r.push(
        new_pattern(
            "HARDCODED_API_KEY",
            "sk-",
            Severity::Critical,
            OPENAI_KEY,
            OPENAI_KEY_HINT,
            sources(),
        ),
    );
    r.push(
        new_pattern(
            "HARDCODED_ANTHROPIC_KEY",
            "sk-ant-",
            Severity::Critical,
            ANTHROPIC_KEY,
            ANTHROPIC_KEY_HINT,
            sources(),
        ),
    );
    r.push(
        new_pattern(
            "PROMPT_INJECTION_RISK",
            "f\"",
            Severity::High,
            FSTRING,
            FSTRING_HINT,
            python(),
        ),
    );
    r.push(
        new_pattern(
            "PROMPT_TEMPLATE_INJECTION",
            "${",
            Severity::High,
            TEMPLATE,
            TEMPLATE_HINT,
            scripts,
        ),
    );
    r.push(
        new_pattern("EVAL_LLM_OUTPUT", "eval(", Severity::Critical, EVAL, EVAL_HINT, evaluated),
    );
    r.push(
        new_pattern("EXEC_LLM_OUTPUT", "exec(", Severity::Critical, EXEC, EXEC_HINT, python()),
    );
    r.push(
        new_pattern("UNSAFE_PICKLE", "pickle.loads", Severity::High, PICKLE, PICKLE_HINT, python()),
    );
    r.push(
        new_pattern(
            "MISSING_OUTPUT_VALIDATION",
            "json.loads(response",
            Severity::Medium,
            UNCHECKED,
            UNCHECKED_HINT,
            python(),
        ),
    );
    assert(patterns_view(r@) =~= patterns());
    r
}

// ── scanning ────────────────────────────────────────────────────────────────

/// A line holds a pattern, and is no comment.
pub open spec fn line_matches(line: Seq<char>, p: Seq<char>) -> bool {
    text::has(line, p) && !text::begins(text::trimmed(line), "#"@) && !text::begins(
        text::trimmed(line),
        "//"@,
    )
}

/// The number of the first line that matches, from position `i` on.
pub open spec fn matching_line(lines: Seq<Seq<char>>, p: Seq<char>, i: int) -> Option<int>
    decreases lines.len() - i,
{
    if i < 0 || i >= lines.len() {
        None
    } else if line_matches(lines[i], p) {
        Some(i + 1)
    } else {
        matching_line(lines, p, i + 1)
    }
}

/// The finding for a pattern in a file, if it is there.
pub open spec fn pattern_found(p: PatternV, path: Seq<char>, ext: Seq<char>, content: Seq<char>) -> Option<
    FindingV,
> {
    if !p.extensions.contains(ext) || !text::has(content, p.pattern) {
        None
    } else {
        match matching_line(text::lines_of(content), p.pattern, 0) {
            Some(n) => Some(
                FindingV {
                    severity: p.severity,
                    code: p.code,
                    message: p.message,
                    location: Some(path + ":"@ + text::decimal(n as nat)),
                    reproduce_cmd: Some(
                        "grep -n '"@ + p.pattern + "' "@ + path + " | head -5"@,
                    ),
                    suggestion: Some(p.suggestion),
                },
            ),
            None => None,
        }
    }
}

/// The findings in a file: at most one for each pattern.
pub open spec fn file_found(ps: Seq<PatternV>, path: Seq<char>, ext: Seq<char>, content: Seq<char>) -> Seq<
    FindingV,
>
    decreases ps.len(),
{
    if ps.len() == 0 {
        Seq::empty()
    } else {
        let front = file_found(ps.drop_last(), path, ext, content);
        match pattern_found(ps.last(), path, ext, content) {
            Some(f) => front.push(f),
            None => front,
        }
    }
}

/// The extension of a file with its dot; empty where it has none.
pub open spec fn dotted_extension(path: Seq<char>) -> Seq<char> {
    match files::extension_of(files::name_of(path)) {
        Some(x) => "."@ + x,
        None => Seq::empty(),
    }
}

fn read_extension(path: &str) -> (r: String)
    ensures
        r@ == dotted_extension(path@),
{
    let name = files::file_name(path);
    match files::extension(name.as_str()) {
        Some(x) => text::cat(".", x.as_str()),
        None => String::new(),
    }
}

fn find_line(lines: &Vec<String>, p: &str) -> (r: Option<usize>)
    ensures
        match r {
            Some(n) => matching_line(text::views(lines@), p@, 0) == Some(n as int),
            None => matching_line(text::views(lines@), p@, 0) is None,
        },
{
    let ghost all = text::views(lines@);
    let mut i: usize = 0;
    while i < lines.len()
        invariant
            i <= lines@.len(),
            all == text::views(lines@),
            matching_line(all, p@, i as int) == matching_line(all, p@, 0),
        decreases lines@.len() - i,
    {
        assert(all[i as int] == lines@[i as int]@);
        let line = lines[i].as_str();
        if text::contains(line, p) {
            let t = text::trim(line);
            if !text::starts_with(t.as_str(), "#") && !text::starts_with(t.as_str(), "//") {
                return Some(i + 1);
            }
        }
        i += 1;
    }
    None
}

fn find_pattern(p: &AiSecPattern, path: &str, ext: &str, content: &str) -> (r: Option<Finding>)
    ensures
        match r {
            Some(f) => pattern_found(p@, path@, ext@, content@) == Some(f@),
            None => pattern_found(p@, path@, ext@, content@) is None,
        },
{
    if !text::among(&p.extensions, ext) {
        return None;
    }
    if !text::contains(content, p.pattern) {
        return None;
    }
    let lines = text::lines(content);
    match find_line(&lines, p.pattern) {
        Some(n) => Some(
            Finding {
                severity: p.severity,
                code: p.code.to_string(),
                message: p.message.to_string(),
                location: Some(text::cat3(path, ":", text::number(n as u64).as_str())),
                reproduce_cmd: Some(
                    text::cat5("grep -n '", p.pattern, "' ", path, " | head -5"),
                ),
                suggestion: Some(p.suggestion.to_string()),
            },
        ),
        None => None,
    }
}

/// The findings in a file with a path and a content: at most one for each pattern.
pub fn scan_file(ps: &Vec<AiSecPattern>, path: &str, content: &str) -> (r: Vec<Finding>)
    ensures
        report::findings_view(r@) == file_found(
            patterns_view(ps@),
            path@,
            dotted_extension(path@),
            content@,
        ),
{
    let ext = read_extension(path);
    let ghost all = patterns_view(ps@);
    let mut r = parts::nothing();
    let mut i: usize = 0;
    assert(all.subrange(0, 0) =~= Seq::<PatternV>::empty());
    while i < ps.len()
        invariant
            i <= ps@.len(),
            all == patterns_view(ps@),
            report::findings_view(r@) == file_found(
                all.subrange(0, i as int),
                path@,
                ext@,
                content@,
            ),
        decreases ps@.len() - i,
    {
        proof {
            let next = all.subrange(0, i + 1);
            assert(next.drop_last() =~= all.subrange(0, i as int));
            assert(next.last() == ps@[i as int]@);
        }
        match find_pattern(&ps[i], path, ext.as_str(), content) {
            Some(f) => {
                parts::push_finding(&mut r, f);
            },
            None => {},
        }
        i += 1;
    }
    assert(all.subrange(0, i as int) =~= all);
    r
}

/// A name of files and directories that hold no source of the project.
pub open spec fn is_foreign(name: Seq<char>) -> bool {
    name == "node_modules"@ || name == ".git"@ || name == "target"@ || name == ".venv"@ || name
        == "__pycache__"@ || name == ".barzel"@
}

fn foreign(name: &str) -> (r: bool)
    ensures
        r == is_foreign(name@),
{
    text::same(name, "node_modules") || text::same(name, ".git") || text::same(name, "target")
        || text::same(name, ".venv") || text::same(name, "__pycache__") || text::same(
        name,
        ".barzel",
    )
}

/// Some part of a path is foreign.
pub open spec fn in_foreign(path: Seq<char>) -> bool {
    exists|i: int|
        0 <= i < text::pieces(path, '/').len() && is_foreign(#[trigger] text::pieces(path, '/')[i])
}

fn stands_in_foreign(path: &str) -> (r: bool)
    ensures
        r == in_foreign(path@),
{
    let names = text::split(path, '/');
    let ghost all = text::pieces(path@, '/');
    let mut i: usize = 0;
    while i < names.len()
        invariant
            i <= names@.len(),
            all == text::views(names@),
            all == text::pieces(path@, '/'),
            forall|k: int| 0 <= k < i ==> !is_foreign(#[trigger] all[k]),
        decreases names@.len() - i,
    {
        assert(all[i as int] == names@[i as int]@);
        if foreign(names[i].as_str()) {
            assert(is_foreign(text::pieces(path@, '/')[i as int]));
            return true;
        }
        i += 1;
    }
    false
}

/// The findings in an entry of a project: none in directories, in what cannot be read as
/// text, and in what is not of the project.
pub open spec fn entry_found(e: Entry, root: Seq<char>) -> Seq<FindingV> {
    if e.dir || in_foreign(e.path@) {
        Seq::empty()
    } else {
        match e.text {
            Some(t) => file_found(
                patterns(),
                files::below(root, e.path@),
                dotted_extension(files::below(root, e.path@)),
                t@,
            ),
            None => Seq::empty(),
        }
    }
}

/// The findings in the source of a project.
pub open spec fn source_found(entries: Seq<Entry>, root: Seq<char>) -> Seq<FindingV>
    decreases entries.len(),
{
    if entries.len() == 0 {
        Seq::empty()
    } else {
        source_found(entries.drop_last(), root) + entry_found(entries.last(), root)
    }
}

/// The findings in the source of a project.
pub fn scan_source_patterns(files: &Files, root: &str) -> (r: Vec<Finding>)
    ensures
        report::findings_view(r@) == source_found(files.entries@, root@),
{
    let ps = ai_sec_patterns();
    let ghost all = files.entries@;
    let mut r = parts::nothing();
    let mut i: usize = 0;
    assert(all.subrange(0, 0) =~= Seq::<Entry>::empty());
    while i < files.entries.len()
        invariant
            i <= files.entries@.len(),
            all == files.entries@,
            patterns_view(ps@) == patterns(),
            report::findings_view(r@) == source_found(all.subrange(0, i as int), root@),
        decreases files.entries@.len() - i,
    {
        proof {
            let next = all.subrange(0, i + 1);
            assert(next.drop_last() =~= all.subrange(0, i as int));
            assert(next.last() == files.entries@[i as int]);
        }
        let ghost before = report::findings_view(r@);
        let e = &files.entries[i];
        assert(before + Seq::<FindingV>::empty() =~= before);
        if !e.dir && !stands_in_foreign(e.path.as_str()) {
            match &e.text {
                Some(t) => {
                    let path = files::join_below(root, e.path.as_str());
                    parts::append_findings(&mut r, scan_file(&ps, path.as_str(), t.as_str()));
                },
                None => {},
            }
        }
        i += 1;
    }
    assert(all.subrange(0, i as int) =~= all);
    r
}

// ── Semgrep ─────────────────────────────────────────────────────────────────

/// The severity that a level in upper case stands for.
pub open spec fn level_severity(level: Seq<char>) -> Severity {
    if level == "ERROR"@ {
        Severity::Critical
    } else if level == "WARNING"@ {
        Severity::High
    } else {
        Severity::Medium
    }
}

pub fn severity_of_level(level: &str) -> (r: Severity)
    ensures
        r == level_severity(level@),
{
    if text::same(level, "ERROR") {
        Severity::Critical
    } else if text::same(level, "WARNING") {
        Severity::High
    } else {
        Severity::Medium
    }
}

/// The finding for a result of Semgrep.
pub open spec fn result_found(item: DataV) -> FindingV {
    let code = item.text_or("check_id"@, "AI_SEC"@);
    FindingV {
        severity: match semgrep::extra_text(item, "severity"@) {
            Some(s) => level_severity(text::uppercase(s)),
            None => Severity::Medium,
        },
        code,
        message: match semgrep::extra_text(item, "message"@) {
            Some(s) => s,
            None => "AI security issue"@,
        },
        location: semgrep::place_of(item),
        reproduce_cmd: match item.text_at("path"@) {
            Some(p) => Some("semgrep --config="@ + code + " "@ + p + " 2>&1 | head -20"@),
            None => None,
        },
        suggestion: Some(REVIEW_HINT@),
    }
}

pub open spec fn results_found(items: Seq<DataV>) -> Seq<FindingV> {
    items.map_values(|d: DataV| result_found(d))
}

/// The findings in a report of Semgrep; none where the document is no report.
pub open spec fn semgrep_found(doc: Option<DataV>) -> Seq<FindingV> {
    match doc {
        Some(d) => match d.list_at("results"@) {
            Some(items) => results_found(items),
            None => Seq::empty(),
        },
        None => Seq::empty(),
    }
}

fn read_result(item: &Data) -> (r: Finding)
    ensures
        r@ == result_found(item@),
{
    let code = item.str_or("check_id", "AI_SEC");
    Finding {
        severity: match semgrep::read_extra(item, "severity") {
            Some(s) => severity_of_level(s.as_str().to_uppercase().as_str()),
            None => Severity::Medium,
        },
        message: match semgrep::read_extra(item, "message") {
            Some(s) => s,
            None => "AI security issue".to_string(),
        },
        location: semgrep::read_place(item),
        reproduce_cmd: match item.get_str("path") {
            Some(p) => Some(
                text::cat5("semgrep --config=", code.as_str(), " ", p, " 2>&1 | head -20"),
            ),
            None => None,
        },
        suggestion: Some(REVIEW_HINT.to_string()),
        code,
    }
}

/// The findings in a report of Semgrep.
pub fn read_report(doc: &Data) -> (r: Vec<Finding>)
    ensures
        report::findings_view(r@) == semgrep_found(Some(doc@)),
{
    let mut r = parts::nothing();
    let items = match doc.get_array("results") {
        Some(v) => v,
        None => {
            return r;
        },
    };
    let ghost all = data::trees(items@);
    let mut i: usize = 0;
    assert(results_found(all.subrange(0, 0)) =~= Seq::<FindingV>::empty());
    while i < items.len()
        invariant
            i <= items@.len(),
            all == data::trees(items@),
            report::findings_view(r@) == results_found(all.subrange(0, i as int)),
        decreases items@.len() - i,
    {
        assert(all[i as int] == items@[i as int]@);
        let f = read_result(&items[i]);
        assert(results_found(all.subrange(0, i + 1)) =~= results_found(
            all.subrange(0, i as int),
        ).push(f@));
        parts::push_finding(&mut r, f);
        i += 1;
    }
    assert(all.subrange(0, i as int) =~= all);
    r
}

/// The findings in the output of Semgrep.
pub fn parse_semgrep_for_ai(stdout: &str) -> (r: Vec<Finding>)
    ensures
        report::findings_view(r@) == semgrep_found(data::json_parsed(stdout@)),
{
    match data::parse_json(stdout) {
        Some(doc) => read_report(&doc),
        None => parts::nothing(),
    }
}

// ── the result ──────────────────────────────────────────────────────────────

/// Two findings are the same problem: same code, same place.
pub open spec fn same_problem(a: FindingV, b: FindingV) -> bool {
    a.code == b.code && a.location == b.location
}

/// The findings without those that are the same problem as the last one that was kept.
pub open spec fn deduplicated(v: Seq<FindingV>) -> Seq<FindingV>
    decreases v.len(),
{
    if v.len() == 0 {
        Seq::empty()
    } else {
        let front = deduplicated(v.drop_last());
        if front.len() > 0 && same_problem(v.last(), front.last()) {
            front
        } else {
            front.push(v.last())
        }
    }
}

fn same_location(a: &Option<String>, b: &Option<String>) -> (r: bool)
    ensures
        r == (text::opt_view(*a) == text::opt_view(*b)),
{
    match (a, b) {
        (Some(x), Some(y)) => text::same(x.as_str(), y.as_str()),
        (None, None) => true,
        _ => false,
    }
}

fn deduplicate(v: Vec<Finding>) -> (r: Vec<Finding>)
    ensures
        report::findings_view(r@) == deduplicated(report::findings_view(v@)),
{
    let ghost all = report::findings_view(v@);
    let mut r = parts::nothing();
    let mut i: usize = 0;
    assert(all.subrange(0, 0) =~= Seq::<FindingV>::empty());
    while i < v.len()
        invariant
            i <= v@.len(),
            all == report::findings_view(v@),
            report::findings_view(r@) == deduplicated(all.subrange(0, i as int)),
        decreases v@.len() - i,
    {
        proof {
            let next = all.subrange(0, i + 1);
            assert(next.drop_last() =~= all.subrange(0, i as int));
            assert(next.last() == v@[i as int]@);
            assert(report::findings_view(r@).len() == r@.len());
        }
        let mut again = false;
        if r.len() > 0 {
            let last = &r[r.len() - 1];
            assert(report::findings_view(r@).last() == last@);
            again = text::same(v[i].code.as_str(), last.code.as_str()) && same_location(
                &v[i].location,
                &last.location,
            );
        }
        if !again {
            parts::push_finding(&mut r, v[i].clone());
        }
        i += 1;
    }
    assert(all.subrange(0, i as int) =~= all);
    r
}

/// No two findings that follow each other are the same problem.
pub proof fn law_neighbours_differ(v: Seq<FindingV>)
    ensures
        forall|i: int|
            0 <= i < deduplicated(v).len() - 1 ==> !same_problem(
                #[trigger] deduplicated(v)[i],
                deduplicated(v)[i + 1],
            ),
    decreases v.len(),
{
    if v.len() > 0 {
        law_neighbours_differ(v.drop_last());
        let front = deduplicated(v.drop_last());
        assert forall|i: int| 0 <= i < deduplicated(v).len() - 1 implies !same_problem(
            #[trigger] deduplicated(v)[i],
            deduplicated(v)[i + 1],
        ) by {
            if i < front.len() - 1 {
                assert(!same_problem(front[i], front[i + 1]));
            }
        }
    }
}

pub open spec fn passed(project: ProjectInfo) -> FindingV {
    parts::found(
        Severity::Info,
        "AI_SEC_PASSED"@,
        "No AI security issues detected in "@ + project.language.text()
            + " project. AI frameworks: "@ + text::joined(
            text::views(project.frameworks.ai_frameworks@),
            ", "@,
        ),
        None,
        Some(ADVERSARIAL_HINT@),
    )
}

/// The result with these findings of Semgrep and of the scan of the source.
pub open spec fn scanned(
    project: ProjectInfo,
    by_semgrep: Seq<FindingV>,
    by_scan: Seq<FindingV>,
    duration_ms: u64,
) -> LayerResultV {
    let v = parts::or_passed(deduplicated(by_semgrep + by_scan), passed(project));
    parts::result_of(
        Layer::Hostile,
        "ai-sec"@,
        parts::scan_status(v),
        v,
        report::no_metrics(),
        duration_ms,
    )
}

/// The result with these findings of Semgrep and of the scan of the source.
pub fn report_scan(
    project: &ProjectInfo,
    by_semgrep: Vec<Finding>,
    by_scan: Vec<Finding>,
    duration_ms: u64,
) -> (r: LayerResult)
    ensures
        r@ == scanned(
            *project,
            report::findings_view(by_semgrep@),
            report::findings_view(by_scan@),
            duration_ms,
        ),
{
    let mut all = by_semgrep;
    parts::append_findings(&mut all, by_scan);
    let kept = deduplicate(all);
    let message = text::cat4(
        "No AI security issues detected in ",
        project.language.as_str(),
        " project. AI frameworks: ",
        text::join(&project.frameworks.ai_frameworks, ", ").as_str(),
    );
    let findings = parts::or_else(
        kept,
        parts::finding(
            Severity::Info,
            "AI_SEC_PASSED",
            message.as_str(),
            None,
            Some(ADVERSARIAL_HINT),
        ),
    );
    let status = parts::status_of_scan(&findings);
    parts::layer_result(
        Layer::Hostile,
        "ai-sec",
        status,
        findings,
        LayerMetrics::none(),
        duration_ms,
    )
}

pub open spec fn version_args() -> Seq<Seq<char>> {
    seq!["--version"@]
}

pub open spec fn secrets_args() -> Seq<Seq<char>> {
    seq!["--json"@, "--quiet"@, "--config=p/secrets"@, "."@]
}

/// What Semgrep found, where it is installed and ran.
pub open spec fn found_by_semgrep(installed: bool, outcome: Result<ProcessOutput, String>) -> Seq<FindingV> {
    match outcome {
        Ok(out) => if installed {
            semgrep_found(data::json_parsed(out.stdout@))
        } else {
            Seq::empty()
        },
        Err(_) => Seq::empty(),
    }
}

/// `r` is the result of outcomes that asking for Semgrep, and then running it where it is
/// installed, can have.
pub open spec fn is_run<P: SubprocessRunner>(
    before: P,
    after: P,
    project: ProjectInfo,
    files: Files,
    r: LayerResultV,
) -> bool {
    exists|mid: P, installed: bool, o: Result<ProcessOutput, String>, ms: u64| #[trigger]
        process::is_probed(before, "semgrep"@, version_args(), installed, mid) && (if installed {
            mid.answers("semgrep"@, secrets_args(), project.root@, o, after)
        } else {
            after == mid
        }) && r
            == #[trigger] scanned(
            project,
            found_by_semgrep(installed, o),
            source_found(files.entries@, project.root@),
            ms,
        )
}

impl AiSecRunner {
    pub fn is_available(&self, project: &ProjectInfo) -> (r: bool)
        ensures
            r == project.frameworks.has_ai_deps,
    {
        project.frameworks.has_ai_deps
    }

    pub fn run<P: SubprocessRunner>(&self, proc: &mut P, project: &ProjectInfo, files: &Files) -> (r: LayerResult)
        ensures
            is_run(*old(proc), *final(proc), *project, *files, r@),
    {
        let start = time::started();
        let root = project.root.as_str();
        let args = vec!["--version".to_string()];
        assert(text::views(args@) =~= version_args());
        let installed = proc.is_available("semgrep", &args);
        let ghost mid = *proc;
        assert(process::is_probed(*old(proc), "semgrep"@, version_args(), installed, mid));
        let mut by_semgrep = parts::nothing();
        let ghost mut outcome: Result<ProcessOutput, String> = Err(project.root);
        if installed {
            let args = vec![
                "--json".to_string(),
                "--quiet".to_string(),
                "--config=p/secrets".to_string(),
                ".".to_string(),
            ];
            assert(text::views(args@) =~= secrets_args());
            let ran = proc.run("semgrep", &args, root);
            proof {
                outcome = ran;
            }
            match &ran {
                Ok(out) => {
                    by_semgrep = parse_semgrep_for_ai(out.stdout.as_str());
                },
                Err(_) => {},
            }
        }
        assert(report::findings_view(by_semgrep@) == found_by_semgrep(installed, outcome));
        let by_scan = scan_source_patterns(files, root);
        let ms = time::elapsed_ms(&start);
        let r = report_scan(project, by_semgrep, by_scan, ms);
        assert(r@ == scanned(
            *project,
            found_by_semgrep(installed, outcome),
            source_found(files.entries@, project.root@),
            ms,
        ));
        r
    }
}

// ── laws ────────────────────────────────────────────────────────────────────

/// A line with the pattern that is no comment, and in no line before it.
pub open spec fn is_first_match(lines: Seq<Seq<char>>, p: Seq<char>, n: int) -> bool {
    0 <= n < lines.len() && is_suspect(lines[n], p) && forall|k: int|
        0 <= k < n ==> !is_suspect(#[trigger] lines[k], p)
}

/// The line holds the pattern and is no comment.
pub open spec fn is_suspect(line: Seq<char>, p: Seq<char>) -> bool {
    text::has(line, p) && !text::begins(text::trimmed(line), "#"@) && !text::begins(
        text::trimmed(line),
        "//"@,
    )
}

proof fn lemma_matching_line(lines: Seq<Seq<char>>, p: Seq<char>, i: int)
    requires
        0 <= i <= lines.len(),
    ensures
        match matching_line(lines, p, i) {
            Some(n) => i < n <= lines.len() && is_suspect(lines[n - 1], p) && forall|k: int|
                i <= k < n - 1 ==> !is_suspect(#[trigger] lines[k], p),
            None => forall|k: int| i <= k < lines.len() ==> !is_suspect(#[trigger] lines[k], p),
        },
    decreases lines.len() - i,
{
    if i < lines.len() && !line_matches(lines[i], p) {
        lemma_matching_line(lines, p, i + 1);
        assert(!is_suspect(lines[i], p));
    }
}

/// In a file of an extension that a pattern is for, the first line that holds the pattern
/// and is no comment gives a finding, with that line as its place; without such a line,
/// and in files of other extensions, there is none.
pub proof fn law_first_suspect_line_is_found(
    p: PatternV,
    path: Seq<char>,
    ext: Seq<char>,
    content: Seq<char>,
    n: int,
)
    requires
        text::has(content, p.pattern),
    ensures
        p.extensions.contains(ext) && is_first_match(text::lines_of(content), p.pattern, n)
            ==> (pattern_found(p, path, ext, content) matches Some(f) && f.severity == p.severity
            && f.code == p.code && f.message == p.message && f.location == Some(
            path + ":"@ + text::decimal((n + 1) as nat),
        )),
        !p.extensions.contains(ext) ==> pattern_found(p, path, ext, content) is None,
        (forall|k: int|
            0 <= k < text::lines_of(content).len() ==> !is_suspect(
                #[trigger] text::lines_of(content)[k],
                p.pattern,
            )) ==> pattern_found(p, path, ext, content) is None,
{
    let lines = text::lines_of(content);
    lemma_matching_line(lines, p.pattern, 0);
    match matching_line(lines, p.pattern, 0) {
        Some(m) => {
            if is_first_match(lines, p.pattern, n) {
                if m - 1 < n {
                    assert(!is_suspect(lines[m - 1], p.pattern));
                }
                if n < m - 1 {
                    assert(!is_suspect(lines[n], p.pattern));
                }
            }
        },
        None => {
            if is_first_match(lines, p.pattern, n) {
                assert(!is_suspect(lines[n], p.pattern));
            }
        },
    }
}

/// Every pattern is looked for in a file, in order.
pub proof fn law_every_pattern_is_looked_for(
    ps: Seq<PatternV>,
    p: PatternV,
    path: Seq<char>,
    ext: Seq<char>,
    content: Seq<char>,
)
    ensures
        file_found(Seq::empty(), path, ext, content) == Seq::<FindingV>::empty(),
        file_found(ps.push(p), path, ext, content) == (match pattern_found(p, path, ext, content) {
            Some(f) => file_found(ps, path, ext, content).push(f),
            None => file_found(ps, path, ext, content),
        }),
{
    assert(ps.push(p).drop_last() =~= ps);
}

/// The patterns that are looked for: what each is, how severe it is, and in which files.
pub proof fn law_what_is_looked_for(i: int)
    ensures
        patterns().len() == 8,
        patterns()[0].pattern == "sk-"@ && patterns()[0].severity == Severity::Critical
            && patterns()[0].code == "HARDCODED_API_KEY"@,
        patterns()[1].pattern == "sk-ant-"@ && patterns()[1].severity == Severity::Critical
            && patterns()[1].code == "HARDCODED_ANTHROPIC_KEY"@,
        patterns()[2].pattern == "f\""@ && patterns()[2].severity == Severity::High
            && patterns()[2].code == "PROMPT_INJECTION_RISK"@,
        patterns()[3].pattern == "${"@ && patterns()[3].severity == Severity::High
            && patterns()[3].code == "PROMPT_TEMPLATE_INJECTION"@,
        patterns()[4].pattern == "eval("@ && patterns()[4].severity == Severity::Critical
            && patterns()[4].code == "EVAL_LLM_OUTPUT"@,
        patterns()[5].pattern == "exec("@ && patterns()[5].severity == Severity::Critical
            && patterns()[5].code == "EXEC_LLM_OUTPUT"@,
        patterns()[6].pattern == "pickle.loads"@ && patterns()[6].severity == Severity::High
            && patterns()[6].code == "UNSAFE_PICKLE"@,
        patterns()[7].pattern == "json.loads(response"@ && patterns()[7].severity
            == Severity::Medium && patterns()[7].code == "MISSING_OUTPUT_VALIDATION"@,
        0 <= i < 8 && i != 3 ==> patterns()[i].extensions.contains(".py"@),
        i == 0 || i == 1 || i == 3 || i == 4 ==> patterns()[i].extensions.contains(".ts"@)
            && patterns()[i].extensions.contains(".js"@),
        i == 0 || i == 1 ==> patterns()[i].extensions.contains(".go"@)
            && patterns()[i].extensions.contains(".rs"@),
{
    let s = all_sources();
    assert(s[0] == ".py"@ && s[1] == ".ts"@ && s[2] == ".js"@ && s[3] == ".go"@ && s[4] == ".rs"@);
    let python = seq![".py"@];
    assert(python[0] == ".py"@);
    let web = seq![".ts"@, ".js"@];
    assert(web[0] == ".ts"@ && web[1] == ".js"@);
    let both = seq![".py"@, ".js"@, ".ts"@];
    assert(both[0] == ".py"@ && both[1] == ".js"@ && both[2] == ".ts"@);
}

/// Every file is scanned, with its own path, but for directories, files that were not read
/// and those in directories of tools.
pub proof fn law_every_source_is_scanned(entries: Seq<Entry>, e: Entry, root: Seq<char>)
    ensures
        source_found(Seq::empty(), root) == Seq::<FindingV>::empty(),
        !e.dir && e.text is Some && !(exists|i: int|
            0 <= i < text::pieces(e.path@, '/').len() && (#[trigger] text::pieces(e.path@, '/')[i]
                == "node_modules"@ || text::pieces(e.path@, '/')[i] == ".git"@ || text::pieces(
                e.path@,
                '/',
            )[i] == "target"@ || text::pieces(e.path@, '/')[i] == ".venv"@ || text::pieces(
                e.path@,
                '/',
            )[i] == "__pycache__"@ || text::pieces(e.path@, '/')[i] == ".barzel"@))
            ==> source_found(entries.push(e), root) == source_found(entries, root) + file_found(
            patterns(),
            files::below(root, e.path@),
            dotted_extension(files::below(root, e.path@)),
            (e.text->0)@,
        ),
        e.dir || e.text is None || (exists|i: int|
            0 <= i < text::pieces(e.path@, '/').len() && (#[trigger] text::pieces(e.path@, '/')[i]
                == "node_modules"@ || text::pieces(e.path@, '/')[i] == ".git"@ || text::pieces(
                e.path@,
                '/',
            )[i] == "target"@ || text::pieces(e.path@, '/')[i] == ".venv"@ || text::pieces(
                e.path@,
                '/',
            )[i] == "__pycache__"@ || text::pieces(e.path@, '/')[i] == ".barzel"@))
            ==> source_found(entries.push(e), root) == source_found(entries, root),
{
    assert(entries.push(e).drop_last() =~= entries);
    assert(source_found(entries, root) + Seq::<FindingV>::empty() =~= source_found(entries, root));
    let all = text::pieces(e.path@, '/');
    if exists|i: int|
        0 <= i < all.len() && (#[trigger] all[i] == "node_modules"@ || all[i] == ".git"@ || all[i]
            == "target"@ || all[i] == ".venv"@ || all[i] == "__pycache__"@ || all[i]
            == ".barzel"@) {
        let i = choose|i: int|
            0 <= i < all.len() && (#[trigger] all[i] == "node_modules"@ || all[i] == ".git"@
                || all[i] == "target"@ || all[i] == ".venv"@ || all[i] == "__pycache__"@ || all[i]
                == ".barzel"@);
        assert(is_foreign(all[i]));
    }
}

/// A result of the level ERROR gives a critical finding, WARNING a high one, in whatever
/// case the level is written; one without a level, or of any other, a medium one.
pub proof fn law_levels_are_severities(item: DataV, extra: DataV)
    requires
        item.field("extra"@) == Some(extra),
    ensures
        extra.text_at("severity"@) matches Some(s) ==> {
            &&& text::uppercase(s) == "ERROR"@ ==> result_found(item).severity
                == Severity::Critical
            &&& text::uppercase(s) == "WARNING"@ ==> result_found(item).severity == Severity::High
            &&& text::uppercase(s) != "ERROR"@ && text::uppercase(s) != "WARNING"@ ==> result_found(
                item,
            ).severity == Severity::Medium
        },
        extra.text_at("severity"@) is None ==> result_found(item).severity == Severity::Medium,
        extra.text_at("message"@) matches Some(s) ==> result_found(item).message == s,
        item.text_at("check_id"@) matches Some(s) ==> result_found(item).code == s,
{
    reveal_strlit("ERROR");
    reveal_strlit("WARNING");
    assert("ERROR"@.len() != "WARNING"@.len());
}

/// Every result that Semgrep reports gives a finding, in order, where Semgrep is installed
/// and ran; else it adds nothing.
pub proof fn law_each_result_is_reported(
    out: ProcessOutput,
    doc: DataV,
    items: Seq<DataV>,
    e: String,
)
    ensures
        data::json_parsed(out.stdout@) == Some(doc) && doc.list_at("results"@) == Some(items)
            ==> found_by_semgrep(true, Ok(out)) == Seq::new(
            items.len(),
            |i: int| result_found(items[i]),
        ),
        found_by_semgrep(false, Ok(out)) == Seq::<FindingV>::empty(),
        found_by_semgrep(true, Err(e)) == Seq::<FindingV>::empty(),
{
    if data::json_parsed(out.stdout@) == Some(doc) && doc.list_at("results"@) == Some(items) {
        assert(results_found(items) =~= Seq::new(items.len(), |i: int| result_found(items[i])));
    }
}

/// Of findings that follow one another with the same code and place the first is kept, and
/// every other finding is kept too.
pub proof fn law_only_repetitions_are_dropped(v: Seq<FindingV>, i: int)
    requires
        0 <= i < v.len(),
    ensures
        exists|k: int|
            0 <= k < deduplicated(v).len() && (#[trigger] deduplicated(v)[k]).code == v[i].code
                && deduplicated(v)[k].location == v[i].location,
        deduplicated(v).len() > 0,
        forall|k: int|
            0 <= k < deduplicated(v).len() ==> v.contains(#[trigger] deduplicated(v)[k]),
    decreases v.len(),
{
    let front = deduplicated(v.drop_last());
    let all = deduplicated(v);
    if v.len() > 1 {
        law_only_repetitions_are_dropped(v.drop_last(), if i < v.len() - 1 {
            i
        } else {
            0
        });
        assert forall|k: int| 0 <= k < all.len() implies v.contains(#[trigger] all[k]) by {
            if k < front.len() {
                assert(v.drop_last().contains(front[k]));
                let m = choose|m: int| 0 <= m < v.drop_last().len() && v.drop_last()[m] == front[k];
                assert(v[m] == front[k]);
            } else {
                assert(v[v.len() - 1] == all[k]);
            }
        }
    } else {
        assert(front.len() == 0);
        assert(all =~= seq![v[0]]);
        assert(all[0] == v[0]);
    }
    if i < v.len() - 1 {
        let k = choose|k: int|
            0 <= k < front.len() && (#[trigger] front[k]).code == v[i].code && front[k].location
                == v[i].location;
        assert(all[k] == front[k]);
    } else {
        assert(all.last().code == v[i].code && all.last().location == v[i].location);
        assert(all[all.len() - 1] == all.last());
    }
}

/// The scan fails with a critical finding, else is partial with a high or a medium one,
/// else passes; without findings it says so in one of its own.
pub proof fn law_worst_finding_decides(
    project: ProjectInfo,
    by_semgrep: Seq<FindingV>,
    by_scan: Seq<FindingV>,
    ms: u64,
    i: int,
)
    ensures
        ({
            let r = scanned(project, by_semgrep, by_scan, ms);
            let v = deduplicated(by_semgrep + by_scan);
            &&& r.name == "hostile"@ && r.runner == "ai-sec"@ && r.duration_ms == ms
            &&& v.len() > 0 ==> r.findings == v
            &&& v.len() == 0 ==> r.findings.len() == 1 && r.findings[0].severity == Severity::Info
                && r.status == LayerStatus::Pass
            &&& 0 <= i < v.len() && v[i].severity == Severity::Critical ==> r.status
                == LayerStatus::Fail
            &&& 0 <= i < v.len() && (v[i].severity == Severity::High || v[i].severity
                == Severity::Medium) ==> r.status != LayerStatus::Pass
            &&& (forall|k: int|
                0 <= k < v.len() ==> (#[trigger] v[k]).severity != Severity::Critical) ==> r.status
                != LayerStatus::Fail
        }),
{
    let v = deduplicated(by_semgrep + by_scan);
    let r = scanned(project, by_semgrep, by_scan, ms);
    parts::law_worst_finding_decides(r.findings, i);
    if v.len() == 0 {
        parts::law_worst_finding_decides(r.findings, 0);
    }
}

/// How the tool is called.
pub proof fn law_arguments_of_the_tool()
    ensures
        version_args() == seq!["--version"@],
        secrets_args() == seq!["--json"@, "--quiet"@, "--config=p/secrets"@, "."@],
{
}

/// A line that is a comment matches no pattern; any other that holds it does.
pub proof fn law_comments_do_not_match(line: Seq<char>, p: Seq<char>)
    ensures
        text::trimmed(line).len() > 0 && text::trimmed(line)[0] == '#' ==> !line_matches(line, p),
        text::trimmed(line).len() > 1 && text::trimmed(line)[0] == '/' && text::trimmed(line)[1] == '/'
            ==> !line_matches(line, p),
        text::trimmed(line).len() > 0 && text::trimmed(line)[0] != '#' && text::trimmed(line)[0]
            != '/' && text::has(line, p) ==> line_matches(line, p),
        line_matches(line, p) ==> text::has(line, p),
{
    reveal_strlit("#");
    reveal_strlit("//");
    let t = text::trimmed(line);
    if t.len() > 0 && t[0] == '#' {
        assert(t.subrange(0, 1) =~= "#"@);
    }
    if t.len() > 1 && t[0] == '/' && t[1] == '/' {
        assert(t.subrange(0, 2) =~= "//"@);
    }
    if text::begins(t, "#"@) {
        assert(t.subrange(0, 1)[0] == t[0]);
    }
    if text::begins(t, "//"@) {
        assert(t.subrange(0, 2)[0] == t[0]);
    }
}

/// What a finding of a pattern or of a scan says.
pub proof fn law_what_is_said_of_ai_code(
    p: PatternV,
    path: Seq<char>,
    ext: Seq<char>,
    content: Seq<char>,
    item: DataV,
    project: ProjectInfo,
)
    ensures
        pattern_found(p, path, ext, content) matches Some(f) ==> f.severity == p.severity && f.code
            == p.code && f.message == p.message && f.suggestion == Some(p.suggestion)
            && f.reproduce_cmd == Some("grep -n '"@ + p.pattern + "' "@ + path + " | head -5"@),
        item.text_at("check_id"@) is None ==> result_found(item).code == "AI_SEC"@,
        semgrep::extra_text(item, "message"@) is None ==> result_found(item).message
            == "AI security issue"@,
        semgrep::extra_text(item, "message"@) matches Some(m) ==> result_found(item).message == m,
        item.text_at("path"@) matches Some(q) ==> result_found(item).reproduce_cmd == Some(
            "semgrep --config="@ + result_found(item).code + " "@ + q + " 2>&1 | head -20"@,
        ),
        passed(project).severity == Severity::Info && passed(project).code == "AI_SEC_PASSED"@,
        passed(project).message == "No AI security issues detected in "@ + project.language.text()
            + " project. AI frameworks: "@ + text::joined(
            text::views(project.frameworks.ai_frameworks@),
            ", "@,
        ),
        files::extension_of(files::name_of(path)) matches Some(x) ==> dotted_extension(path) == "."@
            + x,
{
}

/// A result belongs to the layer and the runner that it is of, whatever came out.
pub proof fn law_where_results_belong(project: ProjectInfo, by_semgrep: Seq<FindingV>, by_scan: Seq<FindingV>, duration_ms: u64)
    ensures
        scanned(project, by_semgrep, by_scan, duration_ms).name == "hostile"@,
        scanned(project, by_semgrep, by_scan, duration_ms).runner == "ai-sec"@,
        scanned(project, by_semgrep, by_scan, duration_ms).duration_ms == duration_ms,
{
}

} // verus!
