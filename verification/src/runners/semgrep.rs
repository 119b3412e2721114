//! Semgrep: static analysis of all languages.
use vstd::prelude::*;

use crate::data;
use crate::data::{Data, DataV};
use crate::detect::{Language, ProjectInfo};
use crate::diff;
use crate::files;
use crate::files::{Entry, Files};
use crate::order;
use crate::plugin::{Layer, TestRunner};
use crate::process;
use crate::process::{ProcessOutput, SubprocessRunner};
use crate::report;
use crate::report::{Finding, FindingV, LayerMetrics, LayerResult, LayerResultV, LayerStatus, Severity};
use crate::runners::operational_command;
use crate::runners::parts;
use crate::text;
use crate::time;

verus! {

#[derive(Debug, Default)]
pub struct SemgrepRunner;

pub const SKIP: &'static str = "semgrep not installed — install: `pip install semgrep` or `brew install semgrep` (runs on all languages)";

pub const REVIEW_HINT: &'static str = "Review the flagged code. See semgrep.dev for rule details and remediation.";

impl TestRunner for SemgrepRunner {
    fn name(&self) -> (r: &'static str)
        ensures
            r@ == "semgrep"@,
    {
        "semgrep"
    }

    fn layer(&self) -> (r: Layer)
        ensures
            r == Layer::Hostile,
    {
        Layer::Hostile
    }

    fn skip_message(&self) -> (r: &'static str)
        ensures
            r@ == SKIP@,
    {
        SKIP
    }
}

// ── rules ───────────────────────────────────────────────────────────────────

/// A file with rules: its path, and the path that it really has.
#[derive(Debug)]
pub struct RuleFile {
    pub path: String,
    pub canonical: String,
}

/// The model of a `RuleFile`.
pub struct RuleFileV {
    pub path: Seq<char>,
    pub canonical: Seq<char>,
}

impl View for RuleFile {
    type V = RuleFileV;

    open spec fn view(&self) -> RuleFileV {
        RuleFileV { path: self.path@, canonical: self.canonical@ }
    }
}

pub open spec fn rules_view(v: Seq<RuleFile>) -> Seq<RuleFileV> {
    v.map_values(|r: RuleFile| r@)
}

/// The name of the rule file that an entry is.
pub open spec fn rule_name(e: Entry) -> Option<Seq<char>> {
    match files::child_name(e, ".barzel/rules"@) {
        Some(name) => if !e.dir && (files::extension_of(name) == Some("yml"@)
            || files::extension_of(name) == Some("yaml"@)) {
            Some(name)
        } else {
            None
        },
        None => None,
    }
}

pub open spec fn rule_names(entries: Seq<Entry>) -> Seq<Seq<char>>
    decreases entries.len(),
{
    if entries.len() == 0 {
        Seq::empty()
    } else {
        match rule_name(entries.last()) {
            Some(name) => rule_names(entries.drop_last()).push(name),
            None => rule_names(entries.drop_last()),
        }
    }
}

pub open spec fn rule_file(files: Files, root: Seq<char>, name: Seq<char>) -> RuleFileV {
    RuleFileV {
        path: files::below(root, ".barzel/rules/"@ + name),
        canonical: files.real_path(".barzel/rules/"@ + name),
    }
}

/// The rule files below `root`, sorted by name.
pub open spec fn custom_rules(files: Files, root: Seq<char>) -> Seq<RuleFileV> {
    order::sorted_texts(rule_names(files.entries@)).map_values(
        |n: Seq<char>| rule_file(files, root, n),
    )
}

fn read_rule_name(e: &Entry) -> (r: Option<String>)
    ensures
        text::opt_view(r) == rule_name(*e),
{
    match files::child(e, ".barzel/rules") {
        Some(name) => {
            let rules = match files::extension(name.as_str()) {
                Some(x) => text::same(x.as_str(), "yml") || text::same(x.as_str(), "yaml"),
                None => false,
            };
            if !e.dir && rules {
                Some(name)
            } else {
                None
            }
        },
        None => None,
    }
}

fn read_rule_names(files: &Files) -> (r: Vec<String>)
    ensures
        text::views(r@) == rule_names(files.entries@),
{
    let ghost all = files.entries@;
    let mut r: Vec<String> = Vec::new();
    let mut i: usize = 0;
    assert(all.subrange(0, 0) =~= Seq::<Entry>::empty());
    assert(text::views(r@) =~= Seq::<Seq<char>>::empty());
    while i < files.entries.len()
        invariant
            i <= files.entries@.len(),
            all == files.entries@,
            text::views(r@) == rule_names(all.subrange(0, i as int)),
        decreases files.entries@.len() - i,
    {
        proof {
            let next = all.subrange(0, i + 1);
            assert(next.drop_last() =~= all.subrange(0, i as int));
            assert(next.last() == files.entries@[i as int]);
        }
        let ghost before = text::views(r@);
        match read_rule_name(&files.entries[i]) {
            Some(name) => {
                r.push(name);
                assert(text::views(r@) =~= before.push(name@));
            },
            None => {},
        }
        i += 1;
    }
    assert(all.subrange(0, i as int) =~= all);
    r
}

/// The rule files below `root`, sorted by name.
pub fn collect_custom_rule_paths(files: &Files, root: &str) -> (r: Vec<RuleFile>)
    ensures
        rules_view(r@) == custom_rules(*files, root@),
{
    let found = read_rule_names(files);
    let names = order::sort_texts(&found);
    let ghost all = text::views(names@);
    let mut r: Vec<RuleFile> = Vec::new();
    let mut i: usize = 0;
    while i < names.len()
        invariant
            i <= names@.len(),
            all == text::views(names@),
            r@.len() == i,
            forall|k: int| 0 <= k < i ==> (#[trigger] r@[k])@ == rule_file(*files, root@, all[k]),
        decreases names@.len() - i,
    {
        assert(all[i as int] == names@[i as int]@);
        let rel = text::cat(".barzel/rules/", names[i].as_str());
        r.push(
            RuleFile {
                path: files::join_below(root, rel.as_str()),
                canonical: files.absolute(rel.as_str()),
            },
        );
        i += 1;
    }
    assert(rules_view(r@) =~= custom_rules(*files, root@));
    r
}

/// The rules without those that are really the same file as an earlier one.
pub open spec fn distinct_rules(rules: Seq<RuleFileV>) -> Seq<RuleFileV>
    decreases rules.len(),
{
    if rules.len() == 0 {
        Seq::empty()
    } else {
        let front = distinct_rules(rules.drop_last());
        if is_repeated(rules.drop_last(), rules.last()) {
            front
        } else {
            front.push(rules.last())
        }
    }
}

pub open spec fn paths_of(rules: Seq<RuleFileV>) -> Seq<Seq<char>> {
    rules.map_values(|r: RuleFileV| r.path)
}

/// The paths of the rules, each file once.
pub open spec fn distinct_paths(rules: Seq<RuleFileV>) -> Seq<Seq<char>> {
    paths_of(distinct_rules(rules))
}

/// A rule is really the same file as one of `earlier`.
pub open spec fn is_repeated(earlier: Seq<RuleFileV>, rule: RuleFileV) -> bool {
    exists|i: int| 0 <= i < earlier.len() && (#[trigger] earlier[i]).canonical == rule.canonical
}

/// Two paths have the same parts.
pub open spec fn same_path(a: Seq<char>, b: Seq<char>) -> bool {
    diff::is_absolute(a) == diff::is_absolute(b) && diff::parts_of(a) == diff::parts_of(b)
}

/// All rule files of a run: those at the root of the workspace, where this is another
/// directory, and then those of the project.
pub open spec fn all_rules(
    files: Files,
    root: Seq<char>,
    workspace: Files,
    workspace_root: Option<Seq<char>>,
) -> Seq<RuleFileV> {
    match workspace_root {
        Some(ws) => if same_path(ws, root) {
            custom_rules(files, root)
        } else {
            custom_rules(workspace, ws) + custom_rules(files, root)
        },
        None => custom_rules(files, root),
    }
}

fn keep_distinct(rules: &Vec<RuleFile>) -> (r: Vec<String>)
    ensures
        text::views(r@) == distinct_paths(rules_view(rules@)),
{
    let ghost all = rules_view(rules@);
    let mut r: Vec<String> = Vec::new();
    let mut i: usize = 0;
    assert(all.subrange(0, 0) =~= Seq::<RuleFileV>::empty());
    assert(text::views(r@) =~= distinct_paths(all.subrange(0, 0)));
    while i < rules.len()
        invariant
            i <= rules@.len(),
            all == rules_view(rules@),
            text::views(r@) == distinct_paths(all.subrange(0, i as int)),
        decreases rules@.len() - i,
    {
        let ghost earlier = all.subrange(0, i as int);
        proof {
            let next = all.subrange(0, i + 1);
            assert(next.drop_last() =~= earlier);
            assert(next.last() == rules@[i as int]@);
        }
        let mut repeated = false;
        let mut j: usize = 0;
        while j < i
            invariant
                j <= i < rules@.len(),
                all == rules_view(rules@),
                earlier == all.subrange(0, i as int),
                repeated == exists|k: int|
                    0 <= k < j && (#[trigger] earlier[k]).canonical == rules@[i as int]@.canonical,
            decreases i - j,
        {
            assert(earlier[j as int] == rules@[j as int]@);
            if text::same(rules[j].canonical.as_str(), rules[i].canonical.as_str()) {
                repeated = true;
            }
            j += 1;
        }
        assert(repeated == is_repeated(earlier, rules@[i as int]@));
        let ghost before = text::views(r@);
        if !repeated {
            r.push(rules[i].path.clone());
            assert(text::views(r@) =~= before.push(rules@[i as int]@.path));
            assert(distinct_paths(all.subrange(0, i + 1)) =~= before.push(
                rules@[i as int]@.path,
            ));
        }
        i += 1;
    }
    assert(all.subrange(0, i as int) =~= all);
    r
}

/// Whether two paths have the same parts.
fn are_same(a: &str, b: &str) -> (r: bool)
    ensures
        r == same_path(a@, b@),
{
    let p = diff::parts(a);
    let q = diff::parts(b);
    let ghost x = text::views(p@);
    let ghost y = text::views(q@);
    if diff::absolute(a) != diff::absolute(b) {
        return false;
    }
    if p.len() != q.len() {
        assert(x.len() != y.len());
        return false;
    }
    let mut i: usize = 0;
    while i < p.len()
        invariant
            i <= p@.len(),
            p@.len() == q@.len(),
            x == text::views(p@),
            y == text::views(q@),
            x == diff::parts_of(a@),
            y == diff::parts_of(b@),
            forall|k: int| 0 <= k < i ==> x[k] == y[k],
        decreases p@.len() - i,
    {
        assert(x[i as int] == p@[i as int]@ && y[i as int] == q@[i as int]@);
        if !text::same(p[i].as_str(), q[i].as_str()) {
            return false;
        }
        i += 1;
    }
    assert(x =~= y);
    true
}

/// The paths of all rules of a run, each file once. `workspace` holds the files at the root
/// of the workspace.
pub fn collect_all_custom_rule_paths(
    files: &Files,
    root: &str,
    workspace: &Files,
    workspace_root: &Option<String>,
) -> (r: Vec<String>)
    ensures
        text::views(r@) == distinct_paths(
            all_rules(*files, root@, *workspace, text::opt_view(*workspace_root)),
        ),
{
    let mut rules: Vec<RuleFile> = Vec::new();
    assert(rules_view(rules@) =~= Seq::<RuleFileV>::empty());
    match workspace_root {
        Some(ws) => {
            if !are_same(ws.as_str(), root) {
                rules = collect_custom_rule_paths(workspace, ws.as_str());
            }
        },
        None => {},
    }
    let mut own = collect_custom_rule_paths(files, root);
    let ghost before = rules_view(rules@);
    let ghost added = rules_view(own@);
    rules.append(&mut own);
    assert(rules_view(rules@) =~= before + added);
    assert(Seq::<RuleFileV>::empty() + added =~= added);
    keep_distinct(&rules)
}

/// Of the rules that are really one file exactly one is kept: none is lost, and no two that
/// are kept are the same file.
pub proof fn law_rules_are_distinct(rules: Seq<RuleFileV>)
    ensures
        forall|i: int|
            0 <= i < rules.len() ==> is_repeated(distinct_rules(rules), #[trigger] rules[i]),
        forall|i: int, j: int|
            0 <= i < j < distinct_rules(rules).len() ==> (#[trigger] distinct_rules(
                rules,
            )[i]).canonical != (#[trigger] distinct_rules(rules)[j]).canonical,
        forall|i: int|
            0 <= i < distinct_rules(rules).len() ==> is_repeated(
                rules,
                #[trigger] distinct_rules(rules)[i],
            ),
    decreases rules.len(),
{
    if rules.len() > 0 {
        let shorter = rules.drop_last();
        let front = distinct_rules(shorter);
        let all = distinct_rules(rules);
        let last = rules.last();
        law_rules_are_distinct(shorter);
        assert forall|i: int| 0 <= i < all.len() implies is_repeated(
            rules,
            #[trigger] all[i],
        ) by {
            if i < front.len() {
                assert(is_repeated(shorter, front[i]));
                let k = choose|k: int|
                    0 <= k < shorter.len() && (#[trigger] shorter[k]).canonical
                        == front[i].canonical;
                assert(rules[k].canonical == all[i].canonical);
            } else {
                assert(rules[rules.len() - 1].canonical == all[i].canonical);
            }
        }
        assert forall|i: int| 0 <= i < rules.len() implies is_repeated(all, #[trigger] rules[i]) by {
            if i < shorter.len() {
                assert(shorter[i] == rules[i]);
                assert(is_repeated(front, shorter[i]));
                let k = choose|k: int|
                    0 <= k < front.len() && (#[trigger] front[k]).canonical == rules[i].canonical;
                assert(all[k].canonical == rules[i].canonical);
            } else if is_repeated(shorter, last) {
                let k = choose|k: int|
                    0 <= k < shorter.len() && (#[trigger] shorter[k]).canonical == last.canonical;
                assert(is_repeated(front, shorter[k]));
                let m = choose|m: int|
                    0 <= m < front.len() && (#[trigger] front[m]).canonical
                        == shorter[k].canonical;
                assert(all[m].canonical == last.canonical);
            } else {
                assert(all[all.len() - 1].canonical == last.canonical);
            }
        }
        assert forall|i: int, j: int| 0 <= i < j < all.len() implies (#[trigger] all[i]).canonical
            != (#[trigger] all[j]).canonical by {
            if j < front.len() {
                assert(front[i].canonical != front[j].canonical);
            } else {
                assert(is_repeated(shorter, front[i]));
                let k = choose|k: int|
                    0 <= k < shorter.len() && (#[trigger] shorter[k]).canonical
                        == front[i].canonical;
                assert(shorter[k].canonical != last.canonical);
            }
        }
    }
}

// ── the command ─────────────────────────────────────────────────────────────

/// The rules of the registry for a language.
pub open spec fn ruleset_of(language: Language) -> Seq<char> {
    match language {
        Language::Python => "p/python"@,
        Language::TypeScript => "p/typescript"@,
        Language::Rust => "p/rust"@,
        Language::Go => "p/golang"@,
        Language::Unknown => "p/default"@,
    }
}

pub fn ruleset(language: Language) -> (r: &'static str)
    ensures
        r@ == ruleset_of(language),
{
    match language {
        Language::Python => "p/python",
        Language::TypeScript => "p/typescript",
        Language::Rust => "p/rust",
        Language::Go => "p/golang",
        Language::Unknown => "p/default",
    }
}

/// The arguments that name rules.
pub open spec fn rule_args(rules: Seq<Seq<char>>) -> Seq<Seq<char>>
    decreases rules.len(),
{
    if rules.len() == 0 {
        Seq::empty()
    } else {
        rule_args(rules.drop_last()).push("--config"@).push(rules.last())
    }
}

/// All arguments: `--json --quiet --config <ruleset> [--config <rule>...] .`
pub open spec fn semgrep_args(ruleset: Seq<char>, rules: Seq<Seq<char>>) -> Seq<Seq<char>> {
    (seq!["--json"@, "--quiet"@, "--config"@, ruleset] + rule_args(rules)).push("."@)
}

pub fn build_semgrep_args(ruleset: &str, custom_rules: &Vec<String>) -> (r: Vec<String>)
    ensures
        text::views(r@) == semgrep_args(ruleset@, text::views(custom_rules@)),
{
    let ghost all = text::views(custom_rules@);
    let ghost head = seq!["--json"@, "--quiet"@, "--config"@, ruleset@];
    let mut r = vec![
        "--json".to_string(),
        "--quiet".to_string(),
        "--config".to_string(),
        ruleset.to_string(),
    ];
    let mut i: usize = 0;
    assert(all.subrange(0, 0) =~= Seq::<Seq<char>>::empty());
    assert(text::views(r@) =~= head + rule_args(all.subrange(0, 0)));
    while i < custom_rules.len()
        invariant
            i <= custom_rules@.len(),
            all == text::views(custom_rules@),
            text::views(r@) == head + rule_args(all.subrange(0, i as int)),
        decreases custom_rules@.len() - i,
    {
        proof {
            let next = all.subrange(0, i + 1);
            assert(next.drop_last() =~= all.subrange(0, i as int));
            assert(next.last() == custom_rules@[i as int]@);
        }
        let ghost before = text::views(r@);
        r.push("--config".to_string());
        r.push(custom_rules[i].clone());
        assert(text::views(r@) =~= before.push("--config"@).push(custom_rules@[i as int]@));
        assert(text::views(r@) =~= head + rule_args(all.subrange(0, i + 1)));
        i += 1;
    }
    assert(all.subrange(0, i as int) =~= all);
    let ghost before = text::views(r@);
    r.push(".".to_string());
    assert(text::views(r@) =~= before.push("."@));
    r
}

/// A configuration as a shell names it.
pub open spec fn config_arg(c: Seq<char>) -> Seq<char> {
    "--config "@ + operational_command::quoted(c)
}

pub open spec fn config_args(configs: Seq<Seq<char>>) -> Seq<Seq<char>> {
    configs.map_values(|c: Seq<char>| config_arg(c))
}

fn quote_configs(configs: &Vec<String>) -> (r: Vec<String>)
    ensures
        text::views(r@) == config_args(text::views(configs@)),
{
    let mut r: Vec<String> = Vec::new();
    let mut i: usize = 0;
    while i < configs.len()
        invariant
            i <= configs@.len(),
            r@.len() == i,
            forall|k: int| 0 <= k < i ==> (#[trigger] r@[k])@ == config_arg(configs@[k]@),
        decreases configs@.len() - i,
    {
        let q = operational_command::shell_quote(configs[i].as_str());
        r.push(text::cat("--config ", q.as_str()));
        i += 1;
    }
    assert(text::views(r@) =~= config_args(text::views(configs@)));
    r
}

/// The ruleset and the rules.
pub open spec fn all_configs(ruleset: Seq<char>, rules: Seq<Seq<char>>) -> Seq<Seq<char>> {
    seq![ruleset] + rules
}

/// The ruleset and the rules.
pub fn list_configs(ruleset: &str, custom_rules: &Vec<String>) -> (r: Vec<String>)
    ensures
        text::views(r@) == all_configs(ruleset@, text::views(custom_rules@)),
{
    let mut r = vec![ruleset.to_string()];
    let mut rest = text::copy_all(custom_rules);
    r.append(&mut rest);
    assert(text::views(r@) =~= all_configs(ruleset@, text::views(custom_rules@)));
    r
}

/// The command that repeats a run, for a shell.
pub open spec fn error_command(ruleset: Seq<char>, rules: Seq<Seq<char>>) -> Seq<char> {
    "semgrep "@ + text::joined(config_args(all_configs(ruleset, rules)), " "@) + " . 2>&1"@
}

pub fn build_error_reproduce_cmd(ruleset: &str, custom_rules: &Vec<String>) -> (r: String)
    ensures
        r@ == error_command(ruleset@, text::views(custom_rules@)),
{
    let configs = list_configs(ruleset, custom_rules);
    let args = quote_configs(&configs);
    text::cat3("semgrep ", text::join(&args, " ").as_str(), " . 2>&1")
}

// ── results ─────────────────────────────────────────────────────────────────

/// The severity that a level in upper case stands for.
pub open spec fn level_severity(level: Seq<char>) -> Severity {
    if level == "ERROR"@ {
        Severity::Critical
    } else if level == "WARNING"@ {
        Severity::High
    } else if level == "INFO"@ {
        Severity::Info
    } else {
        Severity::Medium
    }
}

pub fn severity_of_level(level: &str) -> (r: Severity)
    ensures
        r == level_severity(level@),
{
    if text::same(level, "ERROR") {
        Severity::Critical
    } else if text::same(level, "WARNING") {
        Severity::High
    } else if text::same(level, "INFO") {
        Severity::Info
    } else {
        Severity::Medium
    }
}

/// The severity that a level stands for, in whatever case it is written.
pub fn map_semgrep_severity(s: &str) -> (r: Severity)
    ensures
        r == level_severity(text::uppercase(s@)),
{
    severity_of_level(s.to_uppercase().as_str())
}

/// The text in the field `key` of the field `extra`.
pub open spec fn extra_text(item: DataV, key: Seq<char>) -> Option<Seq<char>> {
    match item.field("extra"@) {
        Some(e) => e.text_at(key),
        None => None,
    }
}

pub fn read_extra(item: &Data, key: &str) -> (r: Option<String>)
    ensures
        text::opt_view(r) == extra_text(item@, key@),
{
    match item.get("extra") {
        Some(e) => match e.get_str(key) {
            Some(s) => Some(s.to_string()),
            None => None,
        },
        None => None,
    }
}

/// The line where a result starts; 0 where it does not say.
pub open spec fn start_line(item: DataV) -> u64 {
    match item.field("start"@) {
        Some(s) => s.number_or("line"@, 0),
        None => 0,
    }
}

pub fn read_start_line(item: &Data) -> (r: u64)
    ensures
        r == start_line(item@),
{
    match item.get("start") {
        Some(s) => s.u64_or("line", 0),
        None => 0,
    }
}

/// Where a result stands: path and line.
pub open spec fn place_of(item: DataV) -> Option<Seq<char>> {
    match item.text_at("path"@) {
        Some(p) => Some(p + ":"@ + text::decimal(start_line(item) as nat)),
        None => None,
    }
}

pub fn read_place(item: &Data) -> (r: Option<String>)
    ensures
        text::opt_view(r) == place_of(item@),
{
    match item.get_str("path") {
        Some(p) => Some(text::cat3(p, ":", text::number(read_start_line(item)).as_str())),
        None => None,
    }
}

/// The finding for a result of a run with these configurations.
pub open spec fn result_found(item: DataV, configs: Seq<Seq<char>>) -> FindingV {
    FindingV {
        severity: match extra_text(item, "severity"@) {
            Some(s) => level_severity(text::uppercase(s)),
            None => Severity::Medium,
        },
        code: item.text_or("check_id"@, "SAST_FINDING"@),
        message: match extra_text(item, "message"@) {
            Some(s) => s,
            None => "Security issue detected"@,
        },
        location: place_of(item),
        reproduce_cmd: match item.text_at("path"@) {
            Some(p) => Some(
                "semgrep "@ + text::joined(config_args(configs), " "@) + " --include "@
                    + operational_command::quoted(p) + " ."@,
            ),
            None => None,
        },
        suggestion: Some(REVIEW_HINT@),
    }
}

pub open spec fn results_found(items: Seq<DataV>, configs: Seq<Seq<char>>) -> Seq<FindingV> {
    items.map_values(|d: DataV| result_found(d, configs))
}

/// The findings in a report; none where the document is no report.
pub open spec fn semgrep_findings(doc: Option<DataV>, configs: Seq<Seq<char>>) -> Seq<FindingV> {
    match doc {
        Some(d) => match d.list_at("results"@) {
            Some(items) => results_found(items, configs),
            None => Seq::empty(),
        },
        None => Seq::empty(),
    }
}

fn read_result(item: &Data, configs: &Vec<String>) -> (r: Finding)
    ensures
        r@ == result_found(item@, text::views(configs@)),
{
    Finding {
        severity: match read_extra(item, "severity") {
            Some(s) => map_semgrep_severity(s.as_str()),
            None => Severity::Medium,
        },
        code: item.str_or("check_id", "SAST_FINDING"),
        message: match read_extra(item, "message") {
            Some(s) => s,
            None => "Security issue detected".to_string(),
        },
        location: read_place(item),
        reproduce_cmd: match item.get_str("path") {
            Some(p) => {
                let args = quote_configs(configs);
                Some(
                    text::cat5(
                        "semgrep ",
                        text::join(&args, " ").as_str(),
                        " --include ",
                        operational_command::shell_quote(p).as_str(),
                        " .",
                    ),
                )
            },
            None => None,
        },
        suggestion: Some(REVIEW_HINT.to_string()),
    }
}

/// The findings in a report of a run with these configurations.
pub fn read_semgrep_report(doc: &Data, configs: &Vec<String>) -> (r: Vec<Finding>)
    ensures
        report::findings_view(r@) == semgrep_findings(Some(doc@), text::views(configs@)),
{
    let mut r = parts::nothing();
    let items = match doc.get_array("results") {
        Some(v) => v,
        None => {
            return r;
        },
    };
    let ghost all = data::trees(items@);
    let ghost c = text::views(configs@);
    let mut i: usize = 0;
    assert(results_found(all.subrange(0, 0), c) =~= Seq::<FindingV>::empty());
    while i < items.len()
        invariant
            i <= items@.len(),
            all == data::trees(items@),
            c == text::views(configs@),
            report::findings_view(r@) == results_found(all.subrange(0, i as int), c),
        decreases items@.len() - i,
    {
        assert(all[i as int] == items@[i as int]@);
        let f = read_result(&items[i], configs);
        assert(results_found(all.subrange(0, i + 1), c) =~= results_found(
            all.subrange(0, i as int),
            c,
        ).push(f@));
        parts::push_finding(&mut r, f);
        i += 1;
    }
    assert(all.subrange(0, i as int) =~= all);
    r
}

/// The findings in the output of `semgrep --json`.
pub fn parse_semgrep_json(output: &str, configs: &Vec<String>) -> (r: Vec<Finding>)
    ensures
        report::findings_view(r@) == semgrep_findings(
            data::json_parsed(output@),
            text::views(configs@),
        ),
{
    match data::parse_json(output) {
        Some(doc) => read_semgrep_report(&doc, configs),
        None => parts::nothing(),
    }
}

// ── the result ──────────────────────────────────────────────────────────────

/// The status of a run: critical and high findings fail it, others make it partial.
pub open spec fn sast_status(findings: Seq<FindingV>) -> LayerStatus {
    if parts::has_severity(findings, Severity::Critical) || parts::has_severity(
        findings,
        Severity::High,
    ) {
        LayerStatus::Fail
    } else if findings.len() > 0 {
        LayerStatus::Partial
    } else {
        LayerStatus::Pass
    }
}

/// The result of a run with findings.
pub open spec fn analysed(findings: Seq<FindingV>, duration_ms: u64) -> LayerResultV {
    parts::result_of(
        Layer::Hostile,
        "semgrep"@,
        sast_status(findings),
        findings,
        report::no_metrics(),
        duration_ms,
    )
}

/// The result of a run with findings.
pub fn report_findings(findings: Vec<Finding>, duration_ms: u64) -> (r: LayerResult)
    ensures
        r@ == analysed(report::findings_view(findings@), duration_ms),
{
    let status = if parts::any_severity(&findings, Severity::Critical) || parts::any_severity(
        &findings,
        Severity::High,
    ) {
        LayerStatus::Fail
    } else if findings.len() > 0 {
        LayerStatus::Partial
    } else {
        LayerStatus::Pass
    };
    parts::layer_result(
        Layer::Hostile,
        "semgrep",
        status,
        findings,
        LayerMetrics::none(),
        duration_ms,
    )
}

/// The result of running Semgrep with a ruleset and rules.
pub open spec fn reported(
    ruleset: Seq<char>,
    rules: Seq<Seq<char>>,
    outcome: Result<ProcessOutput, String>,
    duration_ms: u64,
) -> LayerResultV {
    match outcome {
        Ok(out) => analysed(
            semgrep_findings(data::json_parsed(out.stdout@), all_configs(ruleset, rules)),
            duration_ms,
        ),
        Err(e) => parts::failure_of(
            Layer::Hostile,
            "semgrep"@,
            parts::found(
                Severity::Critical,
                "SAST_EXECUTION_FAILED"@,
                "Failed to run semgrep: "@ + e@,
                Some(error_command(ruleset, rules)),
                Some("Install semgrep: `pip install semgrep`"@),
            ),
            duration_ms,
        ),
    }
}

/// The result of running Semgrep with a ruleset and rules.
pub fn report_semgrep(
    ruleset: &str,
    custom_rules: &Vec<String>,
    outcome: &Result<ProcessOutput, String>,
    duration_ms: u64,
) -> (r: LayerResult)
    ensures
        r@ == reported(ruleset@, text::views(custom_rules@), *outcome, duration_ms),
{
    match outcome {
        Ok(out) => {
            let configs = list_configs(ruleset, custom_rules);
            let findings = parse_semgrep_json(out.stdout.as_str(), &configs);
            report_findings(findings, duration_ms)
        },
        Err(e) => {
            let message = text::cat("Failed to run semgrep: ", e.as_str());
            let again = build_error_reproduce_cmd(ruleset, custom_rules);
            let f = parts::finding(
                Severity::Critical,
                "SAST_EXECUTION_FAILED",
                message.as_str(),
                Some(again.as_str()),
                Some("Install semgrep: `pip install semgrep`"),
            );
            parts::failure(Layer::Hostile, "semgrep", f, duration_ms)
        },
    }
}

/// `r` is the result of one of the outcomes that running Semgrep in `root` can have.
pub open spec fn is_run<P: SubprocessRunner>(
    before: P,
    after: P,
    ruleset: Seq<char>,
    rules: Seq<Seq<char>>,
    root: Seq<char>,
    r: LayerResultV,
) -> bool {
    exists|o: Result<ProcessOutput, String>, ms: u64|
        #[trigger] before.answers("semgrep"@, semgrep_args(ruleset, rules), root, o, after) && r
            == #[trigger] reported(ruleset, rules, o, ms)
}

impl SemgrepRunner {
    pub fn is_available<P: SubprocessRunner>(&self, proc: &mut P) -> (r: bool)
        ensures
            process::is_probed(*old(proc), "semgrep"@, seq!["--version"@], r, *final(proc)),
    {
        let args = vec!["--version".to_string()];
        assert(text::views(args@) =~= seq!["--version"@]);
        proc.is_available("semgrep", &args)
    }

    /// Runs Semgrep with the rules for the language and those of the project. `workspace`
    /// holds the files at the root of the workspace.
    pub fn run<P: SubprocessRunner>(
        &self,
        proc: &mut P,
        project: &ProjectInfo,
        files: &Files,
        workspace: &Files,
    ) -> (r: LayerResult)
        ensures
            is_run(
                *old(proc),
                *final(proc),
                ruleset_of(project.language),
                distinct_paths(
                    all_rules(
                        *files,
                        project.root@,
                        *workspace,
                        text::opt_view(project.workspace_root),
                    ),
                ),
                project.root@,
                r@,
            ),
    {
        let start = time::started();
        let set = ruleset(project.language);
        let rules = collect_all_custom_rule_paths(
            files,
            project.root.as_str(),
            workspace,
            &project.workspace_root,
        );
        let args = build_semgrep_args(set, &rules);
        let outcome = proc.run("semgrep", &args, project.root.as_str());
        let ms = time::elapsed_ms(&start);
        let r = report_semgrep(set, &rules, &outcome, ms);
        assert(old(proc).answers(
            "semgrep"@,
            semgrep_args(set@, text::views(rules@)),
            project.root@,
            outcome,
            *proc,
        ));
        assert(r@ == reported(set@, text::views(rules@), outcome, ms));
        r
    }
}

// ── laws ────────────────────────────────────────────────────────────────────

/// A result of the level ERROR gives a critical finding, WARNING a high one, INFO an
/// informational one, in whatever case the level is written; one without a level, or of
/// any other, a medium one. Code, message and place are those of the result.
pub proof fn law_levels_are_severities(item: DataV, configs: Seq<Seq<char>>, extra: DataV)
    requires
        item.field("extra"@) == Some(extra),
    ensures
        extra.text_at("severity"@) matches Some(s) ==> {
            &&& text::uppercase(s) == "ERROR"@ ==> result_found(item, configs).severity
                == Severity::Critical
            &&& text::uppercase(s) == "WARNING"@ ==> result_found(item, configs).severity
                == Severity::High
            &&& text::uppercase(s) == "INFO"@ ==> result_found(item, configs).severity
                == Severity::Info
            &&& text::uppercase(s) != "ERROR"@ && text::uppercase(s) != "WARNING"@
                && text::uppercase(s) != "INFO"@ ==> result_found(item, configs).severity
                == Severity::Medium
        },
        extra.text_at("severity"@) is None ==> result_found(item, configs).severity
            == Severity::Medium,
        extra.text_at("message"@) matches Some(s) ==> result_found(item, configs).message == s,
        item.text_at("check_id"@) matches Some(s) ==> result_found(item, configs).code == s,
        item.text_at("path"@) matches Some(p) ==> (item.field("start"@) matches Some(start)
            ==> result_found(item, configs).location == Some(
            p + ":"@ + text::decimal(start.number_or("line"@, 0) as nat),
        )),
{
    reveal_strlit("ERROR");
    reveal_strlit("WARNING");
    reveal_strlit("INFO");
    assert("ERROR"@.len() != "WARNING"@.len() && "ERROR"@.len() != "INFO"@.len());
    assert("WARNING"@.len() != "INFO"@.len());
}

/// Every result of the report gives a finding, in order. The analysis fails with a critical
/// or a high one, is partial with any other, and passes without findings. One that cannot
/// be made fails.
pub proof fn law_analysis_reports_each_result(
    ruleset: Seq<char>,
    rules: Seq<Seq<char>>,
    out: ProcessOutput,
    ms: u64,
    doc: DataV,
    items: Seq<DataV>,
    e: String,
)
    requires
        data::json_parsed(out.stdout@) == Some(doc),
        doc.list_at("results"@) == Some(items),
    ensures
        ({
            let r = reported(ruleset, rules, Ok(out), ms);
            &&& r.name == "hostile"@ && r.runner == "semgrep"@ && r.duration_ms == ms
            &&& r.findings.len() == items.len()
            &&& forall|i: int|
                0 <= i < items.len() ==> #[trigger] r.findings[i] == result_found(
                    items[i],
                    seq![ruleset] + rules,
                )
            &&& r.status == LayerStatus::Fail <==> exists|i: int|
                0 <= i < items.len() && ((#[trigger] r.findings[i]).severity == Severity::Critical
                    || r.findings[i].severity == Severity::High)
            &&& r.status == LayerStatus::Pass <==> items.len() == 0
            &&& r.status != LayerStatus::Skipped
        }),
        ({
            let r = reported(ruleset, rules, Err(e), ms);
            &&& r.status == LayerStatus::Fail && r.findings.len() == 1 && r.findings[0].severity
                == Severity::Critical && r.metrics.failed == 1 && r.runner == "semgrep"@
        }),
{
    let v = results_found(items, seq![ruleset] + rules);
    if parts::has_severity(v, Severity::Critical) {
        let i = choose|i: int| 0 <= i < v.len() && (#[trigger] v[i]).severity == Severity::Critical;
        assert(v[i].severity == Severity::Critical);
    }
    if parts::has_severity(v, Severity::High) {
        let i = choose|i: int| 0 <= i < v.len() && (#[trigger] v[i]).severity == Severity::High;
        assert(v[i].severity == Severity::High);
    }
}

/// Every language is analysed with its own rules.
pub proof fn law_rules_of_languages()
    ensures
        ruleset_of(Language::Python) == "p/python"@,
        ruleset_of(Language::TypeScript) == "p/typescript"@,
        ruleset_of(Language::Rust) == "p/rust"@,
        ruleset_of(Language::Go) == "p/golang"@,
        ruleset_of(Language::Unknown) == "p/default"@,
{
}

/// Semgrep is called with the rules of the language first and then with every custom rule
/// file, each behind its own flag.
pub proof fn law_every_rule_file_is_passed(
    ruleset: Seq<char>,
    rules: Seq<Seq<char>>,
    rule: Seq<char>,
    i: int,
)
    ensures
        semgrep_args(ruleset, rules).len() == 5 + 2 * rules.len(),
        semgrep_args(ruleset, rules)[0] == "--json"@,
        semgrep_args(ruleset, rules)[2] == "--config"@,
        semgrep_args(ruleset, rules)[3] == ruleset,
        semgrep_args(ruleset, rules).last() == "."@,
        0 <= i < rules.len() ==> semgrep_args(ruleset, rules)[4 + 2 * i] == "--config"@
            && semgrep_args(ruleset, rules)[5 + 2 * i] == rules[i],
{
    lemma_rule_args(rules, i);
}

proof fn lemma_rule_args(rules: Seq<Seq<char>>, i: int)
    ensures
        rule_args(rules).len() == 2 * rules.len(),
        0 <= i < rules.len() ==> rule_args(rules)[2 * i] == "--config"@ && rule_args(rules)[2 * i
            + 1] == rules[i],
    decreases rules.len(),
{
    if rules.len() > 0 {
        lemma_rule_args(rules.drop_last(), i);
        let front = rule_args(rules.drop_last());
        assert(rule_args(rules) =~= front + seq!["--config"@, rules.last()]);
        if 0 <= i < rules.len() - 1 {
            assert(rules.drop_last()[i] == rules[i]);
        }
    }
}

/// A rule file is collected exactly where a file with the extension `yml` or `yaml` stands
/// directly in `.barzel/rules`.
pub proof fn law_rule_files_are_collected(files: Files, name: Seq<char>)
    ensures
        order::sorted_texts(rule_names(files.entries@)).contains(name) <==> name.len() > 0
            && text::lacks(name, '/') && (files::extension_of(name) == Some("yml"@)
            || files::extension_of(name) == Some("yaml"@)) && exists|i: int|
            0 <= i < files.entries@.len() && !(#[trigger] files.entries@[i]).dir
                && files.entries@[i].path@ == ".barzel/rules/"@ + name,
{
    order::law_sorting_texts_keeps_them(rule_names(files.entries@), name);
    lemma_rule_names(files.entries@, name);
}

proof fn lemma_rule_name(e: Entry, name: Seq<char>)
    ensures
        rule_name(e) == Some(name) <==> !e.dir && e.path@ == ".barzel/rules/"@ + name && name.len()
            > 0 && text::lacks(name, '/') && (files::extension_of(name) == Some("yml"@)
            || files::extension_of(name) == Some("yaml"@)),
{
    reveal_strlit(".barzel/rules");
    reveal_strlit(".barzel/rules/");
    reveal_strlit("/");
    let lead = ".barzel/rules"@ + "/"@;
    assert(lead =~= ".barzel/rules/"@);
    assert(text::lacks(name, '/') <==> !name.contains('/'));
    assert((lead + name).subrange(0, lead.len() as int) =~= lead);
    assert((lead + name).subrange(lead.len() as int, (lead + name).len() as int) =~= name);
    if text::begins(e.path@, lead) {
        let n = e.path@.subrange(lead.len() as int, e.path@.len() as int);
        assert(e.path@ =~= lead + n);
    }
}

proof fn lemma_rule_names(entries: Seq<Entry>, name: Seq<char>)
    ensures
        rule_names(entries).contains(name) <==> name.len() > 0 && text::lacks(name, '/') && (
        files::extension_of(name) == Some("yml"@) || files::extension_of(name) == Some("yaml"@))
            && exists|i: int|
            0 <= i < entries.len() && !(#[trigger] entries[i]).dir && entries[i].path@
                == ".barzel/rules/"@ + name,
    decreases entries.len(),
{
    if entries.len() > 0 {
        let front = entries.drop_last();
        let e = entries.last();
        let before = rule_names(front);
        let all = rule_names(entries);
        lemma_rule_names(front, name);
        lemma_rule_name(e, name);
        match rule_name(e) {
            Some(own) => {
                assert(all =~= before.push(own));
                assert(all[all.len() - 1] == own);
            },
            None => {},
        }
        if before.contains(name) {
            let k = choose|k: int| 0 <= k < before.len() && before[k] == name;
            assert(all[k] == name);
            let i = choose|i: int|
                0 <= i < front.len() && !(#[trigger] front[i]).dir && front[i].path@
                    == ".barzel/rules/"@ + name;
            assert(entries[i] == front[i]);
        }
        if all.contains(name) && !before.contains(name) {
            let k = choose|k: int| 0 <= k < all.len() && all[k] == name;
            if k < before.len() {
                assert(before[k] == name);
            }
            assert(entries[entries.len() - 1] == e);
        }
        if exists|i: int|
            0 <= i < entries.len() && !(#[trigger] entries[i]).dir && entries[i].path@
                == ".barzel/rules/"@ + name {
            let i = choose|i: int|
                0 <= i < entries.len() && !(#[trigger] entries[i]).dir && entries[i].path@
                    == ".barzel/rules/"@ + name;
            if i < front.len() {
                assert(front[i] == entries[i]);
            }
        }
    }
}

/// The rules of a workspace come before those of the project, which has them alone where it
/// is the workspace itself or stands in none.
pub proof fn law_workspace_rules_come_first(
    files: Files,
    root: Seq<char>,
    workspace: Files,
    ws: Seq<char>,
)
    ensures
        all_rules(files, root, workspace, None) == custom_rules(files, root),
        diff::parts_of(ws) != diff::parts_of(root) ==> all_rules(files, root, workspace, Some(ws))
            == custom_rules(workspace, ws) + custom_rules(files, root),
        ws == root ==> all_rules(files, root, workspace, Some(ws)) == custom_rules(files, root),
{
}

/// What is said where the tool cannot be run.
pub proof fn law_what_a_failed_start_says(ruleset: Seq<char>, rules: Seq<Seq<char>>, e: String, ms: u64)
    ensures
        ({
            let r = reported(ruleset, rules, Err(e), ms);
            &&& r.runner == "semgrep"@ && r.status == LayerStatus::Fail && r.findings.len() == 1
            &&& r.findings[0].severity == Severity::Critical
            &&& r.findings[0].code == "SAST_EXECUTION_FAILED"@
            &&& r.findings[0].message == "Failed to run semgrep: "@ + e@
            &&& r.findings[0].reproduce_cmd == Some(error_command(ruleset, rules))
            &&& r.findings[0].suggestion == Some("Install semgrep: `pip install semgrep`"@)
        }),
{
}

/// How the scan is called: with the rule set, then the rules of the project, on all of it.
pub proof fn law_arguments_of_the_tool(ruleset: Seq<char>, c: Seq<char>)
    ensures
        semgrep_args(ruleset, Seq::empty()) == seq![
            "--json"@,
            "--quiet"@,
            "--config"@,
            ruleset,
            "."@,
        ],
        config_arg(c) == "--config "@ + operational_command::quoted(c),
        error_command(ruleset, Seq::empty()) == "semgrep "@ + text::joined(
            config_args(all_configs(ruleset, Seq::empty())),
            " "@,
        ) + " . 2>&1"@,
{
    assert(semgrep_args(ruleset, Seq::empty()) =~= seq![
        "--json"@,
        "--quiet"@,
        "--config"@,
        ruleset,
        "."@,
    ]);
}

/// What a result says where it leaves something out.
pub proof fn law_what_a_result_says(item: DataV, configs: Seq<Seq<char>>)
    ensures
        item.text_at("check_id"@) is None ==> result_found(item, configs).code == "SAST_FINDING"@,
        item.text_at("check_id"@) matches Some(s) ==> result_found(item, configs).code == s,
        extra_text(item, "message"@) is None ==> result_found(item, configs).message
            == "Security issue detected"@,
        extra_text(item, "message"@) matches Some(s) ==> result_found(item, configs).message == s,
        item.text_at("path"@) matches Some(p) ==> result_found(item, configs).reproduce_cmd == Some(
            "semgrep "@ + text::joined(config_args(configs), " "@) + " --include "@
                + operational_command::quoted(p) + " ."@,
        ),
        item.text_at("path"@) is None ==> result_found(item, configs).reproduce_cmd is None,
{
}

/// A result belongs to the layer and the runner that it is of, whatever came out.
pub proof fn law_where_results_belong(ruleset: Seq<char>, rules: Seq<Seq<char>>, outcome: Result<ProcessOutput, String>, duration_ms: u64)
    ensures
        reported(ruleset, rules, outcome, duration_ms).name == "hostile"@,
        reported(ruleset, rules, outcome, duration_ms).runner == "semgrep"@,
        reported(ruleset, rules, outcome, duration_ms).duration_ms == duration_ms,
{
}

} // verus!
