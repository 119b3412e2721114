//! ESLint: quality and security of JavaScript code.
use vstd::prelude::*;

use crate::data;
use crate::data::{Data, DataV};
use crate::detect::{Language, ProjectInfo};
use crate::files;
use crate::files::Files;
use crate::plugin::{Layer, TestRunner};
use crate::process::{ProcessOutput, SubprocessRunner};
use crate::report;
use crate::report::{Finding, FindingV, LayerMetrics, LayerResult, LayerResultV, LayerStatus, Severity};
use crate::runners::parts;
use crate::text;
use crate::time;

verus! {

#[derive(Debug, Default)]
pub struct EslintRunner;

pub const SKIP: &'static str = "eslint not found — install: `npm install -D eslint` and add an eslint config to catch security and quality issues";

impl TestRunner for EslintRunner {
    fn name(&self) -> (r: &'static str)
        ensures
            r@ == "eslint"@,
    {
        "eslint"
    }

    fn layer(&self) -> (r: Layer)
        ensures
            r == Layer::Hostile,
    {
        Layer::Hostile
    }

    fn skip_message(&self) -> (r: &'static str)
        ensures
            r@ == SKIP@,
    {
        SKIP
    }
}

/// A project configures ESLint: in a file of its own, or in `package.json`.
pub open spec fn configured(files: Files) -> bool {
    ||| files.has(".eslintrc"@)
    ||| files.has(".eslintrc.js"@)
    ||| files.has(".eslintrc.cjs"@)
    ||| files.has(".eslintrc.json"@)
    ||| files.has(".eslintrc.yaml"@)
    ||| files.has(".eslintrc.yml"@)
    ||| files.has("eslint.config.js"@)
    ||| files.has("eslint.config.mjs"@)
    ||| files.has("eslint.config.ts"@)
    ||| text::has(files.content("package.json"@), "\"eslintConfig\""@)
}

pub fn has_eslint_config(files: &Files) -> (r: bool)
    ensures
        r == configured(*files),
{
    if files.is_there(".eslintrc") || files.is_there(".eslintrc.js") || files.is_there(
        ".eslintrc.cjs",
    ) || files.is_there(".eslintrc.json") || files.is_there(".eslintrc.yaml") || files.is_there(
        ".eslintrc.yml",
    ) || files.is_there("eslint.config.js") || files.is_there("eslint.config.mjs")
        || files.is_there("eslint.config.ts") {
        return true;
    }
    let pkg = files.read("package.json");
    text::contains(pkg.as_str(), "\"eslintConfig\"")
}

// ── messages ────────────────────────────────────────────────────────────────

/// A rule as part of a code.
pub open spec fn rule_code(rule: Seq<char>) -> Seq<char> {
    text::uppercase(text::replaced(text::replaced(rule, '/', "_"@), '-', "_"@))
}

/// The finding for a message on a file.
pub open spec fn message_found(filepath: Seq<char>, msg: DataV) -> FindingV {
    let rule = msg.text_or("ruleId"@, "unknown"@);
    FindingV {
        severity: if msg.number_or("severity"@, 1) == 2 {
            Severity::High
        } else {
            Severity::Medium
        },
        code: "ESLINT_"@ + rule_code(rule),
        message: "["@ + rule + "] "@ + msg.text_or("message"@, "lint error"@),
        location: if filepath.len() == 0 {
            None
        } else {
            Some(filepath + ":"@ + text::decimal(msg.number_or("line"@, 0) as nat))
        },
        reproduce_cmd: Some("./node_modules/.bin/eslint "@ + filepath + " 2>&1"@),
        suggestion: Some(
            "Fix rule `"@ + rule + "`. Run `eslint --fix` for auto-fixable issues."@,
        ),
    }
}

pub open spec fn messages_found(filepath: Seq<char>, msgs: Seq<DataV>) -> Seq<FindingV> {
    msgs.map_values(|m: DataV| message_found(filepath, m))
}

/// The findings for a file.
pub open spec fn file_found(file: DataV) -> Seq<FindingV> {
    match file.list_at("messages"@) {
        Some(msgs) => messages_found(file.text_or("filePath"@, ""@), msgs),
        None => Seq::empty(),
    }
}

pub open spec fn files_found(list: Seq<DataV>) -> Seq<FindingV>
    decreases list.len(),
{
    if list.len() == 0 {
        Seq::empty()
    } else {
        files_found(list.drop_last()) + file_found(list.last())
    }
}

/// The findings in a report, if the document is one.
pub open spec fn eslint_report(doc: DataV) -> Option<Seq<FindingV>> {
    match doc.as_list() {
        Some(list) => Some(files_found(list)),
        None => None,
    }
}

fn read_message(filepath: &str, msg: &Data) -> (r: Finding)
    ensures
        r@ == message_found(filepath@, msg@),
{
    let rule = msg.str_or("ruleId", "unknown");
    let message = msg.str_or("message", "lint error");
    let line = msg.u64_or("line", 0);
    let flat = text::replace(text::replace(rule.as_str(), '/', "_").as_str(), '-', "_");
    let upper = flat.as_str().to_uppercase();
    Finding {
        severity: if msg.u64_or("severity", 1) == 2 {
            Severity::High
        } else {
            Severity::Medium
        },
        code: text::cat("ESLINT_", upper.as_str()),
        message: text::cat4("[", rule.as_str(), "] ", message.as_str()),
        location: if filepath.is_empty() {
            None
        } else {
            Some(text::cat3(filepath, ":", text::number(line).as_str()))
        },
        reproduce_cmd: Some(text::cat3("./node_modules/.bin/eslint ", filepath, " 2>&1")),
        suggestion: Some(
            text::cat3(
                "Fix rule `",
                rule.as_str(),
                "`. Run `eslint --fix` for auto-fixable issues.",
            ),
        ),
    }
}

/// The findings for a file.
pub fn eslint_file_to_findings(file: &Data) -> (r: Vec<Finding>)
    ensures
        report::findings_view(r@) == file_found(file@),
{
    let filepath = file.str_or("filePath", "");
    let mut r = parts::nothing();
    let msgs = match file.get_array("messages") {
        Some(v) => v,
        None => {
            return r;
        },
    };
    let ghost all = data::trees(msgs@);
    let mut i: usize = 0;
    assert(messages_found(filepath@, all.subrange(0, 0)) =~= Seq::<FindingV>::empty());
    while i < msgs.len()
        invariant
            i <= msgs@.len(),
            all == data::trees(msgs@),
            report::findings_view(r@) == messages_found(filepath@, all.subrange(0, i as int)),
        decreases msgs@.len() - i,
    {
        assert(all[i as int] == msgs@[i as int]@);
        let f = read_message(filepath.as_str(), &msgs[i]);
        assert(messages_found(filepath@, all.subrange(0, i + 1)) =~= messages_found(
            filepath@,
            all.subrange(0, i as int),
        ).push(f@));
        parts::push_finding(&mut r, f);
        i += 1;
    }
    assert(all.subrange(0, i as int) =~= all);
    r
}

/// The findings in a report, if the document is one.
pub fn extract_eslint_findings(doc: &Data) -> (r: Option<Vec<Finding>>)
    ensures
        match r {
            Some(v) => eslint_report(doc@) == Some(report::findings_view(v@)),
            None => eslint_report(doc@) is None,
        },
{
    let list = match doc.as_array() {
        Some(v) => v,
        None => {
            return None;
        },
    };
    let ghost all = data::trees(list@);
    let mut r = parts::nothing();
    let mut i: usize = 0;
    assert(all.subrange(0, 0) =~= Seq::<DataV>::empty());
    while i < list.len()
        invariant
            i <= list@.len(),
            all == data::trees(list@),
            report::findings_view(r@) == files_found(all.subrange(0, i as int)),
        decreases list@.len() - i,
    {
        proof {
            let next = all.subrange(0, i + 1);
            assert(next.drop_last() =~= all.subrange(0, i as int));
            assert(next.last() == list@[i as int]@);
        }
        parts::append_findings(&mut r, eslint_file_to_findings(&list[i]));
        i += 1;
    }
    assert(all.subrange(0, i as int) =~= all);
    Some(r)
}

/// The findings in the first report among some documents.
pub open spec fn eslint_findings(docs: Seq<DataV>) -> Seq<FindingV> {
    parts::first_report(docs, |d: DataV| eslint_report(d), 0)
}

pub fn find_eslint_report(docs: &Vec<Data>) -> (r: Vec<Finding>)
    ensures
        report::findings_view(r@) == eslint_findings(data::trees(docs@)),
{
    let ghost all = data::trees(docs@);
    let ghost f = |d: DataV| eslint_report(d);
    let mut i: usize = 0;
    while i < docs.len()
        invariant
            i <= docs@.len(),
            all == data::trees(docs@),
            f == (|d: DataV| eslint_report(d)),
            parts::first_report(all, f, i as int) == eslint_findings(all),
        decreases docs@.len() - i,
    {
        assert(all[i as int] == docs@[i as int]@);
        match extract_eslint_findings(&docs[i]) {
            Some(v) => {
                return v;
            },
            None => {},
        }
        i += 1;
    }
    parts::nothing()
}

/// The findings in the output of `eslint --format=json`.
pub fn parse_eslint_json(output: &str) -> (r: Vec<Finding>)
    ensures
        report::findings_view(r@) == eslint_findings(parts::documents_in(output@)),
{
    let docs = parts::documents(output);
    find_eslint_report(&docs)
}

// ── the result ──────────────────────────────────────────────────────────────

pub open spec fn passed() -> FindingV {
    parts::found(Severity::Info, "ESLINT_PASSED"@, "No ESLint issues found"@, None, None)
}

/// The status of a run: never worse than partial.
pub open spec fn lint_status(success: bool, findings: Seq<FindingV>) -> LayerStatus {
    if !success && (parts::has_severity(findings, Severity::High) || parts::has_severity(
        findings,
        Severity::Critical,
    )) {
        LayerStatus::Partial
    } else {
        LayerStatus::Pass
    }
}

/// The result of a run with findings.
pub open spec fn linted(success: bool, findings: Seq<FindingV>, duration_ms: u64) -> LayerResultV {
    parts::result_of(
        Layer::Hostile,
        "eslint"@,
        lint_status(success, findings),
        parts::or_passed(findings, passed()),
        report::no_metrics(),
        duration_ms,
    )
}

/// The result of a run with findings.
pub fn report_findings(success: bool, findings: Vec<Finding>, duration_ms: u64) -> (r: LayerResult)
    ensures
        r@ == linted(success, report::findings_view(findings@), duration_ms),
{
    let status = if !success && (parts::any_severity(&findings, Severity::High)
        || parts::any_severity(&findings, Severity::Critical)) {
        LayerStatus::Partial
    } else {
        LayerStatus::Pass
    };
    let findings = parts::or_else(
        findings,
        parts::finding(Severity::Info, "ESLINT_PASSED", "No ESLint issues found", None, None),
    );
    parts::layer_result(
        Layer::Hostile,
        "eslint",
        status,
        findings,
        LayerMetrics::none(),
        duration_ms,
    )
}

/// The result of running ESLint as `cmd`.
pub open spec fn reported(
    cmd: Seq<char>,
    outcome: Result<ProcessOutput, String>,
    duration_ms: u64,
) -> LayerResultV {
    match outcome {
        Ok(out) => linted(
            out.success,
            eslint_findings(parts::documents_in(out.both())),
            duration_ms,
        ),
        Err(e) => parts::failure_of(
            Layer::Hostile,
            "eslint"@,
            parts::found(
                Severity::Critical,
                "ESLINT_EXECUTION_FAILED"@,
                "Failed to run eslint: "@ + e@,
                Some(cmd + " . 2>&1 | head -30"@),
                Some("Install: `npm install -D eslint` and add .eslintrc"@),
            ),
            duration_ms,
        ),
    }
}

/// The result of running ESLint as `cmd`.
pub fn report_eslint(cmd: &str, outcome: &Result<ProcessOutput, String>, duration_ms: u64) -> (r:
    LayerResult)
    ensures
        r@ == reported(cmd@, *outcome, duration_ms),
{
    match outcome {
        Ok(out) => {
            let findings = parse_eslint_json(out.combined().as_str());
            report_findings(out.success, findings, duration_ms)
        },
        Err(e) => {
            let message = text::cat("Failed to run eslint: ", e.as_str());
            let again = text::cat(cmd, " . 2>&1 | head -30");
            let f = parts::finding(
                Severity::Critical,
                "ESLINT_EXECUTION_FAILED",
                message.as_str(),
                Some(again.as_str()),
                Some("Install: `npm install -D eslint` and add .eslintrc"),
            );
            parts::failure(Layer::Hostile, "eslint", f, duration_ms)
        },
    }
}

pub open spec fn eslint_args() -> Seq<Seq<char>> {
    seq!["."@, "--format=json"@, "--ext=.ts,.tsx,.js,.jsx"@, "--max-warnings=0"@]
}

/// `r` is the result of one of the outcomes that running `cmd` in `root` can have.
pub open spec fn is_run<P: SubprocessRunner>(
    before: P,
    after: P,
    cmd: Seq<char>,
    root: Seq<char>,
    r: LayerResultV,
) -> bool {
    exists|o: Result<ProcessOutput, String>, ms: u64|
        #[trigger] before.answers(cmd, eslint_args(), root, o, after) && r == #[trigger] reported(cmd, o, ms)
}

impl EslintRunner {
    pub fn is_available(&self, project: &ProjectInfo, files: &Files) -> (r: bool)
        ensures
            r == (project.language == Language::TypeScript && files.has(
                "node_modules/.bin/eslint"@,
            ) && configured(*files)),
    {
        if project.language != Language::TypeScript {
            return false;
        }
        files.is_there("node_modules/.bin/eslint") && has_eslint_config(files)
    }

    pub fn run<P: SubprocessRunner>(&self, proc: &mut P, project: &ProjectInfo) -> (r: LayerResult)
        ensures
            is_run(
                *old(proc),
                *final(proc),
                files::below(project.root@, "node_modules/.bin/eslint"@),
                project.root@,
                r@,
            ),
    {
        let start = time::started();
        let cmd = files::join_below(project.root.as_str(), "node_modules/.bin/eslint");
        let args = vec![
            ".".to_string(),
            "--format=json".to_string(),
            "--ext=.ts,.tsx,.js,.jsx".to_string(),
            "--max-warnings=0".to_string(),
        ];
        assert(text::views(args@) =~= eslint_args());
        let outcome = proc.run(cmd.as_str(), &args, project.root.as_str());
        let ms = time::elapsed_ms(&start);
        let r = report_eslint(cmd.as_str(), &outcome, ms);
        assert(old(proc).answers(cmd@, eslint_args(), project.root@, outcome, *proc));
        assert(r@ == reported(cmd@, outcome, ms));
        r
    }
}

// ── laws ────────────────────────────────────────────────────────────────────

/// A message of severity 2 is a high finding, any other a medium one; its text and its
/// place are those of the message.
pub proof fn law_errors_are_high(filepath: Seq<char>, msg: DataV)
    ensures
        msg.number_at("severity"@) == Some(2u64) ==> message_found(filepath, msg).severity
            == Severity::High,
        msg.number_at("severity"@) != Some(2u64) ==> message_found(filepath, msg).severity
            == Severity::Medium,
        filepath.len() > 0 ==> message_found(filepath, msg).location == Some(
            filepath + ":"@ + text::decimal(msg.number_or("line"@, 0) as nat),
        ),
        msg.text_at("ruleId"@) matches Some(rule) ==> (msg.text_at("message"@) matches Some(t)
            ==> message_found(filepath, msg).message == "["@ + rule + "] "@ + t),
{
}

/// Every message of every file gives a finding, file by file and in order.
pub proof fn law_each_message_is_reported(list: Seq<DataV>, file: DataV, msgs: Seq<DataV>)
    ensures
        files_found(Seq::empty()) == Seq::<FindingV>::empty(),
        file.list_at("messages"@) == Some(msgs) ==> files_found(list.push(file)) == files_found(
            list,
        ) + Seq::new(
            msgs.len(),
            |i: int| message_found(file.text_or("filePath"@, ""@), msgs[i]),
        ),
        file.list_at("messages"@) is None ==> files_found(list.push(file)) == files_found(list),
{
    assert(list.push(file).drop_last() =~= list);
    if file.list_at("messages"@) == Some(msgs) {
        assert(file_found(file) =~= Seq::new(
            msgs.len(),
            |i: int| message_found(file.text_or("filePath"@, ""@), msgs[i]),
        ));
    }
    if file.list_at("messages"@) is None {
        assert(files_found(list) + Seq::<FindingV>::empty() =~= files_found(list));
    }
}

/// A lint run is partial exactly where it did not succeed and found something high; else it
/// passes. The findings are those of the first document that is a list. A run that cannot
/// be made fails.
pub proof fn law_high_findings_make_it_partial(
    cmd: Seq<char>,
    out: ProcessOutput,
    ms: u64,
    k: int,
    list: Seq<DataV>,
    e: String,
)
    requires
        0 <= k < parts::documents_in(out.both()).len(),
        parts::documents_in(out.both())[k] == DataV::List(list),
        forall|j: int|
            0 <= j < k ==> !(#[trigger] parts::documents_in(out.both())[j] is List),
    ensures
        ({
            let r = reported(cmd, Ok(out), ms);
            let v = files_found(list);
            &&& r.name == "hostile"@ && r.runner == "eslint"@ && r.duration_ms == ms
            &&& v.len() > 0 ==> r.findings == v
            &&& v.len() == 0 ==> r.findings.len() == 1 && r.findings[0].severity == Severity::Info
            &&& r.status == LayerStatus::Partial <==> !out.success && exists|i: int|
                0 <= i < v.len() && ((#[trigger] v[i]).severity == Severity::High || v[i].severity
                    == Severity::Critical)
            &&& r.status == LayerStatus::Partial || r.status == LayerStatus::Pass
        }),
        ({
            let r = reported(cmd, Err(e), ms);
            &&& r.status == LayerStatus::Fail && r.findings.len() == 1 && r.findings[0].severity
                == Severity::Critical && r.metrics.failed == 1 && r.runner == "eslint"@
        }),
{
    let docs = parts::documents_in(out.both());
    let f = |d: DataV| eslint_report(d);
    assert forall|j: int| 0 <= j < k implies f(#[trigger] docs[j]) is None by {
        assert(!(docs[j] is List));
    }
    parts::law_first_report_counts(docs, f, k);
    let v = files_found(list);
    assert(eslint_findings(docs) == v);
    if parts::has_severity(v, Severity::High) {
        let i = choose|i: int| 0 <= i < v.len() && (#[trigger] v[i]).severity == Severity::High;
        assert(v[i].severity == Severity::High);
    }
    if parts::has_severity(v, Severity::Critical) {
        let i = choose|i: int| 0 <= i < v.len() && (#[trigger] v[i]).severity == Severity::Critical;
        assert(v[i].severity == Severity::Critical);
    }
}

/// ESLint counts as configured exactly with one of its files or a field of the manifest.
pub proof fn law_what_configures_eslint(files: Files)
    ensures
        configured(files) <==> files.has(".eslintrc"@) || files.has(".eslintrc.js"@) || files.has(
            ".eslintrc.cjs"@,
        ) || files.has(".eslintrc.json"@) || files.has(".eslintrc.yaml"@) || files.has(
            ".eslintrc.yml"@,
        ) || files.has("eslint.config.js"@) || files.has("eslint.config.mjs"@) || files.has(
            "eslint.config.ts"@,
        ) || text::has(files.content("package.json"@), "\"eslintConfig\""@),
{
}

/// How the tool is called.
pub proof fn law_arguments_of_the_tool()
    ensures
        eslint_args() == seq!["."@, "--format=json"@, "--ext=.ts,.tsx,.js,.jsx"@, "--max-warnings=0"@],
{
}

/// What is said where nothing was found.
pub proof fn law_what_a_clean_run_says()
    ensures
        passed().severity == Severity::Info,
        passed().code == "ESLINT_PASSED"@,
        passed().message == "No ESLint issues found"@,
{
}

/// What is said where the tool cannot be run.
pub proof fn law_what_a_failed_start_says(cmd: Seq<char>, e: String, ms: u64)
    ensures
        ({
            let r = reported(cmd, Err(e), ms);
            &&& r.runner == "eslint"@ && r.status == LayerStatus::Fail && r.findings.len() == 1
            &&& r.findings[0].severity == Severity::Critical
            &&& r.findings[0].code == "ESLINT_EXECUTION_FAILED"@
            &&& r.findings[0].message == "Failed to run eslint: "@ + e@
            &&& r.findings[0].reproduce_cmd == Some(cmd + " . 2>&1 | head -30"@)
            &&& r.findings[0].suggestion == Some("Install: `npm install -D eslint` and add .eslintrc"@)
        }),
{
}

/// What a message of the linter says.
pub proof fn law_what_a_lint_says(path: Seq<char>, msg: DataV, rule: Seq<char>)
    requires
        msg.text_or("ruleId"@, "unknown"@) == rule,
    ensures
        message_found(path, msg).code == "ESLINT_"@ + text::uppercase(
            text::replaced(text::replaced(rule, '/', "_"@), '-', "_"@),
        ),
        msg.text_at("message"@) matches Some(m) ==> message_found(path, msg).message == "["@ + rule
            + "] "@ + m,
        msg.text_at("message"@) is None ==> message_found(path, msg).message == "["@ + rule + "] "@
            + "lint error"@,
        message_found(path, msg).reproduce_cmd == Some(
            "./node_modules/.bin/eslint "@ + path + " 2>&1"@,
        ),
        message_found(path, msg).suggestion == Some(
            "Fix rule `"@ + rule + "`. Run `eslint --fix` for auto-fixable issues."@,
        ),
        path.len() > 0 ==> message_found(path, msg).location == Some(
            path + ":"@ + text::decimal(msg.number_or("line"@, 0) as nat),
        ),
        path.len() == 0 ==> message_found(path, msg).location is None,
{
}

/// A result belongs to the layer and the runner that it is of, whatever came out.
pub proof fn law_where_results_belong(cmd: Seq<char>, outcome: Result<ProcessOutput, String>, duration_ms: u64)
    ensures
        reported(cmd, outcome, duration_ms).name == "hostile"@,
        reported(cmd, outcome, duration_ms).runner == "eslint"@,
        reported(cmd, outcome, duration_ms).duration_ms == duration_ms,
{
}

} // verus!
