//! What the runners are made of: findings, results, and the reading of output.
use vstd::prelude::*;

use crate::data;
use crate::data::{Data, DataV};
use crate::plugin::Layer;
use crate::report;
use crate::report::{
    Finding, FindingV, LayerMetrics, LayerResult, LayerResultV, LayerStatus, Severity,
};
use crate::text;

verus! {

// ── findings and results ────────────────────────────────────────────────────

pub open spec fn opt_str(o: Option<&str>) -> Option<Seq<char>> {
    match o {
        Some(s) => Some(s@),
        None => None,
    }
}

/// A finding without a location.
pub open spec fn found(
    severity: Severity,
    code: Seq<char>,
    message: Seq<char>,
    reproduce_cmd: Option<Seq<char>>,
    suggestion: Option<Seq<char>>,
) -> FindingV {
    FindingV { severity, code, message, location: None, reproduce_cmd, suggestion }
}

fn owned(o: Option<&str>) -> (r: Option<String>)
    ensures
        text::opt_view(r) == opt_str(o),
{
    match o {
        Some(s) => Some(s.to_string()),
        None => None,
    }
}

/// A finding without a location.
pub fn finding(
    severity: Severity,
    code: &str,
    message: &str,
    reproduce_cmd: Option<&str>,
    suggestion: Option<&str>,
) -> (r: Finding)
    ensures
        r@ == found(severity, code@, message@, opt_str(reproduce_cmd), opt_str(suggestion)),
{
    Finding {
        severity,
        code: code.to_string(),
        message: message.to_string(),
        location: None,
        reproduce_cmd: owned(reproduce_cmd),
        suggestion: owned(suggestion),
    }
}

/// The result of a runner in its layer.
pub open spec fn result_of(
    layer: Layer,
    runner: Seq<char>,
    status: LayerStatus,
    findings: Seq<FindingV>,
    metrics: LayerMetrics,
    duration_ms: u64,
) -> LayerResultV {
    LayerResultV { name: layer.text(), runner, status, findings, metrics, duration_ms }
}

pub fn layer_result(
    layer: Layer,
    runner: &str,
    status: LayerStatus,
    findings: Vec<Finding>,
    metrics: LayerMetrics,
    duration_ms: u64,
) -> (r: LayerResult)
    ensures
        r@ == result_of(
            layer,
            runner@,
            status,
            report::findings_view(findings@),
            metrics,
            duration_ms,
        ),
{
    LayerResult {
        name: layer.as_str().to_string(),
        runner: runner.to_string(),
        status,
        findings,
        metrics,
        duration_ms,
    }
}

/// The result of a tool that could not be run: one critical finding, one failure.
pub open spec fn failure_of(layer: Layer, runner: Seq<char>, f: FindingV, duration_ms: u64) -> LayerResultV {
    result_of(layer, runner, LayerStatus::Fail, seq![f], report::failed_metrics(), duration_ms)
}

pub fn failure(layer: Layer, runner: &str, f: Finding, duration_ms: u64) -> (r: LayerResult)
    ensures
        r@ == failure_of(layer, runner@, f@, duration_ms),
{
    let findings = one(f);
    layer_result(
        layer,
        runner,
        LayerStatus::Fail,
        findings,
        LayerMetrics::one_failure(),
        duration_ms,
    )
}

/// A list of one finding.
pub fn one(f: Finding) -> (r: Vec<Finding>)
    ensures
        report::findings_view(r@) == seq![f@],
{
    let mut r: Vec<Finding> = Vec::new();
    r.push(f);
    assert(report::findings_view(r@) =~= seq![f@]);
    r
}

/// No findings.
pub fn nothing() -> (r: Vec<Finding>)
    ensures
        report::findings_view(r@) == Seq::<FindingV>::empty(),
{
    let r: Vec<Finding> = Vec::new();
    assert(report::findings_view(r@) =~= Seq::<FindingV>::empty());
    r
}

/// The metrics of tests that ran.
pub open spec fn tested(tests_run: u64, passed: u64, failed: u64) -> LayerMetrics {
    LayerMetrics { tests_run, passed, failed, coverage: None, mutation_score: None }
}

/// A number of tests, as far as 64 bits hold it.
pub open spec fn capped(n: nat) -> u64 {
    if n <= u64::MAX {
        n as u64
    } else {
        u64::MAX
    }
}

/// The sum of two numbers of tests, as far as 64 bits hold it.
pub fn add_up(a: u64, b: u64) -> (r: u64)
    ensures
        r == capped((a + b) as nat),
{
    match a.checked_add(b) {
        Some(n) => n,
        None => u64::MAX,
    }
}

// ── severities ──────────────────────────────────────────────────────────────

/// Some finding has the severity `s`.
pub open spec fn has_severity(findings: Seq<FindingV>, s: Severity) -> bool {
    exists|i: int| 0 <= i < findings.len() && (#[trigger] findings[i]).severity == s
}

pub fn any_severity(findings: &Vec<Finding>, s: Severity) -> (r: bool)
    ensures
        r == has_severity(report::findings_view(findings@), s),
{
    let ghost v = report::findings_view(findings@);
    let mut i: usize = 0;
    while i < findings.len()
        invariant
            i <= findings@.len(),
            v == report::findings_view(findings@),
            forall|k: int| 0 <= k < i ==> (#[trigger] v[k]).severity != s,
        decreases findings@.len() - i,
    {
        if findings[i].severity == s {
            assert(v[i as int].severity == s);
            return true;
        }
        i += 1;
    }
    false
}

/// The status of a scan: critical findings fail it, high and medium ones make it partial.
pub open spec fn scan_status(findings: Seq<FindingV>) -> LayerStatus {
    if has_severity(findings, Severity::Critical) {
        LayerStatus::Fail
    } else if has_severity(findings, Severity::High) || has_severity(findings, Severity::Medium) {
        LayerStatus::Partial
    } else {
        LayerStatus::Pass
    }
}

pub fn status_of_scan(findings: &Vec<Finding>) -> (r: LayerStatus)
    ensures
        r == scan_status(report::findings_view(findings@)),
{
    if any_severity(findings, Severity::Critical) {
        LayerStatus::Fail
    } else if any_severity(findings, Severity::High) || any_severity(findings, Severity::Medium) {
        LayerStatus::Partial
    } else {
        LayerStatus::Pass
    }
}

/// The status of an audit: critical and high findings fail it, medium ones make it partial.
pub open spec fn audit_status(findings: Seq<FindingV>) -> LayerStatus {
    if has_severity(findings, Severity::Critical) || has_severity(findings, Severity::High) {
        LayerStatus::Fail
    } else if has_severity(findings, Severity::Medium) {
        LayerStatus::Partial
    } else {
        LayerStatus::Pass
    }
}

pub fn status_of_audit(findings: &Vec<Finding>) -> (r: LayerStatus)
    ensures
        r == audit_status(report::findings_view(findings@)),
{
    if any_severity(findings, Severity::Critical) || any_severity(findings, Severity::High) {
        LayerStatus::Fail
    } else if any_severity(findings, Severity::Medium) {
        LayerStatus::Partial
    } else {
        LayerStatus::Pass
    }
}

/// The findings, or `passed` where there are none.
pub open spec fn or_passed(findings: Seq<FindingV>, passed: FindingV) -> Seq<FindingV> {
    if findings.len() == 0 {
        seq![passed]
    } else {
        findings
    }
}

/// The findings, or `passed` where there are none.
pub fn or_else(findings: Vec<Finding>, passed: Finding) -> (r: Vec<Finding>)
    ensures
        report::findings_view(r@) == or_passed(report::findings_view(findings@), passed@),
{
    if findings.len() == 0 {
        one(passed)
    } else {
        findings
    }
}

/// An audit is stricter than a scan: it fails wherever a scan with the same findings fails,
/// and passes exactly where the scan passes.
pub proof fn law_audits_are_stricter_than_scans(findings: Seq<FindingV>)
    ensures
        scan_status(findings) == LayerStatus::Fail ==> audit_status(findings) == LayerStatus::Fail,
        audit_status(findings) == LayerStatus::Pass <==> scan_status(findings) == LayerStatus::Pass,
{
}

// ── output ──────────────────────────────────────────────────────────────────

/// The documents that the JSON texts among `lines` write, in order.
pub open spec fn all_parsed(lines: Seq<Seq<char>>) -> Seq<DataV>
    decreases lines.len(),
{
    if lines.len() == 0 {
        Seq::empty()
    } else {
        match data::json_parsed(lines.last()) {
            Some(d) => all_parsed(lines.drop_last()).push(d),
            None => all_parsed(lines.drop_last()),
        }
    }
}

/// The documents that the JSON texts among `lines` write, in order.
pub fn parse_lines(lines: &Vec<String>) -> (r: Vec<Data>)
    ensures
        data::trees(r@) == all_parsed(text::views(lines@)),
        r@.len() <= lines@.len(),
{
    let ghost all = text::views(lines@);
    let mut r: Vec<Data> = Vec::new();
    let mut i: usize = 0;
    assert(all.subrange(0, 0) =~= Seq::<Seq<char>>::empty());
    assert(data::trees(r@) =~= Seq::<DataV>::empty());
    while i < lines.len()
        invariant
            i <= lines@.len(),
            r@.len() <= i,
            all == text::views(lines@),
            data::trees(r@) == all_parsed(all.subrange(0, i as int)),
        decreases lines@.len() - i,
    {
        proof {
            let next = all.subrange(0, i + 1);
            assert(next.drop_last() =~= all.subrange(0, i as int));
            assert(next.last() == lines@[i as int]@);
        }
        let ghost before = data::trees(r@);
        match data::parse_json(lines[i].as_str()) {
            Some(d) => {
                r.push(d);
                assert(data::trees(r@) =~= before.push(d@));
            },
            None => {},
        }
        i += 1;
    }
    assert(all.subrange(0, i as int) =~= all);
    r
}

/// The lines of a text, each without the whitespace around it.
pub open spec fn trimmed_lines_of(output: Seq<char>) -> Seq<Seq<char>> {
    text::lines_of(output).map_values(|l: Seq<char>| text::trimmed(l))
}

pub fn trimmed_lines(output: &str) -> (r: Vec<String>)
    ensures
        text::views(r@) == trimmed_lines_of(output@),
{
    let lines = text::lines(output);
    let ghost all = text::lines_of(output@);
    let mut r: Vec<String> = Vec::new();
    let mut i: usize = 0;
    while i < lines.len()
        invariant
            i <= lines@.len(),
            r@.len() == i,
            all == text::views(lines@),
            forall|k: int| 0 <= k < i ==> (#[trigger] r@[k])@ == text::trimmed(all[k]),
        decreases lines@.len() - i,
    {
        assert(all[i as int] == lines@[i as int]@);
        r.push(text::trim(lines[i].as_str()));
        i += 1;
    }
    assert(text::views(r@) =~= trimmed_lines_of(output@));
    r
}

/// The documents in an output: those that its lines write, each by itself, and then the
/// one that it writes as a whole.
pub open spec fn documents_in(output: Seq<char>) -> Seq<DataV> {
    match data::json_parsed(output) {
        Some(d) => all_parsed(trimmed_lines_of(output)).push(d),
        None => all_parsed(trimmed_lines_of(output)),
    }
}

pub fn documents(output: &str) -> (r: Vec<Data>)
    ensures
        data::trees(r@) == documents_in(output@),
{
    let lines = trimmed_lines(output);
    let mut r = parse_lines(&lines);
    let ghost before = data::trees(r@);
    match data::parse_json(output) {
        Some(d) => {
            r.push(d);
            assert(data::trees(r@) =~= before.push(d@));
        },
        None => {},
    }
    r
}

/// The findings in the first document in which `f` finds a report, from position `i` on;
/// none where there is no such document.
pub open spec fn first_report(
    docs: Seq<DataV>,
    f: spec_fn(DataV) -> Option<Seq<FindingV>>,
    i: int,
) -> Seq<FindingV>
    decreases docs.len() - i,
{
    if i < 0 || i >= docs.len() {
        Seq::empty()
    } else {
        match f(docs[i]) {
            Some(found) => found,
            None => first_report(docs, f, i + 1),
        }
    }
}

/// The first `n` items, or all where there are fewer.
pub open spec fn at_most<T>(s: Seq<T>, n: int) -> Seq<T> {
    if s.len() <= n {
        s
    } else {
        s.subrange(0, n)
    }
}

/// The first `n` items, or all where there are fewer.
pub fn keep_first(v: Vec<String>, n: usize) -> (r: Vec<String>)
    ensures
        text::views(r@) == at_most(text::views(v@), n as int),
{
    let ghost all = text::views(v@);
    let mut r = v;
    if r.len() > n {
        r.truncate(n);
        assert(text::views(r@) =~= all.subrange(0, n as int));
    }
    r
}

/// What `f` gives for each of the lines, one after the other.
pub open spec fn gathered(
    lines: Seq<Seq<char>>,
    f: spec_fn(Seq<char>) -> Seq<Seq<char>>,
) -> Seq<Seq<char>>
    decreases lines.len(),
{
    if lines.len() == 0 {
        Seq::empty()
    } else {
        gathered(lines.drop_last(), f) + f(lines.last())
    }
}

pub open spec fn opt_strip_both(s: Option<Seq<char>>, c: char) -> Option<Seq<char>> {
    match s {
        Some(t) => Some(text::strip_both(t, c)),
        None => None,
    }
}

/// The number in the last word before `label`; 0 where there is none.
pub open spec fn count_ahead(line: Seq<char>, label: Seq<char>) -> u64 {
    text::number_of(text::word_ahead_of(line, label))
}

pub fn count_before(line: &str, label: &str) -> (r: u64)
    ensures
        r == count_ahead(line@, label@),
{
    text::number_or_none(&text::word_ahead(line, label))
}

/// The number in the last word before `label`, with the commas around it left aside; 0
/// where there is none.
pub open spec fn listed_count(line: Seq<char>, label: Seq<char>) -> u64 {
    text::number_of(opt_strip_both(text::word_ahead_of(line, label), ','))
}

pub fn count_in_list(line: &str, label: &str) -> (r: u64)
    ensures
        r == listed_count(line@, label@),
{
    match text::word_ahead(line, label) {
        Some(w) => text::number_or_none(&Some(text::trim_char(w.as_str(), ','))),
        None => 0,
    }
}

/// Names after a colon; nothing where there are none.
pub open spec fn named(names: Seq<Seq<char>>) -> Seq<char> {
    if names.len() == 0 {
        Seq::empty()
    } else {
        ": "@ + text::joined(names, ", "@)
    }
}

pub fn name_list(names: &Vec<String>) -> (r: String)
    ensures
        r@ == named(text::views(names@)),
{
    if names.len() == 0 {
        String::new()
    } else {
        let list = text::join(names, ", ");
        text::cat(": ", list.as_str())
    }
}

/// The arguments with which a shell runs a command.
pub open spec fn shell_args(cmd: Seq<char>) -> Seq<Seq<char>> {
    seq!["-c"@, cmd]
}

/// Adds a finding.
pub fn push_finding(v: &mut Vec<Finding>, f: Finding)
    ensures
        report::findings_view(final(v)@) == report::findings_view(old(v)@).push(f@),
{
    let ghost before = report::findings_view(v@);
    v.push(f);
    assert(report::findings_view(v@) =~= before.push(f@));
}

/// Adds findings.
pub fn append_findings(v: &mut Vec<Finding>, more: Vec<Finding>)
    ensures
        report::findings_view(final(v)@) == report::findings_view(old(v)@) + report::findings_view(
            more@,
        ),
{
    let ghost before = report::findings_view(v@);
    let ghost added = report::findings_view(more@);
    let mut more = more;
    v.append(&mut more);
    assert(report::findings_view(v@) =~= before + added);
}

// ── laws ────────────────────────────────────────────────────────────────────

/// Some finding is critical, some is high, some is medium: a scan fails with a critical
/// one, else is partial with a high or a medium one, else passes; an audit fails with a
/// high one too.
pub proof fn law_worst_finding_decides(findings: Seq<FindingV>, i: int)
    ensures
        0 <= i < findings.len() && findings[i].severity == Severity::Critical ==> scan_status(
            findings,
        ) == LayerStatus::Fail && audit_status(findings) == LayerStatus::Fail,
        0 <= i < findings.len() && findings[i].severity == Severity::High ==> scan_status(findings)
            != LayerStatus::Pass && audit_status(findings) == LayerStatus::Fail,
        0 <= i < findings.len() && findings[i].severity == Severity::Medium ==> scan_status(
            findings,
        ) != LayerStatus::Pass && audit_status(findings) != LayerStatus::Pass,
        scan_status(findings) == LayerStatus::Fail ==> exists|k: int|
            0 <= k < findings.len() && (#[trigger] findings[k]).severity == Severity::Critical,
        scan_status(findings) == LayerStatus::Partial ==> exists|k: int|
            0 <= k < findings.len() && ((#[trigger] findings[k]).severity == Severity::High
                || findings[k].severity == Severity::Medium),
        audit_status(findings) == LayerStatus::Fail ==> exists|k: int|
            0 <= k < findings.len() && ((#[trigger] findings[k]).severity == Severity::Critical
                || findings[k].severity == Severity::High),
        audit_status(findings) == LayerStatus::Partial ==> exists|k: int|
            0 <= k < findings.len() && (#[trigger] findings[k]).severity == Severity::Medium,
        scan_status(findings) != LayerStatus::Skipped,
        audit_status(findings) != LayerStatus::Skipped,
{
    if scan_status(findings) == LayerStatus::Partial {
        if has_severity(findings, Severity::High) {
            let k = choose|k: int|
                0 <= k < findings.len() && (#[trigger] findings[k]).severity == Severity::High;
            assert(findings[k].severity == Severity::High);
        }
    }
}

/// A tool that could not be run fails its layer: one finding, one failure.
pub proof fn law_what_cannot_run_fails(layer: Layer, runner: Seq<char>, f: FindingV, ms: u64)
    ensures
        failure_of(layer, runner, f, ms).status == LayerStatus::Fail,
        failure_of(layer, runner, f, ms).findings == seq![f],
        failure_of(layer, runner, f, ms).metrics.failed == 1,
        failure_of(layer, runner, f, ms).name == layer.text(),
        failure_of(layer, runner, f, ms).runner == runner,
{
}

/// The first document in which there is a report is the one that counts; without one there
/// is nothing.
pub proof fn law_first_report_counts(
    docs: Seq<DataV>,
    f: spec_fn(DataV) -> Option<Seq<FindingV>>,
    k: int,
)
    ensures
        0 <= k < docs.len() && f(docs[k]) is Some && (forall|j: int|
            0 <= j < k ==> f(#[trigger] docs[j]) is None) ==> first_report(docs, f, 0)
            == f(docs[k])->0,
        (forall|j: int| 0 <= j < docs.len() ==> f(#[trigger] docs[j]) is None) ==> first_report(
            docs,
            f,
            0,
        ) == Seq::<FindingV>::empty(),
{
    if 0 <= k < docs.len() && f(docs[k]) is Some && (forall|j: int|
        0 <= j < k ==> f(#[trigger] docs[j]) is None) {
        lemma_report_at(docs, f, 0, k);
    }
    if forall|j: int| 0 <= j < docs.len() ==> f(#[trigger] docs[j]) is None {
        lemma_no_report(docs, f, 0);
    }
}

proof fn lemma_report_at(
    docs: Seq<DataV>,
    f: spec_fn(DataV) -> Option<Seq<FindingV>>,
    i: int,
    k: int,
)
    requires
        0 <= i <= k < docs.len(),
        f(docs[k]) is Some,
        forall|j: int| i <= j < k ==> f(#[trigger] docs[j]) is None,
    ensures
        first_report(docs, f, i) == f(docs[k])->0,
    decreases k - i,
{
    if i < k {
        assert(f(docs[i]) is None);
        lemma_report_at(docs, f, i + 1, k);
    }
}

proof fn lemma_no_report(docs: Seq<DataV>, f: spec_fn(DataV) -> Option<Seq<FindingV>>, i: int)
    requires
        0 <= i <= docs.len(),
        forall|j: int| 0 <= j < docs.len() ==> f(#[trigger] docs[j]) is None,
    ensures
        first_report(docs, f, i) == Seq::<FindingV>::empty(),
    decreases docs.len() - i,
{
    if i < docs.len() {
        assert(f(docs[i]) is None);
        lemma_no_report(docs, f, i + 1);
    }
}

/// An output that is one line and writes a document holds that document and nothing else
/// before it.
pub proof fn law_document_of_one_line(line: Seq<char>)
    requires
        line.len() > 0,
        text::lacks(line, '\n'),
        data::json_parsed(text::trimmed(line)) is Some,
    ensures
        documents_in(line).len() > 0,
        documents_in(line)[0] == data::json_parsed(text::trimmed(line))->0,
{
    text::lemma_before_len_is(line, '\n', line.len() as int);
    assert(text::lines_of(line) =~= seq![line]);
    let lines = trimmed_lines_of(line);
    assert(lines =~= seq![text::trimmed(line)]);
    assert(lines.drop_last() =~= Seq::<Seq<char>>::empty());
    assert(all_parsed(lines.drop_last()) =~= Seq::<DataV>::empty());
    assert(all_parsed(lines) =~= seq![data::json_parsed(text::trimmed(line))->0]);
}

/// The documents of lines are those of all lines that write one, in order; the output as a
/// whole comes last.
pub proof fn law_documents_of_lines(front: Seq<Seq<char>>, line: Seq<char>, output: Seq<char>)
    ensures
        all_parsed(Seq::empty()) == Seq::<DataV>::empty(),
        all_parsed(front.push(line)) == (match data::json_parsed(line) {
            Some(d) => all_parsed(front).push(d),
            None => all_parsed(front),
        }),
        documents_in(output) == all_parsed(
            text::lines_of(output).map_values(|l: Seq<char>| text::trimmed(l)),
        ) + (match data::json_parsed(output) {
            Some(d) => seq![d],
            None => Seq::empty(),
        }),
{
    assert(front.push(line).drop_last() =~= front);
    let lines = text::lines_of(output).map_values(|l: Seq<char>| text::trimmed(l));
    assert(trimmed_lines_of(output) =~= lines);
    match data::json_parsed(output) {
        Some(d) => {
            assert(all_parsed(lines).push(d) =~= all_parsed(lines) + seq![d]);
        },
        None => {
            assert(all_parsed(lines) + Seq::<DataV>::empty() =~= all_parsed(lines));
        },
    }
}

/// A number that stands as a word before a label is the one that is counted, where the
/// label stands nowhere before.
pub proof fn law_counts_read_back(front: Seq<char>, n: u64, label: Seq<char>, rest: Seq<char>)
    requires
        front.len() > 0 ==> text::is_space(front.last()),
        forall|j: int|
            0 <= j < front.len() + text::decimal(n as nat).len() + 1 ==> !text::occurs_at(
                front + text::decimal(n as nat) + seq![' '] + label + rest,
                label,
                j,
            ),
    ensures
        count_ahead(front + text::decimal(n as nat) + seq![' '] + label + rest, label) == n,
        listed_count(front + text::decimal(n as nat) + seq![' '] + label + rest, label) == n,
{
    let digits = text::decimal(n as nat);
    let ahead = front + digits + seq![' '];
    let line = ahead + label + rest;
    assert(line =~= front + digits + seq![' '] + label + rest);
    text::law_text_is_found(ahead, label, rest);
    text::lemma_find_from(line, label, 0);
    let i = text::find_text(line, label)->0;
    assert(i == ahead.len()) by {
        if i < ahead.len() {
            assert(!text::occurs_at(front + digits + seq![' '] + label + rest, label, i));
        }
    }
    assert(line.subrange(0, i) =~= ahead);
    text::lemma_decimal_reads_back(n as nat);
    text::lemma_number_round_trip(n);
    text::law_last_word_before_space(front, digits);
    assert(text::is_digit(digits[0]) && text::is_digit(digits[digits.len() - 1]));
    text::lemma_strip_front_is(digits, ',', 0);
    assert(digits.subrange(0, digits.len() as int) =~= digits);
    text::lemma_strip_back_is(digits, ',', digits.len() as int);
}

/// The line states the number `n` in front of the label, behind `front`, and has the label
/// nowhere before.
pub open spec fn is_stated(
    line: Seq<char>,
    front: Seq<char>,
    n: u64,
    label: Seq<char>,
    rest: Seq<char>,
) -> bool {
    &&& line == front + text::decimal(n as nat) + label + rest
    &&& front.len() > 0 ==> text::is_space(front.last())
    &&& forall|j: int|
        0 <= j < front.len() + text::decimal(n as nat).len() ==> !text::occurs_at(line, label, j)
}

/// The line states the number `n` in front of the label, or nothing where `n` is 0.
pub open spec fn states(line: Seq<char>, n: u64, label: Seq<char>) -> bool {
    ||| exists|front: Seq<char>, rest: Seq<char>| is_stated(line, front, n, label, rest)
    ||| n == 0 && !text::has(line, label)
}

/// What a line states in front of a label is what is counted.
pub proof fn law_stated_numbers_count(line: Seq<char>, n: u64, label: Seq<char>)
    requires
        states(line, n, label),
    ensures
        count_ahead(line, label) == n,
        listed_count(line, label) == n,
        n > 0 ==> text::has(line, label),
{
    text::lemma_has_find(line, label);
    if exists|front: Seq<char>, rest: Seq<char>| is_stated(line, front, n, label, rest) {
        let (front, rest) = choose|front: Seq<char>, rest: Seq<char>|
            is_stated(line, front, n, label, rest);
        let digits = text::decimal(n as nat);
        let ahead = front + digits;
        text::law_text_is_found(ahead, label, rest);
        text::lemma_find_from(line, label, 0);
        let i = text::find_text(line, label)->0;
        assert(i == ahead.len()) by {
            if i < ahead.len() {
                assert(!text::occurs_at(line, label, i));
            }
        }
        assert(line.subrange(0, i) =~= ahead);
        text::lemma_decimal_reads_back(n as nat);
        text::lemma_number_round_trip(n);
        assert forall|k: int| front.len() <= k < ahead.len() implies !text::is_space(ahead[k]) by {
            assert(ahead[k] == digits[k - front.len()]);
            assert(text::is_digit(digits[k - front.len()]));
        }
        text::lemma_last_word(ahead, front.len() as int);
        assert(ahead.subrange(front.len() as int, ahead.len() as int) =~= digits);
        assert(text::is_digit(digits[0]) && text::is_digit(digits[digits.len() - 1]));
        text::lemma_strip_front_is(digits, ',', 0);
        assert(digits.subrange(0, digits.len() as int) =~= digits);
        text::lemma_strip_back_is(digits, ',', digits.len() as int);
    }
}

/// What is gathered from lines is what is found in each of them, one after the other.
pub proof fn law_gathered_line_by_line(
    lines: Seq<Seq<char>>,
    line: Seq<char>,
    f: spec_fn(Seq<char>) -> Seq<Seq<char>>,
)
    ensures
        gathered(Seq::empty(), f) == Seq::<Seq<char>>::empty(),
        gathered(lines.push(line), f) == gathered(lines, f) + f(line),
{
    assert(lines.push(line).drop_last() =~= lines);
}

/// At most so many items are kept, and those from the front.
pub proof fn law_first_items_are_kept<T>(s: Seq<T>, n: int)
    requires
        n >= 0,
    ensures
        at_most(s, n).len() == (if s.len() <= n {
            s.len() as int
        } else {
            n
        }),
        forall|i: int| 0 <= i < at_most(s, n).len() ==> #[trigger] at_most(s, n)[i] == s[i],
{
}

/// Names are listed behind a colon, with commas between them; without names nothing is.
pub proof fn law_names_are_listed(a: Seq<char>, b: Seq<char>)
    ensures
        named(Seq::empty()) == Seq::<char>::empty(),
        named(seq![a]) == ": "@ + a,
        named(seq![a, b]) == ": "@ + (a + ", "@ + b),
{
    assert(seq![a, b].drop_last() =~= seq![a]);
}

/// A number with a comma behind it counts too.
pub proof fn law_commas_do_not_count(front: Seq<char>, n: u64, label: Seq<char>, rest: Seq<char>)
    requires
        front.len() > 0 ==> text::is_space(front.last()),
        forall|j: int|
            0 <= j < front.len() + text::decimal(n as nat).len() + 2 ==> !text::occurs_at(
                front + (text::decimal(n as nat) + seq![',']) + seq![' '] + label + rest,
                label,
                j,
            ),
    ensures
        listed_count(
            front + (text::decimal(n as nat) + seq![',']) + seq![' '] + label + rest,
            label,
        ) == n,
{
    let digits = text::decimal(n as nat);
    let word = digits + seq![','];
    let ahead = front + word + seq![' '];
    let line = ahead + label + rest;
    assert(line =~= front + word + seq![' '] + label + rest);
    text::law_text_is_found(ahead, label, rest);
    text::lemma_find_from(line, label, 0);
    let i = text::find_text(line, label)->0;
    assert(i == ahead.len()) by {
        if i < ahead.len() {
            assert(!text::occurs_at(front + word + seq![' '] + label + rest, label, i));
        }
    }
    assert(line.subrange(0, i) =~= ahead);
    text::lemma_decimal_reads_back(n as nat);
    text::lemma_number_round_trip(n);
    assert forall|k: int| 0 <= k < word.len() implies !text::is_space(#[trigger] word[k]) by {
        if k < digits.len() {
            assert(text::is_digit(digits[k]));
        }
    }
    text::law_last_word_before_space(front, word);
    assert(text::is_digit(digits[0]) && text::is_digit(digits[digits.len() - 1]));
    assert(word[0] == digits[0]);
    text::lemma_strip_front_is(word, ',', 0);
    assert(word.subrange(0, word.len() as int) =~= word);
    text::lemma_strip_back_is(word, ',', digits.len() as int);
    assert(word.subrange(0, digits.len() as int) =~= digits);
}

} // verus!
