//! cargo-fuzz: targets and crashes of fuzzing.
use vstd::prelude::*;

use crate::detect::{Language, ProjectInfo};
use crate::diff;
use crate::files;
use crate::files::{Entry, Files};
use crate::plugin::{Layer, TestRunner};
use crate::process;
use crate::process::{ProcessOutput, SubprocessRunner};
use crate::report;
use crate::report::{Finding, FindingV, LayerMetrics, LayerResult, LayerResultV, LayerStatus, Severity};
use crate::runners::parts;
use crate::text;
use crate::time;

verus! {

#[derive(Debug, Default)]
pub struct CargoFuzzRunner;

pub const SKIP: &'static str = "No fuzz targets found — create a `fuzz/` directory and run `cargo fuzz init` to enable continuous fuzzing (requires nightly)";

pub const REPLAY_HINT: &'static str = "Replay the crash with the artifact file to reproduce, then fix the root cause. Delete the artifact once fixed to clear this finding.";

pub const BUDGET_HINT: &'static str = "Run fuzzing in CI with a time budget: `cargo fuzz run <target> -- -max_total_time=300`";

impl TestRunner for CargoFuzzRunner {
    fn name(&self) -> (r: &'static str)
        ensures
            r@ == "cargo-fuzz"@,
    {
        "cargo-fuzz"
    }

    fn layer(&self) -> (r: Layer)
        ensures
            r == Layer::Hostile,
    {
        Layer::Hostile
    }

    fn skip_message(&self) -> (r: &'static str)
        ensures
            r@ == SKIP@,
    {
        SKIP
    }
}

// ── targets ─────────────────────────────────────────────────────────────────

/// The names among the lines of a listing.
pub open spec fn listed_name(line: Seq<char>) -> Seq<Seq<char>> {
    let t = text::trimmed(line);
    if t.len() > 0 {
        seq![t]
    } else {
        Seq::empty()
    }
}

pub open spec fn listed_names(output: Seq<char>) -> Seq<Seq<char>> {
    parts::gathered(text::lines_of(output), |l: Seq<char>| listed_name(l))
}

fn read_names(output: &str) -> (r: Vec<String>)
    ensures
        text::views(r@) == listed_names(output@),
{
    let lines = text::lines(output);
    let ghost all = text::lines_of(output@);
    let ghost f = |l: Seq<char>| listed_name(l);
    let mut r: Vec<String> = Vec::new();
    let mut i: usize = 0;
    assert(all.subrange(0, 0) =~= Seq::<Seq<char>>::empty());
    assert(text::views(r@) =~= Seq::<Seq<char>>::empty());
    while i < lines.len()
        invariant
            i <= lines@.len(),
            all == text::views(lines@),
            f == (|l: Seq<char>| listed_name(l)),
            text::views(r@) == parts::gathered(all.subrange(0, i as int), f),
        decreases lines@.len() - i,
    {
        proof {
            let next = all.subrange(0, i + 1);
            assert(next.drop_last() =~= all.subrange(0, i as int));
            assert(next.last() == lines@[i as int]@);
        }
        let ghost before = text::views(r@);
        let ghost line = lines@[i as int]@;
        let t = text::trim(lines[i].as_str());
        if !t.as_str().is_empty() {
            r.push(t);
        }
        assert(text::views(r@) =~= before + listed_name(line));
        i += 1;
    }
    assert(all.subrange(0, i as int) =~= all);
    r
}

/// The target that a source file under `fuzz/fuzz_targets` holds.
pub open spec fn target_in(e: Entry) -> Option<Seq<char>> {
    match files::child_name(e, "fuzz/fuzz_targets"@) {
        Some(name) => if files::extension_of(name) == Some("rs"@) {
            Some(name.subrange(0, name.len() - 3))
        } else {
            None
        },
        None => None,
    }
}

pub open spec fn targets_in(entries: Seq<Entry>) -> Seq<Seq<char>>
    decreases entries.len(),
{
    if entries.len() == 0 {
        Seq::empty()
    } else {
        match target_in(entries.last()) {
            Some(name) => targets_in(entries.drop_last()).push(name),
            None => targets_in(entries.drop_last()),
        }
    }
}

proof fn lemma_extension_fits(name: Seq<char>)
    requires
        files::extension_of(name) == Some("rs"@),
    ensures
        name.len() >= 3,
{
    reveal_strlit("rs");
    let dot = files::last_of(name, '.', name.len() as int);
    files::lemma_last_of(name, '.', name.len() as int);
    assert(name.subrange(dot + 1, name.len() as int).len() == 2);
}

fn target_name(e: &Entry) -> (r: Option<String>)
    ensures
        text::opt_view(r) == target_in(*e),
{
    match files::child(e, "fuzz/fuzz_targets") {
        Some(name) => {
            let rust = match files::extension(name.as_str()) {
                Some(x) => text::same(x.as_str(), "rs"),
                None => false,
            };
            if rust {
                proof {
                    lemma_extension_fits(name@);
                }
                let n = text::chars(name.as_str()).len();
                Some(text::part(name.as_str(), 0, n - 3))
            } else {
                None
            }
        },
        None => None,
    }
}

/// The targets whose sources stand under `fuzz/fuzz_targets`.
pub fn scan_target_directory(files: &Files) -> (r: Vec<String>)
    ensures
        text::views(r@) == targets_in(files.entries@),
{
    let ghost all = files.entries@;
    let mut r: Vec<String> = Vec::new();
    let mut i: usize = 0;
    assert(all.subrange(0, 0) =~= Seq::<Entry>::empty());
    assert(text::views(r@) =~= Seq::<Seq<char>>::empty());
    while i < files.entries.len()
        invariant
            i <= files.entries@.len(),
            all == files.entries@,
            text::views(r@) == targets_in(all.subrange(0, i as int)),
        decreases files.entries@.len() - i,
    {
        proof {
            let next = all.subrange(0, i + 1);
            assert(next.drop_last() =~= all.subrange(0, i as int));
            assert(next.last() == files.entries@[i as int]);
        }
        let ghost before = text::views(r@);
        match target_name(&files.entries[i]) {
            Some(name) => {
                r.push(name);
                assert(text::views(r@) =~= before.push(name@));
            },
            None => {},
        }
        i += 1;
    }
    assert(all.subrange(0, i as int) =~= all);
    r
}

/// The targets of a project: as `cargo fuzz list` gives them, else as the files show them.
pub open spec fn fuzz_targets(outcome: Result<ProcessOutput, String>, files: Files) -> Seq<Seq<char>> {
    match outcome {
        Ok(out) => if out.success {
            listed_names(out.stdout@)
        } else {
            targets_in(files.entries@)
        },
        Err(_) => targets_in(files.entries@),
    }
}

/// The targets of a project: as `cargo fuzz list` gives them, else as the files show them.
pub fn list_fuzz_targets(outcome: &Result<ProcessOutput, String>, files: &Files) -> (r: Vec<String>)
    ensures
        text::views(r@) == fuzz_targets(*outcome, *files),
{
    match outcome {
        Ok(out) => if out.success {
            read_names(out.stdout.as_str())
        } else {
            scan_target_directory(files)
        },
        Err(_) => scan_target_directory(files),
    }
}

// ── crashes ─────────────────────────────────────────────────────────────────

/// The crash artifact that an entry of `dir` is, as a path below `root`.
pub open spec fn crash_in(e: Entry, dir: Seq<char>, root: Seq<char>) -> Option<Seq<char>> {
    match files::child_name(e, dir) {
        Some(name) => if text::begins(name, "."@) || text::ends(name, ".md"@) {
            None
        } else {
            Some(files::below(root, e.path@))
        },
        None => None,
    }
}

pub open spec fn crashes_in_dir(entries: Seq<Entry>, dir: Seq<char>, root: Seq<char>) -> Seq<Seq<char>>
    decreases entries.len(),
{
    if entries.len() == 0 {
        Seq::empty()
    } else {
        match crash_in(entries.last(), dir, root) {
            Some(p) => crashes_in_dir(entries.drop_last(), dir, root).push(p),
            None => crashes_in_dir(entries.drop_last(), dir, root),
        }
    }
}

/// The crash artifacts in the directories among the first `n` entries.
pub open spec fn crashes_up_to(entries: Seq<Entry>, root: Seq<char>, n: int) -> Seq<Seq<char>>
    decreases n,
{
    if n <= 0 {
        Seq::empty()
    } else {
        let front = crashes_up_to(entries, root, n - 1);
        let e = entries[n - 1];
        if e.dir && files::child_name(e, "fuzz/artifacts"@) is Some {
            front + crashes_in_dir(entries, e.path@, root)
        } else {
            front
        }
    }
}

fn find_in_dir(files: &Files, dir: &str, root: &str) -> (r: Vec<String>)
    ensures
        text::views(r@) == crashes_in_dir(files.entries@, dir@, root@),
{
    let ghost all = files.entries@;
    let mut r: Vec<String> = Vec::new();
    let mut i: usize = 0;
    assert(all.subrange(0, 0) =~= Seq::<Entry>::empty());
    assert(text::views(r@) =~= Seq::<Seq<char>>::empty());
    while i < files.entries.len()
        invariant
            i <= files.entries@.len(),
            all == files.entries@,
            text::views(r@) == crashes_in_dir(all.subrange(0, i as int), dir@, root@),
        decreases files.entries@.len() - i,
    {
        proof {
            let next = all.subrange(0, i + 1);
            assert(next.drop_last() =~= all.subrange(0, i as int));
            assert(next.last() == files.entries@[i as int]);
        }
        let ghost before = text::views(r@);
        match files::child(&files.entries[i], dir) {
            Some(name) => {
                if !text::starts_with(name.as_str(), ".") && !text::ends_with(name.as_str(), ".md") {
                    let path = files::join_below(root, files.entries[i].path.as_str());
                    r.push(path);
                    assert(text::views(r@) =~= before.push(path@));
                }
            },
            None => {},
        }
        i += 1;
    }
    assert(all.subrange(0, i as int) =~= all);
    r
}

/// The crash artifacts of earlier runs: the files in the directories of `fuzz/artifacts`,
/// without hidden ones and notes.
pub fn find_crash_artifacts(files: &Files, root: &str) -> (r: Vec<String>)
    ensures
        text::views(r@) == crashes_up_to(files.entries@, root@, files.entries@.len() as int),
{
    let mut r: Vec<String> = Vec::new();
    let mut i: usize = 0;
    assert(text::views(r@) =~= Seq::<Seq<char>>::empty());
    while i < files.entries.len()
        invariant
            i <= files.entries@.len(),
            text::views(r@) == crashes_up_to(files.entries@, root@, i as int),
        decreases files.entries@.len() - i,
    {
        let e = &files.entries[i];
        if e.dir && files::child(e, "fuzz/artifacts").is_some() {
            let mut more = find_in_dir(files, e.path.as_str(), root);
            let ghost before = text::views(r@);
            let ghost added = text::views(more@);
            r.append(&mut more);
            assert(text::views(r@) =~= before + added);
        }
        i += 1;
    }
    r
}

/// The target that an artifact belongs to: the directory that it stands in.
pub open spec fn target_of(path: Seq<char>) -> Seq<char> {
    let p = diff::parts_of(path);
    if p.len() >= 2 && p[p.len() - 2] != ".."@ && p[p.len() - 2] != "."@ {
        p[p.len() - 2]
    } else {
        "fuzz_target_1"@
    }
}

pub fn infer_target_from_artifact(artifact_path: &str) -> (r: String)
    ensures
        r@ == target_of(artifact_path@),
{
    let p = diff::parts(artifact_path);
    assert(text::views(p@).len() == p@.len());
    if p.len() >= 2 {
        assert(text::views(p@)[p@.len() - 2] == p@[p@.len() - 2]@);
        let dir = p[p.len() - 2].as_str();
        if !text::same(dir, "..") && !text::same(dir, ".") {
            return dir.to_string();
        }
    }
    "fuzz_target_1".to_string()
}

// ── the result ──────────────────────────────────────────────────────────────

pub open spec fn crash_found(path: Seq<char>) -> FindingV {
    parts::found(
        Severity::Critical,
        "FUZZ_CRASH_ARTIFACT"@,
        "Crash artifact found: "@ + path + " — a previous fuzz run triggered a crash"@,
        Some("cargo fuzz run "@ + target_of(path) + " "@ + path + " 2>&1"@),
        Some(REPLAY_HINT@),
    )
}

pub open spec fn crashes_found(paths: Seq<Seq<char>>) -> Seq<FindingV> {
    paths.map_values(|p: Seq<char>| crash_found(p))
}

pub open spec fn targets_found(targets: Seq<Seq<char>>) -> FindingV {
    parts::found(
        Severity::Info,
        "FUZZ_TARGETS_AVAILABLE"@,
        text::decimal(targets.len()) + " fuzz target(s) available: "@ + text::joined(
            targets,
            ", "@,
        ) + " — no crashes found"@,
        Some("cargo fuzz run "@ + targets[0] + " -- -max_total_time=60 2>&1"@),
        Some(BUDGET_HINT@),
    )
}

/// A finding for each crash; without crashes one that lists the targets.
pub open spec fn fuzz_findings(targets: Seq<Seq<char>>, crashes: Seq<Seq<char>>) -> Seq<FindingV> {
    if crashes.len() == 0 && targets.len() > 0 {
        seq![targets_found(targets)]
    } else {
        crashes_found(crashes)
    }
}

/// The result for a project with these targets and crashes.
pub open spec fn reported(
    targets: Seq<Seq<char>>,
    crashes: Seq<Seq<char>>,
    duration_ms: u64,
) -> LayerResultV {
    parts::result_of(
        Layer::Hostile,
        "cargo-fuzz"@,
        if crashes.len() > 0 {
            LayerStatus::Fail
        } else if targets.len() == 0 {
            LayerStatus::Skipped
        } else {
            LayerStatus::Pass
        },
        fuzz_findings(targets, crashes),
        parts::tested(targets.len() as u64, 0, crashes.len() as u64),
        duration_ms,
    )
}

fn list_findings(targets: &Vec<String>, crashes: &Vec<String>) -> (r: Vec<Finding>)
    ensures
        report::findings_view(r@) == fuzz_findings(text::views(targets@), text::views(crashes@)),
{
    let ghost all = text::views(crashes@);
    assert(text::views(targets@).len() == targets@.len());
    if crashes.len() == 0 && targets.len() > 0 {
        assert(text::views(targets@)[0] == targets@[0]@);
        let message = text::cat4(
            text::number(targets.len() as u64).as_str(),
            " fuzz target(s) available: ",
            text::join(targets, ", ").as_str(),
            " — no crashes found",
        );
        let cmd = text::cat3(
            "cargo fuzz run ",
            targets[0].as_str(),
            " -- -max_total_time=60 2>&1",
        );
        return parts::one(
            parts::finding(
                Severity::Info,
                "FUZZ_TARGETS_AVAILABLE",
                message.as_str(),
                Some(cmd.as_str()),
                Some(BUDGET_HINT),
            ),
        );
    }
    let mut r = parts::nothing();
    let mut i: usize = 0;
    assert(crashes_found(all.subrange(0, 0)) =~= Seq::<FindingV>::empty());
    while i < crashes.len()
        invariant
            i <= crashes@.len(),
            all == text::views(crashes@),
            report::findings_view(r@) == crashes_found(all.subrange(0, i as int)),
        decreases crashes@.len() - i,
    {
        assert(all[i as int] == crashes@[i as int]@);
        let path = crashes[i].as_str();
        let target = infer_target_from_artifact(path);
        let message = text::cat3(
            "Crash artifact found: ",
            path,
            " — a previous fuzz run triggered a crash",
        );
        let cmd = text::cat5("cargo fuzz run ", target.as_str(), " ", path, " 2>&1");
        let f = parts::finding(
            Severity::Critical,
            "FUZZ_CRASH_ARTIFACT",
            message.as_str(),
            Some(cmd.as_str()),
            Some(REPLAY_HINT),
        );
        assert(crashes_found(all.subrange(0, i + 1)) =~= crashes_found(
            all.subrange(0, i as int),
        ).push(f@));
        parts::push_finding(&mut r, f);
        i += 1;
    }
    assert(all.subrange(0, i as int) =~= all);
    r
}

/// The result for a project with these targets and crashes.
pub fn report_fuzz(targets: &Vec<String>, crashes: &Vec<String>, duration_ms: u64) -> (r: LayerResult)
    ensures
        r@ == reported(text::views(targets@), text::views(crashes@), duration_ms),
{
    let findings = list_findings(targets, crashes);
    assert(text::views(targets@).len() == targets@.len());
    assert(text::views(crashes@).len() == crashes@.len());
    let status = if crashes.len() > 0 {
        LayerStatus::Fail
    } else if targets.len() == 0 {
        LayerStatus::Skipped
    } else {
        LayerStatus::Pass
    };
    let metrics = LayerMetrics {
        tests_run: targets.len() as u64,
        passed: 0,
        failed: crashes.len() as u64,
        coverage: None,
        mutation_score: None,
    };
    parts::layer_result(Layer::Hostile, "cargo-fuzz", status, findings, metrics, duration_ms)
}

pub open spec fn list_args() -> Seq<Seq<char>> {
    seq!["fuzz"@, "list"@]
}

/// `r` is the result of one of the outcomes that listing the targets can have.
pub open spec fn is_run<P: SubprocessRunner>(
    before: P,
    after: P,
    root: Seq<char>,
    files: Files,
    r: LayerResultV,
) -> bool {
    exists|o: Result<ProcessOutput, String>, ms: u64|
        #[trigger] before.answers("cargo"@, list_args(), root, o, after) && r == #[trigger] reported(
            fuzz_targets(o, files),
            crashes_up_to(files.entries@, root, files.entries@.len() as int),
            ms,
        )
}

impl CargoFuzzRunner {
    pub fn is_available<P: SubprocessRunner>(
        &self,
        proc: &mut P,
        project: &ProjectInfo,
        files: &Files,
    ) -> (r: bool)
        ensures
            if project.language != Language::Rust || !files.has("fuzz"@) {
                !r && *final(proc) == *old(proc)
            } else {
                process::is_probed(*old(proc), "cargo"@, seq!["fuzz"@, "--version"@], r, *final(proc))
            },
    {
        if project.language != Language::Rust {
            return false;
        }
        if !files.is_there("fuzz") {
            return false;
        }
        let args = vec!["fuzz".to_string(), "--version".to_string()];
        assert(text::views(args@) =~= seq!["fuzz"@, "--version"@]);
        proc.is_available("cargo", &args)
    }

    pub fn run<P: SubprocessRunner>(&self, proc: &mut P, project: &ProjectInfo, files: &Files) -> (r: LayerResult)
        ensures
            is_run(*old(proc), *final(proc), project.root@, *files, r@),
    {
        let start = time::started();
        let args = vec!["fuzz".to_string(), "list".to_string()];
        assert(text::views(args@) =~= list_args());
        let outcome = proc.run("cargo", &args, project.root.as_str());
        let targets = list_fuzz_targets(&outcome, files);
        let crashes = find_crash_artifacts(files, project.root.as_str());
        let ms = time::elapsed_ms(&start);
        let r = report_fuzz(&targets, &crashes, ms);
        assert(old(proc).answers("cargo"@, list_args(), project.root@, outcome, *proc));
        r
    }
}

// ── laws ────────────────────────────────────────────────────────────────────

/// Fuzzing fails with any crash, is skipped without targets, and passes else. Every crash
/// is a critical finding that names its file; without crashes the targets are told of.
pub proof fn law_crashes_fail(targets: Seq<Seq<char>>, crashes: Seq<Seq<char>>, ms: u64, i: int)
    requires
        targets.len() <= u64::MAX,
        crashes.len() <= u64::MAX,
    ensures
        ({
            let r = reported(targets, crashes, ms);
            &&& r.name == "hostile"@ && r.runner == "cargo-fuzz"@ && r.duration_ms == ms
            &&& r.status == LayerStatus::Fail <==> crashes.len() > 0
            &&& r.status == LayerStatus::Skipped <==> crashes.len() == 0 && targets.len() == 0
            &&& r.status == LayerStatus::Pass <==> crashes.len() == 0 && targets.len() > 0
            &&& crashes.len() > 0 ==> r.findings.len() == crashes.len()
            &&& 0 <= i < crashes.len() ==> r.findings[i].severity == Severity::Critical
                && r.findings[i].message == "Crash artifact found: "@ + crashes[i]
                + " — a previous fuzz run triggered a crash"@
            &&& r.status == LayerStatus::Pass ==> r.findings.len() == 1 && r.findings[0].severity
                == Severity::Info
            &&& r.status == LayerStatus::Skipped ==> r.findings.len() == 0
            &&& r.metrics.tests_run == targets.len() && r.metrics.failed == crashes.len()
        }),
{
}

/// The targets are the names that the tool lists, one in each line; where it cannot list
/// them, the Rust files directly in `fuzz/fuzz_targets`.
pub proof fn law_where_targets_come_from(
    out: ProcessOutput,
    files: Files,
    e: String,
    entries: Seq<Entry>,
    entry: Entry,
    name: Seq<char>,
)
    ensures
        out.success ==> fuzz_targets(Ok(out), files) == listed_names(out.stdout@),
        !out.success ==> fuzz_targets(Ok(out), files) == targets_in(files.entries@),
        fuzz_targets(Err(e), files) == targets_in(files.entries@),
        name.len() > 0 && text::trimmed(name) == name ==> listed_name(name) == seq![name],
        listed_name(Seq::empty()) == Seq::<Seq<char>>::empty(),
        entry.path@ == "fuzz/fuzz_targets/"@ + name + ".rs"@ && name.len() > 0 && text::lacks(
            name,
            '/',
        ) ==> targets_in(entries.push(entry)) == targets_in(entries).push(name),
        !text::begins(entry.path@, "fuzz/fuzz_targets/"@) ==> targets_in(entries.push(entry))
            == targets_in(entries),
{
    assert(entries.push(entry).drop_last() =~= entries);
    reveal_strlit("fuzz/fuzz_targets");
    reveal_strlit("fuzz/fuzz_targets/");
    reveal_strlit("/");
    reveal_strlit(".rs");
    reveal_strlit("rs");
    let lead = "fuzz/fuzz_targets"@ + "/"@;
    assert(lead =~= "fuzz/fuzz_targets/"@);
    let file = name + ".rs"@;
    if entry.path@ == "fuzz/fuzz_targets/"@ + name + ".rs"@ && name.len() > 0 && text::lacks(
        name,
        '/',
    ) {
        assert(entry.path@ =~= lead + file);
        assert(entry.path@.subrange(0, lead.len() as int) =~= lead);
        assert(entry.path@.subrange(lead.len() as int, entry.path@.len() as int) =~= file);
        assert(!file.contains('/')) by {
            assert forall|i: int| 0 <= i < file.len() implies file[i] != '/' by {
                if i < name.len() {
                    assert(file[i] == name[i]);
                } else {
                    assert(file[i] == ".rs"@[i - name.len()]);
                }
            }
        }
        files::law_extension_is_behind_the_last_dot(file, "rs"@);
        assert(file.subrange(file.len() - 3, file.len() as int) =~= seq!['.'] + "rs"@);
        assert(file.subrange(0, file.len() - 3) =~= name);
    }
    assert(text::trimmed(Seq::<char>::empty()).len() == 0);
}

/// A file in a directory of `fuzz/artifacts` is a crash, but for hidden ones and notes.
pub proof fn law_what_is_a_crash(entry: Entry, dir: Seq<char>, root: Seq<char>, name: Seq<char>)
    requires
        entry.path@ == dir + "/"@ + name,
        name.len() > 0,
        text::lacks(name, '/'),
    ensures
        name[0] != '.' && !text::ends(name, ".md"@) ==> crash_in(entry, dir, root) == Some(
            files::below(root, entry.path@),
        ),
        name[0] == '.' || text::ends(name, ".md"@) ==> crash_in(entry, dir, root) is None,
{
    reveal_strlit(".");
    let lead = dir + "/"@;
    assert(entry.path@.subrange(0, lead.len() as int) =~= lead);
    assert(entry.path@.subrange(lead.len() as int, entry.path@.len() as int) =~= name);
    assert(!name.contains('/'));
    assert(name.subrange(0, 1) =~= seq![name[0]]);
    assert("."@ =~= seq!['.']);
    if name[0] != '.' {
        assert(name.subrange(0, 1)[0] != "."@[0]);
    }
}

/// All crashes of all directories of `fuzz/artifacts` are found.
pub proof fn law_every_artifact_is_found(entries: Seq<Entry>, root: Seq<char>, n: int)
    requires
        0 <= n < entries.len(),
    ensures
        entries[n].dir && files::child_name(entries[n], "fuzz/artifacts"@) is Some
            ==> crashes_up_to(entries, root, n + 1) == crashes_up_to(entries, root, n)
            + crashes_in_dir(entries, entries[n].path@, root),
        !entries[n].dir || files::child_name(entries[n], "fuzz/artifacts"@) is None
            ==> crashes_up_to(entries, root, n + 1) == crashes_up_to(entries, root, n),
        crashes_up_to(entries, root, 0) == Seq::<Seq<char>>::empty(),
{
}

/// The target of a crash is the directory that its file stands in.
pub proof fn law_directory_names_the_target(names: Seq<Seq<char>>)
    requires
        names.len() >= 2,
        forall|i: int| 0 <= i < names.len() ==> diff::is_part(#[trigger] names[i]),
        names[names.len() - 2] != ".."@,
    ensures
        target_of(diff::path_of(names)) == names[names.len() - 2],
        target_of(seq!['/'] + diff::path_of(names)) == names[names.len() - 2],
{
    diff::law_parts_read_back(names);
    assert(diff::is_part(names[names.len() - 2]));
}

/// How the tool is called.
pub proof fn law_arguments_of_the_tool()
    ensures
        list_args() == seq!["fuzz"@, "list"@],
{
}

/// What is said of a crash and of targets without one.
pub proof fn law_what_fuzzing_says(path: Seq<char>, targets: Seq<Seq<char>>)
    requires
        targets.len() > 0,
    ensures
        crash_found(path).severity == Severity::Critical,
        crash_found(path).code == "FUZZ_CRASH_ARTIFACT"@,
        crash_found(path).message == "Crash artifact found: "@ + path
            + " — a previous fuzz run triggered a crash"@,
        crash_found(path).reproduce_cmd == Some(
            "cargo fuzz run "@ + target_of(path) + " "@ + path + " 2>&1"@,
        ),
        targets_found(targets).severity == Severity::Info,
        targets_found(targets).code == "FUZZ_TARGETS_AVAILABLE"@,
        targets_found(targets).message == text::decimal(targets.len())
            + " fuzz target(s) available: "@ + text::joined(targets, ", "@)
            + " — no crashes found"@,
        targets_found(targets).reproduce_cmd == Some(
            "cargo fuzz run "@ + targets[0] + " -- -max_total_time=60 2>&1"@,
        ),
{
}

/// A crash that stands in no directory is of the first target.
pub proof fn law_crashes_without_directory(name: Seq<char>)
    requires
        diff::is_part(name),
    ensures
        target_of(name) == "fuzz_target_1"@,
{
    let names = seq![name];
    diff::law_parts_read_back(names);
    assert(diff::path_of(names) == name);
}

/// A result belongs to the layer and the runner that it is of, whatever came out.
pub proof fn law_where_results_belong(targets: Seq<Seq<char>>, crashes: Seq<Seq<char>>, duration_ms: u64)
    ensures
        reported(targets, crashes, duration_ms).name == "hostile"@,
        reported(targets, crashes, duration_ms).runner == "cargo-fuzz"@,
        reported(targets, crashes, duration_ms).duration_ms == duration_ms,
{
}

} // verus!
