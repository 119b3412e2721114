//! Commands that a project configures for its operational layer.
use vstd::prelude::*;

use crate::config::OperationalCommandConfig;
use crate::files;
use crate::plugin::{Layer, TestRunner};
use crate::process::{ProcessOutput, RunFailure, SubprocessRunner};
use crate::report;
use crate::report::{Finding, FindingV, LayerMetrics, LayerResult, LayerResultV, LayerStatus, Severity};
use crate::runners::parts;
use crate::text;
use crate::time;

verus! {

#[derive(Debug)]
pub struct OperationalCommandRunner {
    pub commands: Vec<OperationalCommandConfig>,
}

pub const SKIP: &'static str = "no commands configured — add [[layers.operational.commands]] to .barzel.toml";

impl TestRunner for OperationalCommandRunner {
    fn name(&self) -> (r: &'static str)
        ensures
            r@ == "operational-cmd"@,
    {
        "operational-cmd"
    }

    fn layer(&self) -> (r: Layer)
        ensures
            r == Layer::Operational,
    {
        Layer::Operational
    }

    fn skip_message(&self) -> (r: &'static str)
        ensures
            r@ == SKIP@,
    {
        SKIP
    }
}

// ── quoting ─────────────────────────────────────────────────────────────────

/// `s` in the single quotes of a POSIX shell; a single quote in it is written `'\''`.
pub open spec fn quoted(s: Seq<char>) -> Seq<char> {
    "'"@ + text::replaced(s, '\'', "'\\''"@) + "'"@
}

pub fn shell_quote(s: &str) -> (r: String)
    ensures
        r@ == quoted(s@),
{
    let inner = text::replace(s, '\'', "'\\''");
    text::cat3("'", inner.as_str(), "'")
}

/// The word that a POSIX shell reads in `s`, as far as quotes, backslashes and other
/// characters go; nothing where a single quote is left open. `inside` says whether the
/// text begins inside single quotes.
pub open spec fn shell_word(s: Seq<char>, inside: bool) -> Option<Seq<char>>
    decreases s.len(),
{
    if s.len() == 0 {
        if inside {
            None
        } else {
            Some(Seq::empty())
        }
    } else if s[0] == '\'' {
        shell_word(s.subrange(1, s.len() as int), !inside)
    } else if !inside && s[0] == '\\' {
        if s.len() == 1 {
            None
        } else {
            match shell_word(s.subrange(2, s.len() as int), false) {
                Some(w) => Some(seq![s[1]] + w),
                None => None,
            }
        }
    } else {
        match shell_word(s.subrange(1, s.len() as int), inside) {
            Some(w) => Some(seq![s[0]] + w),
            None => None,
        }
    }
}

proof fn lemma_replaced_front(s: Seq<char>, c: char, with: Seq<char>)
    requires
        s.len() > 0,
    ensures
        text::replaced(s, c, with) == (if s[0] == c {
            with
        } else {
            seq![s[0]]
        }) + text::replaced(s.subrange(1, s.len() as int), c, with),
    decreases s.len(),
{
    let t = s.subrange(1, s.len() as int);
    if s.len() == 1 {
        assert(t =~= Seq::<char>::empty());
        assert(s.drop_last() =~= Seq::<char>::empty());
        assert(text::replaced(s.drop_last(), c, with) =~= Seq::<char>::empty());
        assert(text::replaced(t, c, with) =~= Seq::<char>::empty());
        if s[0] == c {
            assert(text::replaced(s, c, with) =~= with);
        } else {
            assert(text::replaced(s, c, with) =~= seq![s[0]]);
        }
    } else {
        lemma_replaced_front(s.drop_last(), c, with);
        assert(s.drop_last().subrange(1, s.len() - 1) =~= t.drop_last());
        let head = if s[0] == c {
            with
        } else {
            seq![s[0]]
        };
        assert(text::replaced(s.drop_last(), c, with) == head + text::replaced(
            t.drop_last(),
            c,
            with,
        ));
        assert(t.last() == s.last());
        assert(text::replaced(s, c, with) =~= head + text::replaced(t, c, with));
    }
}

proof fn lemma_inner_reads_back(s: Seq<char>)
    ensures
        shell_word(text::replaced(s, '\'', "'\\''"@) + "'"@, true) == Some(s),
    decreases s.len(),
{
    reveal_strlit("'\\''");
    reveal_strlit("'");
    let esc = "'\\''"@;
    let q = text::replaced(s, '\'', esc) + "'"@;
    if s.len() == 0 {
        assert(q =~= seq!['\'']);
        assert(q.subrange(1, 1) =~= Seq::<char>::empty());
        assert(shell_word(q.subrange(1, 1), false) == Some(Seq::<char>::empty()));
        assert(s =~= Seq::<char>::empty());
    } else {
        let t = s.subrange(1, s.len() as int);
        lemma_inner_reads_back(t);
        lemma_replaced_front(s, '\'', esc);
        let rest = text::replaced(t, '\'', esc) + "'"@;
        assert(s =~= seq![s[0]] + t);
        if s[0] == '\'' {
            assert(q =~= esc + rest);
            let q1 = q.subrange(1, q.len() as int);
            let q3 = q1.subrange(2, q1.len() as int);
            assert(q[0] == '\'');
            assert(q1[0] == '\\');
            assert(q1[1] == '\'');
            assert(q3 =~= seq!['\''] + rest);
            assert(q3.subrange(1, q3.len() as int) =~= rest);
            assert(shell_word(q3, false) == Some(t));
            assert(shell_word(q1, false) == Some(seq!['\''] + t));
        } else {
            assert(q =~= seq![s[0]] + rest);
            assert(q.subrange(1, q.len() as int) =~= rest);
        }
    }
}

/// A shell reads a quoted text back as it was, whatever it holds.
pub proof fn law_quoting_reads_back(s: Seq<char>)
    ensures
        shell_word(quoted(s), false) == Some(s),
{
    reveal_strlit("'");
    lemma_inner_reads_back(s);
    let inner = text::replaced(s, '\'', "'\\''"@) + "'"@;
    assert(quoted(s) =~= seq!['\''] + inner);
    assert(quoted(s).subrange(1, quoted(s).len() as int) =~= inner);
}

/// Different texts are quoted differently.
pub proof fn law_quoting_is_injective(a: Seq<char>, b: Seq<char>)
    requires
        quoted(a) == quoted(b),
    ensures
        a == b,
{
    law_quoting_reads_back(a);
    law_quoting_reads_back(b);
}

pub open spec fn all_quoted(v: Seq<Seq<char>>) -> Seq<Seq<char>> {
    v.map_values(|s: Seq<char>| quoted(s))
}

pub fn quote_all(v: &Vec<String>) -> (r: Vec<String>)
    ensures
        text::views(r@) == all_quoted(text::views(v@)),
{
    let mut r: Vec<String> = Vec::new();
    let mut i: usize = 0;
    while i < v.len()
        invariant
            i <= v@.len(),
            r@.len() == i,
            forall|k: int| 0 <= k < i ==> (#[trigger] r@[k])@ == quoted(v@[k]@),
        decreases v@.len() - i,
    {
        r.push(shell_quote(v[i].as_str()));
        i += 1;
    }
    assert(text::views(r@) =~= all_quoted(text::views(v@)));
    r
}

// ── the command ─────────────────────────────────────────────────────────────

/// A configured command for a shell: every word quoted, after a change of directory where
/// one is configured.
pub open spec fn command_line(cfg: OperationalCommandConfig) -> Seq<char> {
    let base = if cfg.args@.len() == 0 {
        quoted(cfg.cmd@)
    } else {
        quoted(cfg.cmd@) + " "@ + text::joined(all_quoted(text::views(cfg.args@)), " "@)
    };
    match cfg.cwd {
        Some(cwd) => "cd "@ + quoted(cwd@) + " && "@ + base,
        None => base,
    }
}

/// Where the first word of `s` ends: before the first space outside quotes, or at the end.
pub open spec fn word_end(s: Seq<char>, inside: bool) -> int
    decreases s.len(),
{
    if s.len() == 0 || (!inside && s[0] == ' ') {
        0
    } else if s[0] == '\'' {
        1 + word_end(s.subrange(1, s.len() as int), !inside)
    } else if !inside && s[0] == '\\' && s.len() > 1 {
        2 + word_end(s.subrange(2, s.len() as int), false)
    } else {
        1 + word_end(s.subrange(1, s.len() as int), inside)
    }
}

/// The words that a POSIX shell reads in a line, as far as spaces, quotes, backslashes and
/// other characters go; nothing where a quote is left open.
pub open spec fn shell_words(s: Seq<char>) -> Option<Seq<Seq<char>>>
    decreases s.len(),
{
    let n = word_end(s, false);
    if n < 0 || n >= s.len() {
        match shell_word(s, false) {
            Some(w) => Some(seq![w]),
            None => None,
        }
    } else {
        match (shell_word(s.subrange(0, n), false), shell_words(s.subrange(n + 1, s.len() as int))) {
            (Some(w), Some(rest)) => Some(seq![w] + rest),
            _ => None,
        }
    }
}

/// What may stand behind a word: nothing, or a space.
spec fn parted(rest: Seq<char>) -> bool {
    rest.len() == 0 || rest[0] == ' '
}

proof fn lemma_inner_end(s: Seq<char>, rest: Seq<char>)
    requires
        parted(rest),
    ensures
        word_end(text::replaced(s, '\'', "'\\''"@) + "'"@ + rest, true) == text::replaced(
            s,
            '\'',
            "'\\''"@,
        ).len() + 1,
    decreases s.len(),
{
    reveal_strlit("'\\''");
    reveal_strlit("'");
    let esc = "'\\''"@;
    let q = text::replaced(s, '\'', esc) + "'"@ + rest;
    if s.len() == 0 {
        assert(q =~= seq!['\''] + rest);
        assert(q.subrange(1, q.len() as int) =~= rest);
        assert(word_end(rest, false) == 0);
    } else {
        let t = s.subrange(1, s.len() as int);
        lemma_inner_end(t, rest);
        lemma_replaced_front(s, '\'', esc);
        let tail = text::replaced(t, '\'', esc) + "'"@ + rest;
        if s[0] == '\'' {
            assert(q =~= esc + tail);
            let q1 = q.subrange(1, q.len() as int);
            let q3 = q1.subrange(2, q1.len() as int);
            assert(q1[0] == '\\');
            assert(q3 =~= seq!['\''] + tail);
            assert(q3.subrange(1, q3.len() as int) =~= tail);
            assert(word_end(q3, false) == 1 + word_end(tail, true));
            assert(word_end(q1, false) == 2 + word_end(q3, false));
        } else {
            assert(q =~= seq![s[0]] + tail);
            assert(q.subrange(1, q.len() as int) =~= tail);
        }
    }
}

/// A quoted word ends where its quotes end.
proof fn lemma_quoted_end(s: Seq<char>, rest: Seq<char>)
    requires
        parted(rest),
    ensures
        word_end(quoted(s) + rest, false) == quoted(s).len(),
{
    reveal_strlit("'");
    lemma_inner_end(s, rest);
    let inner = text::replaced(s, '\'', "'\\''"@) + "'"@ + rest;
    let q = quoted(s) + rest;
    assert(q =~= seq!['\''] + inner);
    assert(q.subrange(1, q.len() as int) =~= inner);
}

/// A word in front of others is read in front of them.
proof fn lemma_word_in_front(front: Seq<char>, w: Seq<char>, rest: Seq<char>, words: Seq<Seq<char>>)
    requires
        word_end(front + (" "@ + rest), false) == front.len(),
        shell_word(front, false) == Some(w),
        shell_words(rest) == Some(words),
    ensures
        shell_words(front + " "@ + rest) == Some(seq![w] + words),
{
    reveal_strlit(" ");
    let s = front + " "@ + rest;
    assert(s =~= front + (" "@ + rest));
    let n = front.len() as int;
    assert(s.subrange(0, n) =~= front);
    assert(s.subrange(n + 1, s.len() as int) =~= rest);
}

proof fn lemma_joined_front(v: Seq<Seq<char>>, sep: Seq<char>)
    requires
        v.len() >= 2,
    ensures
        text::joined(v, sep) == v[0] + sep + text::joined(v.subrange(1, v.len() as int), sep),
    decreases v.len(),
{
    let t = v.subrange(1, v.len() as int);
    if v.len() == 2 {
        assert(v.drop_last() =~= seq![v[0]]);
        assert(t =~= seq![v[1]]);
        assert(text::joined(v.drop_last(), sep) == v[0]);
        assert(text::joined(t, sep) == v[1]);
    } else {
        lemma_joined_front(v.drop_last(), sep);
        assert(v.drop_last().subrange(1, v.len() - 1) =~= t.drop_last());
        assert(text::joined(v, sep) =~= v[0] + sep + text::joined(t, sep));
    }
}

proof fn lemma_words_read_back(words: Seq<Seq<char>>)
    requires
        words.len() > 0,
    ensures
        shell_words(text::joined(all_quoted(words), " "@)) == Some(words),
    decreases words.len(),
{
    let q = all_quoted(words);
    law_quoting_reads_back(words[0]);
    if words.len() == 1 {
        lemma_quoted_end(words[0], Seq::empty());
        assert(quoted(words[0]) + Seq::empty() =~= quoted(words[0]));
        assert(words =~= seq![words[0]]);
    } else {
        let t = words.subrange(1, words.len() as int);
        lemma_words_read_back(t);
        lemma_joined_front(q, " "@);
        assert(q.subrange(1, q.len() as int) =~= all_quoted(t));
        let rest = text::joined(all_quoted(t), " "@);
        reveal_strlit(" ");
        lemma_quoted_end(words[0], " "@ + rest);
        lemma_word_in_front(quoted(words[0]), words[0], rest, t);
        assert(words =~= seq![words[0]] + t);
    }
}

/// A plain word is read as it is.
proof fn lemma_plain_word(w: Seq<char>, rest: Seq<char>)
    requires
        parted(rest),
        forall|i: int|
            0 <= i < w.len() ==> #[trigger] w[i] != ' ' && w[i] != '\'' && w[i] != '\\',
    ensures
        word_end(w + rest, false) == w.len(),
        shell_word(w, false) == Some(w),
    decreases w.len(),
{
    if w.len() == 0 {
        assert(w + rest =~= rest);
        assert(w =~= Seq::<char>::empty());
    } else {
        let t = w.subrange(1, w.len() as int);
        assert forall|i: int| 0 <= i < t.len() implies #[trigger] t[i] != ' ' && t[i] != '\''
            && t[i] != '\\' by {
            assert(t[i] == w[i + 1]);
        }
        lemma_plain_word(t, rest);
        assert(w[0] != ' ');
        let s = w + rest;
        assert(s.subrange(1, s.len() as int) =~= t + rest);
        assert(w =~= seq![w[0]] + t);
    }
}

/// The words of a configured command, after those of the change of directory.
pub open spec fn command_words(cfg: OperationalCommandConfig) -> Seq<Seq<char>> {
    let base = seq![cfg.cmd@] + text::views(cfg.args@);
    match cfg.cwd {
        Some(cwd) => seq!["cd"@] + (seq![cwd@] + (seq!["&&"@] + base)),
        None => base,
    }
}

/// Pasted into a shell, the line for a configured command reads back as its words:
/// nothing in the program, its arguments or the directory is taken for anything else.
pub proof fn law_command_line_reads_back(cfg: OperationalCommandConfig)
    ensures
        shell_words(command_line(cfg)) == Some(command_words(cfg)),
{
    let args = text::views(cfg.args@);
    let base = seq![cfg.cmd@] + args;
    let line = text::joined(all_quoted(base), " "@);
    lemma_words_read_back(base);
    if args.len() == 0 {
        assert(all_quoted(base) =~= seq![quoted(cfg.cmd@)]);
    } else {
        lemma_joined_front(all_quoted(base), " "@);
        assert(all_quoted(base).subrange(1, base.len() as int) =~= all_quoted(args));
    }
    match cfg.cwd {
        Some(cwd) => {
            reveal_strlit("cd");
            reveal_strlit("cd ");
            reveal_strlit("&&");
            reveal_strlit(" && ");
            reveal_strlit(" ");
            lemma_plain_word("&&"@, " "@ + line);
            lemma_word_in_front("&&"@, "&&"@, line, base);
            let second = "&&"@ + " "@ + line;
            law_quoting_reads_back(cwd@);
            lemma_quoted_end(cwd@, " "@ + second);
            lemma_word_in_front(quoted(cwd@), cwd@, second, seq!["&&"@] + base);
            let third = quoted(cwd@) + " "@ + second;
            lemma_plain_word("cd"@, " "@ + third);
            lemma_word_in_front("cd"@, "cd"@, third, seq![cwd@] + (seq!["&&"@] + base));
            assert(command_line(cfg) =~= "cd"@ + " "@ + third);
        },
        None => {},
    }
}

pub fn build_reproduce_cmd(cfg: &OperationalCommandConfig) -> (r: String)
    ensures
        r@ == command_line(*cfg),
{
    let cmd = shell_quote(cfg.cmd.as_str());
    let args = quote_all(&cfg.args);
    let base = if cfg.args.len() == 0 {
        cmd
    } else {
        text::cat3(cmd.as_str(), " ", text::join(&args, " ").as_str())
    };
    match &cfg.cwd {
        Some(cwd) => text::cat4(
            "cd ",
            shell_quote(cwd.as_str()).as_str(),
            " && ",
            base.as_str(),
        ),
        None => base,
    }
}

/// The directory in which a command runs: the project, or a directory below it, unless an
/// absolute one is configured.
pub open spec fn working_dir(root: Seq<char>, cwd: Option<String>) -> Seq<char> {
    match cwd {
        Some(c) => files::below(root, c@),
        None => root,
    }
}

pub fn resolve_cwd(root: &str, cwd: &Option<String>) -> (r: String)
    ensures
        r@ == working_dir(root@, *cwd),
{
    match cwd {
        Some(c) => files::join_below(root, c.as_str()),
        None => root.to_string(),
    }
}

// ── output ──────────────────────────────────────────────────────────────────

/// `s` without whitespace at its end, cut behind the last character that ends within `max`
/// bytes.
pub open spec fn shortened(s: Seq<char>, max: int) -> Seq<char> {
    let t = text::trim_back(s);
    if text::byte_len(t) <= max {
        t
    } else {
        text::trim_back(text::front_within(t, max)) + "… (truncated)"@
    }
}

/// Cuts long output after `max_chars` bytes, or before the character that stands across
/// that place.
pub fn truncate_output(s: &str, max_chars: usize) -> (r: String)
    ensures
        r@ == shortened(s@, max_chars as int),
{
    let t = text::trim_end(s);
    if text::bytes_within(t.as_str(), max_chars) {
        return t;
    }
    let front = text::take_within(t.as_str(), max_chars);
    text::cat(text::trim_end(front.as_str()).as_str(), "… (truncated)")
}

/// The part of an output that a finding shows.
pub open spec fn snippet_of(out: ProcessOutput) -> Seq<char> {
    let t = text::trimmed(out.both());
    if t.len() == 0 {
        "(no output)"@
    } else {
        shortened(t, 300)
    }
}

fn snippet(out: &ProcessOutput) -> (r: String)
    ensures
        r@ == snippet_of(*out),
{
    let t = text::trim(out.combined().as_str());
    if t.as_str().is_empty() {
        "(no output)".to_string()
    } else {
        truncate_output(t.as_str(), 300)
    }
}

// ── findings ────────────────────────────────────────────────────────────────

/// What is wrong with the outcome of a command, if anything is.
pub open spec fn command_found(
    cfg: OperationalCommandConfig,
    outcome: Result<ProcessOutput, RunFailure>,
) -> Option<FindingV> {
    let again = command_line(cfg);
    match outcome {
        Ok(out) => if out.success {
            None
        } else {
            Some(
                FindingV {
                    severity: Severity::High,
                    code: "OPERATIONAL_COMMAND_FAILED"@,
                    message: "Command '"@ + cfg.name@ + "' exited non-zero: "@ + snippet_of(out),
                    location: Some(
                        cfg.cmd@ + " "@ + text::joined(text::views(cfg.args@), " "@),
                    ),
                    reproduce_cmd: Some(again),
                    suggestion: Some(
                        "Run the command manually to diagnose the failure: "@ + again,
                    ),
                },
            )
        },
        Err(e) => Some(
            FindingV {
                severity: if e.timed_out {
                    Severity::High
                } else {
                    Severity::Critical
                },
                code: if e.timed_out {
                    "OPERATIONAL_COMMAND_TIMEOUT"@
                } else {
                    "OPERATIONAL_COMMAND_SPAWN_FAILED"@
                },
                message: "Command '"@ + cfg.name@ + "' ('"@ + cfg.cmd@ + "') failed: "@ + e.text@,
                location: Some(cfg.cmd@),
                reproduce_cmd: Some(again),
                suggestion: Some(
                    if e.timed_out {
                        "Command exceeded timeout of "@ + text::decimal(cfg.timeout_ms as nat)
                            + "ms. Increase timeout_ms in .barzel.toml or optimize the command."@
                    } else {
                        "Ensure '"@ + cfg.cmd@
                            + "' is installed and on PATH, then re-run barzel."@
                    },
                ),
            },
        ),
    }
}

/// The finding for an outcome, if there is one.
pub fn command_finding(
    cfg: &OperationalCommandConfig,
    outcome: &Result<ProcessOutput, RunFailure>,
) -> (r: Option<Finding>)
    ensures
        match r {
            Some(f) => command_found(*cfg, *outcome) == Some(f@),
            None => command_found(*cfg, *outcome) is None,
        },
{
    let again = build_reproduce_cmd(cfg);
    match outcome {
        Ok(out) => {
            if out.success {
                return None;
            }
            let shown = snippet(out);
            Some(
                Finding {
                    severity: Severity::High,
                    code: "OPERATIONAL_COMMAND_FAILED".to_string(),
                    message: text::cat4(
                        "Command '",
                        cfg.name.as_str(),
                        "' exited non-zero: ",
                        shown.as_str(),
                    ),
                    location: Some(
                        text::cat3(cfg.cmd.as_str(), " ", text::join(&cfg.args, " ").as_str()),
                    ),
                    reproduce_cmd: Some(again.clone()),
                    suggestion: Some(
                        text::cat(
                            "Run the command manually to diagnose the failure: ",
                            again.as_str(),
                        ),
                    ),
                },
            )
        },
        Err(e) => {
            let head = text::cat5(
                "Command '",
                cfg.name.as_str(),
                "' ('",
                cfg.cmd.as_str(),
                "') failed: ",
            );
            let message = text::cat(head.as_str(), e.text.as_str());
            let suggestion = if e.timed_out {
                text::cat3(
                    "Command exceeded timeout of ",
                    text::number(cfg.timeout_ms).as_str(),
                    "ms. Increase timeout_ms in .barzel.toml or optimize the command.",
                )
            } else {
                text::cat3(
                    "Ensure '",
                    cfg.cmd.as_str(),
                    "' is installed and on PATH, then re-run barzel.",
                )
            };
            Some(
                Finding {
                    severity: if e.timed_out {
                        Severity::High
                    } else {
                        Severity::Critical
                    },
                    code: if e.timed_out {
                        "OPERATIONAL_COMMAND_TIMEOUT".to_string()
                    } else {
                        "OPERATIONAL_COMMAND_SPAWN_FAILED".to_string()
                    },
                    message,
                    location: Some(cfg.cmd.clone()),
                    reproduce_cmd: Some(again),
                    suggestion: Some(suggestion),
                },
            )
        },
    }
}

// ── the result ──────────────────────────────────────────────────────────────

/// The findings of the first `n` commands.
pub open spec fn commands_found(
    commands: Seq<OperationalCommandConfig>,
    outcomes: Seq<Result<ProcessOutput, RunFailure>>,
    n: int,
) -> Seq<FindingV>
    decreases n,
{
    if n <= 0 {
        Seq::empty()
    } else {
        let front = commands_found(commands, outcomes, n - 1);
        match command_found(commands[n - 1], outcomes[n - 1]) {
            Some(f) => front.push(f),
            None => front,
        }
    }
}

/// The result of the commands with these outcomes.
pub open spec fn reported(
    commands: Seq<OperationalCommandConfig>,
    outcomes: Seq<Result<ProcessOutput, RunFailure>>,
    duration_ms: u64,
) -> LayerResultV {
    let found = commands_found(commands, outcomes, commands.len() as int);
    parts::result_of(
        Layer::Operational,
        "operational-cmd"@,
        if found.len() > 0 {
            LayerStatus::Fail
        } else {
            LayerStatus::Pass
        },
        found,
        parts::tested(
            commands.len() as u64,
            (commands.len() - found.len()) as u64,
            found.len() as u64,
        ),
        duration_ms,
    )
}

proof fn lemma_commands_found_len(
    commands: Seq<OperationalCommandConfig>,
    outcomes: Seq<Result<ProcessOutput, RunFailure>>,
    n: int,
)
    requires
        0 <= n,
    ensures
        commands_found(commands, outcomes, n).len() <= n,
    decreases n,
{
    if n > 0 {
        lemma_commands_found_len(commands, outcomes, n - 1);
    }
}

/// Every command that ran passed or failed, a failed one has a finding, and with one
/// failure the layer fails.
pub proof fn law_commands_add_up(
    commands: Seq<OperationalCommandConfig>,
    outcomes: Seq<Result<ProcessOutput, RunFailure>>,
    duration_ms: u64,
)
    requires
        commands.len() == outcomes.len(),
        commands.len() <= u64::MAX,
    ensures
        ({
            let r = reported(commands, outcomes, duration_ms);
            &&& r.metrics.tests_run == r.metrics.passed + r.metrics.failed
            &&& r.metrics.failed == r.findings.len()
            &&& r.status == LayerStatus::Fail <==> r.metrics.failed > 0
        }),
{
    lemma_commands_found_len(commands, outcomes, commands.len() as int);
}

fn result_with(total: usize, findings: Vec<Finding>, duration_ms: u64) -> (r: LayerResult)
    requires
        findings@.len() <= total,
    ensures
        r@ == parts::result_of(
            Layer::Operational,
            "operational-cmd"@,
            if findings@.len() > 0 {
                LayerStatus::Fail
            } else {
                LayerStatus::Pass
            },
            report::findings_view(findings@),
            parts::tested(
                total as u64,
                (total - findings@.len()) as u64,
                findings@.len() as u64,
            ),
            duration_ms,
        ),
{
    let failed: usize = findings.len();
    let status = if failed > 0 {
        LayerStatus::Fail
    } else {
        LayerStatus::Pass
    };
    let metrics = LayerMetrics {
        tests_run: total as u64,
        passed: (total - failed) as u64,
        failed: failed as u64,
        coverage: None,
        mutation_score: None,
    };
    parts::layer_result(
        Layer::Operational,
        "operational-cmd",
        status,
        findings,
        metrics,
        duration_ms,
    )
}

/// The runner, as it was before each command and after the last, ran the commands so in
/// `root`, each once, one after the other.
pub open spec fn answered<P: SubprocessRunner>(
    root: Seq<char>,
    commands: Seq<OperationalCommandConfig>,
    states: Seq<P>,
    outcomes: Seq<Result<ProcessOutput, RunFailure>>,
) -> bool {
    &&& outcomes.len() == commands.len()
    &&& states.len() == commands.len() + 1
    &&& forall|i: int|
        0 <= i < commands.len() ==> (#[trigger] states[i]).answers_timed(
            commands[i].cmd@,
            text::views(commands[i].args@),
            working_dir(root, commands[i].cwd),
            commands[i].timeout_ms,
            outcomes[i],
            states[i + 1],
        )
}

/// `r` is the result of outcomes that running the commands, one after the other, can have.
pub open spec fn is_run<P: SubprocessRunner>(
    before: P,
    after: P,
    root: Seq<char>,
    commands: Seq<OperationalCommandConfig>,
    r: LayerResultV,
) -> bool {
    exists|states: Seq<P>, outcomes: Seq<Result<ProcessOutput, RunFailure>>, ms: u64|
        #[trigger] answered(root, commands, states, outcomes) && states[0] == before
            && states.last() == after && r == #[trigger] reported(commands, outcomes, ms)
}

impl OperationalCommandRunner {
    pub fn new(commands: Vec<OperationalCommandConfig>) -> (r: Self)
        ensures
            r.commands == commands,
    {
        OperationalCommandRunner { commands }
    }

    pub fn is_available(&self) -> (r: bool)
        ensures
            r == (self.commands@.len() > 0),
    {
        self.commands.len() > 0
    }

    /// The result of the commands with these outcomes.
    pub fn report_commands(
        &self,
        outcomes: &Vec<Result<ProcessOutput, RunFailure>>,
        duration_ms: u64,
    ) -> (r: LayerResult)
        requires
            outcomes@.len() == self.commands@.len(),
        ensures
            r@ == reported(self.commands@, outcomes@, duration_ms),
    {
        let mut findings = parts::nothing();
        let total: usize = self.commands.len();
        let mut i: usize = 0;
        while i < total
            invariant
                i <= total == self.commands@.len(),
                outcomes@.len() == self.commands@.len(),
                report::findings_view(findings@) == commands_found(
                    self.commands@,
                    outcomes@,
                    i as int,
                ),
            decreases total - i,
        {
            match command_finding(&self.commands[i], &outcomes[i]) {
                Some(f) => {
                    parts::push_finding(&mut findings, f);
                },
                None => {},
            }
            i += 1;
        }
        proof {
            lemma_commands_found_len(self.commands@, outcomes@, total as int);
            assert(report::findings_view(findings@).len() == findings@.len());
        }
        result_with(total, findings, duration_ms)
    }

    /// Runs the commands one after the other.
    pub fn run<P: SubprocessRunner>(&self, proc: &mut P, root: &str) -> (r: LayerResult)
        ensures
            is_run(*old(proc), *final(proc), root@, self.commands@, r@),
    {
        let start = time::started();
        let ghost before = *proc;
        let ghost mut states: Seq<P> = seq![*proc];
        let mut outcomes: Vec<Result<ProcessOutput, RunFailure>> = Vec::new();
        let mut i: usize = 0;
        while i < self.commands.len()
            invariant
                i <= self.commands@.len(),
                outcomes@.len() == i,
                states.len() == i + 1,
                states[0] == before,
                states[i as int] == *proc,
                forall|k: int|
                    0 <= k < i ==> (#[trigger] states[k]).answers_timed(
                        self.commands@[k].cmd@,
                        text::views(self.commands@[k].args@),
                        working_dir(root@, self.commands@[k].cwd),
                        self.commands@[k].timeout_ms,
                        outcomes@[k],
                        states[k + 1],
                    ),
            decreases self.commands@.len() - i,
        {
            let cfg = &self.commands[i];
            let cwd = resolve_cwd(root, &cfg.cwd);
            let outcome = proc.run_timed(
                cfg.cmd.as_str(),
                &cfg.args,
                cwd.as_str(),
                cfg.timeout_ms,
            );
            outcomes.push(outcome);
            proof {
                states = states.push(*proc);
            }
            i += 1;
        }
        assert(answered(root@, self.commands@, states, outcomes@));
        assert(states.last() == *proc);
        let ms = time::elapsed_ms(&start);
        let r = self.report_commands(&outcomes, ms);
        assert(r@ == reported(self.commands@, outcomes@, ms));
        r
    }
}

// ── laws ────────────────────────────────────────────────────────────────────

/// A command is well exactly where it ran and succeeded. One that ran and did not is a high
/// finding, as is one that took too long; one that could not be run is a critical one.
pub proof fn law_success_is_well(
    cfg: OperationalCommandConfig,
    out: ProcessOutput,
    e: RunFailure,
)
    ensures
        out.success ==> command_found(cfg, Ok(out)) is None,
        !out.success ==> (command_found(cfg, Ok(out)) matches Some(f) && f.severity
            == Severity::High && f.code == "OPERATIONAL_COMMAND_FAILED"@ && f.message
            == "Command '"@ + cfg.name@ + "' exited non-zero: "@ + snippet_of(out)
            && f.reproduce_cmd == Some(command_line(cfg))),
        e.timed_out ==> (command_found(cfg, Err(e)) matches Some(f) && f.severity == Severity::High
            && f.code == "OPERATIONAL_COMMAND_TIMEOUT"@ && f.reproduce_cmd == Some(
            command_line(cfg),
        )),
        !e.timed_out ==> (command_found(cfg, Err(e)) matches Some(f) && f.severity
            == Severity::Critical && f.code == "OPERATIONAL_COMMAND_SPAWN_FAILED"@
            && f.reproduce_cmd == Some(command_line(cfg))),
{
}

/// The command ran and succeeded.
pub open spec fn is_well(outcome: Result<ProcessOutput, RunFailure>) -> bool {
    outcome matches Ok(out) && out.success
}

/// Every command that is not well is reported, in order, and no other.
pub proof fn law_each_command_is_reported(
    commands: Seq<OperationalCommandConfig>,
    outcomes: Seq<Result<ProcessOutput, RunFailure>>,
    n: int,
)
    requires
        0 <= n < commands.len(),
    ensures
        is_well(outcomes[n]) ==> commands_found(commands, outcomes, n + 1) == commands_found(
            commands,
            outcomes,
            n,
        ),
        !is_well(outcomes[n]) ==> commands_found(commands, outcomes, n + 1) == commands_found(
            commands,
            outcomes,
            n,
        ).push(command_found(commands[n], outcomes[n])->0),
        commands_found(commands, outcomes, 0) == Seq::<FindingV>::empty(),
{
}

/// The layer passes exactly where all commands ran and succeeded; else it fails.
pub proof fn law_any_command_fails_the_layer(
    commands: Seq<OperationalCommandConfig>,
    outcomes: Seq<Result<ProcessOutput, RunFailure>>,
    ms: u64,
)
    requires
        commands.len() == outcomes.len(),
    ensures
        ({
            let r = reported(commands, outcomes, ms);
            &&& r.name == "operational"@ && r.runner == "operational-cmd"@ && r.duration_ms == ms
            &&& r.status == LayerStatus::Pass <==> forall|i: int|
                0 <= i < commands.len() ==> is_well(#[trigger] outcomes[i])
            &&& r.status == LayerStatus::Pass || r.status == LayerStatus::Fail
        }),
{
    lemma_commands(commands, outcomes, commands.len() as int);
}

proof fn lemma_commands(
    commands: Seq<OperationalCommandConfig>,
    outcomes: Seq<Result<ProcessOutput, RunFailure>>,
    n: int,
)
    requires
        0 <= n <= commands.len(),
    ensures
        commands_found(commands, outcomes, n).len() == 0 <==> forall|i: int|
            0 <= i < n ==> is_well(#[trigger] outcomes[i]),
    decreases n,
{
    if n > 0 {
        lemma_commands(commands, outcomes, n - 1);
        law_each_command_is_reported(commands, outcomes, n - 1);
    }
}

/// A command runs in the project, or in its own directory: one below the project, or an
/// absolute one.
pub proof fn law_where_a_command_runs(root: Seq<char>, cwd: String)
    ensures
        working_dir(root, None) == root,
        cwd@.len() > 0 && cwd@[0] == '/' ==> working_dir(root, Some(cwd)) == cwd@,
        root.len() > 0 && root.last() != '/' && !(cwd@.len() > 0 && cwd@[0] == '/') ==> working_dir(
            root,
            Some(cwd),
        ) == root + "/"@ + cwd@,
{
    reveal_strlit("/");
    assert("/"@ =~= seq!['/']);
    if cwd@.len() > 0 {
        assert(cwd@.subrange(0, 1) =~= seq![cwd@[0]]);
        if cwd@[0] != '/' {
            assert(cwd@.subrange(0, 1)[0] != "/"@[0]);
        }
    }
    if root.len() > 0 {
        assert(root.subrange(root.len() - 1, root.len() as int) =~= seq![root.last()]);
        if root.last() != '/' {
            assert(root.subrange(root.len() - 1, root.len() as int)[0] != "/"@[0]);
        }
    }
}

/// Output that fits is shown as it is but for whitespace at its end; longer output is cut
/// to a front part of it that fits, with a note.
pub proof fn law_long_output_is_cut(s: Seq<char>, max: int)
    ensures
        text::byte_len(text::trim_back(s)) <= max ==> shortened(s, max) == text::trim_back(s),
        text::byte_len(text::trim_back(s)) > max ==> text::ends(shortened(s, max), "… (truncated)"@)
            && shortened(s, max) == text::trim_back(text::front_within(text::trim_back(s), max))
            + "… (truncated)"@,
{
    let note = "… (truncated)"@;
    let cut = text::trim_back(text::front_within(text::trim_back(s), max));
    assert((cut + note).subrange(cut.len() as int, (cut + note).len() as int) =~= note);
}

/// A word is quoted by an apostrophe on either side.
pub proof fn law_words_are_quoted(s: Seq<char>)
    requires
        text::lacks(s, '\''),
    ensures
        quoted(s) == seq!['\''] + s + seq!['\''],
{
    reveal_strlit("'");
    lemma_nothing_replaced(s, '\'', "'\\''"@);
}

proof fn lemma_nothing_replaced(s: Seq<char>, c: char, with: Seq<char>)
    requires
        text::lacks(s, c),
    ensures
        text::replaced(s, c, with) == s,
    decreases s.len(),
{
    if s.len() > 0 {
        let front = s.drop_last();
        let rest = s.subrange(1, s.len() as int);
        assert forall|i: int| 0 <= i < front.len() implies #[trigger] front[i] != c by {
            assert(front[i] == s[i]);
        }
        assert forall|i: int| 0 <= i < rest.len() implies #[trigger] rest[i] != c by {
            assert(rest[i] == s[i + 1]);
        }
        assert(s[0] != c && s[s.len() - 1] != c);
        lemma_nothing_replaced(front, c, with);
        lemma_nothing_replaced(rest, c, with);
        assert(front.push(s.last()) =~= s);
        assert(seq![s[0]] + rest =~= s);
    }
}

/// How a command is run again: in its directory, its words quoted.
pub proof fn law_how_a_command_is_repeated(cfg: OperationalCommandConfig)
    ensures
        cfg.cwd is None && cfg.args@.len() == 0 ==> command_line(cfg) == quoted(cfg.cmd@),
        cfg.cwd is None && cfg.args@.len() > 0 ==> command_line(cfg) == quoted(cfg.cmd@) + " "@
            + text::joined(all_quoted(text::views(cfg.args@)), " "@),
        cfg.cwd matches Some(d) ==> (cfg.args@.len() == 0 ==> command_line(cfg) == "cd "@ + quoted(
            d@,
        ) + " && "@ + quoted(cfg.cmd@)) && (cfg.args@.len() > 0 ==> command_line(cfg) == "cd "@
            + quoted(d@) + " && "@ + (quoted(cfg.cmd@) + " "@ + text::joined(
            all_quoted(text::views(cfg.args@)),
            " "@,
        ))),
{
}

/// What is said of a command that failed, took too long or could not be run.
pub proof fn law_what_a_failed_command_says(
    cfg: OperationalCommandConfig,
    out: ProcessOutput,
    e: RunFailure,
)
    ensures
        !out.success ==> (command_found(cfg, Ok(out)) matches Some(f) && f.message == "Command '"@
            + cfg.name@ + "' exited non-zero: "@ + snippet_of(out) && f.location == Some(
            cfg.cmd@ + " "@ + text::joined(text::views(cfg.args@), " "@),
        ) && f.reproduce_cmd == Some(command_line(cfg)) && f.suggestion == Some(
            "Run the command manually to diagnose the failure: "@ + command_line(cfg),
        )),
        command_found(cfg, Err(e)) matches Some(f) && f.message == "Command '"@ + cfg.name@ + "' ('"@
            + cfg.cmd@ + "') failed: "@ + e.text@ && f.location == Some(cfg.cmd@) && f.reproduce_cmd
            == Some(command_line(cfg)) && (e.timed_out ==> f.suggestion == Some(
            "Command exceeded timeout of "@ + text::decimal(cfg.timeout_ms as nat)
                + "ms. Increase timeout_ms in .barzel.toml or optimize the command."@,
        )) && (!e.timed_out ==> f.suggestion == Some(
            "Ensure '"@ + cfg.cmd@ + "' is installed and on PATH, then re-run barzel."@,
        )),
        text::trimmed(out.both()).len() == 0 ==> snippet_of(out) == "(no output)"@,
{
}

/// Of the output of a failed command the first three hundred bytes are told.
pub proof fn law_how_much_output_is_told(out: ProcessOutput)
    ensures
        ({
            let t = text::trimmed(out.both());
            &&& t.len() > 0 && text::byte_len(text::trim_back(t)) <= 300 ==> snippet_of(out)
                == text::trim_back(t)
            &&& t.len() > 0 && text::byte_len(text::trim_back(t)) > 300 ==> snippet_of(out)
                == text::trim_back(text::front_within(text::trim_back(t), 300)) + "… (truncated)"@
        }),
{
}

/// A result belongs to the layer and the runner that it is of, whatever came out.
pub proof fn law_where_results_belong(commands: Seq<OperationalCommandConfig>, outcomes: Seq<Result<ProcessOutput, RunFailure>>, duration_ms: u64)
    ensures
        reported(commands, outcomes, duration_ms).name == "operational"@,
        reported(commands, outcomes, duration_ms).runner == "operational-cmd"@,
        reported(commands, outcomes, duration_ms).duration_ms == duration_ms,
{
}

} // verus!
