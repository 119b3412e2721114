//! Running other programs.
use vstd::prelude::*;

use crate::text;

verus! {

/// What a finished program left behind.
#[derive(Debug)]
pub struct ProcessOutput {
    pub success: bool,
    pub stdout: String,
    pub stderr: String,
}

impl ProcessOutput {
    /// Standard output and standard error, with a line feed between them.
    pub open spec fn both(self) -> Seq<char> {
        self.stdout@ + "\n"@ + self.stderr@
    }

    pub fn combined(&self) -> (r: String)
        ensures
            r@ == self.both(),
    {
        text::cat3(self.stdout.as_str(), "\n", self.stderr.as_str())
    }
}

/// Why a program left no output: it took too long, or could not be run.
#[derive(Debug)]
pub struct RunFailure {
    pub timed_out: bool,
    pub text: String,
}

/// Runs programs. An error is the text of why a program could not be run. A runner has a
/// state, which goes on with every program that is run: what runs earlier and what runs
/// later can be told apart.
pub trait SubprocessRunner: Sized {
    /// Running a program can have this outcome and leave the runner as `after`; any outcome
    /// and any state where it does not say.
    open spec fn answers(
        &self,
        cmd: Seq<char>,
        args: Seq<Seq<char>>,
        cwd: Seq<char>,
        outcome: Result<ProcessOutput, String>,
        after: Self,
    ) -> bool {
        true
    }

    /// Running a program for a limited time can have this outcome and leave the runner as
    /// `after`; any outcome and any state where it does not say.
    open spec fn answers_timed(
        &self,
        cmd: Seq<char>,
        args: Seq<Seq<char>>,
        cwd: Seq<char>,
        timeout_ms: u64,
        outcome: Result<ProcessOutput, RunFailure>,
        after: Self,
    ) -> bool {
        true
    }

    fn run(&mut self, cmd: &str, args: &Vec<String>, cwd: &str) -> (r: Result<ProcessOutput, String>)
        ensures
            old(self).answers(cmd@, text::views(args@), cwd@, r, *final(self)),
    ;

    /// Runs a program that is stopped where it takes longer than `timeout_ms`.
    fn run_timed(&mut self, cmd: &str, args: &Vec<String>, cwd: &str, timeout_ms: u64) -> (r: Result<
        ProcessOutput,
        RunFailure,
    >)
        ensures
            old(self).answers_timed(cmd@, text::views(args@), cwd@, timeout_ms, r, *final(self)),
    ;

    /// Whether a program can be run from here and succeeds.
    fn is_available(&mut self, cmd: &str, args: &Vec<String>) -> (r: bool)
        ensures
            exists|o: Result<ProcessOutput, String>|
                #[trigger] old(self).answers(cmd@, text::views(args@), "."@, o, *final(self)) && r
                    == succeeded(o),
    {
        let o = self.run(cmd, args, ".");
        let r = match &o {
            Ok(out) => out.success,
            Err(_) => false,
        };
        assert(r == succeeded(o));
        r
    }
}

/// The program ran and succeeded.
pub open spec fn succeeded(o: Result<ProcessOutput, String>) -> bool {
    match o {
        Ok(out) => out.success,
        Err(_) => false,
    }
}

/// `r` says whether running a program from here succeeds, in one of the outcomes that this
/// can have on the way from one state of the runner to the next.
pub open spec fn is_probed<P: SubprocessRunner>(
    before: P,
    cmd: Seq<char>,
    args: Seq<Seq<char>>,
    r: bool,
    after: P,
) -> bool {
    exists|o: Result<ProcessOutput, String>|
        #[trigger] before.answers(cmd, args, "."@, o, after) && r == succeeded(o)
}

/// Test double: returns fixed output for any program.
#[derive(Debug)]
pub struct MockProcessRunner {
    pub success: bool,
    pub stdout: String,
    pub stderr: String,
}

impl MockProcessRunner {
    pub fn passing(stdout: &str) -> (r: Self)
        ensures
            r.success,
            r.stdout@ == stdout@,
            r.stderr@ == Seq::<char>::empty(),
    {
        MockProcessRunner { success: true, stdout: stdout.to_string(), stderr: String::new() }
    }

    pub fn failing(stdout: &str) -> (r: Self)
        ensures
            !r.success,
            r.stdout@ == stdout@,
            r.stderr@ == "error output"@,
    {
        MockProcessRunner {
            success: false,
            stdout: stdout.to_string(),
            stderr: "error output".to_string(),
        }
    }

    pub fn unavailable() -> (r: Self)
        ensures
            !r.success,
            r.stdout@ == Seq::<char>::empty(),
            r.stderr@ == "not found"@,
    {
        MockProcessRunner {
            success: false,
            stdout: String::new(),
            stderr: "not found".to_string(),
        }
    }

    fn output(&self) -> (r: ProcessOutput)
        ensures
            r.success == self.success,
            r.stdout == self.stdout,
            r.stderr == self.stderr,
    {
        ProcessOutput {
            success: self.success,
            stdout: self.stdout.clone(),
            stderr: self.stderr.clone(),
        }
    }
}

impl SubprocessRunner for MockProcessRunner {
    open spec fn answers(
        &self,
        cmd: Seq<char>,
        args: Seq<Seq<char>>,
        cwd: Seq<char>,
        outcome: Result<ProcessOutput, String>,
        after: Self,
    ) -> bool {
        after == *self && match outcome {
            Ok(out) => out.success == self.success && out.stdout == self.stdout && out.stderr
                == self.stderr,
            Err(_) => false,
        }
    }

    open spec fn answers_timed(
        &self,
        cmd: Seq<char>,
        args: Seq<Seq<char>>,
        cwd: Seq<char>,
        timeout_ms: u64,
        outcome: Result<ProcessOutput, RunFailure>,
        after: Self,
    ) -> bool {
        after == *self && match outcome {
            Ok(out) => out.success == self.success && out.stdout == self.stdout && out.stderr
                == self.stderr,
            Err(_) => false,
        }
    }

    fn run(&mut self, cmd: &str, args: &Vec<String>, cwd: &str) -> (r: Result<ProcessOutput, String>) {
        Ok(self.output())
    }

    fn run_timed(&mut self, cmd: &str, args: &Vec<String>, cwd: &str, timeout_ms: u64) -> (r: Result<
        ProcessOutput,
        RunFailure,
    >) {
        Ok(self.output())
    }
}

/// What a program printed on both streams is the one, a line feed and the other.
pub proof fn law_both_streams_are_kept(o: ProcessOutput)
    ensures
        o.both().len() == o.stdout@.len() + 1 + o.stderr@.len(),
        o.both().subrange(0, o.stdout@.len() as int) == o.stdout@,
        o.both()[o.stdout@.len() as int] == '\n',
        o.both().subrange((o.stdout@.len() + 1) as int, o.both().len() as int) == o.stderr@,
{
    reveal_strlit("\n");
    assert(o.both().subrange(0, o.stdout@.len() as int) =~= o.stdout@);
    assert(o.both().subrange((o.stdout@.len() + 1) as int, o.both().len() as int) =~= o.stderr@);
}

/// A program is there exactly where it was started and ended well.
pub proof fn law_what_succeeds(out: ProcessOutput, e: String)
    ensures
        succeeded(Ok(out)) <==> out.success,
        !succeeded(Err(e)),
{
}

} // verus!
