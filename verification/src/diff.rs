//! Changed files, for runs that are limited to what changed since a revision.
use vstd::prelude::*;

use crate::files;
use crate::process::ProcessOutput;
use crate::text;

verus! {

pub struct DiffContext {
    /// Paths changed since the revision, relative to `repo_root`.
    pub changed_files: Vec<String>,
    /// Absolute path to the root of the repository.
    pub repo_root: String,
    /// The absolute paths of the changed files, without links where they exist.
    pub absolute_files: Vec<String>,
}

// ── paths ───────────────────────────────────────────────────────────────────

/// The piece at position `i` of a path counts: it is not empty, and no dot but at the
/// front.
pub open spec fn counts(p: Seq<char>, i: int) -> bool {
    p.len() > 0 && (p != "."@ || i == 0)
}

pub open spec fn counted(pieces: Seq<Seq<char>>) -> Seq<Seq<char>>
    decreases pieces.len(),
{
    if pieces.len() == 0 {
        Seq::empty()
    } else if counts(pieces.last(), pieces.len() - 1) {
        counted(pieces.drop_last()).push(pieces.last())
    } else {
        counted(pieces.drop_last())
    }
}

/// The parts of a path between its slashes.
pub open spec fn parts_of(path: Seq<char>) -> Seq<Seq<char>> {
    counted(text::pieces(path, '/'))
}

pub open spec fn is_absolute(path: Seq<char>) -> bool {
    path.len() > 0 && path[0] == '/'
}

/// `path` is `dir` or stands somewhere in it, part by part.
pub open spec fn is_within(path: Seq<char>, dir: Seq<char>) -> bool {
    let p = parts_of(path);
    let d = parts_of(dir);
    is_absolute(path) == is_absolute(dir) && d.len() <= p.len() && p.subrange(0, d.len() as int)
        == d
}

/// The last part of a path, where it names something.
pub open spec fn last_part(path: Seq<char>) -> Option<Seq<char>> {
    let p = parts_of(path);
    if p.len() > 0 && p.last() != ".."@ && p.last() != "."@ {
        Some(p.last())
    } else {
        None
    }
}

/// The parts of a path.
pub fn parts(path: &str) -> (r: Vec<String>)
    ensures
        text::views(r@) == parts_of(path@),
{
    let pieces = text::split(path, '/');
    let ghost all = text::views(pieces@);
    let mut r: Vec<String> = Vec::new();
    let mut i: usize = 0;
    assert(all.subrange(0, 0) =~= Seq::<Seq<char>>::empty());
    assert(text::views(r@) =~= Seq::<Seq<char>>::empty());
    while i < pieces.len()
        invariant
            i <= pieces@.len(),
            all == text::views(pieces@),
            text::views(r@) == counted(all.subrange(0, i as int)),
        decreases pieces@.len() - i,
    {
        let ghost before = text::views(r@);
        proof {
            let next = all.subrange(0, i + 1);
            assert(next.drop_last() =~= all.subrange(0, i as int));
            assert(next.last() == pieces@[i as int]@);
        }
        if !pieces[i].as_str().is_empty() && (!text::same(pieces[i].as_str(), ".") || i == 0) {
            r.push(pieces[i].clone());
            assert(text::views(r@) =~= before.push(pieces@[i as int]@));
        }
        i += 1;
    }
    assert(all.subrange(0, i as int) =~= all);
    r
}

pub fn absolute(path: &str) -> (r: bool)
    ensures
        r == is_absolute(path@),
{
    !path.is_empty() && path.get_char(0) == '/'
}

/// Whether `path` is `dir` or stands somewhere in it.
pub fn within(path: &str, dir: &str) -> (r: bool)
    ensures
        r == is_within(path@, dir@),
{
    let p = parts(path);
    let d = parts(dir);
    let ghost pv = text::views(p@);
    let ghost dv = text::views(d@);
    if absolute(path) != absolute(dir) || d.len() > p.len() {
        return false;
    }
    let mut i: usize = 0;
    while i < d.len()
        invariant
            i <= d@.len() <= p@.len(),
            pv == text::views(p@),
            dv == text::views(d@),
            dv == parts_of(dir@),
            pv == parts_of(path@),
            forall|k: int| 0 <= k < i ==> pv[k] == dv[k],
        decreases d@.len() - i,
    {
        if !text::same(p[i].as_str(), d[i].as_str()) {
            assert(pv.subrange(0, dv.len() as int)[i as int] != dv[i as int]);
            return false;
        }
        i += 1;
    }
    assert(pv.subrange(0, dv.len() as int) =~= dv);
    true
}

// ── what changed ────────────────────────────────────────────────────────────

/// The lines of a text that are not empty.
pub open spec fn filled(lines: Seq<Seq<char>>) -> Seq<Seq<char>>
    decreases lines.len(),
{
    if lines.len() == 0 {
        Seq::empty()
    } else if lines.last().len() > 0 {
        filled(lines.drop_last()).push(lines.last())
    } else {
        filled(lines.drop_last())
    }
}

fn filled_lines(s: &str) -> (r: Vec<String>)
    ensures
        text::views(r@) == filled(text::lines_of(s@)),
{
    let lines = text::lines(s);
    let ghost all = text::views(lines@);
    let mut r: Vec<String> = Vec::new();
    let mut i: usize = 0;
    assert(all.subrange(0, 0) =~= Seq::<Seq<char>>::empty());
    assert(text::views(r@) =~= Seq::<Seq<char>>::empty());
    while i < lines.len()
        invariant
            i <= lines@.len(),
            all == text::views(lines@),
            text::views(r@) == filled(all.subrange(0, i as int)),
        decreases lines@.len() - i,
    {
        let ghost before = text::views(r@);
        proof {
            let next = all.subrange(0, i + 1);
            assert(next.drop_last() =~= all.subrange(0, i as int));
            assert(next.last() == lines@[i as int]@);
        }
        if !lines[i].as_str().is_empty() {
            r.push(lines[i].clone());
            assert(text::views(r@) =~= before.push(lines@[i as int]@));
        }
        i += 1;
    }
    assert(all.subrange(0, i as int) =~= all);
    r
}

/// The root that `git rev-parse --show-toplevel` printed, if it succeeded and printed one.
pub fn git_repo_root(out: &ProcessOutput) -> (r: Option<String>)
    ensures
        text::opt_view(r) == (if out.success && text::trimmed(out.stdout@).len() > 0 {
            Some(text::trimmed(out.stdout@))
        } else {
            None
        }),
{
    if !out.success {
        return None;
    }
    let raw = text::trim(out.stdout.as_str());
    if raw.as_str().is_empty() {
        None
    } else {
        Some(raw)
    }
}

pub open spec fn is_lockfile(name: Seq<char>) -> bool {
    ||| name == "Cargo.lock"@
    ||| name == "package-lock.json"@
    ||| name == "yarn.lock"@
    ||| name == "pnpm-lock.yaml"@
    ||| name == "go.sum"@
    ||| name == "requirements.txt"@
    ||| name == "requirements-dev.txt"@
    ||| name == "requirements-prod.txt"@
    ||| name == "poetry.lock"@
    ||| name == "Pipfile.lock"@
}

pub open spec fn is_root_manifest(name: Seq<char>) -> bool {
    ||| name == "Cargo.toml"@
    ||| name == "package.json"@
    ||| name == "pyproject.toml"@
    ||| name == "go.mod"@
    ||| name == ".barzel.toml"@
    ||| name == "turbo.json"@
    ||| name == "lerna.json"@
    ||| name == "pnpm-workspace.yaml"@
}

/// A lockfile, anywhere.
pub open spec fn locks(path: Seq<char>) -> bool {
    match last_part(path) {
        Some(name) => is_lockfile(name),
        None => false,
    }
}

/// A manifest at the root, or a rule file that all packages share.
pub open spec fn concerns_all(path: Seq<char>) -> bool {
    let p = parts_of(path);
    match last_part(path) {
        Some(name) => {
            ||| !is_absolute(path) && p.len() == 1 && is_root_manifest(name)
            ||| !is_absolute(path) && p.len() == 3 && p[0] == ".barzel"@ && p[1] == "rules"@ && (
            files::extension_of(name) == Some("yml"@) || files::extension_of(name) == Some("yaml"@))
        },
        None => false,
    }
}

fn lockfile(name: &str) -> (r: bool)
    ensures
        r == is_lockfile(name@),
{
    text::same(name, "Cargo.lock") || text::same(name, "package-lock.json") || text::same(
        name,
        "yarn.lock",
    ) || text::same(name, "pnpm-lock.yaml") || text::same(name, "go.sum") || text::same(
        name,
        "requirements.txt",
    ) || text::same(name, "requirements-dev.txt") || text::same(name, "requirements-prod.txt")
        || text::same(name, "poetry.lock") || text::same(name, "Pipfile.lock")
}

fn root_manifest(name: &str) -> (r: bool)
    ensures
        r == is_root_manifest(name@),
{
    text::same(name, "Cargo.toml") || text::same(name, "package.json") || text::same(
        name,
        "pyproject.toml",
    ) || text::same(name, "go.mod") || text::same(name, ".barzel.toml") || text::same(
        name,
        "turbo.json",
    ) || text::same(name, "lerna.json") || text::same(name, "pnpm-workspace.yaml")
}

fn named(parts: &Vec<String>) -> (r: Option<String>)
    ensures
        text::opt_view(r) == (if parts@.len() > 0 && parts@.last()@ != ".."@ && parts@.last()@
            != "."@ {
            Some(parts@.last()@)
        } else {
            None
        }),
{
    if parts.len() == 0 {
        return None;
    }
    let last = &parts[parts.len() - 1];
    if text::same(last.as_str(), "..") || text::same(last.as_str(), ".") {
        None
    } else {
        Some(last.clone())
    }
}

fn is_lock(path: &str) -> (r: bool)
    ensures
        r == locks(path@),
{
    let p = parts(path);
    assert(p@.len() > 0 ==> text::views(p@).last() == p@.last()@);
    match named(&p) {
        Some(name) => lockfile(name.as_str()),
        None => false,
    }
}

fn is_shared(path: &str) -> (r: bool)
    ensures
        r == concerns_all(path@),
{
    let p = parts(path);
    let ghost v = text::views(p@);
    assert(p@.len() > 0 ==> v.last() == p@.last()@);
    match named(&p) {
        Some(name) => {
            if absolute(path) {
                return false;
            }
            if p.len() == 1 && root_manifest(name.as_str()) {
                return true;
            }
            if p.len() == 3 {
                assert(v[0] == p@[0]@ && v[1] == p@[1]@);
                if text::same(p[0].as_str(), ".barzel") && text::same(p[1].as_str(), "rules") {
                    return match files::extension(name.as_str()) {
                        Some(e) => text::same(e.as_str(), "yml") || text::same(e.as_str(), "yaml"),
                        None => false,
                    };
                }
            }
            false
        },
        None => false,
    }
}

/// The absolute paths of changed files, without looking at the disk.
pub open spec fn joined_paths(root: Seq<char>, paths: Seq<Seq<char>>) -> Seq<Seq<char>> {
    paths.map_values(|p: Seq<char>| root + "/"@ + p)
}

/// The paths that `git diff` printed, and then those that `git ls-files` printed.
pub open spec fn changed_in(diff: ProcessOutput, untracked: Option<&ProcessOutput>) -> Seq<
    Seq<char>,
> {
    filled(text::lines_of(diff.stdout@)) + (match untracked {
        Some(o) => filled(text::lines_of(o.stdout@)),
        None => Seq::empty(),
    })
}

impl DiffContext {
    /// The changes that `git diff --name-only` and `git ls-files --others` printed. None
    /// where `git diff` failed; untracked files count where they could be listed.
    pub fn since(repo_root: String, diff: &ProcessOutput, untracked: Option<&ProcessOutput>) -> (r:
        Option<Self>)
        ensures
            r is Some <==> diff.success,
            r matches Some(ctx) ==> ctx.repo_root == repo_root && text::views(ctx.changed_files@)
                == filled(text::lines_of(diff.stdout@)) + (match untracked {
                Some(o) => filled(text::lines_of(o.stdout@)),
                None => Seq::empty(),
            }) && text::views(ctx.absolute_files@) == joined_paths(
                repo_root@,
                text::views(ctx.changed_files@),
            ),
            r matches Some(ctx) ==> text::views(ctx.changed_files@) == changed_in(*diff, untracked),
    {
        if !diff.success {
            return None;
        }
        let mut changed_files = filled_lines(diff.stdout.as_str());
        let ghost first = text::views(changed_files@);
        match untracked {
            Some(o) => {
                let mut more = filled_lines(o.stdout.as_str());
                let ghost second = text::views(more@);
                changed_files.append(&mut more);
                assert(text::views(changed_files@) =~= first + second);
            },
            None => {
                assert(first + Seq::<Seq<char>>::empty() =~= first);
            },
        }
        let mut absolute_files: Vec<String> = Vec::new();
        let mut i: usize = 0;
        while i < changed_files.len()
            invariant
                i <= changed_files@.len(),
                absolute_files@.len() == i,
                forall|k: int|
                    0 <= k < i ==> (#[trigger] absolute_files@[k])@ == repo_root@ + "/"@
                        + changed_files@[k]@,
            decreases changed_files@.len() - i,
        {
            absolute_files.push(text::cat3(repo_root.as_str(), "/", changed_files[i].as_str()));
            i += 1;
        }
        assert(text::views(absolute_files@) =~= joined_paths(
            repo_root@,
            text::views(changed_files@),
        ));
        Some(DiffContext { changed_files, repo_root, absolute_files })
    }

    /// Some changed file stands in `project_root`.
    pub open spec fn affects(self, project_root: Seq<char>) -> bool {
        exists|i: int|
            0 <= i < self.absolute_files@.len() && is_within(
                #[trigger] self.absolute_files@[i]@,
                project_root,
            )
    }

    pub open spec fn locks_changed(self) -> bool {
        exists|i: int|
            0 <= i < self.changed_files@.len() && locks(#[trigger] self.changed_files@[i]@)
    }

    /// No package may be left out.
    pub open spec fn needs_full_run(self) -> bool {
        self.locks_changed() || exists|i: int|
            0 <= i < self.changed_files@.len() && concerns_all(#[trigger] self.changed_files@[i]@)
    }

    pub open spec fn summary_text(self) -> Seq<char> {
        text::decimal(self.changed_files@.len()) + " file(s) changed"@
    }

    /// Whether any changed file stands in `project_root`, an absolute path without links.
    pub fn affects_path(&self, project_root: &str) -> (r: bool)
        ensures
            r == self.affects(project_root@),
    {
        let mut i: usize = 0;
        while i < self.absolute_files.len()
            invariant
                i <= self.absolute_files@.len(),
                forall|k: int|
                    0 <= k < i ==> !is_within(#[trigger] self.absolute_files@[k]@, project_root@),
            decreases self.absolute_files@.len() - i,
        {
            if within(self.absolute_files[i].as_str(), project_root) {
                return true;
            }
            i += 1;
        }
        false
    }

    /// Whether any changed file is a lockfile.
    pub fn has_lockfile_changes(&self) -> (r: bool)
        ensures
            r == self.locks_changed(),
    {
        let mut i: usize = 0;
        while i < self.changed_files.len()
            invariant
                i <= self.changed_files@.len(),
                forall|k: int| 0 <= k < i ==> !locks(#[trigger] self.changed_files@[k]@),
            decreases self.changed_files@.len() - i,
        {
            if is_lock(self.changed_files[i].as_str()) {
                return true;
            }
            i += 1;
        }
        false
    }

    /// Whether a change makes it unsafe to leave out any package.
    pub fn forces_full_run(&self) -> (r: bool)
        ensures
            r == self.needs_full_run(),
    {
        if self.has_lockfile_changes() {
            return true;
        }
        let mut i: usize = 0;
        while i < self.changed_files.len()
            invariant
                i <= self.changed_files@.len(),
                forall|k: int| 0 <= k < i ==> !concerns_all(#[trigger] self.changed_files@[k]@),
            decreases self.changed_files@.len() - i,
        {
            if is_shared(self.changed_files[i].as_str()) {
                return true;
            }
            i += 1;
        }
        false
    }

    /// A summary for skip messages.
    pub fn summary(&self) -> (r: String)
        ensures
            r@ == self.summary_text(),
    {
        let n = text::number(self.changed_files.len() as u64);
        text::cat(n.as_str(), " file(s) changed")
    }
}

/// Without changed files nothing is affected and nothing forces a full run.
pub proof fn law_no_changes_affect_nothing(c: DiffContext, root: Seq<char>)
    requires
        c.changed_files@.len() == 0,
        c.absolute_files@.len() == 0,
    ensures
        !c.affects(root),
        !c.needs_full_run(),
{
}

/// The changes that `since` finds affect a project exactly where one of the changed files,
/// taken from the root of the repository, stands in it.
pub proof fn law_changes_affect_where_they_stand(c: DiffContext, root: Seq<char>)
    requires
        text::views(c.absolute_files@) == joined_paths(
            c.repo_root@,
            text::views(c.changed_files@),
        ),
    ensures
        c.affects(root) <==> exists|i: int|
            0 <= i < c.changed_files@.len() && is_within(
                c.repo_root@ + "/"@ + (#[trigger] c.changed_files@[i])@,
                root,
            ),
{
    let paths = joined_paths(c.repo_root@, text::views(c.changed_files@));
    assert(text::views(c.absolute_files@).len() == c.absolute_files@.len());
    assert(text::views(c.changed_files@).len() == c.changed_files@.len());
    assert forall|i: int| 0 <= i < c.changed_files@.len() implies #[trigger] c.absolute_files@[i]@
        == c.repo_root@ + "/"@ + c.changed_files@[i]@ by {
        assert(text::views(c.absolute_files@)[i] == paths[i]);
        assert(text::views(c.absolute_files@)[i] == c.absolute_files@[i]@);
        assert(text::views(c.changed_files@)[i] == c.changed_files@[i]@);
    }
    if c.affects(root) {
        let i = choose|i: int|
            0 <= i < c.absolute_files@.len() && is_within(
                #[trigger] c.absolute_files@[i]@,
                root,
            );
        assert(c.changed_files@[i]@ == text::views(c.changed_files@)[i]);
    }
    if exists|i: int|
        0 <= i < c.changed_files@.len() && is_within(
            c.repo_root@ + "/"@ + (#[trigger] c.changed_files@[i])@,
            root,
        ) {
        let i = choose|i: int|
            0 <= i < c.changed_files@.len() && is_within(
                c.repo_root@ + "/"@ + (#[trigger] c.changed_files@[i])@,
                root,
            );
        assert(is_within(c.absolute_files@[i]@, root));
    }
}

proof fn lemma_filled(lines: Seq<Seq<char>>)
    ensures
        filled(lines) == lines.filter(|l: Seq<char>| l.len() > 0),
    decreases lines.len(),
{
    reveal(Seq::filter);
    if lines.len() > 0 {
        lemma_filled(lines.drop_last());
    }
}

proof fn lemma_nothing_empty(lines: Seq<Seq<char>>)
    requires
        forall|i: int| 0 <= i < lines.len() ==> (#[trigger] lines[i]).len() > 0,
    ensures
        filled(lines) == lines,
    decreases lines.len(),
{
    if lines.len() > 0 {
        lemma_nothing_empty(lines.drop_last());
        assert(filled(lines) =~= lines);
    }
}

/// Every line that git printed is a changed file, but for empty ones: in order, and as
/// often as it was printed.
pub proof fn law_every_printed_line_is_a_change(
    diff: ProcessOutput,
    untracked: Option<&ProcessOutput>,
    path: Seq<char>,
)
    ensures
        changed_in(diff, untracked) == text::lines_of(diff.stdout@).filter(
            |l: Seq<char>| l.len() > 0,
        ) + (match untracked {
            Some(o) => text::lines_of(o.stdout@).filter(|l: Seq<char>| l.len() > 0),
            None => Seq::empty(),
        }),
        changed_in(diff, untracked).contains(path) <==> path.len() > 0 && (text::lines_of(
            diff.stdout@,
        ).contains(path) || (untracked matches Some(o) && text::lines_of(o.stdout@).contains(
            path,
        ))),
{
    let full = |l: Seq<char>| l.len() > 0;
    let a = text::lines_of(diff.stdout@);
    lemma_filled(a);
    lemma_filter_contains(a, path);
    match untracked {
        Some(o) => {
            let b = text::lines_of(o.stdout@);
            lemma_filled(b);
            lemma_filter_contains(b, path);
            lemma_concat_contains(filled(a), filled(b), path);
        },
        None => {
            assert(changed_in(diff, untracked) =~= filled(a));
        },
    }
}

proof fn lemma_filter_contains(lines: Seq<Seq<char>>, path: Seq<char>)
    ensures
        filled(lines).contains(path) <==> lines.contains(path) && path.len() > 0,
    decreases lines.len(),
{
    if lines.len() > 0 {
        let front = lines.drop_last();
        lemma_filter_contains(front, path);
        assert(lines =~= front + seq![lines.last()]);
        lemma_concat_contains(front, seq![lines.last()], path);
        assert(seq![lines.last()].contains(path) <==> lines.last() == path) by {
            assert(seq![lines.last()][0] == lines.last());
        }
        if lines.last().len() > 0 {
            assert(filled(lines) =~= filled(front) + seq![lines.last()]);
            lemma_concat_contains(filled(front), seq![lines.last()], path);
        }
    }
}

proof fn lemma_concat_contains(a: Seq<Seq<char>>, b: Seq<Seq<char>>, x: Seq<char>)
    ensures
        (a + b).contains(x) <==> a.contains(x) || b.contains(x),
{
    if a.contains(x) {
        let i = choose|i: int| 0 <= i < a.len() && a[i] == x;
        assert((a + b)[i] == x);
    }
    if b.contains(x) {
        let i = choose|i: int| 0 <= i < b.len() && b[i] == x;
        assert((a + b)[a.len() + i] == x);
    }
    if (a + b).contains(x) {
        let i = choose|i: int| 0 <= i < (a + b).len() && (a + b)[i] == x;
        if i < a.len() {
            assert(a[i] == x);
        } else {
            assert(b[i - a.len()] == x);
        }
    }
}

/// Paths that git prints line by line are the changed files, all of them.
pub proof fn law_printed_paths_are_the_changes(
    diff: ProcessOutput,
    untracked: Option<&ProcessOutput>,
    changed: Seq<Seq<char>>,
    added: Seq<Seq<char>>,
)
    requires
        diff.stdout@ == text::with_feeds(changed),
        match untracked {
            Some(o) => o.stdout@ == text::with_feeds(added),
            None => added.len() == 0,
        },
        forall|i: int| 0 <= i < changed.len() ==> is_printed(#[trigger] changed[i]),
        forall|i: int| 0 <= i < added.len() ==> is_printed(#[trigger] added[i]),
    ensures
        changed_in(diff, untracked) == changed + added,
{
    text::law_lines_read_back(changed);
    text::law_lines_read_back(added);
    lemma_nothing_empty(changed);
    lemma_nothing_empty(added);
    assert(changed + added =~= changed_in(diff, untracked));
}

/// A path that can stand in a line.
pub open spec fn is_printed(path: Seq<char>) -> bool {
    path.len() > 0 && text::lacks(path, '\n') && path.last() != '\r'
}

/// A name that a path can hold between its slashes.
pub open spec fn is_part(p: Seq<char>) -> bool {
    p.len() > 0 && text::lacks(p, '/') && p != "."@
}

/// The path through the directories and files `names`.
pub open spec fn path_of(names: Seq<Seq<char>>) -> Seq<char> {
    text::joined(names, seq!['/'])
}

proof fn lemma_all_counted(pieces: Seq<Seq<char>>)
    requires
        forall|i: int| 0 <= i < pieces.len() ==> is_part(#[trigger] pieces[i]),
    ensures
        counted(pieces) == pieces,
        counted(seq![Seq::<char>::empty()] + pieces) == pieces,
    decreases pieces.len(),
{
    let with = seq![Seq::<char>::empty()] + pieces;
    if pieces.len() > 0 {
        lemma_all_counted(pieces.drop_last());
        assert(with.drop_last() =~= seq![Seq::<char>::empty()] + pieces.drop_last());
        assert(with.last() == pieces.last());
        assert(counted(pieces) =~= pieces);
        assert(counted(with) =~= pieces);
    } else {
        assert(with.drop_last() =~= Seq::<Seq<char>>::empty());
        assert(counted(with.drop_last()) =~= pieces);
        assert(counted(with) =~= pieces);
    }
}

proof fn lemma_path_starts(names: Seq<Seq<char>>)
    requires
        names.len() > 0,
        forall|i: int| 0 <= i < names.len() ==> is_part(#[trigger] names[i]),
    ensures
        path_of(names).len() > 0,
        path_of(names)[0] == names[0][0],
    decreases names.len(),
{
    if names.len() > 1 {
        lemma_path_starts(names.drop_last());
    }
}

/// The parts of a path are the names that it was made of, with or without a slash at its
/// front.
pub proof fn law_parts_read_back(names: Seq<Seq<char>>)
    requires
        names.len() > 0,
        forall|i: int| 0 <= i < names.len() ==> is_part(#[trigger] names[i]),
    ensures
        parts_of(path_of(names)) == names,
        !is_absolute(path_of(names)),
        parts_of(seq!['/'] + path_of(names)) == names,
        is_absolute(seq!['/'] + path_of(names)),
{
    let path = path_of(names);
    text::law_split_undoes_join(names, '/');
    lemma_all_counted(names);
    lemma_path_starts(names);
    assert(text::lacks(names[0], '/'));
    assert(names[0][0] != '/');
    let empty = Seq::<char>::empty();
    text::law_split_of_both_sides(empty, path, '/');
    assert(empty + seq!['/'] + path =~= seq!['/'] + path);
    assert(text::pieces(empty, '/') =~= seq![empty]);
}

/// A path stands in a directory exactly where its names begin with those of the directory.
/// A name that only begins like another is another name.
pub proof fn law_within_goes_by_names(names: Seq<Seq<char>>, dir: Seq<Seq<char>>)
    requires
        names.len() > 0,
        dir.len() > 0,
        forall|i: int| 0 <= i < names.len() ==> is_part(#[trigger] names[i]),
        forall|i: int| 0 <= i < dir.len() ==> is_part(#[trigger] dir[i]),
    ensures
        is_within(seq!['/'] + path_of(names), seq!['/'] + path_of(dir)) <==> dir.len()
            <= names.len() && forall|i: int| 0 <= i < dir.len() ==> names[i] == #[trigger] dir[i],
        is_within(path_of(names), path_of(dir)) <==> dir.len() <= names.len() && forall|i: int|
            0 <= i < dir.len() ==> names[i] == #[trigger] dir[i],
        !is_within(path_of(names), seq!['/'] + path_of(dir)),
{
    law_parts_read_back(names);
    law_parts_read_back(dir);
    if dir.len() <= names.len() {
        let front = names.subrange(0, dir.len() as int);
        if forall|i: int| 0 <= i < dir.len() ==> names[i] == #[trigger] dir[i] {
            assert(front =~= dir);
        }
        if front == dir {
            assert forall|i: int| 0 <= i < dir.len() implies names[i] == #[trigger] dir[i] by {
                assert(front[i] == dir[i]);
            }
        }
    }
}

/// A changed file is a lockfile by its own name, in whatever directory it stands.
pub proof fn law_lockfiles_anywhere(names: Seq<Seq<char>>)
    requires
        names.len() > 0,
        forall|i: int| 0 <= i < names.len() ==> is_part(#[trigger] names[i]),
    ensures
        locks(path_of(names)) <==> names.last() == "Cargo.lock"@ || names.last()
            == "package-lock.json"@ || names.last() == "yarn.lock"@ || names.last()
            == "pnpm-lock.yaml"@ || names.last() == "go.sum"@ || names.last()
            == "requirements.txt"@ || names.last() == "requirements-dev.txt"@ || names.last()
            == "requirements-prod.txt"@ || names.last() == "poetry.lock"@ || names.last()
            == "Pipfile.lock"@,
{
    law_parts_read_back(names);
    assert(is_part(names.last()));
    reveal_strlit("..");
    reveal_strlit("Cargo.lock");
    reveal_strlit("package-lock.json");
    reveal_strlit("yarn.lock");
    reveal_strlit("pnpm-lock.yaml");
    reveal_strlit("go.sum");
    reveal_strlit("requirements.txt");
    reveal_strlit("requirements-dev.txt");
    reveal_strlit("requirements-prod.txt");
    reveal_strlit("poetry.lock");
    reveal_strlit("Pipfile.lock");
}

/// A manifest concerns all packages where it stands at the root; a file of rules where it
/// stands directly below `.barzel/rules` and ends in `.yml` or `.yaml`. Nothing else does.
pub proof fn law_what_concerns_all(names: Seq<Seq<char>>)
    requires
        names.len() > 0,
        forall|i: int| 0 <= i < names.len() ==> is_part(#[trigger] names[i]),
    ensures
        names.len() == 1 ==> (concerns_all(path_of(names)) <==> names[0] == "Cargo.toml"@
            || names[0] == "package.json"@ || names[0] == "pyproject.toml"@ || names[0]
            == "go.mod"@ || names[0] == ".barzel.toml"@ || names[0] == "turbo.json"@ || names[0]
            == "lerna.json"@ || names[0] == "pnpm-workspace.yaml"@),
        names.len() != 1 ==> (concerns_all(path_of(names)) <==> names.len() == 3 && names[0]
            == ".barzel"@ && names[1] == "rules"@ && ((text::ends(names[2], ".yml"@)
            && names[2].len() > 4) || (text::ends(names[2], ".yaml"@) && names[2].len() > 5))),
{
    law_parts_read_back(names);
    assert(is_part(names.last()));
    reveal_strlit("..");
    reveal_strlit("Cargo.toml");
    reveal_strlit("package.json");
    reveal_strlit("pyproject.toml");
    reveal_strlit("go.mod");
    reveal_strlit(".barzel.toml");
    reveal_strlit("turbo.json");
    reveal_strlit("lerna.json");
    reveal_strlit("pnpm-workspace.yaml");
    if names.len() == 3 {
        reveal_strlit("yml");
        reveal_strlit("yaml");
        reveal_strlit(".yml");
        reveal_strlit(".yaml");
        files::law_extension_is_behind_the_last_dot(names[2], "yml"@);
        files::law_extension_is_behind_the_last_dot(names[2], "yaml"@);
        assert(".yml"@ =~= seq!['.'] + "yml"@);
        assert(".yaml"@ =~= seq!['.'] + "yaml"@);
    }
}

/// A full run is forced exactly where some changed file is a lockfile or concerns all.
pub proof fn law_full_run_has_a_cause(c: DiffContext)
    ensures
        c.needs_full_run() <==> exists|i: int|
            0 <= i < c.changed_files@.len() && (locks(#[trigger] c.changed_files@[i]@)
                || concerns_all(c.changed_files@[i]@)),
        c.locks_changed() <==> exists|i: int|
            0 <= i < c.changed_files@.len() && locks(#[trigger] c.changed_files@[i]@),
{
}

/// What is said of the changes.
pub proof fn law_what_changes_are_told_as(c: DiffContext)
    ensures
        c.summary_text() == text::decimal(c.changed_files@.len()) + " file(s) changed"@,
{
}

/// The rules of a project concern all of it: the files in `.barzel/rules` that end in `.yml`
/// or `.yaml`. No other file of that directory does.
pub proof fn law_rules_concern_all(name: Seq<char>)
    requires
        is_part(name) && name != ".."@,
    ensures
        concerns_all(path_of(seq![".barzel"@, "rules"@, name])) <==> files::extension_of(name)
            == Some("yml"@) || files::extension_of(name) == Some("yaml"@),
{
    reveal_strlit(".barzel");
    reveal_strlit("rules");
    reveal_strlit(".");
    let v = seq![".barzel"@, "rules"@, name];
    assert(".barzel"@.len() != "."@.len() && "rules"@.len() != "."@.len());
    assert(is_part(v[0]) && is_part(v[1]) && is_part(v[2]));
    law_parts_read_back(v);
}

} // verus!
