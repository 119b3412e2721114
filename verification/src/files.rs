//! What was found on disk: paths, kinds and texts.
use vstd::prelude::*;

use crate::order;
use crate::text;

verus! {

/// A path that exists. Paths are written as the library asks for them; the project
/// itself has the empty path.
#[derive(Debug)]
pub struct Entry {
    pub path: String,
    pub dir: bool,
    /// The absolute path, without links.
    pub absolute: String,
    /// What stands in the file, where it was read.
    pub text: Option<String>,
}

/// The paths that exist.
#[derive(Debug)]
pub struct Files {
    pub entries: Vec<Entry>,
}

/// The first entry with a path, from position `i` on.
pub open spec fn entry_from(entries: Seq<Entry>, path: Seq<char>, i: int) -> Option<Entry>
    decreases entries.len() - i,
{
    if i < 0 || i >= entries.len() {
        None
    } else if entries[i].path@ == path {
        Some(entries[i])
    } else {
        entry_from(entries, path, i + 1)
    }
}

/// The path of `name` in the directory `dir`.
pub open spec fn path_in(dir: Seq<char>, name: Seq<char>) -> Seq<char> {
    if dir.len() == 0 {
        name
    } else {
        dir + "/"@ + name
    }
}

/// The name of the directory `e`, if it stands directly in `dir`.
pub open spec fn subdir_name(e: Entry, dir: Seq<char>) -> Option<Seq<char>> {
    match text::without_front(e.path@, dir + "/"@) {
        Some(name) => if e.dir && name.len() > 0 && !name.contains('/') {
            Some(name)
        } else {
            None
        },
        None => None,
    }
}

/// The names of the directories in `dir`, as they were found.
pub open spec fn subdir_names(entries: Seq<Entry>, dir: Seq<char>) -> Seq<Seq<char>>
    decreases entries.len(),
{
    if entries.len() == 0 {
        Seq::empty()
    } else {
        match subdir_name(entries.last(), dir) {
            Some(name) => subdir_names(entries.drop_last(), dir).push(name),
            None => subdir_names(entries.drop_last(), dir),
        }
    }
}

impl Files {
    pub open spec fn entry(self, path: Seq<char>) -> Option<Entry> {
        entry_from(self.entries@, path, 0)
    }

    /// Something stands at `path`.
    pub open spec fn has(self, path: Seq<char>) -> bool {
        self.entry(path) is Some
    }

    pub open spec fn has_dir(self, path: Seq<char>) -> bool {
        match self.entry(path) {
            Some(e) => e.dir,
            None => false,
        }
    }

    /// The text of the file at `path`; empty where there is none.
    pub open spec fn content(self, path: Seq<char>) -> Seq<char> {
        match self.entry(path) {
            Some(e) => match e.text {
                Some(t) => t@,
                None => Seq::empty(),
            },
            None => Seq::empty(),
        }
    }

    /// The absolute path of `path`; `path` itself where nothing stands there.
    pub open spec fn real_path(self, path: Seq<char>) -> Seq<char> {
        match self.entry(path) {
            Some(e) => e.absolute@,
            None => path,
        }
    }

    /// The names of the directories in `dir`, in order.
    pub open spec fn subdirs(self, dir: Seq<char>) -> Seq<Seq<char>> {
        order::sorted_texts(subdir_names(self.entries@, dir))
    }

    fn find(&self, path: &str) -> (r: Option<&Entry>)
        ensures
            match r {
                Some(e) => self.entry(path@) == Some(*e),
                None => self.entry(path@) is None,
            },
    {
        let mut i: usize = 0;
        while i < self.entries.len()
            invariant
                i <= self.entries@.len(),
                entry_from(self.entries@, path@, i as int) == entry_from(self.entries@, path@, 0),
            decreases self.entries@.len() - i,
        {
            if text::same(self.entries[i].path.as_str(), path) {
                return Some(&self.entries[i]);
            }
            i += 1;
        }
        None
    }

    /// Whether something stands at `path`.
    pub fn is_there(&self, path: &str) -> (r: bool)
        ensures
            r == self.has(path@),
    {
        self.find(path).is_some()
    }

    pub fn is_dir(&self, path: &str) -> (r: bool)
        ensures
            r == self.has_dir(path@),
    {
        match self.find(path) {
            Some(e) => e.dir,
            None => false,
        }
    }

    /// The text of the file at `path`; empty where there is none.
    pub fn read(&self, path: &str) -> (r: String)
        ensures
            r@ == self.content(path@),
    {
        match self.find(path) {
            Some(e) => match &e.text {
                Some(t) => t.clone(),
                None => String::new(),
            },
            None => String::new(),
        }
    }

    /// The absolute path of `path`; `path` itself where nothing stands there.
    pub fn absolute(&self, path: &str) -> (r: String)
        ensures
            r@ == self.real_path(path@),
    {
        match self.find(path) {
            Some(e) => e.absolute.clone(),
            None => path.to_string(),
        }
    }

    /// The names of the directories in `dir`, in order.
    pub fn list_dirs(&self, dir: &str) -> (r: Vec<String>)
        ensures
            text::views(r@) == self.subdirs(dir@),
    {
        let mut names: Vec<String> = Vec::new();
        let front = text::cat(dir, "/");
        let mut i: usize = 0;
        assert(text::views(names@) =~= Seq::<Seq<char>>::empty());
        assert(self.entries@.subrange(0, 0) =~= Seq::<Entry>::empty());
        while i < self.entries.len()
            invariant
                i <= self.entries@.len(),
                front@ == dir@ + "/"@,
                text::views(names@) == subdir_names(self.entries@.subrange(0, i as int), dir@),
            decreases self.entries@.len() - i,
        {
            let e = &self.entries[i];
            let ghost before = text::views(names@);
            proof {
                let next = self.entries@.subrange(0, i + 1);
                assert(next.drop_last() =~= self.entries@.subrange(0, i as int));
                assert(next.last() == *e);
            }
            match text::strip_prefix(e.path.as_str(), front.as_str()) {
                Some(name) => {
                    if e.dir && name.as_str().unicode_len() > 0 && !text::contains_char(
                        name.as_str(),
                        '/',
                    ) {
                        names.push(name);
                        assert(text::views(names@) =~= before.push(name@));
                    }
                },
                None => {},
            }
            i += 1;
        }
        assert(self.entries@.subrange(0, i as int) =~= self.entries@);
        order::sort_texts(&names)
    }
}

/// The path of `name` in the directory `dir`.
pub fn join(dir: &str, name: &str) -> (r: String)
    ensures
        r@ == path_in(dir@, name@),
{
    if dir.is_empty() {
        name.to_string()
    } else {
        text::cat3(dir, "/", name)
    }
}

/// The position of the last `c`, from the front part of length `n`; -1 if there is none.
pub open spec fn last_of(s: Seq<char>, c: char, n: int) -> int
    decreases n,
{
    if n <= 0 {
        -1
    } else if s[n - 1] == c {
        n - 1
    } else {
        last_of(s, c, n - 1)
    }
}

/// What stands behind the last `/` of a path.
pub open spec fn name_of(path: Seq<char>) -> Seq<char> {
    path.subrange(last_of(path, '/', path.len() as int) + 1, path.len() as int)
}

/// What stands behind the last dot of a file name, where something stands before it.
pub open spec fn extension_of(name: Seq<char>) -> Option<Seq<char>> {
    let dot = last_of(name, '.', name.len() as int);
    if name == ".."@ || dot <= 0 {
        None
    } else {
        Some(name.subrange(dot + 1, name.len() as int))
    }
}

pub proof fn lemma_last_of(s: Seq<char>, c: char, n: int)
    requires
        0 <= n <= s.len(),
    ensures
        -1 <= last_of(s, c, n) < n || n == 0 && last_of(s, c, n) == -1,
    decreases n,
{
    if n > 0 {
        lemma_last_of(s, c, n - 1);
    }
}

/// What stands behind the last `/` of a path.
pub fn file_name(path: &str) -> (r: String)
    ensures
        r@ == name_of(path@),
{
    let v = text::chars(path);
    let mut n: usize = v.len();
    proof {
        lemma_last_of(path@, '/', path@.len() as int);
    }
    while n > 0 && v[n - 1] != '/'
        invariant
            n <= v@.len(),
            v@ == path@,
            last_of(path@, '/', n as int) == last_of(path@, '/', path@.len() as int),
        decreases n,
    {
        n -= 1;
    }
    text::text_of(&v, n, v.len())
}

/// What stands behind the last dot of a file name, where something stands before it.
pub fn extension(name: &str) -> (r: Option<String>)
    ensures
        text::opt_view(r) == extension_of(name@),
{
    let v = text::chars(name);
    let mut n: usize = v.len();
    proof {
        lemma_last_of(name@, '.', name@.len() as int);
    }
    while n > 0 && v[n - 1] != '.'
        invariant
            n <= v@.len(),
            v@ == name@,
            last_of(name@, '.', n as int) == last_of(name@, '.', name@.len() as int),
        decreases n,
    {
        n -= 1;
    }
    if text::same(name, "..") || n <= 1 {
        None
    } else {
        Some(text::text_of(&v, n, v.len()))
    }
}

/// The name of `e`, if it stands directly in `dir`.
pub open spec fn child_name(e: Entry, dir: Seq<char>) -> Option<Seq<char>> {
    match text::without_front(e.path@, dir + "/"@) {
        Some(name) => if name.len() > 0 && !name.contains('/') {
            Some(name)
        } else {
            None
        },
        None => None,
    }
}

pub fn child(e: &Entry, dir: &str) -> (r: Option<String>)
    ensures
        text::opt_view(r) == child_name(*e, dir@),
{
    let front = text::cat(dir, "/");
    match text::strip_prefix(e.path.as_str(), front.as_str()) {
        Some(name) => if !name.as_str().is_empty() && !text::contains_char(name.as_str(), '/') {
            Some(name)
        } else {
            None
        },
        None => None,
    }
}

/// The name of the first entry directly in `dir`, from position `i` on.
pub open spec fn first_child_from(entries: Seq<Entry>, dir: Seq<char>, i: int) -> Option<Seq<char>>
    decreases entries.len() - i,
{
    if i < 0 || i >= entries.len() {
        None
    } else {
        match child_name(entries[i], dir) {
            Some(name) => Some(name),
            None => first_child_from(entries, dir, i + 1),
        }
    }
}

/// The name of what was found first in `dir`.
pub fn first_child(files: &Files, dir: &str) -> (r: Option<String>)
    ensures
        text::opt_view(r) == first_child_from(files.entries@, dir@, 0),
{
    let mut i: usize = 0;
    while i < files.entries.len()
        invariant
            i <= files.entries@.len(),
            first_child_from(files.entries@, dir@, i as int) == first_child_from(
                files.entries@,
                dir@,
                0,
            ),
        decreases files.entries@.len() - i,
    {
        match child(&files.entries[i], dir) {
            Some(name) => {
                return Some(name);
            },
            None => {},
        }
        i += 1;
    }
    None
}

/// `rel` below `root`: `rel` itself where it is absolute.
pub open spec fn below(root: Seq<char>, rel: Seq<char>) -> Seq<char> {
    if text::begins(rel, "/"@) || root.len() == 0 {
        rel
    } else if text::ends(root, "/"@) {
        root + rel
    } else {
        root + "/"@ + rel
    }
}

pub fn join_below(root: &str, rel: &str) -> (r: String)
    ensures
        r@ == below(root@, rel@),
{
    if text::starts_with(rel, "/") || root.is_empty() {
        rel.to_string()
    } else if text::ends_with(root, "/") {
        text::cat(root, rel)
    } else {
        text::cat3(root, "/", rel)
    }
}

// ── laws ────────────────────────────────────────────────────────────────────

/// The entry at `i` is the first with its path.
pub open spec fn is_first(entries: Seq<Entry>, i: int) -> bool {
    0 <= i < entries.len() && forall|k: int|
        0 <= k < i ==> (#[trigger] entries[k]).path@ != entries[i].path@
}

proof fn lemma_entry_from(entries: Seq<Entry>, path: Seq<char>, i: int)
    requires
        0 <= i <= entries.len(),
    ensures
        match entry_from(entries, path, i) {
            Some(e) => exists|k: int|
                i <= k < entries.len() && entries[k] == e && (#[trigger] entries[k]).path@ == path
                    && forall|m: int| i <= m < k ==> (#[trigger] entries[m]).path@ != path,
            None => forall|k: int|
                i <= k < entries.len() ==> (#[trigger] entries[k]).path@ != path,
        },
    decreases entries.len() - i,
{
    if i < entries.len() && entries[i].path@ != path {
        lemma_entry_from(entries, path, i + 1);
    }
}

/// Something stands at a path exactly where an entry has that path; its kind and its text
/// are those of the first such entry.
pub proof fn law_paths_are_found(files: Files, path: Seq<char>, i: int)
    ensures
        files.has(path) <==> exists|k: int|
            0 <= k < files.entries@.len() && (#[trigger] files.entries@[k]).path@ == path,
        is_first(files.entries@, i) && files.entries@[i].path@ == path ==> files.has_dir(path)
            == files.entries@[i].dir && files.real_path(path) == files.entries@[i].absolute@
            && files.content(path) == (match files.entries@[i].text {
            Some(t) => t@,
            None => Seq::empty(),
        }),
        !files.has(path) ==> !files.has_dir(path) && files.content(path) == Seq::<char>::empty(),
{
    lemma_entry_from(files.entries@, path, 0);
    if is_first(files.entries@, i) && files.entries@[i].path@ == path {
        let e = files.entry(path)->0;
        let k = choose|k: int|
            0 <= k < files.entries@.len() && files.entries@[k] == e
                && (#[trigger] files.entries@[k]).path@ == path && forall|m: int|
                0 <= m < k ==> (#[trigger] files.entries@[m]).path@ != path;
        if k < i {
            assert(files.entries@[k].path@ != path);
        }
        if i < k {
            assert(files.entries@[i].path@ != path);
        }
    }
}

proof fn lemma_last_of_is(s: Seq<char>, c: char, n: int, k: int)
    requires
        0 <= k < n <= s.len(),
        s[k] == c,
        forall|i: int| k < i < n ==> s[i] != c,
    ensures
        last_of(s, c, n) == k,
    decreases n,
{
    if k < n - 1 {
        lemma_last_of_is(s, c, n - 1, k);
    }
}

proof fn lemma_last_of_stands(s: Seq<char>, c: char, n: int)
    requires
        0 <= n <= s.len(),
    ensures
        -1 <= last_of(s, c, n) < n || n == 0,
        last_of(s, c, n) >= 0 ==> s[last_of(s, c, n)] == c,
        forall|i: int| last_of(s, c, n) < i < n && 0 <= i ==> s[i] != c,
    decreases n,
{
    if n > 0 {
        lemma_last_of_stands(s, c, n - 1);
    }
}

/// A file name has an extension exactly where it ends in it behind a dot, with something
/// before that.
pub proof fn law_extension_is_behind_the_last_dot(name: Seq<char>, ext: Seq<char>)
    requires
        text::lacks(ext, '.'),
        ext.len() > 0,
    ensures
        extension_of(name) == Some(ext) <==> name.len() > ext.len() + 1 && text::ends(
            name,
            seq!['.'] + ext,
        ),
{
    let n = name.len() as int;
    let tail = seq!['.'] + ext;
    reveal_strlit("..");
    if name.len() > ext.len() + 1 && text::ends(name, tail) {
        let k = n - tail.len();
        let back = name.subrange(k, n);
        assert(back[0] == name[k]);
        assert forall|i: int| k < i < n implies name[i] != '.' by {
            assert(back[i - k] == name[i]);
            assert(tail[i - k] == ext[i - k - 1]);
        }
        lemma_last_of_is(name, '.', n, k);
        assert(name.subrange(k + 1, n) =~= ext) by {
            assert forall|i: int| 0 <= i < ext.len() implies name[k + 1 + i] == ext[i] by {
                assert(back[i + 1] == name[k + 1 + i]);
            }
        }
    }
    if extension_of(name) == Some(ext) {
        lemma_last_of_stands(name, '.', n);
        let dot = last_of(name, '.', n);
        assert(name.subrange(dot, n) =~= tail) by {
            assert forall|i: int| 0 < i < tail.len() implies name[dot + i] == tail[i] by {
                assert(name.subrange(dot + 1, n)[i - 1] == ext[i - 1]);
            }
        }
    }
}

/// The name of a path is what was put behind its last slash.
pub proof fn law_name_is_behind_the_last_slash(dir: Seq<char>, name: Seq<char>)
    requires
        text::lacks(name, '/'),
    ensures
        name_of(name) == name,
        name_of(dir + seq!['/'] + name) == name,
        path_in(dir, name) == (if dir.len() == 0 {
            name
        } else {
            dir + seq!['/'] + name
        }),
{
    reveal_strlit("/");
    assert("/"@ =~= seq!['/']);
    lemma_last_of_stands(name, '/', name.len() as int);
    assert(name.subrange(0, name.len() as int) =~= name);
    let path = dir + seq!['/'] + name;
    assert forall|i: int| dir.len() < i < path.len() implies path[i] != '/' by {
        assert(path[i] == name[i - dir.len() - 1]);
    }
    lemma_last_of_is(path, '/', path.len() as int, dir.len() as int);
    assert(path.subrange(dir.len() as int + 1, path.len() as int) =~= name);
}

/// A directory is listed among those in `dir` exactly where an entry for it was found.
pub proof fn law_subdirs_are_listed(files: Files, dir: Seq<char>, name: Seq<char>)
    ensures
        files.subdirs(dir).contains(name) <==> name.len() > 0 && text::lacks(name, '/') && exists|
            i: int,
        |
            0 <= i < files.entries@.len() && (#[trigger] files.entries@[i]).dir
                && files.entries@[i].path@ == dir + seq!['/'] + name,
{
    reveal_strlit("/");
    assert("/"@ =~= seq!['/']);
    let names = subdir_names(files.entries@, dir);
    lemma_subdir_names(files.entries@, dir, name);
    order::law_sorting_texts_keeps_them(names, name);
}

proof fn lemma_subdir_names(entries: Seq<Entry>, dir: Seq<char>, name: Seq<char>)
    ensures
        subdir_names(entries, dir).contains(name) <==> name.len() > 0 && text::lacks(name, '/')
            && exists|i: int|
            0 <= i < entries.len() && (#[trigger] entries[i]).dir && entries[i].path@ == dir + "/"@
                + name,
    decreases entries.len(),
{
    if entries.len() > 0 {
        let front = entries.drop_last();
        let e = entries.last();
        lemma_subdir_names(front, dir, name);
        let before = subdir_names(front, dir);
        let all = subdir_names(entries, dir);
        let lead = dir + "/"@;
        assert(text::without_front(lead + name, lead) == Some(name)) by {
            assert((lead + name).subrange(0, lead.len() as int) =~= lead);
            assert((lead + name).subrange(lead.len() as int, (lead + name).len() as int) =~= name);
        }
        assert(text::without_front(e.path@, lead) matches Some(n) ==> lead + n =~= e.path@) by {
            if text::begins(e.path@, lead) {
                let n = e.path@.subrange(lead.len() as int, e.path@.len() as int);
                assert(lead + n =~= e.path@.subrange(0, lead.len() as int) + n);
                assert(e.path@.subrange(0, lead.len() as int) + n =~= e.path@);
            }
        }
        assert(text::lacks(name, '/') <==> !name.contains('/'));
        let own = subdir_name(e, dir);
        assert(own == Some(name) <==> e.dir && e.path@ == lead + name && name.len() > 0
            && text::lacks(name, '/'));
        if own is Some {
            assert(all.last() == own->0);
            assert(all =~= before.push(own->0));
        }
        if before.contains(name) {
            let k = choose|k: int| 0 <= k < before.len() && before[k] == name;
            assert(all[k] == name);
            let i = choose|i: int|
                0 <= i < front.len() && (#[trigger] front[i]).dir && front[i].path@ == dir + "/"@
                    + name;
            assert(entries[i] == front[i]);
        }
        if all.contains(name) && !before.contains(name) {
            let k = choose|k: int| 0 <= k < all.len() && all[k] == name;
            if k < before.len() {
                assert(before[k] == name);
            }
            assert(entries[entries.len() - 1] == e);
        }
        if name.len() > 0 && text::lacks(name, '/') && exists|i: int|
            0 <= i < entries.len() && (#[trigger] entries[i]).dir && entries[i].path@ == dir + "/"@
                + name {
            let i = choose|i: int|
                0 <= i < entries.len() && (#[trigger] entries[i]).dir && entries[i].path@ == dir
                    + "/"@ + name;
            if i < front.len() {
                assert(front[i] == entries[i]);
            } else {
                assert(all.last() == name);
                assert(all[all.len() - 1] == name);
            }
        }
    }
}

} // verus!
