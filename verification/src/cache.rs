//! Which source files a cached result stands for, and whether it still stands.
use vstd::prelude::*;

use crate::detect::Language;
use crate::diff;
use crate::files;
use crate::files::Files;
use crate::order;
use crate::order::{stable_order, Key};
use crate::text;
use std::collections::hash_map::DefaultHasher;
use std::hash::Hasher;
use vstd::std_specs::hash::DefaultHasherAdditionalSpecFns;

verus! {

// ── safe names ──────────────────────────────────────────────────────────────

/// What `char::is_alphanumeric` says of a character.
pub uninterp spec fn alphanumeric(c: char) -> bool;

pub open spec fn ascii_alphanumeric(c: char) -> bool {
    '0' <= c <= '9' || 'a' <= c <= 'z' || 'A' <= c <= 'Z'
}

/// `char::is_alphanumeric`: the letters and digits of Unicode; among the ASCII characters
/// those of the Latin alphabet and the decimal digits.
pub assume_specification[ char::is_alphanumeric ](c: char) -> (r: bool)
    ensures
        r == alphanumeric(c),
        c <= '\u{7f}' ==> r == ascii_alphanumeric(c),
;

pub open spec fn safe_char(c: char) -> char {
    if alphanumeric(c) || c == '-' {
        c
    } else {
        '_'
    }
}

/// The name with an underscore for every character that is no letter, digit or hyphen.
pub open spec fn sanitized(s: Seq<char>) -> Seq<char> {
    s.map_values(|c: char| safe_char(c))
}

/// A file name made of a name: no separators, no dots, one character for each.
pub fn sanitize(name: &str) -> (r: String)
    ensures
        r@ == sanitized(name@),
        r@.len() == name@.len(),
        forall|i: int|
            0 <= i < r@.len() && #[trigger] r@[i] <= '\u{7f}' ==> ascii_alphanumeric(r@[i])
                || r@[i] == '-' || r@[i] == '_',
{
    let v = text::chars(name);
    let mut r = String::new();
    let mut i: usize = 0;
    while i < v.len()
        invariant
            i <= v@.len(),
            v@ == name@,
            r@.len() == i,
            forall|k: int| 0 <= k < i ==> #[trigger] r@[k] == safe_char(name@[k]),
            forall|k: int|
                0 <= k < i && #[trigger] r@[k] <= '\u{7f}' ==> ascii_alphanumeric(r@[k]) || r@[k]
                    == '-' || r@[k] == '_',
        decreases v@.len() - i,
    {
        let c = v[i];
        if c.is_alphanumeric() || c == '-' {
            r.push(c);
        } else {
            r.push('_');
        }
        i += 1;
    }
    assert(r@ =~= sanitized(name@));
    r
}

/// Making a safe name safe changes nothing.
pub proof fn law_sanitizing_twice_is_once(s: Seq<char>)
    ensures
        sanitized(sanitized(s)) == sanitized(s),
{
    assert forall|i: int| 0 <= i < s.len() implies sanitized(sanitized(s))[i] == sanitized(s)[i] by {
        assert(sanitized(s)[i] == safe_char(s[i]));
    }
    assert(sanitized(sanitized(s)) =~= sanitized(s));
}

/// The file of a runner's last hash, from the project root.
pub open spec fn hash_file(language: Language, runner_name: Seq<char>) -> Seq<char> {
    ".barzel/cache/"@ + language.text() + "/"@ + sanitized(runner_name) + ".hash"@
}

/// The file of a runner's last hash, from the project root.
pub fn cache_path(language: Language, runner_name: &str) -> (r: String)
    ensures
        r@ == hash_file(language, runner_name@),
{
    let name = sanitize(runner_name);
    text::cat5(".barzel/cache/", language.as_str(), "/", name.as_str(), ".hash")
}

/// Two runners share a cache file only where they are of one language and their sanitized
/// names are the same.
pub proof fn law_cache_paths_differ(a: Language, b: Language, x: Seq<char>, y: Seq<char>)
    ensures
        hash_file(a, x) == hash_file(b, y) <==> a == b && sanitized(x) == sanitized(y),
{
    let (front, end) = (".barzel/cache/"@, ".hash"@);
    let (p, q) = (hash_file(a, x), hash_file(b, y));
    let (s, t) = (a.text(), b.text());
    let n = front.len() as int;
    reveal_strlit("/");
    lemma_language_names(a, b);
    if p == q {
        assert(p[n + s.len()] == '/');
        assert(q[n + t.len()] == '/');
        assert forall|i: int| 0 <= i < s.len() implies p[n + i] == s[i] by {}
        assert forall|i: int| 0 <= i < t.len() implies q[n + i] == t[i] by {}
        if s.len() < t.len() {
            assert(q[n + s.len()] == t[s.len() as int]);
            assert(false);
        }
        if t.len() < s.len() {
            assert(p[n + t.len()] == s[t.len() as int]);
            assert(false);
        }
        assert forall|i: int| 0 <= i < s.len() implies s[i] == t[i] by {
            assert(p[n + i] == q[n + i]);
        }
        assert(s =~= t);
        let m = n + s.len() + 1;
        assert(p.subrange(m, p.len() - end.len()) =~= sanitized(x));
        assert(q.subrange(m, q.len() - end.len()) =~= sanitized(y));
    }
}

/// No name of a language holds a separator, and no two languages have the same.
proof fn lemma_language_names(a: Language, b: Language)
    ensures
        forall|i: int| 0 <= i < a.text().len() ==> #[trigger] a.text()[i] != '/',
        forall|i: int| 0 <= i < b.text().len() ==> #[trigger] b.text()[i] != '/',
        a.text() == b.text() ==> a == b,
{
    reveal_strlit("rust");
    reveal_strlit("typescript");
    reveal_strlit("python");
    reveal_strlit("go");
    reveal_strlit("unknown");
    if a.text() == b.text() {
        assert(a.text().len() == b.text().len());
    }
}

// ── stored hashes ───────────────────────────────────────────────────────────

/// The hash in the content of a cache file, if it holds one.
pub open spec fn hash_in(content: Seq<char>) -> Option<u64> {
    text::number_in(text::trimmed(content))
}

/// The hash that a cache file holds, if it was read and holds one.
pub fn load_runner_hash(content: Option<&str>) -> (r: Option<u64>)
    ensures
        r == (match content {
            Some(c) => hash_in(c@),
            None => None,
        }),
{
    match content {
        Some(c) => {
            let t = text::trim(c);
            text::parse_u64(t.as_str())
        },
        None => None,
    }
}

/// What a cache file holds for a hash.
pub fn save_runner_hash(hash: u64) -> (r: String)
    ensures
        r@ == text::decimal(hash as nat),
{
    text::number(hash)
}

/// The stored hash is that of the current source.
pub open spec fn counts_as_cached(stored: Option<u64>, current: u64) -> bool {
    stored == Some(current)
}

/// Whether the stored hash is that of the current source.
pub fn is_cached(stored: Option<u64>, current: u64) -> (r: bool)
    ensures
        r == counts_as_cached(stored, current),
{
    match stored {
        Some(h) => h == current,
        None => false,
    }
}

/// A hash that was stored reads back, so the source it was taken of counts as cached.
pub proof fn law_stored_hash_reads_back(hash: u64)
    ensures
        hash_in(text::decimal(hash as nat)) == Some(hash),
{
    let s = text::decimal(hash as nat);
    text::lemma_decimal_reads_back(hash as nat);
    text::lemma_number_round_trip(hash);
    assert(text::is_digit(s[0]));
    assert(text::is_digit(s[s.len() - 1]));
    assert(text::trim_front(s) == s);
    assert(text::trim_back(s) == s);
}

// ── the source files ────────────────────────────────────────────────────────

/// Which files are meant.
pub enum Pick {
    /// All files in a directory, at any depth.
    Below(String),
    /// The requirement lists of Python, at the root.
    Requirements,
    /// The Go files, without hidden and vendored ones.
    GoSource,
    /// The files down to the second directory, without hidden ones and build output.
    Shallow,
}

pub enum PickV {
    Below(Seq<char>),
    Requirements,
    GoSource,
    Shallow,
}

impl View for Pick {
    type V = PickV;

    open spec fn view(&self) -> PickV {
        match *self {
            Pick::Below(d) => PickV::Below(d@),
            Pick::Requirements => PickV::Requirements,
            Pick::GoSource => PickV::GoSource,
            Pick::Shallow => PickV::Shallow,
        }
    }
}

pub open spec fn is_hidden(name: Seq<char>) -> bool {
    name.len() > 0 && name[0] == '.'
}

pub open spec fn is_build_output(name: Seq<char>) -> bool {
    name == "target"@ || name == "node_modules"@ || name == "dist"@ || name == "build"@ || name
        == "__pycache__"@
}

pub open spec fn picks(which: PickV, path: Seq<char>) -> bool {
    let parts = diff::parts_of(path);
    match which {
        PickV::Below(dir) => text::begins(path, dir + "/"@),
        PickV::Requirements => !path.contains('/') && text::begins(path, "requirements"@)
            && text::ends(path, ".txt"@),
        PickV::GoSource => parts.len() > 0 && files::extension_of(parts.last()) == Some("go"@)
            && forall|i: int|
            0 <= i < parts.len() ==> !is_hidden(#[trigger] parts[i]) && parts[i] != "vendor"@,
        PickV::Shallow => 0 < parts.len() <= 3 && forall|i: int|
            0 <= i < parts.len() ==> !is_hidden(#[trigger] parts[i]) && !is_build_output(parts[i]),
    }
}

/// The paths of the files that are meant, as they were found.
pub open spec fn picked(entries: Seq<files::Entry>, which: PickV) -> Seq<Seq<char>>
    decreases entries.len(),
{
    if entries.len() == 0 {
        Seq::empty()
    } else if !entries.last().dir && picks(which, entries.last().path@) {
        picked(entries.drop_last(), which).push(entries.last().path@)
    } else {
        picked(entries.drop_last(), which)
    }
}

pub open spec fn path_key(path: Seq<char>) -> order::KeyV {
    order::KeyV { major: 0, minor: 0, texts: diff::parts_of(path) }
}

pub open spec fn is_path_sort(r: Seq<Seq<char>>, s: Seq<Seq<char>>) -> bool {
    order::is_stable_sort(r, s, |p: Seq<char>| path_key(p))
}

/// The paths in order, part by part: a walk that sorts each directory.
pub open spec fn sorted_paths(s: Seq<Seq<char>>) -> Seq<Seq<char>> {
    choose|r: Seq<Seq<char>>| is_path_sort(r, s)
}

/// The files among `names` that are there.
pub open spec fn present(files: Files, names: Seq<Seq<char>>) -> Seq<Seq<char>>
    decreases names.len(),
{
    if names.len() == 0 {
        Seq::empty()
    } else if files.has(names.last()) && !files.has_dir(names.last()) {
        present(files, names.drop_last()).push(names.last())
    } else {
        present(files, names.drop_last())
    }
}

pub open spec fn chosen(files: Files, which: PickV) -> Seq<Seq<char>> {
    sorted_paths(picked(files.entries@, which))
}

/// The files whose contents and paths a hash of the project is taken of, in order.
pub open spec fn hashed_files(files: Files, language: Language) -> Seq<Seq<char>> {
    match language {
        Language::Rust => present(files, seq!["Cargo.toml"@, "Cargo.lock"@]) + chosen(
            files,
            PickV::Below("src"@),
        ),
        Language::TypeScript => present(
            files,
            seq!["package.json"@, "package-lock.json"@, "pnpm-lock.yaml"@, "yarn.lock"@],
        ) + chosen(files, PickV::Below("src"@)) + chosen(files, PickV::Below("app"@)) + chosen(
            files,
            PickV::Below("pages"@),
        ) + chosen(files, PickV::Below("components"@)),
        Language::Python => present(files, seq!["pyproject.toml"@]) + chosen(
            files,
            PickV::Requirements,
        ) + chosen(files, PickV::Below("src"@)) + chosen(files, PickV::Below("tests"@)),
        Language::Go => present(files, seq!["go.mod"@, "go.sum"@]) + chosen(files, PickV::GoSource),
        Language::Unknown => chosen(files, PickV::Shallow),
    }
}

fn hidden(name: &str) -> (r: bool)
    ensures
        r == is_hidden(name@),
{
    !name.is_empty() && name.get_char(0) == '.'
}

fn build_output(name: &str) -> (r: bool)
    ensures
        r == is_build_output(name@),
{
    text::same(name, "target") || text::same(name, "node_modules") || text::same(name, "dist")
        || text::same(name, "build") || text::same(name, "__pycache__")
}

fn go_source(path: &str) -> (r: bool)
    ensures
        r == picks(PickV::GoSource, path@),
{
    let parts = diff::parts(path);
    let ghost v = text::views(parts@);
    if parts.len() == 0 {
        assert(v.len() == 0);
        return false;
    }
    assert(v.last() == parts@[parts@.len() - 1]@);
    let named_go = match files::extension(parts[parts.len() - 1].as_str()) {
        Some(e) => text::same(e.as_str(), "go"),
        None => false,
    };
    if !named_go {
        return false;
    }
    let mut i: usize = 0;
    while i < parts.len()
        invariant
            i <= parts@.len(),
            v == text::views(parts@),
            v == diff::parts_of(path@),
            forall|k: int| 0 <= k < i ==> !is_hidden(#[trigger] v[k]) && v[k] != "vendor"@,
        decreases parts@.len() - i,
    {
        assert(v[i as int] == parts@[i as int]@);
        if hidden(parts[i].as_str()) || text::same(parts[i].as_str(), "vendor") {
            return false;
        }
        i += 1;
    }
    true
}

fn shallow(path: &str) -> (r: bool)
    ensures
        r == picks(PickV::Shallow, path@),
{
    let parts = diff::parts(path);
    let ghost v = text::views(parts@);
    if parts.len() == 0 || parts.len() > 3 {
        assert(v.len() == parts@.len());
        return false;
    }
    let mut i: usize = 0;
    while i < parts.len()
        invariant
            i <= parts@.len(),
            v == text::views(parts@),
            v == diff::parts_of(path@),
            forall|k: int| 0 <= k < i ==> !is_hidden(#[trigger] v[k]) && !is_build_output(v[k]),
        decreases parts@.len() - i,
    {
        assert(v[i as int] == parts@[i as int]@);
        if hidden(parts[i].as_str()) || build_output(parts[i].as_str()) {
            return false;
        }
        i += 1;
    }
    true
}

fn meant(which: &Pick, path: &str) -> (r: bool)
    ensures
        r == picks(which@, path@),
{
    match which {
        Pick::Below(dir) => {
            let front = text::cat(dir.as_str(), "/");
            text::starts_with(path, front.as_str())
        },
        Pick::Requirements => !text::contains_char(path, '/') && text::starts_with(
            path,
            "requirements",
        ) && text::ends_with(path, ".txt"),
        Pick::GoSource => go_source(path),
        Pick::Shallow => shallow(path),
    }
}

/// Sorts paths part by part.
pub fn sort_paths(v: &Vec<String>) -> (r: Vec<String>)
    ensures
        text::views(r@) == sorted_paths(text::views(v@)),
        is_path_sort(text::views(r@), text::views(v@)),
{
    let ghost key = |p: Seq<char>| path_key(p);
    let ghost source = text::views(v@);
    let mut keys: Vec<Key> = Vec::new();
    let mut i: usize = 0;
    while i < v.len()
        invariant
            i <= v@.len(),
            keys@.len() == i,
            forall|k: int| 0 <= k < i ==> (#[trigger] keys@[k])@ == path_key(v@[k]@),
        decreases v@.len() - i,
    {
        let texts = diff::parts(v[i].as_str());
        keys.push(Key { major: 0, minor: 0, texts });
        i += 1;
    }
    let order = stable_order(&keys);
    let ghost o = order::positions(order@);
    assert(order::keys_of(keys@) =~= source.map_values(key));
    let mut r: Vec<String> = Vec::new();
    let mut j: usize = 0;
    while j < order.len()
        invariant
            j <= order@.len(),
            o == order::positions(order@),
            source == text::views(v@),
            order::is_stable_order(o, source.map_values(key)),
            r@.len() == j,
            forall|k: int| 0 <= k < j ==> #[trigger] r@[k] == v@[o[k]],
        decreases order@.len() - j,
    {
        assert(0 <= o[j as int] < source.map_values(key).len());
        r.push(v[order[j]].clone());
        j += 1;
    }
    proof {
        let out = text::views(r@);
        assert forall|k: int| 0 <= k < out.len() implies out[k] == source[o[k]] by {
            assert(0 <= o[k] < source.map_values(key).len());
        }
        assert(out =~= Seq::new(o.len(), |k: int| source[o[k]]));
        assert(order::is_stable_sort(out, source, key));
        assert(is_path_sort(out, source));
        let s = sorted_paths(source);
        assert(is_path_sort(s, source));
        order::law_stable_sort_is_unique(out, s, source, key);
    }
    r
}

fn choose_files(files: &Files, which: Pick) -> (r: Vec<String>)
    ensures
        text::views(r@) == chosen(*files, which@),
{
    let mut found: Vec<String> = Vec::new();
    let mut i: usize = 0;
    assert(files.entries@.subrange(0, 0) =~= Seq::<files::Entry>::empty());
    assert(text::views(found@) =~= Seq::<Seq<char>>::empty());
    while i < files.entries.len()
        invariant
            i <= files.entries@.len(),
            text::views(found@) == picked(files.entries@.subrange(0, i as int), which@),
        decreases files.entries@.len() - i,
    {
        let e = &files.entries[i];
        let ghost before = text::views(found@);
        proof {
            let next = files.entries@.subrange(0, i + 1);
            assert(next.drop_last() =~= files.entries@.subrange(0, i as int));
            assert(next.last() == *e);
        }
        if !e.dir && meant(&which, e.path.as_str()) {
            found.push(e.path.clone());
            assert(text::views(found@) =~= before.push(e.path@));
        }
        i += 1;
    }
    assert(files.entries@.subrange(0, i as int) =~= files.entries@);
    sort_paths(&found)
}

fn present_files(files: &Files, names: &Vec<String>) -> (r: Vec<String>)
    ensures
        text::views(r@) == present(*files, text::views(names@)),
{
    let ghost all = text::views(names@);
    let mut r: Vec<String> = Vec::new();
    let mut i: usize = 0;
    assert(all.subrange(0, 0) =~= Seq::<Seq<char>>::empty());
    assert(text::views(r@) =~= Seq::<Seq<char>>::empty());
    while i < names.len()
        invariant
            i <= names@.len(),
            all == text::views(names@),
            text::views(r@) == present(*files, all.subrange(0, i as int)),
        decreases names@.len() - i,
    {
        let ghost before = text::views(r@);
        proof {
            let next = all.subrange(0, i + 1);
            assert(next.drop_last() =~= all.subrange(0, i as int));
            assert(next.last() == names@[i as int]@);
        }
        if files.is_there(names[i].as_str()) && !files.is_dir(names[i].as_str()) {
            r.push(names[i].clone());
            assert(text::views(r@) =~= before.push(names@[i as int]@));
        }
        i += 1;
    }
    assert(all.subrange(0, i as int) =~= all);
    r
}

fn add_all(r: &mut Vec<String>, more: Vec<String>)
    ensures
        text::views(final(r)@) == text::views(old(r)@) + text::views(more@),
{
    let ghost added = text::views(more@);
    let mut rest = more;
    r.append(&mut rest);
    assert(text::views(r@) =~= text::views(old(r)@) + added);
}

/// The files whose contents and paths a hash of the project is taken of, in order.
pub fn source_files(files: &Files, language: Language) -> (r: Vec<String>)
    ensures
        text::views(r@) == hashed_files(*files, language),
{
    match language {
        Language::Rust => {
            let names: Vec<String> = vec!["Cargo.toml".to_string(), "Cargo.lock".to_string()];
            assert(text::views(names@) =~= seq!["Cargo.toml"@, "Cargo.lock"@]);
            let mut r = present_files(files, &names);
            add_all(&mut r, choose_files(files, Pick::Below("src".to_string())));
            r
        },
        Language::TypeScript => {
            let names: Vec<String> = vec![
                "package.json".to_string(),
                "package-lock.json".to_string(),
                "pnpm-lock.yaml".to_string(),
                "yarn.lock".to_string(),
            ];
            assert(text::views(names@) =~= seq![
                "package.json"@,
                "package-lock.json"@,
                "pnpm-lock.yaml"@,
                "yarn.lock"@,
            ]);
            let mut r = present_files(files, &names);
            add_all(&mut r, choose_files(files, Pick::Below("src".to_string())));
            add_all(&mut r, choose_files(files, Pick::Below("app".to_string())));
            add_all(&mut r, choose_files(files, Pick::Below("pages".to_string())));
            add_all(&mut r, choose_files(files, Pick::Below("components".to_string())));
            r
        },
        Language::Python => {
            let names: Vec<String> = vec!["pyproject.toml".to_string()];
            assert(text::views(names@) =~= seq!["pyproject.toml"@]);
            let mut r = present_files(files, &names);
            add_all(&mut r, choose_files(files, Pick::Requirements));
            add_all(&mut r, choose_files(files, Pick::Below("src".to_string())));
            add_all(&mut r, choose_files(files, Pick::Below("tests".to_string())));
            r
        },
        Language::Go => {
            let names: Vec<String> = vec!["go.mod".to_string(), "go.sum".to_string()];
            assert(text::views(names@) =~= seq!["go.mod"@, "go.sum"@]);
            let mut r = present_files(files, &names);
            add_all(&mut r, choose_files(files, Pick::GoSource));
            r
        },
        Language::Unknown => choose_files(files, Pick::Shallow),
    }
}

// ── the hash ────────────────────────────────────────────────────────────────

/// Files with their contents.
pub open spec fn sources_view(v: Seq<(String, Vec<u8>)>) -> Seq<(Seq<char>, Seq<u8>)> {
    v.map_values(|f: (String, Vec<u8>)| (f.0@, f.1@))
}

/// What is written for a file: the length of its content, the content, the path and a byte
/// that stands in no text.
pub open spec fn written_for(path: Seq<char>, content: Seq<u8>) -> Seq<Seq<u8>> {
    seq![
        vstd::bytes::spec_u64_to_le_bytes(content.len() as u64),
        content,
        vstd::utf8::encode_utf8(path),
        seq![0xffu8],
    ]
}

/// What is written into the hasher for files, one after the other.
pub open spec fn written(files: Seq<(Seq<char>, Seq<u8>)>) -> Seq<Seq<u8>>
    decreases files.len(),
{
    if files.len() == 0 {
        Seq::empty()
    } else {
        written(files.drop_last()) + written_for(files.last().0, files.last().1)
    }
}

/// The hash of files: of the content and the path of each, in order.
pub fn hash_sources(files: &Vec<(String, Vec<u8>)>) -> (r: u64)
    ensures
        r == DefaultHasher::spec_finish(written(sources_view(files@))),
{
    let ghost all = sources_view(files@);
    let mut hasher = DefaultHasher::new();
    let mut i: usize = 0;
    assert(all.subrange(0, 0) =~= Seq::<(Seq<char>, Seq<u8>)>::empty());
    while i < files.len()
        invariant
            i <= files@.len(),
            all == sources_view(files@),
            hasher@ == written(all.subrange(0, i as int)),
        decreases files@.len() - i,
    {
        let ghost before = hasher@;
        let path = &files[i].0;
        let content = &files[i].1;
        let length = vstd::bytes::u64_to_le_bytes(content.len() as u64);
        let end: Vec<u8> = vec![0xffu8];
        hasher.write(length.as_slice());
        hasher.write(content.as_slice());
        hasher.write(path.as_str().as_bytes());
        hasher.write(end.as_slice());
        proof {
            let next = all.subrange(0, i + 1);
            assert(next.drop_last() =~= all.subrange(0, i as int));
            assert(next.last() == (path@, content@));
            assert(end@ =~= seq![0xffu8]);
            assert(hasher@ =~= before + written_for(path@, content@));
        }
        i += 1;
    }
    assert(all.subrange(0, i as int) =~= all);
    hasher.finish()
}

/// The content that was read at a path, from position `i` on, if one was.
pub open spec fn content_from(contents: Seq<(Seq<char>, Seq<u8>)>, path: Seq<char>, i: int) -> Option<
    Seq<u8>,
>
    decreases contents.len() - i,
{
    if i < 0 || i >= contents.len() {
        None
    } else if contents[i].0 == path {
        Some(contents[i].1)
    } else {
        content_from(contents, path, i + 1)
    }
}

/// The files that could be read, by their paths below `root`, with their contents.
pub open spec fn sources_of(
    paths: Seq<Seq<char>>,
    contents: Seq<(Seq<char>, Seq<u8>)>,
    root: Seq<char>,
) -> Seq<(Seq<char>, Seq<u8>)>
    decreases paths.len(),
{
    if paths.len() == 0 {
        Seq::empty()
    } else {
        let before = sources_of(paths.drop_last(), contents, root);
        match content_from(contents, paths.last(), 0) {
            Some(c) => before.push((files::below(root, paths.last()), c)),
            None => before,
        }
    }
}

/// The hash of the source files of a project.
pub open spec fn project_hash(
    files: Files,
    contents: Seq<(Seq<char>, Seq<u8>)>,
    language: Language,
) -> u64 {
    DefaultHasher::spec_finish(
        written(
            sources_of(hashed_files(files, language), contents, files.real_path(Seq::empty())),
        ),
    )
}

fn find_content(contents: &Vec<(String, Vec<u8>)>, path: &str) -> (r: Option<usize>)
    ensures
        match r {
            Some(i) => i < contents@.len() && content_from(sources_view(contents@), path@, 0)
                == Some(contents@[i as int].1@),
            None => content_from(sources_view(contents@), path@, 0) is None,
        },
{
    let ghost all = sources_view(contents@);
    let mut i: usize = 0;
    while i < contents.len()
        invariant
            i <= contents@.len(),
            all == sources_view(contents@),
            content_from(all, path@, i as int) == content_from(all, path@, 0),
        decreases contents@.len() - i,
    {
        assert(all[i as int] == (contents@[i as int].0@, contents@[i as int].1@));
        if text::same(contents[i].0.as_str(), path) {
            return Some(i);
        }
        i += 1;
    }
    None
}

fn copy_bytes(v: &Vec<u8>) -> (r: Vec<u8>)
    ensures
        r@ == v@,
{
    let mut r: Vec<u8> = Vec::new();
    let mut i: usize = 0;
    while i < v.len()
        invariant
            i <= v@.len(),
            r@ == v@.subrange(0, i as int),
        decreases v@.len() - i,
    {
        r.push(v[i]);
        i += 1;
        assert(r@ =~= v@.subrange(0, i as int));
    }
    assert(v@.subrange(0, i as int) =~= v@);
    r
}

/// The hash of the source files of a project, as far as the language has them in scope.
/// `contents` holds what was read, by path; files that could not be read are left out.
pub fn compute_project_hash(
    files: &Files,
    contents: &Vec<(String, Vec<u8>)>,
    language: Language,
) -> (r: u64)
    ensures
        r == project_hash(*files, sources_view(contents@), language),
{
    let paths = source_files(files, language);
    let root = files.absolute("");
    let ghost all = text::views(paths@);
    let ghost cv = sources_view(contents@);
    proof {
        reveal_strlit("");
        assert(""@ =~= Seq::<char>::empty());
    }
    let mut sources: Vec<(String, Vec<u8>)> = Vec::new();
    let mut i: usize = 0;
    assert(all.subrange(0, 0) =~= Seq::<Seq<char>>::empty());
    assert(sources_view(sources@) =~= Seq::<(Seq<char>, Seq<u8>)>::empty());
    while i < paths.len()
        invariant
            i <= paths@.len(),
            all == text::views(paths@),
            cv == sources_view(contents@),
            sources_view(sources@) == sources_of(all.subrange(0, i as int), cv, root@),
        decreases paths@.len() - i,
    {
        let ghost before = sources_view(sources@);
        proof {
            let next = all.subrange(0, i + 1);
            assert(next.drop_last() =~= all.subrange(0, i as int));
            assert(next.last() == paths@[i as int]@);
        }
        match find_content(contents, paths[i].as_str()) {
            Some(k) => {
                let path = files::join_below(root.as_str(), paths[i].as_str());
                let content = copy_bytes(&contents[k].1);
                sources.push((path, content));
                assert(sources_view(sources@) =~= before.push((path@, content@)));
            },
            None => {},
        }
        i += 1;
    }
    assert(all.subrange(0, i as int) =~= all);
    hash_sources(&sources)
}

// ── laws of the hash ────────────────────────────────────────────────────────

/// A path that a language has in scope: what stands there counts for the hash.
pub open spec fn in_scope(language: Language, path: Seq<char>) -> bool {
    match language {
        Language::Rust => path == "Cargo.toml"@ || path == "Cargo.lock"@ || picks(
            PickV::Below("src"@),
            path,
        ),
        Language::TypeScript => path == "package.json"@ || path == "package-lock.json"@ || path
            == "pnpm-lock.yaml"@ || path == "yarn.lock"@ || picks(PickV::Below("src"@), path)
            || picks(PickV::Below("app"@), path) || picks(PickV::Below("pages"@), path) || picks(
            PickV::Below("components"@),
            path,
        ),
        Language::Python => path == "pyproject.toml"@ || picks(PickV::Requirements, path) || picks(
            PickV::Below("src"@),
            path,
        ) || picks(PickV::Below("tests"@), path),
        Language::Go => path == "go.mod"@ || path == "go.sum"@ || picks(PickV::GoSource, path),
        Language::Unknown => picks(PickV::Shallow, path),
    }
}

/// A file stands at `path`.
pub open spec fn has_file(files: Files, path: Seq<char>) -> bool {
    files.has(path) && !files.has_dir(path)
}

/// What is in scope is listed once.
pub open spec fn listed_once(files: Files, language: Language) -> bool {
    forall|i: int, j: int|
        0 <= i < j < files.entries@.len() && in_scope(language, files.entries@[i].path@)
            && in_scope(language, files.entries@[j].path@) ==> diff::parts_of(
            (#[trigger] files.entries@[i]).path@,
        ) != diff::parts_of((#[trigger] files.entries@[j]).path@)
}

/// Two states of a project have the same files in scope, with the same contents.
pub open spec fn same_sources(
    a: Files,
    in_a: Seq<(Seq<char>, Seq<u8>)>,
    b: Files,
    in_b: Seq<(Seq<char>, Seq<u8>)>,
    language: Language,
) -> bool {
    &&& a.real_path(Seq::empty()) == b.real_path(Seq::empty())
    &&& forall|p: Seq<char>| #[trigger]
        in_scope(language, p) ==> has_file(a, p) == has_file(b, p) && content_from(in_a, p, 0)
            == content_from(in_b, p, 0)
}

proof fn lemma_entry_at(entries: Seq<files::Entry>, i: int, k: int)
    requires
        0 <= k <= i < entries.len(),
        forall|j: int| k <= j < i ==> (#[trigger] entries[j]).path@ != entries[i].path@,
    ensures
        files::entry_from(entries, entries[i].path@, k) == Some(entries[i]),
    decreases i - k,
{
    if k < i {
        assert(entries[k].path@ != entries[i].path@);
        lemma_entry_at(entries, i, k + 1);
    }
}

proof fn lemma_entry_found(entries: Seq<files::Entry>, path: Seq<char>, k: int) -> (i: int)
    requires
        0 <= k,
        files::entry_from(entries, path, k) is Some,
    ensures
        k <= i < entries.len(),
        entries[i].path@ == path,
        files::entry_from(entries, path, k) == Some(entries[i]),
    decreases entries.len() - k,
{
    if entries[k].path@ == path {
        k
    } else {
        lemma_entry_found(entries, path, k + 1)
    }
}

/// What is picked among entries: each file that is meant, once.
proof fn lemma_picked(entries: Seq<files::Entry>, which: PickV)
    requires
        forall|i: int, j: int|
            0 <= i < j < entries.len() && picks(which, entries[i].path@) && picks(
                which,
                entries[j].path@,
            ) ==> diff::parts_of((#[trigger] entries[i]).path@) != diff::parts_of(
                (#[trigger] entries[j]).path@,
            ),
    ensures
        order::distinct_keys(picked(entries, which), |p: Seq<char>| path_key(p)),
        forall|p: Seq<char>| #[trigger]
            picked(entries, which).contains(p) <==> exists|i: int|
                0 <= i < entries.len() && (#[trigger] entries[i]).path@ == p && !entries[i].dir
                    && picks(which, p),
    decreases entries.len(),
{
    let key = |p: Seq<char>| path_key(p);
    let all = picked(entries, which);
    if entries.len() > 0 {
        let front = entries.drop_last();
        let before = picked(front, which);
        let e = entries.last();
        assert forall|i: int, j: int|
            0 <= i < j < front.len() && picks(which, front[i].path@) && picks(
                which,
                front[j].path@,
            ) implies diff::parts_of((#[trigger] front[i]).path@) != diff::parts_of(
            (#[trigger] front[j]).path@,
        ) by {
            assert(entries[i] == front[i] && entries[j] == front[j]);
        }
        lemma_picked(front, which);
        assert forall|p: Seq<char>| #[trigger] all.contains(p) <==> exists|i: int|
            0 <= i < entries.len() && (#[trigger] entries[i]).path@ == p && !entries[i].dir
                && picks(which, p) by {
            if all.contains(p) {
                let k = choose|k: int| 0 <= k < all.len() && all[k] == p;
                if k < before.len() {
                    assert(before[k] == p);
                    assert(before.contains(p));
                    let i = choose|i: int|
                        0 <= i < front.len() && (#[trigger] front[i]).path@ == p && !front[i].dir
                            && picks(which, p);
                    assert(entries[i] == front[i]);
                } else {
                    assert(entries[entries.len() - 1] == e);
                }
            }
            if exists|i: int|
                0 <= i < entries.len() && (#[trigger] entries[i]).path@ == p && !entries[i].dir
                    && picks(which, p) {
                let i = choose|i: int|
                    0 <= i < entries.len() && (#[trigger] entries[i]).path@ == p && !entries[i].dir
                        && picks(which, p);
                if i < front.len() {
                    assert(front[i] == entries[i]);
                    assert(before.contains(p));
                    let k = choose|k: int| 0 <= k < before.len() && before[k] == p;
                    assert(all[k] == p);
                } else {
                    assert(all[all.len() - 1] == p);
                }
            }
        }
        assert forall|i: int, j: int| 0 <= i < j < all.len() implies key(#[trigger] all[i]) != key(
            #[trigger] all[j],
        ) by {
            assert(all[i] == before[i]);
            if j < before.len() {
                assert(all[j] == before[j]);
                assert(key(before[i]) != key(before[j]));
            } else {
                assert(before.contains(before[i]));
                let k = choose|k: int|
                    0 <= k < front.len() && (#[trigger] front[k]).path@ == before[i]
                        && !front[k].dir && picks(which, before[i]);
                assert(entries[k] == front[k]);
                assert(entries[entries.len() - 1] == e);
            }
        }
    }
}

/// A selection within the scope is the same in states with the same sources.
proof fn lemma_chosen_same(
    a: Files,
    in_a: Seq<(Seq<char>, Seq<u8>)>,
    b: Files,
    in_b: Seq<(Seq<char>, Seq<u8>)>,
    language: Language,
    which: PickV,
)
    requires
        same_sources(a, in_a, b, in_b, language),
        listed_once(a, language),
        listed_once(b, language),
        forall|p: Seq<char>| #[trigger] picks(which, p) ==> in_scope(language, p),
    ensures
        chosen(a, which) == chosen(b, which),
        forall|p: Seq<char>| chosen(a, which).contains(p) ==> in_scope(language, p),
{
    let key = |p: Seq<char>| path_key(p);
    let (s, t) = (picked(a.entries@, which), picked(b.entries@, which));
    lemma_picked(a.entries@, which);
    lemma_picked(b.entries@, which);
    assert forall|p: Seq<char>| s.contains(p) <==> t.contains(p) by {
        if s.contains(p) {
            lemma_listed(a, language, which, p);
            lemma_listed_back(b, which, p);
        }
        if t.contains(p) {
            lemma_listed(b, language, which, p);
            lemma_listed_back(a, which, p);
        }
    }
    order::law_stable_sort_exists(s, key);
    order::law_stable_sort_exists(t, key);
    let x = choose|r: Seq<Seq<char>>| order::is_stable_sort(r, s, key);
    let y = choose|r: Seq<Seq<char>>| order::is_stable_sort(r, t, key);
    assert(is_path_sort(x, s));
    assert(is_path_sort(y, t));
    assert(is_path_sort(sorted_paths(s), s));
    assert(is_path_sort(sorted_paths(t), t));
    order::law_sort_does_not_depend_on_order(sorted_paths(s), sorted_paths(t), s, t, key);
    order::law_stable_sort_keeps_items(sorted_paths(s), s, key);
}

proof fn lemma_listed(files: Files, language: Language, which: PickV, p: Seq<char>)
    requires
        listed_once(files, language),
        in_scope(language, p),
        exists|i: int|
            0 <= i < files.entries@.len() && (#[trigger] files.entries@[i]).path@ == p
                && !files.entries@[i].dir && picks(which, p),
    ensures
        has_file(files, p),
        picks(which, p),
{
    let i = choose|i: int|
        0 <= i < files.entries@.len() && (#[trigger] files.entries@[i]).path@ == p
            && !files.entries@[i].dir && picks(which, p);
    assert forall|j: int| 0 <= j < i implies (#[trigger] files.entries@[j]).path@ != p by {
        if files.entries@[j].path@ == p {
            assert(diff::parts_of(files.entries@[j].path@) != diff::parts_of(
                files.entries@[i].path@,
            ));
        }
    }
    lemma_entry_at(files.entries@, i, 0);
}

proof fn lemma_listed_back(files: Files, which: PickV, p: Seq<char>)
    requires
        has_file(files, p),
        picks(which, p),
    ensures
        exists|i: int|
            0 <= i < files.entries@.len() && (#[trigger] files.entries@[i]).path@ == p
                && !files.entries@[i].dir && picks(which, p),
{
    let i = lemma_entry_found(files.entries@, p, 0);
    assert(files.entries@[i].path@ == p);
}

proof fn lemma_present_same(a: Files, b: Files, names: Seq<Seq<char>>)
    requires
        forall|i: int|
            0 <= i < names.len() ==> has_file(a, #[trigger] names[i]) == has_file(b, names[i]),
    ensures
        present(a, names) == present(b, names),
        forall|p: Seq<char>| present(a, names).contains(p) ==> names.contains(p),
    decreases names.len(),
{
    if names.len() > 0 {
        let front = names.drop_last();
        assert forall|i: int| 0 <= i < front.len() implies has_file(a, #[trigger] front[i])
            == has_file(b, front[i]) by {
            assert(front[i] == names[i]);
        }
        lemma_present_same(a, b, front);
        assert(has_file(a, names[names.len() - 1]) == has_file(b, names[names.len() - 1]));
        assert forall|p: Seq<char>| present(a, names).contains(p) implies names.contains(p) by {
            let all = present(a, names);
            let k = choose|k: int| 0 <= k < all.len() && all[k] == p;
            if k < present(a, front).len() {
                assert(present(a, front)[k] == p);
                assert(front.contains(p));
                let m = choose|m: int| 0 <= m < front.len() && front[m] == p;
                assert(names[m] == p);
            } else {
                assert(names[names.len() - 1] == p);
            }
        }
    }
}

proof fn lemma_hashed_same(
    a: Files,
    in_a: Seq<(Seq<char>, Seq<u8>)>,
    b: Files,
    in_b: Seq<(Seq<char>, Seq<u8>)>,
    language: Language,
)
    requires
        same_sources(a, in_a, b, in_b, language),
        listed_once(a, language),
        listed_once(b, language),
    ensures
        hashed_files(a, language) == hashed_files(b, language),
        forall|i: int|
            0 <= i < hashed_files(a, language).len() ==> in_scope(
                language,
                #[trigger] hashed_files(a, language)[i],
            ),
{
    let src = PickV::Below("src"@);
    let all = hashed_files(a, language);
    match language {
        Language::Rust => {
            let names = seq!["Cargo.toml"@, "Cargo.lock"@];
            lemma_names(a, in_a, b, in_b, language, names);
            lemma_chosen_same(a, in_a, b, in_b, language, src);
            lemma_all_in_scope(language, present(a, names), chosen(a, src));
        },
        Language::TypeScript => {
            let names = seq![
                "package.json"@,
                "package-lock.json"@,
                "pnpm-lock.yaml"@,
                "yarn.lock"@,
            ];
            let app = PickV::Below("app"@);
            let pages = PickV::Below("pages"@);
            let components = PickV::Below("components"@);
            lemma_names(a, in_a, b, in_b, language, names);
            lemma_chosen_same(a, in_a, b, in_b, language, src);
            lemma_chosen_same(a, in_a, b, in_b, language, app);
            lemma_chosen_same(a, in_a, b, in_b, language, pages);
            lemma_chosen_same(a, in_a, b, in_b, language, components);
            let one = present(a, names) + chosen(a, src);
            let two = one + chosen(a, app);
            let three = two + chosen(a, pages);
            lemma_all_in_scope(language, present(a, names), chosen(a, src));
            lemma_all_in_scope(language, one, chosen(a, app));
            lemma_all_in_scope(language, two, chosen(a, pages));
            lemma_all_in_scope(language, three, chosen(a, components));
        },
        Language::Python => {
            let names = seq!["pyproject.toml"@];
            let tests = PickV::Below("tests"@);
            lemma_names(a, in_a, b, in_b, language, names);
            lemma_chosen_same(a, in_a, b, in_b, language, PickV::Requirements);
            lemma_chosen_same(a, in_a, b, in_b, language, src);
            lemma_chosen_same(a, in_a, b, in_b, language, tests);
            let one = present(a, names) + chosen(a, PickV::Requirements);
            let two = one + chosen(a, src);
            lemma_all_in_scope(language, present(a, names), chosen(a, PickV::Requirements));
            lemma_all_in_scope(language, one, chosen(a, src));
            lemma_all_in_scope(language, two, chosen(a, tests));
        },
        Language::Go => {
            let names = seq!["go.mod"@, "go.sum"@];
            lemma_names(a, in_a, b, in_b, language, names);
            lemma_chosen_same(a, in_a, b, in_b, language, PickV::GoSource);
            lemma_all_in_scope(language, present(a, names), chosen(a, PickV::GoSource));
        },
        Language::Unknown => {
            lemma_chosen_same(a, in_a, b, in_b, language, PickV::Shallow);
            lemma_all_in_scope(language, Seq::empty(), chosen(a, PickV::Shallow));
            assert(Seq::<Seq<char>>::empty() + chosen(a, PickV::Shallow) =~= all);
        },
    }
}

proof fn lemma_names(
    a: Files,
    in_a: Seq<(Seq<char>, Seq<u8>)>,
    b: Files,
    in_b: Seq<(Seq<char>, Seq<u8>)>,
    language: Language,
    names: Seq<Seq<char>>,
)
    requires
        same_sources(a, in_a, b, in_b, language),
        forall|i: int| 0 <= i < names.len() ==> in_scope(language, #[trigger] names[i]),
    ensures
        present(a, names) == present(b, names),
        forall|p: Seq<char>| present(a, names).contains(p) ==> in_scope(language, p),
{
    assert forall|i: int| 0 <= i < names.len() implies has_file(a, #[trigger] names[i]) == has_file(
        b,
        names[i],
    ) by {
        assert(in_scope(language, names[i]));
    }
    lemma_present_same(a, b, names);
    assert forall|p: Seq<char>| present(a, names).contains(p) implies in_scope(language, p) by {
        assert(names.contains(p));
        let i = choose|i: int| 0 <= i < names.len() && names[i] == p;
        assert(in_scope(language, names[i]));
    }
}

proof fn lemma_all_in_scope(language: Language, front: Seq<Seq<char>>, back: Seq<Seq<char>>)
    requires
        forall|p: Seq<char>| front.contains(p) ==> in_scope(language, p),
        forall|p: Seq<char>| back.contains(p) ==> in_scope(language, p),
    ensures
        forall|p: Seq<char>| (front + back).contains(p) ==> in_scope(language, p),
        forall|i: int|
            0 <= i < (front + back).len() ==> in_scope(language, #[trigger] (front + back)[i]),
{
    let all = front + back;
    assert forall|i: int| 0 <= i < all.len() implies in_scope(language, #[trigger] all[i]) by {
        if i < front.len() {
            assert(front[i] == all[i]);
            assert(front.contains(all[i]));
        } else {
            assert(back[i - front.len()] == all[i]);
            assert(back.contains(all[i]));
        }
    }
    assert forall|p: Seq<char>| all.contains(p) implies in_scope(language, p) by {
        let i = choose|i: int| 0 <= i < all.len() && all[i] == p;
        assert(in_scope(language, all[i]));
    }
}

proof fn lemma_sources_same(
    paths: Seq<Seq<char>>,
    in_a: Seq<(Seq<char>, Seq<u8>)>,
    in_b: Seq<(Seq<char>, Seq<u8>)>,
    root: Seq<char>,
)
    requires
        forall|i: int|
            0 <= i < paths.len() ==> content_from(in_a, #[trigger] paths[i], 0) == content_from(
                in_b,
                paths[i],
                0,
            ),
    ensures
        sources_of(paths, in_a, root) == sources_of(paths, in_b, root),
    decreases paths.len(),
{
    if paths.len() > 0 {
        let front = paths.drop_last();
        assert forall|i: int| 0 <= i < front.len() implies content_from(
            in_a,
            #[trigger] front[i],
            0,
        ) == content_from(in_b, front[i], 0) by {
            assert(front[i] == paths[i]);
        }
        lemma_sources_same(front, in_a, in_b, root);
        let last = paths[paths.len() - 1];
        assert(content_from(in_a, last, 0) == content_from(in_b, last, 0));
    }
}

/// The hash of a project depends only on the paths and contents of the files that the
/// language has in scope, not on other files nor on the order in which files were found.
pub proof fn law_hash_depends_on_the_scope(
    a: Files,
    in_a: Seq<(Seq<char>, Seq<u8>)>,
    b: Files,
    in_b: Seq<(Seq<char>, Seq<u8>)>,
    language: Language,
)
    requires
        same_sources(a, in_a, b, in_b, language),
        listed_once(a, language),
        listed_once(b, language),
    ensures
        project_hash(a, in_a, language) == project_hash(b, in_b, language),
{
    lemma_hashed_same(a, in_a, b, in_b, language);
    let paths = hashed_files(a, language);
    assert forall|i: int| 0 <= i < paths.len() implies content_from(in_a, #[trigger] paths[i], 0)
        == content_from(in_b, paths[i], 0) by {
        assert(in_scope(language, paths[i]));
    }
    lemma_sources_same(paths, in_a, in_b, a.real_path(Seq::empty()));
}

/// The path stands in the directory that the program keeps its own files in.
pub open spec fn is_own(path: Seq<char>) -> bool {
    path == ".barzel"@ || text::begins(path, ".barzel/"@)
}

proof fn lemma_first_part(path: Seq<char>)
    requires
        path.len() > 0,
        path[0] == '.',
    ensures
        diff::parts_of(path).len() > 0,
        is_hidden(diff::parts_of(path)[0]),
{
    let all = text::pieces(path, '/');
    text::lemma_before_len(path.subrange(1, path.len() as int), '/');
    assert(all.len() > 0 && all[0].len() > 0 && all[0][0] == '.');
    lemma_counted_first(all);
}

proof fn lemma_counted_first(pieces: Seq<Seq<char>>)
    requires
        pieces.len() > 0,
        diff::counts(pieces[0], 0),
    ensures
        diff::counted(pieces).len() > 0,
        diff::counted(pieces)[0] == pieces[0],
    decreases pieces.len(),
{
    if pieces.len() == 1 {
        assert(diff::counted(pieces.drop_last()) =~= Seq::<Seq<char>>::empty());
        assert(pieces.last() == pieces[0]);
    } else {
        lemma_counted_first(pieces.drop_last());
    }
}

/// The program's own files are in no scope.
proof fn lemma_own_is_out_of_scope(language: Language, path: Seq<char>)
    requires
        is_own(path),
    ensures
        !in_scope(language, path),
{
    reveal_strlit(".barzel");
    reveal_strlit(".barzel/");
    reveal_strlit("Cargo.toml");
    reveal_strlit("Cargo.lock");
    reveal_strlit("package.json");
    reveal_strlit("package-lock.json");
    reveal_strlit("pnpm-lock.yaml");
    reveal_strlit("yarn.lock");
    reveal_strlit("pyproject.toml");
    reveal_strlit("requirements");
    reveal_strlit("go.mod");
    reveal_strlit("go.sum");
    reveal_strlit("src");
    reveal_strlit("app");
    reveal_strlit("pages");
    reveal_strlit("components");
    reveal_strlit("tests");
    assert(path.len() > 0 && path[0] == '.') by {
        if path != ".barzel"@ {
            assert(path.subrange(0, 8)[0] == '.');
        }
    }
    lemma_first_part(path);
    assert(!text::begins(path, "requirements"@)) by {
        if text::begins(path, "requirements"@) {
            assert(path.subrange(0, 12)[0] == 'r');
        }
    }
    lemma_not_below(path, "src"@);
    lemma_not_below(path, "app"@);
    lemma_not_below(path, "pages"@);
    lemma_not_below(path, "components"@);
    lemma_not_below(path, "tests"@);
}

proof fn lemma_not_below(path: Seq<char>, dir: Seq<char>)
    requires
        path.len() > 0,
        path[0] == '.',
        dir.len() > 0,
        dir[0] != '.',
    ensures
        !picks(PickV::Below(dir), path),
{
    let front = dir + "/"@;
    if text::begins(path, front) {
        assert(path.subrange(0, front.len() as int)[0] == dir[0]);
    }
}

/// Two states of a project that differ at most in what the program keeps for itself.
pub open spec fn same_project(
    a: Files,
    in_a: Seq<(Seq<char>, Seq<u8>)>,
    b: Files,
    in_b: Seq<(Seq<char>, Seq<u8>)>,
) -> bool {
    &&& a.real_path(Seq::empty()) == b.real_path(Seq::empty())
    &&& forall|p: Seq<char>|
        !is_own(p) ==> #[trigger] has_file(a, p) == has_file(b, p) && content_from(in_a, p, 0)
            == content_from(in_b, p, 0)
}

/// A source whose hash was saved counts as cached, in every language, until a file of the
/// project is touched: saving the hash does not change it. Without a stored hash nothing
/// counts as cached.
pub proof fn law_saved_source_is_cached(
    before: Files,
    in_before: Seq<(Seq<char>, Seq<u8>)>,
    after: Files,
    in_after: Seq<(Seq<char>, Seq<u8>)>,
    language: Language,
)
    requires
        same_project(before, in_before, after, in_after),
        listed_once(before, language),
        listed_once(after, language),
    ensures
        counts_as_cached(
            hash_in(text::decimal(project_hash(before, in_before, language) as nat)),
            project_hash(after, in_after, language),
        ),
        !counts_as_cached(None, project_hash(after, in_after, language)),
{
    assert forall|p: Seq<char>| #[trigger] in_scope(language, p) implies has_file(before, p)
        == has_file(after, p) && content_from(in_before, p, 0) == content_from(in_after, p, 0) by {
        if is_own(p) {
            lemma_own_is_out_of_scope(language, p);
        }
        assert(has_file(before, p) == has_file(after, p));
    }
    law_hash_depends_on_the_scope(before, in_before, after, in_after, language);
    law_stored_hash_reads_back(project_hash(before, in_before, language));
}

// ── laws of the source files ────────────────────────────────────────────────

proof fn lemma_present_contains(files: Files, names: Seq<Seq<char>>, p: Seq<char>)
    ensures
        present(files, names).contains(p) <==> names.contains(p) && has_file(files, p),
        names.no_duplicates() ==> present(files, names).no_duplicates(),
    decreases names.len(),
{
    if names.len() > 0 {
        let front = names.drop_last();
        let last = names.last();
        lemma_present_contains(files, front, p);
        lemma_present_contains(files, front, last);
        let before = present(files, front);
        let all = present(files, names);
        assert(names =~= front.push(last));
        assert(front.contains(p) ==> names.contains(p)) by {
            if front.contains(p) {
                let k = choose|k: int| 0 <= k < front.len() && front[k] == p;
                assert(names[k] == p);
            }
        }
        assert(names.contains(p) ==> front.contains(p) || p == last) by {
            if names.contains(p) {
                let k = choose|k: int| 0 <= k < names.len() && names[k] == p;
                if k < front.len() {
                    assert(front[k] == p);
                }
            }
        }
        assert(names.contains(last)) by {
            assert(names[names.len() - 1] == last);
        }
        if has_file(files, last) {
            assert(all =~= before.push(last));
            assert(all[all.len() - 1] == last);
            if before.contains(p) {
                let k = choose|k: int| 0 <= k < before.len() && before[k] == p;
                assert(all[k] == p);
            }
            if all.contains(p) {
                let k = choose|k: int| 0 <= k < all.len() && all[k] == p;
                if k < before.len() {
                    assert(before[k] == p);
                }
            }
        }
        if names.no_duplicates() {
            assert(!front.contains(last)) by {
                if front.contains(last) {
                    let k = choose|k: int| 0 <= k < front.len() && front[k] == last;
                    assert(names[k] == names[names.len() - 1]);
                }
            }
            assert(front.no_duplicates());
            if has_file(files, last) {
                assert forall|i: int, j: int| 0 <= i < j < all.len() implies all[i] != all[j] by {
                    if j == before.len() {
                        assert(before.contains(before[i]));
                    }
                }
            }
        }
    }
}

proof fn lemma_chosen_contains(files: Files, language: Language, which: PickV, p: Seq<char>)
    requires
        listed_once(files, language),
        forall|q: Seq<char>| #[trigger] picks(which, q) ==> in_scope(language, q),
    ensures
        chosen(files, which).contains(p) <==> has_file(files, p) && picks(which, p),
        chosen(files, which).no_duplicates(),
{
    let key = |q: Seq<char>| path_key(q);
    let found = picked(files.entries@, which);
    lemma_picked(files.entries@, which);
    order::law_stable_sort_exists(found, key);
    let some = choose|r: Seq<Seq<char>>| order::is_stable_sort(r, found, key);
    assert(is_path_sort(some, found));
    let r = sorted_paths(found);
    assert(is_path_sort(r, found));
    order::law_stable_sort_keeps_items(r, found, key);
    assert(found.no_duplicates()) by {
        assert forall|i: int, j: int| 0 <= i < j < found.len() implies found[i] != found[j] by {
            assert(key(found[i]) != key(found[j]));
        }
    }
    order::lemma_stable_sort_distinct(r, found, key);
    if found.contains(p) {
        assert(picks(which, p));
        lemma_listed(files, language, which, p);
    }
    if has_file(files, p) && picks(which, p) {
        lemma_listed_back(files, which, p);
    }
}

proof fn lemma_concat(a: Seq<Seq<char>>, b: Seq<Seq<char>>, p: Seq<char>)
    ensures
        (a + b).contains(p) <==> a.contains(p) || b.contains(p),
{
    if a.contains(p) {
        let i = choose|i: int| 0 <= i < a.len() && a[i] == p;
        assert((a + b)[i] == p);
    }
    if b.contains(p) {
        let i = choose|i: int| 0 <= i < b.len() && b[i] == p;
        assert((a + b)[a.len() + i] == p);
    }
    if (a + b).contains(p) {
        let i = choose|i: int| 0 <= i < (a + b).len() && (a + b)[i] == p;
        if i < a.len() {
            assert(a[i] == p);
        } else {
            assert(b[i - a.len()] == p);
        }
    }
}

proof fn lemma_concat_distinct(a: Seq<Seq<char>>, b: Seq<Seq<char>>)
    requires
        a.no_duplicates(),
        b.no_duplicates(),
        forall|p: Seq<char>| !(#[trigger] a.contains(p) && b.contains(p)),
    ensures
        (a + b).no_duplicates(),
{
    let all = a + b;
    assert forall|i: int, j: int| 0 <= i < j < all.len() implies all[i] != all[j] by {
        if i < a.len() && j >= a.len() {
            assert(a.contains(a[i]));
            assert(b.contains(b[j - a.len()]));
        }
    }
}

/// The path stands somewhere in the directory `dir` of the project.
pub open spec fn is_in(path: Seq<char>, dir: Seq<char>) -> bool {
    path.len() > dir.len() && path.subrange(0, dir.len() as int) == dir && path[dir.len() as int]
        == '/'
}

proof fn lemma_below_is_in(dir: Seq<char>)
    ensures
        forall|p: Seq<char>| #[trigger] picks(PickV::Below(dir), p) <==> is_in(p, dir),
{
    reveal_strlit("/");
    let lead = dir + "/"@;
    let n = dir.len() as int;
    assert forall|p: Seq<char>| #[trigger] picks(PickV::Below(dir), p) <==> is_in(p, dir) by {
        if text::begins(p, lead) {
            let front = p.subrange(0, lead.len() as int);
            assert(front[n] == '/');
            assert(p.subrange(0, n) =~= front.subrange(0, n));
            assert(lead.subrange(0, n) =~= dir);
        }
        if is_in(p, dir) {
            assert(p.subrange(0, n + 1) =~= p.subrange(0, n).push(p[n]));
            assert(lead =~= dir.push('/'));
        }
    }
}

proof fn lemma_not_in_both(a: Seq<char>, b: Seq<char>)
    requires
        a.len() > 0,
        b.len() > 0,
        a[0] != b[0],
    ensures
        forall|p: Seq<char>| !(#[trigger] is_in(p, a) && is_in(p, b)),
{
    assert forall|p: Seq<char>| !(#[trigger] is_in(p, a) && is_in(p, b)) by {
        if is_in(p, a) && is_in(p, b) {
            assert(p.subrange(0, a.len() as int)[0] == p.subrange(0, b.len() as int)[0]);
        }
    }
}

/// The files of a Rust project that are hashed: the manifest, the lockfile and all of
/// `src`, each once.
pub proof fn law_rust_sources_are_hashed(files: Files, p: Seq<char>)
    requires
        listed_once(files, Language::Rust),
    ensures
        hashed_files(files, Language::Rust).contains(p) <==> has_file(files, p) && (p
            == "Cargo.toml"@ || p == "Cargo.lock"@ || is_in(p, "src"@)),
        hashed_files(files, Language::Rust).no_duplicates(),
{
    let l = Language::Rust;
    let names = seq!["Cargo.toml"@, "Cargo.lock"@];
    reveal_strlit("Cargo.toml");
    reveal_strlit("Cargo.lock");
    reveal_strlit("src");
    assert("Cargo.toml"@[6] != "Cargo.lock"@[6]);
    let (a, b) = (present(files, names), chosen(files, PickV::Below("src"@)));
    lemma_below_is_in("src"@);
    assert forall|q: Seq<char>| !(#[trigger] a.contains(q) && b.contains(q)) by {
        lemma_present_contains(files, names, q);
        lemma_chosen_contains(files, l, PickV::Below("src"@), q);
        if is_in(q, "src"@) {
            assert(q.subrange(0, 3)[0] == q[0]);
        }
    }
    lemma_present_contains(files, names, p);
    lemma_chosen_contains(files, l, PickV::Below("src"@), p);
    lemma_concat(a, b, p);
    lemma_concat_distinct(a, b);
    assert(names.contains(p) <==> p == "Cargo.toml"@ || p == "Cargo.lock"@) by {
        assert(names[0] == "Cargo.toml"@ && names[1] == "Cargo.lock"@);
    }
}

/// The files of a TypeScript project that are hashed: the manifest, the lockfiles and all
/// of `src`, `app`, `pages` and `components`, each once.
pub proof fn law_typescript_sources_are_hashed(files: Files, p: Seq<char>)
    requires
        listed_once(files, Language::TypeScript),
    ensures
        hashed_files(files, Language::TypeScript).contains(p) <==> has_file(files, p) && (p
            == "package.json"@ || p == "package-lock.json"@ || p == "pnpm-lock.yaml"@ || p
            == "yarn.lock"@ || is_in(p, "src"@) || is_in(p, "app"@) || is_in(p, "pages"@) || is_in(
            p,
            "components"@,
        )),
        hashed_files(files, Language::TypeScript).no_duplicates(),
{
    let l = Language::TypeScript;
    let names = seq!["package.json"@, "package-lock.json"@, "pnpm-lock.yaml"@, "yarn.lock"@];
    reveal_strlit("package.json");
    reveal_strlit("package-lock.json");
    reveal_strlit("pnpm-lock.yaml");
    reveal_strlit("yarn.lock");
    reveal_strlit("src");
    reveal_strlit("app");
    reveal_strlit("pages");
    reveal_strlit("components");
    let (w, x) = (PickV::Below("src"@), PickV::Below("app"@));
    let (y, z) = (PickV::Below("pages"@), PickV::Below("components"@));
    let a = present(files, names);
    let (b, c, d, e) = (
        chosen(files, w),
        chosen(files, x),
        chosen(files, y),
        chosen(files, z),
    );
    lemma_below_is_in("src"@);
    lemma_below_is_in("app"@);
    lemma_below_is_in("pages"@);
    lemma_below_is_in("components"@);
    lemma_not_in_both("src"@, "app"@);
    lemma_not_in_both("src"@, "pages"@);
    lemma_not_in_both("src"@, "components"@);
    lemma_not_in_both("app"@, "pages"@);
    lemma_not_in_both("app"@, "components"@);
    lemma_not_in_both("pages"@, "components"@);
    assert(names.no_duplicates()) by {
        assert(names[0].len() == 12 && names[1].len() == 17 && names[2].len() == 14
            && names[3].len() == 9);
    }
    assert forall|q: Seq<char>| names.contains(q) implies !is_in(q, "src"@) && !is_in(q, "app"@)
        && !is_in(q, "pages"@) && !is_in(q, "components"@) by {
        assert(q == names[0] || q == names[1] || q == names[2] || q == names[3]);
        if is_in(q, "src"@) {
            assert(q.subrange(0, 3)[0] == q[0]);
        }
        if is_in(q, "app"@) {
            assert(q.subrange(0, 3)[0] == q[0]);
        }
        if is_in(q, "components"@) {
            assert(q.subrange(0, 10)[0] == q[0]);
        }
        if is_in(q, "pages"@) {
            assert(q.subrange(0, 5)[2] == q[2]);
        }
    }
    assert forall|q: Seq<char>|
        #![trigger a.contains(q)]
        (a.contains(q) <==> names.contains(q) && has_file(files, q)) by {
        lemma_present_contains(files, names, q);
    }
    assert forall|q: Seq<char>|
        #![trigger b.contains(q)]
        (b.contains(q) <==> has_file(files, q) && is_in(q, "src"@)) by {
        lemma_chosen_contains(files, l, w, q);
    }
    assert forall|q: Seq<char>|
        #![trigger c.contains(q)]
        (c.contains(q) <==> has_file(files, q) && is_in(q, "app"@)) by {
        lemma_chosen_contains(files, l, x, q);
    }
    assert forall|q: Seq<char>|
        #![trigger d.contains(q)]
        (d.contains(q) <==> has_file(files, q) && is_in(q, "pages"@)) by {
        lemma_chosen_contains(files, l, y, q);
    }
    assert forall|q: Seq<char>|
        #![trigger e.contains(q)]
        (e.contains(q) <==> has_file(files, q) && is_in(q, "components"@)) by {
        lemma_chosen_contains(files, l, z, q);
    }
    lemma_present_contains(files, names, p);
    lemma_chosen_contains(files, l, w, p);
    lemma_chosen_contains(files, l, x, p);
    lemma_chosen_contains(files, l, y, p);
    lemma_chosen_contains(files, l, z, p);
    lemma_concat_distinct(a, b);
    assert forall|q: Seq<char>| !(#[trigger] (a + b).contains(q) && c.contains(q)) by {
        lemma_concat(a, b, q);
        assert(is_in(q, "src"@) ==> !is_in(q, "app"@));
    }
    lemma_concat_distinct(a + b, c);
    assert forall|q: Seq<char>| !(#[trigger] (a + b + c).contains(q) && d.contains(q)) by {
        lemma_concat(a, b, q);
        lemma_concat(a + b, c, q);
        assert(is_in(q, "src"@) ==> !is_in(q, "pages"@));
        assert(is_in(q, "app"@) ==> !is_in(q, "pages"@));
    }
    lemma_concat_distinct(a + b + c, d);
    assert forall|q: Seq<char>| !(#[trigger] (a + b + c + d).contains(q) && e.contains(q)) by {
        lemma_concat(a, b, q);
        lemma_concat(a + b, c, q);
        lemma_concat(a + b + c, d, q);
        assert(is_in(q, "src"@) ==> !is_in(q, "components"@));
        assert(is_in(q, "app"@) ==> !is_in(q, "components"@));
        assert(is_in(q, "pages"@) ==> !is_in(q, "components"@));
    }
    lemma_concat_distinct(a + b + c + d, e);
    lemma_concat(a, b, p);
    lemma_concat(a + b, c, p);
    lemma_concat(a + b + c, d, p);
    lemma_concat(a + b + c + d, e, p);
    assert(names.contains(p) <==> p == "package.json"@ || p == "package-lock.json"@ || p
        == "pnpm-lock.yaml"@ || p == "yarn.lock"@) by {
        assert(names[0] == "package.json"@ && names[1] == "package-lock.json"@ && names[2]
            == "pnpm-lock.yaml"@ && names[3] == "yarn.lock"@);
    }
}

/// A list of requirements at the root of a Python project.
pub open spec fn is_requirements(p: Seq<char>) -> bool {
    text::lacks(p, '/') && text::begins(p, "requirements"@) && text::ends(p, ".txt"@)
}

/// The files of a Python project that are hashed: the manifest, the lists of requirements
/// and all of `src` and `tests`, each once.
pub proof fn law_python_sources_are_hashed(files: Files, p: Seq<char>)
    requires
        listed_once(files, Language::Python),
    ensures
        hashed_files(files, Language::Python).contains(p) <==> has_file(files, p) && (p
            == "pyproject.toml"@ || is_requirements(p) || is_in(p, "src"@) || is_in(p, "tests"@)),
        hashed_files(files, Language::Python).no_duplicates(),
{
    let l = Language::Python;
    let names = seq!["pyproject.toml"@];
    reveal_strlit("pyproject.toml");
    reveal_strlit("requirements");
    reveal_strlit("src");
    reveal_strlit("tests");
    let (x, y, z) = (PickV::Requirements, PickV::Below("src"@), PickV::Below("tests"@));
    let (a, b, c, d) = (
        present(files, names),
        chosen(files, x),
        chosen(files, y),
        chosen(files, z),
    );
    lemma_below_is_in("src"@);
    lemma_below_is_in("tests"@);
    lemma_not_in_both("src"@, "tests"@);
    assert forall|q: Seq<char>| #[trigger] picks(x, q) <==> is_requirements(q) by {
        assert(q.contains('/') <==> !text::lacks(q, '/'));
    }
    assert forall|q: Seq<char>| is_requirements(q) implies !is_in(q, "src"@) && !is_in(q, "tests"@)
        && q != "pyproject.toml"@ by {
        assert(q.subrange(0, 12)[0] == q[0]);
    }
    assert forall|q: Seq<char>|
        #![trigger a.contains(q)]
        (a.contains(q) <==> q == "pyproject.toml"@ && has_file(files, q)) by {
        lemma_present_contains(files, names, q);
        assert(names[0] == "pyproject.toml"@);
    }
    assert forall|q: Seq<char>|
        #![trigger b.contains(q)]
        (b.contains(q) <==> has_file(files, q) && is_requirements(q)) by {
        lemma_chosen_contains(files, l, x, q);
    }
    assert forall|q: Seq<char>|
        #![trigger c.contains(q)]
        (c.contains(q) <==> has_file(files, q) && is_in(q, "src"@)) by {
        lemma_chosen_contains(files, l, y, q);
    }
    assert forall|q: Seq<char>|
        #![trigger d.contains(q)]
        (d.contains(q) <==> has_file(files, q) && is_in(q, "tests"@)) by {
        lemma_chosen_contains(files, l, z, q);
    }
    lemma_present_contains(files, names, p);
    lemma_chosen_contains(files, l, x, p);
    lemma_chosen_contains(files, l, y, p);
    lemma_chosen_contains(files, l, z, p);
    lemma_concat_distinct(a, b);
    assert(!is_in("pyproject.toml"@, "src"@)) by {
        assert("pyproject.toml"@.subrange(0, 3)[0] == 'p');
    }
    assert(!is_in("pyproject.toml"@, "tests"@)) by {
        assert("pyproject.toml"@.subrange(0, 5)[0] == 'p');
    }
    assert forall|q: Seq<char>| !(#[trigger] (a + b).contains(q) && c.contains(q)) by {
        lemma_concat(a, b, q);
    }
    lemma_concat_distinct(a + b, c);
    assert forall|q: Seq<char>| !(#[trigger] (a + b + c).contains(q) && d.contains(q)) by {
        lemma_concat(a, b, q);
        lemma_concat(a + b, c, q);
        assert(is_in(q, "src"@) ==> !is_in(q, "tests"@));
    }
    lemma_concat_distinct(a + b + c, d);
    lemma_concat(a, b, p);
    lemma_concat(a + b, c, p);
    lemma_concat(a + b + c, d, p);
}

/// The path through `names` to a Go file, none of them hidden or `vendor`.
pub open spec fn is_go_path(names: Seq<Seq<char>>) -> bool {
    &&& text::ends(names.last(), ".go"@)
    &&& names.last().len() > 3
    &&& forall|i: int|
        0 <= i < names.len() ==> (#[trigger] names[i])[0] != '.' && names[i] != "vendor"@
}

/// The files of a Go project that are hashed: the manifest, the checksums and the Go files
/// everywhere but in hidden and vendored directories, each once.
pub proof fn law_go_sources_are_hashed(files: Files, names: Seq<Seq<char>>)
    requires
        listed_once(files, Language::Go),
        names.len() > 0,
        forall|i: int| 0 <= i < names.len() ==> diff::is_part(#[trigger] names[i]),
    ensures
        hashed_files(files, Language::Go).contains(diff::path_of(names)) <==> has_file(
            files,
            diff::path_of(names),
        ) && (diff::path_of(names) == "go.mod"@ || diff::path_of(names) == "go.sum"@ || is_go_path(
            names,
        )),
        hashed_files(files, Language::Go).no_duplicates(),
{
    let l = Language::Go;
    let p = diff::path_of(names);
    let fixed = seq!["go.mod"@, "go.sum"@];
    reveal_strlit("go.mod");
    reveal_strlit("go.sum");
    reveal_strlit("go");
    reveal_strlit(".go");
    reveal_strlit(".");
    diff::law_parts_read_back(names);
    files::law_extension_is_behind_the_last_dot(names.last(), "go"@);
    assert(".go"@ =~= seq!['.'] + "go"@);
    assert(picks(PickV::GoSource, p) <==> is_go_path(names)) by {
        if is_go_path(names) {
            assert forall|i: int| 0 <= i < names.len() implies !is_hidden(#[trigger] names[i])
                && names[i] != "vendor"@ by {
                assert(diff::is_part(names[i]));
            }
        }
        if picks(PickV::GoSource, p) {
            assert forall|i: int| 0 <= i < names.len() implies (#[trigger] names[i])[0] != '.'
                && names[i] != "vendor"@ by {
                assert(diff::is_part(names[i]));
                assert(!is_hidden(names[i]));
            }
        }
    }
    let (a, b) = (present(files, fixed), chosen(files, PickV::GoSource));
    lemma_no_go_source("go.mod"@);
    lemma_no_go_source("go.sum"@);
    assert(fixed.contains(p) <==> p == "go.mod"@ || p == "go.sum"@) by {
        assert(fixed[0] == "go.mod"@ && fixed[1] == "go.sum"@);
    }
    assert forall|q: Seq<char>| !(#[trigger] a.contains(q) && b.contains(q)) by {
        lemma_present_contains(files, fixed, q);
        lemma_chosen_contains(files, l, PickV::GoSource, q);
        if fixed.contains(q) {
            assert(q == fixed[0] || q == fixed[1]);
        }
    }
    lemma_present_contains(files, fixed, p);
    lemma_chosen_contains(files, l, PickV::GoSource, p);
    lemma_concat(a, b, p);
    assert(fixed.no_duplicates()) by {
        assert(fixed[0][3] != fixed[1][3]);
    }
    lemma_concat_distinct(a, b);
}

proof fn lemma_no_go_source(name: Seq<char>)
    requires
        name == "go.mod"@ || name == "go.sum"@,
    ensures
        !picks(PickV::GoSource, name),
{
    reveal_strlit("go.mod");
    reveal_strlit("go.sum");
    reveal_strlit("go");
    reveal_strlit(".");
    let names = seq![name];
    assert(text::lacks(name, '/'));
    assert(diff::is_part(names[0]));
    diff::law_parts_read_back(names);
    assert(diff::path_of(names) =~= name);
    files::law_extension_is_behind_the_last_dot(name, "go"@);
    let tail = seq!['.'] + "go"@;
    if text::ends(name, tail) {
        assert(name.subrange(3, 6)[0] == '.');
    }
}

/// The files of a project in no known language that are hashed: those down to the second
/// directory, but for hidden ones and build output, each once.
pub proof fn law_other_sources_are_hashed(files: Files, names: Seq<Seq<char>>)
    requires
        listed_once(files, Language::Unknown),
        names.len() > 0,
        forall|i: int| 0 <= i < names.len() ==> diff::is_part(#[trigger] names[i]),
    ensures
        hashed_files(files, Language::Unknown).contains(diff::path_of(names)) <==> has_file(
            files,
            diff::path_of(names),
        ) && names.len() <= 3 && (forall|i: int|
            0 <= i < names.len() ==> (#[trigger] names[i])[0] != '.' && names[i] != "target"@
                && names[i] != "node_modules"@ && names[i] != "dist"@ && names[i] != "build"@
                && names[i] != "__pycache__"@),
        hashed_files(files, Language::Unknown).no_duplicates(),
{
    let p = diff::path_of(names);
    diff::law_parts_read_back(names);
    lemma_chosen_contains(files, Language::Unknown, PickV::Shallow, p);
    if picks(PickV::Shallow, p) {
        assert forall|i: int| 0 <= i < names.len() implies (#[trigger] names[i])[0] != '.'
            && names[i] != "target"@ && names[i] != "node_modules"@ && names[i] != "dist"@
            && names[i] != "build"@ && names[i] != "__pycache__"@ by {
            assert(diff::is_part(names[i]));
            assert(!is_hidden(names[i]) && !is_build_output(names[i]));
        }
    } else if names.len() <= 3 {
        assert(exists|i: int|
            0 <= i < names.len() && (is_hidden(#[trigger] names[i]) || is_build_output(names[i])));
    }
}

proof fn lemma_content_from(contents: Seq<(Seq<char>, Seq<u8>)>, path: Seq<char>, i: int, k: int)
    requires
        0 <= i <= k < contents.len(),
        contents[k].0 == path,
        forall|j: int| i <= j < k ==> (#[trigger] contents[j]).0 != path,
    ensures
        content_from(contents, path, i) == Some(contents[k].1),
    decreases k - i,
{
    if i < k {
        assert(contents[i].0 != path);
        lemma_content_from(contents, path, i + 1, k);
    }
}

proof fn lemma_written(sources: Seq<(Seq<char>, Seq<u8>)>, k: int)
    requires
        0 <= k < sources.len(),
    ensures
        written(sources).len() == 4 * sources.len(),
        written(sources)[4 * k + 1] == sources[k].1,
    decreases sources.len(),
{
    let front = sources.drop_last();
    let last = written_for(sources.last().0, sources.last().1);
    assert(last.len() == 4);
    if k < front.len() {
        lemma_written(front, k);
        assert(front[k] == sources[k]);
    } else {
        if front.len() > 0 {
            lemma_written(front, 0);
        } else {
            assert(written(front) =~= Seq::<Seq<u8>>::empty());
        }
        assert(written(sources) == written(front) + last);
        assert(written(sources)[4 * k + 1] == last[1]);
    }
}

proof fn lemma_all_read(
    paths: Seq<Seq<char>>,
    contents: Seq<(Seq<char>, Seq<u8>)>,
    root: Seq<char>,
    k: int,
)
    requires
        forall|i: int|
            0 <= i < paths.len() ==> content_from(contents, #[trigger] paths[i], 0) is Some,
    ensures
        sources_of(paths, contents, root).len() == paths.len(),
        0 <= k < paths.len() ==> sources_of(paths, contents, root)[k].1 == content_from(
            contents,
            paths[k],
            0,
        )->0,
    decreases paths.len(),
{
    if paths.len() > 0 {
        let front = paths.drop_last();
        assert forall|i: int| 0 <= i < front.len() implies content_from(
            contents,
            #[trigger] front[i],
            0,
        ) is Some by {
            assert(front[i] == paths[i]);
        }
        lemma_all_read(front, contents, root, k);
        assert(content_from(contents, paths[paths.len() - 1], 0) is Some);
        if 0 <= k < front.len() {
            assert(front[k] == paths[k]);
        }
    }
}

/// What is hashed is the content of every file: an edit of any of the hashed files changes
/// what the hash is taken of.
pub proof fn law_edits_are_hashed(
    files: Files,
    before: Seq<(Seq<char>, Seq<u8>)>,
    after: Seq<(Seq<char>, Seq<u8>)>,
    language: Language,
    p: Seq<char>,
)
    requires
        hashed_files(files, language).contains(p),
        forall|i: int|
            0 <= i < hashed_files(files, language).len() ==> content_from(
                before,
                #[trigger] hashed_files(files, language)[i],
                0,
            ) is Some,
        forall|i: int|
            0 <= i < hashed_files(files, language).len() ==> content_from(
                after,
                #[trigger] hashed_files(files, language)[i],
                0,
            ) is Some,
        content_from(before, p, 0) != content_from(after, p, 0),
    ensures
        written(
            sources_of(hashed_files(files, language), before, files.real_path(Seq::empty())),
        ) != written(
            sources_of(hashed_files(files, language), after, files.real_path(Seq::empty())),
        ),
        project_hash(files, after, language) == DefaultHasher::spec_finish(
            written(
                sources_of(hashed_files(files, language), after, files.real_path(Seq::empty())),
            ),
        ),
{
    let paths = hashed_files(files, language);
    let root = files.real_path(Seq::empty());
    let k = choose|k: int| 0 <= k < paths.len() && paths[k] == p;
    let (s, t) = (sources_of(paths, before, root), sources_of(paths, after, root));
    lemma_all_read(paths, before, root, k);
    lemma_all_read(paths, after, root, k);
    lemma_written(s, k);
    lemma_written(t, k);
    assert(written(s)[4 * k + 1] != written(t)[4 * k + 1]);
}

/// The content of a file is what was read at its path first.
pub proof fn law_contents_are_those_read(
    contents: Seq<(Seq<char>, Seq<u8>)>,
    path: Seq<char>,
    k: int,
)
    requires
        0 <= k < contents.len(),
        contents[k].0 == path,
        forall|j: int| 0 <= j < k ==> (#[trigger] contents[j]).0 != path,
    ensures
        content_from(contents, path, 0) == Some(contents[k].1),
{
    lemma_content_from(contents, path, 0, k);
}

/// A source counts as cached exactly where the hash that was stored of it is its own.
pub proof fn law_cached_means_the_same_hash(stored: u64, current: u64)
    ensures
        counts_as_cached(hash_in(text::decimal(stored as nat)), current) <==> stored == current,
        !counts_as_cached(None, current),
{
    law_stored_hash_reads_back(stored);
}

/// Of a name the letters, digits and hyphens stay, and every other character becomes an
/// underscore.
pub proof fn law_what_stays_of_a_name(s: Seq<char>, i: int)
    requires
        0 <= i < s.len(),
    ensures
        sanitized(s).len() == s.len(),
        s[i] == '-' ==> sanitized(s)[i] == '-',
        alphanumeric(s[i]) ==> sanitized(s)[i] == s[i],
        !alphanumeric(s[i]) && s[i] != '-' ==> sanitized(s)[i] == '_',
{
}

/// Where the hash of a runner stands, and what is the library's own.
pub proof fn law_where_hashes_stand(language: Language, name: Seq<char>, rest: Seq<char>)
    ensures
        hash_file(language, name) == ".barzel/cache/"@ + language.text() + "/"@ + sanitized(name)
            + ".hash"@,
        is_own(".barzel"@),
        is_own(".barzel/"@ + rest),
        rest.len() > 0 && rest[0] != '.' ==> !is_own(rest),
        !is_own(".barzel"@ + seq!['x'] + rest),
{
    reveal_strlit(".barzel");
    reveal_strlit(".barzel/");
    let own = ".barzel/"@ + rest;
    assert(own.subrange(0, 8) =~= ".barzel/"@);
    if text::begins(rest, ".barzel/"@) {
        assert(rest.subrange(0, 8)[0] == rest[0]);
    }
    let other = ".barzel"@ + seq!['x'] + rest;
    assert(other.len() > 7 && other[7] == 'x');
    if text::begins(other, ".barzel/"@) {
        assert(other.subrange(0, 8)[7] == other[7]);
    }
}

/// Lists of requirements are the files at the root whose name begins with `requirements` and
/// ends in `.txt`.
pub proof fn law_lists_of_requirements(mid: Seq<char>, p: Seq<char>)
    ensures
        text::lacks(mid, '/') ==> is_requirements("requirements"@ + mid + ".txt"@),
        p.len() > 0 && p[0] != 'r' ==> !is_requirements(p),
        p.len() > 0 && p.last() != 't' ==> !is_requirements(p),
        !text::lacks(p, '/') ==> !is_requirements(p),
{
    reveal_strlit("requirements");
    reveal_strlit(".txt");
    let s = "requirements"@ + mid + ".txt"@;
    assert(s.subrange(0, 12) =~= "requirements"@);
    assert(s.subrange(s.len() - 4, s.len() as int) =~= ".txt"@);
    if text::lacks(mid, '/') {
        assert forall|i: int| 0 <= i < s.len() implies #[trigger] s[i] != '/' by {
            if 12 <= i < s.len() - 4 {
                assert(s[i] == mid[i - 12]);
            }
        }
    }
    if text::begins(p, "requirements"@) {
        assert(p.subrange(0, 12)[0] == p[0]);
    }
    if text::ends(p, ".txt"@) {
        assert(p.subrange(p.len() - 4, p.len() as int)[3] == p.last());
    }
}

/// Sources of Go end in `.go` and stand below no hidden directory and no `vendor`.
pub proof fn law_sources_of_go(dirs: Seq<Seq<char>>, name: Seq<char>, i: int)
    requires
        forall|k: int| 0 <= k < dirs.len() ==> (#[trigger] dirs[k]).len() > 0,
        name.len() > 0,
    ensures
        name[0] != '.' && name + ".go"@ != "vendor"@ && (forall|k: int|
            0 <= k < dirs.len() ==> (#[trigger] dirs[k])[0] != '.' && dirs[k] != "vendor"@)
            ==> is_go_path(dirs.push(name + ".go"@)),
        0 <= i < dirs.len() && dirs[i] == "vendor"@ ==> !is_go_path(dirs.push(name)),
        0 <= i < dirs.len() && dirs[i][0] == '.' ==> !is_go_path(dirs.push(name)),
        name.last() != 'o' ==> !is_go_path(dirs.push(name)),
{
    reveal_strlit(".go");
    let file = name + ".go"@;
    assert(file.subrange(file.len() - 3, file.len() as int) =~= ".go"@);
    let good = dirs.push(file);
    if name[0] != '.' && file != "vendor"@ && (forall|k: int|
        0 <= k < dirs.len() ==> (#[trigger] dirs[k])[0] != '.' && dirs[k] != "vendor"@) {
        assert forall|k: int| 0 <= k < good.len() implies (#[trigger] good[k])[0] != '.' && good[k]
            != "vendor"@ by {
            if k < dirs.len() {
                assert(good[k] == dirs[k]);
            } else {
                assert(good[k] == file && file[0] == name[0]);
            }
        }
    }
    let any = dirs.push(name);
    if 0 <= i < dirs.len() {
        assert(any[i] == dirs[i]);
    }
    if text::ends(name, ".go"@) {
        assert(name.subrange(name.len() - 3, name.len() as int)[2] == name.last());
    }
}

} // verus!
