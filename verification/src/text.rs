//! Text primitives: searching, trimming, splitting, numbers.
//!
//! A text is modelled by its sequence of characters; every function states its
//! result over that model.
use vstd::prelude::*;

verus! {

/// `String::push` appends one character.
pub assume_specification[ String::push ](s: &mut String, c: char)
    ensures
        final(s)@ == old(s)@.push(c),
;

/// The upper case of a text, as Unicode has it.
pub uninterp spec fn uppercase(s: Seq<char>) -> Seq<char>;

/// The lower case of a text, as Unicode has it.
pub uninterp spec fn lowercase(s: Seq<char>) -> Seq<char>;

/// `str::to_uppercase` gives the upper case of a text. Of a text in ASCII it is the text
/// with the letters `a` to `z` turned into `A` to `Z`.
pub assume_specification[ str::to_uppercase ](s: &str) -> (r: String)
    ensures
        r@ == uppercase(s@),
        is_ascii_text(s@) ==> r@ == ascii_upper(s@),
;

/// `str::to_lowercase` gives the lower case of a text. Of a text in ASCII it is the text
/// with the letters `A` to `Z` turned into `a` to `z`.
pub assume_specification[ str::to_lowercase ](s: &str) -> (r: String)
    ensures
        r@ == lowercase(s@),
        is_ascii_text(s@) ==> r@ == ascii_lower(s@),
;

// ── models ──────────────────────────────────────────────────────────────────

/// The characters with the Unicode property `White_Space`.
pub open spec fn is_space(c: char) -> bool {
    ||| '\u{9}' <= c <= '\u{d}'
    ||| c == ' '
    ||| c == '\u{85}'
    ||| c == '\u{a0}'
    ||| c == '\u{1680}'
    ||| '\u{2000}' <= c <= '\u{200a}'
    ||| c == '\u{2028}'
    ||| c == '\u{2029}'
    ||| c == '\u{202f}'
    ||| c == '\u{205f}'
    ||| c == '\u{3000}'
}

/// All characters are ASCII.
pub open spec fn is_ascii_text(s: Seq<char>) -> bool {
    forall|i: int| 0 <= i < s.len() ==> #[trigger] s[i] <= '\u{7f}'
}

/// `s` with `a` to `z` turned into `A` to `Z`.
pub open spec fn ascii_upper(s: Seq<char>) -> Seq<char> {
    s.map_values(
        |c: char|
            if 'a' <= c <= 'z' {
                (c as int - 32) as char
            } else {
                c
            },
    )
}

/// `s` with `A` to `Z` turned into `a` to `z`.
pub open spec fn ascii_lower(s: Seq<char>) -> Seq<char> {
    s.map_values(
        |c: char|
            if 'A' <= c <= 'Z' {
                (c as int + 32) as char
            } else {
                c
            },
    )
}

/// The texts that a list of strings holds.
pub open spec fn views(v: Seq<String>) -> Seq<Seq<char>> {
    v.map_values(|s: String| s@)
}

/// The text that an optional string holds.
pub open spec fn opt_view(o: Option<String>) -> Option<Seq<char>> {
    match o {
        Some(s) => Some(s@),
        None => None,
    }
}

/// `p` stands in `s` at position `i`.
pub open spec fn occurs_at(s: Seq<char>, p: Seq<char>, i: int) -> bool {
    0 <= i && i + p.len() <= s.len() && s.subrange(i, i + p.len()) == p
}

/// The first position of `p` in `s` that is not before `i`.
pub open spec fn find_from(s: Seq<char>, p: Seq<char>, i: int) -> Option<int>
    decreases s.len() + 1 - i,
{
    if i < 0 || i + p.len() > s.len() {
        None
    } else if occurs_at(s, p, i) {
        Some(i)
    } else {
        find_from(s, p, i + 1)
    }
}

/// The first position of `p` in `s`.
pub open spec fn find_text(s: Seq<char>, p: Seq<char>) -> Option<int> {
    find_from(s, p, 0)
}

/// `p` stands somewhere in `s`.
pub open spec fn has(s: Seq<char>, p: Seq<char>) -> bool {
    exists|i: int| occurs_at(s, p, i)
}

pub open spec fn begins(s: Seq<char>, p: Seq<char>) -> bool {
    p.len() <= s.len() && s.subrange(0, p.len() as int) == p
}

pub open spec fn ends(s: Seq<char>, p: Seq<char>) -> bool {
    p.len() <= s.len() && s.subrange(s.len() - p.len(), s.len() as int) == p
}

/// `s` without the whitespace at its front.
pub open spec fn trim_front(s: Seq<char>) -> Seq<char>
    decreases s.len(),
{
    if s.len() > 0 && is_space(s[0]) {
        trim_front(s.subrange(1, s.len() as int))
    } else {
        s
    }
}

/// `s` without the whitespace at its back.
pub open spec fn trim_back(s: Seq<char>) -> Seq<char>
    decreases s.len(),
{
    if s.len() > 0 && is_space(s.last()) {
        trim_back(s.drop_last())
    } else {
        s
    }
}

pub open spec fn trimmed(s: Seq<char>) -> Seq<char> {
    trim_back(trim_front(s))
}

/// `s` without the characters `c` at its back.
pub open spec fn strip_back(s: Seq<char>, c: char) -> Seq<char>
    decreases s.len(),
{
    if s.len() > 0 && s.last() == c {
        strip_back(s.drop_last(), c)
    } else {
        s
    }
}

/// `s` without the characters `c` at its front.
pub open spec fn strip_front(s: Seq<char>, c: char) -> Seq<char>
    decreases s.len(),
{
    if s.len() > 0 && s[0] == c {
        strip_front(s.subrange(1, s.len() as int), c)
    } else {
        s
    }
}

/// The number of characters before the first `c`, or of all of them.
pub open spec fn before_len(s: Seq<char>, c: char) -> int
    decreases s.len(),
{
    if s.len() == 0 || s[0] == c {
        0
    } else {
        1 + before_len(s.subrange(1, s.len() as int), c)
    }
}

/// What stands before the first `c`; all of `s` where there is none.
pub open spec fn before(s: Seq<char>, c: char) -> Seq<char> {
    s.subrange(0, before_len(s, c))
}

/// What stands after the first `c`; nothing where there is none.
pub open spec fn after(s: Seq<char>, c: char) -> Seq<char> {
    if before_len(s, c) < s.len() {
        s.subrange(before_len(s, c) + 1, s.len() as int)
    } else {
        Seq::empty()
    }
}

/// The pieces of `s` between the characters `c`.
pub open spec fn pieces(s: Seq<char>, c: char) -> Seq<Seq<char>>
    decreases s.len(),
{
    if 0 <= before_len(s, c) < s.len() {
        seq![before(s, c)] + pieces(after(s, c), c)
    } else {
        seq![s]
    }
}

/// A line without the carriage return that a line feed left at its back.
pub open spec fn without_cr(s: Seq<char>) -> Seq<char> {
    if s.len() > 0 && s.last() == '\r' {
        s.drop_last()
    } else {
        s
    }
}

/// The lines of a text: each ends in `\n` or `\r\n`, the last one perhaps in neither.
pub open spec fn lines_of(s: Seq<char>) -> Seq<Seq<char>>
    decreases s.len(),
{
    if s.len() == 0 {
        Seq::empty()
    } else if 0 <= before_len(s, '\n') < s.len() {
        seq![without_cr(before(s, '\n'))] + lines_of(after(s, '\n'))
    } else {
        seq![s]
    }
}

/// The number of characters at the front of `s` that are not whitespace.
pub open spec fn word_len(s: Seq<char>) -> int
    decreases s.len(),
{
    if s.len() == 0 || is_space(s[0]) {
        0
    } else {
        1 + word_len(s.subrange(1, s.len() as int))
    }
}

/// The words of a text: its longest parts without whitespace, in order.
pub open spec fn words_of(s: Seq<char>) -> Seq<Seq<char>>
    decreases s.len(),
{
    if s.len() == 0 {
        Seq::empty()
    } else if is_space(s[0]) {
        words_of(s.subrange(1, s.len() as int))
    } else if 0 < word_len(s) <= s.len() {
        seq![s.subrange(0, word_len(s))] + words_of(s.subrange(word_len(s), s.len() as int))
    } else {
        Seq::empty()
    }
}

/// The texts with `sep` between each two of them.
pub open spec fn joined(parts: Seq<Seq<char>>, sep: Seq<char>) -> Seq<char>
    decreases parts.len(),
{
    if parts.len() == 0 {
        Seq::empty()
    } else if parts.len() == 1 {
        parts[0]
    } else {
        joined(parts.drop_last(), sep) + sep + parts.last()
    }
}

/// `s` with every `c` replaced by `with`.
pub open spec fn replaced(s: Seq<char>, c: char, with: Seq<char>) -> Seq<char>
    decreases s.len(),
{
    if s.len() == 0 {
        Seq::empty()
    } else if s.last() == c {
        replaced(s.drop_last(), c, with) + with
    } else {
        replaced(s.drop_last(), c, with).push(s.last())
    }
}

/// The number of bytes of a character in UTF-8.
pub open spec fn byte_width(c: char) -> int {
    if c <= '\u{7f}' {
        1
    } else if c <= '\u{7ff}' {
        2
    } else if c <= '\u{ffff}' {
        3
    } else {
        4
    }
}

/// The front of `s` that takes exactly `n` bytes, if there is one.
pub open spec fn byte_front(s: Seq<char>, n: int) -> Option<Seq<char>>
    decreases s.len(),
{
    if n <= 0 {
        if n == 0 {
            Some(Seq::empty())
        } else {
            None
        }
    } else if s.len() == 0 {
        None
    } else {
        match byte_front(s.subrange(1, s.len() as int), n - byte_width(s[0])) {
            Some(t) => Some(seq![s[0]] + t),
            None => None,
        }
    }
}

/// The longest front of `s` that takes at most `n` bytes.
pub open spec fn front_within(s: Seq<char>, n: int) -> Seq<char>
    decreases s.len(),
{
    if s.len() == 0 || byte_len(s) <= n {
        s
    } else {
        front_within(s.drop_last(), n)
    }
}

/// `s` without the characters `c` at both ends.
pub open spec fn strip_both(s: Seq<char>, c: char) -> Seq<char> {
    strip_back(strip_front(s, c), c)
}

/// What stands between the first `c` and the next one, or the end.
pub open spec fn second_piece(s: Seq<char>, c: char) -> Option<Seq<char>> {
    if before_len(s, c) < s.len() {
        Some(before(after(s, c), c))
    } else {
        None
    }
}

/// `s` without `p` at its front, if it stands there.
pub open spec fn without_front(s: Seq<char>, p: Seq<char>) -> Option<Seq<char>> {
    if begins(s, p) {
        Some(s.subrange(p.len() as int, s.len() as int))
    } else {
        None
    }
}

/// The number of bytes of a text in UTF-8.
pub open spec fn byte_len(s: Seq<char>) -> int
    decreases s.len(),
{
    if s.len() == 0 {
        0
    } else {
        byte_len(s.drop_last()) + byte_width(s.last())
    }
}

/// The position of the last `c`.
pub open spec fn last_pos(s: Seq<char>, c: char) -> Option<int>
    decreases s.len(),
{
    if s.len() == 0 {
        None
    } else if s.last() == c {
        Some(s.len() - 1)
    } else {
        last_pos(s.drop_last(), c)
    }
}

/// The first word of a text.
pub open spec fn first_word_of(s: Seq<char>) -> Option<Seq<char>> {
    let w = words_of(s);
    if w.len() > 0 {
        Some(w[0])
    } else {
        None
    }
}

/// The last word of a text.
pub open spec fn last_word_of(s: Seq<char>) -> Option<Seq<char>> {
    let w = words_of(s);
    if w.len() > 0 {
        Some(w.last())
    } else {
        None
    }
}

/// The last word before the first `p`.
pub open spec fn word_ahead_of(s: Seq<char>, p: Seq<char>) -> Option<Seq<char>> {
    match ahead_of(s, p) {
        Some(t) => last_word_of(t),
        None => None,
    }
}

/// The number that an optional text writes; 0 where it writes none.
pub open spec fn number_of(s: Option<Seq<char>>) -> u64 {
    match s {
        Some(t) => match number_in(t) {
            Some(n) => n,
            None => 0,
        },
        None => 0,
    }
}

/// `s` without the characters of `set` at its front.
pub open spec fn strip_set(s: Seq<char>, set: Seq<char>) -> Seq<char>
    decreases s.len(),
{
    if s.len() > 0 && set.contains(s[0]) {
        strip_set(s.subrange(1, s.len() as int), set)
    } else {
        s
    }
}

/// `s` without `p` at its front, as often as it stands there.
pub open spec fn strip_text(s: Seq<char>, p: Seq<char>) -> Seq<char>
    decreases s.len(),
{
    if p.len() > 0 && begins(s, p) {
        strip_text(s.subrange(p.len() as int, s.len() as int), p)
    } else {
        s
    }
}

/// `s` without `p` at its back, if it stands there.
pub open spec fn without_back(s: Seq<char>, p: Seq<char>) -> Option<Seq<char>> {
    if ends(s, p) {
        Some(s.subrange(0, s.len() - p.len()))
    } else {
        None
    }
}

/// What stands before the first `p`, if `p` is there.
pub open spec fn ahead_of(s: Seq<char>, p: Seq<char>) -> Option<Seq<char>> {
    match find_text(s, p) {
        Some(i) => Some(s.subrange(0, i)),
        None => None,
    }
}

/// What stands behind the first `p`, if `p` is there.
pub open spec fn behind_of(s: Seq<char>, p: Seq<char>) -> Option<Seq<char>> {
    match find_text(s, p) {
        Some(i) => Some(s.subrange(i + p.len(), s.len() as int)),
        None => None,
    }
}

/// What `f` finds in the first of the lines in which it finds something.
pub open spec fn first_in<T>(lines: Seq<Seq<char>>, f: spec_fn(Seq<char>) -> Option<T>) -> Option<T>
    decreases lines.len(),
{
    if lines.len() == 0 {
        None
    } else {
        match f(lines[0]) {
            Some(x) => Some(x),
            None => first_in(lines.subrange(1, lines.len() as int), f),
        }
    }
}

pub open spec fn is_digit(c: char) -> bool {
    '0' <= c <= '9'
}

/// The number that a row of decimal digits writes.
pub open spec fn digits_value(s: Seq<char>) -> nat
    decreases s.len(),
{
    if s.len() == 0 {
        0
    } else {
        (digits_value(s.drop_last()) * 10 + (s.last() as int - '0' as int)) as nat
    }
}

pub open spec fn all_digits(s: Seq<char>) -> bool {
    forall|i: int| 0 <= i < s.len() ==> is_digit(#[trigger] s[i])
}

/// What stands for a number in `s`: its digits, behind a `+` that may be there.
pub open spec fn unsigned_part(s: Seq<char>) -> Seq<char> {
    if s.len() > 0 && s[0] == '+' {
        s.subrange(1, s.len() as int)
    } else {
        s
    }
}

/// The 64-bit number that `s` writes in decimal, if it writes one.
pub open spec fn number_in(s: Seq<char>) -> Option<u64> {
    let d = unsigned_part(s);
    if d.len() > 0 && all_digits(d) && digits_value(d) <= u64::MAX {
        Some(digits_value(d) as u64)
    } else {
        None
    }
}

pub open spec fn digit_char(d: nat) -> char {
    ('0' as int + d as int) as char
}

/// The decimal digits of a number.
pub open spec fn decimal(n: nat) -> Seq<char>
    decreases n,
{
    if n < 10 {
        seq![digit_char(n)]
    } else {
        decimal(n / 10).push(digit_char(n % 10))
    }
}

// ── lemmas ──────────────────────────────────────────────────────────────────

/// `find_from` finds an occurrence, and the first one from its start on.
pub proof fn lemma_find_from(s: Seq<char>, p: Seq<char>, i: int)
    requires
        0 <= i,
    ensures
        match find_from(s, p, i) {
            Some(k) => i <= k && occurs_at(s, p, k) && forall|j: int|
                i <= j < k ==> !occurs_at(s, p, j),
            None => forall|j: int| i <= j ==> !occurs_at(s, p, j),
        },
    decreases s.len() + 1 - i,
{
    if i + p.len() <= s.len() && !occurs_at(s, p, i) {
        lemma_find_from(s, p, i + 1);
    }
}

/// A text holds another exactly where a first position of it can be found.
pub proof fn lemma_has_find(s: Seq<char>, p: Seq<char>)
    ensures
        has(s, p) <==> find_text(s, p) is Some,
{
    lemma_find_from(s, p, 0);
    if has(s, p) {
        let i = choose|i: int| occurs_at(s, p, i);
        assert(occurs_at(s, p, i));
    }
}

pub proof fn lemma_before_len(s: Seq<char>, c: char)
    ensures
        0 <= before_len(s, c) <= s.len(),
        before_len(s, c) < s.len() ==> s[before_len(s, c)] == c,
        forall|i: int| 0 <= i < before_len(s, c) ==> s[i] != c,
    decreases s.len(),
{
    if s.len() > 0 && s[0] != c {
        let t = s.subrange(1, s.len() as int);
        lemma_before_len(t, c);
        assert forall|i: int| 0 <= i < before_len(s, c) implies s[i] != c by {
            if i > 0 {
                assert(t[i - 1] == s[i]);
            }
        }
    }
}

pub proof fn lemma_before_len_is(s: Seq<char>, c: char, n: int)
    requires
        0 <= n <= s.len(),
        forall|i: int| 0 <= i < n ==> s[i] != c,
        n < s.len() ==> s[n] == c,
    ensures
        before_len(s, c) == n,
    decreases s.len(),
{
    if n > 0 {
        lemma_before_len_is(s.subrange(1, s.len() as int), c, n - 1);
    }
}

pub proof fn lemma_word_len_is(s: Seq<char>, n: int)
    requires
        0 <= n <= s.len(),
        forall|i: int| 0 <= i < n ==> !is_space(s[i]),
        n < s.len() ==> is_space(s[n]),
    ensures
        word_len(s) == n,
    decreases s.len(),
{
    if n > 0 {
        lemma_word_len_is(s.subrange(1, s.len() as int), n - 1);
    }
}

/// What follows the last whitespace is the last word.
pub proof fn lemma_last_word(s: Seq<char>, n: int)
    requires
        0 <= n < s.len(),
        n > 0 ==> is_space(s[n - 1]),
        forall|i: int| n <= i < s.len() ==> !is_space(s[i]),
    ensures
        last_word_of(s) == Some(s.subrange(n, s.len() as int)),
    decreases s.len(),
{
    if n == 0 {
        lemma_word_len_is(s, s.len() as int);
        let rest = s.subrange(s.len() as int, s.len() as int);
        assert(words_of(rest) =~= Seq::<Seq<char>>::empty());
        assert(s.subrange(0, s.len() as int) =~= s);
        assert(words_of(s) =~= seq![s]);
    } else if is_space(s[0]) {
        let t = s.subrange(1, s.len() as int);
        lemma_last_word(t, n - 1);
        assert(t.subrange(n - 1, t.len() as int) =~= s.subrange(n, s.len() as int));
    } else {
        lemma_word_len(s);
        let w = word_len(s);
        let t = s.subrange(w, s.len() as int);
        lemma_last_word(t, n - w);
        assert(t.subrange(n - w, t.len() as int) =~= s.subrange(n, s.len() as int));
        assert(words_of(s) =~= seq![s.subrange(0, w)] + words_of(t));
        assert(words_of(s).last() == words_of(t).last());
    }
}

proof fn lemma_word_len(s: Seq<char>)
    ensures
        0 <= word_len(s) <= s.len(),
        word_len(s) < s.len() ==> is_space(s[word_len(s)]),
        forall|i: int| 0 <= i < word_len(s) ==> !is_space(s[i]),
    decreases s.len(),
{
    if s.len() > 0 && !is_space(s[0]) {
        let t = s.subrange(1, s.len() as int);
        lemma_word_len(t);
        assert forall|i: int| 0 <= i < word_len(s) implies !is_space(s[i]) by {
            if i > 0 {
                assert(t[i - 1] == s[i]);
            }
        }
    }
}

pub proof fn lemma_trim_front_is(s: Seq<char>, n: int)
    requires
        0 <= n <= s.len(),
        forall|i: int| 0 <= i < n ==> is_space(s[i]),
        n < s.len() ==> !is_space(s[n]),
    ensures
        trim_front(s) == s.subrange(n, s.len() as int),
    decreases n,
{
    if n == 0 {
        assert(s.subrange(0, s.len() as int) == s);
    } else {
        let t = s.subrange(1, s.len() as int);
        lemma_trim_front_is(t, n - 1);
        assert(t.subrange(n - 1, t.len() as int) == s.subrange(n, s.len() as int));
    }
}

pub proof fn lemma_trim_back_is(s: Seq<char>, n: int)
    requires
        0 <= n <= s.len(),
        forall|i: int| n <= i < s.len() ==> is_space(s[i]),
        n > 0 ==> !is_space(s[n - 1]),
    ensures
        trim_back(s) == s.subrange(0, n),
    decreases s.len(),
{
    if n == s.len() {
        assert(s.subrange(0, n) == s);
    } else {
        lemma_trim_back_is(s.drop_last(), n);
        assert(s.drop_last().subrange(0, n) == s.subrange(0, n));
    }
}

pub proof fn lemma_strip_back_is(s: Seq<char>, c: char, n: int)
    requires
        0 <= n <= s.len(),
        forall|i: int| n <= i < s.len() ==> s[i] == c,
        n > 0 ==> s[n - 1] != c,
    ensures
        strip_back(s, c) == s.subrange(0, n),
    decreases s.len(),
{
    if n == s.len() {
        assert(s.subrange(0, n) == s);
    } else {
        lemma_strip_back_is(s.drop_last(), c, n);
        assert(s.drop_last().subrange(0, n) == s.subrange(0, n));
    }
}

pub proof fn lemma_strip_front_is(s: Seq<char>, c: char, n: int)
    requires
        0 <= n <= s.len(),
        forall|i: int| 0 <= i < n ==> s[i] == c,
        n < s.len() ==> s[n] != c,
    ensures
        strip_front(s, c) == s.subrange(n, s.len() as int),
    decreases n,
{
    if n == 0 {
        assert(s.subrange(0, s.len() as int) == s);
    } else {
        let t = s.subrange(1, s.len() as int);
        lemma_strip_front_is(t, c, n - 1);
        assert(t.subrange(n - 1, t.len() as int) == s.subrange(n, s.len() as int));
    }
}

/// The value of digits does not shrink when more digits follow.
pub proof fn lemma_digits_value_grows(s: Seq<char>, n: int)
    requires
        all_digits(s),
        0 <= n <= s.len(),
    ensures
        digits_value(s.subrange(0, n)) <= digits_value(s),
    decreases s.len(),
{
    if n == s.len() {
        assert(s.subrange(0, n) == s);
    } else {
        let t = s.drop_last();
        assert(all_digits(t)) by {
            assert forall|i: int| 0 <= i < t.len() implies is_digit(#[trigger] t[i]) by {
                assert(is_digit(s[i]));
            }
        }
        lemma_digits_value_grows(t, n);
        assert(t.subrange(0, n) == s.subrange(0, n));
        assert(is_digit(s[s.len() - 1]));
    }
}

/// Reading back the digits of a number gives the number.
pub proof fn lemma_decimal_reads_back(n: nat)
    ensures
        decimal(n).len() > 0,
        all_digits(decimal(n)),
        digits_value(decimal(n)) == n,
    decreases n,
{
    if n < 10 {
        let s = decimal(n);
        assert(s.drop_last() == Seq::<char>::empty());
        assert(digits_value(s.drop_last()) == 0);
    } else {
        lemma_decimal_reads_back(n / 10);
        let s = decimal(n);
        assert(s.drop_last() == decimal(n / 10));
        assert forall|i: int| 0 <= i < s.len() implies is_digit(#[trigger] s[i]) by {
            if i < s.len() - 1 {
                assert(decimal(n / 10)[i] == s[i]);
            }
        }
    }
}

/// A number written in decimal is the number that is read from the text.
pub proof fn lemma_number_round_trip(n: u64)
    ensures
        number_in(decimal(n as nat)) == Some(n),
{
    lemma_decimal_reads_back(n as nat);
    let s = decimal(n as nat);
    assert(is_digit(s[0]));
    assert(unsigned_part(s) == s);
}

// ── laws ────────────────────────────────────────────────────────────────────

/// `c` stands nowhere in `s`.
pub open spec fn lacks(s: Seq<char>, c: char) -> bool {
    forall|i: int| 0 <= i < s.len() ==> #[trigger] s[i] != c
}

/// What is joined by a character is split at it into the pieces on both sides.
pub proof fn law_split_of_both_sides(a: Seq<char>, b: Seq<char>, c: char)
    ensures
        pieces(a + seq![c] + b, c) == pieces(a, c) + pieces(b, c),
    decreases a.len(),
{
    let s = a + seq![c] + b;
    lemma_before_len(a, c);
    let n = before_len(a, c);
    if n < a.len() {
        lemma_before_len_is(s, c, n);
        law_split_of_both_sides(after(a, c), b, c);
        assert(before(s, c) =~= before(a, c));
        assert(after(s, c) =~= after(a, c) + seq![c] + b);
        assert(pieces(s, c) =~= seq![before(a, c)] + pieces(after(a, c) + seq![c] + b, c));
        assert(pieces(a, c) + pieces(b, c) =~= seq![before(a, c)] + (pieces(after(a, c), c)
            + pieces(b, c)));
    } else {
        lemma_before_len_is(s, c, a.len() as int);
        assert(before(s, c) =~= a);
        assert(after(s, c) =~= b);
    }
}

/// Texts without the separator, joined by it and split at it, are what they were.
pub proof fn law_split_undoes_join(parts: Seq<Seq<char>>, c: char)
    requires
        parts.len() > 0,
        forall|i: int| 0 <= i < parts.len() ==> lacks(#[trigger] parts[i], c),
    ensures
        pieces(joined(parts, seq![c]), c) == parts,
    decreases parts.len(),
{
    let last = parts.last();
    lemma_before_len_is(last, c, last.len() as int);
    assert(pieces(last, c) == seq![last]);
    if parts.len() == 1 {
        assert(parts =~= seq![last]);
    } else {
        let front = parts.drop_last();
        law_split_undoes_join(front, c);
        law_split_of_both_sides(joined(front, seq![c]), last, c);
        assert(parts =~= front + seq![last]);
    }
}

/// The lines, each with a line feed behind it.
pub open spec fn with_feeds(lines: Seq<Seq<char>>) -> Seq<char>
    decreases lines.len(),
{
    if lines.len() == 0 {
        Seq::empty()
    } else {
        lines[0] + seq!['\n'] + with_feeds(lines.subrange(1, lines.len() as int))
    }
}

/// Lines that are written one below the other read back, all of them and in order.
pub proof fn law_lines_read_back(lines: Seq<Seq<char>>)
    requires
        forall|i: int|
            0 <= i < lines.len() ==> lacks(#[trigger] lines[i], '\n') && !(lines[i].len() > 0
                && lines[i].last() == '\r'),
    ensures
        lines_of(with_feeds(lines)) == lines,
    decreases lines.len(),
{
    if lines.len() > 0 {
        let rest = lines.subrange(1, lines.len() as int);
        let s = with_feeds(lines);
        assert forall|i: int| 0 <= i < rest.len() implies lacks(#[trigger] rest[i], '\n') && !(
        rest[i].len() > 0 && rest[i].last() == '\r') by {
            assert(rest[i] == lines[i + 1]);
        }
        law_lines_read_back(rest);
        lemma_before_len_is(s, '\n', lines[0].len() as int);
        assert(before(s, '\n') =~= lines[0]);
        assert(after(s, '\n') =~= with_feeds(rest));
        assert(lines_of(s) =~= lines);
    } else {
        assert(lines_of(with_feeds(lines)) =~= lines);
    }
}

/// What is trimmed away is whitespace at the two ends, and none is left there.
pub proof fn law_trimming_takes_the_ends(s: Seq<char>) -> (r: (int, int))
    ensures
        0 <= r.0 <= r.1 <= s.len(),
        trimmed(s) == s.subrange(r.0, r.1),
        forall|i: int| 0 <= i < s.len() && (i < r.0 || i >= r.1) ==> is_space(#[trigger] s[i]),
        trimmed(s).len() > 0 ==> !is_space(trimmed(s)[0]) && !is_space(trimmed(s).last()),
{
    let a = lemma_first_word_char(s);
    lemma_trim_front_is(s, a);
    let t = s.subrange(a, s.len() as int);
    let b = lemma_last_word_char(t);
    lemma_trim_back_is(t, b);
    assert(t.subrange(0, b) =~= s.subrange(a, a + b));
    assert forall|i: int| 0 <= i < s.len() && (i < a || i >= a + b) implies is_space(
        #[trigger] s[i],
    ) by {
        if i >= a + b {
            assert(t[i - a] == s[i]);
        }
    }
    (a, a + b)
}

proof fn lemma_first_word_char(s: Seq<char>) -> (n: int)
    ensures
        0 <= n <= s.len(),
        forall|i: int| 0 <= i < n ==> is_space(s[i]),
        n < s.len() ==> !is_space(s[n]),
    decreases s.len(),
{
    if s.len() == 0 || !is_space(s[0]) {
        0
    } else {
        let t = s.subrange(1, s.len() as int);
        let n = lemma_first_word_char(t);
        assert forall|i: int| 0 <= i < n + 1 implies is_space(s[i]) by {
            if i > 0 {
                assert(is_space(t[i - 1]));
            }
        }
        assert(n < t.len() ==> t[n] == s[n + 1]);
        n + 1
    }
}

proof fn lemma_last_word_char(s: Seq<char>) -> (n: int)
    ensures
        0 <= n <= s.len(),
        forall|i: int| n <= i < s.len() ==> is_space(s[i]),
        n > 0 ==> !is_space(s[n - 1]),
    decreases s.len(),
{
    if s.len() == 0 || !is_space(s.last()) {
        s.len() as int
    } else {
        let n = lemma_last_word_char(s.drop_last());
        assert forall|i: int| n <= i < s.len() implies is_space(s[i]) by {
            if i < s.len() - 1 {
                assert(is_space(s.drop_last()[i]));
            }
        }
        n
    }
}

/// A word, whitespace and a text: the words are the word and those of the text.
pub proof fn law_words_one_by_one(w: Seq<char>, space: char, rest: Seq<char>)
    requires
        w.len() > 0,
        forall|i: int| 0 <= i < w.len() ==> !is_space(#[trigger] w[i]),
        is_space(space),
    ensures
        words_of(w) == seq![w],
        words_of(seq![space] + rest) == words_of(rest),
        words_of(w + seq![space] + rest) == seq![w] + words_of(rest),
{
    lemma_word_len_is(w, w.len() as int);
    assert(w.subrange(0, w.len() as int) =~= w);
    assert(w.subrange(w.len() as int, w.len() as int) =~= Seq::<char>::empty());
    assert(words_of(Seq::<char>::empty()) =~= Seq::<Seq<char>>::empty());
    assert(words_of(w) =~= seq![w]);
    let t = seq![space] + rest;
    assert(t[0] == space);
    assert(t.subrange(1, t.len() as int) =~= rest);
    let s = w + seq![space] + rest;
    assert(s[0] == w[0]);
    assert forall|i: int| 0 <= i < w.len() implies !is_space(s[i]) by {
        assert(s[i] == w[i]);
    }
    lemma_word_len_is(s, w.len() as int);
    assert(s.subrange(0, w.len() as int) =~= w);
    assert(s.subrange(w.len() as int, s.len() as int) =~= t);
    assert(words_of(t) == words_of(rest));
    assert(!is_space(s[0]) && 0 < word_len(s) <= s.len());
    assert(words_of(s) == seq![s.subrange(0, word_len(s))] + words_of(
        s.subrange(word_len(s), s.len() as int),
    ));
}

/// A text is found where it was put in, unless it stands somewhere before.
pub proof fn law_text_is_found(a: Seq<char>, p: Seq<char>, b: Seq<char>)
    ensures
        has(a + p + b, p),
        find_text(a + p + b, p) matches Some(i) && i <= a.len(),
        has(a + p + b, p) <==> find_text(a + p + b, p) is Some,
{
    let s = a + p + b;
    assert(s.subrange(a.len() as int, (a.len() + p.len()) as int) =~= p);
    assert(occurs_at(s, p, a.len() as int));
    lemma_has_find(s, p);
    lemma_find_from(s, p, 0);
}

// ── executable functions ────────────────────────────────────────────────────

pub fn space(c: char) -> (r: bool)
    ensures
        r == is_space(c),
{
    ('\u{9}' <= c && c <= '\u{d}') || c == ' ' || c == '\u{85}' || c == '\u{a0}' || c == '\u{1680}'
        || ('\u{2000}' <= c && c <= '\u{200a}') || c == '\u{2028}' || c == '\u{2029}' || c
        == '\u{202f}' || c == '\u{205f}' || c == '\u{3000}'
}

/// The characters of a text.
pub fn chars(s: &str) -> (r: Vec<char>)
    ensures
        r@ == s@,
{
    let mut r: Vec<char> = Vec::new();
    for c in it: s.chars()
        invariant
            r@ == s@.subrange(0, it.index() as int),
            it.seq() == s@,
    {
        r.push(c);
    }
    r
}

/// The text of the characters from `from` up to `to`.
pub fn text_of(v: &Vec<char>, from: usize, to: usize) -> (r: String)
    requires
        from <= to <= v@.len(),
    ensures
        r@ == v@.subrange(from as int, to as int),
{
    let mut r = String::new();
    let mut i = from;
    while i < to
        invariant
            from <= i <= to <= v@.len(),
            r@ == v@.subrange(from as int, i as int),
        decreases to - i,
    {
        r.push(v[i]);
        i += 1;
    }
    r
}

/// `p` stands in `v` at position `i`.
fn stands_at(v: &Vec<char>, p: &Vec<char>, i: usize) -> (r: bool)
    requires
        i + p@.len() <= v@.len(),
    ensures
        r == occurs_at(v@, p@, i as int),
{
    let mut k: usize = 0;
    let total: usize = v.len();
    while k < p.len()
        invariant
            total == v@.len(),
            i + p@.len() <= v@.len(),
            0 <= k <= p@.len(),
            forall|j: int| 0 <= j < k ==> v@[i + j] == p@[j],
        decreases p@.len() - k,
    {
        if v[i + k] != p[k] {
            assert(v@.subrange(i as int, i + p@.len())[k as int] != p@[k as int]);
            return false;
        }
        k += 1;
    }
    assert(v@.subrange(i as int, i + p@.len()) == p@);
    true
}

/// The first position of `p` in `s`, counted in characters.
pub fn find(s: &str, p: &str) -> (r: Option<usize>)
    ensures
        match r {
            Some(i) => find_text(s@, p@) == Some(i as int) && i + p@.len() <= s@.len(),
            None => find_text(s@, p@) is None,
        },
{
    let v = chars(s);
    let q = chars(p);
    if q.len() > v.len() {
        return None;
    }
    let mut i: usize = 0;
    let last: usize = v.len() - q.len();
    while i <= last
        invariant
            v@ == s@,
            q@ == p@,
            last + q@.len() == v@.len(),
            0 <= i <= last + 1,
            find_from(s@, p@, i as int) == find_text(s@, p@),
        decreases last + 1 - i,
    {
        if stands_at(&v, &q, i) {
            return Some(i);
        }
        if i == last {
            return None;
        }
        i += 1;
    }
    None
}

pub fn contains(s: &str, p: &str) -> (r: bool)
    ensures
        r == has(s@, p@),
{
    proof {
        lemma_has_find(s@, p@);
    }
    find(s, p).is_some()
}

/// The part of `s` from `from` up to `to`, counted in characters.
pub fn part(s: &str, from: usize, to: usize) -> (r: String)
    requires
        from <= to <= s@.len(),
    ensures
        r@ == s@.subrange(from as int, to as int),
{
    let v = chars(s);
    text_of(&v, from, to)
}

pub fn same(a: &str, b: &str) -> (r: bool)
    ensures
        r == (a@ == b@),
{
    let v = chars(a);
    let w = chars(b);
    if v.len() != w.len() {
        return false;
    }
    if stands_at(&v, &w, 0) {
        assert(v@.subrange(0, v@.len() as int) == v@);
        true
    } else {
        assert(v@.subrange(0, v@.len() as int) == v@);
        false
    }
}

pub fn starts_with(s: &str, p: &str) -> (r: bool)
    ensures
        r == begins(s@, p@),
{
    let v = chars(s);
    let q = chars(p);
    q.len() <= v.len() && stands_at(&v, &q, 0)
}

pub fn ends_with(s: &str, p: &str) -> (r: bool)
    ensures
        r == ends(s@, p@),
{
    let v = chars(s);
    let q = chars(p);
    q.len() <= v.len() && stands_at(&v, &q, v.len() - q.len())
}

/// The number of whitespace characters at the front.
fn front_spaces(v: &Vec<char>) -> (n: usize)
    ensures
        n <= v@.len(),
        forall|i: int| 0 <= i < n ==> is_space(v@[i]),
        n < v@.len() ==> !is_space(v@[n as int]),
{
    let mut n: usize = 0;
    while n < v.len() && space(v[n])
        invariant
            n <= v@.len(),
            forall|i: int| 0 <= i < n ==> is_space(v@[i]),
        decreases v@.len() - n,
    {
        n += 1;
    }
    n
}

pub fn trim_start(s: &str) -> (r: String)
    ensures
        r@ == trim_front(s@),
{
    let v = chars(s);
    let n = front_spaces(&v);
    proof {
        lemma_trim_front_is(s@, n as int);
    }
    text_of(&v, n, v.len())
}

pub fn trim_end(s: &str) -> (r: String)
    ensures
        r@ == trim_back(s@),
{
    let v = chars(s);
    let mut n: usize = v.len();
    while n > 0 && space(v[n - 1])
        invariant
            0 <= n <= v@.len(),
            forall|i: int| n <= i < v@.len() ==> is_space(v@[i]),
        decreases n,
    {
        n -= 1;
    }
    proof {
        lemma_trim_back_is(s@, n as int);
    }
    text_of(&v, 0, n)
}

pub fn trim(s: &str) -> (r: String)
    ensures
        r@ == trimmed(s@),
{
    let t = trim_start(s);
    trim_end(&t)
}

/// `s` without the characters `c` at its back.
pub fn trim_end_char(s: &str, c: char) -> (r: String)
    ensures
        r@ == strip_back(s@, c),
{
    let v = chars(s);
    let mut n: usize = v.len();
    while n > 0 && v[n - 1] == c
        invariant
            0 <= n <= v@.len(),
            forall|i: int| n <= i < v@.len() ==> v@[i] == c,
        decreases n,
    {
        n -= 1;
    }
    proof {
        lemma_strip_back_is(s@, c, n as int);
    }
    text_of(&v, 0, n)
}

/// `s` without the characters `c` at its front.
pub fn trim_start_char(s: &str, c: char) -> (r: String)
    ensures
        r@ == strip_front(s@, c),
{
    let v = chars(s);
    let mut n: usize = 0;
    while n < v.len() && v[n] == c
        invariant
            0 <= n <= v@.len(),
            forall|i: int| 0 <= i < n ==> v@[i] == c,
        decreases v@.len() - n,
    {
        n += 1;
    }
    proof {
        lemma_strip_front_is(s@, c, n as int);
    }
    text_of(&v, n, v.len())
}

/// The position of the first `c` from `from` on, or the end.
fn next_char(v: &Vec<char>, from: usize, c: char) -> (n: usize)
    requires
        from <= v@.len(),
    ensures
        from <= n <= v@.len(),
        before_len(v@.subrange(from as int, v@.len() as int), c) == n - from,
{
    let mut n: usize = from;
    while n < v.len() && v[n] != c
        invariant
            from <= n <= v@.len(),
            forall|i: int| from <= i < n ==> v@[i] != c,
        decreases v@.len() - n,
    {
        n += 1;
    }
    proof {
        lemma_before_len_is(v@.subrange(from as int, v@.len() as int), c, n - from);
    }
    n
}

/// What stands before the first `c`; all of `s` where there is none.
pub fn before_char(s: &str, c: char) -> (r: String)
    ensures
        r@ == before(s@, c),
{
    let v = chars(s);
    let n = next_char(&v, 0, c);
    assert(v@.subrange(0, v@.len() as int) == v@);
    text_of(&v, 0, n)
}

/// What stands after the first `c`, if there is one.
pub fn after_char(s: &str, c: char) -> (r: Option<String>)
    ensures
        match r {
            Some(t) => before_len(s@, c) < s@.len() && t@ == after(s@, c),
            None => before_len(s@, c) == s@.len(),
        },
{
    let v = chars(s);
    let n = next_char(&v, 0, c);
    assert(v@.subrange(0, v@.len() as int) == v@);
    if n < v.len() {
        Some(text_of(&v, n + 1, v.len()))
    } else {
        None
    }
}

/// The pieces of `s` between the characters `c`.
pub fn split(s: &str, c: char) -> (r: Vec<String>)
    ensures
        views(r@) == pieces(s@, c),
        r@.len() > 0,
{
    let v = chars(s);
    let mut r: Vec<String> = Vec::new();
    let mut from: usize = 0;
    assert(v@.subrange(0, v@.len() as int) == v@);
    assert(views(r@) + pieces(s@, c) == pieces(s@, c));
    loop
        invariant
            v@ == s@,
            from <= v@.len(),
            views(r@) + pieces(v@.subrange(from as int, v@.len() as int), c) == pieces(s@, c),
        decreases v@.len() - from,
    {
        let ghost rest = v@.subrange(from as int, v@.len() as int);
        let n = next_char(&v, from, c);
        let ghost r0 = r@;
        let piece = text_of(&v, from, n);
        r.push(piece);
        assert(views(r@) == views(r0).push(piece@));
        if n == v.len() {
            assert(piece@ == rest);
            assert(views(r@) == views(r0) + seq![rest]);
            return r;
        }
        proof {
            assert(before(rest, c) == piece@);
            assert(after(rest, c) == v@.subrange(n + 1, v@.len() as int));
            assert(pieces(rest, c) == seq![piece@] + pieces(after(rest, c), c));
            assert(views(r@) + pieces(after(rest, c), c) == views(r0) + pieces(rest, c));
        }
        from = n + 1;
    }
}

/// The lines of a text.
pub fn lines(s: &str) -> (r: Vec<String>)
    ensures
        views(r@) == lines_of(s@),
{
    let v = chars(s);
    let mut r: Vec<String> = Vec::new();
    let mut from: usize = 0;
    assert(v@.subrange(0, v@.len() as int) == v@);
    assert(views(r@) + lines_of(s@) == lines_of(s@));
    while from < v.len()
        invariant
            v@ == s@,
            from <= v@.len(),
            views(r@) + lines_of(v@.subrange(from as int, v@.len() as int)) == lines_of(s@),
        decreases v@.len() - from,
    {
        let ghost rest = v@.subrange(from as int, v@.len() as int);
        let ghost r0 = r@;
        let n = next_char(&v, from, '\n');
        if n == v.len() {
            let line = text_of(&v, from, n);
            r.push(line);
            assert(line@ == rest);
            assert(views(r@) == views(r0) + seq![rest]);
            return r;
        }
        let end: usize = if n > from && v[n - 1] == '\r' {
            n - 1
        } else {
            n
        };
        let line = text_of(&v, from, end);
        r.push(line);
        proof {
            assert(views(r@) == views(r0).push(line@));
            assert(before(rest, '\n') == v@.subrange(from as int, n as int));
            assert(line@ == without_cr(before(rest, '\n')));
            assert(after(rest, '\n') == v@.subrange(n + 1, v@.len() as int));
            assert(lines_of(rest) == seq![line@] + lines_of(after(rest, '\n')));
            assert(views(r@) + lines_of(after(rest, '\n')) == views(r0) + lines_of(rest));
        }
        from = n + 1;
    }
    assert(v@.subrange(from as int, v@.len() as int) == Seq::<char>::empty());
    assert(views(r@) + Seq::<Seq<char>>::empty() == views(r@));
    r
}

/// The words of a text.
pub fn words(s: &str) -> (r: Vec<String>)
    ensures
        views(r@) == words_of(s@),
{
    let v = chars(s);
    let mut r: Vec<String> = Vec::new();
    let mut i: usize = 0;
    assert(v@.subrange(0, v@.len() as int) == v@);
    assert(views(r@) + words_of(s@) == words_of(s@));
    while i < v.len()
        invariant
            v@ == s@,
            i <= v@.len(),
            views(r@) + words_of(v@.subrange(i as int, v@.len() as int)) == words_of(s@),
        decreases v@.len() - i,
    {
        let ghost rest = v@.subrange(i as int, v@.len() as int);
        if space(v[i]) {
            assert(rest.subrange(1, rest.len() as int) == v@.subrange(i + 1, v@.len() as int));
            i += 1;
        } else {
            let from = i;
            let ghost r0 = r@;
            while i < v.len() && !space(v[i])
                invariant
                    from <= i <= v@.len(),
                    forall|k: int| from <= k < i ==> !is_space(v@[k]),
                decreases v@.len() - i,
            {
                i += 1;
            }
            let word = text_of(&v, from, i);
            r.push(word);
            proof {
                lemma_word_len_is(rest, i - from);
                assert(views(r@) == views(r0).push(word@));
                assert(rest.subrange(0, i - from) == word@);
                assert(rest.subrange(i - from, rest.len() as int) == v@.subrange(
                    i as int,
                    v@.len() as int,
                ));
                assert(words_of(rest) == seq![word@] + words_of(
                    v@.subrange(i as int, v@.len() as int),
                ));
                assert(views(r@) + words_of(v@.subrange(i as int, v@.len() as int)) == views(r0)
                    + words_of(rest));
            }
        }
    }
    assert(v@.subrange(i as int, v@.len() as int) == Seq::<char>::empty());
    assert(views(r@) + Seq::<Seq<char>>::empty() == views(r@));
    r
}

/// The texts with `sep` between each two of them.
pub fn join(parts: &Vec<String>, sep: &str) -> (r: String)
    ensures
        r@ == joined(views(parts@), sep@),
{
    let mut r = String::new();
    let mut i: usize = 0;
    while i < parts.len()
        invariant
            0 <= i <= parts@.len(),
            r@ == joined(views(parts@).subrange(0, i as int), sep@),
        decreases parts@.len() - i,
    {
        let ghost next = views(parts@).subrange(0, i + 1);
        assert(next.drop_last() == views(parts@).subrange(0, i as int));
        if i > 0 {
            r.append(sep);
        }
        r.append(parts[i].as_str());
        assert(next.last() == parts@[i as int]@);
        assert(r@ == joined(next, sep@));
        i += 1;
    }
    assert(views(parts@).subrange(0, i as int) == views(parts@));
    r
}

/// `s` with every `c` replaced by `with`.
pub fn replace(s: &str, c: char, with: &str) -> (r: String)
    ensures
        r@ == replaced(s@, c, with@),
{
    let v = chars(s);
    let mut r = String::new();
    let mut i: usize = 0;
    while i < v.len()
        invariant
            v@ == s@,
            0 <= i <= v@.len(),
            r@ == replaced(s@.subrange(0, i as int), c, with@),
        decreases v@.len() - i,
    {
        assert(s@.subrange(0, i + 1).drop_last() == s@.subrange(0, i as int));
        if v[i] == c {
            r.append(with);
        } else {
            r.push(v[i]);
        }
        i += 1;
    }
    assert(s@.subrange(0, i as int) == s@);
    r
}

/// The 64-bit number that `s` writes in decimal, if it writes one.
pub fn parse_u64(s: &str) -> (r: Option<u64>)
    ensures
        r == number_in(s@),
{
    let v = chars(s);
    let from: usize = if v.len() > 0 && v[0] == '+' {
        1
    } else {
        0
    };
    let ghost d = unsigned_part(s@);
    assert(d == v@.subrange(from as int, v@.len() as int));
    if from == v.len() {
        return None;
    }
    let mut n: u64 = 0;
    let mut i: usize = from;
    while i < v.len()
        invariant
            from <= i <= v@.len(),
            v@ == s@,
            d == v@.subrange(from as int, v@.len() as int),
            d == unsigned_part(s@),
            forall|k: int| 0 <= k < i - from ==> is_digit(#[trigger] d[k]),
            n == digits_value(d.subrange(0, i - from)),
        decreases v@.len() - i,
    {
        let c = v[i];
        assert(d[i - from] == c);
        if !('0' <= c && c <= '9') {
            assert(!is_digit(d[i - from]));
            return None;
        }
        let digit: u64 = (c as u32 - '0' as u32) as u64;
        let ghost next = d.subrange(0, i + 1 - from);
        proof {
            assert(next.drop_last() == d.subrange(0, i - from));
            assert(digits_value(next) == n * 10 + digit);
            if all_digits(d) {
                lemma_digits_value_grows(d, i + 1 - from);
            }
        }
        if n > u64::MAX / 10 {
            return None;
        }
        let tens: u64 = n * 10;
        if tens > u64::MAX - digit {
            return None;
        }
        n = tens + digit;
        i += 1;
    }
    assert(d.subrange(0, i - from) == d);
    assert(all_digits(d));
    Some(n)
}

/// The decimal digits of a number.
pub fn number(n: u64) -> (r: String)
    ensures
        r@ == decimal(n as nat),
    decreases n,
{
    if n < 10 {
        let mut r = String::new();
        r.push(digit(n));
        assert(r@ == seq![digit_char(n as nat)]);
        r
    } else {
        let mut r = number(n / 10);
        r.push(digit(n % 10));
        r
    }
}

fn digit(d: u64) -> (c: char)
    requires
        d < 10,
    ensures
        c == digit_char(d as nat),
{
    ('0' as u8 + d as u8) as char
}

/// Two texts, one behind the other.
pub fn cat(a: &str, b: &str) -> (r: String)
    ensures
        r@ == a@ + b@,
{
    let mut r = a.to_string();
    r.append(b);
    r
}

pub fn cat3(a: &str, b: &str, c: &str) -> (r: String)
    ensures
        r@ == a@ + b@ + c@,
{
    let mut r = cat(a, b);
    r.append(c);
    r
}

pub fn cat4(a: &str, b: &str, c: &str, d: &str) -> (r: String)
    ensures
        r@ == a@ + b@ + c@ + d@,
{
    let mut r = cat3(a, b, c);
    r.append(d);
    r
}

pub fn cat5(a: &str, b: &str, c: &str, d: &str, e: &str) -> (r: String)
    ensures
        r@ == a@ + b@ + c@ + d@ + e@,
{
    let mut r = cat4(a, b, c, d);
    r.append(e);
    r
}

/// A copy of an optional string.
pub fn copy_opt(o: &Option<String>) -> (r: Option<String>)
    ensures
        r == *o,
{
    match o {
        Some(s) => Some(s.clone()),
        None => None,
    }
}

/// A copy of a list of strings.
pub fn copy_all(v: &Vec<String>) -> (r: Vec<String>)
    ensures
        r@ == v@,
{
    let mut r: Vec<String> = Vec::new();
    let mut i: usize = 0;
    while i < v.len()
        invariant
            i <= v@.len(),
            r@ == v@.subrange(0, i as int),
        decreases v@.len() - i,
    {
        r.push(v[i].clone());
        i += 1;
    }
    r
}

/// Whether a list holds a text.
pub fn among(v: &Vec<String>, s: &str) -> (r: bool)
    ensures
        r == views(v@).contains(s@),
{
    let mut i: usize = 0;
    while i < v.len()
        invariant
            i <= v@.len(),
            forall|k: int| 0 <= k < i ==> views(v@)[k] != s@,
        decreases v@.len() - i,
    {
        if same(v[i].as_str(), s) {
            assert(views(v@)[i as int] == s@);
            return true;
        }
        i += 1;
    }
    false
}

/// `s` without the characters `c` at both ends.
pub fn trim_char(s: &str, c: char) -> (r: String)
    ensures
        r@ == strip_both(s@, c),
{
    let t = trim_start_char(s, c);
    trim_end_char(&t, c)
}

/// What stands between the first `c` and the next one, or the end.
pub fn second(s: &str, c: char) -> (r: Option<String>)
    ensures
        opt_view(r) == second_piece(s@, c),
{
    match after_char(s, c) {
        Some(t) => Some(before_char(&t, c)),
        None => None,
    }
}

/// `s` without `p` at its front, if it stands there.
pub fn strip_prefix(s: &str, p: &str) -> (r: Option<String>)
    ensures
        opt_view(r) == without_front(s@, p@),
{
    let v = chars(s);
    let q = chars(p);
    if q.len() <= v.len() && stands_at(&v, &q, 0) {
        Some(text_of(&v, q.len(), v.len()))
    } else {
        None
    }
}

/// `s` without `p` at its back, if it stands there.
pub fn strip_suffix(s: &str, p: &str) -> (r: Option<String>)
    ensures
        opt_view(r) == without_back(s@, p@),
{
    let v = chars(s);
    let q = chars(p);
    if q.len() <= v.len() && stands_at(&v, &q, v.len() - q.len()) {
        Some(text_of(&v, 0, v.len() - q.len()))
    } else {
        None
    }
}

/// Whether `c` stands in `s`.
pub fn contains_char(s: &str, c: char) -> (r: bool)
    ensures
        r == s@.contains(c),
{
    let v = chars(s);
    let mut i: usize = 0;
    while i < v.len()
        invariant
            i <= v@.len(),
            v@ == s@,
            forall|k: int| 0 <= k < i ==> v@[k] != c,
        decreases v@.len() - i,
    {
        if v[i] == c {
            assert(s@[i as int] == c);
            return true;
        }
        i += 1;
    }
    false
}

/// What stands before the first `p`, if `p` is there.
pub fn ahead(s: &str, p: &str) -> (r: Option<String>)
    ensures
        opt_view(r) == ahead_of(s@, p@),
{
    proof {
        lemma_find_from(s@, p@, 0);
    }
    match find(s, p) {
        Some(i) => Some(part(s, 0, i)),
        None => None,
    }
}

/// What stands behind the first `p`, if `p` is there.
pub fn behind(s: &str, p: &str) -> (r: Option<String>)
    ensures
        opt_view(r) == behind_of(s@, p@),
{
    proof {
        lemma_find_from(s@, p@, 0);
    }
    let v = chars(s);
    let end: usize = v.len();
    match find(s, p) {
        Some(i) => Some(text_of(&v, i + p.unicode_len(), end)),
        None => None,
    }
}

/// The front of `s` that takes exactly `n` bytes, if there is one.
pub fn front_bytes(s: &str, n: usize) -> (r: Option<String>)
    ensures
        opt_view(r) == byte_front(s@, n as int),
{
    let v = chars(s);
    let mut left: usize = n;
    let mut i: usize = 0;
    assert(s@.subrange(0, s@.len() as int) =~= s@);
    assert(forall|t: Seq<char>| #[trigger] (v@.subrange(0, 0) + t) =~= t);
    while left > 0
        invariant
            v@ == s@,
            i <= v@.len(),
            byte_front(s@, n as int) == (match byte_front(
                s@.subrange(i as int, s@.len() as int),
                left as int,
            ) {
                Some(t) => Some(v@.subrange(0, i as int) + t),
                None => None,
            }),
        decreases v@.len() - i,
    {
        let ghost rest = s@.subrange(i as int, s@.len() as int);
        if i == v.len() {
            return None;
        }
        let c = v[i];
        let w: usize = if c <= '\u{7f}' {
            1
        } else if c <= '\u{7ff}' {
            2
        } else if c <= '\u{ffff}' {
            3
        } else {
            4
        };
        proof {
            assert(rest[0] == c);
            assert(rest.subrange(1, rest.len() as int) =~= s@.subrange(i + 1, s@.len() as int));
            let tail = byte_front(s@.subrange(i + 1, s@.len() as int), left - w);
            if tail is Some {
                assert(v@.subrange(0, i as int) + (seq![c] + tail->0) =~= v@.subrange(0, i + 1)
                    + tail->0);
            }
        }
        if w > left {
            return None;
        }
        left -= w;
        i += 1;
    }
    assert(v@.subrange(0, i as int) + Seq::<char>::empty() =~= v@.subrange(0, i as int));
    Some(text_of(&v, 0, i))
}

/// The first word of a text.
pub fn first_word(s: &str) -> (r: Option<String>)
    ensures
        opt_view(r) == first_word_of(s@),
{
    let w = words(s);
    if w.len() > 0 {
        assert(views(w@)[0] == w@[0]@);
        Some(w[0].clone())
    } else {
        None
    }
}

/// The last word of a text.
pub fn last_word(s: &str) -> (r: Option<String>)
    ensures
        opt_view(r) == last_word_of(s@),
{
    let w = words(s);
    if w.len() > 0 {
        assert(views(w@).last() == w@.last()@);
        Some(w[w.len() - 1].clone())
    } else {
        None
    }
}

/// The last word before the first `p`.
pub fn word_ahead(s: &str, p: &str) -> (r: Option<String>)
    ensures
        opt_view(r) == word_ahead_of(s@, p@),
{
    match ahead(s, p) {
        Some(t) => last_word(t.as_str()),
        None => None,
    }
}

/// The number that an optional text writes; 0 where it writes none.
pub fn number_or_none(s: &Option<String>) -> (r: u64)
    ensures
        r == number_of(opt_view(*s)),
{
    match s {
        Some(t) => match parse_u64(t.as_str()) {
            Some(n) => n,
            None => 0,
        },
        None => 0,
    }
}

/// `s` without the characters of `set` at its front.
pub fn trim_start_set(s: &str, set: &str) -> (r: String)
    ensures
        r@ == strip_set(s@, set@),
{
    let v = chars(s);
    let mut n: usize = 0;
    assert(s@.subrange(0, s@.len() as int) =~= s@);
    while n < v.len() && contains_char(set, v[n])
        invariant
            v@ == s@,
            n <= v@.len(),
            strip_set(s@.subrange(n as int, s@.len() as int), set@) == strip_set(s@, set@),
        decreases v@.len() - n,
    {
        proof {
            let t = s@.subrange(n as int, s@.len() as int);
            assert(t.subrange(1, t.len() as int) =~= s@.subrange(n + 1, s@.len() as int));
        }
        n += 1;
    }
    text_of(&v, n, v.len())
}

/// `s` without `p` at its front, as often as it stands there.
pub fn trim_start_text(s: &str, p: &str) -> (r: String)
    ensures
        r@ == strip_text(s@, p@),
{
    let mut t = s.to_string();
    if p.is_empty() {
        return t;
    }
    loop
        invariant
            p@.len() > 0,
            strip_text(t@, p@) == strip_text(s@, p@),
        decreases t@.len(),
    {
        match strip_prefix(t.as_str(), p) {
            Some(rest) => {
                t = rest;
            },
            None => {
                return t;
            },
        }
    }
}

proof fn lemma_byte_len_grows(s: Seq<char>, n: int)
    requires
        0 <= n <= s.len(),
    ensures
        0 <= byte_len(s.subrange(0, n)) <= byte_len(s),
    decreases s.len(),
{
    if n == s.len() {
        assert(s.subrange(0, n) =~= s);
        if n > 0 {
            lemma_byte_len_grows(s.drop_last(), n - 1);
        }
    } else {
        lemma_byte_len_grows(s.drop_last(), n);
        assert(s.drop_last().subrange(0, n) =~= s.subrange(0, n));
    }
}

/// What takes more bytes than fit has the longest front that fits: up to the first
/// character that ends too late.
proof fn lemma_front_within(s: Seq<char>, n: int, i: int)
    requires
        0 <= i < s.len(),
        byte_len(s.subrange(0, i)) <= n,
        byte_len(s.subrange(0, i + 1)) > n,
    ensures
        front_within(s, n) == s.subrange(0, i),
    decreases s.len(),
{
    lemma_byte_len_grows(s, i + 1);
    if i == s.len() - 1 {
        assert(s.subrange(0, i + 1) =~= s);
        assert(s.drop_last() =~= s.subrange(0, i));
        assert(front_within(s.subrange(0, i), n) == s.subrange(0, i));
    } else {
        let t = s.drop_last();
        assert(t.subrange(0, i) =~= s.subrange(0, i));
        assert(t.subrange(0, i + 1) =~= s.subrange(0, i + 1));
        lemma_front_within(t, n, i);
    }
}

/// The longest front of a text that takes at most `limit` bytes.
pub fn take_within(s: &str, limit: usize) -> (r: String)
    ensures
        r@ == front_within(s@, limit as int),
{
    let v = chars(s);
    let mut left: usize = limit;
    let mut i: usize = 0;
    assert(s@.subrange(0, 0) =~= Seq::<char>::empty());
    while i < v.len()
        invariant
            v@ == s@,
            i <= v@.len(),
            left <= limit,
            byte_len(s@.subrange(0, i as int)) == limit - left,
        decreases v@.len() - i,
    {
        let c = v[i];
        let w: usize = if c <= '\u{7f}' {
            1
        } else if c <= '\u{7ff}' {
            2
        } else if c <= '\u{ffff}' {
            3
        } else {
            4
        };
        assert(s@.subrange(0, i + 1).drop_last() =~= s@.subrange(0, i as int));
        if w > left {
            proof {
                lemma_front_within(s@, limit as int, i as int);
            }
            return text_of(&v, 0, i);
        }
        left -= w;
        i += 1;
    }
    assert(s@.subrange(0, i as int) =~= s@);
    s.to_string()
}

/// Whether a text takes at most `limit` bytes.
pub fn bytes_within(s: &str, limit: usize) -> (r: bool)
    ensures
        r == (byte_len(s@) <= limit),
{
    let v = chars(s);
    let mut left: usize = limit;
    let mut i: usize = 0;
    assert(s@.subrange(0, 0) =~= Seq::<char>::empty());
    while i < v.len()
        invariant
            v@ == s@,
            i <= v@.len(),
            left <= limit,
            byte_len(s@.subrange(0, i as int)) == limit - left,
        decreases v@.len() - i,
    {
        let c = v[i];
        let w: usize = if c <= '\u{7f}' {
            1
        } else if c <= '\u{7ff}' {
            2
        } else if c <= '\u{ffff}' {
            3
        } else {
            4
        };
        assert(s@.subrange(0, i + 1).drop_last() =~= s@.subrange(0, i as int));
        if w > left {
            proof {
                lemma_byte_len_grows(s@, i + 1);
            }
            return false;
        }
        left -= w;
        i += 1;
    }
    assert(s@.subrange(0, i as int) =~= s@);
    true
}

/// The position of the last `c`.
pub fn rfind(s: &str, c: char) -> (r: Option<usize>)
    ensures
        match r {
            Some(i) => last_pos(s@, c) == Some(i as int) && i < s@.len(),
            None => last_pos(s@, c) is None,
        },
{
    let v = chars(s);
    let mut n: usize = v.len();
    assert(s@.subrange(0, n as int) =~= s@);
    while n > 0
        invariant
            v@ == s@,
            n <= v@.len(),
            last_pos(s@.subrange(0, n as int), c) == last_pos(s@, c),
        decreases n,
    {
        if v[n - 1] == c {
            return Some(n - 1);
        }
        assert(s@.subrange(0, n as int).drop_last() =~= s@.subrange(0, n - 1));
        n -= 1;
    }
    None
}

/// The last word of a text is the one that was put at its end, whitespace behind it or not.
pub proof fn law_last_word_before_space(front: Seq<char>, w: Seq<char>)
    requires
        front.len() > 0 ==> is_space(front.last()),
        w.len() > 0,
        forall|i: int| 0 <= i < w.len() ==> !is_space(#[trigger] w[i]),
    ensures
        last_word_of(front + w + seq![' ']) == Some(w),
{
    let s = front + w;
    assert forall|i: int| front.len() <= i < s.len() implies !is_space(s[i]) by {
        assert(s[i] == w[i - front.len()]);
    }
    lemma_last_word(s, front.len() as int);
    assert(s.subrange(front.len() as int, s.len() as int) =~= w);
    lemma_words_and_space(s);
}

proof fn lemma_words_and_space(s: Seq<char>)
    ensures
        words_of(s + seq![' ']) == words_of(s),
    decreases s.len(),
{
    let t = s + seq![' '];
    if s.len() == 0 {
        assert(t[0] == ' ');
        assert(is_space(t[0]));
        assert(t.subrange(1, t.len() as int) =~= s);
        assert(words_of(t) == words_of(t.subrange(1, t.len() as int)));
    } else if is_space(s[0]) {
        assert(t[0] == s[0]);
        lemma_words_and_space(s.subrange(1, s.len() as int));
        assert(t.subrange(1, t.len() as int) =~= s.subrange(1, s.len() as int) + seq![' ']);
    } else {
        lemma_word_len(s);
        let n = word_len(s);
        assert(t[0] == s[0]);
        assert forall|i: int| 0 <= i < n implies !is_space(t[i]) by {
            assert(t[i] == s[i]);
        }
        assert(is_space(t[n])) by {
            if n < s.len() {
                assert(t[n] == s[n]);
            }
        }
        lemma_word_len_is(t, n);
        assert(n > 0) by {
            assert(!is_space(s[0]));
        }
        let rest = s.subrange(n, s.len() as int);
        lemma_words_and_space(rest);
        assert(t.subrange(0, n) =~= s.subrange(0, n));
        assert(t.subrange(n, t.len() as int) =~= rest + seq![' ']);
    }
}

/// What is found in lines is what is found in the first of them that holds something.
pub proof fn law_first_line_counts<T>(
    front: Seq<Seq<char>>,
    line: Seq<char>,
    rest: Seq<Seq<char>>,
    f: spec_fn(Seq<char>) -> Option<T>,
)
    requires
        forall|i: int| 0 <= i < front.len() ==> f(#[trigger] front[i]) is None,
    ensures
        f(line) is Some ==> first_in(front + seq![line] + rest, f) == f(line),
        first_in(front, f) is None,
    decreases front.len(),
{
    let all = front + seq![line] + rest;
    if front.len() > 0 {
        let tail = front.subrange(1, front.len() as int);
        assert forall|i: int| 0 <= i < tail.len() implies f(#[trigger] tail[i]) is None by {
            assert(tail[i] == front[i + 1]);
        }
        law_first_line_counts(tail, line, rest, f);
        assert(all.subrange(1, all.len() as int) =~= tail + seq![line] + rest);
        assert(all[0] == front[0]);
    } else {
        assert(all[0] == line);
    }
}

/// Of a text between two of a character the text stays, where it has none at its ends.
pub proof fn law_quotes_are_taken_off(s: Seq<char>, c: char)
    requires
        s.len() > 0 ==> s[0] != c && s.last() != c,
    ensures
        strip_both(seq![c] + s + seq![c], c) == s,
        strip_both(s, c) == s,
{
    let q = seq![c] + s + seq![c];
    if s.len() > 0 {
        lemma_strip_front_is(q, c, 1);
        let t = q.subrange(1, q.len() as int);
        assert(t =~= s + seq![c]);
        assert(t[s.len() - 1] == s.last());
        lemma_strip_back_is(t, c, s.len() as int);
        assert(t.subrange(0, s.len() as int) =~= s);
        lemma_strip_front_is(s, c, 0);
        assert(s.subrange(0, s.len() as int) =~= s);
        lemma_strip_back_is(s, c, s.len() as int);
    } else {
        lemma_strip_front_is(q, c, 2);
        assert(q.subrange(2, 2) =~= s);
        assert(strip_both(q, c) =~= s);
    }
}

/// A text without space at its ends is not trimmed, with or without space around it.
pub proof fn law_spaces_are_taken_off(s: Seq<char>)
    requires
        s.len() > 0,
        !is_space(s[0]) && !is_space(s.last()),
    ensures
        trimmed(s) == s,
        trimmed(seq![' '] + s) == s,
        trimmed(seq![' ', ' '] + s) == s,
        trimmed(s + seq![' ']) == s,
{
    lemma_trim_front_is(s, 0);
    assert(s.subrange(0, s.len() as int) =~= s);
    lemma_trim_back_is(s, s.len() as int);
    let a = seq![' '] + s;
    lemma_trim_front_is(a, 1);
    assert(a.subrange(1, a.len() as int) =~= s);
    let b = seq![' ', ' '] + s;
    assert(b[0] == ' ' && b[1] == ' ' && b[2] == s[0]);
    lemma_trim_front_is(b, 2);
    assert(b.subrange(2, b.len() as int) =~= s);
    let c = s + seq![' '];
    assert(c[0] == s[0] && c[s.len() - 1] == s.last());
    lemma_trim_front_is(c, 0);
    assert(c.subrange(0, c.len() as int) =~= c);
    lemma_trim_back_is(c, s.len() as int);
    assert(c.subrange(0, s.len() as int) =~= s);
}

/// What counts as space: what Unicode calls white space, no letter, no digit and no mark.
pub proof fn law_what_is_space(c: char)
    ensures
        is_space(' ') && is_space('\t') && is_space('\n') && is_space('\r'),
        is_space('\u{b}') && is_space('\u{c}') && is_space('\u{85}') && is_space('\u{a0}'),
        is_space('\u{1680}') && is_space('\u{2000}') && is_space('\u{200a}') && is_space(
            '\u{2028}',
        ) && is_space('\u{2029}') && is_space('\u{202f}') && is_space('\u{205f}') && is_space(
            '\u{3000}',
        ),
        '!' <= c <= '~' ==> !is_space(c),
        c < '\t' ==> !is_space(c),
        '\u{3000}' < c ==> !is_space(c),
        !is_space('\u{200b}'),
{
}

/// A character takes one to four bytes.
pub proof fn law_bytes_of_characters(c: char, s: Seq<char>)
    ensures
        1 <= byte_width(c) <= 4,
        c <= '\u{7f}' <==> byte_width(c) == 1,
        '\u{7f}' < c <= '\u{7ff}' <==> byte_width(c) == 2,
        '\u{7ff}' < c <= '\u{ffff}' <==> byte_width(c) == 3,
        byte_len(s.push(c)) == byte_len(s) + byte_width(c),
        byte_len(Seq::empty()) == 0,
{
    assert(s.push(c).drop_last() =~= s);
}

/// Digits state a number, each ten times what the one behind it does; a plus before them is
/// no part of it, and nothing else states one.
pub proof fn law_digits_state_a_number(s: Seq<char>, n: u64, i: int)
    ensures
        number_in(decimal(n as nat)) == Some(n),
        number_in(seq!['+'] + decimal(n as nat)) == Some(n),
        number_in(Seq::empty()) is None,
        1 <= i < s.len() && !('0' <= s[i] <= '9') ==> number_in(s) is None,
        s.len() > 0 && !('0' <= s[0] <= '9') && s[0] != '+' ==> number_in(s) is None,
        decimal(0) == seq!['0'] && decimal(9) == seq!['9'] && decimal(10) == seq!['1', '0'],
{
    lemma_number_round_trip(n);
    lemma_decimal_reads_back(n as nat);
    let d = decimal(n as nat);
    let p = seq!['+'] + d;
    assert(p.subrange(1, p.len() as int) =~= d);
    assert(is_digit(d[0]));
    if 1 <= i < s.len() && !('0' <= s[i] <= '9') {
        let u = unsigned_part(s);
        if u == s {
            assert(!is_digit(u[i]));
        } else {
            assert(u[i - 1] == s[i]);
            assert(!is_digit(u[i - 1]));
        }
    }
    if s.len() > 0 && !('0' <= s[0] <= '9') && s[0] != '+' {
        assert(unsigned_part(s) == s);
        assert(!is_digit(s[0]));
    }
    reveal_with_fuel(decimal, 2);
    assert(decimal(10) =~= seq!['1', '0']);
}

/// The last position of a character is the one behind which it stands nowhere.
pub proof fn law_last_position(s: Seq<char>, c: char, n: int)
    ensures
        0 <= n < s.len() && s[n] == c && (forall|i: int| n < i < s.len() ==> s[i] != c) ==> last_pos(
            s,
            c,
        ) == Some(n),
        lacks(s, c) ==> last_pos(s, c) is None,
    decreases s.len(),
{
    if s.len() > 0 {
        let front = s.drop_last();
        law_last_position(front, c, n);
        if lacks(s, c) {
            assert(s[s.len() - 1] != c);
            assert forall|i: int| 0 <= i < front.len() implies #[trigger] front[i] != c by {
                assert(front[i] == s[i]);
            }
        }
        if 0 <= n < s.len() - 1 {
            assert(front[n] == s[n]);
        }
    }
}

} // verus!
