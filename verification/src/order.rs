//! Stable sorting by a key of two numbers and some texts.
use vstd::prelude::*;

use crate::text;
use crate::text::{chars, same};

verus! {

/// What a sort goes by: two numbers, then texts, each only where all before it agree.
pub struct Key {
    pub major: i64,
    pub minor: i64,
    pub texts: Vec<String>,
}

/// The model of a `Key`.
pub struct KeyV {
    pub major: int,
    pub minor: int,
    pub texts: Seq<Seq<char>>,
}

impl View for Key {
    type V = KeyV;

    open spec fn view(&self) -> KeyV {
        KeyV { major: self.major as int, minor: self.minor as int, texts: text::views(self.texts@) }
    }
}

/// `a` comes before `b`, character by character, a front part before the whole.
pub open spec fn text_less(a: Seq<char>, b: Seq<char>) -> bool
    decreases a.len(),
{
    if b.len() == 0 {
        false
    } else if a.len() == 0 {
        true
    } else if a[0] != b[0] {
        a[0] < b[0]
    } else {
        text_less(a.subrange(1, a.len() as int), b.subrange(1, b.len() as int))
    }
}

/// `a` comes before `b`, text by text, a front part before the whole.
pub open spec fn texts_less(a: Seq<Seq<char>>, b: Seq<Seq<char>>) -> bool
    decreases a.len(),
{
    if b.len() == 0 {
        false
    } else if a.len() == 0 {
        true
    } else if a[0] != b[0] {
        text_less(a[0], b[0])
    } else {
        texts_less(a.subrange(1, a.len() as int), b.subrange(1, b.len() as int))
    }
}

pub open spec fn key_less(a: KeyV, b: KeyV) -> bool {
    if a.major != b.major {
        a.major < b.major
    } else if a.minor != b.minor {
        a.minor < b.minor
    } else {
        texts_less(a.texts, b.texts)
    }
}

/// The models of a list of keys.
pub open spec fn keys_of(v: Seq<Key>) -> Seq<KeyV> {
    v.map_values(|k: Key| k@)
}

/// Position `i` belongs before position `j`: by its key, or by its place where keys agree.
pub open spec fn goes_before(keys: Seq<KeyV>, i: int, j: int) -> bool {
    key_less(keys[i], keys[j]) || (!key_less(keys[j], keys[i]) && i < j)
}

/// `order` lists every position of `keys` once, each before those that it goes before.
pub open spec fn is_stable_order(order: Seq<int>, keys: Seq<KeyV>) -> bool {
    &&& order.len() == keys.len()
    &&& forall|i: int| 0 <= i < order.len() ==> 0 <= #[trigger] order[i] < keys.len()
    &&& forall|i: int, j: int|
        0 <= i < j < order.len() ==> goes_before(keys, #[trigger] order[i], #[trigger] order[j])
}

/// `sorted` holds the items of `source` in the stable order of their keys.
pub open spec fn is_stable_sort<T>(sorted: Seq<T>, source: Seq<T>, key: spec_fn(T) -> KeyV) -> bool {
    exists|order: Seq<int>| #[trigger] is_stable_order(order, source.map_values(key)) && sorted
        == Seq::new(order.len(), |i: int| source[order[i]])
}

// ── the order of keys ───────────────────────────────────────────────────────

proof fn lemma_text_less_irreflexive(a: Seq<char>)
    ensures
        !text_less(a, a),
    decreases a.len(),
{
    if a.len() > 0 {
        lemma_text_less_irreflexive(a.subrange(1, a.len() as int));
    }
}

/// Of two different texts exactly one comes first.
pub proof fn lemma_text_less_total(a: Seq<char>, b: Seq<char>)
    ensures
        a != b ==> (text_less(a, b) <==> !text_less(b, a)),
        a == b ==> !text_less(a, b),
    decreases a.len(),
{
    lemma_text_less_irreflexive(a);
    if a.len() > 0 && b.len() > 0 && a[0] == b[0] {
        let x = a.subrange(1, a.len() as int);
        let y = b.subrange(1, b.len() as int);
        lemma_text_less_total(x, y);
        if x == y {
            assert(a == seq![a[0]] + x);
            assert(b == seq![b[0]] + y);
        }
    } else if a.len() == 0 && b.len() == 0 {
        assert(a == b);
    }
}

/// If `a` comes before `c`, every `b` has `a` before it or stands before `c`.
pub proof fn lemma_text_less_splits(a: Seq<char>, b: Seq<char>, c: Seq<char>)
    requires
        text_less(a, c),
    ensures
        text_less(a, b) || text_less(b, c),
    decreases a.len(),
{
    if a.len() > 0 && b.len() > 0 && a[0] == b[0] && b[0] == c[0] {
        lemma_text_less_splits(
            a.subrange(1, a.len() as int),
            b.subrange(1, b.len() as int),
            c.subrange(1, c.len() as int),
        );
    }
}

proof fn lemma_texts_less_total(a: Seq<Seq<char>>, b: Seq<Seq<char>>)
    ensures
        a != b ==> (texts_less(a, b) <==> !texts_less(b, a)),
        a == b ==> !texts_less(a, b),
    decreases a.len(),
{
    if a.len() > 0 && b.len() > 0 {
        if a[0] == b[0] {
            let x = a.subrange(1, a.len() as int);
            let y = b.subrange(1, b.len() as int);
            lemma_texts_less_total(x, y);
            if x == y {
                assert(a == seq![a[0]] + x);
                assert(b == seq![b[0]] + y);
            }
        } else {
            lemma_text_less_total(a[0], b[0]);
        }
    } else if a.len() == 0 && b.len() == 0 {
        assert(a == b);
    }
}

proof fn lemma_texts_less_splits(a: Seq<Seq<char>>, b: Seq<Seq<char>>, c: Seq<Seq<char>>)
    requires
        texts_less(a, c),
    ensures
        texts_less(a, b) || texts_less(b, c),
    decreases a.len(),
{
    if a.len() > 0 && b.len() > 0 {
        if a[0] == b[0] && b[0] == c[0] {
            lemma_texts_less_splits(
                a.subrange(1, a.len() as int),
                b.subrange(1, b.len() as int),
                c.subrange(1, c.len() as int),
            );
        } else if a[0] != c[0] {
            lemma_text_less_splits(a[0], b[0], c[0]);
        } else {
            lemma_text_less_total(a[0], b[0]);
        }
    }
}

/// Of two different keys exactly one comes first.
pub proof fn lemma_key_less_total(a: KeyV, b: KeyV)
    ensures
        key_less(a, b) ==> !key_less(b, a),
        a == b ==> !key_less(a, b),
        !key_less(a, b) && !key_less(b, a) ==> a == b,
{
    lemma_texts_less_total(a.texts, b.texts);
}

/// If `a` comes before `c`, every `b` has `a` before it or stands before `c`.
pub proof fn lemma_key_less_splits(a: KeyV, b: KeyV, c: KeyV)
    requires
        key_less(a, c),
    ensures
        key_less(a, b) || key_less(b, c),
{
    if a.major == c.major && a.minor == c.minor && a.major == b.major && a.minor == b.minor {
        lemma_texts_less_splits(a.texts, b.texts, c.texts);
    }
}

proof fn lemma_goes_before_transitive(keys: Seq<KeyV>, i: int, j: int, k: int)
    requires
        goes_before(keys, i, j),
        goes_before(keys, j, k),
    ensures
        goes_before(keys, i, k),
{
    lemma_key_less_total(keys[i], keys[j]);
    lemma_key_less_total(keys[j], keys[k]);
    lemma_key_less_total(keys[i], keys[k]);
    if key_less(keys[k], keys[i]) {
        lemma_key_less_splits(keys[k], keys[j], keys[i]);
    }
    if key_less(keys[i], keys[j]) {
        lemma_key_less_splits(keys[i], keys[k], keys[j]);
    }
    if key_less(keys[j], keys[k]) {
        lemma_key_less_splits(keys[j], keys[i], keys[k]);
    }
}

proof fn lemma_goes_before_total(keys: Seq<KeyV>, i: int, j: int)
    requires
        i != j,
    ensures
        goes_before(keys, i, j) <==> !goes_before(keys, j, i),
{
    lemma_key_less_total(keys[i], keys[j]);
    lemma_key_less_total(keys[j], keys[i]);
}

/// A stable order lists no position twice.
pub proof fn lemma_stable_order_distinct(order: Seq<int>, keys: Seq<KeyV>)
    requires
        is_stable_order(order, keys),
    ensures
        order.no_duplicates(),
{
    assert forall|i: int, j: int| 0 <= i < order.len() && 0 <= j < order.len() && i != j implies order[i]
        != order[j] by {
        if i < j {
            assert(goes_before(keys, order[i], order[j]));
        } else {
            assert(goes_before(keys, order[j], order[i]));
        }
        lemma_key_less_total(keys[order[i]], keys[order[i]]);
    }
}

/// A stable order lists every position.
pub proof fn lemma_stable_order_complete(order: Seq<int>, keys: Seq<KeyV>, p: int)
    requires
        is_stable_order(order, keys),
        0 <= p < keys.len(),
    ensures
        order.contains(p),
{
    lemma_stable_order_distinct(order, keys);
    let all = vstd::set_lib::set_int_range(0, keys.len() as int);
    vstd::set_lib::lemma_int_range(0, keys.len() as int);
    order.unique_seq_to_set();
    assert(order.to_set().subset_of(all)) by {
        assert forall|x: int| order.to_set().contains(x) implies all.contains(x) by {
            let i = choose|i: int| 0 <= i < order.len() && order[i] == x;
            assert(0 <= order[i] < keys.len());
        }
    }
    vstd::set_lib::lemma_subset_equality(order.to_set(), all);
    assert(order.to_set().contains(p));
}

/// Keys have only one stable order.
pub proof fn law_stable_order_is_unique(a: Seq<int>, b: Seq<int>, keys: Seq<KeyV>)
    requires
        is_stable_order(a, keys),
        is_stable_order(b, keys),
    ensures
        a == b,
{
    assert forall|i: int| 0 <= i < a.len() implies a[i] == b[i] by {
        lemma_same_at(a, b, keys, i);
    }
}

proof fn lemma_same_at(a: Seq<int>, b: Seq<int>, keys: Seq<KeyV>, n: int)
    requires
        is_stable_order(a, keys),
        is_stable_order(b, keys),
        0 <= n < a.len(),
    ensures
        a[n] == b[n],
    decreases n,
{
    assert forall|m: int| 0 <= m < n implies a[m] == b[m] by {
        lemma_same_at(a, b, keys, m);
    }
    if a[n] != b[n] {
        lemma_stable_order_distinct(a, keys);
        lemma_stable_order_distinct(b, keys);
        lemma_stable_order_complete(a, keys, b[n]);
        lemma_stable_order_complete(b, keys, a[n]);
        let i = choose|i: int| 0 <= i < a.len() && a[i] == b[n];
        let j = choose|j: int| 0 <= j < b.len() && b[j] == a[n];
        assert(i > n) by {
            if i < n {
                assert(b[i] == a[i]);
            }
        }
        assert(j > n) by {
            if j < n {
                assert(a[j] == b[j]);
            }
        }
        assert(goes_before(keys, a[n], a[i]));
        assert(goes_before(keys, b[n], b[j]));
        lemma_goes_before_total(keys, a[n], b[n]);
    }
}

/// Sorting keeps the items: a stable sort holds what its source holds.
pub proof fn law_stable_sort_keeps_items<T>(sorted: Seq<T>, source: Seq<T>, key: spec_fn(T) -> KeyV)
    requires
        is_stable_sort(sorted, source, key),
    ensures
        sorted.len() == source.len(),
        forall|x: T| sorted.contains(x) <==> source.contains(x),
{
    let keys = source.map_values(key);
    let order = choose|order: Seq<int>|
        #[trigger] is_stable_order(order, keys) && sorted == Seq::new(
            order.len(),
            |i: int| source[order[i]],
        );
    assert forall|x: T| sorted.contains(x) <==> source.contains(x) by {
        if sorted.contains(x) {
            let i = choose|i: int| 0 <= i < sorted.len() && sorted[i] == x;
            assert(0 <= order[i] < keys.len());
            assert(source[order[i]] == x);
        }
        if source.contains(x) {
            let p = choose|p: int| 0 <= p < source.len() && source[p] == x;
            lemma_stable_order_complete(order, keys, p);
            let i = choose|i: int| 0 <= i < order.len() && order[i] == p;
            assert(sorted[i] == x);
        }
    }
}

/// A stable sort of different items holds different items.
pub proof fn lemma_stable_sort_distinct<T>(sorted: Seq<T>, source: Seq<T>, key: spec_fn(T) -> KeyV)
    requires
        is_stable_sort(sorted, source, key),
        source.no_duplicates(),
    ensures
        sorted.no_duplicates(),
{
    let keys = source.map_values(key);
    let order = choose|order: Seq<int>|
        #[trigger] is_stable_order(order, keys) && sorted == Seq::new(
            order.len(),
            |i: int| source[order[i]],
        );
    lemma_stable_order_distinct(order, keys);
    assert forall|i: int, j: int| 0 <= i < sorted.len() && 0 <= j < sorted.len() && i != j implies sorted[i]
        != sorted[j] by {
        assert(order[i] != order[j]);
        assert(0 <= order[i] < keys.len() && 0 <= order[j] < keys.len());
    }
}

/// No item of a stable sort has a greater key than one behind it.
pub proof fn law_stable_sort_is_sorted<T>(sorted: Seq<T>, source: Seq<T>, key: spec_fn(T) -> KeyV)
    requires
        is_stable_sort(sorted, source, key),
    ensures
        forall|i: int, j: int|
            0 <= i < j < sorted.len() ==> !key_less(
                key(#[trigger] sorted[j]),
                key(#[trigger] sorted[i]),
            ),
{
    let keys = source.map_values(key);
    let order = choose|order: Seq<int>|
        #[trigger] is_stable_order(order, keys) && sorted == Seq::new(
            order.len(),
            |i: int| source[order[i]],
        );
    assert forall|i: int, j: int| 0 <= i < j < sorted.len() implies !key_less(
        key(#[trigger] sorted[j]),
        key(#[trigger] sorted[i]),
    ) by {
        assert(goes_before(keys, order[i], order[j]));
        assert(0 <= order[i] < keys.len() && 0 <= order[j] < keys.len());
        lemma_key_less_total(keys[order[i]], keys[order[j]]);
    }
}

// ── executable functions ────────────────────────────────────────────────────

/// Whether `a` comes before `b`.
pub fn text_before(a: &str, b: &str) -> (r: bool)
    ensures
        r == text_less(a@, b@),
{
    let v = chars(a);
    let w = chars(b);
    let mut i: usize = 0;
    assert(v@.subrange(0, v@.len() as int) == v@);
    assert(w@.subrange(0, w@.len() as int) == w@);
    loop
        invariant
            v@ == a@,
            w@ == b@,
            i <= v@.len(),
            i <= w@.len(),
            text_less(v@.subrange(i as int, v@.len() as int), w@.subrange(i as int, w@.len() as int))
                == text_less(a@, b@),
        decreases v@.len() - i,
    {
        let ghost x = v@.subrange(i as int, v@.len() as int);
        let ghost y = w@.subrange(i as int, w@.len() as int);
        if i == w.len() {
            return false;
        }
        if i == v.len() {
            return true;
        }
        assert(x[0] == v@[i as int] && y[0] == w@[i as int]);
        if v[i] != w[i] {
            return v[i] < w[i];
        }
        assert(x.subrange(1, x.len() as int) == v@.subrange(i + 1, v@.len() as int));
        assert(y.subrange(1, y.len() as int) == w@.subrange(i + 1, w@.len() as int));
        i += 1;
    }
}

fn texts_before(a: &Vec<String>, b: &Vec<String>) -> (r: bool)
    ensures
        r == texts_less(text::views(a@), text::views(b@)),
{
    let ghost v = text::views(a@);
    let ghost w = text::views(b@);
    let mut i: usize = 0;
    assert(v.subrange(0, v.len() as int) == v);
    assert(w.subrange(0, w.len() as int) == w);
    loop
        invariant
            v == text::views(a@),
            w == text::views(b@),
            i <= v.len(),
            i <= w.len(),
            texts_less(v.subrange(i as int, v.len() as int), w.subrange(i as int, w.len() as int))
                == texts_less(v, w),
        decreases v.len() - i,
    {
        let ghost x = v.subrange(i as int, v.len() as int);
        let ghost y = w.subrange(i as int, w.len() as int);
        if i == b.len() {
            return false;
        }
        if i == a.len() {
            return true;
        }
        assert(x[0] == a@[i as int]@ && y[0] == b@[i as int]@);
        if !same(a[i].as_str(), b[i].as_str()) {
            return text_before(a[i].as_str(), b[i].as_str());
        }
        assert(x.subrange(1, x.len() as int) == v.subrange(i + 1, v.len() as int));
        assert(y.subrange(1, y.len() as int) == w.subrange(i + 1, w.len() as int));
        i += 1;
    }
}

pub fn key_before(a: &Key, b: &Key) -> (r: bool)
    ensures
        r == key_less(a@, b@),
{
    if a.major != b.major {
        a.major < b.major
    } else if a.minor != b.minor {
        a.minor < b.minor
    } else {
        texts_before(&a.texts, &b.texts)
    }
}

/// The positions that a stable order lists, as mathematical integers.
pub open spec fn positions(v: Seq<usize>) -> Seq<int> {
    v.map_values(|i: usize| i as int)
}

/// The stable order of keys.
pub fn stable_order(keys: &Vec<Key>) -> (r: Vec<usize>)
    ensures
        is_stable_order(positions(r@), keys_of(keys@)),
{
    let mut r: Vec<usize> = Vec::new();
    let ghost k = keys_of(keys@);
    let mut i: usize = 0;
    while i < keys.len()
        invariant
            k == keys_of(keys@),
            i <= keys@.len(),
            r@.len() == i,
            forall|a: int| 0 <= a < r@.len() ==> 0 <= #[trigger] r@[a] < i,
            forall|a: int, b: int|
                0 <= a < b < r@.len() ==> goes_before(k, #[trigger] r@[a] as int, #[trigger] r@[b] as int),
        decreases keys@.len() - i,
    {
        let mut at: usize = r.len();
        while at > 0 && key_before(&keys[i], &keys[r[at - 1]])
            invariant
                k == keys_of(keys@),
                at <= r@.len(),
                i < keys@.len(),
                r@.len() == i,
                forall|a: int| 0 <= a < r@.len() ==> 0 <= #[trigger] r@[a] < i,
                forall|a: int| at <= a < r@.len() ==> key_less(k[i as int], k[#[trigger] r@[a] as int]),
            decreases at,
        {
            at -= 1;
        }
        let ghost r0 = r@;
        proof {
            if at > 0 {
                assert(!key_less(k[i as int], k[r0[at - 1] as int]));
                assert(goes_before(k, r0[at - 1] as int, i as int));
            }
            assert forall|a: int| 0 <= a < at implies goes_before(k, #[trigger] r0[a] as int, i as int) by {
                if a < at - 1 {
                    assert(goes_before(k, r0[a] as int, r0[at - 1] as int));
                    lemma_goes_before_transitive(k, r0[a] as int, r0[at - 1] as int, i as int);
                }
            }
        }
        r.insert(at, i);
        proof {
            assert forall|a: int, b: int| 0 <= a < b < r@.len() implies goes_before(
                k,
                #[trigger] r@[a] as int,
                #[trigger] r@[b] as int,
            ) by {
                let x = if a < at { a } else { a - 1 };
                let y = if b < at { b } else { b - 1 };
                if a == at {
                    assert(r@[b] == r0[y]);
                    assert(key_less(k[i as int], k[r0[y] as int]));
                } else if b == at {
                    assert(r@[a] == r0[x]);
                } else {
                    assert(r@[a] == r0[x] && r@[b] == r0[y]);
                    assert(goes_before(k, r0[x] as int, r0[y] as int));
                }
            }
            assert forall|a: int| 0 <= a < r@.len() implies 0 <= #[trigger] r@[a] < i + 1 by {
                if a < at {
                    assert(r@[a] == r0[a]);
                } else if a > at {
                    assert(r@[a] == r0[a - 1]);
                }
            }
        }
        i += 1;
    }
    proof {
        let o = positions(r@);
        assert forall|a: int, b: int| 0 <= a < b < o.len() implies goes_before(
            k,
            #[trigger] o[a],
            #[trigger] o[b],
        ) by {
            assert(goes_before(k, r@[a] as int, r@[b] as int));
        }
    }
    r
}

// ── texts ───────────────────────────────────────────────────────────────────

pub open spec fn text_key(t: Seq<char>) -> KeyV {
    KeyV { major: 0, minor: 0, texts: seq![t] }
}

/// The texts in order.
pub open spec fn sorted_texts(s: Seq<Seq<char>>) -> Seq<Seq<char>> {
    choose|r: Seq<Seq<char>>| is_text_sort(r, s)
}

pub open spec fn is_text_sort(r: Seq<Seq<char>>, s: Seq<Seq<char>>) -> bool {
    is_stable_sort(r, s, |t: Seq<char>| text_key(t))
}

/// A source has only one stable sort.
pub proof fn law_stable_sort_is_unique<T>(
    a: Seq<T>,
    b: Seq<T>,
    source: Seq<T>,
    key: spec_fn(T) -> KeyV,
)
    requires
        is_stable_sort(a, source, key),
        is_stable_sort(b, source, key),
    ensures
        a == b,
{
    let keys = source.map_values(key);
    let x = choose|order: Seq<int>|
        #[trigger] is_stable_order(order, keys) && a == Seq::new(
            order.len(),
            |i: int| source[order[i]],
        );
    let y = choose|order: Seq<int>|
        #[trigger] is_stable_order(order, keys) && b == Seq::new(
            order.len(),
            |i: int| source[order[i]],
        );
    law_stable_order_is_unique(x, y, keys);
}

/// Where the last position of `keys` belongs among the first `k` of an order of the others.
proof fn lemma_place(order: Seq<int>, keys: Seq<KeyV>, k: int) -> (p: int)
    requires
        keys.len() > 0,
        is_stable_order(order, keys.drop_last()),
        0 <= k <= order.len(),
        forall|i: int|
            k <= i < order.len() ==> goes_before(keys, keys.len() - 1, #[trigger] order[i]),
    ensures
        0 <= p <= order.len(),
        forall|i: int| 0 <= i < p ==> goes_before(keys, #[trigger] order[i], keys.len() - 1),
        forall|i: int|
            p <= i < order.len() ==> goes_before(keys, keys.len() - 1, #[trigger] order[i]),
    decreases k,
{
    let n = keys.len() - 1;
    if k == 0 {
        0
    } else {
        let last = order[k - 1];
        assert(0 <= last < n);
        lemma_goes_before_total(keys, last, n);
        if goes_before(keys, last, n) {
            assert forall|i: int| 0 <= i < k implies goes_before(keys, #[trigger] order[i], n) by {
                if i < k - 1 {
                    assert(goes_before(keys.drop_last(), order[i], last));
                    assert(0 <= order[i] < n);
                    lemma_goes_before_transitive(keys, order[i], last, n);
                }
            }
            k
        } else {
            lemma_place(order, keys, k - 1)
        }
    }
}

proof fn lemma_stable_order_exists(keys: Seq<KeyV>) -> (order: Seq<int>)
    ensures
        is_stable_order(order, keys),
    decreases keys.len(),
{
    if keys.len() == 0 {
        Seq::empty()
    } else {
        let n = keys.len() - 1;
        let front = lemma_stable_order_exists(keys.drop_last());
        let p = lemma_place(front, keys, front.len() as int);
        let order = front.insert(p, n);
        assert forall|i: int| 0 <= i < order.len() implies 0 <= #[trigger] order[i] < keys.len() by {
            if i < p {
                assert(order[i] == front[i]);
            } else if i > p {
                assert(order[i] == front[i - 1]);
            }
        }
        assert forall|i: int, j: int| 0 <= i < j < order.len() implies goes_before(
            keys,
            #[trigger] order[i],
            #[trigger] order[j],
        ) by {
            let x = if i < p {
                i
            } else {
                i - 1
            };
            let y = if j < p {
                j
            } else {
                j - 1
            };
            if i != p && j != p {
                assert(order[i] == front[x] && order[j] == front[y]);
                assert(0 <= front[x] < n && 0 <= front[y] < n);
                assert(goes_before(keys.drop_last(), front[x], front[y]));
            } else if i == p {
                assert(order[j] == front[y]);
            } else {
                assert(order[i] == front[x]);
            }
        }
        order
    }
}

/// Every source has a stable sort.
pub proof fn law_stable_sort_exists<T>(source: Seq<T>, key: spec_fn(T) -> KeyV)
    ensures
        exists|sorted: Seq<T>| is_stable_sort(sorted, source, key),
{
    let order = lemma_stable_order_exists(source.map_values(key));
    let sorted = Seq::new(order.len(), |i: int| source[order[i]]);
    assert(is_stable_sort(sorted, source, key));
}

/// No two items have the same key.
pub open spec fn distinct_keys<T>(items: Seq<T>, key: spec_fn(T) -> KeyV) -> bool {
    forall|i: int, j: int|
        0 <= i < j < items.len() ==> key(#[trigger] items[i]) != key(#[trigger] items[j])
}

/// Each item comes before those behind it.
spec fn is_ascending<T>(items: Seq<T>, key: spec_fn(T) -> KeyV) -> bool {
    forall|i: int, j: int|
        0 <= i < j < items.len() ==> key_less(key(#[trigger] items[i]), key(#[trigger] items[j]))
}

proof fn lemma_sort_ascends<T>(sorted: Seq<T>, source: Seq<T>, key: spec_fn(T) -> KeyV)
    requires
        is_stable_sort(sorted, source, key),
        distinct_keys(source, key),
    ensures
        is_ascending(sorted, key),
{
    let keys = source.map_values(key);
    let order = choose|order: Seq<int>|
        #[trigger] is_stable_order(order, keys) && sorted == Seq::new(
            order.len(),
            |i: int| source[order[i]],
        );
    lemma_stable_order_distinct(order, keys);
    law_stable_sort_is_sorted(sorted, source, key);
    assert forall|i: int, j: int| 0 <= i < j < sorted.len() implies key_less(
        key(#[trigger] sorted[i]),
        key(#[trigger] sorted[j]),
    ) by {
        let (x, y) = (order[i], order[j]);
        assert(0 <= x < source.len() && 0 <= y < source.len() && x != y);
        assert(sorted[i] == source[x] && sorted[j] == source[y]);
        assert(key(source[x]) != key(source[y])) by {
            if x < y {
                assert(key(source[x]) != key(source[y]));
            } else {
                assert(key(source[y]) != key(source[x]));
            }
        }
        lemma_key_less_total(key(sorted[i]), key(sorted[j]));
    }
}

proof fn lemma_ascending_equal<T>(a: Seq<T>, b: Seq<T>, key: spec_fn(T) -> KeyV)
    requires
        is_ascending(a, key),
        is_ascending(b, key),
        forall|x: T| a.contains(x) <==> b.contains(x),
    ensures
        a == b,
    decreases a.len(),
{
    if a.len() == 0 {
        if b.len() > 0 {
            assert(b.contains(b[0]));
        }
        assert(a =~= b);
    } else {
        assert(a.contains(a[0]));
        assert(b.len() > 0);
        let (x, y) = (a.last(), b.last());
        assert(a.contains(x) && b.contains(y));
        let i = choose|i: int| 0 <= i < b.len() && b[i] == x;
        let j = choose|j: int| 0 <= j < a.len() && a[j] == y;
        assert(x == y) by {
            if x != y {
                assert(key_less(key(b[i]), key(b[b.len() - 1])));
                assert(key_less(key(a[j]), key(a[a.len() - 1])));
                lemma_key_less_total(key(x), key(y));
            }
        }
        let (c, d) = (a.drop_last(), b.drop_last());
        assert forall|z: T| c.contains(z) <==> d.contains(z) by {
            if c.contains(z) {
                let k = choose|k: int| 0 <= k < c.len() && c[k] == z;
                assert(a[k] == z && key_less(key(a[k]), key(a[a.len() - 1])));
                lemma_key_less_total(key(z), key(x));
                assert(a.contains(z));
                let m = choose|m: int| 0 <= m < b.len() && b[m] == z;
                assert(d[m] == z);
            }
            if d.contains(z) {
                let k = choose|k: int| 0 <= k < d.len() && d[k] == z;
                assert(b[k] == z && key_less(key(b[k]), key(b[b.len() - 1])));
                lemma_key_less_total(key(z), key(y));
                assert(b.contains(z));
                let m = choose|m: int| 0 <= m < a.len() && a[m] == z;
                assert(c[m] == z);
            }
        }
        assert forall|k: int, m: int| 0 <= k < m < c.len() implies key_less(
            key(#[trigger] c[k]),
            key(#[trigger] c[m]),
        ) by {
            assert(key_less(key(a[k]), key(a[m])));
        }
        assert forall|k: int, m: int| 0 <= k < m < d.len() implies key_less(
            key(#[trigger] d[k]),
            key(#[trigger] d[m]),
        ) by {
            assert(key_less(key(b[k]), key(b[m])));
        }
        lemma_ascending_equal(c, d, key);
        assert(a =~= c.push(x));
        assert(b =~= d.push(y));
    }
}

/// What items come to when they are sorted does not depend on the order in which they were
/// found, where no two have the same key.
pub proof fn law_sort_does_not_depend_on_order<T>(
    a: Seq<T>,
    b: Seq<T>,
    source_a: Seq<T>,
    source_b: Seq<T>,
    key: spec_fn(T) -> KeyV,
)
    requires
        is_stable_sort(a, source_a, key),
        is_stable_sort(b, source_b, key),
        distinct_keys(source_a, key),
        distinct_keys(source_b, key),
        forall|x: T| source_a.contains(x) <==> source_b.contains(x),
    ensures
        a == b,
{
    law_stable_sort_keeps_items(a, source_a, key);
    law_stable_sort_keeps_items(b, source_b, key);
    lemma_sort_ascends(a, source_a, key);
    lemma_sort_ascends(b, source_b, key);
    assert forall|x: T| a.contains(x) <==> b.contains(x) by {
        assert(source_a.contains(x) <==> source_b.contains(x));
    }
    lemma_ascending_equal(a, b, key);
}

/// Sorts texts.
pub fn sort_texts(v: &Vec<String>) -> (r: Vec<String>)
    ensures
        text::views(r@) == sorted_texts(text::views(v@)),
        is_text_sort(text::views(r@), text::views(v@)),
{
    let ghost key = |t: Seq<char>| text_key(t);
    let ghost source = text::views(v@);
    let mut keys: Vec<Key> = Vec::new();
    let mut i: usize = 0;
    while i < v.len()
        invariant
            i <= v@.len(),
            keys@.len() == i,
            forall|k: int| 0 <= k < i ==> (#[trigger] keys@[k])@ == text_key(v@[k]@),
        decreases v@.len() - i,
    {
        let mut texts: Vec<String> = Vec::new();
        texts.push(v[i].clone());
        assert(text::views(texts@) =~= seq![v@[i as int]@]);
        keys.push(Key { major: 0, minor: 0, texts });
        i += 1;
    }
    let order = stable_order(&keys);
    let ghost o = positions(order@);
    assert(keys_of(keys@) =~= source.map_values(key));
    let mut r: Vec<String> = Vec::new();
    let mut j: usize = 0;
    while j < order.len()
        invariant
            j <= order@.len(),
            o == positions(order@),
            source == text::views(v@),
            is_stable_order(o, source.map_values(key)),
            r@.len() == j,
            forall|k: int| 0 <= k < j ==> #[trigger] r@[k] == v@[o[k]],
        decreases order@.len() - j,
    {
        assert(0 <= o[j as int] < source.map_values(key).len());
        r.push(v[order[j]].clone());
        j += 1;
    }
    proof {
        let out = text::views(r@);
        assert forall|k: int| 0 <= k < out.len() implies out[k] == source[o[k]] by {
            assert(0 <= o[k] < source.map_values(key).len());
        }
        assert(out =~= Seq::new(o.len(), |k: int| source[o[k]]));
        assert(is_stable_sort(out, source, key));
        assert(is_text_sort(out, source));
        let s = sorted_texts(source);
        assert(is_text_sort(s, source));
        law_stable_sort_is_unique(out, s, source, key);
    }
    r
}

// ── laws ────────────────────────────────────────────────────────────────────

/// Of two texts that agree at the front, the one with the smaller next character comes
/// first, and the one that ends there before any that goes on.
pub proof fn law_texts_go_by_the_first_difference(
    front: Seq<char>,
    x: char,
    y: char,
    a: Seq<char>,
    b: Seq<char>,
)
    ensures
        x < y ==> text_less(front + seq![x] + a, front + seq![y] + b),
        x > y ==> !text_less(front + seq![x] + a, front + seq![y] + b),
        text_less(front, front + seq![x] + a),
        !text_less(front + seq![x] + a, front),
    decreases front.len(),
{
    let (s, t) = (front + seq![x] + a, front + seq![y] + b);
    if front.len() > 0 {
        let rest = front.subrange(1, front.len() as int);
        law_texts_go_by_the_first_difference(rest, x, y, a, b);
        assert(s.subrange(1, s.len() as int) =~= rest + seq![x] + a);
        assert(t.subrange(1, t.len() as int) =~= rest + seq![y] + b);
        assert(s[0] == front[0] && t[0] == front[0]);
    } else {
        assert(s[0] == x && t[0] == y);
    }
}

/// A key goes by its major number, then by its minor one, then by its texts in order.
pub proof fn law_keys_go_by_rank(a: KeyV, b: KeyV, n: int)
    ensures
        a.major < b.major ==> key_less(a, b) && !key_less(b, a),
        a.major == b.major && a.minor < b.minor ==> key_less(a, b) && !key_less(b, a),
        a.major == b.major && a.minor == b.minor && 0 <= n < a.texts.len() && n < b.texts.len()
            && a.texts.subrange(0, n) == b.texts.subrange(0, n) && text_less(a.texts[n], b.texts[n])
            ==> key_less(a, b) && !key_less(b, a),
{
    if 0 <= n < a.texts.len() && n < b.texts.len() && a.texts.subrange(0, n) == b.texts.subrange(
        0,
        n,
    ) && text_less(a.texts[n], b.texts[n]) {
        lemma_texts_differ_at(a.texts, b.texts, n);
        lemma_text_less_total(a.texts[n], b.texts[n]);
    }
}

proof fn lemma_texts_differ_at(a: Seq<Seq<char>>, b: Seq<Seq<char>>, n: int)
    requires
        0 <= n < a.len(),
        n < b.len(),
        a.subrange(0, n) == b.subrange(0, n),
        text_less(a[n], b[n]),
    ensures
        texts_less(a, b),
        !texts_less(b, a),
    decreases n,
{
    lemma_text_less_total(a[n], b[n]);
    if n > 0 {
        let (x, y) = (a.subrange(1, a.len() as int), b.subrange(1, b.len() as int));
        assert(a.subrange(0, n)[0] == b.subrange(0, n)[0]);
        assert(x.subrange(0, n - 1) =~= y.subrange(0, n - 1)) by {
            assert forall|i: int| 0 <= i < n - 1 implies x[i] == y[i] by {
                assert(a.subrange(0, n)[i + 1] == b.subrange(0, n)[i + 1]);
            }
        }
        lemma_texts_differ_at(x, y, n - 1);
    }
}

/// Sorted texts are the texts that were there, none before one that belongs before it.
pub proof fn law_sorting_texts_keeps_them(texts: Seq<Seq<char>>, t: Seq<char>)
    ensures
        sorted_texts(texts).len() == texts.len(),
        sorted_texts(texts).contains(t) <==> texts.contains(t),
        forall|i: int, j: int|
            0 <= i < j < texts.len() ==> !text_less(
                #[trigger] sorted_texts(texts)[j],
                #[trigger] sorted_texts(texts)[i],
            ),
{
    let key = |t: Seq<char>| text_key(t);
    law_stable_sort_exists(texts, key);
    let some = choose|r: Seq<Seq<char>>| is_stable_sort(r, texts, key);
    assert(is_text_sort(some, texts));
    let r = sorted_texts(texts);
    assert(is_text_sort(r, texts));
    law_stable_sort_keeps_items(r, texts, key);
    law_stable_sort_is_sorted(r, texts, key);
    assert forall|i: int, j: int| 0 <= i < j < texts.len() implies !text_less(
        #[trigger] r[j],
        #[trigger] r[i],
    ) by {
        assert(!key_less(key(r[j]), key(r[i])));
        if text_less(r[j], r[i]) {
            law_keys_go_by_rank(text_key(r[j]), text_key(r[i]), 0);
            assert(text_key(r[j]).texts.subrange(0, 0) =~= text_key(r[i]).texts.subrange(0, 0));
        }
    }
}

} // verus!
