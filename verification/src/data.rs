//! Structured data: JSON and TOML documents.
//!
//! The parsers are those of `serde_json` and `toml`; a parsed document is turned into a
//! tree of the library's own, which all logic reads.
use vstd::prelude::*;

use crate::text;

verus! {

/// A document, or a part of one.
#[derive(Debug)]
pub enum Data {
    Null,
    Bool(bool),
    /// A number, as far as it is a whole one of 64 bits without a sign.
    Number(Option<u64>),
    Text(String),
    List(Vec<Data>),
    Fields(Vec<(String, Data)>),
    /// Something that no logic reads.
    Other,
}

/// The model of a `Data`.
pub enum DataV {
    Null,
    Bool(bool),
    Number(Option<u64>),
    Text(Seq<char>),
    List(Seq<DataV>),
    Fields(Seq<(Seq<char>, DataV)>),
    Other,
}

pub open spec fn tree_of(d: Data) -> DataV
    decreases d,
{
    match d {
        Data::Null => DataV::Null,
        Data::Bool(b) => DataV::Bool(b),
        Data::Number(n) => DataV::Number(n),
        Data::Text(s) => DataV::Text(s@),
        Data::List(v) => DataV::List(
            Seq::new(
                v@.len(),
                |i: int|
                    if 0 <= i < v@.len() {
                        tree_of(v@[i])
                    } else {
                        DataV::Null
                    },
            ),
        ),
        Data::Fields(v) => DataV::Fields(
            Seq::new(
                v@.len(),
                |i: int|
                    if 0 <= i < v@.len() {
                        (v@[i].0@, tree_of(v@[i].1))
                    } else {
                        (Seq::empty(), DataV::Null)
                    },
            ),
        ),
        Data::Other => DataV::Other,
    }
}

impl View for Data {
    type V = DataV;

    open spec fn view(&self) -> DataV {
        tree_of(*self)
    }
}

pub open spec fn opt_tree(d: Option<Data>) -> Option<DataV> {
    match d {
        Some(d) => Some(d@),
        None => None,
    }
}

pub open spec fn opt_ref_tree(d: Option<&Data>) -> Option<DataV> {
    match d {
        Some(d) => Some(d@),
        None => None,
    }
}

/// The value of the first field named `key`, from position `i` on.
pub open spec fn field_from(fields: Seq<(Seq<char>, DataV)>, key: Seq<char>, i: int) -> Option<DataV>
    decreases fields.len() - i,
{
    if i < 0 || i >= fields.len() {
        None
    } else if fields[i].0 == key {
        Some(fields[i].1)
    } else {
        field_from(fields, key, i + 1)
    }
}

impl DataV {
    /// The field named `key`, if there is one.
    pub open spec fn field(self, key: Seq<char>) -> Option<DataV> {
        match self {
            DataV::Fields(f) => field_from(f, key, 0),
            _ => None,
        }
    }

    pub open spec fn as_text(self) -> Option<Seq<char>> {
        match self {
            DataV::Text(s) => Some(s),
            _ => None,
        }
    }

    pub open spec fn as_list(self) -> Option<Seq<DataV>> {
        match self {
            DataV::List(v) => Some(v),
            _ => None,
        }
    }

    pub open spec fn as_number(self) -> Option<u64> {
        match self {
            DataV::Number(n) => n,
            _ => None,
        }
    }

    pub open spec fn as_bool(self) -> Option<bool> {
        match self {
            DataV::Bool(b) => Some(b),
            _ => None,
        }
    }

    /// The text in the field named `key`.
    pub open spec fn text_at(self, key: Seq<char>) -> Option<Seq<char>> {
        match self.field(key) {
            Some(d) => d.as_text(),
            None => None,
        }
    }

    /// The text in the field named `key`, or `other`.
    pub open spec fn text_or(self, key: Seq<char>, other: Seq<char>) -> Seq<char> {
        match self.text_at(key) {
            Some(s) => s,
            None => other,
        }
    }

    pub open spec fn number_at(self, key: Seq<char>) -> Option<u64> {
        match self.field(key) {
            Some(d) => d.as_number(),
            None => None,
        }
    }

    /// The number in the field named `key`, or `other`.
    pub open spec fn number_or(self, key: Seq<char>, other: u64) -> u64 {
        match self.number_at(key) {
            Some(n) => n,
            None => other,
        }
    }

    pub open spec fn list_at(self, key: Seq<char>) -> Option<Seq<DataV>> {
        match self.field(key) {
            Some(d) => d.as_list(),
            None => None,
        }
    }
}

/// The trees of a list of documents.
pub open spec fn trees(v: Seq<Data>) -> Seq<DataV> {
    v.map_values(|d: Data| d@)
}

/// The names and trees of a list of fields.
pub open spec fn field_trees(v: Seq<(String, Data)>) -> Seq<(Seq<char>, DataV)> {
    v.map_values(|f: (String, Data)| (f.0@, f.1@))
}

pub open spec fn texts_from(v: Seq<DataV>) -> Seq<Seq<char>>
    decreases v.len(),
{
    if v.len() == 0 {
        Seq::empty()
    } else {
        match v.last() {
            DataV::Text(s) => texts_from(v.drop_last()).push(s),
            _ => texts_from(v.drop_last()),
        }
    }
}

impl Data {
    /// The field named `key`, if there is one.
    pub fn get(&self, key: &str) -> (r: Option<&Data>)
        ensures
            opt_ref_tree(r) == self@.field(key@),
    {
        match self {
            Data::Fields(v) => {
                let ghost f = self@->Fields_0;
                assert(f =~= field_trees(v@));
                let mut i: usize = 0;
                while i < v.len()
                    invariant
                        i <= v@.len(),
                        f == field_trees(v@),
                        self@ == DataV::Fields(f),
                        field_from(f, key@, i as int) == field_from(f, key@, 0),
                    decreases v@.len() - i,
                {
                    if text::same(v[i].0.as_str(), key) {
                        return Some(&v[i].1);
                    }
                    i += 1;
                }
                None
            },
            _ => None,
        }
    }

    pub fn as_str(&self) -> (r: Option<&str>)
        ensures
            match r {
                Some(s) => self@.as_text() == Some(s@),
                None => self@.as_text() is None,
            },
    {
        match self {
            Data::Text(s) => Some(s.as_str()),
            _ => None,
        }
    }

    pub fn as_array(&self) -> (r: Option<&Vec<Data>>)
        ensures
            match r {
                Some(v) => self@.as_list() == Some(trees(v@)),
                None => self@.as_list() is None,
            },
    {
        match self {
            Data::List(v) => {
                assert(self@->List_0 =~= trees(v@));
                Some(v)
            },
            _ => None,
        }
    }

    pub fn as_object(&self) -> (r: Option<&Vec<(String, Data)>>)
        ensures
            match r {
                Some(v) => self@ == DataV::Fields(field_trees(v@)),
                None => !(self@ is Fields),
            },
    {
        match self {
            Data::Fields(v) => {
                assert(self@->Fields_0 =~= field_trees(v@));
                Some(v)
            },
            _ => None,
        }
    }

    pub fn as_u64(&self) -> (r: Option<u64>)
        ensures
            r == self@.as_number(),
    {
        match self {
            Data::Number(n) => *n,
            _ => None,
        }
    }

    pub fn as_bool(&self) -> (r: Option<bool>)
        ensures
            r == self@.as_bool(),
    {
        match self {
            Data::Bool(b) => Some(*b),
            _ => None,
        }
    }

    /// The text in the field named `key`.
    pub fn get_str(&self, key: &str) -> (r: Option<&str>)
        ensures
            match r {
                Some(s) => self@.text_at(key@) == Some(s@),
                None => self@.text_at(key@) is None,
            },
    {
        match self.get(key) {
            Some(d) => d.as_str(),
            None => None,
        }
    }

    /// The text in the field named `key`, or `other`.
    pub fn str_or(&self, key: &str, other: &str) -> (r: String)
        ensures
            r@ == self@.text_or(key@, other@),
    {
        match self.get_str(key) {
            Some(s) => s.to_string(),
            None => other.to_string(),
        }
    }

    /// The number in the field named `key`, or `other`.
    pub fn u64_or(&self, key: &str, other: u64) -> (r: u64)
        ensures
            r == self@.number_or(key@, other),
    {
        match self.get(key) {
            Some(d) => match d.as_u64() {
                Some(n) => n,
                None => other,
            },
            None => other,
        }
    }

    /// The list in the field named `key`.
    pub fn get_array(&self, key: &str) -> (r: Option<&Vec<Data>>)
        ensures
            match r {
                Some(v) => self@.list_at(key@) == Some(trees(v@)),
                None => self@.list_at(key@) is None,
            },
    {
        match self.get(key) {
            Some(d) => d.as_array(),
            None => None,
        }
    }
}

/// The texts among a list of documents.
pub fn strings(v: &Vec<Data>) -> (r: Vec<String>)
    ensures
        text::views(r@) == texts_from(trees(v@)),
{
    let ghost t = trees(v@);
    let mut r: Vec<String> = Vec::new();
    let mut i: usize = 0;
    assert(t.subrange(0, 0) =~= Seq::<DataV>::empty());
    assert(text::views(r@) =~= Seq::<Seq<char>>::empty());
    while i < v.len()
        invariant
            i <= v@.len(),
            t == trees(v@),
            text::views(r@) == texts_from(t.subrange(0, i as int)),
        decreases v@.len() - i,
    {
        proof {
            let next = t.subrange(0, i + 1);
            assert(next.drop_last() =~= t.subrange(0, i as int));
            assert(next.last() == v@[i as int]@);
        }
        let ghost before = text::views(r@);
        match v[i].as_str() {
            Some(s) => {
                r.push(s.to_string());
                assert(text::views(r@) =~= before.push(s@));
            },
            None => {},
        }
        i += 1;
    }
    assert(t.subrange(0, i as int) =~= t);
    r
}

// ── JSON ────────────────────────────────────────────────────────────────────

#[verifier::external_type_specification]
#[verifier::external_body]
pub struct ExJsonValue(serde_json::Value);

/// The document that a JSON text writes, as `serde_json` parses it; none where it
/// refuses the text.
pub uninterp spec fn json_parsed(text: Seq<char>) -> Option<DataV>;

/// What a `serde_json::Value` holds.
pub uninterp spec fn json_tree(v: serde_json::Value) -> DataV;

/// The outermost layer of a `serde_json::Value`.
enum JsonShape<'a> {
    Null,
    Bool(bool),
    Number(Option<u64>),
    Text(&'a String),
    Items(&'a Vec<serde_json::Value>),
    Fields(Vec<(&'a String, &'a serde_json::Value)>),
}

spec fn is_json_shape(s: JsonShape<'_>, t: DataV) -> bool {
    match s {
        JsonShape::Null => t == DataV::Null,
        JsonShape::Bool(b) => t == DataV::Bool(b),
        JsonShape::Number(n) => t == DataV::Number(n),
        JsonShape::Text(s) => t == DataV::Text(s@),
        JsonShape::Items(v) => t matches DataV::List(l) && l.len() == v@.len() && forall|i: int|
            0 <= i < l.len() ==> #[trigger] l[i] == json_tree(v@[i]),
        JsonShape::Fields(v) => t matches DataV::Fields(f) && f.len() == v@.len() && forall|i: int|
            0 <= i < f.len() ==> #[trigger] f[i] == (v@[i].0@, json_tree(*v@[i].1)),
    }
}

/// `serde_json::from_str` parses a JSON text. Which texts it takes and what they write
/// is `json_parsed`.
#[verifier::external_body]
fn json_value(text: &str) -> (r: Option<serde_json::Value>)
    ensures
        match r {
            Some(v) => json_parsed(text@) == Some(json_tree(v)),
            None => json_parsed(text@) is None,
        },
{
    serde_json::from_str::<serde_json::Value>(text).ok()
}

/// The variants of `serde_json::Value`: the fields of an object in the order in which its
/// map is walked, a number as `Number::as_u64` gives it.
#[verifier::external_body]
fn json_shape<'a>(v: &'a serde_json::Value) -> (r: JsonShape<'a>)
    ensures
        is_json_shape(r, json_tree(*v)),
{
    match v {
        serde_json::Value::Null => JsonShape::Null,
        serde_json::Value::Bool(b) => JsonShape::Bool(*b),
        serde_json::Value::Number(n) => JsonShape::Number(n.as_u64()),
        serde_json::Value::String(s) => JsonShape::Text(s),
        serde_json::Value::Array(a) => JsonShape::Items(a),
        serde_json::Value::Object(m) => JsonShape::Fields(m.iter().collect()),
    }
}

fn json_data(v: &serde_json::Value) -> (r: Data)
    ensures
        r@ == json_tree(*v),
    decreases json_tree(*v),
{
    let ghost t = json_tree(*v);
    match json_shape(v) {
        JsonShape::Null => Data::Null,
        JsonShape::Bool(b) => Data::Bool(b),
        JsonShape::Number(n) => Data::Number(n),
        JsonShape::Text(s) => Data::Text(s.clone()),
        JsonShape::Items(items) => {
            let mut out: Vec<Data> = Vec::new();
            let mut i: usize = 0;
            while i < items.len()
                invariant
                    i <= items@.len(),
                    t == json_tree(*v),
                    is_json_shape(JsonShape::Items(items), t),
                    out@.len() == i,
                    forall|k: int| 0 <= k < i ==> (#[trigger] out@[k])@ == json_tree(items@[k]),
                decreases items@.len() - i,
            {
                assert(t->List_0[i as int] == json_tree(items@[i as int]));
                assert(decreases_to!(t => t->List_0[i as int]));
                out.push(json_data(&items[i]));
                i += 1;
            }
            let r = Data::List(out);
            assert(r@->List_0 =~= t->List_0);
            r
        },
        JsonShape::Fields(fields) => {
            let mut out: Vec<(String, Data)> = Vec::new();
            let mut i: usize = 0;
            while i < fields.len()
                invariant
                    i <= fields@.len(),
                    t == json_tree(*v),
                    is_json_shape(JsonShape::Fields(fields), t),
                    out@.len() == i,
                    forall|k: int|
                        0 <= k < i ==> (#[trigger] out@[k]).0@ == fields@[k].0@ && out@[k].1@
                            == json_tree(*fields@[k].1),
                decreases fields@.len() - i,
            {
                assert(t->Fields_0[i as int] == (
                    fields@[i as int].0@,
                    json_tree(*fields@[i as int].1),
                ));
                assert(decreases_to!(t => t->Fields_0[i as int]));
                assert(decreases_to!(t->Fields_0[i as int] => t->Fields_0[i as int].1));
                out.push((fields[i].0.clone(), json_data(fields[i].1)));
                i += 1;
            }
            let r = Data::Fields(out);
            assert(r@->Fields_0 =~= t->Fields_0);
            r
        },
    }
}

/// Parses a JSON text.
pub fn parse_json(text: &str) -> (r: Option<Data>)
    ensures
        opt_tree(r) == json_parsed(text@),
{
    match json_value(text) {
        Some(v) => Some(json_data(&v)),
        None => None,
    }
}

// ── TOML ────────────────────────────────────────────────────────────────────

#[verifier::external_type_specification]
#[verifier::external_body]
pub struct ExTomlValue(toml::Value);

/// The document that a TOML text writes, as `toml` parses it; none where it refuses the
/// text.
pub uninterp spec fn toml_parsed(text: Seq<char>) -> Option<DataV>;

/// What a `toml::Value` holds, as far as it is text, truth, list or table.
pub uninterp spec fn toml_tree(v: toml::Value) -> DataV;

/// The outermost layer of a `toml::Value`.
enum TomlShape<'a> {
    Bool(bool),
    Text(&'a String),
    Items(&'a Vec<toml::Value>),
    Fields(Vec<(&'a String, &'a toml::Value)>),
    Other,
}

spec fn is_toml_shape(s: TomlShape<'_>, t: DataV) -> bool {
    match s {
        TomlShape::Bool(b) => t == DataV::Bool(b),
        TomlShape::Text(s) => t == DataV::Text(s@),
        TomlShape::Items(v) => t matches DataV::List(l) && l.len() == v@.len() && forall|i: int|
            0 <= i < l.len() ==> #[trigger] l[i] == toml_tree(v@[i]),
        TomlShape::Fields(v) => t matches DataV::Fields(f) && f.len() == v@.len() && forall|i: int|
            0 <= i < f.len() ==> #[trigger] f[i] == (v@[i].0@, toml_tree(*v@[i].1)),
        TomlShape::Other => t == DataV::Other,
    }
}

/// `toml::from_str` parses a TOML text. Which texts it takes and what they write is
/// `toml_parsed`.
#[verifier::external_body]
fn toml_value(text: &str) -> (r: Option<toml::Value>)
    ensures
        match r {
            Some(v) => toml_parsed(text@) == Some(toml_tree(v)),
            None => toml_parsed(text@) is None,
        },
{
    toml::from_str::<toml::Value>(text).ok()
}

/// The variants of `toml::Value`: the fields of a table in the order in which its map is
/// walked; numbers and dates are left aside.
#[verifier::external_body]
fn toml_shape<'a>(v: &'a toml::Value) -> (r: TomlShape<'a>)
    ensures
        is_toml_shape(r, toml_tree(*v)),
{
    match v {
        toml::Value::String(s) => TomlShape::Text(s),
        toml::Value::Integer(_) => TomlShape::Other,
        toml::Value::Float(_) => TomlShape::Other,
        toml::Value::Boolean(b) => TomlShape::Bool(*b),
        toml::Value::Datetime(_) => TomlShape::Other,
        toml::Value::Array(a) => TomlShape::Items(a),
        toml::Value::Table(m) => TomlShape::Fields(m.iter().collect()),
    }
}

fn toml_data(v: &toml::Value) -> (r: Data)
    ensures
        r@ == toml_tree(*v),
    decreases toml_tree(*v),
{
    let ghost t = toml_tree(*v);
    match toml_shape(v) {
        TomlShape::Bool(b) => Data::Bool(b),
        TomlShape::Text(s) => Data::Text(s.clone()),
        TomlShape::Items(items) => {
            let mut out: Vec<Data> = Vec::new();
            let mut i: usize = 0;
            while i < items.len()
                invariant
                    i <= items@.len(),
                    t == toml_tree(*v),
                    is_toml_shape(TomlShape::Items(items), t),
                    out@.len() == i,
                    forall|k: int| 0 <= k < i ==> (#[trigger] out@[k])@ == toml_tree(items@[k]),
                decreases items@.len() - i,
            {
                assert(t->List_0[i as int] == toml_tree(items@[i as int]));
                assert(decreases_to!(t => t->List_0[i as int]));
                out.push(toml_data(&items[i]));
                i += 1;
            }
            let r = Data::List(out);
            assert(r@->List_0 =~= t->List_0);
            r
        },
        TomlShape::Fields(fields) => {
            let mut out: Vec<(String, Data)> = Vec::new();
            let mut i: usize = 0;
            while i < fields.len()
                invariant
                    i <= fields@.len(),
                    t == toml_tree(*v),
                    is_toml_shape(TomlShape::Fields(fields), t),
                    out@.len() == i,
                    forall|k: int|
                        0 <= k < i ==> (#[trigger] out@[k]).0@ == fields@[k].0@ && out@[k].1@
                            == toml_tree(*fields@[k].1),
                decreases fields@.len() - i,
            {
                assert(t->Fields_0[i as int] == (
                    fields@[i as int].0@,
                    toml_tree(*fields@[i as int].1),
                ));
                assert(decreases_to!(t => t->Fields_0[i as int]));
                assert(decreases_to!(t->Fields_0[i as int] => t->Fields_0[i as int].1));
                out.push((fields[i].0.clone(), toml_data(fields[i].1)));
                i += 1;
            }
            let r = Data::Fields(out);
            assert(r@->Fields_0 =~= t->Fields_0);
            r
        },
        TomlShape::Other => Data::Other,
    }
}

/// Parses a TOML text.
pub fn parse_toml(text: &str) -> (r: Option<Data>)
    ensures
        opt_tree(r) == toml_parsed(text@),
{
    match toml_value(text) {
        Some(v) => Some(toml_data(&v)),
        None => None,
    }
}

// ── laws ────────────────────────────────────────────────────────────────────

/// A field is found by its name: the first that has it counts, and none where no field has.
pub proof fn law_fields_are_found_by_name(fields: Seq<(Seq<char>, DataV)>, key: Seq<char>, i: int)
    ensures
        0 <= i < fields.len() && fields[i].0 == key && (forall|k: int|
            0 <= k < i ==> (#[trigger] fields[k]).0 != key) ==> DataV::Fields(fields).field(key)
            == Some(fields[i].1),
        (forall|k: int| 0 <= k < fields.len() ==> (#[trigger] fields[k]).0 != key)
            ==> DataV::Fields(fields).field(key) is None,
{
    if 0 <= i < fields.len() && fields[i].0 == key && (forall|k: int|
        0 <= k < i ==> (#[trigger] fields[k]).0 != key) {
        lemma_field_at(fields, key, 0, i);
    }
    if forall|k: int| 0 <= k < fields.len() ==> (#[trigger] fields[k]).0 != key {
        lemma_no_field(fields, key, 0);
    }
}

proof fn lemma_field_at(fields: Seq<(Seq<char>, DataV)>, key: Seq<char>, from: int, i: int)
    requires
        0 <= from <= i < fields.len(),
        fields[i].0 == key,
        forall|k: int| from <= k < i ==> (#[trigger] fields[k]).0 != key,
    ensures
        field_from(fields, key, from) == Some(fields[i].1),
    decreases i - from,
{
    if from < i {
        assert(fields[from].0 != key);
        lemma_field_at(fields, key, from + 1, i);
    }
}

proof fn lemma_no_field(fields: Seq<(Seq<char>, DataV)>, key: Seq<char>, from: int)
    requires
        0 <= from <= fields.len(),
        forall|k: int| 0 <= k < fields.len() ==> (#[trigger] fields[k]).0 != key,
    ensures
        field_from(fields, key, from) is None,
    decreases fields.len() - from,
{
    if from < fields.len() {
        assert(fields[from].0 != key);
        lemma_no_field(fields, key, from + 1);
    }
}

/// What a field holds is read as what it is: a text as a text, a number as a number, a list
/// as a list; anything else as nothing.
pub proof fn law_fields_are_read_as_they_are(d: DataV, key: Seq<char>, other: Seq<char>, n: u64)
    ensures
        match d.field(key) {
            Some(DataV::Text(s)) => d.text_at(key) == Some(s) && d.text_or(key, other) == s
                && d.number_at(key) is None && d.list_at(key) is None,
            Some(DataV::Number(Some(m))) => d.number_at(key) == Some(m) && d.number_or(key, n) == m
                && d.text_at(key) is None && d.list_at(key) is None,
            Some(DataV::List(v)) => d.list_at(key) == Some(v) && d.text_at(key) is None
                && d.number_at(key) is None,
            _ => d.text_or(key, other) == other && d.number_or(key, n) == n && d.list_at(
                key,
            ) is None,
        },
        !(d is Fields) ==> d.field(key) is None,
{
}

/// The texts of a list are all its texts, in order.
pub proof fn law_texts_of_a_list(front: Seq<DataV>, d: DataV, s: Seq<char>)
    ensures
        texts_from(Seq::empty()) == Seq::<Seq<char>>::empty(),
        d == DataV::Text(s) ==> texts_from(front.push(d)) == texts_from(front).push(s),
        !(d is Text) ==> texts_from(front.push(d)) == texts_from(front),
{
    assert(front.push(d).drop_last() =~= front);
}

} // verus!
