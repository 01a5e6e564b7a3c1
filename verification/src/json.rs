//! JSON documents as plain trees, and the places where serde_json reads and
//! writes them.

use crate::text::same;
use vstd::prelude::*;

verus! {

// --- trees -------------------------------------------------------------------------

/// What a JSON number holds: its value where it is a whole number in the range
/// of `i64`, the IEEE 754 bits of its value as a double, and its text.
pub struct NumberTree {
    pub int: Option<i64>,
    pub bits: Option<u64>,
    pub text: Seq<char>,
}

/// A JSON document. The entries of a table stand in the order in which a walk
/// over it meets them.
pub enum JsonTree {
    Null,
    Bool(bool),
    Number(NumberTree),
    Text(Seq<char>),
    List(Seq<JsonTree>),
    Table(Seq<(Seq<char>, JsonTree)>),
}

/// A JSON number. See `NumberTree`.
#[derive(Debug)]
pub struct JsonNumber {
    pub int: Option<i64>,
    pub bits: Option<u64>,
    pub text: String,
}

/// A JSON document in plain values.
#[derive(Debug)]
pub enum Json {
    Null,
    Bool(bool),
    Number(JsonNumber),
    Text(String),
    List(Vec<Json>),
    Table(Vec<(String, Json)>),
}

impl View for JsonNumber {
    type V = NumberTree;

    open spec fn view(&self) -> NumberTree {
        NumberTree { int: self.int, bits: self.bits, text: self.text@ }
    }
}

impl Json {
    pub open spec fn tree(self) -> JsonTree
        decreases self,
    {
        match self {
            Json::Null => JsonTree::Null,
            Json::Bool(b) => JsonTree::Bool(b),
            Json::Number(n) => JsonTree::Number(n@),
            Json::Text(s) => JsonTree::Text(s@),
            Json::List(items) => JsonTree::List(
                Seq::new(
                    items@.len(),
                    |i: int|
                        if 0 <= i < items@.len() {
                            items@[i].tree()
                        } else {
                            JsonTree::Null
                        },
                ),
            ),
            Json::Table(entries) => JsonTree::Table(
                Seq::new(
                    entries@.len(),
                    |i: int|
                        if 0 <= i < entries@.len() {
                            (entries@[i].0@, entries@[i].1.tree())
                        } else {
                            (Seq::<char>::empty(), JsonTree::Null)
                        },
                ),
            ),
        }
    }
}

impl View for Json {
    type V = JsonTree;

    open spec fn view(&self) -> JsonTree {
        self.tree()
    }
}

/// The value of the first of the entries from `i` on that has the key.
pub open spec fn entry_from(entries: Seq<(Seq<char>, JsonTree)>, key: Seq<char>, i: int) -> Option<
    JsonTree,
>
    decreases entries.len() - i,
{
    if i < 0 || i >= entries.len() {
        None
    } else if entries[i].0 == key {
        Some(entries[i].1)
    } else {
        entry_from(entries, key, i + 1)
    }
}

impl JsonTree {
    /// What a table holds under `key`; nothing in any other document.
    pub open spec fn field(self, key: Seq<char>) -> Option<JsonTree> {
        match self {
            JsonTree::Table(entries) => entry_from(entries, key, 0),
            _ => None,
        }
    }

    pub open spec fn text(self) -> Option<Seq<char>> {
        match self {
            JsonTree::Text(s) => Some(s),
            _ => None,
        }
    }

    pub open spec fn truth(self) -> Option<bool> {
        match self {
            JsonTree::Bool(b) => Some(b),
            _ => None,
        }
    }

    pub open spec fn items(self) -> Option<Seq<JsonTree>> {
        match self {
            JsonTree::List(items) => Some(items),
            _ => None,
        }
    }

    /// The bits of a number's value as a double.
    pub open spec fn double(self) -> Option<u64> {
        match self {
            JsonTree::Number(n) => n.bits,
            _ => None,
        }
    }

    /// The text under `key`, where there is one.
    pub open spec fn field_text(self, key: Seq<char>) -> Option<Seq<char>> {
        match self.field(key) {
            Some(v) => v.text(),
            None => None,
        }
    }

    /// The truth value under `key`, where there is one.
    pub open spec fn field_truth(self, key: Seq<char>) -> Option<bool> {
        match self.field(key) {
            Some(v) => v.truth(),
            None => None,
        }
    }

    /// The list under `key`, where there is one.
    pub open spec fn field_items(self, key: Seq<char>) -> Option<Seq<JsonTree>> {
        match self.field(key) {
            Some(v) => v.items(),
            None => None,
        }
    }

    /// The double under `key`, where there is a number.
    pub open spec fn field_double(self, key: Seq<char>) -> Option<u64> {
        match self.field(key) {
            Some(v) => v.double(),
            None => None,
        }
    }

    /// Whether there is something but null under `key`.
    pub open spec fn has_value(self, key: Seq<char>) -> bool {
        match self.field(key) {
            Some(v) => v !is Null,
            None => false,
        }
    }
}

impl Json {
    pub fn get(&self, key: &str) -> (r: Option<&Json>)
        ensures
            match r {
                Some(v) => self@.field(key@) == Some(v@),
                None => self@.field(key@) is None,
            },
            r matches Some(v) ==> decreases_to!(self@ => v@),
    {
        match self {
            Json::Table(entries) => {
                let mut i: usize = 0;
                let ghost trees = self@->Table_0;
                while i < entries.len()
                    invariant
                        0 <= i <= entries@.len() == trees.len(),
                        self@ == JsonTree::Table(trees),
                        self@ == Json::Table(*entries)@,
                        entry_from(trees, key@, 0) == entry_from(trees, key@, i as int),
                    decreases entries@.len() - i,
                {
                    assert(trees[i as int] == (entries@[i as int].0@, entries@[i as int].1@));
                    if same(entries[i].0.as_str(), key) {
                        assert(decreases_to!(trees => trees[i as int]));
                        return Some(&entries[i].1);
                    }
                    i += 1;
                }
                None
            },
            _ => None,
        }
    }

    pub fn as_str(&self) -> (r: Option<&String>)
        ensures
            match r {
                Some(s) => self@.text() == Some(s@),
                None => self@.text() is None,
            },
    {
        match self {
            Json::Text(s) => Some(s),
            _ => None,
        }
    }

    pub fn as_bool(&self) -> (r: Option<bool>)
        ensures
            r == self@.truth(),
    {
        match self {
            Json::Bool(b) => Some(*b),
            _ => None,
        }
    }

    pub fn as_array(&self) -> (r: Option<&Vec<Json>>)
        ensures
            match r {
                Some(items) => self@.items() == Some(trees(items@)),
                None => self@.items() is None,
            },
    {
        match self {
            Json::List(items) => {
                assert(self@->List_0 =~= trees(items@));
                Some(items)
            },
            _ => None,
        }
    }

    /// The text under `key`, where there is one.
    pub fn get_str(&self, key: &str) -> (r: Option<&String>)
        ensures
            match r {
                Some(s) => self@.field_text(key@) == Some(s@),
                None => self@.field_text(key@) is None,
            },
    {
        match self.get(key) {
            Some(v) => v.as_str(),
            None => None,
        }
    }

    /// The truth value under `key`, where there is one.
    pub fn get_bool(&self, key: &str) -> (r: Option<bool>)
        ensures
            r == self@.field_truth(key@),
    {
        match self.get(key) {
            Some(v) => v.as_bool(),
            None => None,
        }
    }

    /// The list under `key`, where there is one.
    pub fn get_array(&self, key: &str) -> (r: Option<&Vec<Json>>)
        ensures
            match r {
                Some(items) => self@.field_items(key@) == Some(trees(items@)),
                None => self@.field_items(key@) is None,
            },
    {
        match self.get(key) {
            Some(v) => v.as_array(),
            None => None,
        }
    }

    /// The bits of the double under `key`, where there is a number.
    pub fn get_double(&self, key: &str) -> (r: Option<u64>)
        ensures
            r == self@.field_double(key@),
    {
        match self.get(key) {
            Some(v) => match v {
                Json::Number(n) => n.bits,
                _ => None,
            },
            None => None,
        }
    }

    /// Whether there is something but null under `key`.
    pub fn holds_value(&self, key: &str) -> (r: bool)
        ensures
            r == self@.has_value(key@),
    {
        match self.get(key) {
            Some(v) => match v {
                Json::Null => false,
                _ => true,
            },
            None => false,
        }
    }

    pub fn is_object(&self) -> (r: bool)
        ensures
            r == (self@ is Table),
    {
        match self {
            Json::Table(_) => true,
            _ => false,
        }
    }
}

/// The trees of a list of documents.
pub open spec fn trees(items: Seq<Json>) -> Seq<JsonTree> {
    Seq::new(items.len(), |i: int| items[i]@)
}

// --- serde_json ----------------------------------------------------------------------

/// A document as serde_json holds it.
#[verifier::external_type_specification]
#[verifier::external_body]
pub struct ExValue(serde_json::Value);

/// A number as serde_json holds it.
#[verifier::external_type_specification]
#[verifier::external_body]
pub struct ExNumber(serde_json::Number);

/// What serde_json finds wrong with a text.
#[verifier::external_type_specification]
#[verifier::external_body]
pub struct ExError(serde_json::Error);

/// A table as serde_json holds it.
#[verifier::external_type_specification]
#[verifier::external_body]
#[verifier::reject_recursive_types(K)]
#[verifier::reject_recursive_types(V)]
pub struct ExMap<K, V>(serde_json::Map<K, V>);

/// The document that a `serde_json::Value` holds.
pub uninterp spec fn value_tree(v: serde_json::Value) -> JsonTree;

/// The entries that a `serde_json::Map` holds, in the order of a walk.
pub uninterp spec fn map_entries(m: serde_json::Map<String, serde_json::Value>) -> Seq<
    (Seq<char>, JsonTree),
>;

/// What `Number::as_i64` gives.
pub uninterp spec fn number_int(n: serde_json::Number) -> Option<i64>;

/// The bits of what `Number::as_f64` gives.
pub uninterp spec fn number_bits(n: serde_json::Number) -> Option<u64>;

/// What `Number` prints as.
pub uninterp spec fn number_text(n: serde_json::Number) -> Seq<char>;

/// What a `serde_json::Error` prints as.
pub uninterp spec fn error_text(e: serde_json::Error) -> Seq<char>;

/// The document that bytes write, or the message of the error in them.
pub uninterp spec fn json_of_bytes(raw: Seq<u8>) -> Result<JsonTree, Seq<char>>;

/// The document that a text writes, or the message of the error in it.
pub uninterp spec fn json_of_text(s: Seq<char>) -> Result<JsonTree, Seq<char>>;

/// The text that writes a document.
pub uninterp spec fn text_of_json(t: JsonTree) -> Seq<char>;

/// One level of a `serde_json::Value`.
enum Node<'a> {
    Null,
    Bool(bool),
    Number(&'a serde_json::Number),
    Text(&'a String),
    List(&'a Vec<serde_json::Value>),
    Table(Vec<(&'a String, &'a serde_json::Value)>),
}

impl<'a> Node<'a> {
    spec fn tree(self) -> JsonTree {
        match self {
            Node::Null => JsonTree::Null,
            Node::Bool(b) => JsonTree::Bool(b),
            Node::Number(n) => JsonTree::Number(number_tree(*n)),
            Node::Text(s) => JsonTree::Text(s@),
            Node::List(items) => JsonTree::List(
                Seq::new(items@.len(), |i: int| value_tree(items@[i])),
            ),
            Node::Table(entries) => JsonTree::Table(
                Seq::new(
                    entries@.len(),
                    |i: int| (entries@[i].0@, value_tree(*entries@[i].1)),
                ),
            ),
        }
    }
}

spec fn number_tree(n: serde_json::Number) -> NumberTree {
    NumberTree { int: number_int(n), bits: number_bits(n), text: number_text(n) }
}

/// The variants of `serde_json::Value` told apart, each with what it holds; a
/// map's entries come in the order of `Map::iter`.
#[verifier::external_body]
fn open_value<'a>(v: &'a serde_json::Value) -> (r: Node<'a>)
    ensures
        r.tree() == value_tree(*v),
{
    match v {
        serde_json::Value::Null => Node::Null,
        serde_json::Value::Bool(b) => Node::Bool(*b),
        serde_json::Value::Number(n) => Node::Number(n),
        serde_json::Value::String(s) => Node::Text(s),
        serde_json::Value::Array(items) => Node::List(items),
        serde_json::Value::Object(map) => Node::Table(map.iter().collect()),
    }
}

/// `Number::as_i64`: the value of a whole number that fits. Only named.
#[verifier::external_body]
fn number_as_i64(n: &serde_json::Number) -> (r: Option<i64>)
    ensures
        r == number_int(*n),
{
    n.as_i64()
}

/// `Number::as_f64`, as the bits of the double it gives. Only named.
#[verifier::external_body]
fn number_as_double(n: &serde_json::Number) -> (r: Option<u64>)
    ensures
        r == number_bits(*n),
{
    n.as_f64().map(|f| f.to_bits())
}

/// `Number::to_string`. Only named.
#[verifier::external_body]
fn number_to_string(n: &serde_json::Number) -> (r: String)
    ensures
        r@ == number_text(*n),
{
    n.to_string()
}

/// `serde_json::Error::to_string`. Only named.
#[verifier::external_body]
fn error_to_string(e: &serde_json::Error) -> (r: String)
    ensures
        r@ == error_text(*e),
{
    e.to_string()
}

/// `serde_json::from_slice` into a `Value`. Which bytes write which document,
/// and with which message others are rejected, is only named; it depends on
/// the bytes alone.
#[verifier::external_body]
fn value_from_slice(raw: &[u8]) -> (r: Result<serde_json::Value, serde_json::Error>)
    ensures
        match r {
            Ok(v) => json_of_bytes(raw@) == Ok::<JsonTree, Seq<char>>(value_tree(v)),
            Err(e) => json_of_bytes(raw@) == Err::<JsonTree, Seq<char>>(error_text(e)),
        },
{
    serde_json::from_slice(raw)
}

/// `serde_json::from_str` into a `Value`, named like `value_from_slice`.
#[verifier::external_body]
pub(crate) fn value_from_str(s: &str) -> (r: Result<serde_json::Value, serde_json::Error>)
    ensures
        match r {
            Ok(v) => json_of_text(s@) == Ok::<JsonTree, Seq<char>>(value_tree(v)),
            Err(e) => json_of_text(s@) == Err::<JsonTree, Seq<char>>(error_text(e)),
        },
{
    serde_json::from_str(s)
}

/// The document that a `serde_json::Value` holds, in plain values.
pub fn json_from_value(v: &serde_json::Value) -> (r: Json)
    ensures
        r@ == value_tree(*v),
    decreases value_tree(*v),
{
    let node = open_value(v);
    match node {
        Node::Null => Json::Null,
        Node::Bool(b) => Json::Bool(b),
        Node::Number(n) => Json::Number(
            JsonNumber {
                int: number_as_i64(n),
                bits: number_as_double(n),
                text: number_to_string(n),
            },
        ),
        Node::Text(s) => Json::Text(s.clone()),
        Node::List(items) => {
            let ghost parts = value_tree(*v)->List_0;
            let mut out: Vec<Json> = Vec::new();
            let mut i: usize = 0;
            while i < items.len()
                invariant
                    0 <= i <= items@.len() == parts.len(),
                    value_tree(*v) == JsonTree::List(parts),
                    forall|k: int| 0 <= k < parts.len() ==> parts[k] == value_tree(items@[k]),
                    out@.len() == i,
                    forall|k: int| 0 <= k < i ==> (#[trigger] out@[k])@ == parts[k],
                decreases items@.len() - i,
            {
                assert(decreases_to!(value_tree(*v) => value_tree(*v)->List_0));
                assert(decreases_to!(parts => parts[i as int]));
                assert(parts[i as int] == value_tree(items@[i as int]));
                out.push(json_from_value(&items[i]));
                i += 1;
            }
            let r = Json::List(out);
            assert(r@->List_0 =~= parts);
            r
        },
        Node::Table(entries) => {
            let ghost parts = value_tree(*v)->Table_0;
            let mut out: Vec<(String, Json)> = Vec::new();
            let mut i: usize = 0;
            while i < entries.len()
                invariant
                    0 <= i <= entries@.len() == parts.len(),
                    value_tree(*v) == JsonTree::Table(parts),
                    forall|k: int|
                        0 <= k < parts.len() ==> parts[k] == (
                            entries@[k].0@,
                            value_tree(*entries@[k].1),
                        ),
                    out@.len() == i,
                    forall|k: int|
                        0 <= k < i ==> (#[trigger] out@[k]).0@ == parts[k].0 && out@[k].1@
                            == parts[k].1,
                decreases entries@.len() - i,
            {
                assert(decreases_to!(value_tree(*v) => value_tree(*v)->Table_0));
                assert(decreases_to!(parts => parts[i as int]));
                assert(decreases_to!(parts[i as int] => parts[i as int].1));
                assert(parts[i as int].1 == value_tree(*entries@[i as int].1));
                out.push((entries[i].0.clone(), json_from_value(entries[i].1)));
                i += 1;
            }
            let r = Json::Table(out);
            assert(r@->Table_0 =~= parts);
            r
        },
    }
}

/// Reads bytes as a document; an error comes as its message.
pub fn read_json(raw: &[u8]) -> (r: Result<Json, String>)
    ensures
        match r {
            Ok(j) => json_of_bytes(raw@) == Ok::<JsonTree, Seq<char>>(j@),
            Err(m) => json_of_bytes(raw@) == Err::<JsonTree, Seq<char>>(m@),
        },
{
    match value_from_slice(raw) {
        Ok(v) => Ok(json_from_value(&v)),
        Err(e) => Err(error_to_string(&e)),
    }
}

/// Reads a text as a document; an error comes as its message.
pub fn read_json_text(s: &str) -> (r: Result<Json, String>)
    ensures
        match r {
            Ok(j) => json_of_text(s@) == Ok::<JsonTree, Seq<char>>(j@),
            Err(m) => json_of_text(s@) == Err::<JsonTree, Seq<char>>(m@),
        },
{
    match value_from_str(s) {
        Ok(v) => Ok(json_from_value(&v)),
        Err(e) => Err(error_to_string(&e)),
    }
}

// --- editing and writing ---------------------------------------------------------------

/// Whether `a` stands before `b` in the order of their code points.
pub open spec fn sorts_before(a: Seq<char>, b: Seq<char>) -> bool
    decreases a.len(),
{
    if b.len() == 0 {
        false
    } else if a.len() == 0 {
        true
    } else if a[0] == b[0] {
        sorts_before(a.drop_first(), b.drop_first())
    } else {
        (a[0] as u32) < (b[0] as u32)
    }
}

/// Entries sorted by key with one more entry: it takes the place of the one
/// that has its key, or goes before the first whose key sorts behind its own.
pub open spec fn with_entry(
    entries: Seq<(Seq<char>, JsonTree)>,
    key: Seq<char>,
    value: JsonTree,
) -> Seq<(Seq<char>, JsonTree)>
    decreases entries.len(),
{
    if entries.len() == 0 {
        seq![(key, value)]
    } else if entries[0].0 == key {
        seq![(key, value)] + entries.drop_first()
    } else if sorts_before(key, entries[0].0) {
        seq![(key, value)] + entries
    } else {
        seq![entries[0]] + with_entry(entries.drop_first(), key, value)
    }
}

/// `Map::new`: a map without entries.
#[verifier::external_body]
pub(crate) fn new_map() -> (r: serde_json::Map<String, serde_json::Value>)
    ensures
        map_entries(r) == Seq::<(Seq<char>, JsonTree)>::empty(),
{
    serde_json::Map::new()
}

/// `Map::insert`. The map is sorted by key: it is a `BTreeMap`, as serde_json
/// has it without its `preserve_order` feature.
#[verifier::external_body]
pub(crate) fn map_insert(
    m: &mut serde_json::Map<String, serde_json::Value>,
    key: &str,
    value: serde_json::Value,
)
    ensures
        map_entries(*final(m)) == with_entry(map_entries(*old(m)), key@, value_tree(value)),
{
    m.insert(key.to_string(), value);
}

/// `Map::contains_key`.
#[verifier::external_body]
pub(crate) fn map_contains_key(
    m: &serde_json::Map<String, serde_json::Value>,
    key: &str,
) -> (r: bool)
    ensures
        r == (entry_from(map_entries(*m), key@, 0) is Some),
{
    m.contains_key(key)
}

/// A `serde_json::Value` told apart: the map of an object, or the value that
/// is none.
#[verifier::external_body]
pub(crate) fn into_object(v: serde_json::Value) -> (r: Result<
    serde_json::Map<String, serde_json::Value>,
    serde_json::Value,
>)
    ensures
        match r {
            Ok(m) => value_tree(v) == JsonTree::Table(map_entries(m)),
            Err(other) => other == v && value_tree(v) !is Table,
        },
{
    match v {
        serde_json::Value::Object(map) => Ok(map),
        other => Err(other),
    }
}

/// The value that is an object of the map's entries.
#[verifier::external_body]
pub(crate) fn object_value(m: serde_json::Map<String, serde_json::Value>) -> (r: serde_json::Value)
    ensures
        value_tree(r) == JsonTree::Table(map_entries(m)),
{
    serde_json::Value::Object(m)
}

/// The value that is a string.
#[verifier::external_body]
pub(crate) fn text_value(s: &str) -> (r: serde_json::Value)
    ensures
        value_tree(r) == JsonTree::Text(s@),
{
    serde_json::Value::String(s.to_string())
}

/// The value that is null.
#[verifier::external_body]
pub(crate) fn null_value() -> (r: serde_json::Value)
    ensures
        value_tree(r) == JsonTree::Null,
{
    serde_json::Value::Null
}

/// `Value::to_string`: the compact text of a document. Only named; it depends
/// on the document alone, whose numbers carry their own text.
#[verifier::external_body]
pub(crate) fn value_to_string(v: &serde_json::Value) -> (r: String)
    ensures
        r@ == text_of_json(value_tree(*v)),
{
    v.to_string()
}

pub open spec fn hex_digit(d: nat) -> char {
    if d < 10 {
        (d + '0' as u32) as char
    } else {
        (d - 10 + 'a' as u32) as char
    }
}

/// How a character is written inside a JSON string.
pub open spec fn escaped(c: char) -> Seq<char> {
    let u = c as u32 as nat;
    if c == '"' || c == '\\' {
        seq!['\\', c]
    } else if u == 0x08 {
        seq!['\\', 'b']
    } else if u == 0x09 {
        seq!['\\', 't']
    } else if u == 0x0a {
        seq!['\\', 'n']
    } else if u == 0x0c {
        seq!['\\', 'f']
    } else if u == 0x0d {
        seq!['\\', 'r']
    } else if u < 0x20 {
        seq!['\\', 'u', '0', '0', hex_digit(u / 16), hex_digit(u % 16)]
    } else {
        seq![c]
    }
}

/// The characters of a text as they stand inside a JSON string.
pub open spec fn all_escaped(s: Seq<char>) -> Seq<char>
    decreases s.len(),
{
    if s.len() == 0 {
        Seq::empty()
    } else {
        all_escaped(s.drop_last()) + escaped(s.last())
    }
}

/// A text as a JSON string, which is a JavaScript string literal too.
pub open spec fn quoted(s: Seq<char>) -> Seq<char> {
    seq!['"'] + all_escaped(s) + seq!['"']
}

/// `serde_json::to_string` of a text, which never fails: the text between
/// quotation marks, with those characters escaped that JSON has escaped.
#[verifier::external_body]
fn text_to_json(s: &str) -> (r: String)
    ensures
        r@ == quoted(s@),
{
    serde_json::to_string(s).expect("string always serializes")
}

/// Quotes a text as a JSON string, which is a JavaScript string literal too.
pub fn js_str(s: &str) -> (r: String)
    ensures
        r@ == quoted(s@),
{
    text_to_json(s)
}

// --- laws ----------------------------------------------------------------------------

proof fn lemma_entry_from(entries: Seq<(Seq<char>, JsonTree)>, key: Seq<char>, i: int)
    requires
        0 <= i,
    ensures
        match entry_from(entries, key, i) {
            Some(v) => exists|k: int|
                i <= k < entries.len() && #[trigger] entries[k] == (key, v) && forall|j: int|
                    i <= j < k ==> (#[trigger] entries[j]).0 != key,
            None => forall|j: int| i <= j < entries.len() ==> (#[trigger] entries[j]).0 != key,
        },
    decreases entries.len() - i,
{
    if i < entries.len() {
        lemma_entry_from(entries, key, i + 1);
        if entries[i].0 == key {
            assert(entries[i] == (key, entries[i].1));
        } else if let Some(v) = entry_from(entries, key, i + 1) {
            let k = choose|k: int|
                i + 1 <= k < entries.len() && #[trigger] entries[k] == (key, v) && forall|j: int|
                    i + 1 <= j < k ==> (#[trigger] entries[j]).0 != key;
            assert(entries[k] == (key, v));
        }
    }
}

/// What a table holds under a key is the value of its first entry with that key;
/// it holds nothing under a key that no entry has, and what is no table holds
/// nothing.
pub proof fn law_fields_are_entries(t: JsonTree, key: Seq<char>)
    ensures
        t !is Table ==> t.field(key) is None,
        t matches JsonTree::Table(entries) ==> match t.field(key) {
            Some(v) => exists|k: int|
                0 <= k < entries.len() && #[trigger] entries[k] == (key, v) && forall|j: int|
                    0 <= j < k ==> (#[trigger] entries[j]).0 != key,
            None => forall|j: int| 0 <= j < entries.len() ==> (#[trigger] entries[j]).0 != key,
        },
{
    if let JsonTree::Table(entries) = t {
        lemma_entry_from(entries, key, 0);
    }
}

/// A field is read as a text, a truth value, a list or a number only where it is
/// one, and then as it stands.
pub proof fn law_fields_are_read_by_kind(t: JsonTree, key: Seq<char>)
    ensures
        forall|s: Seq<char>| #[trigger]
            t.field_text(key) == Some(s) <==> t.field(key) == Some(JsonTree::Text(s)),
        forall|b: bool| #[trigger]
            t.field_truth(key) == Some(b) <==> t.field(key) == Some(JsonTree::Bool(b)),
        forall|items: Seq<JsonTree>| #[trigger]
            t.field_items(key) == Some(items) <==> t.field(key) == Some(JsonTree::List(items)),
        forall|bits: u64| #[trigger]
            t.field_double(key) == Some(bits) <==> (t.field(key) matches Some(JsonTree::Number(n))
                && n.bits == Some(bits)),
        t.has_value(key) <==> (t.field(key) is Some && t.field(key) != Some(JsonTree::Null)),
{
}

/// A text is quoted sign by sign between two quotation marks.
pub proof fn law_texts_are_quoted_sign_by_sign(a: Seq<char>, b: Seq<char>, c: char)
    ensures
        quoted(a) == seq!['"'] + all_escaped(a) + seq!['"'],
        all_escaped(a + b) == all_escaped(a) + all_escaped(b),
        all_escaped(seq![c]) == escaped(c),
        all_escaped(Seq::empty()).len() == 0,
        c as u32 >= 0x20 && c != '"' && c != '\\' ==> escaped(c) == seq![c],
        c == '"' || c == '\\' ==> escaped(c) == seq!['\\', c],
        c == '\n' ==> escaped(c) == seq!['\\', 'n'],
        c == '\r' ==> escaped(c) == seq!['\\', 'r'],
        c == '\t' ==> escaped(c) == seq!['\\', 't'],
        c as u32 >= 0x20 <==> escaped(c).last() == c && (escaped(c).len() == 1 || c == '"' || c
            == '\\'),
    decreases b.len(),
{
    reveal_with_fuel(all_escaped, 2);
    assert(seq![c].drop_last() =~= Seq::<char>::empty());
    assert(Seq::<char>::empty() + escaped(c) =~= escaped(c));
    if b.len() == 0 {
        assert(a + b =~= a);
        assert(all_escaped(a) + all_escaped(b) =~= all_escaped(a));
    } else {
        law_texts_are_quoted_sign_by_sign(a, b.drop_last(), c);
        assert((a + b).drop_last() =~= a + b.drop_last());
        assert(all_escaped(a + b) =~= all_escaped(a) + all_escaped(b));
    }
}

} // verus!
