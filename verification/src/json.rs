//! JSON values as plain data.
use crate::text;
use vstd::prelude::*;

verus! {

/// A number of `serde_json` that is no integer. Values of `serde_json` that are
/// taken apart are its only source.
#[derive(Debug, PartialEq)]
pub struct Fraction {
    number: serde_json::Number,
}

impl Fraction {
    /// The number that is carried.
    pub closed spec fn carried(&self) -> serde_json::Number {
        self.number
    }

    /// The number that is carried.
    pub fn number(&self) -> (r: &serde_json::Number)
        ensures
            *r == self.carried(),
    {
        &self.number
    }
}

impl Clone for Fraction {
    fn clone(&self) -> (r: Self)
        ensures
            r == *self,
    {
        Fraction { number: self.number.clone() }
    }
}

/// What a JSON value says. The entries of an object stand in the order of their keys.
#[verifier::ext_equal]
pub enum Tree {
    Null,
    Bool(bool),
    Integer(int),
    Float(Fraction),
    Text(Seq<char>),
    Array(Seq<Tree>),
    Object(Seq<(Seq<char>, Tree)>),
}

/// A JSON value. An integer is one that `u64` or `i64` can hold; any other
/// number is carried as it was read.
#[derive(Debug, PartialEq)]
pub enum Json {
    Null,
    Bool(bool),
    Integer(i128),
    Float(Fraction),
    Text(String),
    Array(Vec<Json>),
    Object(Vec<(String, Json)>),
}

impl Json {
    /// What the value says.
    pub open spec fn tree(&self) -> Tree
        decreases self,
    {
        match self {
            Json::Null => Tree::Null,
            Json::Bool(b) => Tree::Bool(*b),
            Json::Integer(n) => Tree::Integer(*n as int),
            Json::Float(n) => Tree::Float(*n),
            Json::Text(s) => Tree::Text(s@),
            Json::Array(items) => Tree::Array(
                Seq::new(
                    items@.len(),
                    |i: int|
                        if 0 <= i < items@.len() {
                            items@[i].tree()
                        } else {
                            Tree::Null
                        },
                ),
            ),
            Json::Object(entries) => Tree::Object(
                Seq::new(
                    entries@.len(),
                    |i: int|
                        if 0 <= i < entries@.len() {
                            (entries@[i].0@, entries@[i].1.tree())
                        } else {
                            (seq![], Tree::Null)
                        },
                ),
            ),
        }
    }
}

impl View for Json {
    type V = Tree;

    open spec fn view(&self) -> Tree {
        self.tree()
    }
}

/// What the values of an array say.
pub open spec fn trees(items: Seq<Json>) -> Seq<Tree> {
    Seq::new(items.len(), |i: int| items[i]@)
}

/// What the entries of an object say.
pub open spec fn entry_trees(entries: Seq<(String, Json)>) -> Seq<(Seq<char>, Tree)> {
    Seq::new(entries.len(), |i: int| (entries[i].0@, entries[i].1@))
}

/// An array says what its values say.
pub proof fn lemma_array_view(items: Vec<Json>)
    ensures
        Json::Array(items)@ == Tree::Array(trees(items@)),
{
    let whole = Json::Array(items);
    match whole.tree() {
        Tree::Array(seen) => {
            assert(seen =~= trees(items@));
        },
        _ => {},
    }
}

/// An object says what its entries say.
pub proof fn lemma_object_view(entries: Vec<(String, Json)>)
    ensures
        Json::Object(entries)@ == Tree::Object(entry_trees(entries@)),
{
    let whole = Json::Object(entries);
    match whole.tree() {
        Tree::Object(seen) => {
            assert(seen =~= entry_trees(entries@));
        },
        _ => {},
    }
}

/// A number of `serde_json`, carried without a look inside.
#[verifier::external_type_specification]
#[verifier::external_body]
pub struct ExNumber(serde_json::Number);

/// A value of `serde_json`. What it holds is its `json_tree`.
#[verifier::external_type_specification]
#[verifier::external_body]
pub struct ExValue(serde_json::Value);

/// What a value of `serde_json` holds.
pub uninterp spec fn json_tree(value: serde_json::Value) -> Tree;

/// One level of a JSON value: a plain value, or the values inside it.
pub enum Level {
    Null,
    Bool(bool),
    Integer(i128),
    Float(Fraction),
    Text(String),
    Array(Vec<serde_json::Value>),
    Object(Vec<(String, serde_json::Value)>),
}

impl Level {
    /// What the level says, with what the values inside it hold.
    pub open spec fn tree(&self) -> Tree {
        match self {
            Level::Null => Tree::Null,
            Level::Bool(b) => Tree::Bool(*b),
            Level::Integer(n) => Tree::Integer(*n as int),
            Level::Float(n) => Tree::Float(*n),
            Level::Text(s) => Tree::Text(s@),
            Level::Array(items) => Tree::Array(
                Seq::new(items@.len(), |i: int| json_tree(items@[i])),
            ),
            Level::Object(entries) => Tree::Object(
                Seq::new(entries@.len(), |i: int| (entries@[i].0@, json_tree(entries@[i].1))),
            ),
        }
    }
}

/// Whether the keys are in order and none occurs twice.
pub open spec fn keys_in_order(entries: Seq<(Seq<char>, Tree)>) -> bool {
    forall|i: int, j: int|
        0 <= i < j < entries.len() ==> text::less(#[trigger] entries[i].0, #[trigger] entries[j].0)
}

/// Whether `u64` or `i64` can hold `n`.
pub open spec fn integer_fits(n: int) -> bool {
    i64::MIN <= n <= u64::MAX
}

/// Whether a level is one that a value of `serde_json` can have: its integer
/// fits and its keys are in order.
pub open spec fn proper_level(tree: Tree) -> bool {
    match tree {
        Tree::Integer(n) => integer_fits(n),
        Tree::Object(entries) => keys_in_order(entries),
        _ => true,
    }
}

/// Whether every level of a tree is proper.
pub open spec fn proper(tree: Tree) -> bool
    decreases tree,
{
    &&& proper_level(tree)
    &&& match tree {
        Tree::Array(items) => forall|i: int| 0 <= i < items.len() ==> proper(#[trigger] items[i]),
        Tree::Object(entries) => forall|i: int|
            0 <= i < entries.len() ==> proper((#[trigger] entries[i]).1),
        _ => true,
    }
}

/// Takes a `serde_json::Value` apart, one variant after the other. An integer
/// comes out by `Number::as_i128`, which holds every `u64` and `i64`; a number
/// that is none becomes a `Fraction`. The entries of an object come out in the order
/// of its `BTreeMap`.
#[verifier::external_body]
fn open_value(value: serde_json::Value) -> (r: Level)
    ensures
        r.tree() == json_tree(value),
        proper_level(r.tree()),
{
    match value {
        serde_json::Value::Null => Level::Null,
        serde_json::Value::Bool(b) => Level::Bool(b),
        serde_json::Value::Number(n) => match n.as_i128() {
            Some(i) => Level::Integer(i),
            None => Level::Float(Fraction { number: n }),
        },
        serde_json::Value::String(s) => Level::Text(s),
        serde_json::Value::Array(items) => Level::Array(items),
        serde_json::Value::Object(map) => Level::Object(map.into_iter().collect()),
    }
}

/// Puts a `serde_json::Value` together, one variant after the other. An
/// integer goes in by `Number::from_i128`, which takes every `u64` and `i64`. The
/// number of a `Fraction` came out as no integer, and does so again. Entries whose
/// keys are in order stay in that order.
#[verifier::external_body]
fn close_value(level: Level) -> (r: serde_json::Value)
    requires
        proper_level(level.tree()),
    ensures
        json_tree(r) == level.tree(),
{
    match level {
        Level::Null => serde_json::Value::Null,
        Level::Bool(b) => serde_json::Value::Bool(b),
        Level::Integer(n) => serde_json::Value::Number(serde_json::Number::from_i128(n).unwrap()),
        Level::Float(n) => serde_json::Value::Number(n.number),
        Level::Text(s) => serde_json::Value::String(s),
        Level::Array(items) => serde_json::Value::Array(items),
        Level::Object(entries) => serde_json::Value::Object(entries.into_iter().collect()),
    }
}

/// What `serde_json::from_str` reads from a text, where it is JSON.
pub uninterp spec fn json_parse(text: Seq<char>) -> Option<Tree>;

/// What `serde_json` prints for a value, on one line.
pub uninterp spec fn json_print(tree: Tree) -> Seq<char>;

/// What `serde_json::to_string_pretty` prints for a value.
pub uninterp spec fn json_pretty(tree: Tree) -> Seq<char>;

/// What `serde_json::from_slice` reads from bytes, where they are JSON.
pub uninterp spec fn json_parse_bytes(data: Seq<u8>) -> Option<Tree>;

/// Whether a tree is an object whose values are all texts.
pub open spec fn texts_only(tree: Tree) -> bool {
    match tree {
        Tree::Object(entries) => forall|i: int|
            0 <= i < entries.len() ==> (#[trigger] entries[i]).1 is Text,
        _ => false,
    }
}

/// `serde_json::from_str` for a `Value`. The outcome depends on the text alone.
#[verifier::external_body]
fn parse_value(source: &str) -> (r: Option<serde_json::Value>)
    ensures
        match r {
            Some(value) => json_parse(source@) == Some(json_tree(value)),
            None => json_parse(source@) is None,
        },
{
    serde_json::from_str(source).ok()
}

/// `Value::to_string`: the value on one line. The text depends on what the
/// value holds alone.
#[verifier::external_body]
fn print_value(value: &serde_json::Value) -> (r: String)
    ensures
        r@ == json_print(json_tree(*value)),
{
    value.to_string()
}

/// `serde_json::to_string_pretty`: the value over several lines, indented. It
/// writes into memory and a value has texts as keys, so it does not fail. The
/// text depends on what the value holds alone. That of an object of texts reads
/// back as it was, also with a line end behind it.
#[verifier::external_body]
fn pretty_value(value: &serde_json::Value) -> (r: String)
    ensures
        r@ == json_pretty(json_tree(*value)),
        texts_only(json_tree(*value)) ==> json_parse(r@) == Some(json_tree(*value)) && json_parse(
            r@.push('\n'),
        ) == Some(json_tree(*value)),
{
    serde_json::to_string_pretty(value).unwrap_or_default()
}

/// `serde_json::from_slice` for a `Value`. The outcome depends on the bytes alone.
#[verifier::external_body]
fn parse_slice(data: &[u8]) -> (r: Option<serde_json::Value>)
    ensures
        match r {
            Some(value) => json_parse_bytes(data@) == Some(json_tree(value)),
            None => json_parse_bytes(data@) is None,
        },
{
    serde_json::from_slice(data).ok()
}

/// `Number::clone` gives the same number.
pub assume_specification[ <serde_json::Number as Clone>::clone ](
    n: &serde_json::Number,
) -> (r: serde_json::Number)
    ensures
        r == *n,
;

/// The plain data that a `serde_json::Value` holds.
fn from_value(value: serde_json::Value) -> (r: Json)
    ensures
        r@ == json_tree(value),
        proper(r@),
    decreases json_tree(value),
{
    let level = open_value(value);
    let ghost tree = json_tree(value);
    match level {
        Level::Null => Json::Null,
        Level::Bool(b) => Json::Bool(b),
        Level::Integer(n) => Json::Integer(n),
        Level::Float(n) => Json::Float(n),
        Level::Text(s) => Json::Text(s),
        Level::Array(items) => {
            let ghost all = items@;
            let mut out: Vec<Json> = Vec::new();
            for item in it: items
                invariant
                    it.seq() == all,
                    tree == json_tree(value),
                    tree == Tree::Array(Seq::new(all.len(), |i: int| json_tree(all[i]))),
                    out@.len() == it.index(),
                    forall|i: int|
                        0 <= i < out@.len() ==> (#[trigger] out@[i])@ == json_tree(all[i])
                            && proper(out@[i]@),
            {
                let ghost k = out@.len() as int;
                proof {
                    assert(item == all[k]);
                    match tree {
                        Tree::Array(seen) => {
                            assert(seen[k] == json_tree(item));
                            assert(decreases_to!(tree => seen[k]));
                        },
                        _ => {},
                    }
                }
                out.push(from_value(item));
            }
            proof {
                lemma_array_view(out);
                assert(trees(out@) =~= Seq::new(all.len(), |i: int| json_tree(all[i])));
            }
            Json::Array(out)
        },
        Level::Object(entries) => {
            let ghost all = entries@;
            let mut out: Vec<(String, Json)> = Vec::new();
            for entry in it: entries
                invariant
                    it.seq() == all,
                    tree == json_tree(value),
                    tree == Tree::Object(
                        Seq::new(all.len(), |i: int| (all[i].0@, json_tree(all[i].1))),
                    ),
                    out@.len() == it.index(),
                    forall|i: int|
                        0 <= i < out@.len() ==> (#[trigger] out@[i]).0@ == all[i].0@ && out@[i].1@
                            == json_tree(all[i].1) && proper(out@[i].1@),
            {
                let ghost k = out@.len() as int;
                let (key, item) = entry;
                proof {
                    assert((key, item) == all[k]);
                    match tree {
                        Tree::Object(seen) => {
                            assert(seen[k].1 == json_tree(item));
                            assert(decreases_to!(tree => seen[k].1));
                        },
                        _ => {},
                    }
                }
                out.push((key, from_value(item)));
            }
            proof {
                lemma_object_view(out);
                assert(entry_trees(out@) =~= Seq::new(
                    all.len(),
                    |i: int| (all[i].0@, json_tree(all[i].1)),
                ));
            }
            Json::Object(out)
        },
    }
}

/// The `serde_json::Value` that holds what `json` says.
fn to_value(json: &Json) -> (r: serde_json::Value)
    requires
        proper(json@),
    ensures
        json_tree(r) == json@,
    decreases json,
{
    match json {
        Json::Null => close_value(Level::Null),
        Json::Bool(b) => close_value(Level::Bool(*b)),
        Json::Integer(n) => close_value(Level::Integer(*n)),
        Json::Float(n) => close_value(Level::Float(n.clone())),
        Json::Text(s) => close_value(Level::Text(s.clone())),
        Json::Array(items) => {
            proof {
                lemma_array_view(*items);
                lemma_proper_items(trees(items@));
            }
            let out = to_values(items);
            close_value(Level::Array(out))
        },
        Json::Object(entries) => {
            let mut out: Vec<(String, serde_json::Value)> = Vec::new();
            let mut i: usize = 0;
            proof {
                lemma_object_view(*entries);
            }
            while i < entries.len()
                invariant
                    *json == Json::Object(*entries),
                    json@ == Tree::Object(entry_trees(entries@)),
                    proper(json@),
                    i <= entries@.len(),
                    out@.len() == i,
                    forall|k: int|
                        0 <= k < i ==> (#[trigger] out@[k]).0@ == entries@[k].0@ && json_tree(
                            out@[k].1,
                        ) == entries@[k].1@,
                decreases entries@.len() - i,
            {
                assert(entry_trees(entries@)[i as int].1 == entries@[i as int].1@);
                assert(decreases_to!(entries@ => entries@[i as int]));
                out.push((entries[i].0.clone(), to_value(&entries[i].1)));
                i += 1;
            }
            let level = Level::Object(out);
            assert(Seq::new(out@.len(), |k: int| (out@[k].0@, json_tree(out@[k].1)))
                =~= entry_trees(entries@));
            close_value(level)
        },
    }
}

/// The values of a proper array are proper.
pub proof fn lemma_proper_items(items: Seq<Tree>)
    requires
        proper(Tree::Array(items)),
    ensures
        forall|i: int| 0 <= i < items.len() ==> proper(#[trigger] items[i]),
{
    let t = Tree::Array(items);
    assert forall|i: int| 0 <= i < items.len() implies proper(#[trigger] items[i]) by {
        match t {
            Tree::Array(xs) => {
                assert(xs == items);
                assert(proper(xs[i]));
            },
            _ => {},
        }
    }
}

/// The `serde_json::Value`s that hold what `items` say.
fn to_values(items: &Vec<Json>) -> (r: Vec<serde_json::Value>)
    requires
        forall|i: int| 0 <= i < items@.len() ==> proper(#[trigger] trees(items@)[i]),
    ensures
        Seq::new(r@.len(), |k: int| json_tree(r@[k])) == trees(items@),
    decreases items,
{
    let mut out: Vec<serde_json::Value> = Vec::new();
    let mut i: usize = 0;
    while i < items.len()
        invariant
            forall|k: int| 0 <= k < items@.len() ==> proper(#[trigger] trees(items@)[k]),
            i <= items@.len(),
            out@.len() == i,
            forall|k: int| 0 <= k < i ==> json_tree(#[trigger] out@[k]) == items@[k]@,
        decreases items@.len() - i,
    {
        assert(proper(trees(items@)[i as int]));
        assert(decreases_to!(items => items@[i as int]));
        out.push(to_value(&items[i]));
        i += 1;
    }
    assert(Seq::new(out@.len(), |k: int| json_tree(out@[k])) =~= trees(items@));
    out
}

/// What an optional value says.
pub open spec fn opt_tree(json: Option<Json>) -> Option<Tree> {
    match json {
        Some(json) => Some(json@),
        None => None,
    }
}

/// What an optional reference to a value says.
pub open spec fn opt_ref_tree(json: Option<&Json>) -> Option<Tree> {
    match json {
        Some(json) => Some(json@),
        None => None,
    }
}

/// Reads a JSON text.
pub fn parse(source: &str) -> (r: Option<Json>)
    ensures
        opt_tree(r) == json_parse(source@),
        r matches Some(json) ==> proper(json@),
{
    match parse_value(source) {
        Some(value) => Some(from_value(value)),
        None => None,
    }
}

/// `json` on one line.
pub fn print(json: &Json) -> (r: String)
    requires
        proper(json@),
    ensures
        r@ == json_print(json@),
{
    let value = to_value(json);
    print_value(&value)
}

/// Reads JSON from bytes.
pub fn parse_bytes(data: &[u8]) -> (r: Option<Json>)
    ensures
        opt_tree(r) == json_parse_bytes(data@),
        r matches Some(json) ==> proper(json@),
{
    match parse_slice(data) {
        Some(value) => Some(from_value(value)),
        None => None,
    }
}

/// `json` over several lines, indented. An object of texts reads back as it
/// was, also with a line end behind it.
pub fn print_pretty(json: &Json) -> (r: String)
    requires
        proper(json@),
    ensures
        r@ == json_pretty(json@),
        texts_only(json@) ==> json_parse(r@) == Some(json@) && json_parse(r@.push('\n')) == Some(
            json@,
        ),
{
    let value = to_value(json);
    pretty_value(&value)
}

/// The value under `key` in the entries of an object.
pub open spec fn lookup(entries: Seq<(Seq<char>, Tree)>, key: Seq<char>) -> Option<Tree>
    decreases entries.len(),
{
    if entries.len() == 0 {
        None
    } else if entries[0].0 == key {
        Some(entries[0].1)
    } else {
        lookup(entries.skip(1), key)
    }
}

impl Tree {
    /// The value under `key`, where the tree is an object that has it.
    pub open spec fn get(self, key: Seq<char>) -> Option<Tree> {
        match self {
            Tree::Object(entries) => lookup(entries, key),
            _ => None,
        }
    }

    /// The text, where the tree is one.
    pub open spec fn as_text(self) -> Option<Seq<char>> {
        match self {
            Tree::Text(s) => Some(s),
            _ => None,
        }
    }

    /// The truth value, where the tree is one.
    pub open spec fn as_bool(self) -> Option<bool> {
        match self {
            Tree::Bool(b) => Some(b),
            _ => None,
        }
    }

    /// The number, where the tree is one that `u64` can hold.
    pub open spec fn as_u64(self) -> Option<u64> {
        match self {
            Tree::Integer(n) if 0 <= n <= u64::MAX => Some(n as u64),
            _ => None,
        }
    }

    /// The number, where the tree is one that `i64` can hold.
    pub open spec fn as_i64(self) -> Option<i64> {
        match self {
            Tree::Integer(n) if i64::MIN <= n <= i64::MAX => Some(n as i64),
            _ => None,
        }
    }
}

/// The text under `key`, where there is one.
pub open spec fn text_at(tree: Tree, key: Seq<char>) -> Option<Seq<char>> {
    match tree.get(key) {
        Some(value) => value.as_text(),
        None => None,
    }
}

/// A value that is found is one of the entries.
pub proof fn lemma_lookup_proper(entries: Seq<(Seq<char>, Tree)>, key: Seq<char>)
    requires
        forall|i: int| 0 <= i < entries.len() ==> proper((#[trigger] entries[i]).1),
    ensures
        lookup(entries, key) matches Some(tree) ==> proper(tree),
    decreases entries.len(),
{
    if entries.len() > 0 && entries[0].0 != key {
        let rest = entries.skip(1);
        assert forall|i: int| 0 <= i < rest.len() implies proper((#[trigger] rest[i]).1) by {
            assert(rest[i] == entries[i + 1]);
        }
        lemma_lookup_proper(rest, key);
    }
}

impl Json {
    /// A deep copy.
    pub fn copied(&self) -> (r: Json)
        ensures
            r@ == self@,
        decreases self,
    {
        match self {
            Json::Null => Json::Null,
            Json::Bool(b) => Json::Bool(*b),
            Json::Integer(n) => Json::Integer(*n),
            Json::Float(n) => Json::Float(n.clone()),
            Json::Text(s) => Json::Text(s.clone()),
            Json::Array(items) => {
                let out = copied_items(items);
                proof {
                    lemma_array_view(*items);
                    lemma_array_view(out);
                }
                Json::Array(out)
            },
            Json::Object(entries) => {
                let out = copied_entries(entries);
                proof {
                    lemma_object_view(*entries);
                    lemma_object_view(out);
                }
                Json::Object(out)
            },
        }
    }

    /// The value under `key`, where this is an object that has it.
    pub fn get(&self, key: &str) -> (r: Option<&Json>)
        ensures
            opt_ref_tree(r) == self@.get(key@),
            proper(self@) ==> (r matches Some(json) ==> proper(json@)),
    {
        match self {
            Json::Object(entries) => {
                proof {
                    lemma_object_view(*entries);
                    if proper(self@) {
                        lemma_lookup_proper(entry_trees(entries@), key@);
                    }
                }
                find_entry(entries, key)
            },
            _ => None,
        }
    }

    /// The text, where this is one.
    pub fn as_str(&self) -> (r: Option<&str>)
        ensures
            text::opt_str_view(r) == self@.as_text(),
    {
        match self {
            Json::Text(s) => Some(s.as_str()),
            _ => None,
        }
    }

    /// The truth value, where this is one.
    pub fn as_bool(&self) -> (r: Option<bool>)
        ensures
            r == self@.as_bool(),
    {
        match self {
            Json::Bool(b) => Some(*b),
            _ => None,
        }
    }

    /// The number, where this is one that `u64` can hold.
    pub fn as_u64(&self) -> (r: Option<u64>)
        ensures
            r == self@.as_u64(),
    {
        match self {
            Json::Integer(n) => if 0 <= *n && *n <= u64::MAX as i128 {
                Some(*n as u64)
            } else {
                None
            },
            _ => None,
        }
    }

    /// The number, where this is one that `i64` can hold.
    pub fn as_i64(&self) -> (r: Option<i64>)
        ensures
            r == self@.as_i64(),
    {
        match self {
            Json::Integer(n) => if i64::MIN as i128 <= *n && *n <= i64::MAX as i128 {
                Some(*n as i64)
            } else {
                None
            },
            _ => None,
        }
    }

    /// The text under `key`, where there is one.
    pub fn text_at(&self, key: &str) -> (r: Option<&str>)
        ensures
            text::opt_str_view(r) == text_at(self@, key@),
    {
        match self.get(key) {
            Some(value) => value.as_str(),
            None => None,
        }
    }
}

impl Clone for Json {
    fn clone(&self) -> (r: Self)
        ensures
            r@ == self@,
    {
        self.copied()
    }
}

/// A deep copy of the values of an array.
pub fn copied_items(items: &Vec<Json>) -> (r: Vec<Json>)
    ensures
        trees(r@) == trees(items@),
    decreases items,
{
    let mut out: Vec<Json> = Vec::new();
    let mut i: usize = 0;
    while i < items.len()
        invariant
            i <= items@.len(),
            out@.len() == i,
            forall|k: int| 0 <= k < i ==> (#[trigger] out@[k])@ == items@[k]@,
        decreases items@.len() - i,
    {
        assert(decreases_to!(items => items@[i as int]));
        out.push(items[i].copied());
        i += 1;
    }
    assert(trees(out@) =~= trees(items@));
    out
}

/// A deep copy of the entries of an object.
pub fn copied_entries(entries: &Vec<(String, Json)>) -> (r: Vec<(String, Json)>)
    ensures
        entry_trees(r@) == entry_trees(entries@),
    decreases entries,
{
    let mut out: Vec<(String, Json)> = Vec::new();
    let mut i: usize = 0;
    while i < entries.len()
        invariant
            i <= entries@.len(),
            out@.len() == i,
            forall|k: int|
                0 <= k < i ==> (#[trigger] out@[k]).0@ == entries@[k].0@ && out@[k].1@
                    == entries@[k].1@,
        decreases entries@.len() - i,
    {
        assert(decreases_to!(entries => entries@[i as int].1));
        out.push((entries[i].0.clone(), entries[i].1.copied()));
        i += 1;
    }
    assert(entry_trees(out@) =~= entry_trees(entries@));
    out
}

/// The value under `key` in the entries of an object.
pub fn find_entry<'a>(entries: &'a Vec<(String, Json)>, key: &str) -> (r: Option<&'a Json>)
    ensures
        opt_ref_tree(r) == lookup(entry_trees(entries@), key@),
{
    let mut i: usize = 0;
    let ghost all = entry_trees(entries@);
    assert(all.skip(0) =~= all);
    while i < entries.len()
        invariant
            i <= entries@.len(),
            all == entry_trees(entries@),
            lookup(all.skip(i as int), key@) == lookup(all, key@),
        decreases entries@.len() - i,
    {
        if text::same(&entries[i].0, key) {
            return Some(&entries[i].1);
        }
        assert(all.skip(i as int).skip(1) =~= all.skip(i + 1));
        i += 1;
    }
    None
}

/// The entries with `value` under `key`, in the order of the keys. What stood
/// under `key` before is replaced.
pub open spec fn inserted(
    entries: Seq<(Seq<char>, Tree)>,
    key: Seq<char>,
    value: Tree,
) -> Seq<(Seq<char>, Tree)>
    decreases entries.len(),
{
    if entries.len() == 0 || text::less(key, entries[0].0) {
        seq![(key, value)] + entries
    } else if entries[0].0 == key {
        seq![(key, value)] + entries.skip(1)
    } else {
        seq![entries[0]] + inserted(entries.skip(1), key, value)
    }
}

/// An entry goes behind those with smaller keys, in place of its own key.
proof fn lemma_inserted_at(entries: Seq<(Seq<char>, Tree)>, key: Seq<char>, value: Tree, at: int)
    requires
        0 <= at <= entries.len(),
        forall|i: int| 0 <= i < at ==> text::less((#[trigger] entries[i]).0, key),
        at < entries.len() ==> !text::less(entries[at].0, key),
    ensures
        inserted(entries, key, value) == entries.take(at).push((key, value)) + entries.skip(
            if at < entries.len() && entries[at].0 == key {
                at + 1
            } else {
                at
            },
        ),
    decreases at,
{
    let shown = inserted(entries, key, value);
    if at == 0 {
        if entries.len() > 0 {
            text::lemma_less_total(entries[0].0, key);
            if entries[0].0 == key {
                text::lemma_less_irreflexive(key);
            }
        }
        assert(shown =~= entries.take(at).push((key, value)) + entries.skip(
            if at < entries.len() && entries[at].0 == key {
                at + 1
            } else {
                at
            },
        ));
    } else {
        let rest = entries.skip(1);
        text::lemma_less_asymmetric(entries[0].0, key);
        assert forall|i: int| 0 <= i < at - 1 implies text::less((#[trigger] rest[i]).0, key) by {
            assert(rest[i] == entries[i + 1]);
        }
        lemma_inserted_at(rest, key, value, at - 1);
        assert(seq![entries[0]] + rest.take(at - 1).push((key, value)) =~= entries.take(at).push(
            (key, value),
        ));
        let cut = if at < entries.len() && entries[at].0 == key {
            at + 1
        } else {
            at
        };
        assert(rest.skip(cut - 1) =~= entries.skip(cut));
        assert(shown =~= entries.take(at).push((key, value)) + entries.skip(cut));
    }
}

/// Inserting keeps the keys in order.
proof fn lemma_inserted_in_order(
    entries: Seq<(Seq<char>, Tree)>,
    key: Seq<char>,
    value: Tree,
    at: int,
)
    requires
        keys_in_order(entries),
        0 <= at <= entries.len(),
        forall|i: int| 0 <= i < at ==> text::less((#[trigger] entries[i]).0, key),
        at < entries.len() ==> !text::less(entries[at].0, key),
    ensures
        keys_in_order(inserted(entries, key, value)),
{
    lemma_inserted_at(entries, key, value, at);
    let cut = if at < entries.len() && entries[at].0 == key {
        at + 1
    } else {
        at
    };
    let shown = inserted(entries, key, value);
    assert forall|i: int, j: int| 0 <= i < j < shown.len() implies text::less(
        #[trigger] shown[i].0,
        #[trigger] shown[j].0,
    ) by {
        if j < at {
            assert(shown[i] == entries[i] && shown[j] == entries[j]);
        } else if i > at {
            assert(shown[i] == entries[cut + i - at - 1] && shown[j] == entries[cut + j - at - 1]);
        } else if i == at {
            assert(shown[j] == entries[cut + j - at - 1]);
            text::lemma_less_total(entries[at].0, key);
            if cut + j - at - 1 > at {
                assert(text::less(entries[at].0, entries[cut + j - at - 1].0));
                if entries[at].0 != key {
                    text::lemma_less_transitive(key, entries[at].0, shown[j].0);
                }
            }
        } else if j > at {
            assert(shown[i] == entries[i] && shown[j] == entries[cut + j - at - 1]);
        } else {
            assert(shown[i] == entries[i]);
        }
    }
}

/// Puts `value` under `key`, in the order of the keys.
pub fn insert(entries: &mut Vec<(String, Json)>, key: &str, value: Json)
    requires
        keys_in_order(entry_trees(old(entries)@)),
    ensures
        entry_trees(final(entries)@) == inserted(entry_trees(old(entries)@), key@, value@),
        keys_in_order(entry_trees(final(entries)@)),
{
    let mut at: usize = 0;
    let ghost before = entry_trees(entries@);
    while at < entries.len() && text::comes_before(&entries[at].0, key)
        invariant
            at <= entries@.len(),
            before == entry_trees(entries@),
            forall|i: int| 0 <= i < at ==> text::less((#[trigger] before[i]).0, key@),
        decreases entries@.len() - at,
    {
        at += 1;
    }
    proof {
        lemma_inserted_at(before, key@, value@, at as int);
        lemma_inserted_in_order(before, key@, value@, at as int);
    }
    let ghost old_entries = entries@;
    if at < entries.len() && text::same(&entries[at].0, key) {
        entries.set(at, (text::copied(key), value));
    } else {
        entries.insert(at, (text::copied(key), value));
    }
    assert(entry_trees(entries@) =~= inserted(before, key@, value@));
}

/// What was put under a key is found under it, and every other key is as it was.
pub proof fn law_insert_then_lookup(
    entries: Seq<(Seq<char>, Tree)>,
    key: Seq<char>,
    value: Tree,
    other: Seq<char>,
)
    ensures
        lookup(inserted(entries, key, value), key) == Some(value),
        other != key ==> lookup(inserted(entries, key, value), other) == lookup(entries, other),
    decreases entries.len(),
{
    let shown = inserted(entries, key, value);
    if entries.len() == 0 || text::less(key, entries[0].0) {
        assert(shown.skip(1) =~= entries);
    } else if entries[0].0 == key {
        assert(shown.skip(1) =~= entries.skip(1));
    } else {
        law_insert_then_lookup(entries.skip(1), key, value, other);
        assert(shown.skip(1) =~= inserted(entries.skip(1), key, value));
    }
}

/// Inserting a proper value into proper entries gives proper ones.
pub proof fn lemma_inserted_values(
    entries: Seq<(Seq<char>, Tree)>,
    key: Seq<char>,
    value: Tree,
)
    requires
        forall|i: int| 0 <= i < entries.len() ==> proper((#[trigger] entries[i]).1),
        proper(value),
    ensures
        forall|i: int|
            0 <= i < inserted(entries, key, value).len() ==> proper(
                (#[trigger] inserted(entries, key, value)[i]).1,
            ),
    decreases entries.len(),
{
    let shown = inserted(entries, key, value);
    let rest = entries.skip(1);
    assert forall|i: int| 0 <= i < shown.len() implies proper((#[trigger] shown[i]).1) by {
        if entries.len() == 0 || text::less(key, entries[0].0) {
            if i > 0 {
                assert(shown[i] == entries[i - 1]);
            }
        } else if entries[0].0 == key {
            if i > 0 {
                assert(shown[i] == entries[i]);
            }
        } else {
            assert forall|k: int| 0 <= k < rest.len() implies proper((#[trigger] rest[k]).1) by {
                assert(rest[k] == entries[k + 1]);
            }
            lemma_inserted_values(rest, key, value);
            if i > 0 {
                assert(shown[i] == inserted(rest, key, value)[i - 1]);
            } else {
                assert(shown[i] == entries[0]);
            }
        }
    }
}

/// The entries of an object with the given keys and values. Of two values
/// under one key the later stands.
pub open spec fn object_of(pairs: Seq<(Seq<char>, Tree)>) -> Seq<(Seq<char>, Tree)>
    decreases pairs.len(),
{
    if pairs.len() == 0 {
        seq![]
    } else {
        inserted(object_of(pairs.drop_last()), pairs.last().0, pairs.last().1)
    }
}

/// A key and its value.
pub fn pair(key: &str, value: Json) -> (r: (String, Json))
    ensures
        r.0@ == key@,
        r.1@ == value@,
{
    (text::copied(key), value)
}

/// A text value.
pub fn text_value(content: &str) -> (r: Json)
    ensures
        r@ == Tree::Text(content@),
        proper(r@),
{
    Json::Text(text::copied(content))
}

/// The object with the given keys and values.
pub fn object(pairs: Vec<(String, Json)>) -> (r: Json)
    requires
        forall|i: int| 0 <= i < pairs@.len() ==> proper((#[trigger] pairs@[i]).1@),
    ensures
        r@ == Tree::Object(object_of(entry_trees(pairs@))),
        proper(r@),
{
    let ghost given = entry_trees(pairs@);
    let mut entries: Vec<(String, Json)> = Vec::new();
    assert(entry_trees(entries@) =~= object_of(given.take(0)));
    for entry in it: pairs
        invariant
            it.seq() == pairs@,
            given == entry_trees(pairs@),
            forall|i: int| 0 <= i < pairs@.len() ==> proper((#[trigger] pairs@[i]).1@),
            entry_trees(entries@) == object_of(given.take(it.index())),
            keys_in_order(entry_trees(entries@)),
            forall|i: int|
                0 <= i < entry_trees(entries@).len() ==> proper(
                    (#[trigger] entry_trees(entries@)[i]).1,
                ),
    {
        let (key, value) = entry;
        proof {
            let k = it.index();
            assert(given.take(k + 1).drop_last() =~= given.take(k));
            assert(given.take(k + 1).last() == given[k]);
            assert(proper(pairs@[k].1@));
            lemma_inserted_values(entry_trees(entries@), key@, value@);
        }
        insert(&mut entries, &key, value);
    }
    proof {
        assert(given.take(given.len() as int) =~= given);
        lemma_object_view(entries);
        lemma_proper_object(entry_trees(entries@));
    }
    Json::Object(entries)
}

/// Entries in order with proper values make a proper object.
pub proof fn lemma_proper_object(entries: Seq<(Seq<char>, Tree)>)
    requires
        keys_in_order(entries),
        forall|i: int| 0 <= i < entries.len() ==> proper((#[trigger] entries[i]).1),
    ensures
        proper(Tree::Object(entries)),
{
    let whole = Tree::Object(entries);
    match whole {
        Tree::Object(seen) => {
            assert(seen == entries);
            assert(forall|i: int| 0 <= i < seen.len() ==> proper((#[trigger] seen[i]).1));
        },
        _ => {},
    }
}

/// A proper object has its entries in order, with proper values.
pub proof fn lemma_object_proper(entries: Seq<(Seq<char>, Tree)>)
    requires
        proper(Tree::Object(entries)),
    ensures
        keys_in_order(entries),
        forall|i: int| 0 <= i < entries.len() ==> proper((#[trigger] entries[i]).1),
{
    let whole = Tree::Object(entries);
    assert forall|i: int| 0 <= i < entries.len() implies proper((#[trigger] entries[i]).1) by {
        match whole {
            Tree::Object(seen) => {
                assert(seen == entries);
                assert(proper(seen[i].1));
            },
            _ => {},
        }
    }
}

/// Proper values make a proper array.
pub proof fn lemma_proper_array(items: Seq<Tree>)
    requires
        forall|i: int| 0 <= i < items.len() ==> proper(#[trigger] items[i]),
    ensures
        proper(Tree::Array(items)),
{
    let whole = Tree::Array(items);
    match whole {
        Tree::Array(seen) => {
            assert(seen == items);
            assert(forall|i: int| 0 <= i < seen.len() ==> proper(#[trigger] seen[i]));
        },
        _ => {},
    }
}

/// The array with the given values.
pub fn array(items: Vec<Json>) -> (r: Json)
    requires
        forall|i: int| 0 <= i < items@.len() ==> proper((#[trigger] items@[i])@),
    ensures
        r@ == Tree::Array(trees(items@)),
        proper(r@),
{
    proof {
        lemma_array_view(items);
        assert forall|i: int| 0 <= i < trees(items@).len() implies proper(
            #[trigger] trees(items@)[i],
        ) by {
            assert(proper(items@[i]@));
        }
        lemma_proper_array(trees(items@));
    }
    Json::Array(items)
}

/// An object holds every pair that it is made of, where no later pair has the same key,
/// and has no other keys.
pub proof fn law_object_holds_its_pairs(pairs: Seq<(Seq<char>, Tree)>, key: Seq<char>)
    ensures
        forall|i: int|
            0 <= i < pairs.len() && (#[trigger] pairs[i]).0 == key && (forall|j: int|
                i < j < pairs.len() ==> (#[trigger] pairs[j]).0 != key) ==> Tree::Object(
                object_of(pairs),
            ).get(key) == Some(pairs[i].1),
        (forall|j: int| 0 <= j < pairs.len() ==> (#[trigger] pairs[j]).0 != key) ==> Tree::Object(
            object_of(pairs),
        ).get(key) is None,
    decreases pairs.len(),
{
    if pairs.len() > 0 {
        let rest = pairs.drop_last();
        let last = pairs[pairs.len() - 1];
        law_object_holds_its_pairs(rest, key);
        law_insert_then_lookup(object_of(rest), last.0, last.1, key);
        assert forall|i: int|
            0 <= i < pairs.len() && (#[trigger] pairs[i]).0 == key && (forall|j: int|
                i < j < pairs.len() ==> (#[trigger] pairs[j]).0 != key) implies Tree::Object(
            object_of(pairs),
        ).get(key) == Some(pairs[i].1) by {
            if i < rest.len() {
                assert(rest[i] == pairs[i]);
                assert forall|j: int| i < j < rest.len() implies (#[trigger] rest[j]).0 != key by {
                    assert(rest[j] == pairs[j]);
                }
            }
        }
        if forall|j: int| 0 <= j < pairs.len() ==> (#[trigger] pairs[j]).0 != key {
            assert forall|j: int| 0 <= j < rest.len() implies (#[trigger] rest[j]).0 != key by {
                assert(rest[j] == pairs[j]);
            }
        }
    }
}

/// The value under a key is the one of its first entry, and there is none where no entry
/// has the key.
pub proof fn law_first_entry_is_found(entries: Seq<(Seq<char>, Tree)>, key: Seq<char>)
    ensures
        forall|i: int|
            0 <= i < entries.len() && (#[trigger] entries[i]).0 == key && (forall|j: int|
                0 <= j < i ==> (#[trigger] entries[j]).0 != key) ==> Tree::Object(entries).get(key)
                == Some(entries[i].1),
        (forall|j: int| 0 <= j < entries.len() ==> (#[trigger] entries[j]).0 != key)
            ==> Tree::Object(entries).get(key) is None,
    decreases entries.len(),
{
    if entries.len() > 0 && entries[0].0 != key {
        let rest = entries.skip(1);
        law_first_entry_is_found(rest, key);
        assert forall|i: int|
            0 <= i < entries.len() && (#[trigger] entries[i]).0 == key && (forall|j: int|
                0 <= j < i ==> (#[trigger] entries[j]).0 != key) implies Tree::Object(entries).get(
            key,
        ) == Some(entries[i].1) by {
            assert(rest[i - 1] == entries[i]);
            assert forall|j: int| 0 <= j < i - 1 implies (#[trigger] rest[j]).0 != key by {
                assert(rest[j] == entries[j + 1]);
            }
        }
        if forall|j: int| 0 <= j < entries.len() ==> (#[trigger] entries[j]).0 != key {
            assert forall|j: int| 0 <= j < rest.len() implies (#[trigger] rest[j]).0 != key by {
                assert(rest[j] == entries[j + 1]);
            }
        }
    }
}

/// A whole number is handed out where the type can hold it, and no other value is.
pub proof fn law_whole_numbers_are_handed_out(tree: Tree, n: int)
    ensures
        forall|k: u64| #[trigger] tree.as_u64() == Some(k) <==> tree == Tree::Integer(k as int),
        forall|k: i64| #[trigger] tree.as_i64() == Some(k) <==> tree == Tree::Integer(k as int),
        n < 0 || n > 18446744073709551615 ==> Tree::Integer(n).as_u64() is None,
{
}

} // verus!
