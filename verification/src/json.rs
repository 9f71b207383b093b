//! JSON values.
use crate::order::{lex_less, text_rank};
use crate::text::{owned, same_text, trim, trimmed};
use vstd::prelude::*;

verus! {

/// A number of a JSON text.
#[derive(Debug, PartialEq, Eq)]
pub enum Num {
    /// An integer from zero on.
    PosInt(u64),
    /// An integer below zero.
    NegInt(i64),
    /// Any other number, by its decimal text.
    Float(String),
}

/// A JSON value.
#[derive(Debug, PartialEq, Eq)]
pub enum Json {
    Null,
    Bool(bool),
    Num(Num),
    Text(String),
    Array(Vec<Json>),
    /// The entries of an object; no key occurs twice.
    Object(Vec<(String, Json)>),
}

/// What a number is.
#[verifier::ext_equal]
pub enum NumTree {
    PosInt(u64),
    NegInt(i64),
    Float(Seq<char>),
}

/// What a JSON value is.
#[verifier::ext_equal]
pub enum JsonTree {
    Null,
    Bool(bool),
    Num(NumTree),
    Text(Seq<char>),
    Array(Seq<JsonTree>),
    Object(Seq<(Seq<char>, JsonTree)>),
}

impl View for Num {
    type V = NumTree;

    open spec fn view(&self) -> NumTree {
        match *self {
            Num::PosInt(n) => NumTree::PosInt(n),
            Num::NegInt(n) => NumTree::NegInt(n),
            Num::Float(s) => NumTree::Float(s@),
        }
    }
}

impl View for Json {
    type V = JsonTree;

    open spec fn view(&self) -> JsonTree {
        self.tree()
    }
}

/// The trees of a list of values.
pub open spec fn trees(v: Seq<Json>) -> Seq<JsonTree> {
    Seq::new(v.len(), |i: int| v[i]@)
}

/// The trees of a list of entries.
pub open spec fn entry_trees(v: Seq<(String, Json)>) -> Seq<(Seq<char>, JsonTree)> {
    Seq::new(v.len(), |i: int| (v[i].0@, v[i].1@))
}

/// The value of the first entry with the key `key`.
pub open spec fn entry(entries: Seq<(Seq<char>, JsonTree)>, key: Seq<char>) -> Option<JsonTree>
    decreases entries.len(),
{
    if entries.len() == 0 {
        None
    } else if entries[0].0 == key {
        Some(entries[0].1)
    } else {
        entry(entries.skip(1), key)
    }
}

/// The entries stand in the order of their keys, and no key occurs twice.
pub open spec fn keys_increase(entries: Seq<(Seq<char>, JsonTree)>) -> bool {
    forall|i: int, j: int|
        0 <= i < j < entries.len() ==> lex_less(
            text_rank((#[trigger] entries[i]).0),
            text_rank((#[trigger] entries[j]).0),
        )
}

impl NumTree {
    /// The number, where it is an integer from zero on that fits.
    pub open spec fn unsigned(self) -> Option<u64> {
        match self {
            NumTree::PosInt(n) => Some(n),
            _ => None,
        }
    }

    /// The number, where it is an integer that fits a signed word.
    pub open spec fn signed(self) -> Option<i64> {
        match self {
            NumTree::PosInt(n) => if n <= i64::MAX {
                Some(n as i64)
            } else {
                None
            },
            NumTree::NegInt(n) => Some(n),
            NumTree::Float(_) => None,
        }
    }
}

impl JsonTree {
    /// The entry of an object with the key `key`.
    pub open spec fn field(self, key: Seq<char>) -> Option<JsonTree> {
        match self {
            JsonTree::Object(entries) => entry(entries, key),
            _ => None,
        }
    }

    /// What `path` leads to, one key of an object after the other.
    pub open spec fn at(self, path: Seq<Seq<char>>) -> Option<JsonTree>
        decreases path.len(),
    {
        if path.len() == 0 {
            Some(self)
        } else {
            match self.field(path[0]) {
                Some(t) => t.at(path.skip(1)),
                None => None,
            }
        }
    }

    /// The text of a string.
    pub open spec fn text(self) -> Option<Seq<char>> {
        match self {
            JsonTree::Text(s) => Some(s),
            _ => None,
        }
    }

    /// The text of the string under `key`.
    pub open spec fn text_at(self, key: Seq<char>) -> Option<Seq<char>> {
        match self.field(key) {
            Some(t) => t.text(),
            None => None,
        }
    }

    /// The number, where it is an integer from zero on that fits.
    pub open spec fn unsigned(self) -> Option<u64> {
        match self {
            JsonTree::Num(n) => n.unsigned(),
            _ => None,
        }
    }

    /// The number, where it is an integer that fits a signed word.
    pub open spec fn signed(self) -> Option<i64> {
        match self {
            JsonTree::Num(n) => n.signed(),
            _ => None,
        }
    }

    /// The count that the value stands for: an integer from zero on as it is, one below zero as
    /// zero.
    pub open spec fn count(self) -> Option<u64> {
        match self {
            JsonTree::Num(NumTree::PosInt(n)) => Some(n),
            JsonTree::Num(NumTree::NegInt(n)) => Some(if n > 0 {
                n as u64
            } else {
                0
            }),
            _ => None,
        }
    }

    /// The count under `key`; zero where there is none.
    pub open spec fn count_at(self, key: Seq<char>) -> u64 {
        match self.field(key) {
            Some(t) => match t.count() {
                Some(n) => n,
                None => 0,
            },
            None => 0,
        }
    }

    /// Every object in the value keeps its entries in the order of their keys.
    pub open spec fn wf(self) -> bool
        decreases self,
    {
        match self {
            JsonTree::Array(a) => forall|i: int| 0 <= i < a.len() ==> (#[trigger] a[i]).wf(),
            JsonTree::Object(e) => {
                &&& keys_increase(e)
                &&& forall|i: int| 0 <= i < e.len() ==> (#[trigger] e[i]).1.wf()
            },
            _ => true,
        }
    }
}

impl Num {
    /// The number, where it is an integer from zero on that fits.
    pub fn as_u64(&self) -> (r: Option<u64>)
        ensures
            r == self@.unsigned(),
    {
        match self {
            Num::PosInt(n) => Some(*n),
            _ => None,
        }
    }

    /// The number, where it is an integer that fits a signed word.
    pub fn as_i64(&self) -> (r: Option<i64>)
        ensures
            r == self@.signed(),
    {
        match self {
            Num::PosInt(n) => if *n <= i64::MAX as u64 {
                Some(*n as i64)
            } else {
                None
            },
            Num::NegInt(n) => Some(*n),
            Num::Float(_) => None,
        }
    }

    /// A copy of the number.
    pub fn copy(&self) -> (r: Num)
        ensures
            r@ == self@,
    {
        match self {
            Num::PosInt(n) => Num::PosInt(*n),
            Num::NegInt(n) => Num::NegInt(*n),
            Num::Float(s) => Num::Float(owned(s.as_str())),
        }
    }
}

proof fn lemma_entry_is(entries: Seq<(Seq<char>, JsonTree)>, key: Seq<char>, k: int)
    requires
        0 <= k <= entries.len(),
        forall|j: int| 0 <= j < k ==> (#[trigger] entries[j]).0 != key,
        k < entries.len() ==> entries[k].0 == key,
    ensures
        entry(entries, key) == if k < entries.len() {
            Some(entries[k].1)
        } else {
            None
        },
    decreases k,
{
    if k > 0 {
        assert forall|j: int| 0 <= j < k - 1 implies (#[trigger] entries.skip(1)[j]).0 != key by {
            assert(entries[j + 1].0 != key);
        }
        lemma_entry_is(entries.skip(1), key, k - 1);
    }
}

/// An entry behind others is found by its key, where none of those has it.
pub broadcast proof fn lemma_entry_push(
    entries: Seq<(Seq<char>, JsonTree)>,
    last: (Seq<char>, JsonTree),
    key: Seq<char>,
)
    ensures
        #[trigger] entry(entries.push(last), key) == (match entry(entries, key) {
            Some(t) => Some(t),
            None => if last.0 == key {
                Some(last.1)
            } else {
                None
            },
        }),
    decreases entries.len(),
{
    let all = entries.push(last);
    if entries.len() == 0 {
        assert(all.skip(1) =~= Seq::<(Seq<char>, JsonTree)>::empty());
    } else {
        assert(all.skip(1) =~= entries.skip(1).push(last));
        if entries[0].0 != key {
            lemma_entry_push(entries.skip(1), last, key);
        }
    }
}

/// The first entry with the key `key`.
pub fn find_entry<'a>(entries: &'a Vec<(String, Json)>, key: &str) -> (r: Option<&'a Json>)
    ensures
        r is Some <==> entry(entry_trees(entries@), key@) is Some,
        r matches Some(j) ==> entry(entry_trees(entries@), key@) == Some(j@),
{
    let ghost trees = entry_trees(entries@);
    for i in 0..entries.len()
        invariant
            trees == entry_trees(entries@),
            forall|j: int| 0 <= j < i ==> (#[trigger] trees[j]).0 != key@,
    {
        assert(trees[i as int].0 == entries@[i as int].0@);
        if same_text(entries[i].0.as_str(), key) {
            proof {
                lemma_entry_is(trees, key@, i as int);
            }
            return Some(&entries[i].1);
        }
    }
    proof {
        lemma_entry_is(trees, key@, trees.len() as int);
    }
    None
}

impl Json {
    /// What the value is.
    pub open spec fn tree(self) -> JsonTree
        decreases self,
    {
        match self {
            Json::Null => JsonTree::Null,
            Json::Bool(b) => JsonTree::Bool(b),
            Json::Num(n) => JsonTree::Num(n@),
            Json::Text(s) => JsonTree::Text(s@),
            Json::Array(a) => JsonTree::Array(
                Seq::new(
                    a@.len(),
                    |i: int|
                        if 0 <= i < a@.len() {
                            a@[i].tree()
                        } else {
                            JsonTree::Null
                        },
                ),
            ),
            Json::Object(e) => JsonTree::Object(
                Seq::new(
                    e@.len(),
                    |i: int|
                        if 0 <= i < e@.len() {
                            (e@[i].0@, e@[i].1.tree())
                        } else {
                            (Seq::empty(), JsonTree::Null)
                        },
                ),
            ),
        }
    }

    /// A list is the list of its trees, and an object that of its entries.
    pub proof fn lemma_tree(self)
        ensures
            self matches Json::Array(a) ==> self@ == JsonTree::Array(trees(a@)),
            self matches Json::Object(e) ==> self@ == JsonTree::Object(entry_trees(e@)),
    {
        match self {
            Json::Array(a) => {
                assert(self@->Array_0 =~= trees(a@));
            },
            Json::Object(e) => {
                assert(self@->Object_0 =~= entry_trees(e@));
            },
            _ => {},
        }
    }

    /// The entry of an object with the key `key`.
    pub fn get(&self, key: &str) -> (r: Option<&Json>)
        ensures
            r is Some <==> self@.field(key@) is Some,
            r matches Some(j) ==> self@.field(key@) == Some(j@),
    {
        proof {
            self.lemma_tree();
        }
        match self {
            Json::Object(entries) => find_entry(entries, key),
            _ => None,
        }
    }

    /// Whether the object has an entry with the key `key`.
    pub fn has(&self, key: &str) -> (r: bool)
        ensures
            r == self@.field(key@) is Some,
    {
        self.get(key).is_some()
    }

    /// The text of a string.
    pub fn as_str(&self) -> (r: Option<&str>)
        ensures
            r is Some <==> self@.text() is Some,
            r matches Some(s) ==> self@.text() == Some(s@),
    {
        match self {
            Json::Text(s) => Some(s.as_str()),
            _ => None,
        }
    }

    /// The text of the string under `key`.
    pub fn get_str(&self, key: &str) -> (r: Option<&str>)
        ensures
            r is Some <==> self@.text_at(key@) is Some,
            r matches Some(s) ==> self@.text_at(key@) == Some(s@),
    {
        match self.get(key) {
            Some(j) => j.as_str(),
            None => None,
        }
    }

    /// The number, where it is an integer from zero on that fits.
    pub fn as_u64(&self) -> (r: Option<u64>)
        ensures
            r == self@.unsigned(),
    {
        match self {
            Json::Num(n) => n.as_u64(),
            _ => None,
        }
    }

    /// The number, where it is an integer that fits a signed word.
    pub fn as_i64(&self) -> (r: Option<i64>)
        ensures
            r == self@.signed(),
    {
        match self {
            Json::Num(n) => n.as_i64(),
            _ => None,
        }
    }

    /// The count that the value stands for.
    pub fn as_count(&self) -> (r: Option<u64>)
        ensures
            r == self@.count(),
    {
        match self.as_u64() {
            Some(n) => Some(n),
            None => match self.as_i64() {
                Some(i) => Some(if i > 0 {
                    i as u64
                } else {
                    0
                }),
                None => None,
            },
        }
    }

    /// A copy of the value.
    pub fn copy(&self) -> (r: Json)
        ensures
            r@ == self@,
        decreases *self,
    {
        proof {
            self.lemma_tree();
        }
        let r = match self {
            Json::Null => Json::Null,
            Json::Bool(b) => Json::Bool(*b),
            Json::Num(n) => Json::Num(n.copy()),
            Json::Text(s) => Json::Text(owned(s.as_str())),
            Json::Array(a) => {
                let mut out: Vec<Json> = Vec::new();
                for i in 0..a.len()
                    invariant
                        *self == Json::Array(*a),
                        trees(out@) == trees(a@).take(i as int),
                {
                    let ghost prev = out@;
                    assert(decreases_to!(*self => self->Array_0@[i as int]));
                    let value = a[i].copy();
                    out.push(value);
                    assert(trees(out@) =~= trees(prev).push(a@[i as int]@));
                    assert(trees(out@) =~= trees(a@).take(i as int + 1));
                }
                assert(trees(out@) =~= trees(a@));
                Json::Array(out)
            },
            Json::Object(e) => {
                let mut out: Vec<(String, Json)> = Vec::new();
                for i in 0..e.len()
                    invariant
                        *self == Json::Object(*e),
                        entry_trees(out@) == entry_trees(e@).take(i as int),
                {
                    let ghost prev = out@;
                    assert(decreases_to!(*self => self->Object_0@[i as int].1));
                    let key = owned(e[i].0.as_str());
                    let value = e[i].1.copy();
                    out.push((key, value));
                    assert(entry_trees(out@) =~= entry_trees(prev).push(
                        (e@[i as int].0@, e@[i as int].1@),
                    ));
                    assert(entry_trees(out@) =~= entry_trees(e@).take(i as int + 1));
                }
                assert(entry_trees(out@) =~= entry_trees(e@));
                Json::Object(out)
            },
        };
        proof {
            r.lemma_tree();
        }
        r
    }
}

/// The count under `key` of `v`; zero where there is none.
pub fn json_u64(v: &Json, key: &str) -> (r: u64)
    ensures
        r == v@.count_at(key@),
{
    match v.get(key) {
        Some(x) => match x.as_count() {
            Some(n) => n,
            None => 0,
        },
        None => 0,
    }
}

/// The string under `key` without white space at its ends, where anything is left of it.
pub open spec fn opt_str(t: JsonTree, key: Seq<char>) -> Option<Seq<char>> {
    match t.text_at(key) {
        Some(s) => if trimmed(s).len() > 0 {
            Some(trimmed(s))
        } else {
            None
        },
        None => None,
    }
}

/// The text of an optional string.
pub open spec fn opt_text(s: Option<String>) -> Option<Seq<char>> {
    match s {
        Some(s) => Some(s@),
        None => None,
    }
}

/// The string under `key` without white space at its ends, where anything is left of it.
pub fn json_opt_str(obj: &Json, key: &str) -> (r: Option<String>)
    ensures
        opt_text(r) == opt_str(obj@, key@),
{
    match obj.get_str(key) {
        Some(s) => {
            let t = trim(s);
            if t.as_str().is_empty() {
                None
            } else {
                Some(t)
            }
        },
        None => None,
    }
}

/// The text of an optional reference.
pub open spec fn ref_text(s: Option<&str>) -> Option<Seq<char>> {
    match s {
        Some(s) => Some(s@),
        None => None,
    }
}

/// An owned copy of an optional text.
pub fn owned_opt(s: Option<&str>) -> (r: Option<String>)
    ensures
        opt_text(r) == ref_text(s),
{
    match s {
        Some(s) => Some(owned(s)),
        None => None,
    }
}

/// A copy of an optional text.
pub fn copy_opt(s: &Option<String>) -> (r: Option<String>)
    ensures
        opt_text(r) == opt_text(*s),
{
    match s {
        Some(s) => Some(owned(s.as_str())),
        None => None,
    }
}

/// A text, where there is one; else the other.
pub open spec fn text_or(s: Option<Seq<char>>, other: Seq<char>) -> Seq<char> {
    match s {
        Some(s) => s,
        None => other,
    }
}

/// A text, where there is one; else the other.
pub fn str_or<'a>(s: &'a Option<String>, other: &'a str) -> (r: &'a str)
    ensures
        r@ == text_or(opt_text(*s), other@),
{
    match s {
        Some(s) => s.as_str(),
        None => other,
    }
}

/// A string where there is a text, else nothing.
pub open spec fn opt_tree(s: Option<Seq<char>>) -> JsonTree {
    match s {
        Some(s) => JsonTree::Text(s),
        None => JsonTree::Null,
    }
}

/// A string where there is a text, else nothing.
pub fn opt_json(s: &Option<String>) -> (r: Json)
    ensures
        r@ == opt_tree(opt_text(*s)),
{
    match s {
        Some(s) => Json::Text(owned(s.as_str())),
        None => Json::Null,
    }
}

/// A string.
pub fn text_json(s: &str) -> (r: Json)
    ensures
        r@ == JsonTree::Text(s@),
{
    Json::Text(owned(s))
}

/// A count.
pub fn count_json(n: u64) -> (r: Json)
    ensures
        r@ == JsonTree::Num(NumTree::PosInt(n)),
{
    Json::Num(Num::PosInt(n))
}

/// No entries.
pub open spec fn no_entries() -> Seq<(Seq<char>, JsonTree)> {
    Seq::empty()
}

/// No entries.
pub fn start_entries() -> (r: Vec<(String, Json)>)
    ensures
        entry_trees(r@) == no_entries(),
{
    let r: Vec<(String, Json)> = Vec::new();
    assert(entry_trees(r@) =~= no_entries());
    r
}

/// Puts an entry behind those of an object.
pub fn put(entries: &mut Vec<(String, Json)>, key: &str, value: Json)
    ensures
        entry_trees(final(entries)@) == entry_trees(old(entries)@).push((key@, value@)),
{
    let ghost before = entries@;
    let ghost t = value@;
    entries.push((owned(key), value));
    assert(entry_trees(entries@) =~= entry_trees(before).push((key@, t)));
}

/// The object with the entries `entries`.
pub fn object(entries: Vec<(String, Json)>) -> (r: Json)
    ensures
        r@ == JsonTree::Object(entry_trees(entries@)),
{
    let r = Json::Object(entries);
    proof {
        r.lemma_tree();
    }
    r
}

/// Puts a value behind those of a list.
pub fn put_item(list: &mut Vec<Json>, value: Json)
    ensures
        trees(final(list)@) == trees(old(list)@).push(value@),
{
    let ghost before = list@;
    let ghost t = value@;
    list.push(value);
    assert(trees(list@) =~= trees(before).push(t));
}

/// The list of the values `list`.
pub fn array(list: Vec<Json>) -> (r: Json)
    ensures
        r@ == JsonTree::Array(trees(list@)),
{
    let r = Json::Array(list);
    proof {
        r.lemma_tree();
    }
    r
}

} // verus!
