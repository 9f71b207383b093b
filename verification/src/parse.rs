//! JSON texts, read by `serde_json`.
use crate::json::{entry_trees, keys_increase, trees, Json, JsonTree, Num, NumTree};
use crate::text::owned;
use vstd::prelude::*;

verus! {

/// A value that `serde_json` holds.
#[verifier::external_type_specification]
#[verifier::external_body]
pub struct ExValue(serde_json::Value);

/// A number that `serde_json` holds.
#[verifier::external_type_specification]
#[verifier::external_body]
pub struct ExNumber(serde_json::Number);

/// What `serde_json` says of a text that is no JSON.
#[verifier::external_type_specification]
#[verifier::external_body]
pub struct ExError(serde_json::Error);

/// What a number of `serde_json` is.
pub uninterp spec fn number_tree(n: serde_json::Number) -> NumTree;

/// What a value of `serde_json` is.
pub uninterp spec fn value_tree(v: serde_json::Value) -> JsonTree;

/// What `serde_json` reads in a text; nothing where the text is no JSON.
pub uninterp spec fn text_tree(text: Seq<char>) -> Option<JsonTree>;

/// What `serde_json` writes for a value, without white space.
pub uninterp spec fn compact(t: JsonTree) -> Seq<char>;

/// A value of `serde_json`, opened by one level.
pub enum Node<'a> {
    Null,
    Bool(bool),
    Num(&'a serde_json::Number),
    Text(&'a String),
    Array(&'a Vec<serde_json::Value>),
    Object(Vec<(&'a String, &'a serde_json::Value)>),
}

/// The trees of a list of values.
pub open spec fn value_trees(v: Seq<serde_json::Value>) -> Seq<JsonTree> {
    Seq::new(v.len(), |i: int| value_tree(v[i]))
}

/// The trees of a list of entries.
pub open spec fn member_trees(v: Seq<(&String, &serde_json::Value)>) -> Seq<
    (Seq<char>, JsonTree),
> {
    Seq::new(v.len(), |i: int| (v[i].0@, value_tree(*v[i].1)))
}

/// `node` is `t`, opened by one level.
pub open spec fn opens(t: JsonTree, node: Node) -> bool {
    match node {
        Node::Null => t == JsonTree::Null,
        Node::Bool(b) => t == JsonTree::Bool(b),
        Node::Num(n) => t == JsonTree::Num(number_tree(*n)),
        Node::Text(s) => t == JsonTree::Text(s@),
        Node::Array(a) => t == JsonTree::Array(value_trees(a@)),
        Node::Object(e) => t == JsonTree::Object(member_trees(e@)) && keys_increase(
            member_trees(e@),
        ),
    }
}

/// `serde_json::from_str` to a `serde_json::Value`: the value that the text names, or an error
/// where the text is no JSON.
#[verifier::external_body]
fn read_value(text: &str) -> (r: Result<serde_json::Value, serde_json::Error>)
    ensures
        r is Ok <==> text_tree(text@) is Some,
        r matches Ok(v) ==> text_tree(text@) == Some(value_tree(v)),
{
    serde_json::from_str::<serde_json::Value>(text)
}

/// The variants of `serde_json::Value`: which one `v` is, and what it holds. The members of an
/// object, a `serde_json::Map`, come in the order of their keys, and each key comes once.
#[verifier::external_body]
fn open_value(v: &serde_json::Value) -> (r: Node<'_>)
    ensures
        opens(value_tree(*v), r),
{
    match v {
        serde_json::Value::Null => Node::Null,
        serde_json::Value::Bool(b) => Node::Bool(*b),
        serde_json::Value::Number(n) => Node::Num(n),
        serde_json::Value::String(s) => Node::Text(s),
        serde_json::Value::Array(a) => Node::Array(a),
        serde_json::Value::Object(m) => Node::Object(m.iter().collect()),
    }
}

/// `serde_json::Number::as_u64`: the number, where it is an integer from zero on.
#[verifier::external_body]
fn number_as_u64(n: &serde_json::Number) -> (r: Option<u64>)
    ensures
        r == number_tree(*n).unsigned(),
{
    n.as_u64()
}

/// `serde_json::Number::as_i64`: the number, where it is an integer that fits.
#[verifier::external_body]
fn number_as_i64(n: &serde_json::Number) -> (r: Option<i64>)
    ensures
        r == number_tree(*n).signed(),
{
    n.as_i64()
}

/// `to_string` of a `serde_json::Number`: the text by which a number that is no integer is known.
#[verifier::external_body]
fn number_text(n: &serde_json::Number) -> (r: String)
    ensures
        number_tree(*n) matches NumTree::Float(s) ==> r@ == s,
{
    n.to_string()
}

/// `serde_json::Value::get` with a key: the member of an object with that key.
#[verifier::external_body]
fn value_get<'a>(v: &'a serde_json::Value, key: &str) -> (r: Option<&'a serde_json::Value>)
    ensures
        r is Some <==> value_tree(*v).field(key@) is Some,
        r matches Some(x) ==> value_tree(*v).field(key@) == Some(value_tree(*x)),
{
    v.get(key)
}

/// `to_string` of a `serde_json::Value`: its text without white space; `null` for the null value.
#[verifier::external_body]
fn value_text(v: &serde_json::Value) -> (r: String)
    ensures
        r@ == compact(value_tree(*v)),
        value_tree(*v) is Null ==> r@ == "null"@,
{
    v.to_string()
}

fn number_of(n: &serde_json::Number) -> (r: Num)
    ensures
        r@ == number_tree(*n),
{
    match number_as_u64(n) {
        Some(u) => Num::PosInt(u),
        None => match number_as_i64(n) {
            Some(i) => Num::NegInt(i),
            None => Num::Float(number_text(n)),
        },
    }
}

/// The JSON value that `v` is.
fn json_of(v: &serde_json::Value) -> (r: Json)
    ensures
        r@ == value_tree(*v),
        r@.wf(),
    decreases value_tree(*v),
{
    let ghost t = value_tree(*v);
    let r = match open_value(v) {
        Node::Null => Json::Null,
        Node::Bool(b) => Json::Bool(b),
        Node::Num(n) => Json::Num(number_of(n)),
        Node::Text(s) => Json::Text(owned(s.as_str())),
        Node::Array(a) => {
            let mut out: Vec<Json> = Vec::new();
            for i in 0..a.len()
                invariant
                    t == value_tree(*v),
                    t == JsonTree::Array(value_trees(a@)),
                    trees(out@) == value_trees(a@).take(i as int),
                    forall|j: int| 0 <= j < out.len() ==> (#[trigger] out@[j])@.wf(),
            {
                let ghost prev = out@;
                assert(decreases_to!(t => t->Array_0[i as int]));
                let value = json_of(&a[i]);
                out.push(value);
                assert(trees(out@) =~= trees(prev).push(value_tree(a@[i as int])));
                assert(trees(out@) =~= value_trees(a@).take(i as int + 1));
            }
            assert(trees(out@) =~= value_trees(a@));
            Json::Array(out)
        },
        Node::Object(e) => {
            let mut out: Vec<(String, Json)> = Vec::new();
            for i in 0..e.len()
                invariant
                    t == value_tree(*v),
                    t == JsonTree::Object(member_trees(e@)),
                    entry_trees(out@) == member_trees(e@).take(i as int),
                    forall|j: int| 0 <= j < out.len() ==> (#[trigger] out@[j]).1@.wf(),
            {
                let ghost prev = out@;
                assert(decreases_to!(t => t->Object_0[i as int].1));
                let key = owned(e[i].0.as_str());
                let value = json_of(e[i].1);
                out.push((key, value));
                assert(entry_trees(out@) =~= entry_trees(prev).push(member_trees(e@)[i as int]));
                assert(entry_trees(out@) =~= member_trees(e@).take(i as int + 1));
            }
            assert(entry_trees(out@) =~= member_trees(e@));
            Json::Object(out)
        },
    };
    let ghost g = r;
    proof {
        g.lemma_tree();
        match g {
            Json::Array(a) => {
                assert forall|i: int| 0 <= i < g@->Array_0.len() implies (
                #[trigger] g@->Array_0[i]).wf() by {
                    assert(a@[i]@.wf());
                }
            },
            Json::Object(e) => {
                assert forall|i: int| 0 <= i < g@->Object_0.len() implies (
                #[trigger] g@->Object_0[i]).1.wf() by {
                    assert(e@[i].1@.wf());
                }
            },
            _ => {},
        }
    }
    r
}

/// Reads a JSON text.
pub fn parse_json(text: &str) -> (r: Result<Json, serde_json::Error>)
    ensures
        r is Ok <==> text_tree(text@) is Some,
        r matches Ok(j) ==> text_tree(text@) == Some(j@) && j@.wf(),
{
    match read_value(text) {
        Ok(v) => Ok(json_of(&v)),
        Err(e) => Err(e),
    }
}

/// The keys of a path.
pub open spec fn path_of(keys: Seq<&str>) -> Seq<Seq<char>> {
    Seq::new(keys.len(), |i: int| keys[i]@)
}

/// The text, without white space, of what `keys` lead to in a JSON text.
pub fn compact_at(text: &str, keys: &Vec<&str>) -> (r: Option<String>)
    ensures
        r is Some <==> text_tree(text@) is Some && text_tree(text@)->0.at(path_of(keys@)) is Some,
        r matches Some(s) ==> {
            &&& s@ == compact(text_tree(text@)->0.at(path_of(keys@))->0)
            &&& text_tree(text@)->0.at(path_of(keys@))->0 is Null ==> s@ == "null"@
        },
{
    let ghost path = path_of(keys@);
    match read_value(text) {
        Ok(v) => {
            let mut here = &v;
            assert(path.skip(0) =~= path);
            for i in 0..keys.len()
                invariant
                    path == path_of(keys@),
                    text_tree(text@) == Some(value_tree(v)),
                    value_tree(v).at(path) == value_tree(*here).at(path.skip(i as int)),
            {
                assert(path.skip(i as int).skip(1) =~= path.skip(i as int + 1));
                match value_get(here, keys[i]) {
                    Some(x) => {
                        here = x;
                    },
                    None => {
                        return None;
                    },
                }
            }
            Some(value_text(here))
        },
        Err(_) => None,
    }
}

} // verus!
