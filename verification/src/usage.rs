//! Usage records in the lines of a session log.
use crate::json::{entry_trees, json_u64, trees, Json, JsonTree};
use crate::order::{lemma_filter_members, lex_less, Place, SortKey};
use crate::text::same_text;
use vstd::prelude::*;

verus! {

/// The trees of a list of references.
pub open spec fn ref_trees(v: Seq<&Json>) -> Seq<JsonTree> {
    Seq::new(v.len(), |i: int| v[i]@)
}

/// An object that records a usage: it counts the input, the output and the total.
pub open spec fn is_usage(t: JsonTree) -> bool {
    &&& t.field("inputTokens"@) is Some
    &&& t.field("outputTokens"@) is Some
    &&& t.field("totalTokens"@) is Some
}

/// The usage records in a value, each in front of those inside it. The usage per model inside a
/// record is part of that record.
pub open spec fn usage_dicts(t: JsonTree) -> Seq<JsonTree>
    decreases t,
{
    match t {
        JsonTree::Object(e) => if is_usage(t) {
            seq![t] + usage_dicts_in_entries(e, true)
        } else {
            usage_dicts_in_entries(e, false)
        },
        JsonTree::Array(a) => usage_dicts_in_list(a),
        _ => Seq::empty(),
    }
}

/// The usage records in a list of values.
pub open spec fn usage_dicts_in_list(a: Seq<JsonTree>) -> Seq<JsonTree>
    decreases a,
{
    if a.len() == 0 {
        Seq::empty()
    } else {
        usage_dicts_in_list(a.drop_last()) + usage_dicts(a.last())
    }
}

/// The usage records in the entries of an object; of a usage record, without those per model.
pub open spec fn usage_dicts_in_entries(
    e: Seq<(Seq<char>, JsonTree)>,
    of_usage: bool,
) -> Seq<JsonTree>
    decreases e,
{
    if e.len() == 0 {
        Seq::empty()
    } else {
        usage_dicts_in_entries(e.drop_last(), of_usage) + (if of_usage && e.last().0
            == "modelUsage"@ {
            Seq::empty()
        } else {
            usage_dicts(e.last().1)
        })
    }
}

/// Puts the usage records in `v` behind those in `out`.
pub fn walk_usage_dicts<'a>(v: &'a Json, out: &mut Vec<&'a Json>)
    ensures
        ref_trees(final(out)@) == ref_trees(old(out)@) + usage_dicts(v@),
    decreases *v,
{
    proof {
        v.lemma_tree();
    }
    let ghost start = ref_trees(out@);
    match v {
        Json::Object(entries) => {
            let of_usage = v.has("inputTokens") && v.has("outputTokens") && v.has("totalTokens");
            if of_usage {
                let ghost prev = out@;
                out.push(v);
                assert(ref_trees(out@) =~= ref_trees(prev).push(v@));
                assert(ref_trees(out@) =~= start + seq![v@]);
            }
            let ghost e = entry_trees(entries@);
            let ghost own = if of_usage {
                seq![v@]
            } else {
                Seq::empty()
            };
            for i in 0..entries.len()
                invariant
                    *v == Json::Object(*entries),
                    e == entry_trees(entries@),
                    ref_trees(out@) == start + own + usage_dicts_in_entries(
                        e.take(i as int),
                        of_usage,
                    ),
            {
                assert(decreases_to!(*v => v->Object_0@[i as int].1));
                assert(e.take(i as int + 1).drop_last() =~= e.take(i as int));
                if !(of_usage && same_text(entries[i].0.as_str(), "modelUsage")) {
                    let ghost before = ref_trees(out@);
                    walk_usage_dicts(&entries[i].1, out);
                    assert(ref_trees(out@) =~= start + own + usage_dicts_in_entries(
                        e.take(i as int + 1),
                        of_usage,
                    ));
                } else {
                    assert(ref_trees(out@) =~= start + own + usage_dicts_in_entries(
                        e.take(i as int + 1),
                        of_usage,
                    ));
                }
            }
            assert(e.take(entries@.len() as int) =~= e);
            assert(ref_trees(out@) =~= start + usage_dicts(v@));
        },
        Json::Array(a) => {
            let ghost list = trees(a@);
            for i in 0..a.len()
                invariant
                    *v == Json::Array(*a),
                    list == trees(a@),
                    ref_trees(out@) == start + usage_dicts_in_list(list.take(i as int)),
            {
                assert(decreases_to!(*v => v->Array_0@[i as int]));
                assert(list.take(i as int + 1).drop_last() =~= list.take(i as int));
                walk_usage_dicts(&a[i], out);
                assert(ref_trees(out@) =~= start + usage_dicts_in_list(list.take(i as int + 1)));
            }
            assert(list.take(a@.len() as int) =~= list);
        },
        _ => {
            assert(ref_trees(out@) =~= start + usage_dicts(v@));
        },
    }
}

/// A record that covers a whole request: it has a price or the usage per model.
pub open spec fn covers_request(t: JsonTree) -> bool {
    t.field("costUsdTicks"@) is Some || t.field("modelUsage"@) is Some
}

/// The records that cover a whole request, where there are any; else all.
pub open spec fn preferred(found: Seq<JsonTree>) -> Seq<JsonTree> {
    let top = found.filter(|t: JsonTree| covers_request(t));
    if top.len() == 0 {
        found
    } else {
        top
    }
}

/// The records that cover a whole request, where there are any; else all.
pub fn prefer_usage<'a>(found: Vec<&'a Json>) -> (r: Vec<&'a Json>)
    ensures
        ref_trees(r@) == preferred(ref_trees(found@)),
{
    let ghost all = ref_trees(found@);
    let ghost p = |t: JsonTree| covers_request(t);
    let mut top: Vec<&'a Json> = Vec::new();
    proof {
        reveal(Seq::filter);
        assert(all.take(0).filter(p) =~= ref_trees(top@));
    }
    for i in 0..found.len()
        invariant
            all == ref_trees(found@),
            p == (|t: JsonTree| covers_request(t)),
            ref_trees(top@) == all.take(i as int).filter(p),
    {
        proof {
            reveal(Seq::filter);
            assert(all.take(i as int + 1).drop_last() =~= all.take(i as int));
            assert(all.take(i as int + 1).last() == found@[i as int]@);
        }
        let u = found[i];
        if u.has("costUsdTicks") || u.has("modelUsage") {
            let ghost prev = top@;
            top.push(u);
            assert(ref_trees(top@) =~= ref_trees(prev).push(u@));
        }
    }
    assert(all.take(found@.len() as int) =~= all);
    if top.len() == 0 {
        found
    } else {
        top
    }
}

/// The usage records that one log line counts.
pub open spec fn line_usage(t: JsonTree) -> Seq<JsonTree> {
    preferred(usage_dicts(t))
}

/// The usage records that one log line counts.
pub fn usage_of_line<'a>(obj: &'a Json) -> (r: Vec<&'a Json>)
    ensures
        ref_trees(r@) == line_usage(obj@),
{
    let mut found: Vec<&'a Json> = Vec::new();
    walk_usage_dicts(obj, &mut found);
    assert(ref_trees(found@) =~= usage_dicts(obj@));
    prefer_usage(found)
}

/// The time stamp that a value holds, in milliseconds: an integer that fits a signed word as it is,
/// and a larger one wrapped around.
pub open spec fn stamp(t: Option<JsonTree>) -> Option<i64> {
    match t {
        Some(t) => match t.signed() {
            Some(i) => Some(i),
            None => match t.unsigned() {
                Some(u) => Some((u - 0x1_0000_0000_0000_0000) as i64),
                None => None,
            },
        },
        None => None,
    }
}

/// The time stamp of a log line: that of the message, else that of the update in it.
pub open spec fn agent_ts(t: JsonTree) -> Option<i64> {
    match stamp(t.at(seq!["params"@, "_meta"@, "agentTimestampMs"@])) {
        Some(ms) => Some(ms),
        None => stamp(t.at(seq!["params"@, "update"@, "_meta"@, "agentTimestampMs"@])),
    }
}

fn as_stamp(v: Option<&Json>) -> (r: Option<i64>)
    ensures
        r == stamp(match v {
            Some(j) => Some(j@),
            None => None,
        }),
{
    match v {
        Some(j) => match j.as_i64() {
            Some(i) => Some(i),
            None => match j.as_u64() {
                Some(u) => {
                    let below: u64 = u64::MAX - u;
                    Some(-(below as i64) - 1)
                },
                None => None,
            },
        },
        None => None,
    }
}

/// What three keys lead to, one after the other.
pub fn get3<'a>(v: &'a Json, a: &str, b: &str, c: &str) -> (r: Option<&'a Json>)
    ensures
        r is Some <==> v@.at(seq![a@, b@, c@]) is Some,
        r matches Some(j) ==> v@.at(seq![a@, b@, c@]) == Some(j@),
{
    let ghost path = seq![a@, b@, c@];
    proof {
        reveal_with_fuel(JsonTree::at, 4);
        assert(path.skip(1) =~= seq![b@, c@]);
        assert(path.skip(1).skip(1) =~= seq![c@]);
        assert(path.skip(1).skip(1).skip(1) =~= Seq::<Seq<char>>::empty());
    }
    match v.get(a) {
        Some(x) => match x.get(b) {
            Some(y) => y.get(c),
            None => None,
        },
        None => None,
    }
}

/// The time stamp of a log line in milliseconds: that of the message, else that of the update in
/// it.
pub fn agent_ts_ms(obj: &Json) -> (r: Option<i64>)
    ensures
        r == agent_ts(obj@),
{
    let first = get3(obj, "params", "_meta", "agentTimestampMs");
    match as_stamp(first) {
        Some(ms) => Some(ms),
        None => {
            let ghost path = seq!["params"@, "update"@, "_meta"@, "agentTimestampMs"@];
            proof {
                reveal_with_fuel(JsonTree::at, 2);
                assert(path.skip(1) =~= seq!["update"@, "_meta"@, "agentTimestampMs"@]);
            }
            match obj.get("params") {
                Some(params) => as_stamp(get3(params, "update", "_meta", "agentTimestampMs")),
                None => None,
            }
        },
    }
}

/// What tells one usage record from another.
#[derive(Debug, Clone, Copy, PartialEq, Eq)]
pub struct UsageKey {
    pub input: u64,
    pub output: u64,
    pub total: u64,
    pub cached_read: u64,
    pub cost_ticks: u64,
    pub model_calls: u64,
}

impl View for UsageKey {
    type V = UsageKey;

    open spec fn view(&self) -> UsageKey {
        *self
    }
}

/// The key of a usage record.
pub open spec fn key_of(t: JsonTree) -> UsageKey {
    UsageKey {
        input: t.count_at("inputTokens"@),
        output: t.count_at("outputTokens"@),
        total: t.count_at("totalTokens"@),
        cached_read: t.count_at("cachedReadTokens"@),
        cost_ticks: t.count_at("costUsdTicks"@),
        model_calls: t.count_at("modelCalls"@),
    }
}

/// The key of a usage record.
pub fn usage_key(u: &Json) -> (r: UsageKey)
    ensures
        r == key_of(u@),
{
    UsageKey {
        input: json_u64(u, "inputTokens"),
        output: json_u64(u, "outputTokens"),
        total: json_u64(u, "totalTokens"),
        cached_read: json_u64(u, "cachedReadTokens"),
        cost_ticks: json_u64(u, "costUsdTicks"),
        model_calls: json_u64(u, "modelCalls"),
    }
}

fn word_place(a: u64, b: u64) -> (r: Place)
    ensures
        match r {
            Place::Before => a < b,
            Place::Same => a == b,
            Place::Behind => a > b,
        },
{
    if a < b {
        Place::Before
    } else if a == b {
        Place::Same
    } else {
        Place::Behind
    }
}

impl SortKey for UsageKey {
    open spec fn rank(key: UsageKey) -> Seq<int> {
        seq![
            key.input as int,
            key.output as int,
            key.total as int,
            key.cached_read as int,
            key.cost_ticks as int,
            key.model_calls as int,
        ]
    }

    proof fn lemma_rank(a: UsageKey, b: UsageKey) {
        let p = Self::rank(a);
        let q = Self::rank(b);
        assert(p[0] == q[0] && p[1] == q[1] && p[2] == q[2] && p[3] == q[3] && p[4] == q[4] && p[5]
            == q[5]);
    }

    fn place(&self, other: &Self) -> (r: Place) {
        let ghost p = Self::rank(*self);
        let ghost q = Self::rank(*other);
        proof {
            reveal_with_fuel(lex_less, 7);
        }
        match word_place(self.input, other.input) {
            Place::Same => match word_place(self.output, other.output) {
                Place::Same => match word_place(self.total, other.total) {
                    Place::Same => match word_place(self.cached_read, other.cached_read) {
                        Place::Same => match word_place(self.cost_ticks, other.cost_ticks) {
                            Place::Same => word_place(self.model_calls, other.model_calls),
                            p => p,
                        },
                        p => p,
                    },
                    p => p,
                },
                p => p,
            },
            p => p,
        }
    }
}

proof fn lemma_dicts_are_usage(t: JsonTree)
    ensures
        forall|i: int| 0 <= i < usage_dicts(t).len() ==> is_usage(#[trigger] usage_dicts(t)[i]),
    decreases t,
{
    match t {
        JsonTree::Object(e) => {
            lemma_entry_dicts_are_usage(e, is_usage(t));
            let inner = usage_dicts_in_entries(e, is_usage(t));
            if is_usage(t) {
                assert(usage_dicts(t) == seq![t] + inner);
                assert forall|i: int| 0 <= i < usage_dicts(t).len() implies is_usage(
                    #[trigger] usage_dicts(t)[i],
                ) by {
                    if i > 0 {
                        assert(usage_dicts(t)[i] == inner[i - 1]);
                    }
                }
            } else {
                assert forall|i: int| 0 <= i < usage_dicts(t).len() implies is_usage(
                    #[trigger] usage_dicts(t)[i],
                ) by {
                    assert(usage_dicts(t)[i] == inner[i]);
                }
            }
        },
        JsonTree::Array(a) => {
            lemma_list_dicts_are_usage(a);
            assert(usage_dicts(t) == usage_dicts_in_list(a));
        },
        _ => {},
    }
}

proof fn lemma_list_dicts_are_usage(a: Seq<JsonTree>)
    ensures
        forall|i: int|
            0 <= i < usage_dicts_in_list(a).len() ==> is_usage(
                #[trigger] usage_dicts_in_list(a)[i],
            ),
    decreases a,
{
    if a.len() > 0 {
        lemma_list_dicts_are_usage(a.drop_last());
        lemma_dicts_are_usage(a.last());
        let front = usage_dicts_in_list(a.drop_last());
        let back = usage_dicts(a.last());
        let all = usage_dicts_in_list(a);
        assert forall|i: int| 0 <= i < all.len() implies is_usage(#[trigger] all[i]) by {
            if i < front.len() {
                assert(all[i] == front[i]);
            } else {
                assert(all[i] == back[i - front.len()]);
            }
        }
    }
}

proof fn lemma_entry_dicts_are_usage(e: Seq<(Seq<char>, JsonTree)>, of_usage: bool)
    ensures
        forall|i: int|
            0 <= i < usage_dicts_in_entries(e, of_usage).len() ==> is_usage(
                #[trigger] usage_dicts_in_entries(e, of_usage)[i],
            ),
    decreases e,
{
    if e.len() > 0 {
        lemma_entry_dicts_are_usage(e.drop_last(), of_usage);
        lemma_dicts_are_usage(e.last().1);
        let front = usage_dicts_in_entries(e.drop_last(), of_usage);
        let back = usage_dicts(e.last().1);
        let all = usage_dicts_in_entries(e, of_usage);
        assert forall|i: int| 0 <= i < all.len() implies is_usage(#[trigger] all[i]) by {
            if i < front.len() {
                assert(all[i] == front[i]);
            } else {
                assert(all[i] == back[i - front.len()]);
            }
        }
    }
}

/// Only usage records are counted, and where one of them covers a whole request, only such.
pub proof fn law_counted_records(t: JsonTree)
    ensures
        forall|i: int| 0 <= i < line_usage(t).len() ==> is_usage(#[trigger] line_usage(t)[i]),
        (exists|i: int|
            0 <= i < usage_dicts(t).len() && covers_request(#[trigger] usage_dicts(t)[i]))
            ==> forall|i: int|
            0 <= i < line_usage(t).len() ==> covers_request(#[trigger] line_usage(t)[i]),
{
    let found = usage_dicts(t);
    let p = |t: JsonTree| covers_request(t);
    lemma_dicts_are_usage(t);
    lemma_filter_members(found, p);
    let top = found.filter(p);
    assert forall|i: int| 0 <= i < top.len() implies is_usage(#[trigger] top[i])
        && covers_request(top[i]) by {
        assert(p(top[i]));
        let k = choose|k: int| 0 <= k < found.len() && found[k] == top[i];
        assert(is_usage(found[k]));
    }
    if exists|i: int| 0 <= i < found.len() && covers_request(#[trigger] found[i]) {
        let i = choose|i: int| 0 <= i < found.len() && covers_request(#[trigger] found[i]);
        assert(p(found[i]));
        assert(top.contains(found[i]));
    }
}

} // verus!
