//! What holds of the usage records in a log, of their keys and of their totals.
use crate::bucket::{all_models, entry_keys, lemma_total_add, models_of, total, TokenBucket};
use crate::json::{JsonTree, NumTree};
use crate::order::lemma_filter_members;
use crate::pricing::charge_of;
use crate::session::totals_fit;
use crate::usage::{
    agent_ts, covers_request, is_usage, key_of, line_usage, stamp, usage_dicts,
    usage_dicts_in_entries, usage_dicts_in_list,
};
use vstd::prelude::*;

verus! {

/// A count is the integer under its key. A number below zero counts as zero, and so does what is
/// no integer or is missing.
pub proof fn law_counts(t: JsonTree, key: Seq<char>, n: u64, m: i64)
    ensures
        t.field(key) == Some(JsonTree::Num(NumTree::PosInt(n))) ==> t.count_at(key) == n,
        t.field(key) == Some(JsonTree::Num(NumTree::NegInt(m))) && m <= 0 ==> t.count_at(key) == 0,
        t.field(key) is None ==> t.count_at(key) == 0,
        t.field(key) matches Some(v) ==> (!(v is Num) ==> t.count_at(key) == 0),
{
}

/// A time stamp is the integer itself where a signed word holds it, and nothing else is a time
/// stamp but an integer that wraps around.
pub proof fn law_stamps(n: u64, m: i64, v: JsonTree)
    ensures
        n <= 0x7fff_ffff_ffff_ffff ==> stamp(Some(JsonTree::Num(NumTree::PosInt(n)))) == Some(
            n as i64,
        ),
        stamp(Some(JsonTree::Num(NumTree::NegInt(m)))) == Some(m),
        n > 0x7fff_ffff_ffff_ffff ==> stamp(Some(JsonTree::Num(NumTree::PosInt(n)))) == Some(
            (n - 0x1_0000_0000_0000_0000) as i64,
        ),
        !(v is Num) ==> stamp(Some(v)) is None,
        stamp(None) is None,
{
}

/// The time stamp of a line stands under `params`, `_meta` and `agentTimestampMs`. Only where
/// there is none does that of the update count, which stands under `params`, `update`, `_meta` and
/// `agentTimestampMs`.
pub proof fn law_stamp_of_a_line(t: JsonTree, p: JsonTree, m: JsonTree, u: JsonTree, um: JsonTree)
    requires
        t.field("params"@) == Some(p),
    ensures
        p.field("_meta"@) == Some(m) && stamp(m.field("agentTimestampMs"@)) is Some ==> agent_ts(t)
            == stamp(m.field("agentTimestampMs"@)),
        (p.field("_meta"@) is None || (p.field("_meta"@) == Some(m) && stamp(
            m.field("agentTimestampMs"@),
        ) is None)) && p.field("update"@) == Some(u) && u.field("_meta"@) == Some(um) ==> agent_ts(
            t,
        ) == stamp(um.field("agentTimestampMs"@)),
{
    reveal_with_fuel(JsonTree::at, 5);
    let a = seq!["params"@, "_meta"@, "agentTimestampMs"@];
    assert(a.skip(1) =~= seq!["_meta"@, "agentTimestampMs"@]);
    assert(a.skip(1).skip(1) =~= seq!["agentTimestampMs"@]);
    assert(a.skip(1).skip(1).skip(1) =~= Seq::<Seq<char>>::empty());
    let b = seq!["params"@, "update"@, "_meta"@, "agentTimestampMs"@];
    assert(b.skip(1) =~= seq!["update"@, "_meta"@, "agentTimestampMs"@]);
    assert(b.skip(1).skip(1) =~= seq!["_meta"@, "agentTimestampMs"@]);
    assert(b.skip(1).skip(1).skip(1) =~= seq!["agentTimestampMs"@]);
    assert(b.skip(1).skip(1).skip(1).skip(1) =~= Seq::<Seq<char>>::empty());
    assert(t.at(a) == p.at(a.skip(1)));
    assert(t.at(b) == p.at(b.skip(1)));
    if p.field("_meta"@) == Some(m) {
        assert(p.at(a.skip(1)) == m.at(a.skip(1).skip(1)));
        assert(m.at(a.skip(1).skip(1)) == m.field("agentTimestampMs"@));
    }
    if p.field("update"@) == Some(u) && u.field("_meta"@) == Some(um) {
        assert(p.at(b.skip(1)) == u.at(b.skip(1).skip(1)));
        assert(u.at(b.skip(1).skip(1)) == um.at(b.skip(1).skip(1).skip(1)));
        assert(um.at(b.skip(1).skip(1).skip(1)) == um.field("agentTimestampMs"@));
    }
}

/// The two records count the same input, output, total, cached input, price and calls.
pub open spec fn same_counts(a: JsonTree, b: JsonTree) -> bool {
    &&& a.count_at("inputTokens"@) == b.count_at("inputTokens"@)
    &&& a.count_at("outputTokens"@) == b.count_at("outputTokens"@)
    &&& a.count_at("totalTokens"@) == b.count_at("totalTokens"@)
    &&& a.count_at("cachedReadTokens"@) == b.count_at("cachedReadTokens"@)
    &&& a.count_at("costUsdTicks"@) == b.count_at("costUsdTicks"@)
    &&& a.count_at("modelCalls"@) == b.count_at("modelCalls"@)
}

/// Two records are one and the same if and only if they count the same input, output, total,
/// cached input, price and calls.
pub proof fn law_one_key(a: JsonTree, b: JsonTree)
    ensures
        key_of(a) == key_of(b) <==> same_counts(a, b),
{
}

/// The value counts the input, the output and the total.
pub open spec fn counts_a_request(t: JsonTree) -> bool {
    t is Object && t.field("inputTokens"@) is Some && t.field("outputTokens"@) is Some && t.field(
        "totalTokens"@,
    ) is Some
}

proof fn lemma_dicts_in_list(a: Seq<JsonTree>, u: JsonTree)
    ensures
        usage_dicts_in_list(a).contains(u) <==> exists|i: int|
            0 <= i < a.len() && usage_dicts(#[trigger] a[i]).contains(u),
    decreases a.len(),
{
    if a.len() > 0 {
        let front = a.drop_last();
        lemma_dicts_in_list(front, u);
        lemma_contains_add(usage_dicts_in_list(front), usage_dicts(a.last()), u);
        if usage_dicts_in_list(front).contains(u) {
            let i = choose|i: int| 0 <= i < front.len()
                && usage_dicts(#[trigger] front[i]).contains(u);
            assert(a[i] == front[i]);
        }
        if exists|i: int| 0 <= i < a.len() && usage_dicts(#[trigger] a[i]).contains(u) {
            let i = choose|i: int| 0 <= i < a.len() && usage_dicts(#[trigger] a[i]).contains(u);
            if i < front.len() {
                assert(front[i] == a[i]);
            }
        }
    }
}

proof fn lemma_dicts_in_entries(e: Seq<(Seq<char>, JsonTree)>, of_usage: bool, u: JsonTree)
    ensures
        usage_dicts_in_entries(e, of_usage).contains(u) <==> exists|i: int|
            0 <= i < e.len() && !(of_usage && e[i].0 == "modelUsage"@) && usage_dicts(
                (#[trigger] e[i]).1,
            ).contains(u),
    decreases e.len(),
{
    if e.len() > 0 {
        let front = e.drop_last();
        lemma_dicts_in_entries(front, of_usage, u);
        let more = if of_usage && e.last().0 == "modelUsage"@ {
            Seq::empty()
        } else {
            usage_dicts(e.last().1)
        };
        lemma_contains_add(usage_dicts_in_entries(front, of_usage), more, u);
        if usage_dicts_in_entries(front, of_usage).contains(u) {
            let i = choose|i: int|
                0 <= i < front.len() && !(of_usage && front[i].0 == "modelUsage"@) && usage_dicts(
                    (#[trigger] front[i]).1,
                ).contains(u);
            assert(e[i] == front[i]);
        }
        if exists|i: int|
            0 <= i < e.len() && !(of_usage && e[i].0 == "modelUsage"@) && usage_dicts(
                (#[trigger] e[i]).1,
            ).contains(u) {
            let i = choose|i: int|
                0 <= i < e.len() && !(of_usage && e[i].0 == "modelUsage"@) && usage_dicts(
                    (#[trigger] e[i]).1,
                ).contains(u);
            if i < front.len() {
                assert(front[i] == e[i]);
            }
        }
    }
}

/// What two sequences together hold is what one of them holds.
pub proof fn lemma_contains_add<A>(a: Seq<A>, b: Seq<A>, x: A)
    ensures
        (a + b).contains(x) <==> a.contains(x) || b.contains(x),
{
    let all = a + b;
    if a.contains(x) {
        let i = choose|i: int| 0 <= i < a.len() && a[i] == x;
        assert(all[i] == x);
    }
    if b.contains(x) {
        let i = choose|i: int| 0 <= i < b.len() && b[i] == x;
        assert(all[a.len() + i] == x);
    }
    if all.contains(x) {
        let i = choose|i: int| 0 <= i < all.len() && all[i] == x;
        if i < a.len() {
            assert(a[i] == x);
        } else {
            assert(b[i - a.len()] == x);
        }
    }
}

/// A record is found wherever it stands: a value that counts a request is itself a record, those in
/// a list are the records of its items, and those in an object the records of its entries. Only the
/// usage per model inside a record is no record of its own.
pub proof fn law_found_records(t: JsonTree, u: JsonTree)
    ensures
        t is Object && counts_a_request(t) ==> usage_dicts(t).contains(t),
        t matches JsonTree::Array(a) ==> (usage_dicts(t).contains(u) <==> exists|i: int|
            0 <= i < a.len() && usage_dicts(#[trigger] a[i]).contains(u)),
        t matches JsonTree::Object(e) ==> (usage_dicts(t).contains(u) <==> (u == t
            && counts_a_request(t)) || (exists|i: int|
            0 <= i < e.len() && !(counts_a_request(t) && e[i].0 == "modelUsage"@) && usage_dicts(
                (#[trigger] e[i]).1,
            ).contains(u))),
        !(t is Array) && !(t is Object) ==> usage_dicts(t).len() == 0,
{
    match t {
        JsonTree::Array(a) => {
            lemma_dicts_in_list(a, u);
        },
        JsonTree::Object(e) => {
            let of_usage = is_usage(t);
            lemma_dicts_in_entries(e, of_usage, u);
            let inner = usage_dicts_in_entries(e, of_usage);
            if of_usage {
                lemma_contains_add(seq![t], inner, u);
                assert(seq![t].contains(u) <==> u == t) by {
                    assert(seq![t][0] == t);
                }
                assert(usage_dicts(t)[0] == t);
            }
        },
        _ => {},
    }
}

/// Of the records of a line, those count that have a price or the usage per model, where there are
/// such; else all of them count.
pub proof fn law_counted_where_found(t: JsonTree, u: JsonTree)
    ensures
        line_usage(t).contains(u)
            <==> usage_dicts(t).contains(u) && (u.field("costUsdTicks"@) is Some
            || u.field("modelUsage"@) is Some || (forall|i: int|
            0 <= i < usage_dicts(t).len() ==> (#[trigger] usage_dicts(t)[i]).field(
                "costUsdTicks"@,
            ) is None && usage_dicts(t)[i].field("modelUsage"@) is None)),
        line_usage(t).len() == 0 <==> usage_dicts(t).len() == 0,
{
    let found = usage_dicts(t);
    let p = |t: JsonTree| covers_request(t);
    lemma_filter_members(found, p);
    let top = found.filter(p);
    if top.len() == 0 {
        assert forall|i: int| 0 <= i < found.len() implies (#[trigger] found[i]).field(
            "costUsdTicks"@,
        ) is None && found[i].field("modelUsage"@) is None by {
            if covers_request(found[i]) {
                assert(p(found[i]));
                assert(top.contains(found[i]));
            }
        }
    } else {
        let k = choose|k: int| 0 <= k < found.len() && found[k] == top[0];
        assert(p(top[0]));
        assert(covers_request(found[k]));
        if found.contains(u) && covers_request(u) {
            let i = choose|i: int| 0 <= i < found.len() && found[i] == u;
            assert(p(found[i]));
            assert(top.contains(found[i]));
        }
        if top.contains(u) {
            let i = choose|i: int| 0 <= i < top.len() && top[i] == u;
            assert(p(top[i]));
            let m = choose|m: int| 0 <= m < found.len() && found[m] == top[i];
            assert(found.contains(u));
        }
    }
}

/// A total is the sum of the counts: nothing for no record, the count for one, and for two lists
/// the sum of their totals.
pub proof fn law_totals_are_sums(us: Seq<JsonTree>, vs: Seq<JsonTree>, u: JsonTree, key: Seq<char>)
    ensures
        total(Seq::empty(), key) == 0,
        total(seq![u], key) == u.count_at(key),
        total(us.push(u), key) == total(us, key) + u.count_at(key),
        total(us + vs, key) == total(us, key) + total(vs, key),
{
    assert(seq![u].drop_last() =~= Seq::<JsonTree>::empty());
    assert(us.push(u).drop_last() =~= us);
    lemma_total_add(us, vs, key);
}

proof fn lemma_all_models(us: Seq<JsonTree>, m: Seq<char>)
    ensures
        all_models(us).contains(m) <==> exists|i: int|
            0 <= i < us.len() && models_of(#[trigger] us[i]).contains(m),
    decreases us.len(),
{
    if us.len() > 0 {
        let front = us.drop_last();
        lemma_all_models(front, m);
        if all_models(front).contains(m) {
            let i = choose|i: int| 0 <= i < front.len()
                && models_of(#[trigger] front[i]).contains(m);
            assert(us[i] == front[i]);
        }
        if exists|i: int| 0 <= i < us.len() && models_of(#[trigger] us[i]).contains(m) {
            let i = choose|i: int| 0 <= i < us.len() && models_of(#[trigger] us[i]).contains(m);
            if i < front.len() {
                assert(front[i] == us[i]);
            }
        }
    }
}

/// The record names the model in its usage per model.
pub open spec fn names_model(t: JsonTree, m: Seq<char>) -> bool {
    t.field("modelUsage"@) matches Some(JsonTree::Object(e)) && exists|k: int|
        0 <= k < e.len() && (#[trigger] e[k]).0 == m
}

/// A bucket holds under each name the sum of the counts of that name, one event and one charge for
/// each record, and each model that a record names. The model of a record without usage per model
/// is `unknown`.
pub proof fn law_what_a_bucket_holds(b: TokenBucket, us: Seq<JsonTree>, m: Seq<char>)
    requires
        b.tallies(us),
    ensures
        b.input_tokens == total(us, "inputTokens"@),
        b.output_tokens == total(us, "outputTokens"@),
        b.total_tokens == total(us, "totalTokens"@),
        b.cached_read_tokens == total(us, "cachedReadTokens"@),
        b.reasoning_tokens == total(us, "reasoningTokens"@),
        b.cost_usd_ticks == total(us, "costUsdTicks"@),
        b.model_calls == total(us, "modelCalls"@),
        b.events == us.len(),
        b.charges@.len() == us.len(),
        forall|i: int| 0 <= i < us.len() ==> #[trigger] b.charges@[i] == charge_of(us[i]),
        b.models.keys().contains(m) <==> exists|i: int|
            0 <= i < us.len() && (names_model(#[trigger] us[i], m) || (m == "unknown"@ && !(
            us[i].field("modelUsage"@) matches Some(JsonTree::Object(_))))),
        b.cached_read_tokens <= b.input_tokens ==> b.fresh() + b.cached_read_tokens
            == b.input_tokens,
        b.cached_read_tokens > b.input_tokens ==> b.fresh() == 0,
{
    lemma_all_models(us, m);
    assert(b.models.keys().contains(m) == b.models.keys().to_set().contains(m));
    assert forall|i: int| 0 <= i < us.len() implies models_of(#[trigger] us[i]).contains(m) == (
    names_model(us[i], m) || (m == "unknown"@ && !(us[i].field("modelUsage"@) matches Some(
        JsonTree::Object(_),
    )))) by {
        match us[i].field("modelUsage"@) {
            Some(JsonTree::Object(e)) => {
                assert(entry_keys(e).contains(m) == names_model(us[i], m));
            },
            _ => {},
        }
    }
}

/// The value under a key of an object is that of the first entry with this key; where no entry has
/// it there is none.
pub proof fn law_value_under_a_key(e: Seq<(Seq<char>, JsonTree)>, key: Seq<char>, k: int)
    ensures
        0 <= k < e.len() && e[k].0 == key && (forall|j: int|
            0 <= j < k ==> (#[trigger] e[j]).0 != key) ==> JsonTree::Object(e).field(key) == Some(
            e[k].1,
        ),
        (forall|j: int| 0 <= j < e.len() ==> (#[trigger] e[j]).0 != key) ==> JsonTree::Object(
            e,
        ).field(key) is None,
    decreases e.len(),
{
    if e.len() > 0 && e[0].0 != key {
        let rest = e.skip(1);
        law_value_under_a_key(rest, key, k - 1);
        if 0 < k < e.len() && (forall|j: int| 0 <= j < k ==> (#[trigger] e[j]).0 != key) {
            assert(rest[k - 1] == e[k]);
            assert forall|j: int| 0 <= j < k - 1 implies (#[trigger] rest[j]).0 != key by {
                assert(rest[j] == e[j + 1]);
            }
        }
        if forall|j: int| 0 <= j < e.len() ==> (#[trigger] e[j]).0 != key {
            assert forall|j: int| 0 <= j < rest.len() implies (#[trigger] rest[j]).0 != key by {
                assert(rest[j] == e[j + 1]);
            }
        }
    }
}

/// Records can be added up if and only if every total over them fits a word.
pub proof fn law_totals_that_fit(us: Seq<JsonTree>)
    ensures
        totals_fit(us) <==> us.len() <= 0xffff_ffff_ffff_ffff && total(us, "inputTokens"@)
            <= 0xffff_ffff_ffff_ffff && total(us, "outputTokens"@) <= 0xffff_ffff_ffff_ffff
            && total(us, "totalTokens"@) <= 0xffff_ffff_ffff_ffff && total(us, "cachedReadTokens"@)
            <= 0xffff_ffff_ffff_ffff && total(us, "reasoningTokens"@) <= 0xffff_ffff_ffff_ffff
            && total(us, "costUsdTicks"@) <= 0xffff_ffff_ffff_ffff && total(us, "modelCalls"@)
            <= 0xffff_ffff_ffff_ffff,
{
}

} // verus!
