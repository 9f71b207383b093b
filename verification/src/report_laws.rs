//! What holds of the values and of the tables that days and sessions are shown as.
use crate::bucket::{total, TokenBucket};
use crate::daily::{days_of, records_on, DailyStat, DayEvent};
use crate::json::{entry, lemma_entry_push, no_entries, JsonTree, NumTree};
use crate::report::{holds_sums, public_day, public_session, token_fields, Money};
use crate::session::{session_records, LogLine, SessionStat};
use vstd::prelude::*;

verus! {

/// The value `t` holds each count and each price of the bucket `b` under its own key.
pub open spec fn shows_tokens(t: JsonTree, b: TokenBucket, m: Money) -> bool {
    &&& t.field("input_tokens"@) == Some(JsonTree::Num(NumTree::PosInt(b.input_tokens)))
    &&& t.field("output_tokens"@) == Some(JsonTree::Num(NumTree::PosInt(b.output_tokens)))
    &&& t.field("total_tokens"@) == Some(JsonTree::Num(NumTree::PosInt(b.total_tokens)))
    &&& t.field("cached_read_tokens"@) == Some(JsonTree::Num(NumTree::PosInt(b.cached_read_tokens)))
    &&& t.field("reasoning_tokens"@) == Some(JsonTree::Num(NumTree::PosInt(b.reasoning_tokens)))
    &&& t.field("cost_usd_ticks"@) == Some(JsonTree::Num(NumTree::PosInt(b.cost_usd_ticks)))
    &&& t.field("events"@) == Some(JsonTree::Num(NumTree::PosInt(b.events)))
    &&& t.field("model_calls"@) == Some(JsonTree::Num(NumTree::PosInt(b.model_calls)))
    &&& b.cached_read_tokens <= b.input_tokens ==> t.count_at("fresh_input_tokens"@)
        + b.cached_read_tokens == b.input_tokens
    &&& b.cached_read_tokens > b.input_tokens ==> t.count_at("fresh_input_tokens"@) == 0
    &&& b.adds_up() ==> t.count_at("total_without_cache"@) == t.count_at("fresh_input_tokens"@)
        + b.output_tokens
    &&& t.field("cost_cli_usd"@) == Some(JsonTree::Num(m.cli@))
    &&& t.field("cost_api_usd"@) == Some(JsonTree::Num(m.api@))
    &&& t.field("cost_api_no_cache_usd"@) == Some(JsonTree::Num(m.api_no_cache@))
    &&& t.field("cache_savings_usd"@) == Some(JsonTree::Num(m.savings@))
    &&& t.field("models"@) matches Some(JsonTree::Array(a)) && a.len() == b.models.keys().len() && (
    forall|i: int| 0 <= i < a.len() ==> #[trigger] a[i] == JsonTree::Text(b.models.keys()[i]))
}

proof fn lemma_token_fields(e: Seq<(Seq<char>, JsonTree)>, b: TokenBucket, m: Money)
    requires
        entry(e, "input_tokens"@) is None,
        entry(e, "output_tokens"@) is None,
        entry(e, "total_tokens"@) is None,
        entry(e, "cached_read_tokens"@) is None,
        entry(e, "fresh_input_tokens"@) is None,
        entry(e, "total_without_cache"@) is None,
        entry(e, "reasoning_tokens"@) is None,
        entry(e, "cost_usd_ticks"@) is None,
        entry(e, "cost_cli_usd"@) is None,
        entry(e, "cost_api_usd"@) is None,
        entry(e, "cost_api_no_cache_usd"@) is None,
        entry(e, "cache_savings_usd"@) is None,
        entry(e, "events"@) is None,
        entry(e, "model_calls"@) is None,
        entry(e, "models"@) is None,
    ensures
        shows_tokens(JsonTree::Object(token_fields(e, b, m)), b, m),
{
    reveal_strlit("input_tokens");
    reveal_strlit("output_tokens");
    reveal_strlit("total_tokens");
    reveal_strlit("cached_read_tokens");
    reveal_strlit("fresh_input_tokens");
    reveal_strlit("total_without_cache");
    reveal_strlit("reasoning_tokens");
    reveal_strlit("cost_usd_ticks");
    reveal_strlit("cost_cli_usd");
    reveal_strlit("cost_api_usd");
    reveal_strlit("cost_api_no_cache_usd");
    reveal_strlit("cache_savings_usd");
    reveal_strlit("events");
    reveal_strlit("model_calls");
    reveal_strlit("models");
    assert("input_tokens"@.len() == 12);
    assert("output_tokens"@.len() == 13);
    assert("total_tokens"@.len() == 12);
    assert("cached_read_tokens"@.len() == 18);
    assert("fresh_input_tokens"@.len() == 18);
    assert("total_without_cache"@.len() == 19);
    assert("reasoning_tokens"@.len() == 16);
    assert("cost_usd_ticks"@.len() == 14);
    assert("cost_cli_usd"@.len() == 12);
    assert("cost_api_usd"@.len() == 12);
    assert("cost_api_no_cache_usd"@.len() == 21);
    assert("cache_savings_usd"@.len() == 17);
    assert("events"@.len() == 6);
    assert("model_calls"@.len() == 11);
    assert("models"@.len() == 6);
    assert("input_tokens"@[0] != "total_tokens"@[0]);
    assert("input_tokens"@[0] != "cost_cli_usd"@[0]);
    assert("input_tokens"@[0] != "cost_api_usd"@[0]);
    assert("total_tokens"@[0] != "cost_cli_usd"@[0]);
    assert("total_tokens"@[0] != "cost_api_usd"@[0]);
    assert("cached_read_tokens"@[0] != "fresh_input_tokens"@[0]);
    assert("cost_cli_usd"@[5] != "cost_api_usd"@[5]);
    assert("events"@[0] != "models"@[0]);
    broadcast use lemma_entry_push;

    let t = JsonTree::Object(token_fields(e, b, m));
    assert(t.field("input_tokens"@) == Some(JsonTree::Num(NumTree::PosInt(b.input_tokens))));
    assert(t.field("output_tokens"@) == Some(JsonTree::Num(NumTree::PosInt(b.output_tokens))));
    assert(t.field("total_tokens"@) == Some(JsonTree::Num(NumTree::PosInt(b.total_tokens))));
    assert(t.field("cached_read_tokens"@)
        == Some(JsonTree::Num(NumTree::PosInt(b.cached_read_tokens))));
    assert(t.field("reasoning_tokens"@)
        == Some(JsonTree::Num(NumTree::PosInt(b.reasoning_tokens))));
    assert(t.field("cost_usd_ticks"@) == Some(JsonTree::Num(NumTree::PosInt(b.cost_usd_ticks))));
    assert(t.field("events"@) == Some(JsonTree::Num(NumTree::PosInt(b.events))));
    assert(t.field("model_calls"@) == Some(JsonTree::Num(NumTree::PosInt(b.model_calls))));
    assert(t.field("cost_cli_usd"@) == Some(JsonTree::Num(m.cli@)));
    assert(t.field("cost_api_usd"@) == Some(JsonTree::Num(m.api@)));
    assert(t.field("cost_api_no_cache_usd"@) == Some(JsonTree::Num(m.api_no_cache@)));
    assert(t.field("cache_savings_usd"@) == Some(JsonTree::Num(m.savings@)));
    assert(t.field("fresh_input_tokens"@) is Some);
    assert(t.field("total_without_cache"@) is Some);
    assert(t.field("models"@) is Some);
}

proof fn lemma_kept_fields(
    e: Seq<(Seq<char>, JsonTree)>,
    b: TokenBucket,
    m: Money,
    key: Seq<char>,
)
    requires
        entry(e, key) is Some,
    ensures
        JsonTree::Object(token_fields(e, b, m)).field(key) == entry(e, key),
{
    broadcast use lemma_entry_push;

}

/// The value of a day holds its date, the number of its sessions, and each of its totals under the
/// key of that name.
pub proof fn law_value_of_a_day(d: DailyStat, m: Money)
    ensures
        public_day(d, m).field("date"@) == Some(JsonTree::Text(d.date@)),
        public_day(d, m).field("sessions"@) == Some(
            JsonTree::Num(NumTree::PosInt(d.sessions.keys().len() as u64)),
        ),
        shows_tokens(public_day(d, m), d.tokens, m),
{
    reveal_strlit("date");
    reveal_strlit("sessions");
    reveal_strlit("input_tokens");
    reveal_strlit("output_tokens");
    reveal_strlit("total_tokens");
    reveal_strlit("cached_read_tokens");
    reveal_strlit("fresh_input_tokens");
    reveal_strlit("total_without_cache");
    reveal_strlit("reasoning_tokens");
    reveal_strlit("cost_usd_ticks");
    reveal_strlit("cost_cli_usd");
    reveal_strlit("cost_api_usd");
    reveal_strlit("cost_api_no_cache_usd");
    reveal_strlit("cache_savings_usd");
    reveal_strlit("events");
    reveal_strlit("model_calls");
    reveal_strlit("models");
    assert("date"@.len() == 4);
    assert("sessions"@.len() == 8);
    assert("input_tokens"@.len() == 12);
    assert("output_tokens"@.len() == 13);
    assert("total_tokens"@.len() == 12);
    assert("cached_read_tokens"@.len() == 18);
    assert("fresh_input_tokens"@.len() == 18);
    assert("total_without_cache"@.len() == 19);
    assert("reasoning_tokens"@.len() == 16);
    assert("cost_usd_ticks"@.len() == 14);
    assert("cost_cli_usd"@.len() == 12);
    assert("cost_api_usd"@.len() == 12);
    assert("cost_api_no_cache_usd"@.len() == 21);
    assert("cache_savings_usd"@.len() == 17);
    assert("events"@.len() == 6);
    assert("model_calls"@.len() == 11);
    assert("models"@.len() == 6);
    assert("input_tokens"@[0] != "total_tokens"@[0]);
    assert("input_tokens"@[0] != "cost_cli_usd"@[0]);
    assert("input_tokens"@[0] != "cost_api_usd"@[0]);
    assert("total_tokens"@[0] != "cost_cli_usd"@[0]);
    assert("total_tokens"@[0] != "cost_api_usd"@[0]);
    assert("cached_read_tokens"@[0] != "fresh_input_tokens"@[0]);
    assert("cost_cli_usd"@[5] != "cost_api_usd"@[5]);
    assert("events"@[0] != "models"@[0]);
    broadcast use lemma_entry_push;

    let e = no_entries().push(("date"@, JsonTree::Text(d.date@))).push(
        ("sessions"@, JsonTree::Num(NumTree::PosInt(d.sessions.keys().len() as u64))),
    );
    assert(entry(e, "date"@) == Some(JsonTree::Text(d.date@)));
    assert(entry(e, "sessions"@) is Some);
    lemma_token_fields(e, d.tokens, m);
    lemma_kept_fields(e, d.tokens, m, "date"@);
    lemma_kept_fields(e, d.tokens, m, "sessions"@);
}

/// The value of a session holds its names, its last activity and its peaks, and each of its totals
/// under the key of that name. Its peak context is the greater of the peak input and of the peak
/// that its log reports.
pub proof fn law_value_of_a_session(s: SessionStat, m: Money)
    ensures
        public_session(s, m).field("session_id"@) == Some(JsonTree::Text(s.session_id@)),
        public_session(s, m).field("path"@) == Some(JsonTree::Text(s.path@)),
        public_session(s, m).field("cwd"@) == Some(JsonTree::Text(s.cwd@)),
        public_session(s, m).field("last_activity"@) == Some(JsonTree::Text(s.last_activity@)),
        public_session(s, m).field("last_activity_day"@)
            == Some(JsonTree::Text(s.last_activity_day@)),
        public_session(s, m).field("peak_input_tokens"@)
            == Some(JsonTree::Num(NumTree::PosInt(s.peak_input_tokens))),
        public_session(s, m).field("meta_peak_context"@)
            == Some(JsonTree::Num(NumTree::PosInt(s.meta_peak_context))),
        public_session(s, m).field("meta_final_context"@)
            == Some(JsonTree::Num(NumTree::PosInt(s.meta_final_context))),
        public_session(s, m).field("meta_first_context"@)
            == Some(JsonTree::Num(NumTree::PosInt(s.meta_first_context))),
        public_session(s, m).field("has_usage"@) == Some(JsonTree::Bool(s.has_usage)),
        public_session(s, m).count_at("peak_context"@) >= s.peak_input_tokens,
        public_session(s, m).count_at("peak_context"@) >= s.meta_peak_context,
        public_session(s, m).count_at("peak_context"@) == s.peak_input_tokens || public_session(
            s,
            m,
        ).count_at("peak_context"@) == s.meta_peak_context,
        shows_tokens(public_session(s, m), s.tokens, m),
{
    reveal_strlit("session_id");
    reveal_strlit("path");
    reveal_strlit("cwd");
    reveal_strlit("last_activity");
    reveal_strlit("last_activity_day");
    reveal_strlit("peak_context");
    reveal_strlit("peak_input_tokens");
    reveal_strlit("meta_peak_context");
    reveal_strlit("meta_final_context");
    reveal_strlit("meta_first_context");
    reveal_strlit("has_usage");
    reveal_strlit("input_tokens");
    reveal_strlit("output_tokens");
    reveal_strlit("total_tokens");
    reveal_strlit("cached_read_tokens");
    reveal_strlit("fresh_input_tokens");
    reveal_strlit("total_without_cache");
    reveal_strlit("reasoning_tokens");
    reveal_strlit("cost_usd_ticks");
    reveal_strlit("cost_cli_usd");
    reveal_strlit("cost_api_usd");
    reveal_strlit("cost_api_no_cache_usd");
    reveal_strlit("cache_savings_usd");
    reveal_strlit("events");
    reveal_strlit("model_calls");
    reveal_strlit("models");
    assert("session_id"@.len() == 10);
    assert("path"@.len() == 4);
    assert("cwd"@.len() == 3);
    assert("last_activity"@.len() == 13);
    assert("last_activity_day"@.len() == 17);
    assert("peak_context"@.len() == 12);
    assert("peak_input_tokens"@.len() == 17);
    assert("meta_peak_context"@.len() == 17);
    assert("meta_final_context"@.len() == 18);
    assert("meta_first_context"@.len() == 18);
    assert("has_usage"@.len() == 9);
    assert("input_tokens"@.len() == 12);
    assert("output_tokens"@.len() == 13);
    assert("total_tokens"@.len() == 12);
    assert("cached_read_tokens"@.len() == 18);
    assert("fresh_input_tokens"@.len() == 18);
    assert("total_without_cache"@.len() == 19);
    assert("reasoning_tokens"@.len() == 16);
    assert("cost_usd_ticks"@.len() == 14);
    assert("cost_cli_usd"@.len() == 12);
    assert("cost_api_usd"@.len() == 12);
    assert("cost_api_no_cache_usd"@.len() == 21);
    assert("cache_savings_usd"@.len() == 17);
    assert("events"@.len() == 6);
    assert("model_calls"@.len() == 11);
    assert("models"@.len() == 6);
    assert("last_activity"@[0] != "output_tokens"@[0]);
    assert("last_activity_day"@[0] != "peak_input_tokens"@[0]);
    assert("last_activity_day"@[0] != "meta_peak_context"@[0]);
    assert("last_activity_day"@[0] != "cache_savings_usd"@[0]);
    assert("peak_context"@[0] != "input_tokens"@[0]);
    assert("peak_context"@[0] != "total_tokens"@[0]);
    assert("peak_context"@[0] != "cost_cli_usd"@[0]);
    assert("peak_context"@[0] != "cost_api_usd"@[0]);
    assert("peak_input_tokens"@[0] != "meta_peak_context"@[0]);
    assert("peak_input_tokens"@[0] != "cache_savings_usd"@[0]);
    assert("meta_peak_context"@[0] != "cache_savings_usd"@[0]);
    assert("meta_final_context"@[7] != "meta_first_context"@[7]);
    assert("meta_final_context"@[0] != "cached_read_tokens"@[0]);
    assert("meta_final_context"@[0] != "fresh_input_tokens"@[0]);
    assert("meta_first_context"@[0] != "cached_read_tokens"@[0]);
    assert("meta_first_context"@[0] != "fresh_input_tokens"@[0]);
    assert("input_tokens"@[0] != "total_tokens"@[0]);
    assert("input_tokens"@[0] != "cost_cli_usd"@[0]);
    assert("input_tokens"@[0] != "cost_api_usd"@[0]);
    assert("total_tokens"@[0] != "cost_cli_usd"@[0]);
    assert("total_tokens"@[0] != "cost_api_usd"@[0]);
    assert("cached_read_tokens"@[0] != "fresh_input_tokens"@[0]);
    assert("cost_cli_usd"@[5] != "cost_api_usd"@[5]);
    assert("events"@[0] != "models"@[0]);
    broadcast use lemma_entry_push;

    let peak = if s.peak_input_tokens < s.meta_peak_context {
        s.meta_peak_context
    } else {
        s.peak_input_tokens
    };
    let e = no_entries()
        .push(("session_id"@, JsonTree::Text(s.session_id@)))
        .push(("path"@, JsonTree::Text(s.path@)))
        .push(("cwd"@, JsonTree::Text(s.cwd@)))
        .push(("last_activity"@, JsonTree::Text(s.last_activity@)))
        .push(("last_activity_day"@, JsonTree::Text(s.last_activity_day@)))
        .push(("peak_context"@, JsonTree::Num(NumTree::PosInt(peak))))
        .push(("peak_input_tokens"@, JsonTree::Num(NumTree::PosInt(s.peak_input_tokens))))
        .push(("meta_peak_context"@, JsonTree::Num(NumTree::PosInt(s.meta_peak_context))))
        .push(("meta_final_context"@, JsonTree::Num(NumTree::PosInt(s.meta_final_context))))
        .push(("meta_first_context"@, JsonTree::Num(NumTree::PosInt(s.meta_first_context))))
        .push(("has_usage"@, JsonTree::Bool(s.has_usage)))
    ;
    assert(entry(e, "session_id"@) == Some(JsonTree::Text(s.session_id@)));
    assert(entry(e, "path"@) == Some(JsonTree::Text(s.path@)));
    assert(entry(e, "cwd"@) == Some(JsonTree::Text(s.cwd@)));
    assert(entry(e, "last_activity"@) == Some(JsonTree::Text(s.last_activity@)));
    assert(entry(e, "last_activity_day"@) == Some(JsonTree::Text(s.last_activity_day@)));
    assert(entry(e, "peak_context"@) == Some(JsonTree::Num(NumTree::PosInt(peak))));
    assert(entry(e, "peak_input_tokens"@)
        == Some(JsonTree::Num(NumTree::PosInt(s.peak_input_tokens))));
    assert(entry(e, "meta_peak_context"@)
        == Some(JsonTree::Num(NumTree::PosInt(s.meta_peak_context))));
    assert(entry(e, "meta_final_context"@)
        == Some(JsonTree::Num(NumTree::PosInt(s.meta_final_context))));
    assert(entry(e, "meta_first_context"@)
        == Some(JsonTree::Num(NumTree::PosInt(s.meta_first_context))));
    assert(entry(e, "has_usage"@) == Some(JsonTree::Bool(s.has_usage)));
    lemma_token_fields(e, s.tokens, m);
    lemma_kept_fields(e, s.tokens, m, "session_id"@);
    lemma_kept_fields(e, s.tokens, m, "path"@);
    lemma_kept_fields(e, s.tokens, m, "cwd"@);
    lemma_kept_fields(e, s.tokens, m, "last_activity"@);
    lemma_kept_fields(e, s.tokens, m, "last_activity_day"@);
    lemma_kept_fields(e, s.tokens, m, "peak_context"@);
    lemma_kept_fields(e, s.tokens, m, "peak_input_tokens"@);
    lemma_kept_fields(e, s.tokens, m, "meta_peak_context"@);
    lemma_kept_fields(e, s.tokens, m, "meta_final_context"@);
    lemma_kept_fields(e, s.tokens, m, "meta_first_context"@);
    lemma_kept_fields(e, s.tokens, m, "has_usage"@);
}

/// The value `t` holds under each key the sum over the records `us` of the counts of that name.
pub open spec fn shows_sums(t: JsonTree, us: Seq<JsonTree>) -> bool {
    &&& t.count_at("input_tokens"@) == total(us, "inputTokens"@)
    &&& t.count_at("output_tokens"@) == total(us, "outputTokens"@)
    &&& t.count_at("total_tokens"@) == total(us, "totalTokens"@)
    &&& t.count_at("cached_read_tokens"@) == total(us, "cachedReadTokens"@)
    &&& t.count_at("reasoning_tokens"@) == total(us, "reasoningTokens"@)
    &&& t.count_at("cost_usd_ticks"@) == total(us, "costUsdTicks"@)
    &&& t.count_at("model_calls"@) == total(us, "modelCalls"@)
    &&& t.count_at("events"@) == us.len()
}

/// What is read back under a key of a day's value is the sum of the counts of that name over the
/// records of the day.
pub proof fn law_day_sums_are_shown(
    days: Seq<DailyStat>,
    events: Seq<DayEvent>,
    i: int,
    m: Money,
)
    requires
        days_of(days, events),
        0 <= i < days.len(),
    ensures
        shows_sums(public_day(days[i], m), records_on(events, days[i].date@)),
{
    reveal(days_of);
    assert(days[i].sums_up(events));
    law_value_of_a_day(days[i], m);
}

/// What is read back under a key of a session's value is the sum of the counts of that name over
/// the records that the session counts.
pub proof fn law_session_sums_are_shown(s: SessionStat, lines: Seq<LogLine>, m: Money)
    requires
        s.sums_up(lines),
    ensures
        shows_sums(public_session(s, m), session_records(lines)),
{
    law_value_of_a_session(s, m);
}

/// The sums over the days grow by the totals of each day: by each count, by the charges, and by the
/// models.
pub proof fn law_sums_grow_by_a_day(
    a: TokenBucket,
    b: TokenBucket,
    days: Seq<DailyStat>,
    d: DailyStat,
    model: Seq<char>,
)
    requires
        holds_sums(a, days),
        holds_sums(b, days.push(d)),
    ensures
        b.input_tokens == a.input_tokens + d.tokens.input_tokens,
        b.output_tokens == a.output_tokens + d.tokens.output_tokens,
        b.total_tokens == a.total_tokens + d.tokens.total_tokens,
        b.cached_read_tokens == a.cached_read_tokens + d.tokens.cached_read_tokens,
        b.reasoning_tokens == a.reasoning_tokens + d.tokens.reasoning_tokens,
        b.cost_usd_ticks == a.cost_usd_ticks + d.tokens.cost_usd_ticks,
        b.events == a.events + d.tokens.events,
        b.model_calls == a.model_calls + d.tokens.model_calls,
        b.charges@ == a.charges@ + d.tokens.charges@,
        b.models.keys().contains(model) <==> a.models.keys().contains(model)
            || d.tokens.models.keys().contains(model),
{
    assert(days.push(d).drop_last() =~= days);
    assert(b.models.keys().contains(model) == b.models.keys().to_set().contains(model));
    assert(a.models.keys().contains(model) == a.models.keys().to_set().contains(model));
    assert(d.tokens.models.keys().contains(model) == d.tokens.models.keys().to_set().contains(
        model,
    ));
}

/// The sums over no days are zero.
pub proof fn law_sums_over_nothing(a: TokenBucket)
    requires
        holds_sums(a, Seq::empty()),
    ensures
        a.input_tokens == 0 && a.output_tokens == 0 && a.total_tokens == 0 && a.cached_read_tokens
            == 0 && a.reasoning_tokens == 0 && a.cost_usd_ticks == 0 && a.events == 0
            && a.model_calls == 0,
        a.charges@.len() == 0,
        a.models.keys().len() == 0,
{
    if a.models.keys().len() > 0 {
        assert(a.models.keys().to_set().contains(a.models.keys()[0]));
    }
}

} // verus!
