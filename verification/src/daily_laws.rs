//! What holds of the totals by day.
use crate::bucket::total;
use crate::clock::{
    dates, day_of, law_dates_sort_by_time, law_stamps_are_dated, lemma_date_is_known,
};
use crate::daily::{
    days_fit, days_of, has_day, later_days, law_since_keeps_later_days, line_event, log_events,
    records_on,
    same_day, session_events, sessions_on, too_early, DailyStat, DayEvent, SessionLog,
};
use crate::json::JsonTree;
use crate::order::{lemma_filter_members, lex_less, text_rank};
use crate::parse::text_tree;
use crate::session::{first_of_each, totals_fit};
use crate::session_laws::law_first_records_count;
use crate::text::{has_part, texts, trimmed};
use crate::usage::{agent_ts, line_usage};
use crate::usage_laws::{law_totals_are_sums, lemma_contains_add, same_counts};
use vstd::prelude::*;

verus! {

/// The line speaks of usage or of input tokens, and names the value `t`, which holds a record.
pub open spec fn records_usage(line: Seq<char>, t: JsonTree) -> bool {
    &&& has_part(line, "inputTokens"@) || has_part(line, "usage"@)
    &&& text_tree(trimmed(line)) == Some(t)
    &&& line_usage(t).len() > 0
}

/// The usage of a line whose time stamp lies on the calendar day number `n`, from 1970 to 9999, is
/// counted from the day number `k` on if and only if `n` is not before `k`, and it is counted for
/// that session on that day. Without `since` it is counted in any case.
pub proof fn law_counted_since(
    sid: Seq<char>,
    line: Seq<char>,
    t: JsonTree,
    ms: i64,
    since: Seq<char>,
    n: int,
    k: int,
)
    requires
        records_usage(line, t),
        agent_ts(t) == Some(ms),
        0 < ms < 253_402_300_800_000,
        n == ms as int / 86_400_000,
        dates(since, k),
    ensures
        line_event(sid, line, Some(since)) is Some <==> n >= k,
        line_event(sid, line, None) is Some,
        line_event(sid, line, None) matches Some(e) ==> e.sid == sid && dates(e.day, n),
        line_event(sid, line, Some(since)) matches Some(e) ==> e.sid == sid && dates(e.day, n),
{
    law_stamps_are_dated(ms);
    let day = day_of(Some(ms));
    lemma_date_is_known(day, n);
    law_dates_sort_by_time(day, n, since, k);
}

/// Any text can be given to start from: the usage of a line is counted if and only if the date of
/// its day does not come before that text.
pub proof fn law_counted_since_a_text(
    sid: Seq<char>,
    line: Seq<char>,
    t: JsonTree,
    ms: i64,
    since: Seq<char>,
    day: Seq<char>,
)
    requires
        records_usage(line, t),
        agent_ts(t) == Some(ms),
        0 < ms < 253_402_300_800_000,
        dates(day, ms as int / 86_400_000),
    ensures
        line_event(sid, line, Some(since)) is Some <==> !lex_less(text_rank(day), text_rank(since)),
{
    let n = ms as int / 86_400_000;
    law_stamps_are_dated(ms);
    law_dates_sort_by_time(day, n, day_of(Some(ms)), n);
    lemma_date_is_known(day, n);
}

/// The usage of a line without a positive time stamp is always counted, on a day that is not known.
pub proof fn law_undated_is_counted(
    sid: Seq<char>,
    line: Seq<char>,
    t: JsonTree,
    since: Option<Seq<char>>,
)
    requires
        records_usage(line, t),
        agent_ts(t) matches Some(ms) ==> ms <= 0,
    ensures
        line_event(sid, line, since) matches Some(e) && e.sid == sid && e.day == "unknown"@,
{
}

/// What is counted of a line are the records of the line; each has one that counts the same, and no
/// two count the same. A line that records no usage counts for nothing.
pub proof fn law_counted_of_a_line(
    sid: Seq<char>,
    line: Seq<char>,
    t: JsonTree,
    since: Option<Seq<char>>,
)
    ensures
        !has_part(line, "inputTokens"@) && !has_part(line, "usage"@) ==> line_event(
            sid,
            line,
            since,
        ) is None,
        text_tree(trimmed(line)) is None ==> line_event(sid, line, since) is None,
        text_tree(trimmed(line)) == Some(t) && line_usage(t).len() == 0 ==> line_event(
            sid,
            line,
            since,
        ) is None,
        text_tree(trimmed(line)) == Some(t) ==> (line_event(sid, line, since) matches Some(e) ==> {
            &&& forall|i: int|
                0 <= i < e.records.len() ==> line_usage(t).contains(#[trigger] e.records[i])
            &&& forall|j: int|
                0 <= j < line_usage(t).len() ==> exists|i: int|
                    0 <= i < e.records.len() && same_counts(
                        #[trigger] e.records[i],
                        #[trigger] line_usage(t)[j],
                    )
            &&& forall|i: int, j: int|
                0 <= i < j < e.records.len() ==> !same_counts(
                    #[trigger] e.records[i],
                    #[trigger] e.records[j],
                )
        }),
{
    if let Some(e) = line_event(sid, line, since) {
        if text_tree(trimmed(line)) == Some(t) {
            let us = line_usage(t);
            law_first_records_count(us);
            assert(e.records == first_of_each(us));
            assert forall|i: int| 0 <= i < e.records.len() implies us.contains(
                #[trigger] e.records[i],
            ) by {
                assert(e.records[i] == first_of_each(us)[i]);
                let j = choose|j: int| 0 <= j < us.len() && us[j] == first_of_each(us)[i];
                assert(us[j] == e.records[i]);
            }
        }
    }
}

/// The logs are read one after the other, and each line by line: the usage of a line stands behind
/// that of the lines before it, under the session whose log the line is in.
pub proof fn law_usage_by_lines(
    logs: Seq<SessionLog>,
    log: SessionLog,
    lines: Seq<Seq<char>>,
    line: Seq<char>,
    sid: Seq<char>,
    since: Option<Seq<char>>,
)
    ensures
        log_events(Seq::empty(), since).len() == 0,
        log_events(logs.push(log), since) == log_events(logs, since) + session_events(
            log.session_id@,
            texts(log.lines@),
            since,
        ),
        session_events(sid, Seq::empty(), since).len() == 0,
        line_event(sid, line, since) matches Some(e)
            ==> session_events(sid, lines.push(line), since)
            == session_events(sid, lines, since).push(e),
        line_event(sid, line, since) is None ==> session_events(sid, lines.push(line), since)
            == session_events(sid, lines, since),
{
    assert(logs.push(log).drop_last() =~= logs);
    assert(lines.push(line).drop_last() =~= lines);
}

proof fn lemma_records_on(events: Seq<DayEvent>, day: Seq<char>, u: JsonTree)
    ensures
        records_on(events, day).contains(u) <==> exists|k: int|
            0 <= k < events.len() && (#[trigger] events[k]).day == day
                && events[k].records.contains(
                u,
            ),
    decreases events.len(),
{
    if events.len() > 0 {
        let a = events.drop_last();
        lemma_records_on(a, day, u);
        lemma_contains_add(records_on(a, day), events.last().records, u);
        if records_on(a, day).contains(u) {
            let k = choose|k: int|
                0 <= k < a.len() && (#[trigger] a[k]).day == day && a[k].records.contains(u);
            assert(events[k] == a[k]);
        }
        if exists|k: int|
            0 <= k < events.len() && (#[trigger] events[k]).day == day
                && events[k].records.contains(
                u,
            ) {
            let k = choose|k: int|
                0 <= k < events.len() && (#[trigger] events[k]).day == day
                    && events[k].records.contains(u);
            if k < a.len() {
                assert(a[k] == events[k]);
            }
        }
    }
}

proof fn lemma_sessions_on(events: Seq<DayEvent>, day: Seq<char>, sid: Seq<char>)
    ensures
        sessions_on(events, day).contains(sid) <==> exists|k: int|
            0 <= k < events.len() && (#[trigger] events[k]).day == day && events[k].sid == sid,
    decreases events.len(),
{
    if events.len() > 0 {
        let a = events.drop_last();
        lemma_sessions_on(a, day, sid);
        if sessions_on(a, day).contains(sid) {
            let k = choose|k: int|
                0 <= k < a.len() && (#[trigger] a[k]).day == day && a[k].sid == sid;
            assert(events[k] == a[k]);
        }
        if exists|k: int|
            0 <= k < events.len() && (#[trigger] events[k]).day == day && events[k].sid == sid {
            let k = choose|k: int|
                0 <= k < events.len() && (#[trigger] events[k]).day == day && events[k].sid == sid;
            if k < a.len() {
                assert(a[k] == events[k]);
            }
        }
    }
}

/// There is a day for just those days on which usage lies. The records of a day are those of the
/// usage on it, and its sessions those that the usage on it is of.
pub proof fn law_days_hold_their_usage(
    days: Seq<DailyStat>,
    events: Seq<DayEvent>,
    i: int,
    day: Seq<char>,
    sid: Seq<char>,
    u: JsonTree,
)
    requires
        days_of(days, events),
    ensures
        (exists|j: int| 0 <= j < days.len() && (#[trigger] days[j]).date@ == day) <==> (exists|
            k: int,
        |
            0 <= k < events.len() && (#[trigger] events[k]).day == day),
        records_on(events, day).contains(u) <==> exists|k: int|
            0 <= k < events.len() && (#[trigger] events[k]).day == day
                && events[k].records.contains(
                u,
            ),
        0 <= i < days.len() ==> (days[i].sessions.keys().contains(sid) <==> exists|k: int|
            0 <= k < events.len() && (#[trigger] events[k]).day == days[i].date@ && events[k].sid
                == sid),
        0 <= i < days.len() ==> days[i].tokens.tallies(records_on(events, days[i].date@)),
{
    reveal(days_of);
    lemma_records_on(events, day, u);
    if 0 <= i < days.len() {
        let d = days[i];
        assert(d.sums_up(events));
        lemma_sessions_on(events, d.date@, sid);
        assert(d.sessions.keys().contains(sid) == d.sessions.keys().to_set().contains(sid));
    }
    if exists|j: int| 0 <= j < days.len() && (#[trigger] days[j]).date@ == day {
        let j = choose|j: int| 0 <= j < days.len() && (#[trigger] days[j]).date@ == day;
        assert(has_day(events, days[j].date@));
    }
    if exists|k: int| 0 <= k < events.len() && (#[trigger] events[k]).day == day {
        let k = choose|k: int| 0 <= k < events.len() && (#[trigger] events[k]).day == day;
        assert(exists|j: int| 0 <= j < days.len() && (#[trigger] days[j]).date@ == events[k].day);
    }
}

/// The days come in the order of the calendar, each once.
pub proof fn law_days_in_calendar_order(
    days: Seq<DailyStat>,
    events: Seq<DayEvent>,
    i: int,
    j: int,
    n: int,
    m: int,
)
    requires
        days_of(days, events),
        0 <= i < days.len(),
        0 <= j < days.len(),
        dates(days[i].date@, n),
        dates(days[j].date@, m),
    ensures
        i < j <==> n < m,
        i == j <==> n == m,
{
    reveal(days_of);
    law_dates_sort_by_time(days[i].date@, n, days[j].date@, m);
    law_dates_sort_by_time(days[j].date@, m, days[i].date@, n);
    if i < j {
        assert(lex_less(text_rank(days[i].date@), text_rank(days[j].date@)));
    }
    if j < i {
        assert(lex_less(text_rank(days[j].date@), text_rank(days[i].date@)));
    }
}

/// The totals of `after` are those of `before` and the counts of the records `us`.
pub open spec fn grown_by(after: DailyStat, before: DailyStat, us: Seq<JsonTree>) -> bool {
    let (a, b) = (after.tokens, before.tokens);
    &&& a.input_tokens == b.input_tokens + total(us, "inputTokens"@)
    &&& a.output_tokens == b.output_tokens + total(us, "outputTokens"@)
    &&& a.total_tokens == b.total_tokens + total(us, "totalTokens"@)
    &&& a.cached_read_tokens == b.cached_read_tokens + total(us, "cachedReadTokens"@)
    &&& a.reasoning_tokens == b.reasoning_tokens + total(us, "reasoningTokens"@)
    &&& a.cost_usd_ticks == b.cost_usd_ticks + total(us, "costUsdTicks"@)
    &&& a.model_calls == b.model_calls + total(us, "modelCalls"@)
    &&& a.events == b.events + us.len()
}

/// More usage adds its counts to the day that it lies on, and leaves every other day as it is.
pub proof fn law_usage_lands_on_its_day(
    before: Seq<DailyStat>,
    after: Seq<DailyStat>,
    events: Seq<DayEvent>,
    e: DayEvent,
    i: int,
    j: int,
)
    requires
        days_of(before, events),
        days_of(after, events.push(e)),
        0 <= i < before.len(),
        0 <= j < after.len(),
        before[i].date@ == after[j].date@,
    ensures
        before[i].date@ == e.day ==> grown_by(after[j], before[i], e.records),
        before[i].date@ != e.day ==> grown_by(after[j], before[i], Seq::empty()),
{
    reveal(days_of);
    let day = before[i].date@;
    assert(before[i].sums_up(events));
    assert(after[j].sums_up(events.push(e)));
    assert(events.push(e).drop_last() =~= events);
    let us = records_on(events, day);
    let vs = e.records;
    law_totals_are_sums(us, vs, arbitrary(), "inputTokens"@);
    law_totals_are_sums(us, vs, arbitrary(), "outputTokens"@);
    law_totals_are_sums(us, vs, arbitrary(), "totalTokens"@);
    law_totals_are_sums(us, vs, arbitrary(), "cachedReadTokens"@);
    law_totals_are_sums(us, vs, arbitrary(), "reasoningTokens"@);
    law_totals_are_sums(us, vs, arbitrary(), "costUsdTicks"@);
    law_totals_are_sums(us, vs, arbitrary(), "modelCalls"@);
}

/// With a date to start from, just those days are shown that are not before it in the calendar,
/// and the day that is not known; each with the totals that it has without a date to start from.
pub proof fn law_days_since(
    logs: Seq<SessionLog>,
    since: Seq<char>,
    k: int,
    all: Seq<DailyStat>,
    kept: Seq<DailyStat>,
    i: int,
    n: int,
)
    requires
        dates(since, k),
        days_of(all, log_events(logs, None)),
        days_of(kept, log_events(logs, Some(since))),
        0 <= i < all.len(),
    ensures
        dates(all[i].date@, n) ==> ((exists|j: int|
            0 <= j < kept.len() && (#[trigger] kept[j]).date@ == all[i].date@) <==> n >= k),
        all[i].date@ == "unknown"@ ==> exists|j: int|
            0 <= j < kept.len() && (#[trigger] kept[j]).date@ == all[i].date@,
        forall|j: int|
            0 <= j < kept.len() ==> exists|m: int|
                0 <= m < all.len() && same_day(#[trigger] kept[j], #[trigger] all[m]),
{
    law_since_keeps_later_days(logs, Some(since), all, kept);
    let p = |d: DailyStat| !too_early(d.date@, Some(since));
    lemma_filter_members(all, p);
    let later = later_days(all, Some(since));
    assert(later == all.filter(p));
    if dates(all[i].date@, n) {
        law_dates_sort_by_time(all[i].date@, n, since, k);
        lemma_date_is_known(all[i].date@, n);
    }
    if !too_early(all[i].date@, Some(since)) {
        assert(p(all[i]));
        assert(later.contains(all[i]));
        let j = choose|j: int| 0 <= j < later.len() && later[j] == all[i];
        assert(same_day(kept[j], later[j]));
        assert(kept[j].date@ == all[i].date@);
    }
    if exists|j: int| 0 <= j < kept.len() && (#[trigger] kept[j]).date@ == all[i].date@ {
        let j = choose|j: int| 0 <= j < kept.len() && (#[trigger] kept[j]).date@ == all[i].date@;
        assert(same_day(kept[j], later[j]));
        assert(p(later[j]));
    }
    assert forall|j: int| 0 <= j < kept.len() implies exists|m: int|
        0 <= m < all.len() && same_day(#[trigger] kept[j], #[trigger] all[m]) by {
        assert(same_day(kept[j], later[j]));
        let m = choose|m: int| 0 <= m < all.len() && all[m] == later[j];
        assert(same_day(kept[j], all[m]));
    }
}

/// The usage can be totalled if and only if it can on every day that some of it lies on.
pub proof fn law_days_that_fit(events: Seq<DayEvent>, day: Seq<char>)
    ensures
        days_fit(events) && (exists|k: int|
            0 <= k < events.len() && (#[trigger] events[k]).day == day) ==> totals_fit(
            records_on(events, day),
        ),
        (forall|k: int|
            0 <= k < events.len() ==> totals_fit(records_on(events, (#[trigger] events[k]).day)))
            ==> days_fit(events),
{
    if exists|k: int| 0 <= k < events.len() && (#[trigger] events[k]).day == day {
        assert(has_day(events, day));
    }
    if forall|k: int|
        0 <= k < events.len() ==> totals_fit(records_on(events, (#[trigger] events[k]).day)) {
        assert forall|d: Seq<char>| #[trigger] has_day(events, d) implies totals_fit(
            records_on(events, d),
        ) by {
            let k = choose|k: int| 0 <= k < events.len() && (#[trigger] events[k]).day == d;
            assert(totals_fit(records_on(events, events[k].day)));
        }
    }
}

} // verus!
