//! What holds of the totals of a session.
use crate::clock::{dates, dates_with_time, day_of, law_stamps_are_dated, time_of};
use crate::json::{JsonTree, NumTree};
use crate::parse::text_tree;
use crate::session::{
    all_records, context_of, contexts, first_of_each, greater, greatest, law_keys_differ, latest,
    line_of, lines_of, peak_input, record_keys, records_of, session_records, LogLine, SessionStat,
};
use crate::text::{has_part, trimmed};
use crate::usage::{agent_ts, key_of, line_usage};
use crate::usage_laws::{law_one_key, law_totals_are_sums, same_counts};
use vstd::prelude::*;

verus! {

/// A log is read line by line: a line that names an object counts as that object with the text
/// that is left without white space at the ends, and any other line is passed over.
pub proof fn law_log_is_read_by_lines(a: Seq<Seq<char>>, b: Seq<Seq<char>>, line: Seq<char>)
    ensures
        lines_of(a + b) == lines_of(a) + lines_of(b),
        trimmed(line).len() > 0 ==> (text_tree(trimmed(line)) matches Some(t) ==> (t is Object
            ==> lines_of(seq![line]) == seq![(trimmed(line), t)])),
        trimmed(line).len() == 0 ==> lines_of(seq![line]).len() == 0,
        text_tree(trimmed(line)) is None ==> lines_of(seq![line]).len() == 0,
        text_tree(trimmed(line)) matches Some(t) ==> (!(t is Object) ==> lines_of(seq![line]).len()
            == 0),
    decreases b.len(),
{
    reveal_with_fuel(lines_of, 2);
    assert(seq![line].drop_last() =~= Seq::<Seq<char>>::empty());
    assert(seq![line].last() == line);
    if let Some(t) = text_tree(trimmed(line)) {
        if t is Object && trimmed(line).len() > 0 {
            assert(lines_of(seq![line]) =~= seq![(trimmed(line), t)]);
        }
    }
    if b.len() == 0 {
        assert(a + b =~= a);
        assert(lines_of(a) + lines_of(b) =~= lines_of(a));
    } else {
        assert((a + b).drop_last() =~= a + b.drop_last());
        law_log_is_read_by_lines(a, b.drop_last(), line);
        assert(lines_of(a + b) =~= lines_of(a) + lines_of(b));
    }
}

/// The records of a log are those of its lines, one line after the other. A line counts whose text
/// speaks of usage or of input tokens.
pub proof fn law_records_by_lines(a: Seq<LogLine>, b: Seq<LogLine>, l: LogLine)
    ensures
        all_records(a + b) == all_records(a) + all_records(b),
        has_part(l.0, "inputTokens"@) || has_part(l.0, "usage"@) ==> all_records(seq![l])
            == line_usage(l.1),
        !has_part(l.0, "inputTokens"@) && !has_part(l.0, "usage"@) ==> all_records(seq![l]).len()
            == 0,
    decreases b.len(),
{
    reveal_with_fuel(all_records, 2);
    assert(seq![l].drop_last() =~= Seq::<LogLine>::empty());
    assert(seq![l].last() == l);
    assert(all_records(seq![l]) =~= records_of(l));
    if b.len() == 0 {
        assert(a + b =~= a);
        assert(all_records(a) + all_records(b) =~= all_records(a));
    } else {
        assert((a + b).drop_last() =~= a + b.drop_last());
        law_records_by_lines(a, b.drop_last(), l);
        assert(all_records(a + b) =~= all_records(a) + all_records(b));
    }
}

/// The records that count are records that were found; each counts the first time that it occurs,
/// whatever it counts the same as has a record that counts, and no two that count count the same.
pub proof fn law_first_records_count(us: Seq<JsonTree>)
    ensures
        forall|i: int|
            0 <= i < first_of_each(us).len() ==> exists|j: int|
                0 <= j < us.len() && us[j] == #[trigger] first_of_each(us)[i] && (forall|m: int|
                    0 <= m < j ==> !same_counts(#[trigger] us[m], us[j])),
        forall|j: int|
            0 <= j < us.len() ==> exists|i: int|
                0 <= i < first_of_each(us).len() && same_counts(
                    #[trigger] first_of_each(us)[i],
                    #[trigger] us[j],
                ),
        forall|i: int, j: int|
            0 <= i < j < first_of_each(us).len() ==> !same_counts(
                #[trigger] first_of_each(us)[i],
                #[trigger] first_of_each(us)[j],
            ),
{
    let f = first_of_each(us);
    law_keys_differ(us);
    lemma_first_places(us);
    assert forall|j: int| 0 <= j < us.len() implies exists|i: int|
        0 <= i < f.len() && same_counts(#[trigger] f[i], #[trigger] us[j]) by {
        assert(record_keys(us).contains(key_of(us[j])));
        assert(record_keys(f).contains(key_of(us[j])));
        let i = choose|i: int| 0 <= i < f.len() && key_of(#[trigger] f[i]) == key_of(us[j]);
        law_one_key(f[i], us[j]);
    }
    assert forall|i: int, j: int| 0 <= i < j < f.len() implies !same_counts(
        #[trigger] f[i],
        #[trigger] f[j],
    ) by {
        law_one_key(f[i], f[j]);
    }
}

proof fn lemma_first_places(us: Seq<JsonTree>)
    ensures
        forall|i: int|
            0 <= i < first_of_each(us).len() ==> exists|j: int|
                0 <= j < us.len() && us[j] == #[trigger] first_of_each(us)[i] && (forall|m: int|
                    0 <= m < j ==> !same_counts(#[trigger] us[m], us[j])),
    decreases us.len(),
{
    if us.len() > 0 {
        let a = us.drop_last();
        lemma_first_places(a);
        let f = first_of_each(us);
        assert forall|i: int| 0 <= i < f.len() implies exists|j: int|
            0 <= j < us.len() && us[j] == #[trigger] f[i] && (forall|m: int|
                0 <= m < j ==> !same_counts(#[trigger] us[m], us[j])) by {
            if i < first_of_each(a).len() {
                assert(f[i] == first_of_each(a)[i]);
                let j = choose|j: int|
                    0 <= j < a.len() && a[j] == first_of_each(a)[i] && (forall|m: int|
                        0 <= m < j ==> !same_counts(#[trigger] a[m], a[j]));
                assert(us[j] == f[i]);
                assert forall|m: int| 0 <= m < j implies !same_counts(#[trigger] us[m], us[j]) by {
                    assert(a[m] == us[m]);
                }
            } else {
                let j = us.len() - 1;
                assert(us[j] == f[i]);
                assert forall|m: int| 0 <= m < j implies !same_counts(#[trigger] us[m], us[j]) by {
                    assert(a[m] == us[m]);
                    law_one_key(us[m], us[j]);
                    if same_counts(us[m], us[j]) {
                        assert(record_keys(a).contains(key_of(us.last())));
                    }
                }
            }
        }
    }
}

/// One more line with one record adds just that record's counts to the session, where no record
/// before it counted the same, and else nothing.
pub proof fn law_one_more_record(
    s: SessionStat,
    t: SessionStat,
    lines: Seq<LogLine>,
    l: LogLine,
    u: JsonTree,
)
    requires
        s.sums_up(lines),
        t.sums_up(lines.push(l)),
        has_part(l.0, "inputTokens"@) || has_part(l.0, "usage"@),
        line_usage(l.1) == seq![u],
    ensures
        t.has_usage,
        ({
            let known = exists|j: int|
                0 <= j < all_records(lines).len() && same_counts(
                    #[trigger] all_records(lines)[j],
                    u,
                );
            let more = |key: Seq<char>|
                if known {
                    0
                } else {
                    u.count_at(key)
                };
            &&& t.tokens.input_tokens == s.tokens.input_tokens + more("inputTokens"@)
            &&& t.tokens.output_tokens == s.tokens.output_tokens + more("outputTokens"@)
            &&& t.tokens.total_tokens == s.tokens.total_tokens + more("totalTokens"@)
            &&& t.tokens.cached_read_tokens == s.tokens.cached_read_tokens + more(
                "cachedReadTokens"@,
            )
            &&& t.tokens.reasoning_tokens == s.tokens.reasoning_tokens + more("reasoningTokens"@)
            &&& t.tokens.cost_usd_ticks == s.tokens.cost_usd_ticks + more("costUsdTicks"@)
            &&& t.tokens.model_calls == s.tokens.model_calls + more("modelCalls"@)
            &&& t.tokens.events == s.tokens.events + (if known {
                0int
            } else {
                1int
            })
        }),
{
    let us = all_records(lines);
    assert(lines.push(l) =~= lines + seq![l]);
    law_records_by_lines(lines, seq![l], l);
    let vs = all_records(lines.push(l));
    assert(vs =~= us.push(u));
    assert(vs.drop_last() =~= us);
    assert(vs.last() == u);
    assert(record_keys(us).contains(key_of(u)) <==> exists|j: int|
        0 <= j < us.len() && same_counts(#[trigger] us[j], u)) by {
        if record_keys(us).contains(key_of(u)) {
            let j = choose|j: int| 0 <= j < us.len() && key_of(#[trigger] us[j]) == key_of(u);
            law_one_key(us[j], u);
        }
        if exists|j: int| 0 <= j < us.len() && same_counts(#[trigger] us[j], u) {
            let j = choose|j: int| 0 <= j < us.len() && same_counts(#[trigger] us[j], u);
            law_one_key(us[j], u);
        }
    }
    law_keys_differ(vs);
    assert(record_keys(vs).contains(key_of(vs[us.len() as int])));
    assert(record_keys(first_of_each(vs)).contains(key_of(u)));
    let f = first_of_each(us);
    law_totals_are_sums(f, f, u, "inputTokens"@);
    law_totals_are_sums(f, f, u, "outputTokens"@);
    law_totals_are_sums(f, f, u, "totalTokens"@);
    law_totals_are_sums(f, f, u, "cachedReadTokens"@);
    law_totals_are_sums(f, f, u, "reasoningTokens"@);
    law_totals_are_sums(f, f, u, "costUsdTicks"@);
    law_totals_are_sums(f, f, u, "modelCalls"@);
}

/// A session has usage if and only if a line of its log that speaks of usage or of input tokens
/// holds a record.
pub proof fn law_has_usage(s: SessionStat, lines: Seq<LogLine>)
    requires
        s.sums_up(lines),
    ensures
        s.has_usage <==> exists|i: int|
            0 <= i < lines.len() && (has_part(lines[i].0, "inputTokens"@) || has_part(
                lines[i].0,
                "usage"@,
            )) && line_usage((#[trigger] lines[i]).1).len() > 0,
        s.has_usage <==> s.tokens.events > 0,
{
    let us = all_records(lines);
    lemma_some_record(lines);
    law_first_records_count(us);
    if us.len() > 0 {
        let i = choose|i: int|
            0 <= i < first_of_each(us).len() && same_counts(#[trigger] first_of_each(us)[i], us[0]);
        assert(first_of_each(us).len() > 0);
    }
    if first_of_each(us).len() > 0 {
        let x = first_of_each(us)[0];
        let j = choose|j: int| 0 <= j < us.len() && us[j] == x;
        assert(us.len() > 0);
    }
}

proof fn lemma_some_record(lines: Seq<LogLine>)
    ensures
        all_records(lines).len() > 0 <==> exists|i: int|
            0 <= i < lines.len() && (has_part(lines[i].0, "inputTokens"@) || has_part(
                lines[i].0,
                "usage"@,
            )) && line_usage((#[trigger] lines[i]).1).len() > 0,
    decreases lines.len(),
{
    if lines.len() > 0 {
        let a = lines.drop_last();
        lemma_some_record(a);
        if all_records(a).len() > 0 {
            let i = choose|i: int|
                0 <= i < a.len() && (has_part(a[i].0, "inputTokens"@) || has_part(
                    a[i].0,
                    "usage"@,
                )) && line_usage((#[trigger] a[i]).1).len() > 0;
            assert(lines[i] == a[i]);
        } else {
            assert forall|i: int|
                0 <= i < a.len() && (has_part(lines[i].0, "inputTokens"@) || has_part(
                    lines[i].0,
                    "usage"@,
                )) implies line_usage((#[trigger] lines[i]).1).len() == 0 by {
                assert(a[i] == lines[i]);
            }
        }
        if records_of(lines.last()).len() > 0 {
            assert(line_usage(lines[lines.len() - 1].1).len() > 0);
        }
    }
}

/// The line names an object whose time stamp is `ms`.
pub open spec fn stamped(line: Seq<char>, ms: i64) -> bool {
    &&& trimmed(line).len() > 0
    &&& text_tree(trimmed(line)) matches Some(t) && t is Object && agent_ts(t) == Some(ms)
}

proof fn lemma_latest(lines: Seq<LogLine>)
    ensures
        forall|i: int|
            0 <= i < lines.len() ==> (agent_ts((#[trigger] lines[i]).1) matches Some(x) ==> (latest(
                lines,
            ) matches Some(m) && x <= m)),
        latest(lines) matches Some(m) ==> exists|i: int|
            0 <= i < lines.len() && agent_ts((#[trigger] lines[i]).1) == Some(m),
    decreases lines.len(),
{
    if lines.len() > 0 {
        let a = lines.drop_last();
        lemma_latest(a);
        assert forall|i: int| 0 <= i < lines.len() implies (agent_ts(
            (#[trigger] lines[i]).1,
        ) matches Some(x) ==> (latest(lines) matches Some(m) && x <= m)) by {
            if i < a.len() {
                assert(a[i] == lines[i]);
            }
        }
        if let Some(m) = latest(lines) {
            if agent_ts(lines.last().1) == Some(m) {
                assert(agent_ts(lines[lines.len() - 1].1) == Some(m));
            } else {
                let i = choose|i: int| 0 <= i < a.len() && agent_ts((#[trigger] a[i]).1) == Some(m);
                assert(lines[i] == a[i]);
            }
        }
    }
}

proof fn lemma_read_lines(raw: Seq<Seq<char>>)
    ensures
        forall|i: int|
            0 <= i < raw.len() ==> (line_of(#[trigger] raw[i]) matches Some(l) ==> lines_of(
                raw,
            ).contains(l)),
        forall|k: int|
            0 <= k < lines_of(raw).len() ==> exists|i: int|
                0 <= i < raw.len() && line_of(#[trigger] raw[i]) == Some(
                    #[trigger] lines_of(raw)[k],
                ),
    decreases raw.len(),
{
    if raw.len() > 0 {
        let a = raw.drop_last();
        lemma_read_lines(a);
        let all = lines_of(raw);
        let some = lines_of(a);
        assert forall|i: int| 0 <= i < raw.len() implies (line_of(#[trigger] raw[i]) matches Some(l)
            ==> all.contains(l)) by {
            if let Some(l) = line_of(raw[i]) {
                if i < a.len() {
                    assert(a[i] == raw[i]);
                    let k = choose|k: int| 0 <= k < some.len() && some[k] == l;
                    assert(all[k] == l);
                } else {
                    assert(all[some.len() as int] == l);
                }
            }
        }
        assert forall|k: int| 0 <= k < all.len() implies exists|i: int|
            0 <= i < raw.len() && line_of(#[trigger] raw[i]) == Some(#[trigger] all[k]) by {
            if k < some.len() {
                assert(all[k] == some[k]);
                let i = choose|i: int|
                    0 <= i < a.len() && line_of(#[trigger] a[i]) == Some(some[k]);
                assert(raw[i] == a[i]);
            } else {
                assert(line_of(raw[raw.len() - 1]) == Some(all[k]));
            }
        }
    }
}

/// The last activity of a session is the time stamp of a line of its log, and at or after the time
/// stamp of every line that names an object, whether or not the line speaks of usage. From 1970 to
/// 9999 the session shows that moment, and the day that it lies on. Without a time stamp neither is
/// known.
pub proof fn law_last_activity(s: SessionStat, raw: Seq<Seq<char>>)
    requires
        s.sums_up(lines_of(raw)),
    ensures
        (exists|i: int, x: i64| 0 <= i < raw.len() && #[trigger] stamped(raw[i], x)) ==> (exists|
            i: int,
            m: i64,
        |
            #![trigger stamped(raw[i], m)]
            0 <= i < raw.len() && stamped(raw[i], m) && (forall|j: int, x: i64|
                #![trigger stamped(raw[j], x)]
                0 <= j < raw.len() && stamped(raw[j], x) ==> x <= m) && s.last_activity@ == time_of(
                Some(m),
            ) && s.last_activity_day@ == day_of(Some(m)) && (0 < m < 253_402_300_800_000
                ==> dates_with_time(s.last_activity@, m as int) && dates(
                s.last_activity_day@,
                m as int / 86_400_000,
            ))),
        (forall|i: int, x: i64|
            #![trigger stamped(raw[i], x)]
            0 <= i < raw.len() ==> !stamped(raw[i], x)) ==> s.last_activity@ == "unknown"@
            && s.last_activity_day@ == "unknown"@,
{
    let lines = lines_of(raw);
    lemma_latest(lines);
    lemma_read_lines(raw);
    assert forall|j: int, x: i64|
        #![trigger stamped(raw[j], x)]
        0 <= j < raw.len() && stamped(raw[j], x) implies (latest(lines) matches Some(m) && x
        <= m) by {
        let l = line_of(raw[j])->0;
        assert(lines.contains(l));
        let k = choose|k: int| 0 <= k < lines.len() && lines[k] == l;
        assert(agent_ts(lines[k].1) == Some(x));
    }
    if let Some(m) = latest(lines) {
        let k = choose|k: int| 0 <= k < lines.len() && agent_ts((#[trigger] lines[k]).1) == Some(m);
        let i = choose|i: int| 0 <= i < raw.len() && line_of(#[trigger] raw[i]) == Some(lines[k]);
        assert(stamped(raw[i], m));
        law_stamps_are_dated(m);
    }
}

proof fn lemma_peak_input(us: Seq<JsonTree>)
    ensures
        forall|i: int|
            0 <= i < us.len() ==> (#[trigger] us[i]).count_at("inputTokens"@) <= peak_input(us),
        us.len() > 0 ==> exists|i: int|
            0 <= i < us.len() && (#[trigger] us[i]).count_at("inputTokens"@) == peak_input(us),
        us.len() == 0 ==> peak_input(us) == 0,
    decreases us.len(),
{
    if us.len() > 0 {
        let a = us.drop_last();
        lemma_peak_input(a);
        assert forall|i: int| 0 <= i < us.len() implies (#[trigger] us[i]).count_at("inputTokens"@)
            <= peak_input(us) by {
            if i < a.len() {
                assert(a[i] == us[i]);
            }
        }
        if us.last().count_at("inputTokens"@) == peak_input(us) {
            assert(us[us.len() - 1].count_at("inputTokens"@) == peak_input(us));
        } else {
            let i = choose|i: int|
                0 <= i < a.len() && (#[trigger] a[i]).count_at("inputTokens"@) == peak_input(a);
            assert(us[i] == a[i]);
        }
    }
}

proof fn lemma_greatest(v: Seq<u64>)
    ensures
        forall|i: int| 0 <= i < v.len() ==> #[trigger] v[i] <= greatest(v),
        v.len() > 0 ==> v.contains(greatest(v)),
        v.len() == 0 ==> greatest(v) == 0,
    decreases v.len(),
{
    if v.len() > 0 {
        let a = v.drop_last();
        lemma_greatest(a);
        assert forall|i: int| 0 <= i < v.len() implies #[trigger] v[i] <= greatest(v) by {
            if i < a.len() {
                assert(a[i] == v[i]);
            }
        }
        if v.last() == greatest(v) {
            assert(v[v.len() - 1] == greatest(v));
        } else {
            let i = choose|i: int| 0 <= i < a.len() && a[i] == greatest(a);
            assert(v[i] == greatest(v));
        }
    }
}

proof fn lemma_contexts(lines: Seq<LogLine>)
    ensures
        forall|i: int|
            0 <= i < lines.len() ==> (context_of((#[trigger] lines[i]).1) matches Some(n)
                ==> contexts(lines).contains(n)),
        forall|k: int|
            0 <= k < contexts(lines).len() ==> exists|i: int|
                0 <= i < lines.len() && context_of((#[trigger] lines[i]).1) == Some(
                    #[trigger] contexts(lines)[k],
                ),
        contexts(lines).len() > 0 ==> (exists|i: int|
            0 <= i < lines.len() && context_of((#[trigger] lines[i]).1) == Some(contexts(lines)[0])
                && (forall|j: int| 0 <= j < i ==> context_of((#[trigger] lines[j]).1) is None)),
        contexts(lines).len() > 0 ==> (exists|i: int|
            0 <= i < lines.len() && context_of((#[trigger] lines[i]).1) == Some(
                contexts(lines).last(),
            ) && (forall|j: int| i < j < lines.len()
                ==> context_of((#[trigger] lines[j]).1) is None)),
    decreases lines.len(),
{
    if lines.len() > 0 {
        let a = lines.drop_last();
        lemma_contexts(a);
        let all = contexts(lines);
        let some = contexts(a);
        let n = lines.len() - 1;
        assert forall|i: int| 0 <= i < lines.len() implies (context_of(
            (#[trigger] lines[i]).1,
        ) matches Some(n) ==> all.contains(n)) by {
            if let Some(c) = context_of(lines[i].1) {
                if i < a.len() {
                    assert(a[i] == lines[i]);
                    let k = choose|k: int| 0 <= k < some.len() && some[k] == c;
                    assert(all[k] == c);
                } else {
                    assert(all[some.len() as int] == c);
                }
            }
        }
        assert forall|k: int| 0 <= k < all.len() implies exists|i: int|
            0 <= i < lines.len()
                && context_of((#[trigger] lines[i]).1) == Some(#[trigger] all[k]) by {
            if k < some.len() {
                assert(all[k] == some[k]);
                let i = choose|i: int|
                    0 <= i < a.len() && context_of((#[trigger] a[i]).1) == Some(some[k]);
                assert(lines[i] == a[i]);
            } else {
                assert(context_of(lines[n].1) == Some(all[k]));
            }
        }
        if all.len() > 0 {
            if some.len() > 0 {
                let i = choose|i: int|
                    0 <= i < a.len() && context_of((#[trigger] a[i]).1) == Some(some[0]) && (forall|
                        j: int,
                    |
                        0 <= j < i ==> context_of((#[trigger] a[j]).1) is None);
                assert(lines[i] == a[i]);
                assert(all[0] == some[0]);
                assert forall|j: int| 0 <= j < i implies context_of(
                    (#[trigger] lines[j]).1,
                ) is None by {
                    assert(a[j] == lines[j]);
                }
            } else {
                assert(context_of(lines[n].1) == Some(all[0]));
                assert forall|j: int| 0 <= j < n implies context_of(
                    (#[trigger] lines[j]).1,
                ) is None by {
                    assert(a[j] == lines[j]);
                }
            }
            if context_of(lines[n].1) is Some {
                assert(context_of(lines[n].1) == Some(all.last()));
            } else {
                let i = choose|i: int|
                    0 <= i < a.len() && context_of((#[trigger] a[i]).1) == Some(some.last()) && (
                    forall|j: int| i < j < a.len() ==> context_of((#[trigger] a[j]).1) is None);
                assert(lines[i] == a[i]);
                assert forall|j: int| i < j < lines.len() implies context_of(
                    (#[trigger] lines[j]).1,
                ) is None by {
                    if j < n {
                        assert(a[j] == lines[j]);
                    }
                }
            }
        }
    }
}

/// The size of the context that a line reports stands under `params`, `_meta` and `totalTokens`.
pub proof fn law_reported_context(t: JsonTree, p: JsonTree, m: JsonTree, n: u64)
    requires
        t.field("params"@) == Some(p),
        p.field("_meta"@) == Some(m),
    ensures
        m.field("totalTokens"@) == Some(JsonTree::Num(NumTree::PosInt(n))) ==> context_of(t)
            == Some(n),
        m.field("totalTokens"@) is None ==> context_of(t) is None,
{
    reveal_with_fuel(JsonTree::at, 4);
    let a = seq!["params"@, "_meta"@, "totalTokens"@];
    assert(a.skip(1) =~= seq!["_meta"@, "totalTokens"@]);
    assert(a.skip(1).skip(1) =~= seq!["totalTokens"@]);
    assert(a.skip(1).skip(1).skip(1) =~= Seq::<Seq<char>>::empty());
    assert(t.at(a) == p.at(a.skip(1)));
    assert(p.at(a.skip(1)) == m.at(a.skip(1).skip(1)));
    assert(m.at(a.skip(1).skip(1)) == m.field("totalTokens"@));
}

/// The peak input of a session is the greatest input of a record that counts. The peak context that
/// its log reports is the greatest that a line reports, the first context is that of the first line
/// that reports one, and the final context that of the last. All are zero where there is none.
pub proof fn law_peaks(s: SessionStat, lines: Seq<LogLine>)
    requires
        s.sums_up(lines),
    ensures
        forall|i: int|
            0 <= i < session_records(lines).len() ==> (#[trigger] session_records(
                lines,
            )[i]).count_at("inputTokens"@) <= s.peak_input_tokens,
        session_records(lines).len() > 0 ==> exists|i: int|
            0 <= i < session_records(lines).len() && (#[trigger] session_records(
                lines,
            )[i]).count_at("inputTokens"@) == s.peak_input_tokens,
        session_records(lines).len() == 0 ==> s.peak_input_tokens == 0,
        forall|i: int|
            0 <= i < lines.len() ==> (context_of((#[trigger] lines[i]).1) matches Some(n) ==> n
                <= s.meta_peak_context),
        (exists|i: int| 0 <= i < lines.len() && context_of((#[trigger] lines[i]).1) is Some) ==> {
            &&& exists|i: int|
                0 <= i < lines.len() && context_of((#[trigger] lines[i]).1) == Some(
                    s.meta_peak_context,
                )
            &&& exists|i: int|
                0 <= i < lines.len() && context_of((#[trigger] lines[i]).1) == Some(
                    s.meta_first_context,
                ) && (forall|j: int| 0 <= j < i ==> context_of((#[trigger] lines[j]).1) is None)
            &&& exists|i: int|
                0 <= i < lines.len() && context_of((#[trigger] lines[i]).1) == Some(
                    s.meta_final_context,
                ) && (forall|j: int|
                    i < j < lines.len() ==> context_of((#[trigger] lines[j]).1) is None)
        },
        (forall|i: int| 0 <= i < lines.len() ==> context_of((#[trigger] lines[i]).1) is None)
            ==> s.meta_peak_context == 0 && s.meta_first_context == 0 && s.meta_final_context == 0,
{
    lemma_peak_input(session_records(lines));
    lemma_contexts(lines);
    let c = contexts(lines);
    lemma_greatest(c);
    assert forall|i: int| 0 <= i < lines.len() implies (context_of(
        (#[trigger] lines[i]).1,
    ) matches Some(n) ==> n <= s.meta_peak_context) by {
        if let Some(n) = context_of(lines[i].1) {
            let k = choose|k: int| 0 <= k < c.len() && c[k] == n;
            assert(c[k] <= greatest(c));
        }
    }
    if exists|i: int| 0 <= i < lines.len() && context_of((#[trigger] lines[i]).1) is Some {
        let i = choose|i: int| 0 <= i < lines.len() && context_of((#[trigger] lines[i]).1) is Some;
        assert(c.contains(context_of(lines[i].1)->0));
        let k = choose|k: int| 0 <= k < c.len() && c[k] == greatest(c);
        assert(c[k] == s.meta_peak_context);
    }
    if c.len() > 0 {
        assert(c[0] == c[0]);
    }
}

/// The greater of two words is one of them and not below either.
pub proof fn law_greater(a: u64, b: u64)
    ensures
        greater(a, b) == a || greater(a, b) == b,
        greater(a, b) >= a,
        greater(a, b) >= b,
{
}

} // verus!
