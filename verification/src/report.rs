//! The reports on days and sessions.
use crate::bucket::{extend_set, TokenBucket};
use crate::daily::{days_sum, DailyStat};
use crate::double::{percent, percent_text};
use crate::format::{c, fmt_tokens, grid, painted, table, table_lines, tokens_text};
use crate::json::{
    array, count_json, entry_trees, no_entries, object, put, put_item, start_entries, text_json,
    trees, Json, JsonTree, Num, NumTree,
};
use crate::order::{lemma_ordered, ordered, SortedSet};
use crate::pricing::Charge;
use crate::session::{greater, CountOverflow, SessionStat};
use crate::text::{
    chars_of, concat2, concat4, decimal, decimal_text, first_chars, last_chars, owned, push_line,
    replace_char, replaced, same_text, take_chars, take_last_chars, texts,
};
use vstd::prelude::*;

verus! {

/// Amounts in dollars: as they are written in JSON, and as they are shown.
#[derive(Debug, PartialEq, Eq)]
pub struct Money {
    pub api: Num,
    pub api_no_cache: Num,
    pub cli: Num,
    pub savings: Num,
    pub cost: String,
    pub log: String,
    pub saved: String,
}

/// The texts of a list of keys.
pub open spec fn text_trees(v: Seq<Seq<char>>) -> Seq<JsonTree> {
    Seq::new(v.len(), |i: int| JsonTree::Text(v[i]))
}

/// A count as a value.
pub open spec fn count_tree(n: nat) -> JsonTree {
    JsonTree::Num(NumTree::PosInt(n as u64))
}

/// The fields of some totals, behind the entries `e`.
pub open spec fn token_fields(
    e: Seq<(Seq<char>, JsonTree)>,
    t: TokenBucket,
    m: Money,
) -> Seq<(Seq<char>, JsonTree)> {
    e.push(("input_tokens"@, count_tree(t.input_tokens as nat)))
        .push(("output_tokens"@, count_tree(t.output_tokens as nat)))
        .push(("total_tokens"@, count_tree(t.total_tokens as nat)))
        .push(("cached_read_tokens"@, count_tree(t.cached_read_tokens as nat)))
        .push(("fresh_input_tokens"@, count_tree(t.fresh())))
        .push(("total_without_cache"@, count_tree(t.fresh() + t.output_tokens as nat)))
        .push(("reasoning_tokens"@, count_tree(t.reasoning_tokens as nat)))
        .push(("cost_usd_ticks"@, count_tree(t.cost_usd_ticks as nat)))
        .push(("cost_cli_usd"@, JsonTree::Num(m.cli@)))
        .push(("cost_api_usd"@, JsonTree::Num(m.api@)))
        .push(("cost_api_no_cache_usd"@, JsonTree::Num(m.api_no_cache@)))
        .push(("cache_savings_usd"@, JsonTree::Num(m.savings@)))
        .push(("events"@, count_tree(t.events as nat)))
        .push(("model_calls"@, count_tree(t.model_calls as nat)))
        .push(("models"@, JsonTree::Array(text_trees(t.models.keys()))))
}

fn text_list(set: &SortedSet<String>) -> (r: Json)
    ensures
        r@ == JsonTree::Array(text_trees(set.keys())),
{
    let mut list: Vec<Json> = Vec::new();
    for i in 0..set.items.len()
        invariant
            trees(list@) == text_trees(set.keys()).take(i as int),
    {
        put_item(&mut list, text_json(set.items[i].as_str()));
        assert(trees(list@) =~= text_trees(set.keys()).take(i as int + 1));
    }
    assert(trees(list@) =~= text_trees(set.keys()));
    array(list)
}

fn put_tokens(e: &mut Vec<(String, Json)>, t: &TokenBucket, m: &Money)
    requires
        t.adds_up(),
    ensures
        entry_trees(final(e)@) == token_fields(entry_trees(old(e)@), *t, *m),
{
    put(e, "input_tokens", count_json(t.input_tokens));
    put(e, "output_tokens", count_json(t.output_tokens));
    put(e, "total_tokens", count_json(t.total_tokens));
    put(e, "cached_read_tokens", count_json(t.cached_read_tokens));
    put(e, "fresh_input_tokens", count_json(t.fresh_input_tokens()));
    put(e, "total_without_cache", count_json(t.total_without_cache()));
    put(e, "reasoning_tokens", count_json(t.reasoning_tokens));
    put(e, "cost_usd_ticks", count_json(t.cost_usd_ticks));
    put(e, "cost_cli_usd", Json::Num(m.cli.copy()));
    put(e, "cost_api_usd", Json::Num(m.api.copy()));
    put(e, "cost_api_no_cache_usd", Json::Num(m.api_no_cache.copy()));
    put(e, "cache_savings_usd", Json::Num(m.savings.copy()));
    put(e, "events", count_json(t.events));
    put(e, "model_calls", count_json(t.model_calls));
    put(e, "models", text_list(&t.models));
}

/// What is shown of a day.
pub open spec fn public_day(d: DailyStat, m: Money) -> JsonTree {
    JsonTree::Object(
        token_fields(
            no_entries().push(("date"@, JsonTree::Text(d.date@))).push(
                ("sessions"@, count_tree(d.sessions.keys().len())),
            ),
            d.tokens,
            m,
        ),
    )
}

impl TokenBucket {
    /// What is shown of the totals; `m` is what they cost.
    pub fn as_public(&self, m: &Money) -> (r: Json)
        requires
            self.adds_up(),
        ensures
            r@ == JsonTree::Object(token_fields(no_entries(), *self, *m)),
    {
        let mut e = start_entries();
        put_tokens(&mut e, self, m);
        object(e)
    }
}

impl DailyStat {
    /// What is shown of the day; `m` is what it costs.
    pub fn as_public(&self, m: &Money) -> (r: Json)
        requires
            self.tokens.adds_up(),
        ensures
            r@ == public_day(*self, *m),
    {
        let mut e = start_entries();
        put(&mut e, "date", text_json(self.date.as_str()));
        put(&mut e, "sessions", count_json(self.sessions.len() as u64));
        put_tokens(&mut e, &self.tokens, m);
        object(e)
    }
}

/// What is shown of a session.
pub open spec fn public_session(s: SessionStat, m: Money) -> JsonTree {
    JsonTree::Object(
        token_fields(
            no_entries()
                .push(("session_id"@, JsonTree::Text(s.session_id@)))
                .push(("path"@, JsonTree::Text(s.path@)))
                .push(("cwd"@, JsonTree::Text(s.cwd@)))
                .push(("last_activity"@, JsonTree::Text(s.last_activity@)))
                .push(("last_activity_day"@, JsonTree::Text(s.last_activity_day@)))
                .push((
                    "peak_context"@,
                    count_tree(greater(s.peak_input_tokens, s.meta_peak_context) as nat),
                ))
                .push(("peak_input_tokens"@, count_tree(s.peak_input_tokens as nat)))
                .push(("meta_peak_context"@, count_tree(s.meta_peak_context as nat)))
                .push(("meta_final_context"@, count_tree(s.meta_final_context as nat)))
                .push(("meta_first_context"@, count_tree(s.meta_first_context as nat)))
                .push(("has_usage"@, JsonTree::Bool(s.has_usage))),
            s.tokens,
            m,
        ),
    )
}

impl SessionStat {
    /// What is shown of the session; `m` is what it costs.
    pub fn as_public(&self, m: &Money) -> (r: Json)
        requires
            self.tokens.adds_up(),
        ensures
            r@ == public_session(*self, *m),
    {
        let mut e = start_entries();
        put(&mut e, "session_id", text_json(self.session_id.as_str()));
        put(&mut e, "path", text_json(self.path.as_str()));
        put(&mut e, "cwd", text_json(self.cwd.as_str()));
        put(&mut e, "last_activity", text_json(self.last_activity.as_str()));
        put(&mut e, "last_activity_day", text_json(self.last_activity_day.as_str()));
        put(&mut e, "peak_context", count_json(self.peak_context()));
        put(&mut e, "peak_input_tokens", count_json(self.peak_input_tokens));
        put(&mut e, "meta_peak_context", count_json(self.meta_peak_context));
        put(&mut e, "meta_final_context", count_json(self.meta_final_context));
        put(&mut e, "meta_first_context", count_json(self.meta_first_context));
        put(&mut e, "has_usage", Json::Bool(self.has_usage));
        put_tokens(&mut e, &self.tokens, m);
        object(e)
    }
}

/// No texts.
pub open spec fn no_texts() -> Seq<Seq<char>> {
    Seq::empty()
}

/// No texts.
pub fn start_texts() -> (r: Vec<String>)
    ensures
        texts(r@) == no_texts(),
{
    let r: Vec<String> = Vec::new();
    assert(texts(r@) =~= no_texts());
    r
}

/// The totals that are shown.
#[verifier::ext_equal]
pub struct Counts {
    pub input: nat,
    pub cached: nat,
    pub output: nat,
    pub total: nat,
    pub events: nat,
}

impl Counts {
    /// The input that did not come from the cache.
    pub open spec fn fresh(self) -> nat {
        if self.input >= self.cached {
            (self.input - self.cached) as nat
        } else {
            0
        }
    }
}

/// The totals of a bucket that are shown.
pub open spec fn counts(t: TokenBucket) -> Counts {
    Counts {
        input: t.input_tokens as nat,
        cached: t.cached_read_tokens as nat,
        output: t.output_tokens as nat,
        total: t.total_tokens as nat,
        events: t.events as nat,
    }
}

/// The cells of some totals, behind the cells `a`.
pub open spec fn token_cells(
    a: Seq<Seq<char>>,
    n: Counts,
    cost: Seq<char>,
    color: bool,
) -> Seq<Seq<char>> {
    a.push(painted(color, "32"@, tokens_text(n.input)))
        .push(painted(color, "2"@, tokens_text(n.cached)))
        .push(painted(color, "2"@, percent(n.cached, n.input) + "%"@))
        .push(painted(color, "33"@, tokens_text(n.fresh())))
        .push(painted(color, "35"@, tokens_text(n.output)))
        .push(painted(color, "1"@, tokens_text(n.total)))
        .push(painted(color, "33"@, tokens_text(n.fresh() + n.output)))
        .push(painted(color, "32"@, cost))
}

fn push_token_cells(row: &mut Vec<String>, t: &TokenBucket, cost: &str, color: bool)
    requires
        t.adds_up(),
    ensures
        texts(final(row)@) == token_cells(texts(old(row)@), counts(*t), cost@, color),
{
    push_line(row, c(color, "32", fmt_tokens(t.input_tokens).as_str()));
    push_line(row, c(color, "2", fmt_tokens(t.cached_read_tokens).as_str()));
    let hit = concat2(percent_text(t.cached_read_tokens, t.input_tokens).as_str(), "%");
    push_line(row, c(color, "2", hit.as_str()));
    push_line(row, c(color, "33", fmt_tokens(t.fresh_input_tokens()).as_str()));
    push_line(row, c(color, "35", fmt_tokens(t.output_tokens).as_str()));
    push_line(row, c(color, "1", fmt_tokens(t.total_tokens).as_str()));
    push_line(row, c(color, "33", fmt_tokens(t.total_without_cache()).as_str()));
    push_line(row, c(color, "32", cost));
}

/// The headers of the daily report.
pub open spec fn daily_headers(verbose: bool) -> Seq<Seq<char>> {
    let a = no_texts()
        .push("Date"@)
        .push("Reqs"@)
        .push("Sess"@)
        .push("Input"@)
        .push("Cache"@)
        .push("Hit%"@)
        .push("Fresh"@)
        .push("Output"@)
        .push("Total"@)
        .push("NoCache"@)
        .push("Cost"@);
    if verbose {
        a.push("Log$"@).push("Saved"@)
    } else {
        a
    }
}

fn daily_header_texts(verbose: bool) -> (r: Vec<String>)
    ensures
        texts(r@) == daily_headers(verbose),
{
    let mut h = start_texts();
    push_line(&mut h, owned("Date"));
    push_line(&mut h, owned("Reqs"));
    push_line(&mut h, owned("Sess"));
    push_line(&mut h, owned("Input"));
    push_line(&mut h, owned("Cache"));
    push_line(&mut h, owned("Hit%"));
    push_line(&mut h, owned("Fresh"));
    push_line(&mut h, owned("Output"));
    push_line(&mut h, owned("Total"));
    push_line(&mut h, owned("NoCache"));
    push_line(&mut h, owned("Cost"));
    if verbose {
        push_line(&mut h, owned("Log$"));
        push_line(&mut h, owned("Saved"));
    }
    h
}

/// The row of some totals in the daily report.
pub open spec fn daily_row(
    first: Seq<char>,
    n: Counts,
    sessions: nat,
    m: Money,
    verbose: bool,
    color: bool,
) -> Seq<Seq<char>> {
    let a = token_cells(
        no_texts()
            .push(painted(color, "36"@, first))
            .push(decimal(n.events))
            .push(decimal(sessions)),
        n,
        m.cost@,
        color,
    );
    if verbose {
        a.push(painted(color, "2"@, m.log@)).push(painted(color, "36"@, m.saved@))
    } else {
        a
    }
}

fn daily_row_texts(
    first: &str,
    t: &TokenBucket,
    sessions: usize,
    m: &Money,
    verbose: bool,
    color: bool,
) -> (r: Vec<String>)
    requires
        t.adds_up(),
    ensures
        texts(r@) == daily_row(first@, counts(*t), sessions as nat, *m, verbose, color),
{
    let mut row = start_texts();
    push_line(&mut row, c(color, "36", first));
    push_line(&mut row, decimal_text(t.events as u128));
    push_line(&mut row, decimal_text(sessions as u128));
    push_token_cells(&mut row, t, m.cost.as_str(), color);
    if verbose {
        push_line(&mut row, c(color, "2", m.log.as_str()));
        push_line(&mut row, c(color, "36", m.saved.as_str()));
    }
    row
}

/// The sums over some days that are shown.
pub open spec fn day_counts(days: Seq<DailyStat>) -> Counts {
    Counts {
        input: days_sum(days, |b: TokenBucket| b.input_tokens as nat),
        cached: days_sum(days, |b: TokenBucket| b.cached_read_tokens as nat),
        output: days_sum(days, |b: TokenBucket| b.output_tokens as nat),
        total: days_sum(days, |b: TokenBucket| b.total_tokens as nat),
        events: days_sum(days, |b: TokenBucket| b.events as nat),
    }
}

/// The sessions of some days.
pub open spec fn day_sessions(days: Seq<DailyStat>) -> Set<Seq<char>>
    decreases days.len(),
{
    if days.len() == 0 {
        Set::empty()
    } else {
        day_sessions(days.drop_last()).union(days.last().sessions.keys().to_set())
    }
}

/// The charges of some days, one day after the other.
pub open spec fn day_charges(days: Seq<DailyStat>) -> Seq<Charge>
    decreases days.len(),
{
    if days.len() == 0 {
        Seq::empty()
    } else {
        day_charges(days.drop_last()) + days.last().tokens.charges@
    }
}

/// The models of some days.
pub open spec fn day_models(days: Seq<DailyStat>) -> Set<Seq<char>>
    decreases days.len(),
{
    if days.len() == 0 {
        Set::empty()
    } else {
        day_models(days.drop_last()).union(days.last().tokens.models.keys().to_set())
    }
}

/// Every sum over the days fits its word.
pub open spec fn sums_fit(days: Seq<DailyStat>) -> bool {
    &&& days_sum(days, |b: TokenBucket| b.input_tokens as nat) <= u64::MAX
    &&& days_sum(days, |b: TokenBucket| b.output_tokens as nat) <= u64::MAX
    &&& days_sum(days, |b: TokenBucket| b.total_tokens as nat) <= u64::MAX
    &&& days_sum(days, |b: TokenBucket| b.cached_read_tokens as nat) <= u64::MAX
    &&& days_sum(days, |b: TokenBucket| b.reasoning_tokens as nat) <= u64::MAX
    &&& days_sum(days, |b: TokenBucket| b.cost_usd_ticks as nat) <= u64::MAX
    &&& days_sum(days, |b: TokenBucket| b.events as nat) <= u64::MAX
    &&& days_sum(days, |b: TokenBucket| b.model_calls as nat) <= u64::MAX
}

/// The totals and their sums can be shown: no sum overflows.
pub open spec fn days_add_up(days: Seq<DailyStat>) -> bool {
    &&& forall|i: int| 0 <= i < days.len() ==> (#[trigger] days[i]).tokens.adds_up()
    &&& sums_fit(days)
    &&& day_counts(days).fresh() + day_counts(days).output <= u64::MAX
}

/// The bucket holds the sums over the days, with the charges and the models of all of them.
pub open spec fn holds_sums(t: TokenBucket, days: Seq<DailyStat>) -> bool {
    &&& t.wf()
    &&& t.input_tokens == days_sum(days, |b: TokenBucket| b.input_tokens as nat)
    &&& t.output_tokens == days_sum(days, |b: TokenBucket| b.output_tokens as nat)
    &&& t.total_tokens == days_sum(days, |b: TokenBucket| b.total_tokens as nat)
    &&& t.cached_read_tokens == days_sum(days, |b: TokenBucket| b.cached_read_tokens as nat)
    &&& t.reasoning_tokens == days_sum(days, |b: TokenBucket| b.reasoning_tokens as nat)
    &&& t.cost_usd_ticks == days_sum(days, |b: TokenBucket| b.cost_usd_ticks as nat)
    &&& t.charges@ == day_charges(days)
    &&& t.events == days_sum(days, |b: TokenBucket| b.events as nat)
    &&& t.model_calls == days_sum(days, |b: TokenBucket| b.model_calls as nat)
    &&& t.models.keys().to_set() == day_models(days)
}

proof fn lemma_days_sum_prefix(
    a: Seq<DailyStat>,
    b: Seq<DailyStat>,
    f: spec_fn(TokenBucket) -> nat,
)
    ensures
        days_sum(a, f) <= days_sum(a + b, f),
    decreases b.len(),
{
    if b.len() == 0 {
        assert(a + b =~= a);
    } else {
        assert((a + b).drop_last() =~= a + b.drop_last());
        lemma_days_sum_prefix(a, b.drop_last(), f);
    }
}

proof fn lemma_sums_prefix(a: Seq<DailyStat>, b: Seq<DailyStat>)
    requires
        sums_fit(a + b),
    ensures
        sums_fit(a),
{
    lemma_days_sum_prefix(a, b, |b: TokenBucket| b.input_tokens as nat);
    lemma_days_sum_prefix(a, b, |b: TokenBucket| b.output_tokens as nat);
    lemma_days_sum_prefix(a, b, |b: TokenBucket| b.total_tokens as nat);
    lemma_days_sum_prefix(a, b, |b: TokenBucket| b.cached_read_tokens as nat);
    lemma_days_sum_prefix(a, b, |b: TokenBucket| b.reasoning_tokens as nat);
    lemma_days_sum_prefix(a, b, |b: TokenBucket| b.cost_usd_ticks as nat);
    lemma_days_sum_prefix(a, b, |b: TokenBucket| b.events as nat);
    lemma_days_sum_prefix(a, b, |b: TokenBucket| b.model_calls as nat);
}

/// The sums over some days, and how many sessions they have. Fails where a sum overflows.
pub fn sum_days(days: &Vec<DailyStat>) -> (r: Result<(TokenBucket, usize), CountOverflow>)
    ensures
        r is Ok <==> days_add_up(days@),
        r matches Ok(p) ==> {
            &&& holds_sums(p.0, days@)
            &&& counts(p.0) == day_counts(days@)
            &&& p.0.adds_up()
            &&& p.1 == ordered(day_sessions(days@)).len()
        },
{
    let ghost all = days@;
    let mut tot = TokenBucket::new();
    let mut sessions: SortedSet<String> = SortedSet::new();
    proof {
        assert(sessions.keys().to_set() =~= day_sessions(all.take(0)));
        assert(tot.charges@ =~= day_charges(all.take(0)));
    }
    for i in 0..days.len()
        invariant
            all == days@,
            holds_sums(tot, all.take(i as int)),
            sessions.wf(),
            sessions.keys().to_set() == day_sessions(all.take(i as int)),
            forall|j: int| 0 <= j < i ==> (#[trigger] all[j]).tokens.adds_up(),
    {
        let ghost now = all.take(i as int + 1);
        assert(now.drop_last() =~= all.take(i as int));
        assert(now.last() == all[i as int]);
        let d = &days[i];
        if !d.tokens.can_add_up() {
            return Err(CountOverflow);
        }
        if !tot.can_merge(&d.tokens) {
            proof {
                let rest = all.skip(i as int + 1);
                assert(now + rest =~= all);
                if sums_fit(all) {
                    lemma_sums_prefix(now, rest);
                }
            }
            return Err(CountOverflow);
        }
        tot.merge(&d.tokens);
        extend_set(&mut sessions, &d.sessions);
    }
    assert(all.take(days@.len() as int) =~= all);
    if !tot.can_add_up() {
        return Err(CountOverflow);
    }
    proof {
        lemma_ordered(sessions.keys(), day_sessions(all));
    }
    Ok((tot, sessions.len()))
}

/// The rows of the days in the daily report.
pub open spec fn day_rows(
    days: Seq<DailyStat>,
    money: Seq<Money>,
    verbose: bool,
    color: bool,
) -> Seq<Seq<Seq<char>>> {
    Seq::new(
        days.len(),
        |i: int|
            daily_row(
                days[i].date@,
                counts(days[i].tokens),
                days[i].sessions.keys().len(),
                money[i],
                verbose,
                color,
            ),
    )
}

/// The notes under the daily report.
pub open spec fn daily_notes(a: Seq<Seq<char>>, verbose: bool, color: bool) -> Seq<Seq<char>> {
    let b = a.push(
        painted(color, "2"@, "Cost = public list price with cache discount (not final invoice)."@),
    )
        .push(
        painted(
            color,
            "2"@,
            "Total = Input+Output · NoCache = Fresh+Output (excludes cached input)."@,
        ),
    )
        .push(
        painted(
            color,
            "2"@,
            "Cache ⊂ Input · Fresh = Input − Cache · Input accumulates across turns."@,
        ),
    );
    if verbose {
        b
    } else {
        b.push(painted(color, "2"@, "Tip: -v shows Log$ (CLI internal) and cache Saved$."@))
    }
}

/// The title of a report, and what is known of the accounts.
pub open spec fn report_front(
    what: Seq<char>,
    overview: Seq<Seq<char>>,
    color: bool,
) -> Seq<Seq<char>> {
    no_texts().push(painted(color, "1;36"@, "Grok Tokens"@) + painted(color, "2"@, what)).push(
        ""@,
    ) + overview
}

/// The daily report: a table with a row for each day and one for the sums.
pub open spec fn daily_report(
    days: Seq<DailyStat>,
    money: Seq<Money>,
    total: Money,
    overview: Seq<Seq<char>>,
    verbose: bool,
    color: bool,
) -> Seq<Seq<char>> {
    let front = report_front("  ·  daily (UTC)"@, overview, color);
    if days.len() == 0 {
        front.push(painted(color, "33"@, "No usage events found."@))
    } else {
        let rows = day_rows(days, money, verbose, color).push(
            daily_row(
                "TOTAL"@,
                day_counts(days),
                ordered(day_sessions(days)).len(),
                total,
                verbose,
                false,
            ),
        );
        daily_notes(
            (front + table(daily_headers(verbose), rows, color, true)).push(""@),
            verbose,
            color,
        )
    }
}

/// Puts the strings of `more` behind those of a list.
pub fn append_lines(lines: &mut Vec<String>, more: &Vec<String>)
    ensures
        texts(final(lines)@) == texts(old(lines)@) + texts(more@),
{
    let ghost start = texts(lines@);
    let ghost all = texts(more@);
    assert(start + all.take(0) =~= start);
    for i in 0..more.len()
        invariant
            all == texts(more@),
            texts(lines@) == start + all.take(i as int),
    {
        push_line(lines, owned(more[i].as_str()));
        assert(texts(lines@) =~= start + all.take(i as int + 1));
    }
    assert(all.take(more@.len() as int) =~= all);
}

/// Puts a row behind those of a table.
pub fn push_row(rows: &mut Vec<Vec<String>>, row: Vec<String>)
    ensures
        grid(final(rows)@) == grid(old(rows)@).push(texts(row@)),
{
    let ghost before = rows@;
    let ghost t = texts(row@);
    rows.push(row);
    assert(grid(rows@) =~= grid(before).push(t));
}

fn front_lines(what: &str, overview: &Vec<String>, color: bool) -> (r: Vec<String>)
    ensures
        texts(r@) == report_front(what@, texts(overview@), color),
{
    let mut out = start_texts();
    let title = c(color, "1;36", "Grok Tokens");
    push_line(&mut out, concat2(title.as_str(), c(color, "2", what).as_str()));
    push_line(&mut out, owned(""));
    append_lines(&mut out, overview);
    out
}

/// The lines of the daily report. `money` and `total` are what the days and all of them cost;
/// `overview` is what is shown of the accounts. Fails where a sum overflows.
pub fn print_daily(
    days: &Vec<DailyStat>,
    money: &Vec<Money>,
    total: &Money,
    overview: &Vec<String>,
    verbose: bool,
    color: bool,
) -> (r: Result<Vec<String>, CountOverflow>)
    requires
        money@.len() == days@.len(),
    ensures
        r is Ok <==> days_add_up(days@),
        r matches Ok(lines) ==> texts(lines@) == daily_report(
            days@,
            money@,
            *total,
            texts(overview@),
            verbose,
            color,
        ),
{
    let (tot, sessions) = match sum_days(days) {
        Ok(p) => p,
        Err(e) => {
            return Err(e);
        },
    };
    let mut out = front_lines("  ·  daily (UTC)", overview, color);
    if days.len() == 0 {
        push_line(&mut out, c(color, "33", "No usage events found."));
        return Ok(out);
    }
    let headers = daily_header_texts(verbose);
    let ghost want = day_rows(days@, money@, verbose, color);
    let mut rows: Vec<Vec<String>> = Vec::new();
    assert(grid(rows@) =~= want.take(0));
    for i in 0..days.len()
        invariant
            money@.len() == days@.len(),
            days_add_up(days@),
            want == day_rows(days@, money@, verbose, color),
            grid(rows@) == want.take(i as int),
    {
        let d = &days[i];
        let row = daily_row_texts(
            d.date.as_str(),
            &d.tokens,
            d.sessions.len(),
            &money[i],
            verbose,
            color,
        );
        push_row(&mut rows, row);
        assert(grid(rows@) =~= want.take(i as int + 1));
    }
    assert(want.take(days@.len() as int) =~= want);
    push_row(&mut rows, daily_row_texts("TOTAL", &tot, sessions, total, verbose, false));
    append_lines(&mut out, &table_lines(&headers, &rows, color, true));
    push_line(&mut out, owned(""));
    push_line(
        &mut out,
        c(color, "2", "Cost = public list price with cache discount (not final invoice)."),
    );
    push_line(
        &mut out,
        c(color, "2", "Total = Input+Output · NoCache = Fresh+Output (excludes cached input)."),
    );
    push_line(
        &mut out,
        c(color, "2", "Cache ⊂ Input · Fresh = Input − Cache · Input accumulates across turns."),
    );
    if !verbose {
        push_line(
            &mut out,
            c(color, "2", "Tip: -v shows Log$ (CLI internal) and cache Saved$."),
        );
    }
    Ok(out)
}

/// The headers of the session report.
pub open spec fn session_headers(verbose: bool) -> Seq<Seq<char>> {
    let a = no_texts()
        .push("Session"@)
        .push("Reqs"@)
        .push("Input"@)
        .push("Cache"@)
        .push("Hit%"@)
        .push("Fresh"@)
        .push("Output"@)
        .push("Total"@)
        .push("NoCache"@)
        .push("Cost"@)
        .push("Peak"@)
        .push("Last"@);
    if verbose {
        a.push("Log$"@).push("Saved"@).push("Cwd"@)
    } else {
        a
    }
}

fn session_header_texts(verbose: bool) -> (r: Vec<String>)
    ensures
        texts(r@) == session_headers(verbose),
{
    let mut h = start_texts();
    push_line(&mut h, owned("Session"));
    push_line(&mut h, owned("Reqs"));
    push_line(&mut h, owned("Input"));
    push_line(&mut h, owned("Cache"));
    push_line(&mut h, owned("Hit%"));
    push_line(&mut h, owned("Fresh"));
    push_line(&mut h, owned("Output"));
    push_line(&mut h, owned("Total"));
    push_line(&mut h, owned("NoCache"));
    push_line(&mut h, owned("Cost"));
    push_line(&mut h, owned("Peak"));
    push_line(&mut h, owned("Last"));
    if verbose {
        push_line(&mut h, owned("Log$"));
        push_line(&mut h, owned("Saved"));
        push_line(&mut h, owned("Cwd"));
    }
    h
}

/// The last activity as it is shown: to the minute.
pub open spec fn last_shown(last: Seq<char>) -> Seq<char> {
    if last == "unknown"@ {
        "-"@
    } else {
        replaced(first_chars(last, 16), 'T', ' ')
    }
}

/// A directory as it is shown: its end, where it has more than 28 characters.
pub open spec fn cwd_shown(cwd: Seq<char>) -> Seq<char> {
    let shown = if cwd.len() == 0 {
        "-"@
    } else {
        cwd
    };
    if shown.len() > 28 {
        "…"@ + last_chars(shown, 27)
    } else {
        shown
    }
}

fn last_text(last: &str) -> (r: String)
    ensures
        r@ == last_shown(last@),
{
    if same_text(last, "unknown") {
        owned("-")
    } else {
        replace_char(take_chars(last, 16).as_str(), 'T', ' ')
    }
}

fn cwd_text(cwd: &str) -> (r: String)
    ensures
        r@ == cwd_shown(cwd@),
{
    if cwd.is_empty() {
        proof {
            reveal_strlit("-");
        }
        return owned("-");
    }
    if chars_of(cwd).len() > 28 {
        concat2("…", take_last_chars(cwd, 27).as_str())
    } else {
        owned(cwd)
    }
}

/// Some cells that hold a dash, behind the cells `a`.
pub open spec fn dashes(a: Seq<Seq<char>>, n: nat, color: bool) -> Seq<Seq<char>>
    decreases n,
{
    if n == 0 {
        a
    } else {
        dashes(a, (n - 1) as nat, color).push(painted(color, "2"@, "-"@))
    }
}

/// The row of a session.
pub open spec fn session_row(s: SessionStat, m: Money, verbose: bool, color: bool) -> Seq<
    Seq<char>,
> {
    let n = counts(s.tokens);
    let peak = greater(s.peak_input_tokens, s.meta_peak_context) as nat;
    let sid = no_texts().push(painted(color, "36"@, first_chars(s.session_id@, 10)));
    let a = if n.events > 0 {
        token_cells(sid.push(decimal(n.events)), n, m.cost@, color).push(
            painted(color, "34"@, tokens_text(peak)),
        )
    } else {
        dashes(sid.push(painted(color, "2"@, "0"@)), 8, color).push(
            if peak > 0 {
                painted(color, "34"@, tokens_text(peak))
            } else {
                painted(color, "2"@, "-"@)
            },
        )
    };
    let b = a.push(painted(color, "2"@, last_shown(s.last_activity@)));
    if verbose {
        let d = if n.events > 0 {
            b.push(painted(color, "2"@, m.log@)).push(painted(color, "36"@, m.saved@))
        } else {
            b.push(painted(color, "2"@, "-"@)).push(painted(color, "2"@, "-"@))
        };
        d.push(painted(color, "2"@, cwd_shown(s.cwd@)))
    } else {
        b
    }
}

fn session_row_texts(s: &SessionStat, m: &Money, verbose: bool, color: bool) -> (r: Vec<String>)
    requires
        s.tokens.events > 0 ==> s.tokens.adds_up(),
    ensures
        texts(r@) == session_row(*s, *m, verbose, color),
{
    let sid = take_chars(s.session_id.as_str(), 10);
    let peak: u64 = s.peak_context();
    let last = last_text(s.last_activity.as_str());
    let mut row = start_texts();
    push_line(&mut row, c(color, "36", sid.as_str()));
    if s.tokens.events > 0 {
        push_line(&mut row, decimal_text(s.tokens.events as u128));
        push_token_cells(&mut row, &s.tokens, m.cost.as_str(), color);
        push_line(&mut row, c(color, "34", fmt_tokens(peak).as_str()));
    } else {
        push_line(&mut row, c(color, "2", "0"));
        let ghost base = texts(row@);
        for k in 0..8usize
            invariant
                texts(row@) == dashes(base, k as nat, color),
        {
            push_line(&mut row, c(color, "2", "-"));
        }
        if peak > 0 {
            push_line(&mut row, c(color, "34", fmt_tokens(peak).as_str()));
        } else {
            push_line(&mut row, c(color, "2", "-"));
        }
    }
    push_line(&mut row, c(color, "2", last.as_str()));
    if verbose {
        if s.tokens.events > 0 {
            push_line(&mut row, c(color, "2", m.log.as_str()));
            push_line(&mut row, c(color, "36", m.saved.as_str()));
        } else {
            push_line(&mut row, c(color, "2", "-"));
            push_line(&mut row, c(color, "2", "-"));
        }
        push_line(&mut row, c(color, "2", cwd_text(s.cwd.as_str()).as_str()));
    }
    row
}

/// The rows of the sessions in the order `order`.
pub open spec fn session_rows(
    stats: Seq<SessionStat>,
    money: Seq<Money>,
    order: Seq<usize>,
    verbose: bool,
    color: bool,
) -> Seq<Seq<Seq<char>>> {
    Seq::new(
        order.len(),
        |i: int| session_row(stats[order[i] as int], money[order[i] as int], verbose, color),
    )
}

/// How many of the sessions have usage.
pub open spec fn with_usage(stats: Seq<SessionStat>, order: Seq<usize>) -> nat
    decreases order.len(),
{
    if order.len() == 0 {
        0
    } else {
        with_usage(stats, order.drop_last()) + (if stats[order.last() as int].has_usage {
            1nat
        } else {
            0
        })
    }
}

/// The session report: a table with a row for each session.
pub open spec fn session_report(
    stats: Seq<SessionStat>,
    money: Seq<Money>,
    order: Seq<usize>,
    overview: Seq<Seq<char>>,
    verbose: bool,
    color: bool,
) -> Seq<Seq<char>> {
    let front = report_front("  ·  session (UTC)"@, overview, color);
    if order.len() == 0 {
        front.push(painted(color, "33"@, "No sessions found."@))
    } else {
        let rows = session_rows(stats, money, order, verbose, color);
        let a = (front + table(session_headers(verbose), rows, color, false)).push(""@).push(
            painted(
                color,
                "2"@,
                decimal(order.len()) + " sessions · "@ + decimal(with_usage(stats, order))
                    + " with usage · NoCache=Fresh+Out · Peak=max input"@,
            ),
        );
        if verbose {
            a
        } else {
            a.push(painted(color, "2"@, "Tip: -v shows Log$ and project path."@))
        }
    }
}

/// The totals of the sessions can be shown: no sum overflows.
pub open spec fn sessions_add_up(stats: Seq<SessionStat>, order: Seq<usize>) -> bool {
    forall|i: int|
        0 <= i < order.len() ==> stats[#[trigger] order[i] as int].tokens.events > 0
            ==> stats[order[i] as int].tokens.adds_up()
}

/// The lines of the session report, in the order `order`. `money` is what the sessions cost;
/// `overview` is what is shown of the accounts. Fails where a sum overflows.
pub fn print_sessions(
    stats: &Vec<SessionStat>,
    money: &Vec<Money>,
    order: &Vec<usize>,
    overview: &Vec<String>,
    verbose: bool,
    color: bool,
) -> (r: Result<Vec<String>, CountOverflow>)
    requires
        money@.len() == stats@.len(),
        forall|i: int| 0 <= i < order@.len() ==> #[trigger] order@[i] < stats@.len(),
    ensures
        r is Ok <==> sessions_add_up(stats@, order@),
        r matches Ok(lines) ==> texts(lines@) == session_report(
            stats@,
            money@,
            order@,
            texts(overview@),
            verbose,
            color,
        ),
{
    let mut out = front_lines("  ·  session (UTC)", overview, color);
    if order.len() == 0 {
        push_line(&mut out, c(color, "33", "No sessions found."));
        return Ok(out);
    }
    let headers = session_header_texts(verbose);
    let ghost want = session_rows(stats@, money@, order@, verbose, color);
    let mut rows: Vec<Vec<String>> = Vec::new();
    let mut used: u64 = 0;
    assert(grid(rows@) =~= want.take(0));
    for i in 0..order.len()
        invariant
            money@.len() == stats@.len(),
            forall|i: int| 0 <= i < order@.len() ==> #[trigger] order@[i] < stats@.len(),
            want == session_rows(stats@, money@, order@, verbose, color),
            grid(rows@) == want.take(i as int),
            used == with_usage(stats@, order@.take(i as int)),
            used <= i,
            forall|j: int|
                0 <= j < i ==> stats@[#[trigger] order@[j] as int].tokens.events > 0
                    ==> stats@[order@[j] as int].tokens.adds_up(),
    {
        let k: usize = order[i];
        let s = &stats[k];
        assert(order@.take(i as int + 1).drop_last() =~= order@.take(i as int));
        assert(order@.take(i as int + 1).last() == k);
        if s.tokens.events > 0 && !s.tokens.can_add_up() {
            assert(stats@[order@[i as int] as int].tokens.events > 0);
            return Err(CountOverflow);
        }
        push_row(&mut rows, session_row_texts(s, &money[k], verbose, color));
        if s.has_usage {
            used = used + 1;
        }
        assert(grid(rows@) =~= want.take(i as int + 1));
    }
    assert(want.take(order@.len() as int) =~= want);
    assert(order@.take(order@.len() as int) =~= order@);
    append_lines(&mut out, &table_lines(&headers, &rows, color, false));
    push_line(&mut out, owned(""));
    let note = concat4(
        decimal_text(order.len() as u128).as_str(),
        " sessions · ",
        decimal_text(used as u128).as_str(),
        " with usage · NoCache=Fresh+Out · Peak=max input",
    );
    push_line(&mut out, c(color, "2", note.as_str()));
    if !verbose {
        push_line(&mut out, c(color, "2", "Tip: -v shows Log$ and project path."));
    }
    Ok(out)
}

} // verus!
