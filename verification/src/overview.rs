//! What is shown of the accounts and their limits.
use crate::accounts::ref_limit;
use crate::daily::DailyStat;
use crate::format::{c, grid, painted, table, table_lines};
use crate::json::{
    array, no_entries, object, opt_json, opt_text, opt_tree, put, put_item, ref_text, start_entries,
    str_or, text_json, text_or, trees, Json, JsonTree,
};
use crate::limit::{
    band_code, band_color, banner, can_show, headline_of, limit_fields, opt_gauge, public_limit,
    AccountLimit, Gauge, GaugeTree, Limit,
};
use crate::report::{
    append_lines, no_texts, print_sessions, public_day, public_session, push_row, session_report,
    sessions_add_up, start_texts, Money,
};
use crate::rows::{row_trees, AccountRow, RowTree};
use crate::select::{lists_sessions, session_order, SortMode};
use crate::session::{CountOverflow, SessionStat};
use crate::text::{can_cut, concat2, concat5, cut, cuts_at, head, owned, push_line, texts};
use vstd::prelude::*;

verus! {

/// A text would be cut inside a character.
#[derive(Debug, Clone, Copy, PartialEq, Eq)]
pub struct CutError;

/// What is shown of an optional limit.
pub open spec fn limit_tree(l: Option<Limit>, g: Option<GaugeTree>) -> JsonTree {
    match l {
        Some(l) => public_limit(l, g),
        None => JsonTree::Null,
    }
}

/// What is shown of an optional limit.
pub fn limit_json(limit: Option<&AccountLimit>, gauge: Option<&Gauge>) -> (r: Json)
    ensures
        r@ == limit_tree(ref_limit(limit), opt_gauge(gauge)),
{
    match limit {
        Some(l) => l.as_public(gauge),
        None => Json::Null,
    }
}

/// What some optional gauges are.
pub open spec fn gauge_trees(v: Seq<Option<Gauge>>) -> Seq<Option<GaugeTree>> {
    Seq::new(
        v.len(),
        |i: int|
            match v[i] {
                Some(g) => Some(g@),
                None => None,
            },
    )
}

/// The fields of an account.
pub open spec fn row_fields(r: RowTree, g: Option<GaugeTree>) -> JsonTree {
    JsonTree::Object(
        no_entries()
            .push(("name"@, JsonTree::Text(r.name)))
            .push(("email"@, opt_tree(r.email)))
            .push(("user_id"@, opt_tree(r.user_id)))
            .push(("active"@, JsonTree::Bool(r.active)))
            .push(("unsaved"@, JsonTree::Bool(r.unsaved)))
            .push((
                "limit"@,
                match r.limit {
                    Some(l) => limit_fields(l, g),
                    None => JsonTree::Null,
                },
            )),
    )
}

/// The fields of some accounts.
pub open spec fn rows_tree(rows: Seq<RowTree>, gs: Seq<Option<GaugeTree>>) -> JsonTree {
    JsonTree::Array(Seq::new(rows.len(), |i: int| row_fields(rows[i], gs[i])))
}

fn row_json(row: &AccountRow, gauge: Option<&Gauge>) -> (r: Json)
    ensures
        r@ == row_fields(row@, opt_gauge(gauge)),
{
    let mut e = start_entries();
    put(&mut e, "name", text_json(row.name.as_str()));
    put(&mut e, "email", opt_json(&row.email));
    put(&mut e, "user_id", opt_json(&row.user_id));
    put(&mut e, "active", Json::Bool(row.active));
    put(&mut e, "unsaved", Json::Bool(row.unsaved));
    put(
        &mut e,
        "limit",
        match &row.limit {
            Some(l) => l.as_fields(gauge),
            None => Json::Null,
        },
    );
    object(e)
}

fn ref_gauge(g: &Option<Gauge>) -> (r: Option<&Gauge>)
    ensures
        opt_gauge(r) == (match *g {
            Some(g) => Some(g@),
            None => None,
        }),
{
    match g {
        Some(g) => Some(g),
        None => None,
    }
}

/// The fields of the accounts `rows`, with the percentages of their limits.
pub fn rows_json(rows: &Vec<AccountRow>, gauges: &Vec<Option<Gauge>>) -> (r: Json)
    requires
        gauges@.len() == rows@.len(),
    ensures
        r@ == rows_tree(row_trees(rows@), gauge_trees(gauges@)),
{
    let ghost want = Seq::new(
        rows@.len(),
        |i: int| row_fields(row_trees(rows@)[i], gauge_trees(gauges@)[i]),
    );
    let mut list: Vec<Json> = Vec::new();
    for i in 0..rows.len()
        invariant
            gauges@.len() == rows@.len(),
            want == Seq::new(
                rows@.len(),
                |i: int| row_fields(row_trees(rows@)[i], gauge_trees(gauges@)[i]),
            ),
            trees(list@) == want.take(i as int),
    {
        put_item(&mut list, row_json(&rows[i], ref_gauge(&gauges[i])));
        assert(trees(list@) =~= want.take(i as int + 1));
    }
    assert(trees(list@) =~= want);
    let r = array(list);
    assert(r@ =~= rows_tree(row_trees(rows@), gauge_trees(gauges@)));
    r
}

/// A report as a value: the limit of the account, the accounts and the list `items` under `key`.
pub open spec fn payload(
    limit: JsonTree,
    accounts: JsonTree,
    key: Seq<char>,
    items: Seq<JsonTree>,
) -> JsonTree {
    JsonTree::Object(
        no_entries()
            .push(("account_limit"@, limit))
            .push(("accounts"@, accounts))
            .push((key, JsonTree::Array(items))),
    )
}

fn payload_json(limit: Json, accounts: Json, key: &str, items: Vec<Json>) -> (r: Json)
    ensures
        r@ == payload(limit@, accounts@, key@, trees(items@)),
{
    let mut e = start_entries();
    put(&mut e, "account_limit", limit);
    put(&mut e, "accounts", accounts);
    put(&mut e, key, array(items));
    object(e)
}

/// What is shown of some days.
pub open spec fn day_trees(days: Seq<DailyStat>, money: Seq<Money>) -> Seq<JsonTree> {
    Seq::new(days.len(), |i: int| public_day(days[i], money[i]))
}

/// The daily report as a value; `limit` and `accounts` are what is shown of the accounts. Fails
/// where a sum overflows.
pub fn daily_json(
    days: &Vec<DailyStat>,
    money: &Vec<Money>,
    limit: Json,
    accounts: Json,
) -> (r: Result<Json, CountOverflow>)
    requires
        money@.len() == days@.len(),
    ensures
        r is Ok <==> forall|i: int|
            0 <= i < days@.len() ==> (#[trigger] days@[i]).tokens.adds_up(),
        r matches Ok(j) ==> j@ == payload(
            limit@,
            accounts@,
            "daily"@,
            day_trees(days@, money@),
        ),
{
    let ghost want = day_trees(days@, money@);
    let mut items: Vec<Json> = Vec::new();
    for i in 0..days.len()
        invariant
            money@.len() == days@.len(),
            want == day_trees(days@, money@),
            trees(items@) == want.take(i as int),
            forall|j: int| 0 <= j < i ==> (#[trigger] days@[j]).tokens.adds_up(),
    {
        if !days[i].tokens.can_add_up() {
            return Err(CountOverflow);
        }
        put_item(&mut items, days[i].as_public(&money[i]));
        assert(trees(items@) =~= want.take(i as int + 1));
    }
    assert(trees(items@) =~= want);
    Ok(payload_json(limit, accounts, "daily", items))
}

/// What is shown of the sessions in the order `order`.
pub open spec fn session_trees(
    stats: Seq<SessionStat>,
    money: Seq<Money>,
    order: Seq<usize>,
) -> Seq<JsonTree> {
    Seq::new(
        order.len(),
        |i: int| public_session(stats[order[i] as int], money[order[i] as int]),
    )
}

/// The session report as a value, in the order `order`; `limit` and `accounts` are what is shown
/// of the accounts. Fails where a sum overflows.
pub fn sessions_json(
    stats: &Vec<SessionStat>,
    money: &Vec<Money>,
    order: &Vec<usize>,
    limit: Json,
    accounts: Json,
) -> (r: Result<Json, CountOverflow>)
    requires
        money@.len() == stats@.len(),
        forall|i: int| 0 <= i < order@.len() ==> #[trigger] order@[i] < stats@.len(),
    ensures
        r is Ok <==> forall|i: int|
            0 <= i < order@.len() ==> stats@[#[trigger] order@[i] as int].tokens.adds_up(),
        r matches Ok(j) ==> j@ == payload(
            limit@,
            accounts@,
            "sessions"@,
            session_trees(stats@, money@, order@),
        ),
{
    let ghost want = session_trees(stats@, money@, order@);
    let mut items: Vec<Json> = Vec::new();
    for i in 0..order.len()
        invariant
            money@.len() == stats@.len(),
            forall|i: int| 0 <= i < order@.len() ==> #[trigger] order@[i] < stats@.len(),
            want == session_trees(stats@, money@, order@),
            trees(items@) == want.take(i as int),
            forall|j: int|
                0 <= j < i ==> stats@[#[trigger] order@[j] as int].tokens.adds_up(),
    {
        let k: usize = order[i];
        if !stats[k].tokens.can_add_up() {
            assert(!stats@[order@[i as int] as int].tokens.adds_up());
            return Err(CountOverflow);
        }
        put_item(&mut items, stats[k].as_public(&money[k]));
        assert(trees(items@) =~= want.take(i as int + 1));
    }
    assert(trees(items@) =~= want);
    Ok(payload_json(limit, accounts, "sessions", items))
}

/// The line for an account of which no limit is known.
pub open spec fn no_quota(who: Seq<char>, color: bool) -> Seq<Seq<char>> {
    no_texts().push(
        painted(color, "1"@, who) + painted(color, "2"@, "  ·  no quota in logs yet"@),
    ).push(""@)
}

fn no_quota_lines(who: &str, color: bool) -> (r: Vec<String>)
    ensures
        texts(r@) == no_quota(who@, color),
{
    let mut out = start_texts();
    let shown = c(color, "1", who);
    push_line(
        &mut out,
        concat2(shown.as_str(), c(color, "2", "  ·  no quota in logs yet").as_str()),
    );
    push_line(&mut out, owned(""));
    out
}

/// The day on which the period of a limit ends.
pub open spec fn reset_day(l: Limit) -> Seq<char> {
    match l.period_end {
        Some(end) => head(end, 10),
        None => "—"@,
    }
}

/// An account in the table: its mark, name, address, limit and the day of the reset.
pub open spec fn account_cells(r: RowTree, g: Option<GaugeTree>, color: bool) -> Seq<Seq<char>> {
    let name = if r.unsaved {
        r.name + " (unsaved)"@
    } else {
        r.name
    };
    let (limit, reset) = match r.limit {
        Some(l) => (headline_of(l, g), reset_day(l)),
        None => ("—"@, "—"@),
    };
    no_texts()
        .push(
            if r.active {
                painted(color, "1;32"@, "*"@)
            } else {
                " "@
            },
        )
        .push(
            if r.active {
                painted(color, "1;32"@, name)
            } else {
                name
            },
        )
        .push(text_or(r.email, "—"@))
        .push(
            if r.active {
                if r.limit is Some && g is Some {
                    painted(color, band_code(g), limit)
                } else {
                    limit
                }
            } else {
                painted(color, "2"@, limit)
            },
        )
        .push(painted(color, "2"@, reset))
}

/// The day of the reset can be cut out of the end of the period.
pub open spec fn can_cut_reset(l: Option<Limit>) -> bool {
    l matches Some(l) ==> (l.period_end matches Some(end) ==> cuts_at(end, 10))
}

fn account_row_texts(row: &AccountRow, gauge: Option<&Gauge>, color: bool) -> (r: Vec<String>)
    requires
        can_cut_reset(row@.limit),
    ensures
        texts(r@) == account_cells(row@, opt_gauge(gauge), color),
{
    let name = if row.unsaved {
        concat2(row.name.as_str(), " (unsaved)")
    } else {
        owned(row.name.as_str())
    };
    let (limit, reset) = match &row.limit {
        Some(l) => {
            let reset = match &l.period_end {
                Some(end) => cut(end.as_str(), 10),
                None => owned("—"),
            };
            (l.headline(gauge), reset)
        },
        None => (owned("—"), owned("—")),
    };
    let mut cells = start_texts();
    let mark = if row.active {
        c(color, "1;32", "*")
    } else {
        owned(" ")
    };
    push_line(&mut cells, mark);
    let name = if row.active {
        c(color, "1;32", name.as_str())
    } else {
        name
    };
    push_line(&mut cells, name);
    push_line(&mut cells, owned(str_or(&row.email, "—")));
    let limit = if row.active {
        if row.limit.is_some() && gauge.is_some() {
            c(color, band_color(gauge), limit.as_str())
        } else {
            limit
        }
    } else {
        c(color, "2", limit.as_str())
    };
    push_line(&mut cells, limit);
    push_line(&mut cells, c(color, "2", reset.as_str()));
    cells
}

/// The headers of the table of the accounts.
pub open spec fn account_headers() -> Seq<Seq<char>> {
    no_texts().push(""@).push("Profile"@).push("Account"@).push("Limit"@).push("Reset"@)
}

/// The table of the accounts.
pub open spec fn account_table(
    rows: Seq<RowTree>,
    gs: Seq<Option<GaugeTree>>,
    color: bool,
) -> Seq<Seq<char>> {
    let cells = Seq::new(rows.len(), |i: int| account_cells(rows[i], gs[i], color));
    table(account_headers(), cells, color, false)
}

/// The table of the accounts, with a note on it.
pub open spec fn noted_table(
    rows: Seq<RowTree>,
    gs: Seq<Option<GaugeTree>>,
    color: bool,
) -> Seq<Seq<char>> {
    account_table(rows, gs, color).push(""@).push(
        painted(
            color,
            "2"@,
            "Limit = current (or last saved) Grok /usage quota. Token table below is local logs, not split by account."@,
        ),
    ).push(""@)
}

/// What is shown where there is one account: its limit where one is known, else `who`.
pub open spec fn one_account(
    l: Option<Limit>,
    g: Option<GaugeTree>,
    who: Seq<char>,
    color: bool,
) -> Seq<Seq<char>> {
    match l {
        Some(l) => banner(l, g, color),
        None => no_quota(who, color),
    }
}

/// What is shown of the accounts: the limit where there is no account or one, else a table.
pub open spec fn overview(
    rows: Seq<RowTree>,
    gs: Seq<Option<GaugeTree>>,
    live: Option<Limit>,
    g: Option<GaugeTree>,
    color: bool,
) -> Seq<Seq<char>> {
    if rows.len() == 0 {
        match live {
            Some(l) => banner(l, g, color),
            None => no_texts(),
        }
    } else if rows.len() == 1 && !rows[0].unsaved {
        match live {
            Some(l) => banner(l, g, color),
            None => one_account(
                rows[0].limit,
                gs[0],
                text_or(rows[0].email, rows[0].name),
                color,
            ),
        }
    } else if rows.len() == 1 {
        one_account(live, g, text_or(rows[0].email, "signed in"@), color)
    } else {
        noted_table(rows, gs, color)
    }
}

/// What is shown of the accounts needs no cut inside a character.
pub open spec fn can_overview(rows: Seq<RowTree>, live: Option<Limit>) -> bool {
    if rows.len() <= 1 {
        match live {
            Some(l) => can_show(l),
            None => if rows.len() == 1 && !rows[0].unsaved {
                rows[0].limit matches Some(l) ==> can_show(l)
            } else {
                true
            },
        }
    } else {
        forall|i: int| 0 <= i < rows.len() ==> can_cut_reset((#[trigger] rows[i]).limit)
    }
}

fn account_table_lines(
    rows: &Vec<AccountRow>,
    gauges: &Vec<Option<Gauge>>,
    color: bool,
) -> (r: Result<Vec<String>, CutError>)
    requires
        gauges@.len() == rows@.len(),
    ensures
        r is Ok <==> forall|i: int|
            0 <= i < rows@.len() ==> can_cut_reset((#[trigger] row_trees(rows@)[i]).limit),
        r matches Ok(lines) ==> texts(lines@) == account_table(
            row_trees(rows@),
            gauge_trees(gauges@),
            color,
        ),
{
    let ghost rs = row_trees(rows@);
    let ghost gs = gauge_trees(gauges@);
    let ghost want = Seq::new(rs.len(), |i: int| account_cells(rs[i], gs[i], color));
    let mut cells: Vec<Vec<String>> = Vec::new();
    assert(grid(cells@) =~= want.take(0));
    for i in 0..rows.len()
        invariant
            gauges@.len() == rows@.len(),
            rs == row_trees(rows@),
            gs == gauge_trees(gauges@),
            want == Seq::new(rs.len(), |i: int| account_cells(rs[i], gs[i], color)),
            grid(cells@) == want.take(i as int),
            forall|j: int| 0 <= j < i ==> can_cut_reset((#[trigger] rs[j]).limit),
    {
        let row = &rows[i];
        assert(rs[i as int] == row@);
        let ok = match &row.limit {
            Some(l) => match &l.period_end {
                Some(end) => can_cut(end.as_str(), 10),
                None => true,
            },
            None => true,
        };
        if !ok {
            return Err(CutError);
        }
        push_row(&mut cells, account_row_texts(row, ref_gauge(&gauges[i]), color));
        assert(grid(cells@) =~= want.take(i as int + 1));
    }
    assert(want.take(rows@.len() as int) =~= want);
    let mut headers = start_texts();
    push_line(&mut headers, owned(""));
    push_line(&mut headers, owned("Profile"));
    push_line(&mut headers, owned("Account"));
    push_line(&mut headers, owned("Limit"));
    push_line(&mut headers, owned("Reset"));
    Ok(table_lines(&headers, &cells, color, false))
}

fn shown_banner(l: &AccountLimit, gauge: Option<&Gauge>, color: bool) -> (r: Result<
    Vec<String>,
    CutError,
>)
    ensures
        r is Ok <==> can_show(l@),
        r matches Ok(lines) ==> texts(lines@) == banner(l@, opt_gauge(gauge), color),
{
    if l.can_be_shown() {
        Ok(l.banner_lines(gauge, color))
    } else {
        Err(CutError)
    }
}

/// The lines that show the accounts `rows`, with the percentages of their limits; `live_limit` is
/// the limit of the live account. Fails where a text would be cut inside a character.
pub fn print_account_overview(
    rows: &Vec<AccountRow>,
    gauges: &Vec<Option<Gauge>>,
    live_limit: Option<&AccountLimit>,
    live_gauge: Option<&Gauge>,
    color: bool,
) -> (r: Result<Vec<String>, CutError>)
    requires
        gauges@.len() == rows@.len(),
    ensures
        r is Ok <==> can_overview(row_trees(rows@), ref_limit(live_limit)),
        r matches Ok(lines) ==> texts(lines@) == overview(
            row_trees(rows@),
            gauge_trees(gauges@),
            ref_limit(live_limit),
            opt_gauge(live_gauge),
            color,
        ),
{
    if rows.len() > 1 {
        let mut out = match account_table_lines(rows, gauges, color) {
            Ok(lines) => lines,
            Err(e) => {
                return Err(e);
            },
        };
        push_line(&mut out, owned(""));
        push_line(
            &mut out,
            c(
                color,
                "2",
                "Limit = current (or last saved) Grok /usage quota. Token table below is local logs, not split by account.",
            ),
        );
        push_line(&mut out, owned(""));
        return Ok(out);
    }
    if let Some(l) = live_limit {
        return shown_banner(l, live_gauge, color);
    }
    if rows.len() == 0 {
        return Ok(start_texts());
    }
    let row = &rows[0];
    assert(row_trees(rows@)[0] == row@);
    if row.unsaved {
        return Ok(no_quota_lines(str_or(&row.email, "signed in"), color));
    }
    match &row.limit {
        Some(l) => shown_banner(l, ref_gauge(&gauges[0]), color),
        None => Ok(no_quota_lines(str_or(&row.email, row.name.as_str()), color)),
    }
}

/// The lines that say that no limit is known.
pub open spec fn no_limit(log_path: Seq<char>, color: bool) -> Seq<Seq<char>> {
    no_texts()
        .push(painted(color, "33"@, "No account limit data found."@))
        .push(
            painted(
                color,
                "2"@,
                "Open Grok CLI and run /usage once, or keep a session running so billing is logged."@,
            ),
        )
        .push(painted(color, "2"@, "Expected log: "@ + log_path))
}

/// The lines that show all of a limit.
pub open spec fn limit_detail(l: Limit, g: Option<GaugeTree>, color: bool) -> Seq<Seq<char>> {
    let front = no_texts().push(
        painted(color, "1;36"@, "Grok Account Limit"@) + painted(
            color,
            "2"@,
            "  ·  same source as /usage"@,
        ),
    ).push(""@) + banner(l, g, color);
    front
        .push("  Account      "@ + text_or(l.email, "—"@))
        .push("  Profile      "@ + text_or(l.profile, "—"@))
        .push("  User ID      "@ + text_or(l.user_id, "—"@))
        .push("  Limit        "@ + headline_of(l, g))
        .push(
            "  Period       "@ + l.period_label + " ("@ + (if l.period_type.len() == 0 {
                "—"@
            } else {
                l.period_type
            }) + ")"@,
        )
        .push("  Start        "@ + text_or(l.period_start, "—"@))
        .push("  End / reset  "@ + text_or(l.period_end, "—"@))
        .push("  Plan         "@ + text_or(l.subscription, "—"@))
        .push("  Fetched      "@ + text_or(l.fetched_at, "—"@))
        .push("  Source       "@ + l.source)
        .push(""@)
        .push(
            painted(
                color,
                "2"@,
                "Note: This is account quota %, not local session token totals."@,
            ),
        )
}

fn push_field(out: &mut Vec<String>, label: &str, value: &Option<String>)
    ensures
        texts(final(out)@) == texts(old(out)@).push(label@ + text_or(opt_text(*value), "—"@)),
{
    push_line(out, concat2(label, str_or(value, "—")));
}

/// How many of the accounts are saved profiles.
pub open spec fn saved_count(rows: Seq<RowTree>) -> nat
    decreases rows.len(),
{
    if rows.len() == 0 {
        0
    } else {
        saved_count(rows.drop_last()) + (if rows.last().unsaved {
            0nat
        } else {
            1
        })
    }
}

fn count_saved(rows: &Vec<AccountRow>) -> (r: usize)
    ensures
        r == saved_count(row_trees(rows@)),
{
    let ghost all = row_trees(rows@);
    let mut n: usize = 0;
    for i in 0..rows.len()
        invariant
            all == row_trees(rows@),
            n <= i,
            n == saved_count(all.take(i as int)),
    {
        assert(all.take(i as int + 1).drop_last() =~= all.take(i as int));
        assert(all.take(i as int + 1).last() == rows@[i as int]@);
        if !rows[i].unsaved {
            n = n + 1;
        }
    }
    assert(all.take(rows@.len() as int) =~= all);
    n
}

/// What the command for the limit shows: all of the limit, or that none is known; behind it, where
/// more than one profile is saved, the table of the accounts.
pub open spec fn limit_report(
    limit: Option<Limit>,
    g: Option<GaugeTree>,
    rows: Seq<RowTree>,
    gs: Seq<Option<GaugeTree>>,
    log_path: Seq<char>,
    color: bool,
) -> Seq<Seq<char>> {
    let front = match limit {
        Some(l) => limit_detail(l, g, color),
        None => no_limit(log_path, color),
    };
    if saved_count(rows) > 1 {
        front.push(""@) + account_table(rows, gs, color)
    } else {
        front
    }
}

/// What the command for the limit shows needs no cut inside a character.
pub open spec fn can_report_limit(limit: Option<Limit>, rows: Seq<RowTree>) -> bool {
    &&& limit matches Some(l) ==> can_show(l)
    &&& saved_count(rows) > 1 ==> forall|i: int|
        0 <= i < rows.len() ==> can_cut_reset((#[trigger] rows[i]).limit)
}

fn no_limit_lines(log_path: &str, color: bool) -> (r: Vec<String>)
    ensures
        texts(r@) == no_limit(log_path@, color),
{
    let mut out = start_texts();
    push_line(&mut out, c(color, "33", "No account limit data found."));
    push_line(
        &mut out,
        c(
            color,
            "2",
            "Open Grok CLI and run /usage once, or keep a session running so billing is logged.",
        ),
    );
    push_line(&mut out, c(color, "2", concat2("Expected log: ", log_path).as_str()));
    out
}

fn limit_detail_lines(l: &AccountLimit, gauge: Option<&Gauge>, color: bool) -> (r: Vec<String>)
    requires
        can_show(l@),
    ensures
        texts(r@) == limit_detail(l@, opt_gauge(gauge), color),
{
    let mut out = start_texts();
    let title = c(color, "1;36", "Grok Account Limit");
    push_line(
        &mut out,
        concat2(title.as_str(), c(color, "2", "  ·  same source as /usage").as_str()),
    );
    push_line(&mut out, owned(""));
    append_lines(&mut out, &l.banner_lines(gauge, color));
    push_field(&mut out, "  Account      ", &l.email);
    push_field(&mut out, "  Profile      ", &l.profile);
    push_field(&mut out, "  User ID      ", &l.user_id);
    push_line(&mut out, concat2("  Limit        ", l.headline(gauge).as_str()));
    let kind = if l.period_type.as_str().is_empty() {
        "—"
    } else {
        l.period_type.as_str()
    };
    push_line(&mut out, concat5("  Period       ", l.period_label.as_str(), " (", kind, ")"));
    push_field(&mut out, "  Start        ", &l.period_start);
    push_field(&mut out, "  End / reset  ", &l.period_end);
    push_field(&mut out, "  Plan         ", &l.subscription);
    push_field(&mut out, "  Fetched      ", &l.fetched_at);
    push_line(&mut out, concat2("  Source       ", l.source.as_str()));
    push_line(&mut out, owned(""));
    push_line(
        &mut out,
        c(color, "2", "Note: This is account quota %, not local session token totals."),
    );
    out
}

/// The lines that show all of the limit, or say that none is known, and, where more than one
/// profile is saved, the last known limit of each account. `rows` are the accounts, with the percentages of
/// their limits; `log_path` is where a limit is looked for. Fails where a text would be cut inside a
/// character.
pub fn print_limit_detail(
    limit: Option<&AccountLimit>,
    gauge: Option<&Gauge>,
    rows: &Vec<AccountRow>,
    gauges: &Vec<Option<Gauge>>,
    log_path: &str,
    color: bool,
) -> (r: Result<Vec<String>, CutError>)
    requires
        gauges@.len() == rows@.len(),
    ensures
        r is Ok <==> can_report_limit(ref_limit(limit), row_trees(rows@)),
        r matches Ok(lines) ==> texts(lines@) == limit_report(
            ref_limit(limit),
            opt_gauge(gauge),
            row_trees(rows@),
            gauge_trees(gauges@),
            log_path@,
            color,
        ),
{
    let mut out = match limit {
        Some(l) => {
            if !l.can_be_shown() {
                return Err(CutError);
            }
            limit_detail_lines(l, gauge, color)
        },
        None => no_limit_lines(log_path, color),
    };
    if count_saved(rows) > 1 {
        match account_table_lines(rows, gauges, color) {
            Ok(lines) => {
                push_line(&mut out, owned(""));
                append_lines(&mut out, &lines);
            },
            Err(e) => {
                return Err(e);
            },
        }
    }
    Ok(out)
}

/// `r` is the session report on the sessions in the order `order`.
pub open spec fn reports_sessions(
    stats: Seq<SessionStat>,
    money: Seq<Money>,
    order: Seq<usize>,
    overview: Seq<Seq<char>>,
    verbose: bool,
    color: bool,
    r: Result<Vec<String>, CountOverflow>,
) -> bool {
    &&& r is Ok <==> sessions_add_up(stats, order)
    &&& r matches Ok(lines) ==> texts(lines@) == session_report(
        stats,
        money,
        order,
        overview,
        verbose,
        color,
    )
}

/// The lines of the report on the sessions that are shown: those that `since` and `usage_only`
/// keep, in the order `sort`. Fails where a sum overflows.
pub fn print_shown_sessions(
    stats: &Vec<SessionStat>,
    money: &Vec<Money>,
    since: Option<&str>,
    usage_only: bool,
    sort: SortMode,
    overview: &Vec<String>,
    verbose: bool,
    color: bool,
) -> (r: Result<Vec<String>, CountOverflow>)
    requires
        money@.len() == stats@.len(),
    ensures
        exists|o: Seq<usize>| #[trigger]
            lists_sessions(stats@, ref_text(since), usage_only, sort, o) && reports_sessions(
                stats@,
                money@,
                o,
                texts(overview@),
                verbose,
                color,
                r,
            ),
{
    let order = session_order(stats, since, usage_only, sort);
    let r = print_sessions(stats, money, &order, overview, verbose, color);
    assert(lists_sessions(stats@, ref_text(since), usage_only, sort, order@));
    r
}

/// `r` is the report as a value on the sessions in the order `order`.
pub open spec fn values_sessions(
    stats: Seq<SessionStat>,
    money: Seq<Money>,
    order: Seq<usize>,
    limit: JsonTree,
    accounts: JsonTree,
    r: Result<Json, CountOverflow>,
) -> bool {
    &&& r is Ok <==> forall|i: int|
        0 <= i < order.len() ==> stats[#[trigger] order[i] as int].tokens.adds_up()
    &&& r matches Ok(j) ==> j@ == payload(
        limit,
        accounts,
        "sessions"@,
        session_trees(stats, money, order),
    )
}

/// The report on the sessions that are shown, as a value: those that `since` and `usage_only` keep,
/// in the order `sort`. Fails where a sum overflows.
pub fn shown_sessions_json(
    stats: &Vec<SessionStat>,
    money: &Vec<Money>,
    since: Option<&str>,
    usage_only: bool,
    sort: SortMode,
    limit: Json,
    accounts: Json,
) -> (r: Result<Json, CountOverflow>)
    requires
        money@.len() == stats@.len(),
    ensures
        exists|o: Seq<usize>| #[trigger]
            lists_sessions(stats@, ref_text(since), usage_only, sort, o) && values_sessions(
                stats@,
                money@,
                o,
                limit@,
                accounts@,
                r,
            ),
{
    let order = session_order(stats, since, usage_only, sort);
    let r = sessions_json(stats, money, &order, limit, accounts);
    assert(lists_sessions(stats@, ref_text(since), usage_only, sort, order@));
    r
}

} // verus!
