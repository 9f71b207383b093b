//! What holds of the limit of an account.
use crate::format::painted;
use crate::json::{text_or, JsonTree, NumTree};
use crate::limit::{
    band_code, banner, banner_parts, headline_of, last_report, limit_of, limit_of_copy,
    limit_of_log, limit_of_source, phrase_in, reports_limit, strings_of, GaugeTree, Limit,
    LimitSource,
};
use crate::overview::{
    account_cells, account_headers, account_table, limit_detail, limit_report, overview,
    saved_count,
};
use crate::parse::text_tree;
use crate::rows::RowTree;
use crate::table_laws::{
    holds_cells, law_table_shows_its_rows, lemma_part_inside, lemma_part_of_itself,
    lemma_part_of_joined, lemma_part_of_painted, lemma_part_of_part, lemma_shown, under,
};
use crate::text::{has_part, head, joined, lower, replaced, trimmed, upper};
use vstd::prelude::*;
use vstd::utf8::is_ascii_chars;

verus! {

/// The line of the log reports a limit: its message says so.
pub open spec fn reported(line: Seq<char>) -> bool {
    &&& has_part(line, "billing: fetched credits config"@)
    &&& text_tree(line) matches Some(t) && t.text_at("msg"@) == Some(
        "billing: fetched credits config"@,
    )
}

/// The limit of a log is the one that the last line reports which reports one; a log without such a
/// line has none.
pub proof fn law_last_report_counts(lines: Seq<Seq<char>>, k: int)
    ensures
        0 <= k < lines.len() && reported(lines[k]) && (forall|j: int|
            k < j < lines.len() ==> !reported(#[trigger] lines[j])) ==> limit_of_log(lines)
            == limit_of(text_tree(lines[k])->0),
        (forall|j: int| 0 <= j < lines.len() ==> !reported(#[trigger] lines[j])) ==> limit_of_log(
            lines,
        ) is None,
    decreases lines.len(),
{
    if lines.len() > 0 {
        let a = lines.drop_last();
        law_last_report_counts(a, k);
        assert(reported(lines[lines.len() - 1]) == reports_limit(lines.last()));
        if !reports_limit(lines.last()) {
            assert(last_report(lines) == last_report(a));
            if 0 <= k < lines.len() && reported(lines[k]) && (forall|j: int|
                k < j < lines.len() ==> !reported(#[trigger] lines[j])) {
                assert(a[k] == lines[k]);
                assert forall|j: int| k < j < a.len() implies !reported(#[trigger] a[j]) by {
                    assert(a[j] == lines[j]);
                }
            }
            if forall|j: int| 0 <= j < lines.len() ==> !reported(#[trigger] lines[j]) {
                assert forall|j: int| 0 <= j < a.len() implies !reported(#[trigger] a[j]) by {
                    assert(a[j] == lines[j]);
                }
            }
        }
    }
}

/// A log counts where there is one, and where it cannot be read there is no limit; what was copied
/// last counts only where there is no log.
pub proof fn law_source_of_a_limit(source: LimitSource)
    ensures
        source matches LimitSource::Log(lines) ==> limit_of_source(source) == limit_of_log(
            crate::text::texts(lines@),
        ),
        source is Unreadable ==> limit_of_source(source) is None,
        source matches LimitSource::NoLog(Some(text)) ==> limit_of_source(source) == limit_of_copy(
            text@,
        ),
        source == LimitSource::NoLog(None) ==> limit_of_source(source) is None,
{
}

/// A report gives the share that is used, the start, the end and the kind of the period, and when
/// it was fetched. The period of the configuration counts where the current period does not say. It
/// names no account. A value without a context or a configuration reports no limit.
pub proof fn law_what_a_report_says(
    t: JsonTree,
    ctx: JsonTree,
    cfg: JsonTree,
    p: JsonTree,
    n: NumTree,
)
    ensures
        t.field("ctx"@) is None ==> limit_of(t) is None,
        t.field("ctx"@) == Some(ctx) && ctx.field("config"@) is None ==> limit_of(t) is None,
        t.field("ctx"@) == Some(ctx) && ctx.field("config"@) == Some(cfg) ==> (limit_of(
            t,
        ) matches Some(l) && {
            &&& cfg.field("creditUsagePercent"@) == Some(JsonTree::Num(n)) ==> l.percent == Some(n)
            &&& cfg.field("creditUsagePercent"@) is None ==> l.percent is None
            &&& cfg.field("creditUsagePercent"@) matches Some(v) ==> (!(v is Num)
                ==> l.percent is None)
            &&& l.fetched_at == t.text_at("ts"@)
            &&& l.source == "unified.jsonl"@
            &&& l.email is None && l.user_id is None && l.profile is None
            &&& cfg.field("currentPeriod"@) == Some(p) ==> {
                &&& p.text_at("type"@) matches Some(x) ==> l.period_type == x
                &&& p.text_at("start"@) is Some ==> l.period_start == p.text_at("start"@)
                &&& p.text_at("end"@) is Some ==> l.period_end == p.text_at("end"@)
                &&& p.text_at("start"@) is None ==> l.period_start == cfg.text_at(
                    "billingPeriodStart"@,
                )
                &&& p.text_at("end"@) is None ==> l.period_end == cfg.text_at("billingPeriodEnd"@)
            }
            &&& cfg.field("currentPeriod"@) is None ==> {
                &&& l.period_type == ""@
                &&& l.period_label == "Period"@
                &&& l.period_start == cfg.text_at("billingPeriodStart"@)
                &&& l.period_end == cfg.text_at("billingPeriodEnd"@)
            }
        }),
{
    reveal_strlit("");
    reveal_strlit("WEEKLY");
    reveal_strlit("MONTHLY");
    assert(is_ascii_chars(""@));
    assert(upper(""@) =~= ""@);
    assert(!has_part(""@, "WEEKLY"@));
    assert(!has_part(""@, "MONTHLY"@));
}

/// A period is weekly or monthly by what its kind says, in letters of either case.
pub proof fn law_period_of_a_report(
    t: JsonTree,
    ctx: JsonTree,
    cfg: JsonTree,
    p: JsonTree,
    kind: Seq<char>,
)
    requires
        t.field("ctx"@) == Some(ctx),
        ctx.field("config"@) == Some(cfg),
        cfg.field("currentPeriod"@) == Some(p),
        p.field("type"@) == Some(JsonTree::Text(kind)),
        is_ascii_chars(kind),
    ensures
        limit_of(t) matches Some(l) && {
            let weekly = has_part(upper(kind), "WEEKLY"@);
            let monthly = has_part(upper(kind), "MONTHLY"@);
            &&& weekly ==> l.period_label == "Weekly"@
            &&& !weekly && monthly ==> l.period_label == "Monthly"@
            &&& !weekly && !monthly ==> l.period_label == "Period"@
        },
{
}

/// The plan of a report is what the tiers of the context say, else the tier of the context, else
/// that of the configuration. A list of tiers is shown with commas. A blank plan or one that is
/// `null` is none.
pub proof fn law_plan_of_a_report(
    t: JsonTree,
    ctx: JsonTree,
    cfg: JsonTree,
    a: Seq<char>,
    b: Seq<char>,
)
    requires
        t.field("ctx"@) == Some(ctx),
        ctx.field("config"@) == Some(cfg),
        a.len() > 0,
        a != "null"@,
    ensures
        limit_of(t) matches Some(l) && {
            let tiers = ctx.field("subscriptionTiers"@);
            let tier = ctx.field("subscription_tier"@);
            &&& tiers == Some(JsonTree::Text(a)) ==> l.subscription == Some(a)
            &&& tiers == Some(JsonTree::Array(seq![JsonTree::Text(a)]))
                ==> l.subscription == Some(a)
            &&& tiers == Some(JsonTree::Array(seq![JsonTree::Text(a), JsonTree::Text(b)]))
                ==> l.subscription == Some(a + ","@ + b)
            &&& tiers == Some(JsonTree::Text(""@)) || tiers == Some(JsonTree::Text("null"@))
                ==> l.subscription is None
            &&& tiers is None && tier == Some(JsonTree::Text(a)) ==> l.subscription == Some(a)
            &&& tiers is None && tier is None && cfg.field("subscription_tier"@) == Some(
                JsonTree::Text(a),
            ) ==> l.subscription == Some(a)
            &&& tiers is None && tier is None && cfg.field("subscription_tier"@) is None
                ==> l.subscription is None
        },
{
    reveal_strlit("");
    reveal_strlit(",");
    reveal_strlit("null");
    reveal_with_fuel(strings_of, 3);
    let one = seq![JsonTree::Text(a)];
    let two = seq![JsonTree::Text(a), JsonTree::Text(b)];
    assert(one.drop_last() =~= Seq::<JsonTree>::empty());
    assert(one.last() == JsonTree::Text(a));
    assert(two.drop_last() =~= one);
    assert(two.last() == JsonTree::Text(b));
    assert(strings_of(one) =~= seq![a]);
    assert(strings_of(two) =~= seq![a, b]);
    assert(joined(seq![a], ","@) == a);
    assert(seq![a, b].drop_last() =~= seq![a]);
    assert(joined(seq![a, b], ","@) == joined(seq![a, b].drop_last(), ","@) + ","@ + b);
    let c = a + ","@ + b;
    assert(c.len() > 0);
    assert(c != "null"@) by {
        if c == "null"@ {
            assert(c[a.len() as int] == ',');
            assert(c.len() == 4);
            assert("null"@[a.len() as int] != ',') by {
                let i = a.len() as int;
                assert(0 <= i < 4);
                assert("null"@[0] == 'n' && "null"@[1] == 'u' && "null"@[2] == 'l' && "null"@[3]
                    == 'l');
            }
        }
    }
}

/// What was copied gives the share that its phrase states, with the kind of period that it names: a
/// capital, and the rest in small letters.
pub proof fn law_copied_limit(text: Seq<char>, label: Seq<char>, number: Seq<char>)
    requires
        label.len() > 0,
        is_ascii_chars(label.skip(1)),
    ensures
        phrase_in(trimmed(text)) is None ==> limit_of_copy(text) is None,
        phrase_in(trimmed(text)) == Some((label, number)) ==> (limit_of_copy(text) matches Some(l)
            && {
            &&& l.percent == Some(NumTree::Float(number))
            &&& label[0] == 'W' || label[0] == 'w' ==> l.period_label[0] == 'W'
            &&& label[0] == 'M' || label[0] == 'm' ==> l.period_label[0] == 'M'
            &&& l.period_label.skip(1) == lower(label.skip(1))
            &&& l.source == "last-copy"@
            &&& l.period_start is None && l.period_end is None && l.subscription is None
        }),
{
    if phrase_in(trimmed(text)) == Some((label, number)) {
        let l = limit_of_copy(text)->0;
        assert(l.period_label.skip(1) =~= lower(label.skip(1)));
    }
}

/// The headline names the period and the share that is used; a share that is not known is `n/a`.
pub proof fn law_headline(l: Limit, g: GaugeTree)
    ensures
        headline_of(l, Some(g)) == l.period_label + " limit: "@ + g.shown + "%"@,
        headline_of(l, None) == l.period_label + " limit: n/a"@,
{
}

/// A limit shows red from 95 hundredths on, yellow from 80 on, and green below or where the share
/// is not known.
pub proof fn law_colour_of_a_limit(g: GaugeTree)
    ensures
        g.floor >= 95 ==> band_code(Some(g)) == "1;31"@,
        80 <= g.floor < 95 ==> band_code(Some(g)) == "1;33"@,
        g.floor < 80 ==> band_code(Some(g)) == "1;32"@,
        band_code(None) == "1;32"@,
{
}

/// The line on an account shows the headline of its limit, and its address, its profile, the day of
/// the reset, the plan and when the limit was fetched, each where it is known.
pub proof fn law_line_on_an_account(l: Limit, g: Option<GaugeTree>, color: bool)
    ensures
        banner(l, g, color).len() == 2,
        has_part(banner(l, g, color)[0], headline_of(l, g)),
        l.email matches Some(x) ==> has_part(banner(l, g, color)[0], x),
        l.profile matches Some(x) ==> has_part(banner(l, g, color)[0], "profile "@ + x),
        l.period_end matches Some(x) ==> has_part(
            banner(l, g, color)[0],
            "reset "@ + head(x, 10),
        ),
        l.subscription matches Some(x) ==> has_part(banner(l, g, color)[0], x),
        l.fetched_at matches Some(x) ==> has_part(
            banner(l, g, color)[0],
            "as of "@ + head(replaced(x, 'T', ' '), 19) + " UTC"@,
        ),
{
    let parts = banner_parts(l, g, color);
    let sep = "  ·  "@;
    let line = joined(parts, sep);
    assert(banner(l, g, color)[0] == line);
    let e = if l.email is Some {
        1int
    } else {
        0
    };
    let p = if l.profile is Some {
        e + 1
    } else {
        e
    };
    let r = if l.period_end is Some {
        p + 2
    } else {
        p + 1
    };
    let s = if l.subscription is Some {
        r + 1
    } else {
        r
    };
    assert(parts[p] == painted(color, band_code(g), headline_of(l, g)));
    lemma_told(parts, sep, p, color, band_code(g), headline_of(l, g));
    if let Some(x) = l.email {
        assert(parts[0] == painted(color, "1"@, x));
        lemma_told(parts, sep, 0, color, "1"@, x);
    }
    if let Some(x) = l.profile {
        assert(parts[e] == painted(color, "32"@, "profile "@ + x));
        lemma_told(parts, sep, e, color, "32"@, "profile "@ + x);
    }
    if let Some(x) = l.period_end {
        assert(parts[p + 1] == painted(color, "2"@, "reset "@ + head(x, 10)));
        lemma_told(parts, sep, p + 1, color, "2"@, "reset "@ + head(x, 10));
    }
    if let Some(x) = l.subscription {
        assert(parts[r] == painted(color, "36"@, x));
        lemma_told(parts, sep, r, color, "36"@, x);
    }
    if let Some(x) = l.fetched_at {
        let told = "as of "@ + head(replaced(x, 'T', ' '), 19) + " UTC"@;
        assert(parts[s] == painted(color, "2"@, told));
        lemma_told(parts, sep, s, color, "2"@, told);
    }
}

proof fn lemma_told(
    parts: Seq<Seq<char>>,
    sep: Seq<char>,
    i: int,
    color: bool,
    code: Seq<char>,
    text: Seq<char>,
)
    requires
        0 <= i < parts.len(),
        parts[i] == painted(color, code, text),
    ensures
        has_part(joined(parts, sep), text),
{
    lemma_part_of_itself(text);
    lemma_part_of_painted(color, code, text, text);
    lemma_part_of_joined(parts, sep, i, text);
}

/// The detail of a limit shows each of its parts on a line of its own.
pub proof fn law_detail_of_a_limit(l: Limit, g: Option<GaugeTree>, color: bool)
    ensures
        ({
            let d = limit_detail(l, g, color);
            &&& d.len() == 16
            &&& has_part(d[2], headline_of(l, g))
            &&& l.email matches Some(x) ==> d[4] == "  Account      "@ + x
            &&& l.profile matches Some(x) ==> d[5] == "  Profile      "@ + x
            &&& l.user_id matches Some(x) ==> d[6] == "  User ID      "@ + x
            &&& d[7] == "  Limit        "@ + headline_of(l, g)
            &&& l.period_type.len() > 0 ==> d[8] == "  Period       "@ + l.period_label + " ("@
                + l.period_type + ")"@
            &&& l.period_start matches Some(x) ==> d[9] == "  Start        "@ + x
            &&& l.period_end matches Some(x) ==> d[10] == "  End / reset  "@ + x
            &&& l.subscription matches Some(x) ==> d[11] == "  Plan         "@ + x
            &&& l.fetched_at matches Some(x) ==> d[12] == "  Fetched      "@ + x
            &&& d[13] == "  Source       "@ + l.source
        }),
{
    law_line_on_an_account(l, g, color);
    assert(limit_detail(l, g, color)[2] == banner(l, g, color)[0]);
}

/// In the table of the accounts the one that is signed in has a star, and each has its profile, its
/// address, its limit and the day of its reset under the header that names it.
pub proof fn law_columns_of_an_account(r: RowTree, g: Option<GaugeTree>, color: bool)
    ensures
        ({
            let h = account_headers();
            let c = account_cells(r, g, color);
            let name = if r.unsaved {
                r.name + " (unsaved)"@
            } else {
                r.name
            };
            &&& c.len() == h.len()
            &&& r.active ==> under(h, c, 0, ""@, painted(color, "1;32"@, "*"@))
            &&& !r.active ==> under(h, c, 0, ""@, " "@)
            &&& r.active ==> under(h, c, 1, "Profile"@, painted(color, "1;32"@, name))
            &&& !r.active ==> under(h, c, 1, "Profile"@, name)
            &&& r.email matches Some(x) ==> under(h, c, 2, "Account"@, x)
            &&& r.email is None ==> under(h, c, 2, "Account"@, "—"@)
            &&& r.limit matches Some(l) ==> h[3] == "Limit"@ && has_part(c[3], headline_of(l, g))
            &&& r.limit is None ==> h[3] == "Limit"@ && has_part(c[3], "—"@)
            &&& r.limit matches Some(l) ==> (l.period_end matches Some(x) ==> under(
                h,
                c,
                4,
                "Reset"@,
                painted(color, "2"@, head(x, 10)),
            ))
        }),
{
    let text = match r.limit {
        Some(l) => headline_of(l, g),
        None => "—"@,
    };
    lemma_part_of_itself(text);
    lemma_part_of_painted(color, band_code(g), text, text);
    lemma_part_of_painted(color, "2"@, text, text);
}

proof fn lemma_account_line(
    rows: Seq<RowTree>,
    gs: Seq<Option<GaugeTree>>,
    color: bool,
    i: int,
)
    requires
        0 <= i < rows.len(),
    ensures
        account_table(rows, gs, color).len() == rows.len() + 4,
        has_part(account_table(rows, gs, color)[3 + i], rows[i].name),
        rows[i].email matches Some(x) ==> has_part(account_table(rows, gs, color)[3 + i], x),
        rows[i].limit matches Some(l) ==> has_part(
            account_table(rows, gs, color)[3 + i],
            headline_of(l, gs[i]),
        ),
        rows[i].active ==> has_part(account_table(rows, gs, color)[3 + i], "*"@),
{
    let h = account_headers();
    let cells = Seq::new(rows.len(), |i: int| account_cells(rows[i], gs[i], color));
    let line = account_table(rows, gs, color)[3 + i];
    let r = rows[i];
    let c = cells[i];
    let name = if r.unsaved {
        r.name + " (unsaved)"@
    } else {
        r.name
    };
    law_columns_of_an_account(r, gs[i], color);
    law_table_shows_its_rows(h, cells, color, false, i);
    assert(holds_cells(line, h, c));
    assert(has_part(line, c[0]) && has_part(line, c[1]) && has_part(line, c[2]) && has_part(
        line,
        c[3],
    ));
    if r.active {
        lemma_shown(line, color, "1;32"@, name);
        lemma_shown(line, color, "1;32"@, "*"@);
    }
    assert(has_part(name, r.name)) by {
        lemma_part_of_itself(r.name);
        lemma_part_inside(Seq::empty(), r.name, " (unsaved)"@, r.name);
        assert(Seq::<char>::empty() + r.name + " (unsaved)"@ =~= r.name + " (unsaved)"@);
    }
    lemma_part_of_part(line, name, r.name);
    if let Some(l) = r.limit {
        lemma_part_of_part(line, c[3], headline_of(l, gs[i]));
    }
}

/// With two accounts or more the overview shows each on a line of its own, in their order, with its
/// profile, its address and its limit, and a star on the one that is signed in. With no account it
/// shows the limit that is known, and with one account that is saved the limit that is known, else
/// the one that was stored.
pub proof fn law_overview_of_accounts(
    rows: Seq<RowTree>,
    gs: Seq<Option<GaugeTree>>,
    live: Option<Limit>,
    g: Option<GaugeTree>,
    color: bool,
    i: int,
)
    ensures
        rows.len() >= 2 && 0 <= i < rows.len() ==> {
            let line = overview(rows, gs, live, g, color)[3 + i];
            &&& overview(rows, gs, live, g, color).len() == rows.len() + 7
            &&& has_part(line, rows[i].name)
            &&& rows[i].email matches Some(x) ==> has_part(line, x)
            &&& rows[i].limit matches Some(l) ==> has_part(line, headline_of(l, gs[i]))
            &&& rows[i].active ==> has_part(line, "*"@)
        },
        rows.len() <= 1 ==> (live matches Some(l) ==> overview(rows, gs, live, g, color).len() > 0
            && has_part(overview(rows, gs, live, g, color)[0], headline_of(l, g))),
        rows.len() == 0 && live is None ==> overview(rows, gs, live, g, color).len() == 0,
        rows.len() == 1 && live is None && !rows[0].unsaved ==> (rows[0].limit matches Some(l)
            ==> overview(rows, gs, live, g, color).len() > 0 && has_part(
            overview(rows, gs, live, g, color)[0],
            headline_of(l, gs[0]),
        )),
{
    if rows.len() >= 2 && 0 <= i < rows.len() {
        lemma_account_line(rows, gs, color, i);
        assert(overview(rows, gs, live, g, color)[3 + i] == account_table(rows, gs, color)[3 + i]);
    }
    if let Some(l) = live {
        law_line_on_an_account(l, g, color);
    }
    if rows.len() == 1 {
        if let Some(l) = rows[0].limit {
            law_line_on_an_account(l, gs[0], color);
        }
    }
}

/// How many accounts are saved is how many rows are not marked as unsaved.
pub proof fn law_saved_accounts(rows: Seq<RowTree>, r: RowTree)
    ensures
        saved_count(Seq::empty()) == 0,
        r.unsaved ==> saved_count(rows.push(r)) == saved_count(rows),
        !r.unsaved ==> saved_count(rows.push(r)) == saved_count(rows) + 1,
{
    assert(rows.push(r).drop_last() =~= rows);
}

/// The report on the limit shows the limit where there is one, and, where two accounts or more are
/// saved, every account on a line below it.
pub proof fn law_report_on_the_limit(
    limit: Option<Limit>,
    g: Option<GaugeTree>,
    rows: Seq<RowTree>,
    gs: Seq<Option<GaugeTree>>,
    log_path: Seq<char>,
    color: bool,
    i: int,
)
    ensures
        limit matches Some(l) ==> limit_report(limit, g, rows, gs, log_path, color).len() >= 16
            && limit_report(limit, g, rows, gs, log_path, color)[7] == "  Limit        "@
            + headline_of(l, g),
        saved_count(rows) >= 2 && 0 <= i < rows.len() ==> exists|j: int|
            0 <= j < limit_report(limit, g, rows, gs, log_path, color).len() && has_part(
                #[trigger] limit_report(limit, g, rows, gs, log_path, color)[j],
                rows[i].name,
            ) && (rows[i].limit matches Some(l) ==> has_part(
                limit_report(limit, g, rows, gs, log_path, color)[j],
                headline_of(l, gs[i]),
            )),
        saved_count(rows) < 2 ==> limit_report(limit, g, rows, gs, log_path, color).len() <= 16,
{
    let all = limit_report(limit, g, rows, gs, log_path, color);
    if let Some(l) = limit {
        law_detail_of_a_limit(l, g, color);
        assert(all[7] == limit_detail(l, g, color)[7]);
    }
    if saved_count(rows) >= 2 && 0 <= i < rows.len() {
        lemma_account_line(rows, gs, color, i);
        let tab = account_table(rows, gs, color);
        let j = all.len() - tab.len() + 3 + i;
        assert(all[j] == tab[3 + i]);
    }
}

/// Where no limit is known, the report says so and names the log that was looked for.
pub proof fn law_no_limit(
    rows: Seq<RowTree>,
    gs: Seq<Option<GaugeTree>>,
    log_path: Seq<char>,
    color: bool,
)
    ensures
        ({
            let r = limit_report(None, None, rows, gs, log_path, color);
            &&& r.len() >= 3
            &&& has_part(r[0], "No account limit data found."@)
            &&& has_part(r[2], "Expected log: "@ + log_path)
        }),
{
    let r = limit_report(None, None, rows, gs, log_path, color);
    lemma_part_of_itself(painted(color, "33"@, "No account limit data found."@));
    lemma_shown(r[0], color, "33"@, "No account limit data found."@);
    lemma_part_of_itself(painted(color, "2"@, "Expected log: "@ + log_path));
    lemma_shown(r[2], color, "2"@, "Expected log: "@ + log_path);
}

/// With one account and no limit the overview names the account: by its address, else by its
/// profile.
pub proof fn law_account_without_limit(
    r: RowTree,
    gs: Seq<Option<GaugeTree>>,
    g: Option<GaugeTree>,
    color: bool,
    email: Seq<char>,
)
    requires
        r.limit is None,
    ensures
        ({
            let o = overview(seq![r], gs, None, g, color);
            &&& o.len() == 2
            &&& r.email == Some(email) ==> has_part(o[0], email)
            &&& r.email is None && !r.unsaved ==> has_part(o[0], r.name)
        }),
{
    let o = overview(seq![r], gs, None, g, color);
    let who = if r.unsaved {
        text_or(r.email, "signed in"@)
    } else {
        text_or(r.email, r.name)
    };
    let rest = painted(color, "2"@, "  ·  no quota in logs yet"@);
    assert(o[0] == painted(color, "1"@, who) + rest);
    lemma_part_of_itself(who);
    lemma_part_of_painted(color, "1"@, who, who);
    lemma_part_inside(Seq::empty(), painted(color, "1"@, who), rest, who);
    assert(Seq::<char>::empty() + painted(color, "1"@, who) + rest =~= o[0]);
}

/// Of a list of tiers the texts count, in their order.
pub proof fn law_list_of_tiers(
    a: Seq<JsonTree>,
    b: Seq<JsonTree>,
    v: JsonTree,
    s: Seq<char>,
    t: JsonTree,
    ctx: JsonTree,
    cfg: JsonTree,
)
    ensures
        strings_of(a + b) == strings_of(a) + strings_of(b),
        strings_of(seq![JsonTree::Text(s)]) == seq![s],
        !(v is Text) ==> strings_of(seq![v]).len() == 0,
        t.field("ctx"@) == Some(ctx) && ctx.field("config"@) == Some(cfg) && ctx.field(
            "subscriptionTiers"@,
        ) == Some(JsonTree::Array(a)) && joined(strings_of(a), ","@).len() > 0 && joined(
            strings_of(a),
            ","@,
        ) != "null"@ ==> (limit_of(t) matches Some(l) && l.subscription == Some(
            joined(strings_of(a), ","@),
        )),
    decreases b.len(),
{
    reveal_with_fuel(strings_of, 2);
    assert(seq![JsonTree::Text(s)].drop_last() =~= Seq::<JsonTree>::empty());
    assert(seq![v].drop_last() =~= Seq::<JsonTree>::empty());
    assert(Seq::<Seq<char>>::empty().push(s) =~= seq![s]);
    if b.len() == 0 {
        assert(a + b =~= a);
        assert(strings_of(a) + strings_of(b) =~= strings_of(a));
    } else {
        assert((a + b).drop_last() =~= a + b.drop_last());
        law_list_of_tiers(a, b.drop_last(), v, s, t, ctx, cfg);
        assert(strings_of(a + b) =~= strings_of(a) + strings_of(b));
    }
}

} // verus!
