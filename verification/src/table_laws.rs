//! What holds of the tables that days, sessions and accounts are shown in.
use crate::bucket::TokenBucket;
use crate::daily::{days_sum, DailyStat};
use crate::double::percent;
use crate::format::{
    body_lines, cell_text, column_width, column_widths, gap, is_total, padded, painted, row_text,
    table, tokens_text, without_codes,
};
use crate::order::ordered;
use crate::report::{
    daily_headers, daily_report, daily_row, dashes, day_counts, day_rows, day_sessions, days_add_up,
    session_headers, session_report, session_row, session_rows, sessions_add_up, with_usage, Money,
};
use crate::session::SessionStat;
use crate::text::{copies, decimal, first_chars, has_part, joined, replaced};
use vstd::prelude::*;

verus! {

/// In the column `i` the header is `name` and the cell of the row is `cell`.
pub open spec fn under(
    headers: Seq<Seq<char>>,
    row: Seq<Seq<char>>,
    i: int,
    name: Seq<char>,
    cell: Seq<char>,
) -> bool {
    0 <= i < headers.len() && i < row.len() && headers[i] == name && row[i] == cell
}

/// The input of a bucket without what came from the cache.
pub open spec fn input_left(t: TokenBucket) -> nat {
    if t.cached_read_tokens <= t.input_tokens {
        (t.input_tokens - t.cached_read_tokens) as nat
    } else {
        0
    }
}

/// In the row of a day each total stands under the header that names it.
pub proof fn law_columns_of_a_day(
    days: Seq<DailyStat>,
    money: Seq<Money>,
    verbose: bool,
    color: bool,
    i: int,
)
    requires
        0 <= i < days.len(),
    ensures
        ({
            let h = daily_headers(verbose);
            let r = day_rows(days, money, verbose, color)[i];
            let t = days[i].tokens;
            &&& r.len() == h.len()
            &&& under(h, r, 0, "Date"@, painted(color, "36"@, days[i].date@))
            &&& under(h, r, 1, "Reqs"@, decimal(t.events as nat))
            &&& under(h, r, 2, "Sess"@, decimal(days[i].sessions.keys().len()))
            &&& under(h, r, 3, "Input"@, painted(color, "32"@, tokens_text(t.input_tokens as nat)))
            &&& under(h, r, 4, "Cache"@, painted(color, "2"@,
                tokens_text(t.cached_read_tokens as nat)))
            &&& under(h, r, 5, "Hit%"@, painted(color, "2"@, percent(t.cached_read_tokens as nat,
                t.input_tokens as nat) + "%"@))
            &&& under(h, r, 6, "Fresh"@, painted(color, "33"@, tokens_text(input_left(t))))
            &&& under(h, r, 7, "Output"@, painted(color, "35"@,
                tokens_text(t.output_tokens as nat)))
            &&& under(h, r, 8, "Total"@, painted(color, "1"@, tokens_text(t.total_tokens as nat)))
            &&& under(h, r, 9, "NoCache"@, painted(color, "33"@, tokens_text(input_left(t)
                + t.output_tokens as nat)))
            &&& under(h, r, 10, "Cost"@, painted(color, "32"@, money[i].cost@))
            &&& verbose ==> under(h, r, 11, "Log$"@, painted(color, "2"@, money[i].log@))
            &&& verbose ==> under(h, r, 12, "Saved"@, painted(color, "36"@, money[i].saved@))
        }),
        day_rows(days, money, verbose, color).len() == days.len(),
{
}

/// In the row of the sums each sum stands under the header that names it.
pub proof fn law_columns_of_the_sums(days: Seq<DailyStat>, total: Money, verbose: bool)
    ensures
        ({
            let h = daily_headers(verbose);
            let n = day_counts(days);
            let left: nat = if n.cached <= n.input {
                (n.input - n.cached) as nat
            } else {
                0
            };
            let r = daily_row(
                "TOTAL"@,
                n,
                ordered(day_sessions(days)).len(),
                total,
                verbose,
                false,
            );
            &&& r.len() == h.len()
            &&& under(h, r, 0, "Date"@, "TOTAL"@)
            &&& under(h, r, 1, "Reqs"@, decimal(n.events))
            &&& under(h, r, 2, "Sess"@, decimal(ordered(day_sessions(days)).len()))
            &&& under(h, r, 3, "Input"@, tokens_text(n.input))
            &&& under(h, r, 4, "Cache"@, tokens_text(n.cached))
            &&& under(h, r, 5, "Hit%"@, percent(n.cached, n.input) + "%"@)
            &&& under(h, r, 6, "Fresh"@, tokens_text(left))
            &&& under(h, r, 7, "Output"@, tokens_text(n.output))
            &&& under(h, r, 8, "Total"@, tokens_text(n.total))
            &&& under(h, r, 9, "NoCache"@, tokens_text(left + n.output))
            &&& under(h, r, 10, "Cost"@, total.cost@)
            &&& verbose ==> under(h, r, 11, "Log$"@, total.log@)
            &&& verbose ==> under(h, r, 12, "Saved"@, total.saved@)
        }),
{
}

/// One more day adds its totals to the sums and its sessions to those that are counted.
pub proof fn law_sums_over_days(days: Seq<DailyStat>, d: DailyStat, sid: Seq<char>)
    ensures
        ({
            let n = day_counts(days);
            let m = day_counts(days.push(d));
            &&& m.input == n.input + d.tokens.input_tokens
            &&& m.cached == n.cached + d.tokens.cached_read_tokens
            &&& m.output == n.output + d.tokens.output_tokens
            &&& m.total == n.total + d.tokens.total_tokens
            &&& m.events == n.events + d.tokens.events
        }),
        ({
            let none = day_counts(Seq::empty());
            none.input == 0 && none.cached == 0 && none.output == 0 && none.total == 0
                && none.events == 0
        }),
        !day_sessions(Seq::empty()).contains(sid),
        day_sessions(days.push(d)).contains(sid) <==> day_sessions(days).contains(sid)
            || d.sessions.keys().contains(sid),
{
    assert(days.push(d).drop_last() =~= days);
    assert(d.sessions.keys().contains(sid) == d.sessions.keys().to_set().contains(sid));
}

/// The greater of the peak input of a session and of the peak that its log reports.
pub open spec fn highest(s: SessionStat) -> nat {
    if s.peak_input_tokens >= s.meta_peak_context {
        s.peak_input_tokens as nat
    } else {
        s.meta_peak_context as nat
    }
}

/// In the row of a session with usage each total stands under the header that names it. A session
/// without usage shows dashes, but for its peak and its last activity.
pub proof fn law_columns_of_a_session(
    stats: Seq<SessionStat>,
    money: Seq<Money>,
    order: Seq<usize>,
    verbose: bool,
    color: bool,
    i: int,
)
    requires
        0 <= i < order.len(),
        order[i] < stats.len(),
    ensures
        ({
            let h = session_headers(verbose);
            let r = session_rows(stats, money, order, verbose, color)[i];
            let s = stats[order[i] as int];
            let m = money[order[i] as int];
            let t = s.tokens;
            let last = if s.last_activity@ == "unknown"@ {
                "-"@
            } else {
                replaced(first_chars(s.last_activity@, 16), 'T', ' ')
            };
            &&& r.len() == h.len()
            &&& under(h, r, 0, "Session"@, painted(color, "36"@, first_chars(s.session_id@, 10)))
            &&& t.events > 0 ==> under(h, r, 1, "Reqs"@, decimal(t.events as nat))
            &&& t.events > 0
                ==> under(h, r, 2, "Input"@, painted(color, "32"@,
                    tokens_text(t.input_tokens as nat)))
            &&& t.events > 0
                ==> under(h, r, 3, "Cache"@, painted(color, "2"@,
                    tokens_text(t.cached_read_tokens as nat)))
            &&& t.events > 0
                ==> under(h, r, 4, "Hit%"@, painted(color, "2"@,
                    percent(t.cached_read_tokens as nat, t.input_tokens as nat) + "%"@))
            &&& t.events > 0
                ==> under(h, r, 5, "Fresh"@, painted(color, "33"@, tokens_text(input_left(t))))
            &&& t.events > 0
                ==> under(h, r, 6, "Output"@, painted(color, "35"@,
                    tokens_text(t.output_tokens as nat)))
            &&& t.events > 0
                ==> under(h, r, 7, "Total"@, painted(color, "1"@,
                    tokens_text(t.total_tokens as nat)))
            &&& t.events > 0
                ==> under(h, r, 8, "NoCache"@, painted(color, "33"@, tokens_text(input_left(t)
                    + t.output_tokens as nat)))
            &&& t.events > 0 ==> under(h, r, 9, "Cost"@, painted(color, "32"@, m.cost@))
            &&& t.events > 0 || highest(s) > 0
                ==> under(h, r, 10, "Peak"@, painted(color, "34"@, tokens_text(highest(s))))
            &&& t.events == 0 ==> under(h, r, 1, "Reqs"@, painted(color, "2"@, "0"@))
            &&& t.events == 0 ==> forall|c: int| 2 <= c < 10
                ==> #[trigger] r[c] == painted(color, "2"@, "-"@)
            &&& t.events == 0 && highest(s) == 0
                ==> under(h, r, 10, "Peak"@, painted(color, "2"@, "-"@))
            &&& verbose && t.events == 0
                ==> under(h, r, 12, "Log$"@, painted(color, "2"@, "-"@))
                    && under(h, r, 13, "Saved"@, painted(color, "2"@, "-"@))
            &&& under(h, r, 11, "Last"@, painted(color, "2"@, last))
            &&& verbose && t.events > 0 ==> under(h, r, 12, "Log$"@, painted(color, "2"@, m.log@))
            &&& verbose && t.events > 0
                ==> under(h, r, 13, "Saved"@, painted(color, "36"@, m.saved@))
            &&& verbose && 0 < s.cwd@.len() <= 28
                ==> under(h, r, 14, "Cwd"@, painted(color, "2"@, s.cwd@))
            &&& verbose && s.cwd@.len() > 28
                ==> under(h, r, 14, "Cwd"@, painted(color, "2"@, "…"@
                    + s.cwd@.skip(s.cwd@.len() - 27)))
            &&& verbose && s.cwd@.len() == 0 ==> under(h, r, 14, "Cwd"@, painted(color, "2"@, "-"@))
        }),
        session_rows(stats, money, order, verbose, color).len() == order.len(),
{
    reveal_with_fuel(dashes, 9);
    reveal_strlit("-");
    let s = stats[order[i] as int];
    let m = money[order[i] as int];
    let r = session_rows(stats, money, order, verbose, color)[i];
    let dash = painted(color, "2"@, "-"@);
    assert(r == session_row(s, m, verbose, color));
    if s.tokens.events == 0 {
        assert(r[2] == dash && r[3] == dash && r[4] == dash && r[5] == dash && r[6] == dash && r[7]
            == dash && r[8] == dash && r[9] == dash);
        assert forall|c: int| 2 <= c < 10 implies #[trigger] r[c] == dash by {}
    }
}

/// How many sessions are said to have usage is how many of those that are listed have some.
pub proof fn law_sessions_with_usage(stats: Seq<SessionStat>, order: Seq<usize>, k: usize)
    ensures
        with_usage(stats, Seq::empty()) == 0,
        stats[k as int].has_usage ==> with_usage(stats, order.push(k)) == with_usage(stats, order)
            + 1,
        !stats[k as int].has_usage ==> with_usage(stats, order.push(k)) == with_usage(stats, order),
{
    assert(order.push(k).drop_last() =~= order);
}

/// What is part of a text is part of any text around it.
pub proof fn lemma_part_inside(a: Seq<char>, s: Seq<char>, b: Seq<char>, part: Seq<char>)
    requires
        has_part(s, part),
    ensures
        has_part(a + s + b, part),
{
    let i = choose|i: int| 0 <= i <= s.len() - part.len()
        && #[trigger] s.subrange(i, i + part.len()) == part;
    let all = a + s + b;
    assert(all.subrange(a.len() + i, a.len() + i + part.len()) =~= s.subrange(i, i + part.len()));
}

/// A text is part of itself.
pub proof fn lemma_part_of_itself(s: Seq<char>)
    ensures
        has_part(s, s),
{
    assert(s.subrange(0, s.len() as int) =~= s);
    assert(s.subrange(0int, 0int + s.len()) == s);
}

/// A colour leaves the text in place.
pub proof fn lemma_part_of_painted(on: bool, code: Seq<char>, text: Seq<char>, part: Seq<char>)
    requires
        has_part(text, part),
    ensures
        has_part(painted(on, code, text), part),
{
    if on && text.len() > 0 {
        lemma_part_inside("\u{1b}["@ + code + "m"@, text, "\u{1b}[0m"@, part);
    }
}

/// What is part of one of the texts is part of the joined text.
pub proof fn lemma_part_of_joined(parts: Seq<Seq<char>>, sep: Seq<char>, i: int, part: Seq<char>)
    requires
        0 <= i < parts.len(),
        has_part(parts[i], part),
    ensures
        has_part(joined(parts, sep), part),
    decreases parts.len(),
{
    if parts.len() == 1 {
    } else if i == parts.len() - 1 {
        lemma_part_inside(joined(parts.drop_last(), sep) + sep, parts.last(), Seq::empty(), part);
        assert(joined(parts.drop_last(), sep) + sep + parts.last() + Seq::<char>::empty()
            =~= joined(parts.drop_last(), sep) + sep + parts.last());
    } else {
        lemma_part_of_joined(parts.drop_last(), sep, i, part);
        lemma_part_inside(
            Seq::empty(),
            joined(parts.drop_last(), sep),
            sep + parts.last(),
            part,
        );
        assert(Seq::<char>::empty() + joined(parts.drop_last(), sep) + (sep + parts.last())
            =~= joined(parts.drop_last(), sep) + sep + parts.last());
    }
}

/// A line of a table holds the cells of its row.
pub proof fn lemma_row_holds_cells(
    cells: Seq<Seq<char>>,
    widths: Seq<nat>,
    bold: bool,
    color: bool,
    i: int,
)
    requires
        0 <= i < widths.len(),
        i < cells.len(),
    ensures
        has_part(row_text(cells, widths, bold, color), cells[i]),
{
    let cell = cells[i];
    let p = padded(cell, widths[i], i > 0);
    let blanks = copies(" "@, gap(cell, widths[i]));
    lemma_part_of_itself(cell);
    if i > 0 {
        lemma_part_inside(blanks, cell, Seq::empty(), cell);
        assert(blanks + cell + Seq::<char>::empty() =~= p);
    } else {
        lemma_part_inside(Seq::empty(), cell, blanks, cell);
        assert(Seq::<char>::empty() + cell + blanks =~= p);
    }
    lemma_part_of_painted(color, "1"@, p, cell);
    let shown = if bold {
        painted(color, "1"@, p)
    } else {
        p
    };
    lemma_part_inside(" "@, shown, " "@, cell);
    let bar = painted(color, "2"@, "│"@);
    let texts = Seq::new(widths.len(), |i: int| cell_text(cells, widths, i, bold, color));
    assert(texts[i] == " "@ + shown + " "@);
    lemma_part_of_joined(texts, bar, i, cell);
    lemma_part_inside(bar, joined(texts, bar), bar, cell);
}

proof fn lemma_body_holds_rows(
    rows: Seq<Seq<Seq<char>>>,
    widths: Seq<nat>,
    color: bool,
    total_row: bool,
    k: int,
)
    requires
        0 <= k < rows.len(),
    ensures
        exists|j: int|
            #![trigger body_lines(rows, widths, color, total_row)[j]]
            k <= j < body_lines(rows, widths, color, total_row).len() && (exists|bold: bool|
                body_lines(rows, widths, color, total_row)[j] == #[trigger] row_text(
                    rows[k],
                    widths,
                    bold,
                    color,
                )),
        !total_row ==> body_lines(rows, widths, color, total_row).len() == rows.len()
            && body_lines(rows, widths, color, total_row)[k] == row_text(
            rows[k],
            widths,
            false,
            color,
        ),
        body_lines(rows, widths, color, total_row).len() >= rows.len(),
    decreases rows.len(),
{
    let all = body_lines(rows, widths, color, total_row);
    let front = rows.drop_last();
    let above = body_lines(front, widths, color, total_row);
    if front.len() > 0 {
        lemma_body_holds_rows(front, widths, color, total_row, 0);
    }
    if k < front.len() {
        lemma_body_holds_rows(front, widths, color, total_row, k);
        let j = choose|j: int|
            #![trigger above[j]]
            k <= j < above.len() && (exists|bold: bool|
                above[j] == #[trigger] row_text(front[k], widths, bold, color));
        let bold = choose|bold: bool| above[j]
            == #[trigger] row_text(front[k], widths, bold, color);
        assert(all[j] == above[j]);
        assert(front[k] == rows[k]);
        assert(all[j] == row_text(rows[k], widths, bold, color));
        assert(!total_row ==> all[k] == above[k]);
    } else {
        let bold = total_row && is_total(rows.last());
        let j = all.len() - 1;
        assert(all[j] == row_text(rows[k], widths, bold, color));
    }
}

/// The line of a table holds every cell of the row that has a header.
pub open spec fn holds_cells(line: Seq<char>, headers: Seq<Seq<char>>,
    row: Seq<Seq<char>>) -> bool {
    forall|i: int|
        0 <= i < headers.len() && i < row.len() ==> has_part(line, #[trigger] row[i])
}

/// A table shows its headers in the line under the top, and every row in a line below them that
/// holds each of the row's cells. Without a row of sums the rows stand in lines of their own, one
/// below the other in their order.
pub proof fn law_table_shows_its_rows(
    headers: Seq<Seq<char>>,
    rows: Seq<Seq<Seq<char>>>,
    color: bool,
    total_row: bool,
    k: int,
)
    requires
        headers.len() > 0,
        0 <= k < rows.len(),
    ensures
        holds_cells(table(headers, rows, color, total_row)[1], headers, headers),
        exists|j: int|
            3 + k <= j < table(headers, rows, color, total_row).len() - 1 && holds_cells(
                #[trigger] table(headers, rows, color, total_row)[j],
                headers,
                rows[k],
            ),
        !total_row ==> table(headers, rows, color, total_row).len() == rows.len() + 4
            && holds_cells(table(headers, rows, color, total_row)[3 + k], headers, rows[k]),
{
    let widths = column_widths(headers, rows);
    let all = table(headers, rows, color, total_row);
    let body = body_lines(rows, widths, color, total_row);
    lemma_body_holds_rows(rows, widths, color, total_row, k);
    let j = choose|j: int|
        #![trigger body[j]]
        k <= j < body.len() && (exists|bold: bool|
            body[j] == #[trigger] row_text(rows[k], widths, bold, color));
    let bold = choose|bold: bool| body[j] == #[trigger] row_text(rows[k], widths, bold, color);
    assert(all[3 + j] == body[j]);
    assert forall|i: int| 0 <= i < headers.len() && i < rows[k].len() implies has_part(
        all[3 + j],
        #[trigger] rows[k][i],
    ) by {
        lemma_row_holds_cells(rows[k], widths, bold, color, i);
    }
    if !total_row {
        assert(all[3 + k] == body[k]);
        assert forall|i: int| 0 <= i < headers.len() && i < rows[k].len() implies has_part(
            all[3 + k],
            #[trigger] rows[k][i],
        ) by {
            lemma_row_holds_cells(rows[k], widths, false, color, i);
        }
    }
    let shown = headers.map_values(|h: Seq<char>| painted(color, "1;36"@, h));
    assert forall|i: int| 0 <= i < headers.len() && i < headers.len() implies has_part(
        all[1],
        #[trigger] headers[i],
    ) by {
        assert(all[1] == row_text(shown, widths, false, color));
        lemma_row_holds_cells(shown, widths, false, color, i);
        lemma_part_of_itself(headers[i]);
        lemma_part_of_painted(color, "1;36"@, headers[i], headers[i]);
        lemma_part_of_part(all[1], shown[i], headers[i]);
    }
}

/// A part of a part is a part.
pub proof fn lemma_part_of_part(s: Seq<char>, mid: Seq<char>, part: Seq<char>)
    requires
        has_part(s, mid),
        has_part(mid, part),
    ensures
        has_part(s, part),
{
    let i = choose|i: int| 0 <= i <= s.len() - mid.len()
        && #[trigger] s.subrange(i, i + mid.len()) == mid;
    let a = s.take(i);
    let b = s.skip(i + mid.len());
    assert(a + mid + b =~= s);
    lemma_part_inside(a, mid, b, part);
}

/// The daily report shows each day in a line that holds the date, the requests, the sessions, and
/// the totals of that day, and it shows the sums in a line below all of them.
pub proof fn law_daily_report_shows_each_day(
    days: Seq<DailyStat>,
    money: Seq<Money>,
    total: Money,
    overview: Seq<Seq<char>>,
    verbose: bool,
    color: bool,
    i: int,
)
    requires
        0 <= i < days.len(),
    ensures
        exists|j: int|
            0 <= j < daily_report(days, money, total, overview, verbose, color).len() && {
                let line = #[trigger] daily_report(days, money, total, overview, verbose, color)[j];
                let t = days[i].tokens;
                &&& has_part(line, days[i].date@)
                &&& has_part(line, decimal(t.events as nat))
                &&& has_part(line, decimal(days[i].sessions.keys().len()))
                &&& has_part(line, tokens_text(t.input_tokens as nat))
                &&& has_part(line, tokens_text(t.cached_read_tokens as nat))
                &&& has_part(line, tokens_text(input_left(t)))
                &&& has_part(line, tokens_text(t.output_tokens as nat))
                &&& has_part(line, tokens_text(t.total_tokens as nat))
                &&& has_part(line, money[i].cost@)
            },
        exists|j: int|
            0 <= j < daily_report(days, money, total, overview, verbose, color).len() && {
                let line = #[trigger] daily_report(days, money, total, overview, verbose, color)[j];
                let n = day_counts(days);
                &&& has_part(line, "TOTAL"@)
                &&& has_part(line, decimal(n.events))
                &&& has_part(line, decimal(ordered(day_sessions(days)).len()))
                &&& has_part(line, tokens_text(n.input))
                &&& has_part(line, tokens_text(n.cached))
                &&& has_part(line, tokens_text(n.output))
                &&& has_part(line, tokens_text(n.total))
                &&& has_part(line, total.cost@)
            },
{
    let h = daily_headers(verbose);
    let t = days[i].tokens;
    let n = day_counts(days);
    let sums = daily_row("TOTAL"@, n, ordered(day_sessions(days)).len(), total, verbose, false);
    let rows = day_rows(days, money, verbose, color).push(sums);
    let lines = daily_report(days, money, total, overview, verbose, color);
    let tab = table(h, rows, color, true);
    let at = 2 + overview.len();
    assert forall|j: int| 0 <= j < tab.len() implies #[trigger] lines[at + j] == tab[j] by {}
    law_columns_of_a_day(days, money, verbose, color, i);
    law_columns_of_the_sums(days, total, verbose);
    law_table_shows_its_rows(h, rows, color, true, i);
    law_table_shows_its_rows(h, rows, color, true, days.len() as int);
    let j = choose|j: int| 3 + i <= j < tab.len() - 1 && holds_cells(#[trigger] tab[j], h, rows[i]);
    let line = lines[at + j];
    assert(line == tab[j]);
    let r = rows[i];
    assert(r == day_rows(days, money, verbose, color)[i]);
    assert(has_part(line, r[0]) && has_part(line, r[1]) && has_part(line, r[2]) && has_part(
        line,
        r[3],
    ) && has_part(line, r[4]) && has_part(line, r[6]) && has_part(line, r[7]) && has_part(
        line,
        r[8],
    ) && has_part(line, r[10]));
    lemma_shown(line, color, "36"@, days[i].date@);
    lemma_shown(line, color, "32"@, tokens_text(t.input_tokens as nat));
    lemma_shown(line, color, "2"@, tokens_text(t.cached_read_tokens as nat));
    lemma_shown(line, color, "33"@, tokens_text(input_left(t)));
    lemma_shown(line, color, "35"@, tokens_text(t.output_tokens as nat));
    lemma_shown(line, color, "1"@, tokens_text(t.total_tokens as nat));
    lemma_shown(line, color, "32"@, money[i].cost@);
    let m = choose|j: int|
        3 + days.len() <= j < tab.len() - 1 && holds_cells(
            #[trigger] tab[j],
            h,
            rows[days.len() as int],
        );
    let last = lines[at + m];
    assert(last == tab[m]);
    assert(rows[days.len() as int] == sums);
    assert(has_part(last, sums[0]) && has_part(last, sums[1]) && has_part(last, sums[2])
        && has_part(last, sums[3]) && has_part(last, sums[4]) && has_part(last, sums[7])
        && has_part(last, sums[8]) && has_part(last, sums[10]));
}

/// A line that holds a text in colour holds the text.
pub proof fn lemma_shown(line: Seq<char>, color: bool, code: Seq<char>, text: Seq<char>)
    requires
        has_part(line, painted(color, code, text)),
    ensures
        has_part(line, text),
{
    lemma_part_of_itself(text);
    lemma_part_of_painted(color, code, text, text);
    lemma_part_of_part(line, painted(color, code, text), text);
}

/// The session report shows the sessions in lines of their own, one below the other in the order
/// that it is given. The line of a session with usage holds the start of its name, its requests,
/// its totals and its peak.
pub proof fn law_session_report_shows_each_session(
    stats: Seq<SessionStat>,
    money: Seq<Money>,
    order: Seq<usize>,
    overview: Seq<Seq<char>>,
    verbose: bool,
    color: bool,
    i: int,
)
    requires
        0 <= i < order.len(),
        order[i] < stats.len(),
    ensures
        ({
            let lines = session_report(stats, money, order, overview, verbose, color);
            let line = lines[overview.len() + 5 + i];
            let s = stats[order[i] as int];
            let t = s.tokens;
            &&& lines.len() > overview.len() + 5 + order.len()
            &&& has_part(line, first_chars(s.session_id@, 10))
            &&& t.events > 0 ==> {
                &&& has_part(line, decimal(t.events as nat))
                &&& has_part(line, tokens_text(t.input_tokens as nat))
                &&& has_part(line, tokens_text(t.cached_read_tokens as nat))
                &&& has_part(line, tokens_text(input_left(t)))
                &&& has_part(line, tokens_text(t.output_tokens as nat))
                &&& has_part(line, tokens_text(t.total_tokens as nat))
                &&& has_part(line, tokens_text(highest(s)))
                &&& has_part(line, money[order[i] as int].cost@)
            }
        }),
{
    let h = session_headers(verbose);
    let s = stats[order[i] as int];
    let m = money[order[i] as int];
    let t = s.tokens;
    let rows = session_rows(stats, money, order, verbose, color);
    let lines = session_report(stats, money, order, overview, verbose, color);
    let tab = table(h, rows, color, false);
    let at = 2 + overview.len();
    assert forall|j: int| 0 <= j < tab.len() implies #[trigger] lines[at + j] == tab[j] by {}
    law_columns_of_a_session(stats, money, order, verbose, color, i);
    law_table_shows_its_rows(h, rows, color, false, i);
    let line = lines[overview.len() + 5 + i];
    assert(line == lines[at + (3 + i)]);
    assert(line == tab[3 + i]);
    let r = rows[i];
    assert(has_part(line, r[0]));
    lemma_shown(line, color, "36"@, first_chars(s.session_id@, 10));
    if t.events > 0 {
        assert(has_part(line, r[1]) && has_part(line, r[2]) && has_part(line, r[3]) && has_part(
            line,
            r[5],
        ) && has_part(line, r[6]) && has_part(line, r[7]) && has_part(line, r[9]) && has_part(
            line,
            r[10],
        ));
        lemma_shown(line, color, "32"@, tokens_text(t.input_tokens as nat));
        lemma_shown(line, color, "2"@, tokens_text(t.cached_read_tokens as nat));
        lemma_shown(line, color, "33"@, tokens_text(input_left(t)));
        lemma_shown(line, color, "35"@, tokens_text(t.output_tokens as nat));
        lemma_shown(line, color, "1"@, tokens_text(t.total_tokens as nat));
        lemma_shown(line, color, "32"@, m.cost@);
        lemma_shown(line, color, "34"@, tokens_text(highest(s)));
    }
}

/// Without colour a text is shown as it is; in colour it stands between the code and the code that
/// ends it. No code is spent on nothing.
pub proof fn law_painted(code: Seq<char>, text: Seq<char>)
    ensures
        painted(false, code, text) == text,
        text.len() == 0 ==> painted(true, code, text).len() == 0,
        text.len() > 0 ==> painted(true, code, text) == "\u{1b}["@ + code + "m"@ + text
            + "\u{1b}[0m"@,
{
}

/// A text is padded with blanks only, in front of it where it stands at the right, else behind it,
/// and never cut.
pub proof fn law_padded(s: Seq<char>, width: nat)
    ensures
        padded(s, width, true).len() == padded(s, width, false).len(),
        padded(s, width, true).skip(padded(s, width, true).len() - s.len()) == s,
        padded(s, width, false).take(s.len() as int) == s,
        forall|i: int|
            0 <= i < padded(s, width, true).len() - s.len() ==> #[trigger] padded(
                s,
                width,
                true,
            )[i] == ' ',
        forall|i: int|
            s.len() <= i < padded(s, width, false).len() ==> #[trigger] padded(s, width, false)[i]
                == ' ',
{
    lemma_blanks(gap(s, width));
    let blanks = copies(" "@, gap(s, width));
    assert(padded(s, width, true) == blanks + s);
    assert(padded(s, width, false) == s + blanks);
    assert((blanks + s).skip(blanks.len() as int) =~= s);
    assert((s + blanks).take(s.len() as int) =~= s);
}

proof fn lemma_blanks(n: nat)
    ensures
        copies(" "@, n).len() == n,
        forall|i: int| 0 <= i < n ==> #[trigger] copies(" "@, n)[i] == ' ',
    decreases n,
{
    reveal_strlit(" ");
    if n > 0 {
        lemma_blanks((n - 1) as nat);
    }
}

/// A column is as wide as its widest cell or its header.
pub proof fn law_column_width(headers: Seq<Seq<char>>, rows: Seq<Seq<Seq<char>>>, i: int)
    requires
        0 <= i < headers.len(),
    ensures
        column_widths(headers, rows)[i] >= without_codes(headers[i]).len(),
        forall|k: int|
            0 <= k < rows.len() && i < (#[trigger] rows[k]).len()
                ==> column_widths(headers, rows)[i]
                >= without_codes(rows[k][i]).len(),
        column_widths(headers, rows)[i] == without_codes(headers[i]).len() || (exists|k: int|
            0 <= k < rows.len() && i < (#[trigger] rows[k]).len() && column_widths(headers, rows)[i]
                == without_codes(rows[k][i]).len()),
    decreases rows.len(),
{
    if rows.len() > 0 {
        let a = rows.drop_last();
        law_column_width(headers, a, i);
        let w = column_widths(headers, rows)[i];
        let v = column_widths(headers, a)[i];
        assert(w == column_width(headers, rows, i));
        assert(v == column_width(headers, a, i));
        assert forall|k: int| 0 <= k < rows.len() && i < (#[trigger] rows[k]).len() implies w
            >= without_codes(rows[k][i]).len() by {
            if k < a.len() {
                assert(a[k] == rows[k]);
            }
        }
        if w == v && w != without_codes(headers[i]).len() {
            let k = choose|k: int|
                0 <= k < a.len() && i < (#[trigger] a[k]).len() && v == without_codes(
                    a[k][i],
                ).len();
            assert(rows[k] == a[k]);
        }
        if w != v {
            assert(w == without_codes(rows[rows.len() - 1][i]).len());
        }
    } else {
        assert(column_widths(headers, rows)[i] == column_width(headers, rows, i));
    }
}

/// Without days, and without sessions, the report says so and shows no table. Else the session
/// report says below the table how many sessions there are and how many of them have usage.
pub proof fn law_ends_of_reports(
    stats: Seq<SessionStat>,
    money: Seq<Money>,
    order: Seq<usize>,
    total: Money,
    overview: Seq<Seq<char>>,
    verbose: bool,
    color: bool,
)
    ensures
        ({
            let d = daily_report(Seq::empty(), money, total, overview, verbose, color);
            d.len() == overview.len() + 3 && has_part(d[d.len() - 1], "No usage events found."@)
        }),
        ({
            let r = session_report(stats, money, order, overview, verbose, color);
            &&& order.len() == 0 ==> r.len() == overview.len() + 3 && has_part(
                r[r.len() - 1],
                "No sessions found."@,
            )
            &&& order.len() > 0 ==> has_part(
                r[(overview.len() + order.len() + 7) as int],
                decimal(order.len()) + " sessions · "@ + decimal(with_usage(stats, order))
                    + " with usage"@,
            )
        }),
{
    let d = daily_report(Seq::empty(), money, total, overview, verbose, color);
    let none = "No usage events found."@;
    assert(d[d.len() - 1] == painted(color, "33"@, none));
    lemma_part_of_itself(painted(color, "33"@, none));
    lemma_shown(d[d.len() - 1], color, "33"@, none);
    let r = session_report(stats, money, order, overview, verbose, color);
    if order.len() == 0 {
        let none = "No sessions found."@;
        assert(r[r.len() - 1] == painted(color, "33"@, none));
        lemma_part_of_itself(painted(color, "33"@, none));
        lemma_shown(r[r.len() - 1], color, "33"@, none);
    } else {
        let h = session_headers(verbose);
        let rows = session_rows(stats, money, order, verbose, color);
        law_table_shows_its_rows(h, rows, color, false, 0);
        let said = decimal(order.len()) + " sessions · "@ + decimal(with_usage(stats, order))
            + " with usage"@;
        let rest = " · NoCache=Fresh+Out · Peak=max input"@;
        let told = decimal(order.len()) + " sessions · "@ + decimal(with_usage(stats, order))
            + " with usage · NoCache=Fresh+Out · Peak=max input"@;
        reveal_strlit(" with usage");
        reveal_strlit(" · NoCache=Fresh+Out · Peak=max input");
        reveal_strlit(" with usage · NoCache=Fresh+Out · Peak=max input");
        assert(" with usage · NoCache=Fresh+Out · Peak=max input"@ =~= " with usage"@ + rest);
        let line = r[(overview.len() + order.len() + 7) as int];
        assert(line == painted(color, "2"@, told));
        lemma_part_of_itself(said);
        lemma_part_inside(Seq::empty(), said, rest, said);
        assert(Seq::<char>::empty() + said + rest =~= told);
        lemma_part_of_painted(color, "2"@, told, said);
    }
}

/// The input that is left and the output of a bucket can be added where their sum fits a word.
pub proof fn law_what_can_be_added(t: TokenBucket)
    ensures
        t.adds_up() <==> input_left(t) + t.output_tokens <= 0xffff_ffff_ffff_ffff,
        t.fresh() == input_left(t),
{
}

/// The sum over some days of what `f` finds in their totals grows with each day by what `f` finds
/// in it.
pub proof fn law_sum_over_days(
    days: Seq<DailyStat>,
    d: DailyStat,
    f: spec_fn(TokenBucket) -> nat,
)
    ensures
        days_sum(Seq::empty(), f) == 0,
        days_sum(days.push(d), f) == days_sum(days, f) + f(d.tokens),
{
    assert(days.push(d).drop_last() =~= days);
}

/// A session report is made if and only if the input that is left and the output can be added for
/// each session that is listed and has usage.
pub proof fn law_sessions_that_can_be_shown(stats: Seq<SessionStat>, order: Seq<usize>)
    ensures
        sessions_add_up(stats, order) <==> forall|i: int|
            #![trigger order[i]]
            0 <= i < order.len() && stats[order[i] as int].tokens.events > 0 ==> input_left(
                stats[order[i] as int].tokens,
            ) + stats[order[i] as int].tokens.output_tokens <= 0xffff_ffff_ffff_ffff,
{
}

/// A daily report is made if and only if every sum over the days fits a word, and so does the input
/// that is left together with the output, of each day and of all days.
pub proof fn law_days_that_can_be_shown(days: Seq<DailyStat>)
    ensures
        days_add_up(days) <==> {
            let n = day_counts(days);
            let most = 0xffff_ffff_ffff_ffffint;
            &&& forall|i: int|
                0 <= i < days.len() ==> input_left((#[trigger] days[i]).tokens)
                    + days[i].tokens.output_tokens <= most
            &&& n.input <= most && n.cached <= most && n.output <= most && n.total <= most
                && n.events <= most
            &&& days_sum(days, |b: TokenBucket| b.reasoning_tokens as nat) <= most
            &&& days_sum(days, |b: TokenBucket| b.cost_usd_ticks as nat) <= most
            &&& days_sum(days, |b: TokenBucket| b.model_calls as nat) <= most
            &&& n.cached <= n.input ==> n.input - n.cached + n.output <= most
        },
{
    assert(days_add_up(days) ==> forall|i: int|
        0 <= i < days.len() ==> (#[trigger] days[i]).tokens.adds_up());
    if forall|i: int|
        0 <= i < days.len() ==> input_left((#[trigger] days[i]).tokens)
            + days[i].tokens.output_tokens <= 0xffff_ffff_ffff_ffff {
        assert forall|i: int| 0 <= i < days.len() implies (
        #[trigger] days[i]).tokens.adds_up() by {
            assert(input_left(days[i].tokens) + days[i].tokens.output_tokens
                <= 0xffff_ffff_ffff_ffff);
        }
    }
}

} // verus!
