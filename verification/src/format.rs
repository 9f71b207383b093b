//! Colours, padding, token counts and tables.
use crate::double::{scaled, scaled_text};
use crate::text::{
    ascii_lower_text, chars_of, concat2, concat3, copies, decimal, decimal_text, join, joined,
    lemma_back_is, lower, owned, push_line, repeat, same_text, string_of, texts, trim, trimmed,
    without_back,
};
use vstd::prelude::*;

verus! {

/// The character that a colour code starts with.
pub const ESC: char = '\u{1b}';

/// The pattern of a colour code.
pub open spec fn code_pattern() -> Seq<char> {
    "\\x1b\\[[0-9;]*m"@
}

/// A character between the front and the end of a colour code.
pub open spec fn code_char(c: char) -> bool {
    '0' <= c <= '9' || c == ';'
}

/// What is left of `s` behind the characters at its front that may stand in a colour code.
pub open spec fn behind_code_chars(s: Seq<char>) -> Seq<char>
    decreases s.len(),
{
    if s.len() > 0 && code_char(s[0]) {
        behind_code_chars(s.skip(1))
    } else {
        s
    }
}

/// `s` starts with a colour code: an escape, a bracket, digits and semicolons, and an `m`.
pub open spec fn starts_code(s: Seq<char>) -> bool {
    &&& s.len() >= 2
    &&& s[0] == ESC
    &&& s[1] == '['
    &&& behind_code_chars(s.skip(2)).len() > 0
    &&& behind_code_chars(s.skip(2))[0] == 'm'
}

/// What stands in `s` behind the colour code that it starts with.
pub open spec fn behind_code(s: Seq<char>) -> Seq<char> {
    behind_code_chars(s.skip(2)).skip(1)
}

proof fn lemma_behind_code_chars(s: Seq<char>)
    ensures
        behind_code_chars(s).len() <= s.len(),
    decreases s.len(),
{
    if s.len() > 0 && code_char(s[0]) {
        lemma_behind_code_chars(s.skip(1));
    }
}

/// `s` without its colour codes.
pub open spec fn without_codes(s: Seq<char>) -> Seq<char>
    decreases s.len(),
    via without_codes_decreases
{
    if s.len() == 0 {
        Seq::empty()
    } else if starts_code(s) {
        without_codes(behind_code(s))
    } else {
        seq![s[0]] + without_codes(s.skip(1))
    }
}

#[via_fn]
proof fn without_codes_decreases(s: Seq<char>) {
    if s.len() >= 2 {
        lemma_behind_code_chars(s.skip(2));
    }
}

/// `regex`: `Regex::new` and `Regex::replace_all` with an empty replacement. Every colour code is
/// taken out, from the left, and all else stays.
#[verifier::external_body]
fn replace_codes(text: &str, pattern: &str, with: &str) -> (r: String)
    requires
        pattern@ == code_pattern(),
        with@ == ""@,
    ensures
        r@ == without_codes(text@),
{
    regex::Regex::new(pattern).unwrap().replace_all(text, with).into_owned()
}

/// `s` without its colour codes.
pub fn plain(s: &str) -> (r: String)
    ensures
        r@ == without_codes(s@),
{
    replace_codes(s, "\\x1b\\[[0-9;]*m", "")
}

/// `text` in the colour `code`, where colours are on and there is any text.
pub open spec fn painted(on: bool, code: Seq<char>, text: Seq<char>) -> Seq<char> {
    if !on || text.len() == 0 {
        text
    } else {
        "\u{1b}["@ + code + "m"@ + text + "\u{1b}[0m"@
    }
}

/// `text` in the colour `code`, where colours are on and there is any text.
pub fn c(enabled: bool, code: &str, text: &str) -> (r: String)
    ensures
        r@ == painted(enabled, code@, text@),
{
    if !enabled || text.is_empty() {
        return owned(text);
    }
    let mut out = concat3("\u{1b}[", code, "m");
    out.append(text);
    out.append("\u{1b}[0m");
    out
}

/// The number of characters of `s` that are seen.
pub fn visible_len(s: &str) -> (r: usize)
    ensures
        r == without_codes(s@).len(),
{
    chars_of(plain(s).as_str()).len()
}

/// `s` without zeros at its end, and then without a point there.
pub open spec fn short(s: Seq<char>) -> Seq<char> {
    without_back(without_back(s, |c: char| c == '0'), |c: char| c == '.')
}

fn shortened(s: &str) -> (r: String)
    ensures
        r@ == short(s@),
{
    let v = chars_of(s);
    let mut to: usize = v.len();
    while to > 0 && v[to - 1] == '0'
        invariant
            to <= v.len(),
            forall|j: int| to <= j < v.len() ==> #[trigger] v@[j] == '0',
        decreases to,
    {
        to = to - 1;
    }
    proof {
        lemma_back_is(v@, |c: char| c == '0', to as int);
    }
    let ghost mid = v@.take(to as int);
    let mut end: usize = to;
    while end > 0 && v[end - 1] == '.'
        invariant
            end <= to <= v.len(),
            forall|j: int| end <= j < to ==> #[trigger] v@[j] == '.',
        decreases end,
    {
        end = end - 1;
    }
    proof {
        assert forall|j: int| end <= j < mid.len() implies (|c: char| c == '.')(
            #[trigger] mid[j],
        ) by {
            assert(v@[j] == '.');
        }
        lemma_back_is(mid, |c: char| c == '.', end as int);
        assert(v@.subrange(0, end as int) =~= mid.take(end as int));
    }
    string_of(&v, 0, end)
}

/// A count of tokens as it is shown: as it is below a thousand, else in thousands, millions or
/// billions.
pub open spec fn tokens_text(n: nat) -> Seq<char> {
    if n < 1_000 {
        decimal(n)
    } else if n < 1_000_000 {
        short(scaled(n, 1_000, 1)) + "K"@
    } else if n < 1_000_000_000 {
        short(scaled(n, 1_000_000, 2)) + "M"@
    } else {
        short(scaled(n, 1_000_000_000, 2)) + "B"@
    }
}

/// A count of tokens as it is shown: as it is below a thousand, else in thousands, millions or
/// billions.
pub fn fmt_tokens(n: u64) -> (r: String)
    ensures
        r@ == tokens_text(n as nat),
{
    if n < 1_000 {
        return decimal_text(n as u128);
    }
    if n < 1_000_000 {
        let s = scaled_text(n, 1_000, false);
        return concat2(shortened(s.as_str()).as_str(), "K");
    }
    if n < 1_000_000_000 {
        let s = scaled_text(n, 1_000_000, true);
        return concat2(shortened(s.as_str()).as_str(), "M");
    }
    let s = scaled_text(n, 1_000_000_000, true);
    concat2(shortened(s.as_str()).as_str(), "B")
}

/// How many blanks bring `s` to `width`.
pub open spec fn gap(s: Seq<char>, width: nat) -> nat {
    if width > without_codes(s).len() {
        (width - without_codes(s).len()) as nat
    } else {
        0
    }
}

/// `s` with blanks up to the width `width`: in front of it where `right` is set, else behind it.
pub open spec fn padded(s: Seq<char>, width: nat, right: bool) -> Seq<char> {
    if right {
        copies(" "@, gap(s, width)) + s
    } else {
        s + copies(" "@, gap(s, width))
    }
}

/// `s` with blanks up to the width `width`: in front of it where `right` is set, else behind it.
pub fn pad(s: &str, width: usize, right: bool) -> (r: String)
    ensures
        r@ == padded(s@, width as nat, right),
{
    let seen: usize = visible_len(s);
    let blanks = repeat(" ", width.saturating_sub(seen));
    if right {
        concat2(blanks.as_str(), s)
    } else {
        concat2(s, blanks.as_str())
    }
}

/// The texts of the rows of a table.
pub open spec fn grid(rows: Seq<Vec<String>>) -> Seq<Seq<Seq<char>>> {
    Seq::new(rows.len(), |i: int| texts(rows[i]@))
}

/// The width of column `i`: that of its widest cell that is seen.
pub open spec fn column_width(
    headers: Seq<Seq<char>>,
    rows: Seq<Seq<Seq<char>>>,
    i: int,
) -> nat
    decreases rows.len(),
{
    if rows.len() == 0 {
        without_codes(headers[i]).len()
    } else {
        let above = column_width(headers, rows.drop_last(), i);
        if i < rows.last().len() && without_codes(rows.last()[i]).len() > above {
            without_codes(rows.last()[i]).len()
        } else {
            above
        }
    }
}

/// The widths of the columns.
pub open spec fn column_widths(headers: Seq<Seq<char>>, rows: Seq<Seq<Seq<char>>>) -> Seq<nat> {
    Seq::new(headers.len(), |i: int| column_width(headers, rows, i))
}

/// A line between rows.
pub open spec fn rule_text(
    widths: Seq<nat>,
    left: Seq<char>,
    mid: Seq<char>,
    right: Seq<char>,
    color: bool,
) -> Seq<char> {
    painted(
        color,
        "2"@,
        left + joined(Seq::new(widths.len(), |i: int| copies("─"@, widths[i] + 2)), mid) + right,
    )
}

/// A cell of a row: in bold where the row is emphasised, with a blank at either side. The first
/// column stands to the left, the others to the right.
pub open spec fn cell_text(
    cells: Seq<Seq<char>>,
    widths: Seq<nat>,
    i: int,
    bold: bool,
    color: bool,
) -> Seq<char> {
    let cell = if i < cells.len() {
        cells[i]
    } else {
        Seq::empty()
    };
    let p = padded(cell, widths[i], i > 0);
    " "@ + (if bold {
        painted(color, "1"@, p)
    } else {
        p
    }) + " "@
}

/// A row of a table.
pub open spec fn row_text(
    cells: Seq<Seq<char>>,
    widths: Seq<nat>,
    bold: bool,
    color: bool,
) -> Seq<char> {
    let bar = painted(color, "2"@, "│"@);
    bar + joined(
        Seq::new(widths.len(), |i: int| cell_text(cells, widths, i, bold, color)),
        bar,
    ) + bar
}

/// The row of the totals: its first cell reads `total`, in either case.
pub open spec fn is_total(row: Seq<Seq<char>>) -> bool {
    row.len() > 0 && lower(trimmed(without_codes(row[0]))) == "total"@
}

/// The line under the headers, and that over the totals.
pub open spec fn inner_rule(widths: Seq<nat>, color: bool) -> Seq<char> {
    rule_text(widths, "├"@, "┼"@, "┤"@, color)
}

/// The rows of a table; the totals are emphasised, with a line over them.
pub open spec fn body_lines(
    rows: Seq<Seq<Seq<char>>>,
    widths: Seq<nat>,
    color: bool,
    total_row: bool,
) -> Seq<Seq<char>>
    decreases rows.len(),
{
    if rows.len() == 0 {
        Seq::empty()
    } else {
        let above = body_lines(rows.drop_last(), widths, color, total_row);
        if total_row && is_total(rows.last()) {
            above.push(inner_rule(widths, color)).push(
                row_text(rows.last(), widths, true, color),
            )
        } else {
            above.push(row_text(rows.last(), widths, false, color))
        }
    }
}

/// The lines of a table.
pub open spec fn table(
    headers: Seq<Seq<char>>,
    rows: Seq<Seq<Seq<char>>>,
    color: bool,
    total_row: bool,
) -> Seq<Seq<char>> {
    if headers.len() == 0 {
        Seq::empty()
    } else {
        let widths = column_widths(headers, rows);
        seq![
            rule_text(widths, "╭"@, "┬"@, "╮"@, color),
            row_text(
                headers.map_values(|h: Seq<char>| painted(color, "1;36"@, h)),
                widths,
                false,
                color,
            ),
            inner_rule(widths, color),
        ] + body_lines(rows, widths, color, total_row) + seq![
            rule_text(widths, "╰"@, "┴"@, "╯"@, color),
        ]
    }
}

/// Widths as numbers.
pub open spec fn numbers(v: Seq<usize>) -> Seq<nat> {
    Seq::new(v.len(), |i: int| v[i] as nat)
}

fn widths_of(headers: &Vec<String>, rows: &Vec<Vec<String>>) -> (r: Vec<usize>)
    ensures
        numbers(r@) == column_widths(texts(headers@), grid(rows@)),
{
    let ghost h = texts(headers@);
    let ghost g = grid(rows@);
    let mut widths: Vec<usize> = Vec::new();
    for i in 0..headers.len()
        invariant
            h == texts(headers@),
            widths.len() == i,
            forall|j: int| 0 <= j < i ==> #[trigger] widths@[j] == without_codes(h[j]).len(),
    {
        widths.push(visible_len(headers[i].as_str()));
    }
    for k in 0..rows.len()
        invariant
            h == texts(headers@),
            g == grid(rows@),
            widths.len() == h.len(),
            forall|j: int|
                0 <= j < h.len() ==> #[trigger] widths@[j] == column_width(
                    h,
                    g.take(k as int),
                    j,
                ),
    {
        let row = &rows[k];
        let ghost above = g.take(k as int);
        let ghost now = g.take(k as int + 1);
        proof {
            assert(now.drop_last() =~= above);
            assert(now.last() == texts(row@));
        }
        let n: usize = headers.len();
        for i in 0..n
            invariant
                h == texts(headers@),
                n == h.len(),
                widths.len() == h.len(),
                above == now.drop_last(),
                now.len() > 0,
                now.last() == texts(row@),
                forall|j: int|
                    0 <= j < i ==> #[trigger] widths@[j] == column_width(h, now, j),
                forall|j: int|
                    i <= j < h.len() ==> #[trigger] widths@[j] == column_width(h, above, j),
        {
            if i < row.len() {
                let seen: usize = visible_len(row[i].as_str());
                assert(now.last()[i as int] == row@[i as int]@);
                if seen > widths[i] {
                    widths.set(i, seen);
                }
            }
        }
    }
    assert(g.take(rows@.len() as int) =~= g);
    assert(numbers(widths@) =~= column_widths(h, g));
    widths
}

fn rule_line(widths: &Vec<usize>, left: &str, mid: &str, right: &str, color: bool) -> (r: String)
    ensures
        r@ == rule_text(numbers(widths@), left@, mid@, right@, color),
{
    let ghost all = Seq::new(
        widths@.len(),
        |i: int| copies("─"@, numbers(widths@)[i] + 2),
    );
    let mut parts: Vec<String> = Vec::new();
    for i in 0..widths.len()
        invariant
            all == Seq::new(widths@.len(), |i: int| copies("─"@, numbers(widths@)[i] + 2)),
            texts(parts@) == all.take(i as int),
    {
        let mut part = repeat("─", widths[i]);
        part.append("─");
        part.append("─");
        proof {
            reveal_with_fuel(copies, 3);
            assert(part@ =~= all[i as int]);
        }
        push_line(&mut parts, part);
        assert(texts(parts@) =~= all.take(i as int + 1));
    }
    assert(texts(parts@) =~= all);
    let line = concat3(left, join(&parts, mid).as_str(), right);
    c(color, "2", line.as_str())
}

fn row_line(cells: &Vec<String>, widths: &Vec<usize>, bold: bool, color: bool) -> (r: String)
    ensures
        r@ == row_text(texts(cells@), numbers(widths@), bold, color),
{
    let ghost cs = texts(cells@);
    let ghost ws = numbers(widths@);
    let ghost all = Seq::new(ws.len(), |i: int| cell_text(cs, ws, i, bold, color));
    let mut parts: Vec<String> = Vec::new();
    for i in 0..widths.len()
        invariant
            cs == texts(cells@),
            ws == numbers(widths@),
            all == Seq::new(ws.len(), |i: int| cell_text(cs, ws, i, bold, color)),
            texts(parts@) == all.take(i as int),
    {
        let cell = if i < cells.len() {
            cells[i].as_str()
        } else {
            ""
        };
        proof {
            reveal_strlit("");
            assert(i >= cells.len() ==> cell@ =~= Seq::<char>::empty());
        }
        let mut p = pad(cell, widths[i], i > 0);
        if bold {
            p = c(color, "1", p.as_str());
        }
        let part = concat3(" ", p.as_str(), " ");
        push_line(&mut parts, part);
        assert(texts(parts@) =~= all.take(i as int + 1));
    }
    assert(texts(parts@) =~= all);
    let bar = c(color, "2", "│");
    concat3(bar.as_str(), join(&parts, bar.as_str()).as_str(), bar.as_str())
}

fn is_total_row(row: &Vec<String>) -> (r: bool)
    ensures
        r == is_total(texts(row@)),
{
    if row.len() == 0 {
        return false;
    }
    let first = plain(row[0].as_str());
    same_text(ascii_lower_text(trim(first.as_str()).as_str()).as_str(), "total")
}

/// The lines of a table: a box with the headers, the rows and, where `total_row` is set, a line
/// over the totals.
pub fn table_lines(
    headers: &Vec<String>,
    rows: &Vec<Vec<String>>,
    color: bool,
    total_row: bool,
) -> (r: Vec<String>)
    ensures
        texts(r@) == table(texts(headers@), grid(rows@), color, total_row),
{
    let mut out: Vec<String> = Vec::new();
    if headers.len() == 0 {
        assert(texts(out@) =~= Seq::<Seq<char>>::empty());
        return out;
    }
    let ghost h = texts(headers@);
    let ghost g = grid(rows@);
    let widths = widths_of(headers, rows);
    let ghost ws = column_widths(h, g);
    let ghost shown = h.map_values(|h: Seq<char>| painted(color, "1;36"@, h));
    let mut heads: Vec<String> = Vec::new();
    for i in 0..headers.len()
        invariant
            h == texts(headers@),
            shown == h.map_values(|h: Seq<char>| painted(color, "1;36"@, h)),
            texts(heads@) == shown.take(i as int),
    {
        push_line(&mut heads, c(color, "1;36", headers[i].as_str()));
        assert(texts(heads@) =~= shown.take(i as int + 1));
    }
    assert(texts(heads@) =~= shown);
    push_line(&mut out, rule_line(&widths, "╭", "┬", "╮", color));
    push_line(&mut out, row_line(&heads, &widths, false, color));
    push_line(&mut out, rule_line(&widths, "├", "┼", "┤", color));
    let ghost top = texts(out@);
    assert(top + body_lines(g.take(0), ws, color, total_row) =~= top);
    for k in 0..rows.len()
        invariant
            g == grid(rows@),
            ws == numbers(widths@),
            texts(out@) == top + body_lines(g.take(k as int), ws, color, total_row),
    {
        let ghost now = g.take(k as int + 1);
        proof {
            assert(now.drop_last() =~= g.take(k as int));
            assert(now.last() == texts(rows@[k as int]@));
        }
        let total = total_row && is_total_row(&rows[k]);
        if total {
            push_line(&mut out, rule_line(&widths, "├", "┼", "┤", color));
        }
        push_line(&mut out, row_line(&rows[k], &widths, total, color));
        assert(texts(out@) =~= top + body_lines(now, ws, color, total_row));
    }
    assert(g.take(rows@.len() as int) =~= g);
    push_line(&mut out, rule_line(&widths, "╰", "┴", "╯", color));
    assert(texts(out@) =~= table(h, g, color, total_row));
    out
}

/// A character that can stand in a colour code behind its first one.
pub open spec fn continues_code(c: char) -> bool {
    c == '[' || code_char(c) || c == 'm'
}

/// No colour code that starts in front of `b` can reach into it.
pub open spec fn breaks_code(b: Seq<char>) -> bool {
    b.len() == 0 || !continues_code(b[0])
}

proof fn lemma_code_chars_concat(a: Seq<char>, b: Seq<char>)
    requires
        breaks_code(b),
    ensures
        behind_code_chars(a + b) == behind_code_chars(a) + b,
    decreases a.len(),
{
    if a.len() == 0 {
        assert(a + b =~= b);
        assert(behind_code_chars(a) + b =~= b);
    } else if code_char(a[0]) {
        assert((a + b).skip(1) =~= a.skip(1) + b);
        lemma_code_chars_concat(a.skip(1), b);
    }
}

proof fn lemma_codes_concat(a: Seq<char>, b: Seq<char>)
    requires
        breaks_code(b),
    ensures
        without_codes(a + b) == without_codes(a) + without_codes(b),
    decreases a.len(),
{
    let ab = a + b;
    if a.len() == 0 {
        assert(ab =~= b);
        assert(without_codes(a) + without_codes(b) =~= without_codes(b));
    } else {
        if a.len() >= 2 {
            assert(ab.skip(2) =~= a.skip(2) + b);
            lemma_code_chars_concat(a.skip(2), b);
            lemma_behind_code_chars(a.skip(2));
        }
        assert(starts_code(ab) == starts_code(a));
        if starts_code(a) {
            assert(behind_code(ab) =~= behind_code(a) + b);
            lemma_codes_concat(behind_code(a), b);
        } else {
            assert(ab.skip(1) =~= a.skip(1) + b);
            lemma_codes_concat(a.skip(1), b);
            assert(without_codes(ab) =~= without_codes(a) + without_codes(b));
        }
    }
}

/// No character of `s` is an escape.
pub open spec fn no_escape(s: Seq<char>) -> bool {
    forall|i: int| 0 <= i < s.len() ==> #[trigger] s[i] != ESC
}

proof fn lemma_no_escape(s: Seq<char>)
    requires
        no_escape(s),
    ensures
        without_codes(s) == s,
    decreases s.len(),
{
    if s.len() > 0 {
        assert(s[0] != ESC);
        assert forall|i: int| 0 <= i < s.skip(1).len() implies #[trigger] s.skip(1)[i] != ESC by {
            assert(s[i + 1] != ESC);
        }
        lemma_no_escape(s.skip(1));
        assert(seq![s[0]] + s.skip(1) =~= s);
    } else {
        assert(s =~= Seq::<char>::empty());
    }
}

/// What may stand between the front and the end of a colour code.
pub open spec fn is_code(code: Seq<char>) -> bool {
    forall|i: int| 0 <= i < code.len() ==> code_char(#[trigger] code[i])
}

proof fn lemma_code_run(code: Seq<char>, rest: Seq<char>)
    requires
        is_code(code),
        rest.len() > 0,
        !code_char(rest[0]),
    ensures
        behind_code_chars(code + rest) == rest,
    decreases code.len(),
{
    let s = code + rest;
    if code.len() == 0 {
        assert(s =~= rest);
    } else {
        assert(code_char(code[0]));
        assert(s.skip(1) =~= code.skip(1) + rest);
        assert forall|i: int| 0 <= i < code.skip(1).len() implies code_char(
            #[trigger] code.skip(1)[i],
        ) by {
            assert(code_char(code[i + 1]));
        }
        lemma_code_run(code.skip(1), rest);
    }
}

proof fn lemma_code_front(code: Seq<char>, rest: Seq<char>)
    requires
        is_code(code),
    ensures
        without_codes(seq![ESC, '['] + code + seq!['m'] + rest) == without_codes(rest),
{
    let s = seq![ESC, '['] + code + seq!['m'] + rest;
    assert(s.skip(2) =~= code + (seq!['m'] + rest));
    lemma_code_run(code, seq!['m'] + rest);
    assert((seq!['m'] + rest).skip(1) =~= rest);
    assert(starts_code(s));
}

/// A colour changes nothing of what is seen.
pub proof fn law_colour_is_unseen(on: bool, code: Seq<char>, text: Seq<char>)
    requires
        is_code(code),
    ensures
        without_codes(painted(on, code, text)) == without_codes(text),
{
    if on && text.len() > 0 {
        reveal_strlit("\u{1b}[");
        reveal_strlit("m");
        reveal_strlit("\u{1b}[0m");
        let end = seq![ESC, '[', '0', 'm'];
        assert("\u{1b}["@ =~= seq![ESC, '[']);
        assert("m"@ =~= seq!['m']);
        assert("\u{1b}[0m"@ =~= end);
        assert(painted(on, code, text) =~= seq![ESC, '['] + code + seq!['m'] + (text + end));
        lemma_code_front(code, text + end);
        lemma_codes_concat(text, end);
        lemma_code_front(seq!['0'], Seq::empty());
        assert(seq![ESC, '['] + seq!['0'] + seq!['m'] + Seq::<char>::empty() =~= end);
        assert(without_codes(text) + Seq::<char>::empty() =~= without_codes(text));
    }
}

proof fn lemma_copies(s: Seq<char>, n: nat)
    requires
        s.len() == 1,
    ensures
        copies(s, n).len() == n,
        forall|i: int| 0 <= i < n ==> #[trigger] copies(s, n)[i] == s[0],
    decreases n,
{
    if n > 0 {
        lemma_copies(s, (n - 1) as nat);
    }
}

/// A padded text is as wide as asked, where it was not wider.
pub proof fn law_padded_width(s: Seq<char>, width: nat, right: bool)
    ensures
        without_codes(padded(s, width, right)).len() == (if without_codes(s).len() < width {
            width
        } else {
            without_codes(s).len()
        }),
{
    let n = gap(s, width);
    let blanks = copies(" "@, n);
    reveal_strlit(" ");
    lemma_copies(" "@, n);
    lemma_no_escape(blanks);
    if right {
        lemma_plain_front(blanks, s);
    } else {
        lemma_codes_concat(s, blanks);
    }
}

/// Text without escapes in front of `s` stays as it is.
proof fn lemma_plain_front(front: Seq<char>, s: Seq<char>)
    requires
        no_escape(front),
    ensures
        without_codes(front + s) == front + without_codes(s),
    decreases front.len(),
{
    if front.len() == 0 {
        assert(front + s =~= s);
        assert(front + without_codes(s) =~= without_codes(s));
    } else {
        assert(front[0] != ESC);
        assert((front + s).skip(1) =~= front.skip(1) + s);
        assert forall|i: int| 0 <= i < front.skip(1).len() implies #[trigger] front.skip(1)[i]
            != ESC by {
            assert(front[i + 1] != ESC);
        }
        lemma_plain_front(front.skip(1), s);
        assert(without_codes(front + s) =~= front + without_codes(s));
    }
}

/// The sum of the widths, each with `extra` more.
pub open spec fn width_sum(widths: Seq<nat>, extra: nat) -> nat
    decreases widths.len(),
{
    if widths.len() == 0 {
        0
    } else {
        width_sum(widths.drop_last(), extra) + widths.last() + extra
    }
}

/// The width of a table: each column with a blank at either side and a bar behind it, and a bar in
/// front of all.
pub open spec fn table_width(widths: Seq<nat>) -> nat {
    1 + width_sum(widths, 3)
}

proof fn lemma_joined_width(parts: Seq<Seq<char>>, sep: Seq<char>, widths: Seq<nat>)
    requires
        parts.len() == widths.len(),
        parts.len() > 0,
        breaks_code(sep),
        without_codes(sep).len() == 1,
        forall|i: int| 0 <= i < parts.len() ==> breaks_code(#[trigger] parts[i]),
        forall|i: int|
            0 <= i < parts.len() ==> without_codes(#[trigger] parts[i]).len() == widths[i] + 2,
    ensures
        without_codes(joined(parts, sep)).len() + 1 == width_sum(widths, 3),
    decreases parts.len(),
{
    let a = parts.drop_last();
    let w = widths.drop_last();
    if parts.len() == 1 {
        assert(without_codes(parts[0]).len() == widths[0] + 2);
        assert(width_sum(w, 3) == 0);
    } else {
        assert forall|i: int| 0 <= i < a.len() implies breaks_code(#[trigger] a[i])
            && without_codes(a[i]).len() == w[i] + 2 by {
            assert(breaks_code(parts[i]));
            assert(without_codes(parts[i]).len() == widths[i] + 2);
        }
        lemma_joined_width(a, sep, w);
        assert(breaks_code(parts[parts.len() - 1]));
        assert(without_codes(parts[parts.len() - 1]).len() == widths[parts.len() - 1] + 2);
        lemma_codes_concat(joined(a, sep), sep);
        lemma_codes_concat(joined(a, sep) + sep, parts.last());
    }
}

proof fn lemma_joined_front(parts: Seq<Seq<char>>, sep: Seq<char>)
    requires
        parts.len() > 0,
        parts[0].len() > 0,
    ensures
        joined(parts, sep).len() > 0,
        joined(parts, sep)[0] == parts[0][0],
    decreases parts.len(),
{
    if parts.len() > 1 {
        lemma_joined_front(parts.drop_last(), sep);
    }
}

proof fn lemma_codes()
    ensures
        is_code("1"@),
        is_code("2"@),
        is_code("1;36"@),
{
    reveal_strlit("1");
    reveal_strlit("2");
    reveal_strlit("1;36");
}

proof fn lemma_bar(color: bool)
    ensures
        breaks_code(painted(color, "2"@, "│"@)),
        without_codes(painted(color, "2"@, "│"@)).len() == 1,
{
    lemma_codes();
    law_colour_is_unseen(color, "2"@, "│"@);
    reveal_strlit("│");
    reveal_strlit("\u{1b}[");
    lemma_no_escape("│"@);
}

proof fn lemma_cell_width(
    cells: Seq<Seq<char>>,
    widths: Seq<nat>,
    i: int,
    bold: bool,
    color: bool,
)
    requires
        0 <= i < widths.len(),
        i < cells.len() ==> without_codes(cells[i]).len() <= widths[i],
    ensures
        breaks_code(cell_text(cells, widths, i, bold, color)),
        cell_text(cells, widths, i, bold, color).len() > 0,
        without_codes(cell_text(cells, widths, i, bold, color)).len() == widths[i] + 2,
{
    let cell = if i < cells.len() {
        cells[i]
    } else {
        Seq::empty()
    };
    let p = padded(cell, widths[i], i > 0);
    let shown = if bold {
        painted(color, "1"@, p)
    } else {
        p
    };
    reveal_strlit(" ");
    lemma_codes();
    law_padded_width(cell, widths[i], i > 0);
    law_colour_is_unseen(color, "1"@, p);
    lemma_no_escape(" "@);
    lemma_plain_front(" "@, shown);
    lemma_codes_concat(" "@ + shown, " "@);
}

/// A row in which no cell is wider than its column is as wide as the table.
proof fn lemma_row_width(cells: Seq<Seq<char>>, widths: Seq<nat>, bold: bool, color: bool)
    requires
        widths.len() > 0,
        forall|i: int|
            0 <= i < widths.len() && i < cells.len() ==> without_codes(#[trigger] cells[i]).len()
                <= widths[i],
    ensures
        without_codes(row_text(cells, widths, bold, color)).len() == table_width(widths),
{
    let bar = painted(color, "2"@, "│"@);
    let parts = Seq::new(widths.len(), |i: int| cell_text(cells, widths, i, bold, color));
    assert forall|i: int| 0 <= i < parts.len() implies breaks_code(#[trigger] parts[i])
        && without_codes(parts[i]).len() == widths[i] + 2 && parts[i].len() > 0 by {
        if i < cells.len() {
            assert(without_codes(cells[i]).len() <= widths[i]);
        }
        lemma_cell_width(cells, widths, i, bold, color);
    }
    lemma_bar(color);
    lemma_joined_width(parts, bar, widths);
    assert(breaks_code(parts[0]) && parts[0].len() > 0);
    lemma_joined_front(parts, bar);
    lemma_codes_concat(bar, joined(parts, bar));
    lemma_codes_concat(bar + joined(parts, bar), bar);
}

proof fn lemma_rule_width(
    widths: Seq<nat>,
    left: Seq<char>,
    mid: Seq<char>,
    right: Seq<char>,
    color: bool,
)
    requires
        widths.len() > 0,
        left.len() == 1,
        mid.len() == 1,
        right.len() == 1,
        no_escape(left),
        no_escape(mid),
        no_escape(right),
        breaks_code(mid),
        breaks_code(right),
    ensures
        without_codes(rule_text(widths, left, mid, right, color)).len() == table_width(widths),
{
    let parts = Seq::new(widths.len(), |i: int| copies("─"@, widths[i] + 2));
    reveal_strlit("─");
    assert forall|i: int| 0 <= i < parts.len() implies breaks_code(#[trigger] parts[i])
        && without_codes(parts[i]).len() == widths[i] + 2 && parts[i].len() > 0 by {
        lemma_copies("─"@, widths[i] + 2);
        lemma_no_escape(parts[i]);
        assert(parts[i][0] == "─"@[0]);
    }
    lemma_no_escape(mid);
    lemma_joined_width(parts, mid, widths);
    lemma_no_escape(right);
    let line = left + joined(parts, mid);
    lemma_plain_front(left, joined(parts, mid));
    lemma_codes_concat(line, right);
    lemma_codes();
    law_colour_is_unseen(color, "2"@, line + right);
}

proof fn lemma_column_width(headers: Seq<Seq<char>>, rows: Seq<Seq<Seq<char>>>, i: int)
    requires
        0 <= i < headers.len(),
    ensures
        without_codes(headers[i]).len() <= column_width(headers, rows, i),
        forall|k: int|
            0 <= k < rows.len() && i < (#[trigger] rows[k]).len() ==> without_codes(
                rows[k][i],
            ).len() <= column_width(headers, rows, i),
    decreases rows.len(),
{
    if rows.len() > 0 {
        lemma_column_width(headers, rows.drop_last(), i);
        assert forall|k: int| 0 <= k < rows.len() && i < (
        #[trigger] rows[k]).len() implies without_codes(rows[k][i]).len() <= column_width(
            headers,
            rows,
            i,
        ) by {
            if k < rows.len() - 1 {
                assert(rows.drop_last()[k] == rows[k]);
            }
        }
    }
}

proof fn lemma_body_width(
    rows: Seq<Seq<Seq<char>>>,
    widths: Seq<nat>,
    color: bool,
    total_row: bool,
)
    requires
        widths.len() > 0,
        forall|k: int, i: int|
            0 <= k < rows.len() && 0 <= i < widths.len() && i < rows[k].len() ==> without_codes(
                #[trigger] rows[k][i],
            ).len() <= widths[i],
        without_codes(inner_rule(widths, color)).len() == table_width(widths),
    ensures
        forall|j: int|
            0 <= j < body_lines(rows, widths, color, total_row).len() ==> without_codes(
                #[trigger] body_lines(rows, widths, color, total_row)[j],
            ).len() == table_width(widths),
    decreases rows.len(),
{
    if rows.len() > 0 {
        let a = rows.drop_last();
        assert forall|k: int, i: int|
            0 <= k < a.len() && 0 <= i < widths.len() && i < a[k].len() implies without_codes(
            #[trigger] a[k][i],
        ).len() <= widths[i] by {
            assert(without_codes(rows[k][i]).len() <= widths[i]);
        }
        lemma_body_width(a, widths, color, total_row);
        let last = rows.last();
        assert forall|i: int| 0 <= i < widths.len() && i < last.len() implies without_codes(
            #[trigger] last[i],
        ).len() <= widths[i] by {
            assert(without_codes(rows[rows.len() - 1][i]).len() <= widths[i]);
        }
        lemma_row_width(last, widths, true, color);
        lemma_row_width(last, widths, false, color);
        let above = body_lines(a, widths, color, total_row);
        let all = body_lines(rows, widths, color, total_row);
        assert forall|j: int| 0 <= j < all.len() implies without_codes(#[trigger] all[j]).len()
            == table_width(widths) by {
            if j < above.len() {
                assert(all[j] == above[j]);
            }
        }
    }
}

/// Every line of a table is as wide as the others, coloured or not.
pub proof fn law_table_is_straight(
    headers: Seq<Seq<char>>,
    rows: Seq<Seq<Seq<char>>>,
    color: bool,
    total_row: bool,
)
    ensures
        forall|j: int|
            0 <= j < table(headers, rows, color, total_row).len() ==> without_codes(
                #[trigger] table(headers, rows, color, total_row)[j],
            ).len() == table_width(column_widths(headers, rows)),
{
    if headers.len() > 0 {
        let widths = column_widths(headers, rows);
        let shown = headers.map_values(|h: Seq<char>| painted(color, "1;36"@, h));
        reveal_strlit("╭");
        reveal_strlit("┬");
        reveal_strlit("╮");
        reveal_strlit("├");
        reveal_strlit("┼");
        reveal_strlit("┤");
        reveal_strlit("╰");
        reveal_strlit("┴");
        reveal_strlit("╯");
        lemma_rule_width(widths, "╭"@, "┬"@, "╮"@, color);
        lemma_rule_width(widths, "├"@, "┼"@, "┤"@, color);
        lemma_rule_width(widths, "╰"@, "┴"@, "╯"@, color);
        lemma_codes();
        assert forall|i: int| 0 <= i < widths.len() && i < shown.len() implies without_codes(
            #[trigger] shown[i],
        ).len() <= widths[i] by {
            law_colour_is_unseen(color, "1;36"@, headers[i]);
            lemma_column_width(headers, rows, i);
        }
        lemma_row_width(shown, widths, false, color);
        assert forall|k: int, i: int|
            0 <= k < rows.len() && 0 <= i < widths.len() && i < rows[k].len() implies without_codes(
            #[trigger] rows[k][i],
        ).len() <= widths[i] by {
            lemma_column_width(headers, rows, i);
        }
        lemma_body_width(rows, widths, color, total_row);
    }
}

/// A text without escapes is seen as it is.
pub proof fn law_plain_text_is_seen(s: Seq<char>)
    requires
        no_escape(s),
    ensures
        without_codes(s) == s,
{
    lemma_no_escape(s);
}

/// The first column of a table stands at the left of its place, and every other at the right, with
/// a blank on either side.
pub proof fn law_cells_are_aligned(cells: Seq<Seq<char>>, widths: Seq<nat>, i: int)
    requires
        0 <= i < widths.len(),
        i < cells.len(),
    ensures
        ({
            let c = cell_text(cells, widths, i, false, false);
            &&& c.len() == cells[i].len() + gap(cells[i], widths[i]) + 2
            &&& c[0] == ' ' && c.last() == ' '
            &&& i == 0 ==> c.subrange(1, 1int + cells[i].len()) == cells[i]
            &&& i > 0 ==> c.subrange(c.len() - 1 - cells[i].len(), c.len() - 1) == cells[i]
        }),
{
    reveal_strlit(" ");
    let n = gap(cells[i], widths[i]);
    lemma_copies(" "@, n);
    let blanks = copies(" "@, n);
    let c = cell_text(cells, widths, i, false, false);
    if i == 0 {
        assert(c =~= " "@ + (cells[i] + blanks) + " "@);
        assert(c.subrange(1, 1int + cells[i].len()) =~= cells[i]);
    } else {
        assert(c =~= " "@ + (blanks + cells[i]) + " "@);
        assert(c.subrange(c.len() - 1 - cells[i].len(), c.len() - 1) =~= cells[i]);
    }
}

} // verus!
