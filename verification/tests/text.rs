use grok_tokens::double::{percent_text, scaled_text};
use grok_tokens::format::{c, fmt_tokens, pad, plain, table_lines, visible_len};
use grok_tokens::text::{
    ascii_lower_text, before_char, can_cut, contains, cut, decimal_text, is_white_space, join,
    replace_char, same_text, take_chars, take_last_chars, trim,
};

fn words(v: &[&str]) -> Vec<String> {
    v.iter().map(|s| s.to_string()).collect()
}

#[test]
fn white_space_of_every_character() {
    for n in 0..=0x10ffffu32 {
        if let Some(ch) = char::from_u32(n) {
            assert_eq!(is_white_space(ch), ch.is_whitespace(), "{n:x}");
        }
    }
}

#[test]
fn trimming_like_std() {
    for s in ["", " ", " a ", "\u{3000}x\u{a0}", "a b", "\n\t", "é\u{2028}"] {
        assert_eq!(trim(s), s.trim());
    }
}

#[test]
fn small_text_functions() {
    assert!(contains("abcabd", "abd"));
    assert!(!contains("abcabd", "abe"));
    assert!(contains("x", ""));
    assert!(contains("", ""));
    assert!(!contains("", "x"));
    assert!(same_text("é", "é"));
    assert!(!same_text("é", "e"));
    assert_eq!(before_char("a@b@c", '@'), "a");
    assert_eq!(before_char("abc", '@'), "abc");
    assert_eq!(take_chars("éàü", 2), "éà");
    assert_eq!(take_last_chars("éàü", 2), "àü");
    assert_eq!(replace_char("aTbT", 'T', ' '), "a b ");
    assert_eq!(join(&words(&["a", "b", "c"]), ", "), "a, b, c");
    assert_eq!(join(&words(&[]), ", "), "");
    assert_eq!(ascii_lower_text("GROK-4.5 É"), "grok-4.5 É");
    assert_eq!(decimal_text(0), "0");
    assert_eq!(decimal_text(1844674407370955161500), "1844674407370955161500");
}

#[test]
fn cutting_at_bytes() {
    assert_eq!(cut("2026-01-02T03", 10), "2026-01-02");
    assert_eq!(cut("2026", 10), "2026");
    assert!(can_cut("aé", 3));
    assert!(!can_cut("aéb", 2));
    assert!(can_cut("aéb", 3));
    assert_eq!(cut("aéb", 3), "aé");
}

fn tokens_by_floats(n: u64) -> String {
    let short = |s: String| s.trim_end_matches('0').trim_end_matches('.').to_string();
    if n < 1_000 {
        return n.to_string();
    }
    if n < 1_000_000 {
        return format!("{}K", short(format!("{:.1}", n as f64 / 1_000.0)));
    }
    if n < 1_000_000_000 {
        return format!("{}M", short(format!("{:.2}", n as f64 / 1_000_000.0)));
    }
    format!("{}B", short(format!("{:.2}", n as f64 / 1_000_000_000.0)))
}

#[test]
fn exact_token_counts() {
    assert_eq!(fmt_tokens(0), "0");
    assert_eq!(fmt_tokens(999), "999");
    assert_eq!(fmt_tokens(1_000), "1K");
    assert_eq!(fmt_tokens(1_250), "1.2K");
    assert_eq!(fmt_tokens(1_150), "1.1K");
    assert_eq!(fmt_tokens(1_350), "1.4K");
    assert_eq!(fmt_tokens(999_999), "1000K");
    assert_eq!(fmt_tokens(1_000_000), "1M");
    assert_eq!(fmt_tokens(12_345_678), "12.35M");
    assert_eq!(fmt_tokens(2_500_000_000), "2.5B");
    assert_eq!(fmt_tokens(100_000), "100K");
}

#[test]
fn token_counts_like_doubles() {
    for n in 0..60_000u64 {
        assert_eq!(fmt_tokens(n), tokens_by_floats(n));
    }
    let mut n: u64 = 1;
    for k in 0..60_000u64 {
        n = n.wrapping_mul(6364136223846793005).wrapping_add(1442695040888963407);
        let m = n >> (k % 64);
        assert_eq!(fmt_tokens(m), tokens_by_floats(m), "{m}");
    }
    for k in 0..20_000u64 {
        let m = 1_000_000 + k * 5_000;
        assert_eq!(fmt_tokens(m), tokens_by_floats(m), "{m}");
        let b = 1_000_000_000 + k * 5_000_000;
        assert_eq!(fmt_tokens(b), tokens_by_floats(b), "{b}");
    }
    assert_eq!(fmt_tokens(u64::MAX), tokens_by_floats(u64::MAX));
    assert_eq!(scaled_text(1_234, 1_000, true), format!("{:.2}", 1.234));
}

#[test]
fn percentages_like_doubles() {
    assert_eq!(percent_text(1, 0), "0");
    assert_eq!(percent_text(1, 2), "50");
    assert_eq!(percent_text(1, 200), "0");
    assert_eq!(percent_text(3, 200), "2");
    let mut n: u64 = 7;
    for k in 0..60_000u64 {
        n = n.wrapping_mul(6364136223846793005).wrapping_add(1442695040888963407);
        let part = n >> (k % 64);
        n = n.wrapping_mul(6364136223846793005).wrapping_add(1442695040888963407);
        let all = n >> (k % 61);
        if all > 0 {
            let want = format!("{:.0}", 100.0 * part as f64 / all as f64);
            assert_eq!(percent_text(part, all), want, "{part} {all}");
        }
    }
    for part in 0..400u64 {
        for all in 1..60u64 {
            let want = format!("{:.0}", 100.0 * part as f64 / all as f64);
            assert_eq!(percent_text(part, all), want, "{part} {all}");
        }
    }
    assert_eq!(
        percent_text(u64::MAX, 1),
        format!("{:.0}", 100.0 * u64::MAX as f64 / 1.0)
    );
}

#[test]
fn colours() {
    assert_eq!(c(true, "1;36", "x"), "\x1b[1;36mx\x1b[0m");
    assert_eq!(c(false, "1;36", "x"), "x");
    assert_eq!(c(true, "1;36", ""), "");
    assert_eq!(plain("\x1b[1;36mx\x1b[0m"), "x");
    assert_eq!(plain("a\x1b[mb\x1b[1;2;3mc"), "abc");
    assert_eq!(plain("\x1b[12"), "\x1b[12");
    assert_eq!(plain("\x1b[1\x1b[2mx"), "\x1b[1x");
    assert_eq!(plain("\x1b[1xm"), "\x1b[1xm");
    assert_eq!(visible_len("\x1b[32mé\x1b[0m!"), 2);
    for text in ["x", "\x1b", "\x1b[", "\x1b[3", "─ é"] {
        assert_eq!(plain(&c(true, "1;32", text)), plain(text));
    }
}

#[test]
fn padding() {
    assert_eq!(pad("ab", 4, true), "  ab");
    assert_eq!(pad("ab", 4, false), "ab  ");
    assert_eq!(pad("abcde", 4, false), "abcde");
    let red = c(true, "31", "ab");
    assert_eq!(pad(&red, 4, true), format!("  {red}"));
    assert_eq!(visible_len(&pad(&red, 9, false)), 9);
}

#[test]
fn a_plain_table() {
    let lines = table_lines(
        &words(&["Date", "N"]),
        &vec![words(&["x", "12"]), words(&["Total"]), words(&["TOTAL", "345", "more"])],
        false,
        true,
    );
    let want = vec![
        "╭───────┬─────╮",
        "│ Date  │   N │",
        "├───────┼─────┤",
        "│ x     │  12 │",
        "├───────┼─────┤",
        "│ Total │     │",
        "├───────┼─────┤",
        "│ TOTAL │ 345 │",
        "╰───────┴─────╯",
    ];
    assert_eq!(lines, want);
    let flat = table_lines(&words(&["Date"]), &vec![words(&["TOTAL"])], false, false);
    assert_eq!(flat.len(), 5);
    assert_eq!(table_lines(&words(&[]), &vec![words(&["x"])], true, true).len(), 0);
}

#[test]
fn a_coloured_table_is_straight() {
    let rows = vec![
        vec![c(true, "36", "2026-01-01"), c(true, "2", "5")],
        vec!["TOTAL".to_string(), "123456".to_string()],
    ];
    let lines = table_lines(&words(&["Date", "Input"]), &rows, true, true);
    assert_eq!(lines.len(), 7);
    let width = visible_len(&lines[0]);
    for line in &lines {
        assert_eq!(visible_len(line), width);
    }
    assert!(lines[5].contains("\x1b[1m123456\x1b[0m") || lines[5].contains("123456\x1b[0m"));
    assert!(lines[1].contains("\x1b[1;36mDate\x1b[0m"));
}
