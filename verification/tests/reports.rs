use grok_tokens::daily::{daily_from_raw, DailyStat, SessionLog};
use grok_tokens::json::{Json, Num};
use grok_tokens::overview::{
    daily_json, print_shown_sessions, sessions_json, shown_sessions_json,
};
use grok_tokens::report::{print_daily, print_sessions, sum_days, Money};
use grok_tokens::select::{session_order, SortMode};
use grok_tokens::session::{load_session, CountOverflow, SessionStat};

fn money(cost: &str) -> Money {
    let n = |s: &str| Num::Float(s.to_string());
    Money {
        api: n("0.1"),
        api_no_cache: n("0.2"),
        cli: n("0.3"),
        savings: n("0.4"),
        cost: cost.to_string(),
        log: "$7.00".to_string(),
        saved: "$8.00".to_string(),
    }
}

fn line(ms: u64, input: u64, output: u64, cached: u64) -> String {
    format!(
        r#"{{"params":{{"_meta":{{"agentTimestampMs":{ms}}}}},"usage":{{"inputTokens":{input},"outputTokens":{output},"totalTokens":{},"cachedReadTokens":{cached}}}}}"#,
        input + output
    )
}

const MS: u64 = 1_785_110_400_000;

fn days() -> Vec<DailyStat> {
    let log = |id: &str, lines: Vec<String>| SessionLog { session_id: id.to_string(), lines };
    let logs = vec![
        log("a", vec![line(MS, 1500, 20, 750), line(MS + 86_400_000, 10, 1, 0)]),
        log("b", vec![line(MS + 86_400_000, 2_000_000, 5, 0)]),
    ];
    daily_from_raw(&logs, None).unwrap()
}

#[test]
fn the_daily_report() {
    let days = days();
    let money = vec![money("$1.00"), money("$2.00")];
    let total = crate::money("$3.00");
    let overview = vec!["overview".to_string()];
    let lines = print_daily(&days, &money, &total, &overview, false, false).unwrap();
    assert_eq!(lines[0], "Grok Tokens  ·  daily (UTC)");
    assert_eq!(lines[2], "overview");
    let want = vec![
        "╭────────────┬──────┬──────┬───────┬───────┬──────┬───────┬────────┬───────┬─────────┬───────╮",
        "│ Date       │ Reqs │ Sess │ Input │ Cache │ Hit% │ Fresh │ Output │ Total │ NoCache │  Cost │",
        "├────────────┼──────┼──────┼───────┼───────┼──────┼───────┼────────┼───────┼─────────┼───────┤",
        "│ 2026-07-27 │    1 │    1 │  1.5K │   750 │  50% │   750 │     20 │  1.5K │     770 │ $1.00 │",
        "│ 2026-07-28 │    2 │    2 │    2M │     0 │   0% │    2M │      6 │    2M │      2M │ $2.00 │",
        "├────────────┼──────┼──────┼───────┼───────┼──────┼───────┼────────┼───────┼─────────┼───────┤",
        "│ TOTAL      │    3 │    2 │    2M │   750 │   0% │    2M │     26 │    2M │      2M │ $3.00 │",
        "╰────────────┴──────┴──────┴───────┴───────┴──────┴───────┴────────┴───────┴─────────┴───────╯",
        "",
        "Cost = public list price with cache discount (not final invoice).",
        "Total = Input+Output · NoCache = Fresh+Output (excludes cached input).",
        "Cache ⊂ Input · Fresh = Input − Cache · Input accumulates across turns.",
        "Tip: -v shows Log$ (CLI internal) and cache Saved$.",
    ];
    assert_eq!(lines[3..].to_vec(), want);
    let more = print_daily(&days, &money, &total, &overview, true, true).unwrap();
    assert_eq!(more.len(), lines.len() - 1);
    assert!(more[4].contains("Saved"));
    assert!(more[6].contains("\x1b[36m2026-07-27\x1b[0m"));
    let none = print_daily(&vec![], &vec![], &total, &vec![], false, false).unwrap();
    assert_eq!(none, vec!["Grok Tokens  ·  daily (UTC)", "", "No usage events found."]);
}

#[test]
fn sums_over_days() {
    let (tot, sessions) = sum_days(&days()).unwrap();
    let charges: Vec<_> = days().iter().flat_map(|d| d.tokens.charges.clone()).collect();
    assert_eq!(charges.len(), 3);
    assert_eq!(tot.charges, charges);
    assert_eq!(tot.models.items, vec!["unknown"]);
    assert_eq!(tot.input_tokens, 2_001_510);
    assert_eq!(tot.events, 3);
    assert_eq!(sessions, 2);
    let half = u64::MAX / 2 + 1;
    let logs = vec![SessionLog {
        session_id: "s".to_string(),
        lines: vec![line(MS, half, 0, 0), line(MS + 86_400_000, half, 0, 0)],
    }];
    let days = daily_from_raw(&logs, None).unwrap();
    assert!(matches!(sum_days(&days), Err(CountOverflow)));
    let money = vec![money("$1"), money("$1")];
    let total = crate::money("$2");
    let got = print_daily(&days, &money, &total, &vec![], false, false);
    assert!(matches!(got, Err(CountOverflow)));
}

#[test]
fn days_as_values() {
    let days = days();
    let money = vec![money("$1.00"), money("$2.00")];
    let j = daily_json(&days, &money, Json::Null, Json::Array(vec![])).unwrap();
    assert_eq!(j.get("account_limit"), Some(&Json::Null));
    match j.get("daily") {
        Some(Json::Array(items)) => {
            assert_eq!(items[0].get_str("date"), Some("2026-07-27"));
            assert_eq!(items[1].get("sessions"), Some(&Json::Num(Num::PosInt(2))));
            assert_eq!(items[0].get("fresh_input_tokens"), Some(&Json::Num(Num::PosInt(750))));
            assert_eq!(items[0].get("total_without_cache"), Some(&Json::Num(Num::PosInt(770))));
            assert_eq!(
                items[0].get("cache_savings_usd"),
                Some(&Json::Num(Num::Float("0.4".to_string())))
            );
            assert_eq!(
                items[0].get("models"),
                Some(&Json::Array(vec![Json::Text("unknown".to_string())]))
            );
        }
        _ => panic!("no days"),
    }
    let bucket = days[0].tokens.as_public(&money[0]);
    assert_eq!(bucket.get("events"), Some(&Json::Num(Num::PosInt(1))));
}

fn sessions() -> Vec<SessionStat> {
    let load = |id: &str, cwd: &str, lines: Vec<String>| load_session(id, "/p", cwd, &lines).unwrap();
    vec![
        load("0123456789abc", "/home/somebody/with/a/long/project", vec![line(MS, 1500, 20, 750)]),
        load("empty", "", vec![r#"{"params":{"_meta":{"totalTokens":1234}}}"#.to_string()]),
        load("nothing", "/short", vec![]),
    ]
}

#[test]
fn the_session_report() {
    let stats = sessions();
    let m = vec![money("$1.00"), money("$0.00"), money("$0.00")];
    let lines = print_sessions(&stats, &m, &vec![0, 1, 2], &vec![], false, false).unwrap();
    assert_eq!(lines[0], "Grok Tokens  ·  session (UTC)");
    assert_eq!(
        lines[5],
        "│ 0123456789 │    1 │  1.5K │   750 │  50% │   750 │     20 │  1.5K │     770 │ $1.00 │ 1.5K │ 2026-07-27 00:00 │"
    );
    assert_eq!(
        lines[6],
        "│ empty      │    0 │     - │     - │    - │     - │      - │     - │       - │     - │ 1.2K │                - │"
    );
    assert!(lines[7].contains("│    - │                - │"));
    assert_eq!(
        lines[10],
        "3 sessions · 1 with usage · NoCache=Fresh+Out · Peak=max input"
    );
    assert_eq!(lines[11], "Tip: -v shows Log$ and project path.");
    let more = print_sessions(&stats, &m, &vec![2, 0], &vec![], true, false).unwrap();
    assert!(more[3].ends_with("│  Log$ │ Saved │                          Cwd │"));
    assert!(more[5].ends_with("│     - │     - │                       /short │"));
    assert!(more[6].ends_with("│ $7.00 │ $8.00 │ …omebody/with/a/long/project │"));
    assert_eq!(more.len(), 10);
    let none = print_sessions(&stats, &m, &vec![], &vec![], false, false).unwrap();
    assert_eq!(none[2], "No sessions found.");
}

#[test]
fn sessions_as_values() {
    let stats = sessions();
    let m = vec![money("$1.00"), money("$0.00"), money("$0.00")];
    let j = sessions_json(&stats, &m, &vec![1, 0], Json::Null, Json::Null).unwrap();
    match j.get("sessions") {
        Some(Json::Array(items)) => {
            assert_eq!(items.len(), 2);
            assert_eq!(items[0].get_str("session_id"), Some("empty"));
            assert_eq!(items[0].get("peak_context"), Some(&Json::Num(Num::PosInt(1234))));
            assert_eq!(items[0].get("has_usage"), Some(&Json::Bool(false)));
            assert_eq!(items[1].get_str("last_activity_day"), Some("2026-07-27"));
        }
        _ => panic!("no sessions"),
    }
    let big = vec![load_session("s", "", "", &vec![line(MS, 10, 0, 0)]).unwrap()];
    assert!(sessions_json(&big, &vec![money("$1")], &vec![0], Json::Null, Json::Null).is_ok());
    let odd = format!(
        r#"{{"usage":{{"inputTokens":{m},"outputTokens":{m},"totalTokens":1}}}}"#,
        m = u64::MAX
    );
    let odd = vec![load_session("s", "", "", &vec![odd]).unwrap()];
    let got = sessions_json(&odd, &vec![money("$1")], &vec![0], Json::Null, Json::Null);
    assert!(matches!(got, Err(CountOverflow)));
    let got = print_sessions(&odd, &vec![money("$1")], &vec![0], &vec![], false, false);
    assert!(matches!(got, Err(CountOverflow)));
}

#[test]
fn the_sessions_that_are_shown() {
    let mut stats = sessions();
    stats.push(load_session("later", "/p", "", &vec![line(MS + 86_400_000, 5, 5, 0)]).unwrap());
    let m = vec![money("$1.00"), money("$0.00"), money("$0.00"), money("$2.00")];
    for (since, used, sort, want) in [
        (None, false, SortMode::Total, vec![0, 3, 1, 2]),
        (None, false, SortMode::Recent, vec![1, 2, 3, 0]),
        (None, true, SortMode::Recent, vec![3, 0]),
        (Some("2026-07-28"), true, SortMode::Total, vec![3]),
        (Some("2026-07-28"), false, SortMode::Total, vec![3, 1, 2]),
    ] {
        assert_eq!(session_order(&stats, since, used, sort), want);
        let lines = print_shown_sessions(&stats, &m, since, used, sort, &vec![], true, false);
        assert_eq!(lines, print_sessions(&stats, &m, &want, &vec![], true, false));
        let j = shown_sessions_json(&stats, &m, since, used, sort, Json::Null, Json::Null);
        assert_eq!(j, sessions_json(&stats, &m, &want, Json::Null, Json::Null));
    }
}
