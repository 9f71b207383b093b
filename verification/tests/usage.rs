use grok_tokens::bucket::TokenBucket;
use grok_tokens::clock::{ms_to_day, ms_to_rfc3339};
use grok_tokens::daily::{daily_from_raw, SessionLog};
use grok_tokens::json::{json_u64, Json, Num};
use grok_tokens::parse::parse_json;
use grok_tokens::pricing::{api_charge, model_from_usage, rates_for_model, Rates};
use grok_tokens::select::{session_order, SortMode};
use grok_tokens::session::{load_session, CountOverflow, SessionStat};
use grok_tokens::usage::{agent_ts_ms, usage_key, usage_of_line, walk_usage_dicts};

fn json(text: &str) -> Json {
    parse_json(text).unwrap()
}

fn lines(v: &[&str]) -> Vec<String> {
    v.iter().map(|s| s.to_string()).collect()
}

fn usage(input: u64, output: u64, cached: u64) -> String {
    format!(
        r#"{{"inputTokens":{input},"outputTokens":{output},"totalTokens":{},"cachedReadTokens":{cached},"costUsdTicks":7,"modelCalls":1}}"#,
        input + output
    )
}

fn line(ms: u64, usage: &str) -> String {
    format!(r#"{{"params":{{"_meta":{{"agentTimestampMs":{ms},"totalTokens":{ms}}},"u":{usage}}}}}"#)
}

#[test]
fn json_values() {
    assert!(parse_json("{").is_err());
    assert_eq!(json("1.50"), Json::Num(Num::Float("1.5".to_string())));
    assert_eq!(json("-3"), Json::Num(Num::NegInt(-3)));
    assert_eq!(json("18446744073709551615"), Json::Num(Num::PosInt(u64::MAX)));
    assert_eq!(json("true"), Json::Bool(true));
    assert_eq!(json("null"), Json::Null);
    let v = json(r#"{"b": [1, "x"], "a": {}}"#);
    match &v {
        Json::Object(e) => {
            assert_eq!(e[0].0, "a");
            assert_eq!(e[1].0, "b");
            assert_eq!(
                e[1].1,
                Json::Array(vec![Json::Num(Num::PosInt(1)), Json::Text("x".to_string())])
            );
        }
        _ => panic!("no object"),
    }
    assert_eq!(v.copy(), v);
}

#[test]
fn counts_of_numbers() {
    let v = json(r#"{"a": 5, "b": -2, "c": 1.5, "d": "7"}"#);
    assert_eq!(json_u64(&v, "a"), 5);
    assert_eq!(json_u64(&v, "b"), 0);
    assert_eq!(json_u64(&v, "c"), 0);
    assert_eq!(json_u64(&v, "d"), 0);
    assert_eq!(json_u64(&v, "e"), 0);
}

#[test]
fn prices_of_models() {
    let (short, long, from) = rates_for_model("Grok-4.5-build");
    assert_eq!(short, Rates { input: 200, cached: 30, output: 600 });
    assert_eq!(long, Rates { input: 400, cached: 60, output: 1200 });
    assert_eq!(from, 200_000);
    assert_eq!(rates_for_model("x-GROK-4.3-y").0, Rates { input: 125, cached: 20, output: 250 });
    assert_eq!(rates_for_model("grok-build-0.1").1, Rates { input: 200, cached: 40, output: 400 });
}

#[test]
fn charges() {
    let u = json(
        r#"{"inputTokens":200000,"outputTokens":3,"cachedReadTokens":150000,"modelUsage":{"grok-4.3":{},"a":{}}}"#,
    );
    assert_eq!(model_from_usage(&u), "a");
    let ch = api_charge(&u);
    assert_eq!((ch.input, ch.fresh, ch.cached, ch.output), (200_000, 50_000, 150_000, 3));
    assert_eq!(ch.rates, Rates { input: 400, cached: 60, output: 1200 });
    let over = api_charge(&json(r#"{"inputTokens":1,"cachedReadTokens":5}"#));
    assert_eq!(over.fresh, 0);
    assert_eq!(model_from_usage(&json(r#"{"modelUsage":{}}"#)), "grok-4.5");
}

#[test]
fn what_the_cache_saves() {
    let ch = api_charge(&json(&usage(1_000, 10, 400)));
    let cost = ch.fresh * ch.rates.input + ch.cached * ch.rates.cached + ch.output * ch.rates.output;
    let full = ch.input * ch.rates.input + ch.output * ch.rates.output;
    assert_eq!(cost, 600 * 200 + 400 * 30 + 10 * 600);
    assert_eq!(full - cost, 400 * (200 - 30));
}

#[test]
fn usage_records_in_a_value() {
    let v = json(
        r#"{"z":[{"inputTokens":1,"outputTokens":1,"totalTokens":2,
                  "modelUsage":{"m":{"inputTokens":9,"outputTokens":9,"totalTokens":18}},
                  "inner":{"inputTokens":3,"outputTokens":3,"totalTokens":6}}],
            "a":{"inputTokens":5,"outputTokens":0,"totalTokens":5}}"#,
    );
    let mut found: Vec<&Json> = Vec::new();
    walk_usage_dicts(&v, &mut found);
    let inputs: Vec<u64> = found.iter().map(|u| json_u64(u, "inputTokens")).collect();
    assert_eq!(inputs, vec![5, 1, 3]);
    let top: Vec<u64> = usage_of_line(&v).iter().map(|u| json_u64(u, "inputTokens")).collect();
    assert_eq!(top, vec![1]);
    let plain = json(r#"[{"inputTokens":1,"outputTokens":1,"totalTokens":2}]"#);
    assert_eq!(usage_of_line(&plain).len(), 1);
    assert_eq!(usage_key(found[2]).total, 6);
}

#[test]
fn time_stamps() {
    let first = json(
        r#"{"params":{"_meta":{"agentTimestampMs":5},"update":{"_meta":{"agentTimestampMs":6}}}}"#,
    );
    assert_eq!(agent_ts_ms(&first), Some(5));
    let second = json(
        r#"{"params":{"_meta":{"agentTimestampMs":"x"},"update":{"_meta":{"agentTimestampMs":-6}}}}"#,
    );
    assert_eq!(agent_ts_ms(&second), Some(-6));
    let big = json(r#"{"params":{"_meta":{"agentTimestampMs":18446744073709551615}}}"#);
    assert_eq!(agent_ts_ms(&big), Some(-1));
    assert_eq!(agent_ts_ms(&json("[]")), None);
}

#[test]
fn days_and_times() {
    assert_eq!(ms_to_day(None), "unknown");
    assert_eq!(ms_to_day(Some(0)), "unknown");
    assert_eq!(ms_to_day(Some(-1)), "unknown");
    assert_eq!(ms_to_day(Some(1)), "1970-01-01");
    assert_eq!(ms_to_day(Some(86_399_999)), "1970-01-01");
    assert_eq!(ms_to_day(Some(86_400_000)), "1970-01-02");
    assert_eq!(ms_to_day(Some(951_782_400_000)), "2000-02-29");
    assert_eq!(ms_to_day(Some(1_785_110_400_000)), "2026-07-27");
    assert_eq!(ms_to_day(Some(253_402_300_799_999)), "9999-12-31");
    assert_eq!(ms_to_day(Some(253_402_300_800_000)), "+10000-01-01");
    assert_eq!(ms_to_day(Some(i64::MAX)), "unknown");
    assert_eq!(ms_to_rfc3339(Some(1_785_110_400_000)), "2026-07-27T00:00:00+00:00");
    assert_eq!(ms_to_rfc3339(Some(1_785_114_061_023)), "2026-07-27T01:01:01.023+00:00");
    assert_eq!(ms_to_rfc3339(Some(i64::MAX)), "unknown");
    assert_eq!(ms_to_rfc3339(None), "unknown");
}

/// The date of a day number, by counting years and months.
fn calendar(mut day: i64) -> (i64, i64, i64) {
    let leap = |y: i64| (y % 4 == 0 && y % 100 != 0) || y % 400 == 0;
    let mut y = 1970;
    while day >= if leap(y) { 366 } else { 365 } {
        day -= if leap(y) { 366 } else { 365 };
        y += 1;
    }
    let feb = if leap(y) { 29 } else { 28 };
    let mut m = 0;
    for n in [31, feb, 31, 30, 31, 30, 31, 31, 30, 31, 30, 31] {
        if day < n {
            break;
        }
        day -= n;
        m += 1;
    }
    (y, m + 1, day + 1)
}

#[test]
fn days_by_the_calendar() {
    let mut last = String::new();
    for n in (0..2_932_897i64).step_by(97) {
        let (y, m, d) = calendar(n);
        let text = ms_to_day(Some(n * 86_400_000 + 1));
        assert_eq!(text, format!("{y:04}-{m:02}-{d:02}"));
        assert!(last < text);
        last = text;
    }
}

fn read(v: &[String]) -> SessionStat {
    load_session("sid", "/p", "/w", &v.to_vec()).unwrap()
}

#[test]
fn a_session() {
    let ms = 1_785_110_400_000u64;
    let v = vec![
        String::new(),
        "not json usage".to_string(),
        "[1, \"usage\"]".to_string(),
        line(ms, &usage(100, 10, 40)),
        format!("  {}  ", line(ms + 5, &usage(300, 30, 0))),
        line(ms + 2, &usage(100, 10, 40)),
        r#"{"params":{"_meta":{"totalTokens":9}}}"#.to_string(),
    ];
    let s = read(&v);
    assert_eq!(s.session_id, "sid");
    assert_eq!(s.tokens.events, 2);
    assert_eq!(s.tokens.input_tokens, 400);
    assert_eq!(s.tokens.output_tokens, 40);
    assert_eq!(s.tokens.total_tokens, 440);
    assert_eq!(s.tokens.cached_read_tokens, 40);
    assert_eq!(s.tokens.cost_usd_ticks, 14);
    assert_eq!(s.tokens.fresh_input_tokens(), 360);
    assert_eq!(s.tokens.total_without_cache(), 400);
    assert_eq!(s.tokens.models.items, vec!["unknown"]);
    assert_eq!(s.tokens.charges.len(), 2);
    assert_eq!(s.peak_input_tokens, 300);
    assert_eq!(s.meta_first_context, ms);
    assert_eq!(s.meta_peak_context, ms + 5);
    assert_eq!(s.meta_final_context, 9);
    assert_eq!(s.peak_context(), ms + 5);
    assert_eq!(s.last_activity, "2026-07-27T00:00:00.005+00:00");
    assert_eq!(s.last_activity_day, "2026-07-27");
    assert!(s.has_usage);
    let mut backwards = v.clone();
    backwards.reverse();
    assert_eq!(read(&backwards).tokens.input_tokens, 400);
    assert_eq!(read(&backwards).tokens.events, 2);
    for line in &v {
        let mut more = v.clone();
        more.push(line.clone());
        assert_eq!(read(&more).tokens.input_tokens, 400);
        assert_eq!(read(&more).tokens.events, 2);
    }
    let mut twice = v.clone();
    twice.extend(v.clone());
    assert_eq!(read(&twice).tokens.total_tokens, 440);
    assert_eq!(read(&twice).tokens.events, 2);
}

#[test]
fn a_session_without_usage() {
    let s = read(&lines(&["{}", ""]));
    assert!(!s.has_usage);
    assert_eq!(s.last_activity, "unknown");
    assert_eq!(s.last_activity_day, "unknown");
    assert_eq!(s.meta_peak_context, 0);
    assert_eq!(s.tokens.models.len(), 0);
}

#[test]
fn a_total_that_overflows() {
    let half = u64::MAX / 2 + 1;
    let one = format!(r#"{{"usage":{{"inputTokens":{half},"outputTokens":1,"totalTokens":1}}}}"#);
    let two = format!(r#"{{"usage":{{"inputTokens":{half},"outputTokens":2,"totalTokens":1}}}}"#);
    let got = load_session("s", "", "", &vec![one.clone(), two.clone()]);
    assert!(matches!(got, Err(CountOverflow)));
    assert!(load_session("s", "", "", &vec![one.clone(), one.clone()]).is_ok());
    let logs = vec![SessionLog { session_id: "s".to_string(), lines: vec![one, two] }];
    assert!(matches!(daily_from_raw(&logs, None), Err(CountOverflow)));
}

#[test]
fn buckets_add_up() {
    let a = json(&usage(10, 1, 2));
    let b = json(r#"{"inputTokens":5,"modelUsage":{"m2":{},"m1":{}}}"#);
    let mut x = TokenBucket::new();
    x.add_usage(&a);
    let mut y = TokenBucket::new();
    y.add_usage(&b);
    assert!(x.can_merge(&y));
    x.merge(&y);
    assert_eq!(x.input_tokens, 15);
    assert_eq!(x.events, 2);
    assert_eq!(x.charges.len(), 2);
    assert_eq!(x.models.items, vec!["m1", "m2", "unknown"]);
    assert!(!x.can_add(&json(r#"{"inputTokens":18446744073709551615}"#)));
}

#[test]
fn days_of_some_sessions() {
    let ms = 1_785_110_400_000u64;
    let day = 86_400_000u64;
    let logs = vec![
        SessionLog {
            session_id: "b".to_string(),
            lines: vec![
                line(ms + day, &usage(100, 10, 40)),
                line(ms, &usage(1, 1, 0)),
                line(ms, &usage(1, 1, 0)),
                line(0, &usage(5, 5, 0)),
            ],
        },
        SessionLog {
            session_id: "a".to_string(),
            lines: vec![line(ms + 3, &usage(7, 7, 0)), "usage".to_string()],
        },
    ];
    let days = daily_from_raw(&logs, None).unwrap();
    let dates: Vec<&str> = days.iter().map(|d| d.date.as_str()).collect();
    assert_eq!(dates, vec!["2026-07-27", "2026-07-28", "unknown"]);
    assert_eq!(days[0].tokens.input_tokens, 9);
    assert_eq!(days[0].tokens.events, 3);
    assert_eq!(days[0].sessions.items, vec!["a", "b"]);
    assert_eq!(days[1].sessions.items, vec!["b"]);
    let sum: u64 = days.iter().map(|d| d.tokens.input_tokens).sum();
    assert_eq!(sum, 100 + 1 + 1 + 5 + 7);
    let late = daily_from_raw(&logs, Some("2026-07-28")).unwrap();
    let dates: Vec<&str> = late.iter().map(|d| d.date.as_str()).collect();
    assert_eq!(dates, vec!["2026-07-28", "unknown"]);
    for (kept, all) in late.iter().zip(&days[1..]) {
        assert_eq!(kept.tokens.input_tokens, all.tokens.input_tokens);
        assert_eq!(kept.tokens.charges, all.tokens.charges);
        assert_eq!(kept.sessions.items, all.sessions.items);
        assert!(kept.tokens.events > 0);
    }
}

#[test]
fn a_record_twice_in_a_line_counts_once_a_day() {
    let u = usage(3, 1, 0);
    let text = format!(r#"{{"usage":[{u},{u}]}}"#);
    let logs = vec![SessionLog { session_id: "s".to_string(), lines: vec![text] }];
    let days = daily_from_raw(&logs, None).unwrap();
    assert_eq!(days[0].tokens.events, 1);
}

#[test]
fn sessions_in_order() {
    let ms = 1_785_110_400_000u64;
    let day = 86_400_000u64;
    let stats = vec![
        read(&vec![line(ms, &usage(10, 1, 0))]),
        read(&vec![line(ms + 2 * day, &usage(5, 1, 0))]),
        read(&vec!["{}".to_string()]),
        read(&vec![line(ms + day, &usage(10, 1, 0))]),
    ];
    assert_eq!(session_order(&stats, None, false, SortMode::Total), vec![0, 3, 1, 2]);
    assert_eq!(session_order(&stats, None, false, SortMode::Recent), vec![2, 1, 3, 0]);
    assert_eq!(session_order(&stats, None, true, SortMode::Recent), vec![1, 3, 0]);
    assert_eq!(
        session_order(&stats, Some("2026-07-28"), false, SortMode::Total),
        vec![3, 1, 2]
    );
}
