use grok_tokens::json::{Json, Num};
use grok_tokens::limit::{
    account_limit_from_stored, limit_from_copy, limit_from_log, limit_from_phrase,
    limit_from_report, load_account_limit, period_label, tail_start, AccountLimit, Gauge,
    LimitSource,
};
use grok_tokens::overview::{limit_json, print_limit_detail, CutError};
use grok_tokens::parse::parse_json;

fn json(text: &str) -> Json {
    parse_json(text).unwrap()
}

fn report(config: &str, ctx: &str) -> String {
    format!(
        r#"{{"ts":"2026-07-27T08:09:10.5Z","msg":"billing: fetched credits config","ctx":{{"config":{config}{ctx}}}}}"#
    )
}

fn gauge(number: &str, shown: &str, floor: i64) -> Gauge {
    Gauge { number: Num::Float(number.to_string()), shown: shown.to_string(), floor }
}

fn weekly() -> AccountLimit {
    let line = report(
        r#"{"creditUsagePercent":24,"currentPeriod":{"type":"weekly_x","start":"s","end":"2026-08-01T00:00:00Z"}}"#,
        r#","subscriptionTiers":["Pro",1,"Max"]"#,
    );
    limit_from_log(&vec![line]).unwrap()
}

#[test]
fn a_limit_in_the_log() {
    let l = weekly();
    assert_eq!(l.percent, Some(Num::PosInt(24)));
    assert_eq!(l.period_label, "Weekly");
    assert_eq!(l.period_type, "weekly_x");
    assert_eq!(l.period_start.as_deref(), Some("s"));
    assert_eq!(l.period_end.as_deref(), Some("2026-08-01T00:00:00Z"));
    assert_eq!(l.subscription.as_deref(), Some("Pro,Max"));
    assert_eq!(l.fetched_at.as_deref(), Some("2026-07-27T08:09:10.5Z"));
    assert_eq!(l.source, "unified.jsonl");
    assert_eq!(l.email, None);
    assert_eq!(l.copy(), l);
}

#[test]
fn the_last_report_counts() {
    let lines = vec![
        report(r#"{"creditUsagePercent":1}"#, ""),
        "billing: fetched credits config".to_string(),
        report(r#"{"creditUsagePercent":2.50,"billingPeriodEnd":"e"}"#, ""),
        r#"{"msg":"other","x":"billing: fetched credits config"}"#.to_string(),
        "{}".to_string(),
    ];
    let l = limit_from_log(&lines).unwrap();
    assert_eq!(l.percent, Some(Num::Float("2.5".to_string())));
    assert_eq!(l.period_label, "Period");
    assert_eq!(l.period_end.as_deref(), Some("e"));
    assert_eq!(l.subscription, None);
    assert_eq!(limit_from_log(&vec!["{}".to_string()]), None);
    let bare = r#"{"msg":"billing: fetched credits config","ctx":{}}"#.to_string();
    assert_eq!(limit_from_log(&vec![lines[0].clone(), bare]), None);
}

#[test]
fn plans() {
    let plan = |ctx: &str| limit_from_log(&vec![report("{}", ctx)]).unwrap().subscription;
    assert_eq!(plan(r#","subscriptionTiers":"Pro""#).as_deref(), Some("Pro"));
    assert_eq!(plan(r#","subscriptionTiers":null"#), None);
    assert_eq!(plan(r#","subscriptionTiers":"null""#), None);
    assert_eq!(plan(r#","subscriptionTiers":[]"#), None);
    assert_eq!(plan(r#","subscription_tier":{"b" : 1, "a" : [true]}"#).as_deref(),
        Some(r#"{"a":[true],"b":1}"#));
    assert_eq!(plan(r#","subscription_tier":7"#).as_deref(), Some("7"));
    let inner = report(r#"{"subscription_tier":false}"#, "");
    assert_eq!(limit_from_log(&vec![inner]).unwrap().subscription.as_deref(), Some("false"));
}

#[test]
fn periods() {
    assert_eq!(period_label("USAGE_WEEKLY"), "Weekly");
    assert_eq!(period_label("MONTHLY"), "Monthly");
    assert_eq!(period_label("weekly"), "Period");
    let line = report(r#"{"currentPeriod":{"type":"monthLY"}}"#, "");
    assert_eq!(limit_from_log(&vec![line]).unwrap().period_label, "Monthly");
    let last = json(r#"{"ctx":{"config":{"currentPeriod":{"type":"x"}}}}"#);
    let l = limit_from_report(&last, "MONTHLY", Some("plan".to_string())).unwrap();
    assert_eq!(l.period_label, "Monthly");
    assert_eq!(l.period_type, "x");
    assert_eq!(l.subscription.as_deref(), Some("plan"));
    assert_eq!(limit_from_report(&json(r#"{"ctx":{}}"#), "", None), None);
}

#[test]
fn a_limit_that_was_copied() {
    let l = limit_from_copy("  x\nWEEKLY \t limit:24.50 % and Monthly limit: 3%").unwrap();
    assert_eq!(l.period_label, "Weekly");
    assert_eq!(l.percent, Some(Num::Float("24.50".to_string())));
    assert_eq!(l.source, "last-copy");
    let m = limit_from_copy("monthly limit: 7%").unwrap();
    assert_eq!(m.period_label, "Monthly");
    let kelvin = limit_from_copy("wee\u{212a}ly limit: 7%").unwrap();
    assert_eq!(kelvin.period_label, "Weekly");
    assert_eq!(limit_from_copy("Weekly limit: %"), None);
    assert_eq!(limit_from_copy("Weekly limit: 24. %"), None);
    assert_eq!(limit_from_copy("Weeklylimit: 24%"), None);
    let p = limit_from_phrase("mONTHLY", "onthly", "3".to_string());
    assert_eq!(p.period_label, "Monthly");
}

#[test]
fn sources_of_a_limit() {
    assert_eq!(load_account_limit(&LimitSource::Unreadable), None);
    assert_eq!(load_account_limit(&LimitSource::NoLog(None)), None);
    let copy = LimitSource::NoLog(Some("Weekly limit: 5%".to_string()));
    assert_eq!(load_account_limit(&copy).unwrap().source, "last-copy");
    let log = LimitSource::Log(vec![report("{}", "")]);
    assert_eq!(load_account_limit(&log).unwrap().source, "unified.jsonl");
    assert_eq!(tail_start(10, 10), None);
    assert_eq!(tail_start(11, 10), Some(1));
}

#[test]
fn headlines() {
    let l = weekly();
    assert_eq!(l.headline(Some(&gauge("24.0", "24", 24))), "Weekly limit: 24%");
    assert_eq!(l.headline(None), "Weekly limit: n/a");
}

#[test]
fn a_stored_limit_is_read_back() {
    let mut l = weekly();
    l.email = Some("a@b.com".to_string());
    l.profile = Some("work".to_string());
    let g = gauge("24.0", "24", 24);
    let mut back = account_limit_from_stored(&l.as_public(Some(&g)));
    assert_eq!(back.percent, Some(Num::Float("24.0".to_string())));
    back.percent = l.percent.as_ref().map(|n| n.copy());
    assert_eq!(back, l);
    let odd = account_limit_from_stored(&json("null"));
    assert_eq!(odd.period_label, "Period");
    assert_eq!(odd.source, "profile");
    assert_eq!(odd.percent, None);
}

#[test]
fn the_value_of_a_limit() {
    let l = weekly();
    let j = limit_json(Some(&l), Some(&gauge("24.0", "24", 24)));
    match &j {
        Json::Object(e) => {
            let mut keys: Vec<&str> = e.iter().map(|x| x.0.as_str()).collect();
            keys.sort();
            assert_eq!(
                keys,
                vec![
                    "email", "fetched_at", "headline", "percent", "period_end", "period_label",
                    "period_start", "period_type", "profile", "source", "subscription", "user_id",
                ]
            );
        }
        _ => panic!("no object"),
    }
    assert_eq!(j.get_str("headline"), Some("Weekly limit: 24%"));
    assert_eq!(j.get("percent"), Some(&Json::Num(Num::Float("24.0".to_string()))));
    assert_eq!(limit_json(None, None), Json::Null);
    assert!(l.as_fields(None).get("headline").is_none());
}

#[test]
fn banners() {
    let mut l = weekly();
    l.email = Some("a@b.com".to_string());
    l.profile = Some("work".to_string());
    let g = gauge("96.0", "96", 96);
    assert_eq!(
        l.banner_lines(Some(&g), false),
        vec![
            "a@b.com  ·  profile work  ·  Weekly limit: 96%  ·  reset 2026-08-01  ·  Pro,Max  ·  as of 2026-07-27 08:09:10 UTC",
            "",
        ]
    );
    assert!(l.banner_lines(Some(&g), true)[0].contains("\x1b[1;31mWeekly limit: 96%\x1b[0m"));
    let near = gauge("80.0", "80", 80);
    assert!(l.banner_lines(Some(&near), true)[0].contains("\x1b[1;33m"));
    let below = gauge("94.9", "94.9", 94);
    assert!(l.banner_lines(Some(&below), true)[0].contains("\x1b[1;33mWeekly limit: 94.9%"));
    let free = gauge("79.9", "79.9", 79);
    assert!(l.banner_lines(Some(&free), true)[0].contains("\x1b[1;32mWeekly limit: 79.9%"));
    assert!(l.banner_lines(None, true)[0].contains("\x1b[1;32mWeekly limit: n/a"));
}

#[test]
fn all_of_a_limit() {
    let mut l = weekly();
    l.period_type = String::new();
    let lines = print_limit_detail(Some(&l), None, &vec![], &vec![], "/log", false).unwrap();
    assert_eq!(lines[0], "Grok Account Limit  ·  same source as /usage");
    assert_eq!(lines[4], "  Account      —");
    assert_eq!(lines[7], "  Limit        Weekly limit: n/a");
    assert_eq!(lines[8], "  Period       Weekly (—)");
    assert_eq!(lines[10], "  End / reset  2026-08-01T00:00:00Z");
    assert_eq!(lines[13], "  Source       unified.jsonl");
    assert_eq!(lines.len(), 16);
    let none = print_limit_detail(None, None, &vec![], &vec![], "/log", false).unwrap();
    assert_eq!(none[0], "No account limit data found.");
    assert_eq!(none[2], "Expected log: /log");
    l.period_end = Some("2026-08-0é".to_string());
    assert!(!l.can_be_shown());
    assert_eq!(
        print_limit_detail(Some(&l), None, &vec![], &vec![], "/log", false),
        Err(CutError)
    );
}
