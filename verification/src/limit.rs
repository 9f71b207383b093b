//! The limit of an account: how much of its quota is used, and for which period.
use crate::format::{c, painted};
use crate::json::{
    copy_opt, lemma_entry_push, no_entries, object, opt_json, opt_text, opt_tree, owned_opt, put,
    start_entries, text_json, text_or, trees, Json, JsonTree, Num, NumTree,
};
use crate::parse::{compact, compact_at, parse_json, path_of, text_tree};
use crate::text::{
    can_cut, chars_of, concat2, concat3, concat4, contains, cut, cuts_at, has_part, head, join,
    joined, lower, owned, push_line, replace_char, replaced, same_text, string_of, texts, trim,
    trimmed, upper,
};
use vstd::prelude::*;
use vstd::utf8::is_ascii_chars;

verus! {

/// The limit of an account.
#[derive(Debug, PartialEq, Eq)]
pub struct AccountLimit {
    /// How much of the quota is used, in percent.
    pub percent: Option<Num>,
    pub period_label: String,
    pub period_type: String,
    pub period_start: Option<String>,
    pub period_end: Option<String>,
    pub subscription: Option<String>,
    pub fetched_at: Option<String>,
    pub source: String,
    pub email: Option<String>,
    pub user_id: Option<String>,
    pub profile: Option<String>,
}

/// What a limit holds.
#[verifier::ext_equal]
pub struct Limit {
    pub percent: Option<NumTree>,
    pub period_label: Seq<char>,
    pub period_type: Seq<char>,
    pub period_start: Option<Seq<char>>,
    pub period_end: Option<Seq<char>>,
    pub subscription: Option<Seq<char>>,
    pub fetched_at: Option<Seq<char>>,
    pub source: Seq<char>,
    pub email: Option<Seq<char>>,
    pub user_id: Option<Seq<char>>,
    pub profile: Option<Seq<char>>,
}

/// What an optional number is.
pub open spec fn opt_num(n: Option<Num>) -> Option<NumTree> {
    match n {
        Some(n) => Some(n@),
        None => None,
    }
}

impl View for AccountLimit {
    type V = Limit;

    open spec fn view(&self) -> Limit {
        Limit {
            percent: opt_num(self.percent),
            period_label: self.period_label@,
            period_type: self.period_type@,
            period_start: opt_text(self.period_start),
            period_end: opt_text(self.period_end),
            subscription: opt_text(self.subscription),
            fetched_at: opt_text(self.fetched_at),
            source: self.source@,
            email: opt_text(self.email),
            user_id: opt_text(self.user_id),
            profile: opt_text(self.profile),
        }
    }
}

/// What an optional limit holds.
pub open spec fn opt_limit(l: Option<AccountLimit>) -> Option<Limit> {
    match l {
        Some(l) => Some(l@),
        None => None,
    }
}

/// The text of a message that reports a limit.
pub open spec fn limit_message() -> Seq<char> {
    "billing: fetched credits config"@
}

/// A line that reports a limit: it names the message.
pub open spec fn reports_limit(line: Seq<char>) -> bool {
    &&& has_part(line, limit_message())
    &&& text_tree(line) is Some
    &&& text_tree(line)->0.text_at("msg"@) == Some(limit_message())
}

/// The last line that reports a limit.
pub open spec fn last_report(lines: Seq<Seq<char>>) -> Option<Seq<char>>
    decreases lines.len(),
{
    if lines.len() == 0 {
        None
    } else if reports_limit(lines.last()) {
        Some(lines.last())
    } else {
        last_report(lines.drop_last())
    }
}

/// `std`'s `str::to_uppercase`.
pub uninterp spec fn upper_text(s: Seq<char>) -> Seq<char>;

/// `std`'s `str::to_lowercase`.
pub uninterp spec fn lower_text(s: Seq<char>) -> Seq<char>;

/// `str::to_uppercase`: the text in upper case. Of a text in ASCII each letter is mapped to its
/// upper case, and all else stays.
#[verifier::external_body]
fn to_upper(s: &str) -> (r: String)
    ensures
        r@ == upper_text(s@),
        is_ascii_chars(s@) ==> r@ == upper(s@),
{
    s.to_uppercase()
}

/// `str::to_lowercase`: the text in lower case. Of a text in ASCII each letter is mapped to its
/// lower case, and all else stays.
#[verifier::external_body]
fn to_lower(s: &str) -> (r: String)
    ensures
        r@ == lower_text(s@),
        is_ascii_chars(s@) ==> r@ == lower(s@),
{
    s.to_lowercase()
}

/// `s` in upper case.
pub open spec fn upper_case(s: Seq<char>) -> Seq<char> {
    if is_ascii_chars(s) {
        upper(s)
    } else {
        upper_text(s)
    }
}

/// `s` in lower case.
pub open spec fn lower_case(s: Seq<char>) -> Seq<char> {
    if is_ascii_chars(s) {
        lower(s)
    } else {
        lower_text(s)
    }
}

/// How a period is called, by its type in upper case.
pub open spec fn label_of(upper: Seq<char>) -> Seq<char> {
    if has_part(upper, "WEEKLY"@) {
        "Weekly"@
    } else if has_part(upper, "MONTHLY"@) {
        "Monthly"@
    } else {
        "Period"@
    }
}

/// How a period is called, by its type in upper case.
pub fn period_label(upper: &str) -> (r: String)
    ensures
        r@ == label_of(upper@),
{
    if contains(upper, "WEEKLY") {
        owned("Weekly")
    } else if contains(upper, "MONTHLY") {
        owned("Monthly")
    } else {
        owned("Period")
    }
}

/// The texts of the strings of a list.
pub open spec fn strings_of(a: Seq<JsonTree>) -> Seq<Seq<char>>
    decreases a.len(),
{
    if a.len() == 0 {
        Seq::empty()
    } else {
        match a.last() {
            JsonTree::Text(s) => strings_of(a.drop_last()).push(s),
            _ => strings_of(a.drop_last()),
        }
    }
}

/// The text of a plan: a string as it is, the strings of a list with commas between them, and
/// anything else as it is written.
pub open spec fn plan_text(t: JsonTree) -> Seq<char> {
    match t {
        JsonTree::Text(s) => s,
        JsonTree::Array(a) => joined(strings_of(a), ","@),
        _ => compact(t),
    }
}

/// The plan that a report names: the first of three places that there is.
pub open spec fn plan_of(ctx: JsonTree, cfg: JsonTree) -> Option<JsonTree> {
    match ctx.field("subscriptionTiers"@) {
        Some(t) => Some(t),
        None => match ctx.field("subscription_tier"@) {
            Some(t) => Some(t),
            None => cfg.field("subscription_tier"@),
        },
    }
}

/// The text of a plan, where it says something.
pub open spec fn subscription_of(plan: Option<Seq<char>>) -> Option<Seq<char>> {
    match plan {
        Some(s) => if s.len() == 0 || s == "null"@ {
            None
        } else {
            Some(s)
        },
        None => None,
    }
}

/// A text of the current period, else of the configuration.
pub open spec fn period_text(
    period: Option<JsonTree>,
    key: Seq<char>,
    cfg: JsonTree,
    other: Seq<char>,
) -> Option<Seq<char>> {
    match period {
        Some(p) => match p.text_at(key) {
            Some(s) => Some(s),
            None => cfg.text_at(other),
        },
        None => cfg.text_at(other),
    }
}

/// The number under a key.
pub open spec fn number_at(t: JsonTree, key: Seq<char>) -> Option<NumTree> {
    match t.field(key) {
        Some(JsonTree::Num(n)) => Some(n),
        _ => None,
    }
}

/// The type of the current period; empty where there is none.
pub open spec fn period_type_of(cfg: JsonTree) -> Seq<char> {
    match cfg.field("currentPeriod"@) {
        Some(p) => text_or(p.text_at("type"@), ""@),
        None => ""@,
    }
}

/// The limit that a report names, given the type of its period in upper case and the text of its
/// plan; nothing where the report has no configuration.
pub open spec fn limit_in(
    t: JsonTree,
    upper: Seq<char>,
    plan: Option<Seq<char>>,
) -> Option<Limit> {
    match t.field("ctx"@) {
        Some(ctx) => match ctx.field("config"@) {
            Some(cfg) => {
                let period = cfg.field("currentPeriod"@);
                Some(
                    Limit {
                        percent: number_at(cfg, "creditUsagePercent"@),
                        period_label: label_of(upper),
                        period_type: period_type_of(cfg),
                        period_start: period_text(period, "start"@, cfg, "billingPeriodStart"@),
                        period_end: period_text(period, "end"@, cfg, "billingPeriodEnd"@),
                        subscription: subscription_of(plan),
                        fetched_at: t.text_at("ts"@),
                        source: "unified.jsonl"@,
                        email: None,
                        user_id: None,
                        profile: None,
                    },
                )
            },
            None => None,
        },
        None => None,
    }
}

/// The type of the period that a report names.
pub open spec fn report_type(t: JsonTree) -> Seq<char> {
    match t.field("ctx"@) {
        Some(ctx) => match ctx.field("config"@) {
            Some(cfg) => period_type_of(cfg),
            None => ""@,
        },
        None => ""@,
    }
}

/// The text of the plan that a report names.
pub open spec fn report_plan(t: JsonTree) -> Option<Seq<char>> {
    match t.field("ctx"@) {
        Some(ctx) => match ctx.field("config"@) {
            Some(cfg) => match plan_of(ctx, cfg) {
                Some(plan) => Some(plan_text(plan)),
                None => None,
            },
            None => None,
        },
        None => None,
    }
}

/// The limit that a report names.
pub open spec fn limit_of(t: JsonTree) -> Option<Limit> {
    limit_in(t, upper_case(report_type(t)), report_plan(t))
}

/// What an optional reference to a value is.
pub open spec fn ref_tree(v: Option<&Json>) -> Option<JsonTree> {
    match v {
        Some(j) => Some(j@),
        None => None,
    }
}

fn text_in(v: Option<&Json>, key: &str) -> (r: Option<String>)
    ensures
        opt_text(r) == match ref_tree(v) {
            Some(t) => t.text_at(key@),
            None => None,
        },
{
    match v {
        Some(j) => owned_opt(j.get_str(key)),
        None => None,
    }
}

fn period_field(period: Option<&Json>, key: &str, cfg: &Json, other: &str) -> (r: Option<String>)
    ensures
        opt_text(r) == period_text(ref_tree(period), key@, cfg@, other@),
{
    match text_in(period, key) {
        Some(s) => Some(s),
        None => owned_opt(cfg.get_str(other)),
    }
}

fn number_in(v: &Json, key: &str) -> (r: Option<Num>)
    ensures
        opt_num(r) == number_at(v@, key@),
{
    match v.get(key) {
        Some(j) => match j {
            Json::Num(n) => Some(n.copy()),
            _ => None,
        },
        None => None,
    }
}

/// The strings of a list with commas between them.
fn joined_strings(a: &Vec<Json>) -> (r: String)
    ensures
        r@ == joined(strings_of(trees(a@)), ","@),
{
    let ghost all = trees(a@);
    let mut parts: Vec<String> = Vec::new();
    assert(texts(parts@) =~= strings_of(all.take(0)));
    for i in 0..a.len()
        invariant
            all == trees(a@),
            texts(parts@) == strings_of(all.take(i as int)),
    {
        assert(all.take(i as int + 1).drop_last() =~= all.take(i as int));
        match a[i].as_str() {
            Some(s) => {
                push_line(&mut parts, owned(s));
            },
            None => {},
        }
    }
    assert(all.take(a@.len() as int) =~= all);
    join(&parts, ",")
}

/// The text of the plan `plan`; `keys` lead to the plan in `line`.
fn plan_text_at(line: &str, keys: &Vec<&str>, plan: &Json) -> (r: String)
    requires
        text_tree(line@) is Some,
        text_tree(line@)->0.at(path_of(keys@)) == Some(plan@),
    ensures
        r@ == plan_text(plan@),
{
    proof {
        plan.lemma_tree();
    }
    match plan {
        Json::Text(s) => owned(s.as_str()),
        Json::Array(a) => joined_strings(a),
        _ => match compact_at(line, keys) {
            Some(s) => s,
            None => String::new(),
        },
    }
}

proof fn lemma_path2(t: JsonTree, a: &str, b: &str, keys: Seq<&str>)
    requires
        keys == seq![a, b],
    ensures
        t.at(path_of(keys)) == match t.field(a@) {
            Some(x) => x.field(b@),
            None => None,
        },
{
    let path = path_of(keys);
    reveal_with_fuel(JsonTree::at, 3);
    assert(path.skip(1) =~= seq![b@]);
    assert(path.skip(1).skip(1) =~= Seq::<Seq<char>>::empty());
    assert(path[0] == a@);
    assert(path.skip(1)[0] == b@);
}

proof fn lemma_path3(t: JsonTree, a: &str, b: &str, d: &str, keys: Seq<&str>)
    requires
        keys == seq![a, b, d],
    ensures
        t.at(path_of(keys)) == match t.field(a@) {
            Some(x) => match x.field(b@) {
                Some(y) => y.field(d@),
                None => None,
            },
            None => None,
        },
{
    let path = path_of(keys);
    reveal_with_fuel(JsonTree::at, 4);
    assert(path.skip(1) =~= seq![b@, d@]);
    assert(path.skip(1).skip(1) =~= seq![d@]);
    assert(path.skip(1).skip(1).skip(1) =~= Seq::<Seq<char>>::empty());
    assert(path[0] == a@);
    assert(path.skip(1)[0] == b@);
    assert(path.skip(1).skip(1)[0] == d@);
}

/// The text of the plan that the report `line` names; `last` is the value of the line.
fn plan_in_report(line: &str, last: &Json) -> (r: Option<String>)
    requires
        text_tree(line@) == Some(last@),
    ensures
        opt_text(r) == report_plan(last@),
{
    let ghost t = last@;
    let ctx = match last.get("ctx") {
        Some(ctx) => ctx,
        None => {
            return None;
        },
    };
    let cfg = match ctx.get("config") {
        Some(cfg) => cfg,
        None => {
            return None;
        },
    };
    if let Some(plan) = ctx.get("subscriptionTiers") {
        let keys: Vec<&str> = vec!["ctx", "subscriptionTiers"];
        proof {
            assert(keys@ =~= seq!["ctx", "subscriptionTiers"]);
            lemma_path2(t, "ctx", "subscriptionTiers", keys@);
        }
        return Some(plan_text_at(line, &keys, plan));
    }
    if let Some(plan) = ctx.get("subscription_tier") {
        let keys: Vec<&str> = vec!["ctx", "subscription_tier"];
        proof {
            assert(keys@ =~= seq!["ctx", "subscription_tier"]);
            lemma_path2(t, "ctx", "subscription_tier", keys@);
        }
        return Some(plan_text_at(line, &keys, plan));
    }
    if let Some(plan) = cfg.get("subscription_tier") {
        let keys: Vec<&str> = vec!["ctx", "config", "subscription_tier"];
        proof {
            assert(keys@ =~= seq!["ctx", "config", "subscription_tier"]);
            lemma_path3(t, "ctx", "config", "subscription_tier", keys@);
        }
        return Some(plan_text_at(line, &keys, plan));
    }
    None
}

/// The type of the period that a report names.
fn type_in_report(last: &Json) -> (r: String)
    ensures
        r@ == report_type(last@),
{
    let found = match last.get("ctx") {
        Some(ctx) => match ctx.get("config") {
            Some(cfg) => text_in(cfg.get("currentPeriod"), "type"),
            None => None,
        },
        None => None,
    };
    match found {
        Some(s) => s,
        None => owned(""),
    }
}

/// The limit that a report names, given the type of its period in upper case and the text of its
/// plan.
pub fn limit_from_report(last: &Json, upper: &str, plan: Option<String>) -> (r: Option<
    AccountLimit,
>)
    ensures
        opt_limit(r) == limit_in(last@, upper@, opt_text(plan)),
{
    let ctx = match last.get("ctx") {
        Some(ctx) => ctx,
        None => {
            return None;
        },
    };
    let cfg = match ctx.get("config") {
        Some(cfg) => cfg,
        None => {
            return None;
        },
    };
    let period = cfg.get("currentPeriod");
    let subscription = match plan {
        Some(s) => if s.as_str().is_empty() || same_text(s.as_str(), "null") {
            None
        } else {
            Some(s)
        },
        None => None,
    };
    Some(
        AccountLimit {
            percent: number_in(cfg, "creditUsagePercent"),
            period_label: period_label(upper),
            period_type: type_in_report(last),
            period_start: period_field(period, "start", cfg, "billingPeriodStart"),
            period_end: period_field(period, "end", cfg, "billingPeriodEnd"),
            subscription,
            fetched_at: owned_opt(last.get_str("ts")),
            source: owned("unified.jsonl"),
            email: None,
            user_id: None,
            profile: None,
        },
    )
}

/// The limit that the log with the lines `lines` names: that of its last report.
pub open spec fn limit_of_log(lines: Seq<Seq<char>>) -> Option<Limit> {
    match last_report(lines) {
        Some(line) => limit_of(text_tree(line)->0),
        None => None,
    }
}

/// The limit that a log names: that of its last report.
pub fn limit_from_log(lines: &Vec<String>) -> (r: Option<AccountLimit>)
    ensures
        opt_limit(r) == limit_of_log(texts(lines@)),
{
    let ghost all = texts(lines@);
    let mut last: Option<(usize, Json)> = None;
    for i in 0..lines.len()
        invariant
            all == texts(lines@),
            last is None <==> last_report(all.take(i as int)) is None,
            last matches Some(p) ==> {
                &&& p.0 < lines.len()
                &&& last_report(all.take(i as int)) == Some(all[p.0 as int])
                &&& text_tree(all[p.0 as int]) == Some(p.1@)
            },
    {
        assert(all.take(i as int + 1).drop_last() =~= all.take(i as int));
        assert(all.take(i as int + 1).last() == lines@[i as int]@);
        let line = lines[i].as_str();
        if contains(line, "billing: fetched credits config") {
            if let Ok(obj) = parse_json(line) {
                let reports = match obj.get_str("msg") {
                    Some(m) => same_text(m, "billing: fetched credits config"),
                    None => false,
                };
                if reports {
                    last = Some((i, obj));
                }
            }
        }
    }
    assert(all.take(lines@.len() as int) =~= all);
    match last {
        Some((i, obj)) => {
            let upper = to_upper(type_in_report(&obj).as_str());
            let plan = plan_in_report(lines[i].as_str(), &obj);
            limit_from_report(&obj, upper.as_str(), plan)
        },
        None => None,
    }
}

/// The pattern of a phrase that names a limit.
pub open spec fn phrase_pattern() -> Seq<char> {
    "(?i)(Weekly|Monthly)\\s+limit:\\s*([0-9]+(?:\\.[0-9]+)?)\\s*%"@
}

/// The first phrase in a text that names a limit, as `regex` finds it: the period and the number.
pub uninterp spec fn phrase_in(text: Seq<char>) -> Option<(Seq<char>, Seq<char>)>;

/// A text that starts with the first letter of a period.
pub open spec fn starts_period(s: Seq<char>) -> bool {
    s.len() > 0 && (s[0] == 'W' || s[0] == 'w' || s[0] == 'M' || s[0] == 'm')
}

/// A decimal number: digits, perhaps with a point between them.
pub open spec fn is_decimal(s: Seq<char>) -> bool {
    &&& s.len() > 0
    &&& '0' <= s[0] <= '9'
    &&& '0' <= s.last() <= '9'
    &&& forall|i: int| 0 <= i < s.len() ==> '0' <= #[trigger] s[i] <= '9' || s[i] == '.'
}

/// What two texts are.
pub open spec fn pair_text(p: Option<(String, String)>) -> Option<(Seq<char>, Seq<char>)> {
    match p {
        Some((a, b)) => Some((a@, b@)),
        None => None,
    }
}

/// `regex`: `Regex::new`, `Regex::captures` and the two groups of the first match. The first group
/// starts with a letter of the pattern, in either case; the second is a decimal number.
#[verifier::external_body]
fn find_phrase(text: &str, pattern: &str) -> (r: Option<(String, String)>)
    requires
        pattern@ == phrase_pattern(),
    ensures
        pair_text(r) == phrase_in(text@),
        r matches Some(p) ==> starts_period(p.0@) && is_decimal(p.1@),
{
    let found = regex::Regex::new(pattern).unwrap().captures(text)?;
    Some((found.get(1)?.as_str().to_string(), found.get(2)?.as_str().to_string()))
}

/// The first letter of a period in upper case.
pub open spec fn first_letter(s: Seq<char>) -> char {
    if s[0] == 'W' || s[0] == 'w' {
        'W'
    } else {
        'M'
    }
}

/// The limit that a phrase names: `label` is how it calls the period, `rest` the same in lower
/// case without the first letter, and `number` the percentage.
pub open spec fn limit_in_phrase(label: Seq<char>, rest: Seq<char>, number: Seq<char>) -> Limit {
    Limit {
        percent: Some(NumTree::Float(number)),
        period_label: seq![first_letter(label)] + rest,
        period_type: ""@,
        period_start: None,
        period_end: None,
        subscription: None,
        fetched_at: None,
        source: "last-copy"@,
        email: None,
        user_id: None,
        profile: None,
    }
}

/// The limit that a phrase names: `label` is how it calls the period, `rest` the same in lower
/// case without the first letter, and `number` the percentage.
pub fn limit_from_phrase(label: &str, rest: &str, number: String) -> (r: AccountLimit)
    requires
        starts_period(label@),
    ensures
        r@ == limit_in_phrase(label@, rest@, number@),
{
    let first = chars_of(label)[0];
    let mut period_label = String::new();
    period_label.push(if first == 'W' || first == 'w' {
        'W'
    } else {
        'M'
    });
    period_label.append(rest);
    assert(period_label@ =~= seq![first_letter(label@)] + rest@);
    AccountLimit {
        percent: Some(Num::Float(number)),
        period_label,
        period_type: owned(""),
        period_start: None,
        period_end: None,
        subscription: None,
        fetched_at: None,
        source: owned("last-copy"),
        email: None,
        user_id: None,
        profile: None,
    }
}

/// The limit that a copied text names, where a phrase in it names one.
pub open spec fn limit_of_copy(text: Seq<char>) -> Option<Limit> {
    match phrase_in(trimmed(text)) {
        Some((label, number)) => Some(
            limit_in_phrase(label, lower_case(label.skip(1)), number),
        ),
        None => None,
    }
}

/// The limit that a copied text names, where a phrase in it names one.
pub fn limit_from_copy(text: &str) -> (r: Option<AccountLimit>)
    ensures
        opt_limit(r) == limit_of_copy(text@),
        r matches Some(l) ==> (l@.percent matches Some(NumTree::Float(s)) && is_decimal(s)),
{
    let text = trim(text);
    match find_phrase(
        text.as_str(),
        "(?i)(Weekly|Monthly)\\s+limit:\\s*([0-9]+(?:\\.[0-9]+)?)\\s*%",
    ) {
        Some((label, number)) => {
            let chars = chars_of(label.as_str());
            let rest = to_lower(string_of(&chars, 1, chars.len()).as_str());
            assert(chars@.subrange(1, chars@.len() as int) =~= label@.skip(1));
            Some(limit_from_phrase(label.as_str(), rest.as_str(), number))
        },
        None => None,
    }
}

/// Where a limit is looked for.
pub enum LimitSource {
    /// There is no log; the text that was copied last, where it can be read.
    NoLog(Option<String>),
    /// The log cannot be read.
    Unreadable,
    /// The lines of the log.
    Log(Vec<String>),
}

/// The limit that a source names.
pub open spec fn limit_of_source(source: LimitSource) -> Option<Limit> {
    match source {
        LimitSource::NoLog(Some(text)) => limit_of_copy(text@),
        LimitSource::NoLog(None) => None,
        LimitSource::Unreadable => None,
        LimitSource::Log(lines) => limit_of_log(texts(lines@)),
    }
}

/// The limit of the account: by the log, or, where there is none, by the text that was copied
/// last.
pub fn load_account_limit(source: &LimitSource) -> (r: Option<AccountLimit>)
    ensures
        opt_limit(r) == limit_of_source(*source),
{
    match source {
        LimitSource::NoLog(copy) => match copy {
            Some(text) => limit_from_copy(text.as_str()),
            None => None,
        },
        LimitSource::Unreadable => None,
        LimitSource::Log(lines) => limit_from_log(lines),
    }
}

/// Where to start to read a log of `size` bytes of which no more than `max_bytes` are read; nothing
/// where all of it is read. The line in which it starts is passed over.
pub fn tail_start(size: u64, max_bytes: u64) -> (r: Option<u64>)
    ensures
        r is Some <==> size > max_bytes,
        r matches Some(at) ==> at == size - max_bytes,
{
    if size > max_bytes {
        Some(size - max_bytes)
    } else {
        None
    }
}

/// A percentage as a double.
#[derive(Debug, PartialEq, Eq)]
pub struct Gauge {
    /// The double as it is written in JSON.
    pub number: Num,
    /// The double as it is shown.
    pub shown: String,
    /// The double, rounded down.
    pub floor: i64,
}

/// What a gauge is.
#[verifier::ext_equal]
pub struct GaugeTree {
    pub number: NumTree,
    pub shown: Seq<char>,
    pub floor: i64,
}

impl View for Gauge {
    type V = GaugeTree;

    open spec fn view(&self) -> GaugeTree {
        GaugeTree { number: self.number@, shown: self.shown@, floor: self.floor }
    }
}

/// What an optional gauge is.
pub open spec fn opt_gauge(g: Option<&Gauge>) -> Option<GaugeTree> {
    match g {
        Some(g) => Some(g@),
        None => None,
    }
}

/// The number of a gauge; null where there is none.
pub open spec fn gauge_tree(g: Option<GaugeTree>) -> JsonTree {
    match g {
        Some(g) => JsonTree::Num(g.number),
        None => JsonTree::Null,
    }
}

fn gauge_json(gauge: Option<&Gauge>) -> (r: Json)
    ensures
        r@ == gauge_tree(opt_gauge(gauge)),
{
    match gauge {
        Some(g) => Json::Num(g.number.copy()),
        None => Json::Null,
    }
}

/// A limit in one line.
pub open spec fn headline_of(l: Limit, g: Option<GaugeTree>) -> Seq<char> {
    match g {
        Some(g) => l.period_label + " limit: "@ + g.shown + "%"@,
        None => l.period_label + " limit: n/a"@,
    }
}

/// What is shown of a limit.
pub open spec fn public_limit(l: Limit, g: Option<GaugeTree>) -> JsonTree {
    JsonTree::Object(
        no_entries()
            .push(("email"@, opt_tree(l.email)))
            .push(("fetched_at"@, opt_tree(l.fetched_at)))
            .push(("headline"@, JsonTree::Text(headline_of(l, g))))
            .push(("percent"@, gauge_tree(g)))
            .push(("period_end"@, opt_tree(l.period_end)))
            .push(("period_label"@, JsonTree::Text(l.period_label)))
            .push(("period_start"@, opt_tree(l.period_start)))
            .push(("period_type"@, JsonTree::Text(l.period_type)))
            .push(("profile"@, opt_tree(l.profile)))
            .push(("source"@, JsonTree::Text(l.source)))
            .push(("subscription"@, opt_tree(l.subscription)))
            .push(("user_id"@, opt_tree(l.user_id))),
    )
}

/// The fields of a limit.
pub open spec fn limit_fields(l: Limit, g: Option<GaugeTree>) -> JsonTree {
    JsonTree::Object(
        no_entries()
            .push(("email"@, opt_tree(l.email)))
            .push(("fetched_at"@, opt_tree(l.fetched_at)))
            .push(("percent"@, gauge_tree(g)))
            .push(("period_end"@, opt_tree(l.period_end)))
            .push(("period_label"@, JsonTree::Text(l.period_label)))
            .push(("period_start"@, opt_tree(l.period_start)))
            .push(("period_type"@, JsonTree::Text(l.period_type)))
            .push(("profile"@, opt_tree(l.profile)))
            .push(("source"@, JsonTree::Text(l.source)))
            .push(("subscription"@, opt_tree(l.subscription)))
            .push(("user_id"@, opt_tree(l.user_id))),
    )
}

/// The colour of a headline: red from 95 percent on, yellow from 80 on, else green.
pub open spec fn band_code(g: Option<GaugeTree>) -> Seq<char> {
    match g {
        Some(g) => if g.floor >= 95 {
            "1;31"@
        } else if g.floor >= 80 {
            "1;33"@
        } else {
            "1;32"@
        },
        None => "1;32"@,
    }
}

/// The colour of a headline: red from 95 percent on, yellow from 80 on, else green.
pub fn band_color(gauge: Option<&Gauge>) -> (r: &'static str)
    ensures
        r@ == band_code(opt_gauge(gauge)),
{
    match gauge {
        Some(g) => if g.floor >= 95 {
            "1;31"
        } else if g.floor >= 80 {
            "1;33"
        } else {
            "1;32"
        },
        None => "1;32",
    }
}

/// The times of the limit can be cut to the day and to the second.
pub open spec fn can_show(l: Limit) -> bool {
    &&& l.period_end matches Some(end) ==> cuts_at(end, 10)
    &&& l.fetched_at matches Some(ts) ==> cuts_at(replaced(ts, 'T', ' '), 19)
}

/// The parts of the line that shows a limit.
pub open spec fn banner_parts(l: Limit, g: Option<GaugeTree>, color: bool) -> Seq<Seq<char>> {
    let none = Seq::<Seq<char>>::empty();
    let a = match l.email {
        Some(email) => none.push(painted(color, "1"@, email)),
        None => none,
    };
    let b = match l.profile {
        Some(profile) => a.push(painted(color, "32"@, "profile "@ + profile)),
        None => a,
    };
    let d = b.push(painted(color, band_code(g), headline_of(l, g)));
    let e = match l.period_end {
        Some(end) => d.push(painted(color, "2"@, "reset "@ + head(end, 10))),
        None => d,
    };
    let f = match l.subscription {
        Some(sub) => e.push(painted(color, "36"@, sub)),
        None => e,
    };
    match l.fetched_at {
        Some(ts) => f.push(
            painted(color, "2"@, "as of "@ + head(replaced(ts, 'T', ' '), 19) + " UTC"@),
        ),
        None => f,
    }
}

/// The lines that show a limit.
pub open spec fn banner(l: Limit, g: Option<GaugeTree>, color: bool) -> Seq<Seq<char>> {
    Seq::empty().push(joined(banner_parts(l, g, color), "  ·  "@)).push(""@)
}

impl AccountLimit {
    /// The limit in one line.
    pub fn headline(&self, gauge: Option<&Gauge>) -> (r: String)
        ensures
            r@ == headline_of(self@, opt_gauge(gauge)),
    {
        match gauge {
            Some(g) => concat4(self.period_label.as_str(), " limit: ", g.shown.as_str(), "%"),
            None => concat2(self.period_label.as_str(), " limit: n/a"),
        }
    }

    /// What is shown of the limit.
    pub fn as_public(&self, gauge: Option<&Gauge>) -> (r: Json)
        ensures
            r@ == public_limit(self@, opt_gauge(gauge)),
    {
        let headline = self.headline(gauge);
        let mut e = start_entries();
        put(&mut e, "email", opt_json(&self.email));
        put(&mut e, "fetched_at", opt_json(&self.fetched_at));
        put(&mut e, "headline", Json::Text(headline));
        put(&mut e, "percent", gauge_json(gauge));
        put(&mut e, "period_end", opt_json(&self.period_end));
        put(&mut e, "period_label", text_json(self.period_label.as_str()));
        put(&mut e, "period_start", opt_json(&self.period_start));
        put(&mut e, "period_type", text_json(self.period_type.as_str()));
        put(&mut e, "profile", opt_json(&self.profile));
        put(&mut e, "source", text_json(self.source.as_str()));
        put(&mut e, "subscription", opt_json(&self.subscription));
        put(&mut e, "user_id", opt_json(&self.user_id));
        object(e)
    }

    /// The fields of the limit.
    pub fn as_fields(&self, gauge: Option<&Gauge>) -> (r: Json)
        ensures
            r@ == limit_fields(self@, opt_gauge(gauge)),
    {
        let mut e = start_entries();
        put(&mut e, "email", opt_json(&self.email));
        put(&mut e, "fetched_at", opt_json(&self.fetched_at));
        put(&mut e, "percent", gauge_json(gauge));
        put(&mut e, "period_end", opt_json(&self.period_end));
        put(&mut e, "period_label", text_json(self.period_label.as_str()));
        put(&mut e, "period_start", opt_json(&self.period_start));
        put(&mut e, "period_type", text_json(self.period_type.as_str()));
        put(&mut e, "profile", opt_json(&self.profile));
        put(&mut e, "source", text_json(self.source.as_str()));
        put(&mut e, "subscription", opt_json(&self.subscription));
        put(&mut e, "user_id", opt_json(&self.user_id));
        object(e)
    }

    /// A copy of the limit.
    pub fn copy(&self) -> (r: AccountLimit)
        ensures
            r@ == self@,
    {
        AccountLimit {
            percent: match &self.percent {
                Some(n) => Some(n.copy()),
                None => None,
            },
            period_label: owned(self.period_label.as_str()),
            period_type: owned(self.period_type.as_str()),
            period_start: copy_opt(&self.period_start),
            period_end: copy_opt(&self.period_end),
            subscription: copy_opt(&self.subscription),
            fetched_at: copy_opt(&self.fetched_at),
            source: owned(self.source.as_str()),
            email: copy_opt(&self.email),
            user_id: copy_opt(&self.user_id),
            profile: copy_opt(&self.profile),
        }
    }

    /// Whether the times of the limit can be cut to the day and to the second.
    pub fn can_be_shown(&self) -> (r: bool)
        ensures
            r == can_show(self@),
    {
        let end = match &self.period_end {
            Some(end) => can_cut(end.as_str(), 10),
            None => true,
        };
        let fetched = match &self.fetched_at {
            Some(ts) => can_cut(replace_char(ts.as_str(), 'T', ' ').as_str(), 19),
            None => true,
        };
        end && fetched
    }

    /// The lines that show the limit.
    pub fn banner_lines(&self, gauge: Option<&Gauge>, color: bool) -> (r: Vec<String>)
        requires
            can_show(self@),
        ensures
            texts(r@) == banner(self@, opt_gauge(gauge), color),
    {
        let headline = self.headline(gauge);
        let mut bits: Vec<String> = Vec::new();
        assert(texts(bits@) =~= Seq::<Seq<char>>::empty());
        if let Some(email) = &self.email {
            push_line(&mut bits, c(color, "1", email.as_str()));
        }
        if let Some(profile) = &self.profile {
            push_line(
                &mut bits,
                c(color, "32", concat2("profile ", profile.as_str()).as_str()),
            );
        }
        push_line(&mut bits, c(color, band_color(gauge), headline.as_str()));
        if let Some(end) = &self.period_end {
            let day = cut(end.as_str(), 10);
            push_line(&mut bits, c(color, "2", concat2("reset ", day.as_str()).as_str()));
        }
        if let Some(sub) = &self.subscription {
            push_line(&mut bits, c(color, "36", sub.as_str()));
        }
        if let Some(ts) = &self.fetched_at {
            let shown = replace_char(ts.as_str(), 'T', ' ');
            let second = cut(shown.as_str(), 19);
            push_line(
                &mut bits,
                c(color, "2", concat3("as of ", second.as_str(), " UTC").as_str()),
            );
        }
        let mut out: Vec<String> = Vec::new();
        assert(texts(out@) =~= Seq::<Seq<char>>::empty());
        push_line(&mut out, join(&bits, "  ·  "));
        push_line(&mut out, owned(""));
        out
    }
}

/// The limit that a stored value names.
pub open spec fn stored_limit(t: JsonTree) -> Limit {
    Limit {
        percent: number_at(t, "percent"@),
        period_label: text_or(t.text_at("period_label"@), "Period"@),
        period_type: text_or(t.text_at("period_type"@), ""@),
        period_start: t.text_at("period_start"@),
        period_end: t.text_at("period_end"@),
        subscription: t.text_at("subscription"@),
        fetched_at: t.text_at("fetched_at"@),
        source: text_or(t.text_at("source"@), "profile"@),
        email: t.text_at("email"@),
        user_id: t.text_at("user_id"@),
        profile: t.text_at("profile"@),
    }
}

fn text_field_or(v: &Json, key: &str, other: &str) -> (r: String)
    ensures
        r@ == text_or(v@.text_at(key@), other@),
{
    match v.get_str(key) {
        Some(s) => owned(s),
        None => owned(other),
    }
}

/// The limit that a stored value names.
pub fn account_limit_from_stored(v: &Json) -> (r: AccountLimit)
    ensures
        r@ == stored_limit(v@),
{
    AccountLimit {
        percent: number_in(v, "percent"),
        period_label: text_field_or(v, "period_label", "Period"),
        period_type: text_field_or(v, "period_type", ""),
        period_start: owned_opt(v.get_str("period_start")),
        period_end: owned_opt(v.get_str("period_end")),
        subscription: owned_opt(v.get_str("subscription")),
        fetched_at: owned_opt(v.get_str("fetched_at")),
        source: text_field_or(v, "source", "profile"),
        email: owned_opt(v.get_str("email")),
        user_id: owned_opt(v.get_str("user_id")),
        profile: owned_opt(v.get_str("profile")),
    }
}

/// What is stored of a limit gives the limit back, with its percentage as a double.
pub proof fn law_stored_limit(l: Limit, g: Option<GaugeTree>)
    ensures
        stored_limit(public_limit(l, g)) == (Limit {
            percent: match g {
                Some(g) => Some(g.number),
                None => None,
            },
            ..l
        }),
{
    reveal_strlit("email");
    reveal_strlit("fetched_at");
    reveal_strlit("headline");
    reveal_strlit("percent");
    reveal_strlit("period_end");
    reveal_strlit("period_label");
    reveal_strlit("period_start");
    reveal_strlit("period_type");
    reveal_strlit("profile");
    reveal_strlit("source");
    reveal_strlit("subscription");
    reveal_strlit("user_id");
    assert("email"@.len() == 5);
    assert("fetched_at"@.len() == 10);
    assert("headline"@.len() == 8);
    assert("percent"@.len() == 7);
    assert("period_end"@.len() == 10);
    assert("period_label"@.len() == 12);
    assert("period_start"@.len() == 12);
    assert("period_type"@.len() == 11);
    assert("profile"@.len() == 7);
    assert("source"@.len() == 6);
    assert("subscription"@.len() == 12);
    assert("user_id"@.len() == 7);
    assert("fetched_at"@[0] != "period_end"@[0]);
    assert("percent"@[1] != "profile"@[1]);
    assert("percent"@[0] != "user_id"@[0] && "profile"@[0] != "user_id"@[0]);
    assert("period_label"@[7] != "period_start"@[7]);
    assert("period_label"@[0] != "subscription"@[0] && "period_start"@[0] != "subscription"@[0]);
    broadcast use lemma_entry_push;

    let t = public_limit(l, g);
    assert(t.field("email"@) == Some(opt_tree(l.email)));
    assert(t.field("fetched_at"@) == Some(opt_tree(l.fetched_at)));
    assert(t.field("percent"@) == Some(gauge_tree(g)));
    assert(t.field("period_end"@) == Some(opt_tree(l.period_end)));
    assert(t.field("period_label"@) == Some(JsonTree::Text(l.period_label)));
    assert(t.field("period_start"@) == Some(opt_tree(l.period_start)));
    assert(t.field("period_type"@) == Some(JsonTree::Text(l.period_type)));
    assert(t.field("profile"@) == Some(opt_tree(l.profile)));
    assert(t.field("source"@) == Some(JsonTree::Text(l.source)));
    assert(t.field("subscription"@) == Some(opt_tree(l.subscription)));
    assert(t.field("user_id"@) == Some(opt_tree(l.user_id)));
    assert(stored_limit(public_limit(l, g)) =~= (Limit {
        percent: match g {
            Some(g) => Some(g.number),
            None => None,
        },
        ..l
    }));
}

} // verus!
