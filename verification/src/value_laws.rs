//! What holds of the values that limits and accounts are shown and stored as.
use crate::account_report::{done_fields, list_row_tree, list_tree, whoami_tree};
use crate::accounts::{bundle_tree, ExportTree};
use crate::daily::DailyStat;
use crate::identity::{full_name, public_identity, Identity};
use crate::json::{lemma_entry_push, JsonTree, NumTree};
use crate::limit::{headline_of, limit_fields, public_limit, GaugeTree, Limit};
use crate::overview::{day_trees, payload, row_fields, rows_tree, session_trees};
use crate::report::{public_day, public_session, Money};
use crate::rows::{ListRowTree, ListTree, RowTree};
use crate::session::SessionStat;
use vstd::prelude::*;

verus! {

/// The value of a text that may be missing.
pub open spec fn text_or_null(s: Option<Seq<char>>) -> JsonTree {
    match s {
        Some(s) => JsonTree::Text(s),
        None => JsonTree::Null,
    }
}

/// The value of a share that may be missing.
pub open spec fn share_or_null(g: Option<GaugeTree>) -> JsonTree {
    match g {
        Some(g) => JsonTree::Num(g.number),
        None => JsonTree::Null,
    }
}

/// The value of a limit holds each of its parts under the key of that name, and its headline.
pub proof fn law_value_of_a_limit(l: Limit, g: Option<GaugeTree>)
    ensures
        public_limit(l, g).field("email"@) == Some(text_or_null(l.email)),
        public_limit(l, g).field("fetched_at"@) == Some(text_or_null(l.fetched_at)),
        public_limit(l, g).field("headline"@) == Some(JsonTree::Text(headline_of(l, g))),
        public_limit(l, g).field("percent"@) == Some(share_or_null(g)),
        public_limit(l, g).field("period_end"@) == Some(text_or_null(l.period_end)),
        public_limit(l, g).field("period_label"@) == Some(JsonTree::Text(l.period_label)),
        public_limit(l, g).field("period_start"@) == Some(text_or_null(l.period_start)),
        public_limit(l, g).field("period_type"@) == Some(JsonTree::Text(l.period_type)),
        public_limit(l, g).field("profile"@) == Some(text_or_null(l.profile)),
        public_limit(l, g).field("source"@) == Some(JsonTree::Text(l.source)),
        public_limit(l, g).field("subscription"@) == Some(text_or_null(l.subscription)),
        public_limit(l, g).field("user_id"@) == Some(text_or_null(l.user_id)),
{
    reveal_strlit("email");
    reveal_strlit("fetched_at");
    reveal_strlit("headline");
    reveal_strlit("percent");
    reveal_strlit("period_end");
    reveal_strlit("period_label");
    reveal_strlit("period_start");
    reveal_strlit("period_type");
    reveal_strlit("profile");
    reveal_strlit("source");
    reveal_strlit("subscription");
    reveal_strlit("user_id");
    assert("email"@.len() == 5);
    assert("fetched_at"@.len() == 10);
    assert("headline"@.len() == 8);
    assert("percent"@.len() == 7);
    assert("period_end"@.len() == 10);
    assert("period_label"@.len() == 12);
    assert("period_start"@.len() == 12);
    assert("period_type"@.len() == 11);
    assert("profile"@.len() == 7);
    assert("source"@.len() == 6);
    assert("subscription"@.len() == 12);
    assert("user_id"@.len() == 7);
    assert("fetched_at"@[0] != "period_end"@[0]);
    assert("percent"@[1] != "profile"@[1]);
    assert("percent"@[0] != "user_id"@[0]);
    assert("period_label"@[7] != "period_start"@[7]);
    assert("period_label"@[0] != "subscription"@[0]);
    assert("period_start"@[0] != "subscription"@[0]);
    assert("profile"@[0] != "user_id"@[0]);
    broadcast use lemma_entry_push;

    let t = public_limit(l, g);
    assert(t.field("email"@) == Some(text_or_null(l.email)));
    assert(t.field("fetched_at"@) == Some(text_or_null(l.fetched_at)));
    assert(t.field("headline"@) == Some(JsonTree::Text(headline_of(l, g))));
    assert(t.field("percent"@) == Some(share_or_null(g)));
    assert(t.field("period_end"@) == Some(text_or_null(l.period_end)));
    assert(t.field("period_label"@) == Some(JsonTree::Text(l.period_label)));
    assert(t.field("period_start"@) == Some(text_or_null(l.period_start)));
    assert(t.field("period_type"@) == Some(JsonTree::Text(l.period_type)));
    assert(t.field("profile"@) == Some(text_or_null(l.profile)));
    assert(t.field("source"@) == Some(JsonTree::Text(l.source)));
    assert(t.field("subscription"@) == Some(text_or_null(l.subscription)));
    assert(t.field("user_id"@) == Some(text_or_null(l.user_id)));
}

/// The value of the limit of an account in a list holds each of its parts under the key of that
/// name.
pub proof fn law_value_of_an_accounts_limit(l: Limit, g: Option<GaugeTree>)
    ensures
        limit_fields(l, g).field("email"@) == Some(text_or_null(l.email)),
        limit_fields(l, g).field("fetched_at"@) == Some(text_or_null(l.fetched_at)),
        limit_fields(l, g).field("percent"@) == Some(share_or_null(g)),
        limit_fields(l, g).field("period_end"@) == Some(text_or_null(l.period_end)),
        limit_fields(l, g).field("period_label"@) == Some(JsonTree::Text(l.period_label)),
        limit_fields(l, g).field("period_start"@) == Some(text_or_null(l.period_start)),
        limit_fields(l, g).field("period_type"@) == Some(JsonTree::Text(l.period_type)),
        limit_fields(l, g).field("profile"@) == Some(text_or_null(l.profile)),
        limit_fields(l, g).field("source"@) == Some(JsonTree::Text(l.source)),
        limit_fields(l, g).field("subscription"@) == Some(text_or_null(l.subscription)),
        limit_fields(l, g).field("user_id"@) == Some(text_or_null(l.user_id)),
{
    reveal_strlit("email");
    reveal_strlit("fetched_at");
    reveal_strlit("percent");
    reveal_strlit("period_end");
    reveal_strlit("period_label");
    reveal_strlit("period_start");
    reveal_strlit("period_type");
    reveal_strlit("profile");
    reveal_strlit("source");
    reveal_strlit("subscription");
    reveal_strlit("user_id");
    assert("email"@.len() == 5);
    assert("fetched_at"@.len() == 10);
    assert("percent"@.len() == 7);
    assert("period_end"@.len() == 10);
    assert("period_label"@.len() == 12);
    assert("period_start"@.len() == 12);
    assert("period_type"@.len() == 11);
    assert("profile"@.len() == 7);
    assert("source"@.len() == 6);
    assert("subscription"@.len() == 12);
    assert("user_id"@.len() == 7);
    assert("fetched_at"@[0] != "period_end"@[0]);
    assert("percent"@[1] != "profile"@[1]);
    assert("percent"@[0] != "user_id"@[0]);
    assert("period_label"@[7] != "period_start"@[7]);
    assert("period_label"@[0] != "subscription"@[0]);
    assert("period_start"@[0] != "subscription"@[0]);
    assert("profile"@[0] != "user_id"@[0]);
    broadcast use lemma_entry_push;

    let t = limit_fields(l, g);
    assert(t.field("email"@) == Some(text_or_null(l.email)));
    assert(t.field("fetched_at"@) == Some(text_or_null(l.fetched_at)));
    assert(t.field("percent"@) == Some(share_or_null(g)));
    assert(t.field("period_end"@) == Some(text_or_null(l.period_end)));
    assert(t.field("period_label"@) == Some(JsonTree::Text(l.period_label)));
    assert(t.field("period_start"@) == Some(text_or_null(l.period_start)));
    assert(t.field("period_type"@) == Some(JsonTree::Text(l.period_type)));
    assert(t.field("profile"@) == Some(text_or_null(l.profile)));
    assert(t.field("source"@) == Some(JsonTree::Text(l.source)));
    assert(t.field("subscription"@) == Some(text_or_null(l.subscription)));
    assert(t.field("user_id"@) == Some(text_or_null(l.user_id)));
}

/// The value of an account in a list holds its names, whether it is the one that is signed in and
/// whether it is saved, and its limit.
pub proof fn law_value_of_an_account(r: RowTree, g: Option<GaugeTree>)
    ensures
        row_fields(r, g).field("name"@) == Some(JsonTree::Text(r.name)),
        row_fields(r, g).field("email"@) == Some(text_or_null(r.email)),
        row_fields(r, g).field("user_id"@) == Some(text_or_null(r.user_id)),
        row_fields(r, g).field("active"@) == Some(JsonTree::Bool(r.active)),
        row_fields(r, g).field("unsaved"@) == Some(JsonTree::Bool(r.unsaved)),
        row_fields(r, g).field("limit"@) == Some(match r.limit {
            Some(l) => limit_fields(l, g),
            None => JsonTree::Null,
        }),
{
    reveal_strlit("name");
    reveal_strlit("email");
    reveal_strlit("user_id");
    reveal_strlit("active");
    reveal_strlit("unsaved");
    reveal_strlit("limit");
    assert("name"@.len() == 4);
    assert("email"@.len() == 5);
    assert("user_id"@.len() == 7);
    assert("active"@.len() == 6);
    assert("unsaved"@.len() == 7);
    assert("limit"@.len() == 5);
    assert("email"@[0] != "limit"@[0]);
    assert("user_id"@[1] != "unsaved"@[1]);
    broadcast use lemma_entry_push;

    let t = row_fields(r, g);
    assert(t.field("name"@) == Some(JsonTree::Text(r.name)));
    assert(t.field("email"@) == Some(text_or_null(r.email)));
    assert(t.field("user_id"@) == Some(text_or_null(r.user_id)));
    assert(t.field("active"@) == Some(JsonTree::Bool(r.active)));
    assert(t.field("unsaved"@) == Some(JsonTree::Bool(r.unsaved)));
    assert(t.field("limit"@) == Some(match r.limit {
            Some(l) => limit_fields(l, g),
            None => JsonTree::Null,
        }));
}

/// The value of an identity holds each of its parts under the key of that name.
pub proof fn law_value_of_an_identity(id: Identity)
    ensures
        public_identity(id).field("auth_mode"@) == Some(text_or_null(id.auth_mode)),
        public_identity(id).field("email"@) == Some(text_or_null(id.email)),
        public_identity(id).field("expires_at"@) == Some(text_or_null(id.expires_at)),
        public_identity(id).field("name"@) == Some(text_or_null(full_name(id))),
        public_identity(id).field("user_id"@) == Some(text_or_null(id.user_id)),
{
    reveal_strlit("auth_mode");
    reveal_strlit("email");
    reveal_strlit("expires_at");
    reveal_strlit("name");
    reveal_strlit("user_id");
    assert("auth_mode"@.len() == 9);
    assert("email"@.len() == 5);
    assert("expires_at"@.len() == 10);
    assert("name"@.len() == 4);
    assert("user_id"@.len() == 7);
    broadcast use lemma_entry_push;

    let t = public_identity(id);
    assert(t.field("auth_mode"@) == Some(text_or_null(id.auth_mode)));
    assert(t.field("email"@) == Some(text_or_null(id.email)));
    assert(t.field("expires_at"@) == Some(text_or_null(id.expires_at)));
    assert(t.field("name"@) == Some(text_or_null(full_name(id))));
    assert(t.field("user_id"@) == Some(text_or_null(id.user_id)));
}

/// The value of the live login holds each part of the identity under the key of that name, the
/// profile that it belongs to and the place of its file.
pub proof fn law_value_of_the_login(id: Identity, profile: Option<Seq<char>>, auth_path: Seq<char>)
    ensures
        whoami_tree(id, profile, auth_path).field("email"@) == Some(text_or_null(id.email)),
        whoami_tree(id, profile, auth_path).field("user_id"@) == Some(text_or_null(id.user_id)),
        whoami_tree(id, profile, auth_path).field("name"@) == Some(text_or_null(full_name(id))),
        whoami_tree(id, profile, auth_path).field("expires_at"@)
            == Some(text_or_null(id.expires_at)),
        whoami_tree(id, profile, auth_path).field("auth_mode"@) == Some(text_or_null(id.auth_mode)),
        whoami_tree(id, profile, auth_path).field("logged_in"@) == Some(JsonTree::Bool(true)),
        whoami_tree(id, profile, auth_path).field("profile"@) == Some(text_or_null(profile)),
        whoami_tree(id, profile, auth_path).field("auth_path"@) == Some(JsonTree::Text(auth_path)),
{
    reveal_strlit("email");
    reveal_strlit("user_id");
    reveal_strlit("name");
    reveal_strlit("expires_at");
    reveal_strlit("auth_mode");
    reveal_strlit("logged_in");
    reveal_strlit("profile");
    reveal_strlit("auth_path");
    assert("email"@.len() == 5);
    assert("user_id"@.len() == 7);
    assert("name"@.len() == 4);
    assert("expires_at"@.len() == 10);
    assert("auth_mode"@.len() == 9);
    assert("logged_in"@.len() == 9);
    assert("profile"@.len() == 7);
    assert("auth_path"@.len() == 9);
    assert("user_id"@[0] != "profile"@[0]);
    assert("auth_mode"@[0] != "logged_in"@[0]);
    assert("auth_mode"@[5] != "auth_path"@[5]);
    assert("logged_in"@[0] != "auth_path"@[0]);
    broadcast use lemma_entry_push;

    let t = whoami_tree(id, profile, auth_path);
    assert(t.field("email"@) == Some(text_or_null(id.email)));
    assert(t.field("user_id"@) == Some(text_or_null(id.user_id)));
    assert(t.field("name"@) == Some(text_or_null(full_name(id))));
    assert(t.field("expires_at"@) == Some(text_or_null(id.expires_at)));
    assert(t.field("auth_mode"@) == Some(text_or_null(id.auth_mode)));
    assert(t.field("logged_in"@) == Some(JsonTree::Bool(true)));
    assert(t.field("profile"@) == Some(text_or_null(profile)));
    assert(t.field("auth_path"@) == Some(JsonTree::Text(auth_path)));
}

/// The value of a change says what was done, with which profile and with whose.
pub proof fn law_value_of_a_change(action: Seq<char>, name: Seq<char>, id: Identity)
    ensures
        JsonTree::Object(done_fields(action, name, id)).field("ok"@) == Some(JsonTree::Bool(true)),
        JsonTree::Object(done_fields(action, name, id)).field("action"@)
            == Some(JsonTree::Text(action)),
        JsonTree::Object(done_fields(action, name, id)).field("name"@)
            == Some(JsonTree::Text(name)),
        JsonTree::Object(done_fields(action, name, id)).field("email"@)
            == Some(text_or_null(id.email)),
        JsonTree::Object(done_fields(action, name, id)).field("user_id"@)
            == Some(text_or_null(id.user_id)),
{
    reveal_strlit("ok");
    reveal_strlit("action");
    reveal_strlit("name");
    reveal_strlit("email");
    reveal_strlit("user_id");
    assert("ok"@.len() == 2);
    assert("action"@.len() == 6);
    assert("name"@.len() == 4);
    assert("email"@.len() == 5);
    assert("user_id"@.len() == 7);
    broadcast use lemma_entry_push;

    let t = JsonTree::Object(done_fields(action, name, id));
    assert(t.field("ok"@) == Some(JsonTree::Bool(true)));
    assert(t.field("action"@) == Some(JsonTree::Text(action)));
    assert(t.field("name"@) == Some(JsonTree::Text(name)));
    assert(t.field("email"@) == Some(text_or_null(id.email)));
    assert(t.field("user_id"@) == Some(text_or_null(id.user_id)));
}

/// A bundle holds the login as it is, the names of its profile and its account, its limit, and the
/// mark and the version of the format.
pub proof fn law_value_of_a_bundle(x: ExportTree, at: Seq<char>, g: Option<GaugeTree>)
    ensures
        bundle_tree(x, at, g).field("auth"@) == Some(x.auth),
        bundle_tree(x, at, g).field("email"@) == Some(text_or_null(x.id.email)),
        bundle_tree(x, at, g).field("exported_at"@) == Some(JsonTree::Text(at)),
        bundle_tree(x, at, g).field("format"@) == Some(JsonTree::Text("grok-tokens-account"@)),
        bundle_tree(x, at, g).field("limit"@) == Some(match x.limit {
            Some(l) => public_limit(l, g),
            None => JsonTree::Null,
        }),
        bundle_tree(x, at, g).field("name"@) == Some(JsonTree::Text(x.name)),
        bundle_tree(x, at, g).field("user_id"@) == Some(text_or_null(x.id.user_id)),
        bundle_tree(x, at, g).field("version"@) == Some(JsonTree::Num(NumTree::PosInt(1))),
{
    reveal_strlit("auth");
    reveal_strlit("email");
    reveal_strlit("exported_at");
    reveal_strlit("format");
    reveal_strlit("limit");
    reveal_strlit("name");
    reveal_strlit("user_id");
    reveal_strlit("version");
    assert("auth"@.len() == 4);
    assert("email"@.len() == 5);
    assert("exported_at"@.len() == 11);
    assert("format"@.len() == 6);
    assert("limit"@.len() == 5);
    assert("name"@.len() == 4);
    assert("user_id"@.len() == 7);
    assert("version"@.len() == 7);
    assert("auth"@[0] != "name"@[0]);
    assert("email"@[0] != "limit"@[0]);
    assert("user_id"@[0] != "version"@[0]);
    broadcast use lemma_entry_push;

    let t = bundle_tree(x, at, g);
    assert(t.field("auth"@) == Some(x.auth));
    assert(t.field("email"@) == Some(text_or_null(x.id.email)));
    assert(t.field("exported_at"@) == Some(JsonTree::Text(at)));
    assert(t.field("format"@) == Some(JsonTree::Text("grok-tokens-account"@)));
    assert(t.field("limit"@) == Some(match x.limit {
            Some(l) => public_limit(l, g),
            None => JsonTree::Null,
        }));
    assert(t.field("name"@) == Some(JsonTree::Text(x.name)));
    assert(t.field("user_id"@) == Some(text_or_null(x.id.user_id)));
    assert(t.field("version"@) == Some(JsonTree::Num(NumTree::PosInt(1))));
}

/// The value of a profile in the list holds its name, the parts of its identity, and whether it is
/// the one that is signed in.
pub proof fn law_value_of_a_listed_profile(r: ListRowTree, id: Identity)
    requires
        r.id == Some(id),
    ensures
        list_row_tree(r).field("name"@) == Some(JsonTree::Text(r.name)),
        list_row_tree(r).field("email"@) == Some(text_or_null(id.email)),
        list_row_tree(r).field("user_id"@) == Some(text_or_null(id.user_id)),
        list_row_tree(r).field("name_display"@) == Some(text_or_null(full_name(id))),
        list_row_tree(r).field("expires_at"@) == Some(text_or_null(id.expires_at)),
        list_row_tree(r).field("active"@) == Some(JsonTree::Bool(r.active)),
{
    reveal_strlit("name");
    reveal_strlit("email");
    reveal_strlit("user_id");
    reveal_strlit("name_display");
    reveal_strlit("expires_at");
    reveal_strlit("active");
    assert("name"@.len() == 4);
    assert("email"@.len() == 5);
    assert("user_id"@.len() == 7);
    assert("name_display"@.len() == 12);
    assert("expires_at"@.len() == 10);
    assert("active"@.len() == 6);
    broadcast use lemma_entry_push;

    let t = list_row_tree(r);
    assert(t.field("name"@) == Some(JsonTree::Text(r.name)));
    assert(t.field("email"@) == Some(text_or_null(id.email)));
    assert(t.field("user_id"@) == Some(text_or_null(id.user_id)));
    assert(t.field("name_display"@) == Some(text_or_null(full_name(id))));
    assert(t.field("expires_at"@) == Some(text_or_null(id.expires_at)));
    assert(t.field("active"@) == Some(JsonTree::Bool(r.active)));
}

/// The value of the list holds the profile that is current, the identity that is signed in, and the
/// profiles in their order.
pub proof fn law_value_of_the_list(l: ListTree, i: int)
    ensures
        list_tree(l).field("current"@) == Some(text_or_null(l.current)),
        l.live matches Some(id) ==> list_tree(l).field("live"@) == Some(public_identity(id)),
        l.live is None ==> list_tree(l).field("live"@) == Some(JsonTree::Null),
        list_tree(l).field("profiles"@) matches Some(JsonTree::Array(a)) && a.len() == l.rows.len()
            && (0 <= i < l.rows.len() ==> a[i] == list_row_tree(l.rows[i])),
{
    reveal_strlit("current");
    reveal_strlit("live");
    reveal_strlit("profiles");
    assert("current"@.len() == 7);
    assert("live"@.len() == 4);
    assert("profiles"@.len() == 8);
    broadcast use lemma_entry_push;

    let t = list_tree(l);
    assert(t.field("current"@) == Some(text_or_null(l.current)));
    assert(t.field("live"@) is Some);
    assert(t.field("profiles"@) is Some);
}

/// The value of a report holds the limit of the account, the accounts and the items that it is
/// about.
pub proof fn law_value_of_a_report(
    limit: JsonTree,
    accounts: JsonTree,
    items: Seq<JsonTree>,
)
    ensures
        payload(limit, accounts, "daily"@, items).field("account_limit"@) == Some(limit),
        payload(limit, accounts, "daily"@, items).field("accounts"@) == Some(accounts),
        payload(limit, accounts, "daily"@, items).field("daily"@) == Some(JsonTree::Array(items)),
        payload(limit, accounts, "sessions"@, items).field("account_limit"@) == Some(limit),
        payload(limit, accounts, "sessions"@, items).field("accounts"@) == Some(accounts),
        payload(limit, accounts, "sessions"@, items).field("sessions"@) == Some(
            JsonTree::Array(items),
        ),
{
    reveal_strlit("account_limit");
    reveal_strlit("accounts");
    reveal_strlit("daily");
    reveal_strlit("sessions");
    assert("account_limit"@.len() == 13);
    assert("accounts"@.len() == 8);
    assert("daily"@.len() == 5);
    assert("sessions"@.len() == 8);
    assert("accounts"@[0] != "sessions"@[0]);
    broadcast use lemma_entry_push;

    let a = payload(limit, accounts, "daily"@, items);
    let b = payload(limit, accounts, "sessions"@, items);
    assert(a.field("account_limit"@) == Some(limit));
    assert(a.field("accounts"@) == Some(accounts));
    assert(a.field("daily"@) == Some(JsonTree::Array(items)));
    assert(b.field("account_limit"@) == Some(limit));
    assert(b.field("accounts"@) == Some(accounts));
    assert(b.field("sessions"@) == Some(JsonTree::Array(items)));
}

/// The accounts are listed in their order, each with its own share.
pub proof fn law_values_of_accounts(rows: Seq<RowTree>, gs: Seq<Option<GaugeTree>>, i: int)
    requires
        0 <= i < rows.len(),
    ensures
        rows_tree(rows, gs) matches JsonTree::Array(a) && a.len() == rows.len() && a[i]
            == row_fields(rows[i], gs[i]),
{
}

/// The items of a report are the values of the days in their order, or those of the sessions in the
/// order in which they are listed, each with its own prices.
pub proof fn law_items_of_a_report(
    days: Seq<DailyStat>,
    stats: Seq<SessionStat>,
    order: Seq<usize>,
    money: Seq<Money>,
    i: int,
)
    ensures
        day_trees(days, money).len() == days.len(),
        0 <= i < days.len() ==> day_trees(days, money)[i] == public_day(days[i], money[i]),
        session_trees(stats, money, order).len() == order.len(),
        0 <= i < order.len() ==> session_trees(stats, money, order)[i] == public_session(
            stats[order[i] as int],
            money[order[i] as int],
        ),
{
}

/// A profile whose login names nobody is listed with its name alone.
pub proof fn law_value_of_a_nameless_profile(r: ListRowTree)
    requires
        r.id is None,
    ensures
        list_row_tree(r).field("name"@) == Some(JsonTree::Text(r.name)),
        list_row_tree(r).field("email"@) == Some(JsonTree::Null),
        list_row_tree(r).field("user_id"@) == Some(JsonTree::Null),
        list_row_tree(r).field("name_display"@) == Some(JsonTree::Null),
        list_row_tree(r).field("expires_at"@) == Some(JsonTree::Null),
        list_row_tree(r).field("active"@) == Some(JsonTree::Bool(r.active)),
{
    reveal_strlit("name");
    reveal_strlit("email");
    reveal_strlit("user_id");
    reveal_strlit("name_display");
    reveal_strlit("expires_at");
    reveal_strlit("active");
    assert("name"@.len() == 4);
    assert("email"@.len() == 5);
    assert("user_id"@.len() == 7);
    assert("name_display"@.len() == 12);
    assert("expires_at"@.len() == 10);
    assert("active"@.len() == 6);
    broadcast use lemma_entry_push;

    let t = list_row_tree(r);
    assert(t.field("name"@) == Some(JsonTree::Text(r.name)));
    assert(t.field("email"@) == Some(JsonTree::Null));
    assert(t.field("user_id"@) == Some(JsonTree::Null));
    assert(t.field("name_display"@) == Some(JsonTree::Null));
    assert(t.field("expires_at"@) == Some(JsonTree::Null));
    assert(t.field("active"@) == Some(JsonTree::Bool(r.active)));
}

} // verus!
