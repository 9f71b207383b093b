//! What holds of the accounts and the profiles that are listed.
use crate::account_report::{
    import_text, list_cells, list_text, switch_text, whoami_text,
};
use crate::accounts::ChangeTree;
use crate::format::painted;
use crate::identity::{full_name, Identity};
use crate::json::JsonTree;
use crate::limit::{stored_limit, Limit};
use crate::names::default_name;
use crate::rows::{
    account_rows, known_names, list_row, profile_list, profile_row, ListRowTree,
};
use crate::store::StoreTree;
use crate::table_laws::{
    holds_cells, law_table_shows_its_rows, lemma_part_of_itself, lemma_part_of_part, lemma_shown,
};
use crate::text::{has_part, head};
use crate::text_laws::law_parts;
use vstd::prelude::*;

verus! {

/// The profile `name` is that of the user who is signed in: both are known, and they are the same.
pub open spec fn is_signed_in(s: StoreTree, name: Seq<char>) -> bool {
    s.live_identity() matches Some(live) && (s.identity_at(name) matches Some(id)
        && live.user_id is Some
        && live.user_id == id.user_id)
}

/// Some profile is that of the user who is signed in.
pub open spec fn some_signed_in(s: StoreTree, names: Seq<Seq<char>>) -> bool {
    exists|i: int| 0 <= i < names.len() && is_signed_in(s, #[trigger] names[i])
}

/// The row of a profile has its name, and the address and the user of its login. It is active if
/// and only if its user is the one who is signed in, and then has the limit that was just read;
/// else it has the limit that was stored for it, with its own address and name where the stored one
/// has none.
pub proof fn law_row_of_a_profile(s: StoreTree, name: Seq<char>, live_limit: Option<Limit>,
    t: JsonTree)
    ensures
        ({
            let r = profile_row(s, name, live_limit);
            &&& r.name == name
            &&& !r.unsaved
            &&& r.active <==> is_signed_in(s, name)
            &&& s.identity_at(name) matches Some(id) ==> r.email == id.email && r.user_id
                == id.user_id
            &&& s.identity_at(name) is None ==> r.email is None && r.user_id is None
            &&& r.active ==> r.limit == live_limit
            &&& !r.active && s.limit_of(name) is None ==> r.limit is None
            &&& !r.active && s.limit_of(name) == Some(t) ==> (r.limit matches Some(l) && {
                let k = stored_limit(t);
                &&& l.percent == k.percent && l.period_label == k.period_label && l.period_end
                    == k.period_end && l.fetched_at == k.fetched_at
                &&& l.period_type == k.period_type && l.period_start == k.period_start
                    && l.subscription == k.subscription && l.source == k.source && l.user_id
                    == k.user_id
                &&& k.email is Some ==> l.email == k.email
                &&& k.email is None ==> l.email == r.email
                &&& k.profile is Some ==> l.profile == k.profile
                &&& k.profile is None ==> l.profile == Some(name)
            })
        }),
{
}

/// A stored limit is read by the keys of its parts.
pub proof fn law_stored_limit_by_keys(t: JsonTree, x: Seq<char>)
    ensures
        t.field("period_end"@) == Some(JsonTree::Text(x)) ==> stored_limit(t).period_end == Some(x),
        t.field("period_start"@) == Some(JsonTree::Text(x))
            ==> stored_limit(t).period_start == Some(
            x,
        ),
        t.field("period_label"@) == Some(JsonTree::Text(x)) ==> stored_limit(t).period_label == x,
        t.field("period_type"@) == Some(JsonTree::Text(x)) ==> stored_limit(t).period_type == x,
        t.field("subscription"@) == Some(JsonTree::Text(x))
            ==> stored_limit(t).subscription == Some(
            x,
        ),
        t.field("fetched_at"@) == Some(JsonTree::Text(x)) ==> stored_limit(t).fetched_at == Some(x),
        t.field("source"@) == Some(JsonTree::Text(x)) ==> stored_limit(t).source == x,
        t.field("email"@) == Some(JsonTree::Text(x)) ==> stored_limit(t).email == Some(x),
        t.field("user_id"@) == Some(JsonTree::Text(x)) ==> stored_limit(t).user_id == Some(x),
        t.field("profile"@) == Some(JsonTree::Text(x)) ==> stored_limit(t).profile == Some(x),
        t.field("percent"@) matches Some(JsonTree::Num(n)) ==> stored_limit(t).percent == Some(n),
        t.field("period_label"@) is None ==> stored_limit(t).period_label == "Period"@,
        t.field("source"@) is None ==> stored_limit(t).source == "profile"@,
{
}

/// Every profile is listed, in the order of the names. A login that no profile is of comes in front
/// of them, marked as unsaved and active, with the limit that was just read.
pub proof fn law_listed_accounts(
    s: StoreTree,
    live_limit: Option<Limit>,
    names: Seq<Seq<char>>,
    i: int,
)
    requires
        s.names == Ok::<Seq<Seq<char>>, Seq<char>>(names),
    ensures
        ({
            let rows = account_rows(s, live_limit);
            &&& s.live_identity() is None || some_signed_in(s, names) ==> {
                &&& rows.len() == names.len()
                &&& 0 <= i < names.len() ==> rows[i] == profile_row(s, names[i], live_limit)
            }
            &&& s.live_identity() matches Some(id) ==> (!some_signed_in(s, names) ==> {
                &&& rows.len() == names.len() + 1
                &&& rows[0].unsaved && rows[0].active && rows[0].limit == live_limit
                &&& rows[0].email == id.email && rows[0].user_id == id.user_id
                &&& 0 <= i < names.len() ==> rows[i + 1] == profile_row(s, names[i], live_limit)
                &&& id.email is None ==> rows[0].name == "(current)"@
                &&& id.email matches Some(a) ==> rows[0].name == default_name(
                    crate::names::address_only(a),
                )
            })
        }),
{
    let rows = account_rows(s, live_limit);
    assert(known_names(s) == names);
    if let Some(id) = s.live_identity() {
        assert(crate::rows::is_saved(s, names, id.user_id) <==> some_signed_in(s, names)) by {
            if crate::rows::is_saved(s, names, id.user_id) {
                let k = choose|k: int|
                    0 <= k < names.len() && crate::rows::user_in(s.identity_at(#[trigger] names[k]))
                        == id.user_id;
                assert(is_signed_in(s, names[k]));
            }
            if some_signed_in(s, names) {
                let k = choose|k: int| 0 <= k < names.len() && is_signed_in(s, #[trigger] names[k]);
                assert(crate::rows::user_in(s.identity_at(names[k])) == id.user_id);
            }
        }
    }
}

/// In the list of profiles a profile is marked where somebody is signed in and it is that user's,
/// or, where one of the two users is not known, where it is the current profile.
pub proof fn law_marked_profile(s: StoreTree, name: Seq<char>, current: Option<Seq<char>>)
    ensures
        ({
            let r = list_row(s, name, current);
            let known = s.live_identity() matches Some(live) && (s.identity_at(name) matches Some(
                id,
            ) && live.user_id is Some && id.user_id is Some);
            &&& r.name == name && r.id == s.identity_at(name)
            &&& s.live_identity() is None ==> !r.active
            &&& known ==> (r.active <==> is_signed_in(s, name))
            &&& s.live_identity() is Some && !known ==> (r.active <==> current == Some(name))
        }),
{
}

/// The list has every profile, in the order of the names, and says which is current and who is
/// signed in.
pub proof fn law_listed_profiles(
    s: StoreTree,
    names: Seq<Seq<char>>,
    current: Option<Seq<char>>,
    i: int,
)
    requires
        s.names == Ok::<Seq<Seq<char>>, Seq<char>>(names),
        s.current == Ok::<Option<Seq<char>>, Seq<char>>(current),
    ensures
        profile_list(s) matches Ok(l) && {
            &&& l.current == current
            &&& l.live == s.live_identity()
            &&& l.rows.len() == names.len()
            &&& 0 <= i < names.len() ==> l.rows[i] == list_row(s, names[i], current)
        },
{
}

/// The list shows every profile on a line of its own, in their order, with its name, its address
/// and the day on which it expires, and a star where it is the one that is signed in.
pub proof fn law_list_shows_each_profile(
    rows: Seq<ListRowTree>,
    dir: Seq<char>,
    color: bool,
    i: int,
)
    requires
        0 <= i < rows.len(),
    ensures
        ({
            let lines = list_text(rows, dir, color);
            let line = lines[3 + i];
            &&& lines.len() == rows.len() + 6
            &&& has_part(line, rows[i].name)
            &&& rows[i].active ==> has_part(line, "*"@)
            &&& rows[i].id matches Some(id) ==> {
                &&& id.email matches Some(x) ==> has_part(line, x)
                &&& id.expires_at matches Some(x) ==> has_part(line, head(x, 10))
            }
        }),
{
    let h = crate::report::no_texts().push(""@).push("Profile"@).push("Email"@).push("Expires"@);
    let cells = Seq::new(rows.len(), |i: int| list_cells(rows[i], color));
    let lines = list_text(rows, dir, color);
    let line = lines[3 + i];
    let r = rows[i];
    let c = cells[i];
    law_table_shows_its_rows(h, cells, color, false, i);
    let tab = crate::format::table(h, cells, color, false);
    assert(line == tab[3 + i]);
    assert(holds_cells(line, h, c));
    assert(has_part(line, c[0]) && has_part(line, c[1]) && has_part(line, c[2]) && has_part(
        line,
        c[3],
    ));
    if r.active {
        lemma_shown(line, color, "1;32"@, "*"@);
        lemma_shown(line, color, "1;32"@, r.name);
    }
    if let Some(id) = r.id {
        if let Some(x) = id.expires_at {
            lemma_shown(line, color, "2"@, head(x, 10));
        }
    }
}

/// What is said of the live login names its address, its name, its user, how it was made and when
/// it expires, each on a line of its own, where it is known, and the profile that it belongs to.
pub proof fn law_login_is_shown(
    id: Identity,
    profile: Option<Seq<char>>,
    path: Seq<char>,
    color: bool,
)
    ensures
        ({
            let w = whoami_text(id, profile, path, color);
            &&& w.len() == 8
            &&& profile matches Some(p) ==> has_part(w[0], "profile "@ + p)
            &&& id.email matches Some(x) ==> w[2] == "  Email        "@ + x
            &&& full_name(id) matches Some(x) ==> w[3] == "  Name         "@ + x
            &&& id.user_id matches Some(x) ==> w[4] == "  User ID      "@ + x
            &&& id.auth_mode matches Some(x) ==> w[5] == "  Auth         "@ + x
            &&& id.expires_at matches Some(x) ==> w[6] == "  Expires      "@ + x
            &&& w[7] == "  Auth file    "@ + path
        }),
{
    if let Some(p) = profile {
        let w = whoami_text(id, profile, path, color);
        let title = painted(color, "1;36"@, "Grok account"@) + "  ·  "@;
        let told = painted(color, "32"@, "profile "@ + p);
        let none = Seq::<char>::empty();
        law_parts(none, title, told, none);
        assert(title + told + none =~= w[0]);
        lemma_shown(w[0], color, "32"@, "profile "@ + p);
    }
}

/// What is said of a switch and of an import names the profile and the address. A switch says which
/// other profile was brought up to date, and an import whether the live login was written.
pub proof fn law_changes_are_shown(
    c: ChangeTree,
    no_switch: bool,
    path: Seq<char>,
    color: bool,
    prev: Seq<char>,
    email: Seq<char>,
)
    ensures
        ({
            let a = switch_text(c, color);
            let b = import_text(c, no_switch, path, color);
            &&& has_part(a[a.len() - 2], c.name)
            &&& c.id.email == Some(email) ==> has_part(a[a.len() - 2], email)
            &&& c.persisted == Some(prev) && prev != c.name ==> a.len() == 3 && has_part(
                a[0],
                "Updated snapshot for profile "@ + prev,
            )
            &&& c.persisted is None || c.persisted == Some(c.name) ==> a.len() == 2
            &&& has_part(b[0], c.name)
            &&& c.id.email == Some(email) ==> has_part(b[0], email)
            &&& no_switch ==> b.len() == 2 && has_part(b[1], c.name)
            &&& !no_switch ==> b.len() == 3 && has_part(b[1], path)
        }),
{
    let none = Seq::<char>::empty();
    let a = switch_text(c, color);
    let b = import_text(c, no_switch, path, color);
    let name = painted(color, "1;32"@, c.name);
    let who = crate::json::text_or(c.id.email, "unknown"@);
    let x = "Switched to "@;
    let y = "Imported "@;
    let end = " ("@ + who + ")"@;
    let p = a[a.len() - 2];
    law_parts(none, x, name, end);
    assert(x + name + end =~= p);
    lemma_shown(p, color, "1;32"@, c.name);
    law_parts(none, x + name + " ("@, who, ")"@);
    assert(x + name + " ("@ + who + ")"@ =~= p);
    law_parts(none, y, name, end);
    assert(y + name + end =~= b[0]);
    lemma_shown(b[0], color, "1;32"@, c.name);
    law_parts(none, y + name + " ("@, who, ")"@);
    assert(y + name + " ("@ + who + ")"@ =~= b[0]);
    if c.persisted == Some(prev) && prev != c.name {
        let told = "Updated snapshot for profile "@ + prev;
        lemma_part_of_itself(painted(color, "2"@, told));
        lemma_shown(a[0], color, "2"@, told);
    }
    if no_switch {
        let told = "Saved profile only. Switch later:  grok-tokens account switch "@ + c.name;
        lemma_part_of_itself(painted(color, "2"@, told));
        lemma_shown(b[1], color, "2"@, told);
        law_parts(
            none,
            "Saved profile only. Switch later:  grok-tokens account switch "@,
            c.name,
            none,
        );
        assert("Saved profile only. Switch later:  grok-tokens account switch "@ + c.name + none
            =~= told);
        lemma_part_of_part(b[1], told, c.name);
    } else {
        let told = "Wrote live login:  "@ + path;
        lemma_part_of_itself(painted(color, "2"@, told));
        lemma_shown(b[1], color, "2"@, told);
        law_parts(none, "Wrote live login:  "@, path, none);
        assert("Wrote live login:  "@ + path + none =~= told);
        lemma_part_of_part(b[1], told, path);
    }
}

} // verus!
