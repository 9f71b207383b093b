//! What the account commands say.
use crate::accounts::{Change, ChangeTree, Export};
use crate::format::{c, grid, painted, table, table_lines};
use crate::identity::{full_name, public_identity, AuthIdentity, Identity};
use crate::json::{
    array, no_entries, object, opt_json, opt_text, opt_tree, put, put_item, start_entries, str_or,
    text_json, text_or, trees, Json, JsonTree,
};
use crate::overview::CutError;
use crate::report::{append_lines, no_texts, push_row, start_texts};
use crate::rows::{email_in, list_rows, user_in, ListRow, ListRowTree, ListTree, ProfileList};
use crate::text::{
    can_cut, concat2, concat3, concat5, cut, cuts_at, decimal, decimal_text, head, owned, push_line,
    same_text, texts,
};
use vstd::prelude::*;

verus! {

/// The signed-in account as a value.
pub open spec fn whoami_tree(
    id: Identity,
    profile: Option<Seq<char>>,
    auth_path: Seq<char>,
) -> JsonTree {
    JsonTree::Object(
        no_entries()
            .push(("email"@, opt_tree(id.email)))
            .push(("user_id"@, opt_tree(id.user_id)))
            .push(("name"@, opt_tree(full_name(id))))
            .push(("expires_at"@, opt_tree(id.expires_at)))
            .push(("auth_mode"@, opt_tree(id.auth_mode)))
            .push(("logged_in"@, JsonTree::Bool(true)))
            .push(("profile"@, opt_tree(profile)))
            .push(("auth_path"@, JsonTree::Text(auth_path))),
    )
}

/// The signed-in account as a value.
pub fn whoami_json(id: &AuthIdentity, profile: &Option<String>, auth_path: &str) -> (r: Json)
    ensures
        r@ == whoami_tree(id@, opt_text(*profile), auth_path@),
{
    let mut e = start_entries();
    put(&mut e, "email", opt_json(&id.email));
    put(&mut e, "user_id", opt_json(&id.user_id));
    put(&mut e, "name", opt_json(&id.display_name()));
    put(&mut e, "expires_at", opt_json(&id.expires_at));
    put(&mut e, "auth_mode", opt_json(&id.auth_mode));
    put(&mut e, "logged_in", Json::Bool(true));
    put(&mut e, "profile", opt_json(profile));
    put(&mut e, "auth_path", text_json(auth_path));
    object(e)
}

/// The lines that show the signed-in account.
pub open spec fn whoami_text(
    id: Identity,
    profile: Option<Seq<char>>,
    auth_path: Seq<char>,
    color: bool,
) -> Seq<Seq<char>> {
    let title = painted(color, "1;36"@, "Grok account"@);
    no_texts()
        .push(
            match profile {
                Some(p) => title + ("  ·  "@ + painted(color, "32"@, "profile "@ + p)),
                None => title,
            },
        )
        .push(""@)
        .push("  Email        "@ + text_or(id.email, "—"@))
        .push("  Name         "@ + text_or(full_name(id), "—"@))
        .push("  User ID      "@ + text_or(id.user_id, "—"@))
        .push("  Auth         "@ + text_or(id.auth_mode, "—"@))
        .push("  Expires      "@ + text_or(id.expires_at, "—"@))
        .push("  Auth file    "@ + auth_path)
}

/// The lines that show the signed-in account.
pub fn whoami_lines(
    id: &AuthIdentity,
    profile: &Option<String>,
    auth_path: &str,
    color: bool,
) -> (r: Vec<String>)
    ensures
        texts(r@) == whoami_text(id@, opt_text(*profile), auth_path@, color),
{
    let mut out = start_texts();
    let title = c(color, "1;36", "Grok account");
    let first = match profile {
        Some(p) => {
            let shown = c(color, "32", concat2("profile ", p.as_str()).as_str());
            concat2(title.as_str(), concat2("  ·  ", shown.as_str()).as_str())
        },
        None => title,
    };
    push_line(&mut out, first);
    push_line(&mut out, owned(""));
    push_line(&mut out, concat2("  Email        ", str_or(&id.email, "—")));
    push_line(&mut out, concat2("  Name         ", str_or(&id.display_name(), "—")));
    push_line(&mut out, concat2("  User ID      ", str_or(&id.user_id, "—")));
    push_line(&mut out, concat2("  Auth         ", str_or(&id.auth_mode, "—")));
    push_line(&mut out, concat2("  Expires      ", str_or(&id.expires_at, "—")));
    push_line(&mut out, concat2("  Auth file    ", auth_path));
    out
}

/// What every change says of itself.
pub open spec fn done_fields(
    action: Seq<char>,
    name: Seq<char>,
    id: Identity,
) -> Seq<(Seq<char>, JsonTree)> {
    no_entries()
        .push(("ok"@, JsonTree::Bool(true)))
        .push(("action"@, JsonTree::Text(action)))
        .push(("name"@, JsonTree::Text(name)))
        .push(("email"@, opt_tree(id.email)))
        .push(("user_id"@, opt_tree(id.user_id)))
}

fn done_entries(action: &str, name: &str, id: &AuthIdentity) -> (r: Vec<(String, Json)>)
    ensures
        crate::json::entry_trees(r@) == done_fields(action@, name@, id@),
{
    let mut e = start_entries();
    put(&mut e, "ok", Json::Bool(true));
    put(&mut e, "action", text_json(action));
    put(&mut e, "name", text_json(name));
    put(&mut e, "email", opt_json(&id.email));
    put(&mut e, "user_id", opt_json(&id.user_id));
    e
}

/// What has been saved, as a value; `path` is where the profile lies.
pub fn save_json(change: &Change, path: &str) -> (r: Json)
    ensures
        r@ == JsonTree::Object(
            done_fields("save"@, change@.name, change@.id).push(("path"@, JsonTree::Text(path@))),
        ),
{
    let mut e = done_entries("save", change.name.as_str(), &change.id);
    put(&mut e, "path", text_json(path));
    object(e)
}

/// A line that says what was done, for which profile and whose it is.
pub open spec fn done_line(
    what: Seq<char>,
    name: Seq<char>,
    email: Option<Seq<char>>,
    color: bool,
) -> Seq<char> {
    what + painted(color, "1;32"@, name) + " ("@ + text_or(email, "unknown"@) + ")"@
}

fn done_text(what: &str, name: &str, email: &Option<String>, color: bool) -> (r: String)
    ensures
        r@ == done_line(what@, name@, opt_text(*email), color),
{
    concat5(what, c(color, "1;32", name).as_str(), " (", str_or(email, "unknown"), ")")
}

/// The lines that say what has been saved; `path` is where the profile lies.
pub fn save_lines(change: &Change, path: &str, color: bool) -> (r: Vec<String>)
    ensures
        texts(r@) == no_texts().push(
            done_line("Saved profile "@, change@.name, change@.id.email, color),
        ).push(painted(color, "2"@, "  "@ + path@)),
{
    let mut out = start_texts();
    push_line(
        &mut out,
        done_text("Saved profile ", change.name.as_str(), &change.id.email, color),
    );
    push_line(&mut out, c(color, "2", concat2("  ", path).as_str()));
    out
}

/// What a switch has done, as a value; `auth_path` is where the live login lies.
pub fn switch_json(change: &Change, auth_path: &str) -> (r: Json)
    ensures
        r@ == JsonTree::Object(
            done_fields("switch"@, change@.name, change@.id).push(
                ("persisted"@, opt_tree(change@.persisted)),
            ).push(("auth_path"@, JsonTree::Text(auth_path@))),
        ),
{
    let mut e = done_entries("switch", change.name.as_str(), &change.id);
    put(&mut e, "persisted", opt_json(&change.persisted));
    put(&mut e, "auth_path", text_json(auth_path));
    object(e)
}

/// The advice for a running session.
pub open spec fn restart_note(color: bool) -> Seq<char> {
    painted(
        color,
        "2"@,
        "Grok picks this up on the next API call. Restart a running session if it does not."@,
    )
}

fn restart_text(color: bool) -> (r: String)
    ensures
        r@ == restart_note(color),
{
    c(
        color,
        "2",
        "Grok picks this up on the next API call. Restart a running session if it does not.",
    )
}

/// The lines that say what a switch has done: where the live login went, if that is another
/// profile, and what is the live login now.
pub open spec fn switch_text(ch: ChangeTree, color: bool) -> Seq<Seq<char>> {
    let a = match ch.persisted {
        Some(prev) => if prev != ch.name {
            no_texts().push(painted(color, "2"@, "Updated snapshot for profile "@ + prev))
        } else {
            no_texts()
        },
        None => no_texts(),
    };
    a.push(done_line("Switched to "@, ch.name, ch.id.email, color)).push(restart_note(color))
}

/// The lines that say what a switch has done.
pub fn switch_lines(change: &Change, color: bool) -> (r: Vec<String>)
    ensures
        texts(r@) == switch_text(change@, color),
{
    let mut out = start_texts();
    if let Some(prev) = &change.persisted {
        if !same_text(prev.as_str(), change.name.as_str()) {
            let text = concat2("Updated snapshot for profile ", prev.as_str());
            push_line(&mut out, c(color, "2", text.as_str()));
        }
    }
    push_line(
        &mut out,
        done_text("Switched to ", change.name.as_str(), &change.id.email, color),
    );
    push_line(&mut out, restart_text(color));
    out
}

/// What a removal has done, as a value.
pub fn remove_json(name: &str) -> (r: Json)
    ensures
        r@ == JsonTree::Object(
            no_entries().push(("ok"@, JsonTree::Bool(true))).push(
                ("action"@, JsonTree::Text("remove"@)),
            ).push(("name"@, JsonTree::Text(name@))),
        ),
{
    let mut e = start_entries();
    put(&mut e, "ok", Json::Bool(true));
    put(&mut e, "action", text_json("remove"));
    put(&mut e, "name", text_json(name));
    object(e)
}

/// The lines that say what a removal has done.
pub fn remove_lines(name: &str, color: bool) -> (r: Vec<String>)
    ensures
        texts(r@) == no_texts().push("Removed profile "@ + painted(color, "1;33"@, name@)).push(
            painted(
                color,
                "2"@,
                "Grok stays signed in; this only deletes the saved snapshot."@,
            ),
        ),
{
    let mut out = start_texts();
    push_line(&mut out, concat2("Removed profile ", c(color, "1;33", name).as_str()));
    push_line(
        &mut out,
        c(color, "2", "Grok stays signed in; this only deletes the saved snapshot."),
    );
    out
}

/// What an export has done, as a value; `path` is the file.
pub fn export_json(export: &Export, path: &str) -> (r: Json)
    ensures
        r@ == JsonTree::Object(
            done_fields("export"@, export@.name, export@.id).push(("path"@, JsonTree::Text(path@))),
        ),
{
    let mut e = done_entries("export", export.name.as_str(), &export.id);
    put(&mut e, "path", text_json(path));
    object(e)
}

/// The lines that say what an export has done; `path` is the file.
pub fn export_lines(export: &Export, path: &str, color: bool) -> (r: Vec<String>)
    ensures
        texts(r@) == no_texts().push(
            done_line("Exported "@, export@.name, export@.id.email, color) + " → "@ + path@,
        ).push(
            painted(
                color,
                "33"@,
                "Contains a refresh token. Do not git-commit, chat, or email this file."@,
            ),
        ).push(painted(color, "2"@, "On the other side:  grok-tokens account import <file>"@)),
{
    let mut out = start_texts();
    let done = done_text("Exported ", export.name.as_str(), &export.id.email, color);
    push_line(&mut out, concat3(done.as_str(), " → ", path));
    push_line(
        &mut out,
        c(color, "33", "Contains a refresh token. Do not git-commit, chat, or email this file."),
    );
    push_line(
        &mut out,
        c(color, "2", "On the other side:  grok-tokens account import <file>"),
    );
    out
}

/// What an import has done, as a value; the two paths are where the profile and the live login
/// lie.
pub fn import_json(
    change: &Change,
    no_switch: bool,
    profile_path: &str,
    auth_path: &str,
) -> (r: Json)
    ensures
        r@ == JsonTree::Object(
            done_fields("import"@, change@.name, change@.id).push(
                ("switched"@, JsonTree::Bool(!no_switch)),
            ).push(("profile_path"@, JsonTree::Text(profile_path@))).push(
                ("auth_path"@, JsonTree::Text(auth_path@)),
            ),
        ),
{
    let mut e = done_entries("import", change.name.as_str(), &change.id);
    put(&mut e, "switched", Json::Bool(!no_switch));
    put(&mut e, "profile_path", text_json(profile_path));
    put(&mut e, "auth_path", text_json(auth_path));
    object(e)
}

/// The lines that say what an import has done; `auth_path` is where the live login lies.
pub open spec fn import_text(
    ch: ChangeTree,
    no_switch: bool,
    auth_path: Seq<char>,
    color: bool,
) -> Seq<Seq<char>> {
    let a = no_texts().push(done_line("Imported "@, ch.name, ch.id.email, color));
    if no_switch {
        a.push(
            painted(
                color,
                "2"@,
                "Saved profile only. Switch later:  grok-tokens account switch "@ + ch.name,
            ),
        )
    } else {
        a.push(painted(color, "2"@, "Wrote live login:  "@ + auth_path)).push(restart_note(color))
    }
}

/// The lines that say what an import has done; `auth_path` is where the live login lies.
pub fn import_lines(change: &Change, no_switch: bool, auth_path: &str, color: bool) -> (r: Vec<
    String,
>)
    ensures
        texts(r@) == import_text(change@, no_switch, auth_path@, color),
{
    let mut out = start_texts();
    push_line(&mut out, done_text("Imported ", change.name.as_str(), &change.id.email, color));
    if no_switch {
        let text = concat2(
            "Saved profile only. Switch later:  grok-tokens account switch ",
            change.name.as_str(),
        );
        push_line(&mut out, c(color, "2", text.as_str()));
    } else {
        push_line(&mut out, c(color, "2", concat2("Wrote live login:  ", auth_path).as_str()));
        push_line(&mut out, restart_text(color));
    }
    out
}

/// A saved profile in the list, as a value.
pub open spec fn list_row_tree(r: ListRowTree) -> JsonTree {
    JsonTree::Object(
        no_entries()
            .push(("name"@, JsonTree::Text(r.name)))
            .push(("email"@, opt_tree(email_in(r.id))))
            .push(("user_id"@, opt_tree(user_in(r.id))))
            .push(("name_display"@, opt_tree(
                match r.id {
                    Some(id) => full_name(id),
                    None => None,
                },
            )))
            .push(("expires_at"@, opt_tree(expiry_in(r.id))))
            .push(("active"@, JsonTree::Bool(r.active))),
    )
}

/// When the login of an identity expires.
pub open spec fn expiry_in(id: Option<Identity>) -> Option<Seq<char>> {
    match id {
        Some(id) => id.expires_at,
        None => None,
    }
}

fn list_row_json(row: &ListRow) -> (r: Json)
    ensures
        r@ == list_row_tree(row@),
{
    let mut e = start_entries();
    put(&mut e, "name", text_json(row.name.as_str()));
    match &row.id {
        Some(id) => {
            put(&mut e, "email", opt_json(&id.email));
            put(&mut e, "user_id", opt_json(&id.user_id));
            put(&mut e, "name_display", opt_json(&id.display_name()));
            put(&mut e, "expires_at", opt_json(&id.expires_at));
        },
        None => {
            put(&mut e, "email", Json::Null);
            put(&mut e, "user_id", Json::Null);
            put(&mut e, "name_display", Json::Null);
            put(&mut e, "expires_at", Json::Null);
        },
    }
    put(&mut e, "active", Json::Bool(row.active));
    object(e)
}

/// The saved profiles as a value.
pub open spec fn list_tree(l: ListTree) -> JsonTree {
    JsonTree::Object(
        no_entries()
            .push(("current"@, opt_tree(l.current)))
            .push((
                "live"@,
                match l.live {
                    Some(id) => public_identity(id),
                    None => JsonTree::Null,
                },
            ))
            .push((
                "profiles"@,
                JsonTree::Array(Seq::new(l.rows.len(), |i: int| list_row_tree(l.rows[i]))),
            )),
    )
}

/// The saved profiles as a value.
pub fn list_json(list: &ProfileList) -> (r: Json)
    ensures
        r@ == list_tree(list@),
{
    let ghost rs = list_rows(list.rows@);
    let ghost want = Seq::new(rs.len(), |i: int| list_row_tree(rs[i]));
    let mut items: Vec<Json> = Vec::new();
    for i in 0..list.rows.len()
        invariant
            rs == list_rows(list.rows@),
            want == Seq::new(rs.len(), |i: int| list_row_tree(rs[i])),
            trees(items@) == want.take(i as int),
    {
        put_item(&mut items, list_row_json(&list.rows[i]));
        assert(trees(items@) =~= want.take(i as int + 1));
    }
    assert(trees(items@) =~= want);
    let mut e = start_entries();
    put(&mut e, "current", opt_json(&list.current));
    put(
        &mut e,
        "live",
        match &list.live {
            Some(id) => id.as_public(),
            None => Json::Null,
        },
    );
    put(&mut e, "profiles", array(items));
    object(e)
}

/// A saved profile in the table: its mark, name, address and when its login expires.
pub open spec fn list_cells(r: ListRowTree, color: bool) -> Seq<Seq<char>> {
    no_texts()
        .push(
            if r.active {
                painted(color, "1;32"@, "*"@)
            } else {
                " "@
            },
        )
        .push(
            if r.active {
                painted(color, "1;32"@, r.name)
            } else {
                r.name
            },
        )
        .push(text_or(email_in(r.id), "—"@))
        .push(painted(color, "2"@, head(text_or(expiry_in(r.id), "—"@), 10)))
}

/// The day can be cut out of the time at which the login expires.
pub open spec fn can_cut_expiry(r: ListRowTree) -> bool {
    cuts_at(text_or(expiry_in(r.id), "—"@), 10)
}

/// The lines that show the saved profiles; `dir` is where they lie.
pub open spec fn list_text(rows: Seq<ListRowTree>, dir: Seq<char>, color: bool) -> Seq<Seq<char>> {
    if rows.len() == 0 {
        no_texts().push(painted(color, "33"@, "No saved profiles."@)).push(
            painted(
                color,
                "2"@,
                "Save the current login:  grok-tokens account save [name]"@,
            ),
        )
    } else {
        table(
            no_texts().push(""@).push("Profile"@).push("Email"@).push("Expires"@),
            Seq::new(rows.len(), |i: int| list_cells(rows[i], color)),
            color,
            false,
        ).push(""@).push(
            painted(
                color,
                "2"@,
                decimal(rows.len()) + " profile"@ + (if rows.len() == 1 {
                    ""@
                } else {
                    "s"@
                }) + "  ·  * = matches current ~/.grok/auth.json  ·  "@ + dir,
            ),
        )
    }
}

/// The lines that show the saved profiles; `dir` is where they lie. Fails where a text would be
/// cut inside a character.
pub fn list_lines(list: &ProfileList, dir: &str, color: bool) -> (r: Result<Vec<String>, CutError>)
    ensures
        r is Ok <==> forall|i: int|
            0 <= i < list@.rows.len() ==> can_cut_expiry(#[trigger] list@.rows[i]),
        r matches Ok(lines) ==> texts(lines@) == list_text(list@.rows, dir@, color),
{
    let ghost rs = list@.rows;
    let mut out = start_texts();
    if list.rows.len() == 0 {
        push_line(&mut out, c(color, "33", "No saved profiles."));
        push_line(
            &mut out,
            c(color, "2", "Save the current login:  grok-tokens account save [name]"),
        );
        return Ok(out);
    }
    let mut headers = start_texts();
    push_line(&mut headers, owned(""));
    push_line(&mut headers, owned("Profile"));
    push_line(&mut headers, owned("Email"));
    push_line(&mut headers, owned("Expires"));
    let ghost want = Seq::new(rs.len(), |i: int| list_cells(rs[i], color));
    let mut rows: Vec<Vec<String>> = Vec::new();
    assert(grid(rows@) =~= want.take(0));
    for i in 0..list.rows.len()
        invariant
            rs == list_rows(list.rows@),
            rs == list@.rows,
            want == Seq::new(rs.len(), |i: int| list_cells(rs[i], color)),
            grid(rows@) == want.take(i as int),
            forall|j: int| 0 <= j < i ==> can_cut_expiry(#[trigger] rs[j]),
    {
        let row = &list.rows[i];
        assert(rs[i as int] == row@);
        let (email, expiry) = match &row.id {
            Some(id) => (str_or(&id.email, "—"), str_or(&id.expires_at, "—")),
            None => ("—", "—"),
        };
        if !can_cut(expiry, 10) {
            assert(!can_cut_expiry(rs[i as int]));
            return Err(CutError);
        }
        let mut cells = start_texts();
        if row.active {
            push_line(&mut cells, c(color, "1;32", "*"));
            push_line(&mut cells, c(color, "1;32", row.name.as_str()));
        } else {
            push_line(&mut cells, owned(" "));
            push_line(&mut cells, owned(row.name.as_str()));
        }
        push_line(&mut cells, owned(email));
        push_line(&mut cells, c(color, "2", cut(expiry, 10).as_str()));
        push_row(&mut rows, cells);
        assert(grid(rows@) =~= want.take(i as int + 1));
    }
    assert(want.take(list.rows@.len() as int) =~= want);
    append_lines(&mut out, &table_lines(&headers, &rows, color, false));
    push_line(&mut out, owned(""));
    let plural = if list.rows.len() == 1 {
        ""
    } else {
        "s"
    };
    let text = concat5(
        decimal_text(list.rows.len() as u128).as_str(),
        " profile",
        plural,
        "  ·  * = matches current ~/.grok/auth.json  ·  ",
        dir,
    );
    push_line(&mut out, c(color, "2", text.as_str()));
    assert(texts(out@) =~= list_text(rs, dir@, color));
    Ok(out)
}

} // verus!
