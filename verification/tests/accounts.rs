use grok_tokens::account_report as report;
use grok_tokens::accounts::{
    account_export, account_import, account_remove, account_save, account_switch, export_file,
    export_name, import_name, parse_account_bundle, save_name, write_back_step, AccountError, Step,
    Task,
};
use grok_tokens::json::{Json, Num};
use grok_tokens::limit::{AccountLimit, Gauge};
use grok_tokens::names::NameError;
use grok_tokens::overview::{
    print_account_overview, print_limit_detail, rows_json, CutError,
};
use grok_tokens::parse::parse_json;
use grok_tokens::rows::{account_list, account_whoami, collect_account_rows, enrich_limit};
use grok_tokens::store::{
    list_profile_names, live_identity, matching_profile, persist_live_auth, AccountStore, AuthFile,
    CurrentFile, DirEntry, FileError, Listing, ProfileFiles,
};

fn json(text: &str) -> Json {
    parse_json(text).unwrap()
}

fn login(user: &str, key: &str) -> Json {
    json(&format!(
        r#"{{"scope":{{"email":"{user}@b.com","user_id":"{user}","key":"{key}","first_name":"F","expires_at":"2026-01-02T03:04:05Z","auth_mode":"oidc"}}}}"#
    ))
}

fn entry(name: &str) -> DirEntry {
    DirEntry { name: name.to_string(), is_dir: true, has_auth: true }
}

fn profile(name: &str, auth: AuthFile) -> ProfileFiles {
    ProfileFiles { name: name.to_string(), auth, limit: None }
}

/// Signed in as ann, with the profiles of ann and bob.
fn store() -> AccountStore {
    AccountStore {
        live: AuthFile::Present(login("ann", "new")),
        current: CurrentFile::Text("  bob\n".to_string()),
        listing: Listing::Entries(vec![entry("bob"), entry("ann")]),
        files: vec![
            profile("bob", AuthFile::Present(login("bob", "b"))),
            profile("ann", AuthFile::Present(login("ann", "old"))),
        ],
    }
}

fn limit() -> AccountLimit {
    grok_tokens::limit::limit_from_copy("Weekly limit: 5%").unwrap()
}

fn text(s: &str) -> String {
    s.to_string()
}

#[test]
fn names_of_profiles() {
    let entries = vec![
        entry("zed"),
        entry("bad name"),
        entry("Ann"),
        DirEntry { name: text("file"), is_dir: false, has_auth: true },
        DirEntry { name: text("empty"), is_dir: true, has_auth: false },
        entry("ann"),
    ];
    assert_eq!(list_profile_names(&entries), vec!["Ann", "ann", "zed"]);
    assert_eq!(store().profiles().unwrap(), vec!["ann", "bob"]);
    assert_eq!(store().read_current_profile().unwrap().as_deref(), Some("bob"));
    let mut s = store();
    s.current = CurrentFile::Text(text(" \n"));
    assert_eq!(s.read_current_profile(), Ok(None));
}

#[test]
fn the_profile_of_the_live_login() {
    let mut s = store();
    let id = live_identity(&s).unwrap();
    assert_eq!(persist_live_auth(&s), Ok(Some(text("ann"))));
    assert_eq!(matching_profile(&s, &id), Ok(Some(text("ann"))));
    s.live = AuthFile::Present(login("cyd", "c"));
    assert_eq!(persist_live_auth(&s), Ok(None));
    assert_eq!(matching_profile(&s, &live_identity(&s).unwrap()), Ok(None));
    s.live = AuthFile::Missing;
    assert_eq!(persist_live_auth(&s), Ok(None));
    s.live = AuthFile::Unreadable(text("why"));
    assert_eq!(persist_live_auth(&s), Err(FileError { why: text("why") }));
    s = store();
    s.files[0].auth = AuthFile::Unreadable(text("broken"));
    assert_eq!(persist_live_auth(&s), Err(FileError { why: text("broken") }));
    assert_eq!(matching_profile(&s, &id), Ok(Some(text("ann"))));
    s.listing = Listing::Unreadable(text("dir"));
    assert_eq!(matching_profile(&s, &id), Err(FileError { why: text("dir") }));
    s.current = CurrentFile::Unreadable(text("current"));
    assert_eq!(matching_profile(&s, &id), Err(FileError { why: text("current") }));
    let mut anonymous = id.copy();
    anonymous.user_id = None;
    assert_eq!(matching_profile(&store(), &anonymous), Ok(Some(text("bob"))));
}

#[test]
fn who_is_signed_in() {
    let (id, profile) = account_whoami(&store()).unwrap();
    assert_eq!(profile.as_deref(), Some("ann"));
    assert_eq!(
        report::whoami_lines(&id, &profile, "/auth", false),
        vec![
            "Grok account  ·  profile ann",
            "",
            "  Email        ann@b.com",
            "  Name         F",
            "  User ID      ann",
            "  Auth         oidc",
            "  Expires      2026-01-02T03:04:05Z",
            "  Auth file    /auth",
        ]
    );
    let j = report::whoami_json(&id, &profile, "/auth");
    assert_eq!(j.get_str("auth_path"), Some("/auth"));
    assert_eq!(j.get("logged_in"), Some(&Json::Bool(true)));
    let mut s = store();
    s.live = AuthFile::Missing;
    let e = account_whoami(&s).unwrap_err();
    assert_eq!(e, AccountError::NotSignedIn);
    assert_eq!(e.message("/auth"), "not signed in (no /auth)\nRun: grok login");
    s.live = AuthFile::Present(json("{}"));
    let e = account_whoami(&s).unwrap_err();
    assert_eq!(e.message("/auth"), "could not read account identity from /auth");
    s.live = AuthFile::Unreadable(text("broken"));
    assert_eq!(account_whoami(&s).unwrap_err().message("/auth"), "broken");
}

#[test]
fn saving() {
    let c = account_save(&store(), None, Some(&limit())).unwrap();
    assert_eq!(c.name, "ann");
    assert_eq!(c.steps[0], Step::WriteProfile(text("ann"), login("ann", "new")));
    assert_eq!(c.steps[1], Step::WriteCurrent(text("ann")));
    match &c.steps[2] {
        Step::TryWriteLimit(name, l) => {
            assert_eq!(name, "ann");
            assert_eq!(l.email.as_deref(), Some("ann@b.com"));
            assert_eq!(l.user_id.as_deref(), Some("ann"));
            assert_eq!(l.profile.as_deref(), Some("ann"));
        }
        _ => panic!("no limit"),
    }
    assert_eq!(
        report::save_lines(&c, "/p", false),
        vec!["Saved profile ann (ann@b.com)", "  /p"]
    );
    assert_eq!(report::save_json(&c, "/p").get_str("action"), Some("save"));
    assert_eq!(account_save(&store(), Some("work"), None).unwrap().steps.len(), 2);
    let e = account_save(&store(), Some("bob"), None).unwrap_err();
    assert_eq!(e, AccountError::Taken(text("bob"), text("bob@b.com"), Task::Save));
    assert_eq!(
        e.message(""),
        "profile 'bob' already belongs to bob@b.com\nPick another name or: grok-tokens account remove bob"
    );
    let e = account_save(&store(), Some("a/b"), None).unwrap_err();
    assert_eq!(e, AccountError::BadName(NameError::Character, text("a/b")));
    let mut s = store();
    s.files[0].auth = AuthFile::Unreadable(text("broken"));
    assert!(account_save(&s, Some("bob"), None).is_ok());
    assert_eq!(save_name(&store(), None).as_deref(), Some("ann"));
    assert_eq!(save_name(&store(), Some("x")).as_deref(), Some("x"));
}

#[test]
fn switching() {
    let c = account_switch(&store(), "bob", Some(&limit())).unwrap();
    assert_eq!(c.persisted.as_deref(), Some("ann"));
    assert_eq!(c.steps.len(), 4);
    assert_eq!(c.steps[0], Step::WriteProfile(text("ann"), login("ann", "new")));
    assert!(matches!(&c.steps[1], Step::TryWriteLimit(name, _) if name == "ann"));
    assert_eq!(c.steps[2], Step::WriteAuth(login("bob", "b")));
    assert_eq!(c.steps[3], Step::WriteCurrent(text("bob")));
    assert_eq!(
        report::switch_lines(&c, false),
        vec![
            "Updated snapshot for profile ann",
            "Switched to bob (bob@b.com)",
            "Grok picks this up on the next API call. Restart a running session if it does not.",
        ]
    );
    assert_eq!(report::switch_json(&c, "/auth").get_str("persisted"), Some("ann"));
    let own = account_switch(&store(), "ann", None).unwrap();
    assert_eq!(report::switch_lines(&own, false).len(), 2);
    assert_eq!(
        own.steps,
        vec![
            Step::WriteProfile(text("ann"), login("ann", "new")),
            Step::WriteAuth(login("ann", "new")),
            Step::WriteCurrent(text("ann")),
        ]
    );
}

#[test]
fn switching_fails() {
    let e = account_switch(&store(), "cyd", None).unwrap_err();
    assert_eq!(
        e.message(""),
        "no profile 'cyd'\nSaved: ann, bob\nList:  grok-tokens account list"
    );
    let mut s = store();
    s.files.push(profile("odd", AuthFile::Present(json("{}"))));
    let e = account_switch(&s, "odd", None).unwrap_err();
    assert_eq!(e.message(""), "profile 'odd' has no account identity");
    s.files.push(profile("bad", AuthFile::Unreadable(text("why"))));
    assert_eq!(account_switch(&s, "bad", None), Err(AccountError::File(text("why"))));
    s.listing = Listing::Unreadable(text("dir"));
    assert_eq!(account_switch(&s, "cyd", None), Err(AccountError::File(text("dir"))));
    assert_eq!(account_switch(&s, "bob", None), Err(AccountError::File(text("dir"))));
    assert!(account_switch(&s, "..", None).is_err());
}

#[test]
fn removing() {
    let r = account_remove(&store(), "ann").unwrap();
    assert_eq!(r.steps, vec![Step::RemoveProfile(text("ann"))]);
    let r = account_remove(&store(), "bob").unwrap();
    assert_eq!(r.steps, vec![Step::RemoveProfile(text("bob")), Step::ClearCurrent]);
    assert_eq!(r.failure, None);
    let e = account_remove(&store(), "cyd").unwrap_err();
    assert_eq!(e.message(""), "no profile 'cyd'");
    let mut s = store();
    s.current = CurrentFile::Unreadable(text("why"));
    let r = account_remove(&s, "ann").unwrap();
    assert_eq!(r.failure.as_deref(), Some("why"));
    assert_eq!(report::remove_lines("ann", false)[0], "Removed profile ann");
    assert_eq!(report::remove_json("ann").get_str("name"), Some("ann"));
}

#[test]
fn exporting() {
    let x = account_export(&store(), None).unwrap();
    assert_eq!(x.name, "ann");
    assert_eq!(x.auth, login("ann", "new"));
    let y = account_export(&store(), Some("bob")).unwrap();
    assert_eq!(y.auth, login("bob", "b"));
    let e = account_export(&store(), Some("cyd")).unwrap_err();
    assert_eq!(
        e.message(""),
        "no profile 'cyd' — save it first: grok-tokens account save cyd"
    );
    assert_eq!(
        export_file(true, true, "ann").unwrap_err().message(""),
        "refusing to write credentials to stdout; pass --out FILE"
    );
    assert_eq!(export_file(false, true, "ann"), Ok(None));
    assert_eq!(export_file(false, false, "ann"), Ok(Some(text("grok-account-ann.json"))));
    assert_eq!(
        report::export_lines(&x, "/f", false)[0],
        "Exported ann (ann@b.com) → /f"
    );
    assert_eq!(report::export_json(&x, "/f").get_str("path"), Some("/f"));
    assert_eq!(export_name(&store(), None).as_deref(), Some("ann"));
    let mut s = store();
    s.live = AuthFile::Present(login("cyd", "c"));
    assert_eq!(account_export(&s, None).unwrap().name, "cyd");
}

#[test]
fn an_export_is_imported() {
    let mut s = store();
    s.files[1].limit = Some(limit().as_public(None));
    let x = account_export(&s, None).unwrap();
    let g = Gauge { number: Num::Float(text("5.0")), shown: text("5"), floor: 5 };
    let bundle = x.bundle("2026-07-27T00:00:00Z", Some(&g));
    assert_eq!(bundle.get_str("format"), Some("grok-tokens-account"));
    assert_eq!(bundle.get("version"), Some(&Json::Num(Num::PosInt(1))));
    let (auth, name) = parse_account_bundle(&bundle).unwrap();
    assert_eq!(auth, x.auth);
    assert_eq!(name.as_deref(), Some("ann"));
    let mut other = store();
    other.files.remove(1);
    other.live = AuthFile::Present(login("bob", "newer"));
    let c = account_import(&other, &bundle, None, false).unwrap();
    assert_eq!(c.name, "ann");
    assert_eq!(c.steps.len(), 5);
    assert_eq!(c.steps[0], Step::TryWriteProfile(text("bob"), login("bob", "newer")));
    assert_eq!(c.steps[1], Step::WriteProfile(text("ann"), login("ann", "new")));
    match &c.steps[2] {
        Step::TryWriteLimit(name, l) => {
            assert_eq!(name, "ann");
            assert_eq!(l.percent, Some(Num::Float(text("5.0"))));
            assert_eq!(l.profile.as_deref(), Some("ann"));
        }
        _ => panic!("no limit"),
    }
    assert_eq!(c.steps[3], Step::WriteCurrent(text("ann")));
    assert_eq!(c.steps[4], Step::WriteAuth(login("ann", "new")));
    assert_eq!(import_name(&bundle, None).as_deref(), Some("ann"));
    assert_eq!(import_name(&bundle, Some("z")).as_deref(), Some("z"));
}

#[test]
fn importing() {
    let raw = login("cyd", "c");
    let c = account_import(&store(), &raw, Some("work"), true).unwrap();
    assert_eq!(c.steps, vec![Step::WriteProfile(text("work"), login("cyd", "c"))]);
    assert_eq!(
        report::import_lines(&c, true, "/auth", false),
        vec![
            "Imported work (cyd@b.com)",
            "Saved profile only. Switch later:  grok-tokens account switch work",
        ]
    );
    assert_eq!(report::import_lines(&c, false, "/auth", false)[1], "Wrote live login:  /auth");
    let j = report::import_json(&c, true, "/p", "/auth");
    assert_eq!(j.get("switched"), Some(&Json::Bool(false)));
    let e = account_import(&store(), &raw, Some("bob"), false).unwrap_err();
    assert_eq!(
        e.message(""),
        "profile 'bob' already belongs to bob@b.com\nPick --name or: grok-tokens account remove bob"
    );
    assert_eq!(account_import(&store(), &json("{}"), None, false), Err(AccountError::NotABundle));
    assert_eq!(
        AccountError::NotABundle.message(""),
        "file is not a grok-tokens export or Grok auth.json"
    );
    assert_eq!(AccountError::BundleWithoutAuth.message(""), "export file is missing auth");
    assert_eq!(
        AccountError::BundleWithoutIdentity.message(""),
        "export file auth has no account identity"
    );
    assert_eq!(account_import(&store(), &raw, None, true).unwrap().name, "cyd");
}

#[test]
fn listing() {
    let l = account_list(&store()).unwrap();
    assert_eq!(l.rows.len(), 2);
    assert!(l.rows[0].active);
    assert!(!l.rows[1].active);
    let lines = report::list_lines(&l, "/dir", false).unwrap();
    assert_eq!(lines[3], "│ * │     ann │ ann@b.com │ 2026-01-02 │");
    assert_eq!(lines[4], "│   │     bob │ bob@b.com │ 2026-01-02 │");
    assert_eq!(
        lines[7],
        "2 profiles  ·  * = matches current ~/.grok/auth.json  ·  /dir"
    );
    let j = report::list_json(&l);
    assert_eq!(j.get_str("current"), Some("bob"));
    match j.get("profiles") {
        Some(Json::Array(rows)) => assert_eq!(rows[0].get("active"), Some(&Json::Bool(true))),
        _ => panic!("no profiles"),
    }
    let mut s = store();
    s.live = AuthFile::Missing;
    let l = account_list(&s).unwrap();
    assert!(!l.rows[0].active);
    assert!(!l.rows[1].active);
    assert_eq!(l.current.as_deref(), Some("bob"));
    s.live = AuthFile::Present(json(r#"{"s":{"email":"bob@b.com"}}"#));
    let l = account_list(&s).unwrap();
    assert!(!l.rows[0].active);
    assert!(l.rows[1].active);
    s.current = CurrentFile::Missing;
    assert!(!account_list(&s).unwrap().rows[1].active);
    s.listing = Listing::Entries(vec![entry("ann")]);
    let one = report::list_lines(&account_list(&s).unwrap(), "/dir", false).unwrap();
    assert!(one[6].starts_with("1 profile  ·  "));
    s.listing = Listing::Entries(vec![]);
    let none = report::list_lines(&account_list(&s).unwrap(), "/dir", false).unwrap();
    assert_eq!(none[0], "No saved profiles.");
    s = store();
    s.files[1].auth =
        AuthFile::Present(json(r#"{"s":{"email":"e","expires_at":"2026-01-0é"}}"#));
    let l = account_list(&s).unwrap();
    assert_eq!(report::list_lines(&l, "/dir", false), Err(CutError));
    s.current = CurrentFile::Unreadable(text("why"));
    assert_eq!(account_list(&s), Err(AccountError::File(text("why"))));
}

#[test]
fn accounts_that_are_known() {
    let mut s = store();
    s.files[0].limit = Some(json(r#"{"percent": 50, "period_label": "Weekly"}"#));
    let l = limit();
    let rows = collect_account_rows(&s, Some(&l));
    assert_eq!(rows.len(), 2);
    assert!(rows[0].active && rows[0].name == "ann");
    assert_eq!(rows[0].limit.as_ref().unwrap().source, "last-copy");
    let kept = rows[1].limit.as_ref().unwrap();
    assert_eq!(kept.email.as_deref(), Some("bob@b.com"));
    assert_eq!(kept.profile.as_deref(), Some("bob"));
    s.live = AuthFile::Present(login("cyd", "c"));
    let rows = collect_account_rows(&s, Some(&l));
    assert_eq!(rows.len(), 3);
    assert!(rows[0].unsaved && rows[0].active && rows[0].name == "cyd");
    let gauges = vec![None, None, None];
    let lines = print_account_overview(&rows, &gauges, Some(&l), None, false).unwrap();
    assert_eq!(lines[3], "│ * │ cyd (unsaved) │ cyd@b.com │ Weekly limit: n/a │     — │");
    assert_eq!(lines[4], "│   │           ann │ ann@b.com │                 — │     — │");
    assert_eq!(lines.len(), 10);
    match rows_json(&rows, &gauges) {
        Json::Array(items) => assert_eq!(items[0].get("unsaved"), Some(&Json::Bool(true))),
        _ => panic!("no rows"),
    }
    s.listing = Listing::Unreadable(text("why"));
    assert_eq!(collect_account_rows(&s, None).len(), 1);
    s.live = AuthFile::Missing;
    assert_eq!(collect_account_rows(&s, None).len(), 0);
}

#[test]
fn one_account_or_none() {
    let l = limit();
    let none = print_account_overview(&vec![], &vec![], None, None, false).unwrap();
    assert_eq!(none.len(), 0);
    let some = print_account_overview(&vec![], &vec![], Some(&l), None, false).unwrap();
    assert_eq!(some, vec!["Weekly limit: n/a", ""]);
    let mut s = store();
    s.listing = Listing::Entries(vec![entry("ann")]);
    let rows = collect_account_rows(&s, None);
    let lines = print_account_overview(&rows, &vec![None], None, None, false).unwrap();
    assert_eq!(lines, vec!["ann@b.com  ·  no quota in logs yet", ""]);
    s.live = AuthFile::Present(json(r#"{"s":{"user_id":"x"}}"#));
    s.listing = Listing::Entries(vec![]);
    let rows = collect_account_rows(&s, None);
    assert_eq!(rows[0].name, "(current)");
    let lines = print_account_overview(&rows, &vec![None], None, None, false).unwrap();
    assert_eq!(lines[0], "signed in  ·  no quota in logs yet");
}

#[test]
fn a_limit_with_its_account() {
    let (l, step) = enrich_limit(&store(), limit());
    assert_eq!(l.email.as_deref(), Some("ann@b.com"));
    assert_eq!(l.profile.as_deref(), Some("ann"));
    assert!(matches!(step, Some(Step::TryWriteLimit(name, _)) if name == "ann"));
    let mut s = store();
    s.live = AuthFile::Missing;
    let (l, step) = enrich_limit(&s, limit());
    assert_eq!(l.email, None);
    assert!(step.is_none());
}

fn put_auth(s: &mut AccountStore, name: &str, v: &Json) {
    s.files.retain(|f| f.name != name);
    s.files.push(profile(name, AuthFile::Present(v.copy())));
}

/// The logins after some steps.
fn after(mut s: AccountStore, steps: &[Step]) -> AccountStore {
    for step in steps {
        match step {
            Step::WriteAuth(v) => s.live = AuthFile::Present(v.copy()),
            Step::WriteProfile(name, v) | Step::TryWriteProfile(name, v) => {
                put_auth(&mut s, name, v)
            }
            Step::TryWriteLimit(_, _) => {}
            Step::WriteCurrent(name) => s.current = CurrentFile::Text(format!("{name}\n")),
            Step::ClearCurrent => s.current = CurrentFile::Missing,
            Step::RemoveProfile(name) => s.files.retain(|f| f.name != *name),
        }
    }
    s
}

#[test]
fn switching_there_and_back() {
    let there = account_switch(&store(), "bob", None).unwrap();
    let t = after(store(), &there.steps);
    assert_eq!(t.live, AuthFile::Present(login("bob", "b")));
    let back = account_switch(&t, "ann", None).unwrap();
    assert_eq!(back.persisted.as_deref(), Some("bob"));
    let u = after(t, &back.steps);
    assert_eq!(u.live, AuthFile::Present(login("ann", "new")));
    let own = account_switch(&store(), "ann", None).unwrap();
    let t = after(store(), &own.steps);
    assert_eq!(t.live, AuthFile::Present(login("ann", "new")));
    let again = account_switch(&t, "ann", None).unwrap();
    assert_eq!(after(t, &again.steps).live, AuthFile::Present(login("ann", "new")));
}

#[test]
fn a_saved_login_comes_back() {
    let saved = account_save(&store(), Some("work"), None).unwrap();
    let mut t = after(store(), &saved.steps);
    t.live = AuthFile::Present(login("cyd", "c"));
    let c = account_switch(&t, "work", None).unwrap();
    let t = after(t, &c.steps);
    assert_eq!(t.live, AuthFile::Present(login("ann", "new")));
    assert_eq!(account_whoami(&t).unwrap().1.as_deref(), Some("work"));
}

#[test]
fn an_export_holds_the_live_login() {
    let step = write_back_step(&store()).unwrap();
    assert_eq!(step, Step::TryWriteProfile(text("ann"), login("ann", "new")));
    let t = after(store(), &[step]);
    let x = account_export(&t, Some("ann")).unwrap();
    assert_eq!(x.auth, login("ann", "new"));
    let mut other = store();
    other.live = AuthFile::Missing;
    let c = account_import(&other, &x.bundle("now", None), None, false).unwrap();
    let u = after(other, &c.steps);
    assert_eq!(u.live, AuthFile::Present(login("ann", "new")));
    let mut s = store();
    s.live = AuthFile::Unreadable(text("why"));
    assert_eq!(write_back_step(&s), None);
}

#[test]
fn an_import_without_a_switch() {
    let c = account_import(&store(), &login("cyd", "c"), None, true).unwrap();
    let t = after(store(), &c.steps);
    assert_eq!(t.live, store().live);
    assert_eq!(t.current, store().current);
    assert_eq!(*t.auth_of("cyd"), AuthFile::Present(login("cyd", "c")));
    assert_eq!(*t.auth_of("bob"), *store().auth_of("bob"));
    let c = account_import(&store(), &login("cyd", "c"), None, false).unwrap();
    let t = after(store(), &c.steps);
    assert_eq!(t.live, AuthFile::Present(login("cyd", "c")));
    assert_eq!(t.read_current_profile(), Ok(Some(text("cyd"))));
    assert_eq!(*t.auth_of("ann"), AuthFile::Present(login("ann", "new")));
}

#[test]
fn the_limits_of_all_accounts() {
    let mut s = store();
    s.files[0].limit = Some(json(
        r#"{"percent": 50, "period_label": "Weekly", "period_end": "2026-08-01T00:00:00Z"}"#,
    ));
    let l = limit();
    let rows = collect_account_rows(&s, Some(&l));
    let half = Gauge { number: Num::Float(text("50.0")), shown: text("50"), floor: 50 };
    let five = Gauge { number: Num::Float(text("5.0")), shown: text("5"), floor: 5 };
    let live = Gauge { number: Num::Float(text("5.0")), shown: text("5"), floor: 5 };
    let gauges = vec![Some(five), Some(half)];
    let lines =
        print_limit_detail(Some(&l), Some(&live), &rows, &gauges, "/log", false).unwrap();
    assert_eq!(lines.len(), 23);
    assert_eq!(lines[16], "");
    assert_eq!(lines[20], "│ * │     ann │ ann@b.com │  Weekly limit: 5% │          — │");
    assert_eq!(lines[21], "│   │     bob │ bob@b.com │ Weekly limit: 50% │ 2026-08-01 │");
    let none = print_limit_detail(None, None, &rows, &gauges, "/log", false).unwrap();
    assert_eq!(none.len(), 10);
    let mut one = store();
    one.live = AuthFile::Present(login("cyd", "c"));
    one.listing = Listing::Entries(vec![entry("bob")]);
    let two_rows = collect_account_rows(&one, Some(&l));
    assert!(two_rows[0].unsaved && !two_rows[1].unsaved);
    let no_table =
        print_limit_detail(Some(&l), None, &two_rows, &vec![None, None], "/log", false).unwrap();
    assert_eq!(no_table.len(), 16);
    let mut rows = rows;
    rows[1].limit.as_mut().unwrap().period_end = Some(text("2026-08-0é"));
    assert_eq!(
        print_limit_detail(Some(&l), None, &rows, &gauges, "/log", false),
        Err(CutError)
    );
}
