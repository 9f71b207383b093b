use grok_tokens::accounts::{parse_account_bundle, AccountError};
use grok_tokens::identity::{identity_from_auth, AuthIdentity};
use grok_tokens::json::Json;
use grok_tokens::names::{
    default_profile_name, default_profile_name_from_email, sanitize_stem, validate_profile_name,
    NameError,
};
use grok_tokens::parse::parse_json;

fn json(text: &str) -> Json {
    parse_json(text).unwrap()
}

fn nobody() -> AuthIdentity {
    AuthIdentity {
        email: None,
        user_id: None,
        first_name: None,
        last_name: None,
        expires_at: None,
        auth_mode: None,
    }
}

#[test]
fn profile_name_rules() {
    assert!(validate_profile_name("work").is_ok());
    assert!(validate_profile_name("huhan.ken").is_ok());
    assert!(validate_profile_name("user-4b8c12c2").is_ok());
    assert!(validate_profile_name("..").is_err());
    assert!(validate_profile_name("current").is_err());
    assert!(validate_profile_name("foo/bar").is_err());
    assert!(validate_profile_name(".hidden").is_err());
}

#[test]
fn identity_parses_oidc_blob() {
    let v = json(
        r#"{
            "https://auth.x.ai::abc": {
                "email": "a@b.com",
                "user_id": "uid-1",
                "first_name": "Ada",
                "last_name": "Lovelace",
                "expires_at": "2026-01-01T00:00:00Z",
                "auth_mode": "oidc",
                "key": "secret-must-not-be-required-for-identity"
            }
        }"#,
    );
    let id = identity_from_auth(&v).unwrap();
    assert_eq!(id.email.as_deref(), Some("a@b.com"));
    assert_eq!(id.user_id.as_deref(), Some("uid-1"));
    assert_eq!(id.display_name().as_deref(), Some("Ada Lovelace"));
    assert_eq!(default_profile_name(&id), "a");
}

#[test]
fn parse_bundle_and_raw_auth() {
    let auth = json(
        r#"{
            "https://auth.x.ai::abc": {
                "email": "a@b.com",
                "user_id": "uid-1"
            }
        }"#,
    );
    let bundle = json(
        r#"{
            "format": "grok-tokens-account",
            "version": 1,
            "name": "work",
            "auth": {
                "https://auth.x.ai::abc": {
                    "email": "a@b.com",
                    "user_id": "uid-1"
                }
            }
        }"#,
    );
    let (got, name) = parse_account_bundle(&bundle).unwrap();
    assert_eq!(name.as_deref(), Some("work"));
    assert_eq!(identity_from_auth(&got).unwrap().email.as_deref(), Some("a@b.com"));

    let (raw, raw_name) = parse_account_bundle(&auth).unwrap();
    assert!(raw_name.is_none());
    assert_eq!(identity_from_auth(&raw).unwrap().user_id.as_deref(), Some("uid-1"));

    assert!(parse_account_bundle(&json(r#"{"hello": 1}"#)).is_err());
}

#[test]
fn each_name_error() {
    assert_eq!(validate_profile_name(""), Err(NameError::Length));
    assert_eq!(validate_profile_name(&"x".repeat(65)), Err(NameError::Length));
    assert_eq!(validate_profile_name(&"é".repeat(33)), Err(NameError::Length));
    assert_eq!(validate_profile_name(&"x".repeat(64)), Ok(()));
    assert_eq!(validate_profile_name("."), Err(NameError::Reserved));
    assert_eq!(validate_profile_name("current"), Err(NameError::Reserved));
    assert_eq!(validate_profile_name(".x"), Err(NameError::Hidden));
    assert_eq!(validate_profile_name("a b"), Err(NameError::Character));
    assert_eq!(validate_profile_name("é"), Err(NameError::Character));
}

#[test]
fn name_messages() {
    assert_eq!(NameError::Length.message(""), "profile name must be 1–64 characters");
    assert_eq!(NameError::Reserved.message(".."), "invalid profile name: ..");
    assert_eq!(NameError::Hidden.message(".x"), "profile name must not start with '.'");
    assert_eq!(
        NameError::Character.message("a b"),
        "profile name may only contain A-Z a-z 0-9 . _ -"
    );
}

#[test]
fn stems() {
    assert_eq!(sanitize_stem("ada+work test"), "ada-work-test");
    assert_eq!(sanitize_stem("..-a.b-."), "a.b");
    assert_eq!(sanitize_stem("äöü"), "");
    assert_eq!(sanitize_stem("+.+"), "");
    for s in ["ada+work test", "..-a.b-.", "x", "", "-_-"] {
        let once = sanitize_stem(s);
        assert_eq!(sanitize_stem(&once), once);
    }
}

#[test]
fn default_names() {
    assert_eq!(default_profile_name_from_email("ada.l@b.com"), "ada.l");
    assert_eq!(default_profile_name_from_email("no-at-sign"), "no-at-sign");
    assert_eq!(default_profile_name_from_email("@b.com"), "default");
    let mut id = nobody();
    assert_eq!(default_profile_name(&id), "default");
    id.user_id = Some("4b8c-12c2-9999".to_string());
    assert_eq!(default_profile_name(&id), "user-4b8c12c2");
    id.email = Some("...@b.com".to_string());
    assert_eq!(default_profile_name(&id), "user-4b8c12c2");
    id.user_id = Some("--".to_string());
    assert_eq!(default_profile_name(&id), "default");
    id.email = Some("current@b.com".to_string());
    assert_eq!(validate_profile_name(&default_profile_name(&id)), Err(NameError::Reserved));
}

#[test]
fn names_of_people() {
    let mut id = nobody();
    assert_eq!(id.display_name(), None);
    id.first_name = Some("  Ada ".to_string());
    assert_eq!(id.display_name().as_deref(), Some("Ada"));
    id.last_name = Some("Lovelace\t".to_string());
    assert_eq!(id.display_name().as_deref(), Some("Ada Lovelace"));
    id.first_name = None;
    assert_eq!(id.display_name().as_deref(), Some("Lovelace"));
}

#[test]
fn identity_of_odd_files() {
    assert_eq!(identity_from_auth(&json("[]")), None);
    assert_eq!(identity_from_auth(&json("{}")), None);
    assert_eq!(identity_from_auth(&json(r#"{"a": 1, "b": {"x": 2}}"#)), None);
    let id = identity_from_auth(&json(
        r#"{"a": 1, "b": {"key": "k", "principal_id": " p ", "email": "  "}, "c": {"email": "z"}}"#,
    ))
    .unwrap();
    assert_eq!(id.user_id.as_deref(), Some("p"));
    assert_eq!(id.email, None);
}

#[test]
fn each_bundle_error() {
    let missing = json(r#"{"format": "grok-tokens-account"}"#);
    assert_eq!(parse_account_bundle(&missing), Err(AccountError::BundleWithoutAuth));
    let nobody = json(r#"{"format": "grok-tokens-account", "auth": {}}"#);
    assert_eq!(parse_account_bundle(&nobody), Err(AccountError::BundleWithoutIdentity));
    let other = json(r#"{"format": "other", "auth": {}}"#);
    assert_eq!(parse_account_bundle(&other), Err(AccountError::NotABundle));
    let blank = json(
        r#"{"format": "grok-tokens-account", "name": "  ", "auth": {"s": {"email": "a@b"}}}"#,
    );
    assert_eq!(parse_account_bundle(&blank).unwrap().1, None);
}
