use grok_tokens::parse::parse_json;
use grok_tokens::places::{
    auth_json_path, grok_home, keeps_cwd, newest_first, profile_auth_path, profile_limit_path,
    profiles_dir, read_cwd, sessions_root, unescape, urlencoding_decode, use_color, Base, Location,
};

fn at(base: Base, parts: &[&str]) -> Location {
    Location { base, parts: parts.iter().map(|s| s.to_string()).collect() }
}

fn given(s: &str) -> Base {
    Base::Given(s.to_string())
}

#[test]
fn where_files_lie() {
    assert_eq!(grok_home(None), at(Base::Home, &[".grok"]));
    assert_eq!(grok_home(Some("  ")), at(Base::Home, &[".grok"]));
    assert_eq!(grok_home(Some(" /g ")), at(given(" /g "), &[]));
    assert_eq!(sessions_root(Some("/d"), Some("/g"), true), at(given("/d"), &[]));
    assert_eq!(sessions_root(None, Some("/g"), true), at(given("/g"), &["sessions"]));
    assert_eq!(sessions_root(None, Some("/g"), false), at(Base::Home, &[".grok", "sessions"]));
    assert_eq!(auth_json_path(Some(" /a "), None), at(given("/a"), &[]));
    assert_eq!(auth_json_path(None, Some("/g")), at(given("/g"), &["auth.json"]));
    assert_eq!(profiles_dir(Some("/p"), Some("/x"), None), at(given("/p"), &[]));
    assert_eq!(
        profiles_dir(None, Some("/x"), None),
        at(given("/x"), &["grok-tokens", "accounts"])
    );
    assert_eq!(
        profiles_dir(Some(" "), None, Some("/l")),
        at(given("/l"), &["grok-tokens", "accounts"])
    );
    assert_eq!(
        profiles_dir(None, None, None),
        at(Base::Home, &[".local", "share", "grok-tokens", "accounts"])
    );
    assert_eq!(
        profile_auth_path(at(given("/p"), &[]), "work"),
        at(given("/p"), &["work", "auth.json"])
    );
    assert_eq!(
        profile_limit_path(at(given("/p"), &[]), "work"),
        at(given("/p"), &["work", "limit.json"])
    );
}

#[test]
fn whether_colours_are_used() {
    assert!(use_color(false, false, None, true));
    assert!(!use_color(false, false, None, false));
    assert!(use_color(false, false, Some("yes"), false));
    assert!(!use_color(false, false, Some("0"), false));
    assert!(!use_color(false, true, Some("1"), true));
    assert!(!use_color(true, false, Some("true"), true));
}

#[test]
fn the_newest_sessions() {
    assert_eq!(newest_first(&vec![5, 9, 5, -1], 10), vec![1, 0, 2, 3]);
    assert_eq!(newest_first(&vec![5, 9, 5, -1], 2), vec![1, 0]);
    assert_eq!(newest_first(&vec![], 2), Vec::<usize>::new());
    assert_eq!(newest_first(&vec![1], 0), Vec::<usize>::new());
}

#[test]
fn escaped_names() {
    assert_eq!(urlencoding_decode("%2Fhome%2fann"), "/home/ann");
    assert_eq!(urlencoding_decode("%C3%A9"), "é");
    assert_eq!(urlencoding_decode("%2"), "%2");
    assert_eq!(urlencoding_decode("100%"), "100%");
    assert_eq!(urlencoding_decode("%zz%41"), "%zzA");
    assert_eq!(urlencoding_decode("%ff"), "\u{fffd}");
    assert_eq!(urlencoding_decode("é%25"), "é%");
    assert_eq!(urlencoding_decode("%c3%A9%25%7a"), "é%z");
    assert_eq!(urlencoding_decode("%2Fa%2Fb/c%20d"), "/a/b/c d");
    assert_eq!(unescape(b"%2Fx"), b"/x".to_vec());
    for b in 0..=255u8 {
        assert_eq!(unescape(format!("%{b:02X}").as_bytes()), vec![b]);
        assert_eq!(unescape(format!("%{b:02x}").as_bytes()), vec![b]);
    }
}

#[test]
fn directories_of_sessions() {
    let json = |s: &str| parse_json(s).unwrap();
    let cwd = |s: &str, p: Option<&str>| read_cwd(Some(&json(s)), p);
    assert_eq!(cwd(r#"{"info":{"cwd":"/a"},"cwd":"/b"}"#, None), "/a");
    assert_eq!(cwd(r#"{"cwd":"/b"}"#, Some("%2Fc")), "/b");
    assert_eq!(cwd(r#"{"info":{"cwd":1},"cwd":"/b"}"#, Some("%2Fc")), "/c");
    assert_eq!(cwd(r#"{"cwd":""}"#, Some("x%2Fc")), "");
    assert_eq!(read_cwd(None, Some("%2Fc")), "/c");
    assert_eq!(read_cwd(None, None), "");
}

#[test]
fn the_directory_that_is_asked_for() {
    assert!(keeps_cwd("/a", true));
    assert!(!keeps_cwd("/a", false));
    assert!(!keeps_cwd("", true));
}
