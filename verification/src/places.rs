//! Where the files lie, which sessions are looked at, and whether colours are used.
use crate::json::{ref_text, Json, JsonTree};
use crate::order::{descending, keys_of, sort_descending};
use crate::text::{owned, push_line, same_text, starts_with_char, texts, trim, trimmed};
use vstd::prelude::*;
use vstd::string::*;
use vstd::utf8::{
    decode_utf8, encode_utf8, encode_utf8_decode_utf8, encode_utf8_valid_utf8, valid_utf8,
};

verus! {

/// What a path starts at.
#[derive(Debug, PartialEq, Eq)]
pub enum Base {
    /// The home directory of the user.
    Home,
    Given(String),
}

/// A path: what it starts at, and the components behind it.
#[derive(Debug, PartialEq, Eq)]
pub struct Location {
    pub base: Base,
    pub parts: Vec<String>,
}

/// What a path starts at.
#[verifier::ext_equal]
pub enum BaseTree {
    Home,
    Given(Seq<char>),
}

/// What a path is.
#[verifier::ext_equal]
pub struct PathTree {
    pub base: BaseTree,
    pub parts: Seq<Seq<char>>,
}

impl View for Location {
    type V = PathTree;

    open spec fn view(&self) -> PathTree {
        PathTree {
            base: match self.base {
                Base::Home => BaseTree::Home,
                Base::Given(s) => BaseTree::Given(s@),
            },
            parts: texts(self.parts@),
        }
    }
}

/// The path `s`.
pub open spec fn given(s: Seq<char>) -> PathTree {
    PathTree { base: BaseTree::Given(s), parts: Seq::empty() }
}

/// The home directory of the user.
pub open spec fn home() -> PathTree {
    PathTree { base: BaseTree::Home, parts: Seq::empty() }
}

/// A component behind a path.
pub open spec fn below(p: PathTree, part: Seq<char>) -> PathTree {
    PathTree { base: p.base, parts: p.parts.push(part) }
}

fn given_path(s: &str) -> (r: Location)
    ensures
        r@ == given(s@),
{
    let r = Location { base: Base::Given(owned(s)), parts: Vec::new() };
    assert(texts(r.parts@) =~= Seq::<Seq<char>>::empty());
    r
}

fn home_path() -> (r: Location)
    ensures
        r@ == home(),
{
    let r = Location { base: Base::Home, parts: Vec::new() };
    assert(texts(r.parts@) =~= Seq::<Seq<char>>::empty());
    r
}

impl Location {
    /// The component `part` behind the path.
    pub fn join(self, part: &str) -> (r: Location)
        ensures
            r@ == below(self@, part@),
    {
        let mut r = self;
        push_line(&mut r.parts, owned(part));
        r
    }
}

/// Something that is set and not blank.
pub open spec fn is_set(v: Option<Seq<char>>) -> bool {
    v is Some && trimmed(v->0).len() > 0
}

/// The directory of the program, by the variable `GROK_HOME`.
pub open spec fn grok_place(home_var: Option<Seq<char>>) -> PathTree {
    if is_set(home_var) {
        given(home_var->0)
    } else {
        below(home(), ".grok"@)
    }
}

/// The directory of the program: what `GROK_HOME` names, else `.grok` in the home directory.
pub fn grok_home(home_var: Option<&str>) -> (r: Location)
    ensures
        r@ == grok_place(ref_text(home_var)),
{
    if let Some(h) = home_var {
        if !trim(h).as_str().is_empty() {
            return given_path(h);
        }
    }
    home_path().join(".grok")
}

/// Where the sessions lie, by the variables `GROK_DATA_DIR` and `GROK_HOME`; `there` says whether
/// the directory of the program has sessions.
pub open spec fn sessions_place(
    data_var: Option<Seq<char>>,
    home_var: Option<Seq<char>>,
    there: bool,
) -> PathTree {
    if is_set(data_var) {
        given(data_var->0)
    } else if there {
        below(grok_place(home_var), "sessions"@)
    } else {
        below(below(home(), ".grok"@), "sessions"@)
    }
}

/// Where the sessions lie: what `GROK_DATA_DIR` names, else `sessions` in the directory of the
/// program where that is `there`, else the same in the home directory.
pub fn sessions_root(data_var: Option<&str>, home_var: Option<&str>, there: bool) -> (r: Location)
    ensures
        r@ == sessions_place(ref_text(data_var), ref_text(home_var), there),
{
    if let Some(d) = data_var {
        if !trim(d).as_str().is_empty() {
            return given_path(d);
        }
    }
    if there {
        return grok_home(home_var).join("sessions");
    }
    home_path().join(".grok").join("sessions")
}

/// Where the live login lies, by the variables `GROK_AUTH_PATH` and `GROK_HOME`.
pub open spec fn auth_place(auth_var: Option<Seq<char>>, home_var: Option<Seq<char>>) -> PathTree {
    if is_set(auth_var) {
        given(trimmed(auth_var->0))
    } else {
        below(grok_place(home_var), "auth.json"@)
    }
}

/// Where the live login lies: what `GROK_AUTH_PATH` names, else `auth.json` in the directory of
/// the program.
pub fn auth_json_path(auth_var: Option<&str>, home_var: Option<&str>) -> (r: Location)
    ensures
        r@ == auth_place(ref_text(auth_var), ref_text(home_var)),
{
    if let Some(p) = auth_var {
        let t = trim(p);
        if !t.as_str().is_empty() {
            return given_path(t.as_str());
        }
    }
    grok_home(home_var).join("auth.json")
}

/// The directory of the accounts below a directory for data.
pub open spec fn accounts_below(p: PathTree) -> PathTree {
    below(below(p, "grok-tokens"@), "accounts"@)
}

/// Where the profiles lie, by the variables `GROK_TOKENS_PROFILES`, `XDG_DATA_HOME` and, where the
/// system has one, `LOCALAPPDATA`.
pub open spec fn profiles_place(
    profiles_var: Option<Seq<char>>,
    xdg_var: Option<Seq<char>>,
    local_var: Option<Seq<char>>,
) -> PathTree {
    if is_set(profiles_var) {
        given(trimmed(profiles_var->0))
    } else if is_set(xdg_var) {
        accounts_below(given(trimmed(xdg_var->0)))
    } else if is_set(local_var) {
        accounts_below(given(trimmed(local_var->0)))
    } else {
        accounts_below(below(below(home(), ".local"@), "share"@))
    }
}

/// Where the profiles lie: what `GROK_TOKENS_PROFILES` names, else below `XDG_DATA_HOME`, else
/// below `LOCALAPPDATA`, else below `.local/share` in the home directory.
pub fn profiles_dir(
    profiles_var: Option<&str>,
    xdg_var: Option<&str>,
    local_var: Option<&str>,
) -> (r: Location)
    ensures
        r@ == profiles_place(ref_text(profiles_var), ref_text(xdg_var), ref_text(local_var)),
{
    if let Some(d) = profiles_var {
        let t = trim(d);
        if !t.as_str().is_empty() {
            return given_path(t.as_str());
        }
    }
    if let Some(d) = xdg_var {
        let t = trim(d);
        if !t.as_str().is_empty() {
            return given_path(t.as_str()).join("grok-tokens").join("accounts");
        }
    }
    if let Some(d) = local_var {
        let t = trim(d);
        if !t.as_str().is_empty() {
            return given_path(t.as_str()).join("grok-tokens").join("accounts");
        }
    }
    home_path().join(".local").join("share").join("grok-tokens").join("accounts")
}

/// Where the login of the profile `name` lies, below the directory of the profiles.
pub fn profile_auth_path(dir: Location, name: &str) -> (r: Location)
    ensures
        r@ == below(below(dir@, name@), "auth.json"@),
{
    dir.join(name).join("auth.json")
}

/// Where the stored limit of the profile `name` lies, below the directory of the profiles.
pub fn profile_limit_path(dir: Location, name: &str) -> (r: Location)
    ensures
        r@ == below(below(dir@, name@), "limit.json"@),
{
    dir.join(name).join("limit.json")
}

/// Whether output is in colour, by the flag, by the variables `NO_COLOR` and `FORCE_COLOR`, and by
/// whether it goes to a terminal.
pub open spec fn in_color(
    no_color_flag: bool,
    no_color_var: bool,
    force_var: Option<Seq<char>>,
    terminal: bool,
) -> bool {
    !no_color_flag && !no_color_var && (force_var == Some("1"@) || force_var == Some("true"@)
        || force_var == Some("yes"@) || terminal)
}

/// Whether colours are used: not where they are switched off by a flag or by `NO_COLOR`, always
/// where `FORCE_COLOR` asks for them, else where the output is a terminal.
pub fn use_color(
    no_color_flag: bool,
    no_color_var: bool,
    force_var: Option<&str>,
    terminal: bool,
) -> (r: bool)
    ensures
        r == in_color(no_color_flag, no_color_var, ref_text(force_var), terminal),
        r == (!no_color_flag && !no_color_var && (ref_text(force_var) == Some("1"@) || ref_text(
            force_var,
        ) == Some("true"@) || ref_text(force_var) == Some("yes"@) || terminal)),
{
    if no_color_flag {
        return false;
    }
    if no_color_var {
        return false;
    }
    if let Some(s) = force_var {
        if same_text(s, "1") || same_text(s, "true") || same_text(s, "yes") {
            return true;
        }
    }
    terminal
}

/// The first `limit` of some positions, or all where there are fewer.
pub open spec fn first_places(r: Seq<usize>, limit: nat) -> Seq<usize> {
    if r.len() <= limit {
        r
    } else {
        r.take(limit as int)
    }
}

/// `r` lists the newest sessions by when their logs changed, no more than `limit`, the newest
/// first and those of one time in their order.
pub open spec fn lists_newest(times: Seq<i128>, limit: nat, r: Seq<usize>) -> bool {
    exists|all: Seq<usize>|
        #[trigger] descending::<i128>(times, 0, times.len() as int, all) && r == first_places(
            all,
            limit,
        )
}

/// The newest sessions by when their logs changed, no more than `limit`, the newest first.
pub fn newest_first(times: &Vec<i128>, limit: usize) -> (r: Vec<usize>)
    ensures
        lists_newest(times@, limit as nat, r@),
{
    let mut all = sort_descending(times);
    assert(keys_of(times@) =~= times@);
    let ghost whole = all@;
    if all.len() > limit {
        all.truncate(limit);
        assert(all@ =~= whole.take(limit as int));
    }
    assert(all@ == first_places(whole, limit as nat));
    all
}

/// The value of a hexadecimal digit.
pub open spec fn hex_digit(b: u8) -> Option<u8> {
    if 0x30 <= b <= 0x39 {
        Some((b - 0x30) as u8)
    } else if 0x61 <= b <= 0x66 {
        Some((b - 0x61 + 10) as u8)
    } else if 0x41 <= b <= 0x46 {
        Some((b - 0x41 + 10) as u8)
    } else {
        None
    }
}

fn hex_value(b: u8) -> (r: Option<u8>)
    ensures
        r == hex_digit(b),
{
    if 0x30 <= b && b <= 0x39 {
        Some(b - 0x30)
    } else if 0x61 <= b && b <= 0x66 {
        Some(b - 0x61 + 10)
    } else if 0x41 <= b && b <= 0x46 {
        Some(b - 0x41 + 10)
    } else {
        None
    }
}

/// The byte that `b` starts with, as a percent sign and two hexadecimal digits.
pub open spec fn escaped(b: Seq<u8>) -> Option<u8> {
    if b.len() > 2 && b[0] == 0x25 && hex_digit(b[1]) is Some && hex_digit(b[2]) is Some {
        Some((hex_digit(b[1])->0 * 16 + hex_digit(b[2])->0) as u8)
    } else {
        None
    }
}

/// The bytes that `b` stands for: each percent sign with two hexadecimal digits is one byte.
pub open spec fn unescaped(b: Seq<u8>) -> Seq<u8>
    decreases b.len(),
{
    if b.len() == 0 {
        Seq::empty()
    } else {
        match escaped(b) {
            Some(v) => seq![v] + unescaped(b.skip(3)),
            None => seq![b[0]] + unescaped(b.skip(1)),
        }
    }
}

/// The bytes that `bytes` stand for.
pub fn unescape(bytes: &[u8]) -> (r: Vec<u8>)
    ensures
        r@ == unescaped(bytes@),
{
    let mut out: Vec<u8> = Vec::new();
    let ghost all = bytes@;
    let mut i: usize = 0;
    assert(all.skip(0) =~= all);
    assert(out@ + unescaped(all.skip(0)) =~= unescaped(all));
    while i < bytes.len()
        invariant
            all == bytes@,
            i <= all.len(),
            out@ + unescaped(all.skip(i as int)) == unescaped(all),
        decreases all.len() - i,
    {
        let ghost rest = all.skip(i as int);
        let ghost before = out@;
        if bytes[i] == 0x25 && bytes.len() - i > 2 {
            if let (Some(a), Some(b)) = (hex_value(bytes[i + 1]), hex_value(bytes[i + 2])) {
                assert(a < 16 && b < 16);
                out.push(a * 16 + b);
                assert(rest.skip(3) =~= all.skip(i as int + 3));
                assert(escaped(rest) == Some((a * 16 + b) as u8));
                assert(out@ + unescaped(all.skip(i as int + 3)) =~= before + unescaped(rest));
                i = i + 3;
                continue ;
            }
        }
        out.push(bytes[i]);
        assert(rest.skip(1) =~= all.skip(i as int + 1));
        assert(escaped(rest) is None);
        assert(out@ + unescaped(all.skip(i as int + 1)) =~= before + unescaped(rest));
        i = i + 1;
    }
    assert(unescaped(all.skip(i as int)) =~= Seq::<u8>::empty());
    assert(out@ =~= unescaped(all));
    out
}

/// `std`'s `String::from_utf8_lossy`.
pub uninterp spec fn lossy_text(bytes: Seq<u8>) -> Seq<char>;

/// `String::from_utf8_lossy`, as an owned text: the text that the bytes encode; where they encode
/// none, one with replacement characters.
#[verifier::external_body]
fn from_utf8_lossy(bytes: &Vec<u8>) -> (r: String)
    ensures
        r@ == lossy_text(bytes@),
        valid_utf8(bytes@) ==> r@ == decode_utf8(bytes@),
{
    String::from_utf8_lossy(bytes).into_owned()
}

/// The text that the bytes encode; where they encode none, one with replacement characters.
pub open spec fn read_bytes(bytes: Seq<u8>) -> Seq<char> {
    if valid_utf8(bytes) {
        decode_utf8(bytes)
    } else {
        lossy_text(bytes)
    }
}

/// The text that `s` stands for: each percent sign with two hexadecimal digits is one byte.
pub open spec fn decoded(s: Seq<char>) -> Seq<char> {
    read_bytes(unescaped(encode_utf8(s)))
}

/// The text that `s` stands for: each percent sign with two hexadecimal digits is one byte.
pub fn urlencoding_decode(s: &str) -> (r: String)
    ensures
        r@ == decoded(s@),
{
    let bytes = unescape(s.as_bytes());
    from_utf8_lossy(&bytes)
}

/// The directory that the summary of a session names.
pub open spec fn summary_cwd(t: JsonTree) -> Option<Seq<char>> {
    let found = match t.at(seq!["info"@, "cwd"@]) {
        Some(v) => Some(v),
        None => t.field("cwd"@),
    };
    match found {
        Some(JsonTree::Text(s)) => if s.len() > 0 {
            Some(s)
        } else {
            None
        },
        _ => None,
    }
}

/// The directory of a session: that of its summary, else the name of the directory above where
/// that is escaped, else none.
pub open spec fn session_cwd(summary: Option<JsonTree>, parent: Option<Seq<char>>) -> Seq<char> {
    let named = match summary {
        Some(t) => summary_cwd(t),
        None => None,
    };
    match named {
        Some(s) => s,
        None => match parent {
            Some(p) => if p.len() > 0 && p[0] == '%' {
                decoded(p)
            } else {
                ""@
            },
            None => ""@,
        },
    }
}

/// What an optional reference to a value is.
pub open spec fn summary_tree(v: Option<&Json>) -> Option<JsonTree> {
    match v {
        Some(j) => Some(j@),
        None => None,
    }
}

/// The directory of a session: that of its summary, where one can be read; else the name of the
/// directory above where that is escaped, else none.
pub fn read_cwd(summary: Option<&Json>, parent: Option<&str>) -> (r: String)
    ensures
        r@ == session_cwd(summary_tree(summary), ref_text(parent)),
{
    if let Some(v) = summary {
        let ghost path = seq!["info"@, "cwd"@];
        proof {
            reveal_with_fuel(JsonTree::at, 3);
            assert(path.skip(1) =~= seq!["cwd"@]);
            assert(path.skip(1).skip(1) =~= Seq::<Seq<char>>::empty());
        }
        let inner = match v.get("info") {
            Some(info) => info.get("cwd"),
            None => None,
        };
        let found = match inner {
            Some(x) => Some(x),
            None => v.get("cwd"),
        };
        if let Some(x) = found {
            if let Some(s) = x.as_str() {
                if !s.is_empty() {
                    return owned(s);
                }
            }
        }
    }
    if let Some(p) = parent {
        if starts_with_char(p, '%') {
            return urlencoding_decode(p);
        }
    }
    owned("")
}

/// A session in the directory `found` is shown, where one directory is asked for.
pub open spec fn in_directory(found: Seq<char>, same: bool) -> bool {
    found.len() > 0 && same
}

/// Whether a session in the directory `found` is shown, where one directory is asked for; `same`
/// says whether `found` is that one. A session whose directory is not known is not shown.
pub fn keeps_cwd(found: &str, same: bool) -> (r: bool)
    ensures
        r == in_directory(found@, same),
        r == (found@.len() > 0 && same),
{
    !found.is_empty() && same
}

/// `e` stands for the byte `b` as a percent sign and two hexadecimal digits, of either case.
pub open spec fn escapes(e: Seq<u8>, b: u8) -> bool {
    &&& e.len() == 3
    &&& e[0] == 0x25
    &&& hex_digit(e[1]) == Some((b / 16) as u8)
    &&& hex_digit(e[2]) == Some((b % 16) as u8)
}

/// `e` is `b` with some bytes as a percent sign and two hexadecimal digits. The others are as they
/// are; where one is the percent sign, no two hexadecimal digits stand behind it.
pub open spec fn encodes(e: Seq<u8>, b: Seq<u8>) -> bool
    decreases b.len(),
{
    if b.len() == 0 {
        e.len() == 0
    } else {
        ||| e.len() > 0 && e[0] == b[0] && escaped(e) is None && encodes(e.skip(1), b.skip(1))
        ||| e.len() > 2 && escapes(e.take(3), b[0]) && encodes(e.skip(3), b.skip(1))
    }
}

proof fn lemma_unescaped(e: Seq<u8>, b: Seq<u8>)
    requires
        encodes(e, b),
    ensures
        unescaped(e) == b,
    decreases b.len(),
{
    if b.len() > 0 {
        let rest = b.skip(1);
        assert(seq![b[0]] + rest =~= b);
        if e.len() > 2 && escapes(e.take(3), b[0]) && encodes(e.skip(3), rest) {
            lemma_unescaped(e.skip(3), rest);
            assert(e.take(3)[0] == e[0] && e.take(3)[1] == e[1] && e.take(3)[2] == e[2]);
            assert(escaped(e) == Some(b[0]));
        } else {
            lemma_unescaped(e.skip(1), rest);
            assert(escaped(e) is None);
        }
    } else {
        assert(unescaped(e) =~= b);
    }
}

/// Decoding gives back the text that was encoded, whichever of its bytes were escaped and whatever
/// the case of the digits, as long as nothing that was not escaped reads as an escape.
pub proof fn law_decoding_undoes_encoding(s: Seq<char>, e: Seq<char>)
    requires
        encodes(encode_utf8(e), encode_utf8(s)),
    ensures
        unescaped(encode_utf8(e)) == encode_utf8(s),
        decoded(e) == s,
{
    lemma_unescaped(encode_utf8(e), encode_utf8(s));
    encode_utf8_decode_utf8(s);
    encode_utf8_valid_utf8(s);
}

} // verus!
