//! What holds of the places where things lie, and of the order in which sessions are found.
use crate::json::JsonTree;
use crate::order::{descending, greater_first, lex_less};
use crate::places::{
    auth_place, first_places, grok_place, hex_digit, in_color, in_directory, lists_newest,
    profiles_place, session_cwd, sessions_place, BaseTree, PathTree,
};
use crate::text::trimmed;
use vstd::prelude::*;

verus! {

/// The path lies in the home directory, at `parts` below it.
pub open spec fn at_home(p: PathTree, parts: Seq<Seq<char>>) -> bool {
    p.base is Home && p.parts == parts
}

/// The path is the text `s`, with `parts` below it.
pub open spec fn at_text(p: PathTree, s: Seq<char>, parts: Seq<Seq<char>>) -> bool {
    p.base == BaseTree::Given(s) && p.parts == parts
}

/// The variable is set to something that is not blank.
pub open spec fn filled(v: Option<Seq<char>>) -> bool {
    v matches Some(s) && trimmed(s).len() > 0
}

/// The program's directory is the one that its variable names, else `.grok` in the home directory.
pub proof fn law_place_of_the_program(v: Option<Seq<char>>)
    ensures
        filled(v) ==> at_text(grok_place(v), v->0, seq![]),
        !filled(v) ==> at_home(grok_place(v), seq![".grok"@]),
{
    assert(Seq::<Seq<char>>::empty().push(".grok"@) =~= seq![".grok"@]);
}

/// The sessions lie where their own variable says, else in the program's directory where that has
/// sessions, else in `.grok` in the home directory.
pub proof fn law_place_of_sessions(
    data: Option<Seq<char>>,
    home_var: Option<Seq<char>>,
    there: bool,
)
    ensures
        filled(data) ==> at_text(sessions_place(data, home_var, there), data->0, seq![]),
        !filled(data) && there && filled(home_var) ==> at_text(
            sessions_place(data, home_var, there),
            home_var->0,
            seq!["sessions"@],
        ),
        !filled(data) && (!there || !filled(home_var)) ==> at_home(
            sessions_place(data, home_var, there),
            seq![".grok"@, "sessions"@],
        ),
{
    let none = Seq::<Seq<char>>::empty();
    assert(none.push("sessions"@) =~= seq!["sessions"@]);
    assert(none.push(".grok"@).push("sessions"@) =~= seq![".grok"@, "sessions"@]);
}

/// The live login lies where its own variable says, without white space at the ends, else in
/// `auth.json` in the program's directory.
pub proof fn law_place_of_the_login(auth: Option<Seq<char>>, home_var: Option<Seq<char>>)
    ensures
        filled(auth) ==> at_text(auth_place(auth, home_var), trimmed(auth->0), seq![]),
        !filled(auth) && filled(home_var) ==> at_text(
            auth_place(auth, home_var),
            home_var->0,
            seq!["auth.json"@],
        ),
        !filled(auth) && !filled(home_var) ==> at_home(
            auth_place(auth, home_var),
            seq![".grok"@, "auth.json"@],
        ),
{
    let none = Seq::<Seq<char>>::empty();
    assert(none.push("auth.json"@) =~= seq!["auth.json"@]);
    assert(none.push(".grok"@).push("auth.json"@) =~= seq![".grok"@, "auth.json"@]);
}

/// The profiles lie where their own variable says, else below the directory for data that the
/// environment names, else below `.local` and `share` in the home directory.
pub proof fn law_place_of_profiles(
    own: Option<Seq<char>>,
    xdg: Option<Seq<char>>,
    local: Option<Seq<char>>,
)
    ensures
        ({
            let p = profiles_place(own, xdg, local);
            let below = seq!["grok-tokens"@, "accounts"@];
            &&& filled(own) ==> at_text(p, trimmed(own->0), seq![])
            &&& !filled(own) && filled(xdg) ==> at_text(p, trimmed(xdg->0), below)
            &&& !filled(own) && !filled(xdg) && filled(local) ==> at_text(
                p,
                trimmed(local->0),
                below,
            )
            &&& !filled(own) && !filled(xdg) && !filled(local) ==> at_home(
                p,
                seq![".local"@, "share"@, "grok-tokens"@, "accounts"@],
            )
        }),
{
    let none = Seq::<Seq<char>>::empty();
    assert(none.push("grok-tokens"@).push("accounts"@) =~= seq!["grok-tokens"@, "accounts"@]);
    assert(none.push(".local"@).push("share"@).push("grok-tokens"@).push("accounts"@) =~= seq![
        ".local"@,
        "share"@,
        "grok-tokens"@,
        "accounts"@,
    ]);
}

/// Colour is off where it is refused, whatever else holds; else it is on where it is asked for or
/// where the output goes to a terminal.
pub proof fn law_colour(flag: bool, var: bool, force: Option<Seq<char>>, terminal: bool)
    ensures
        flag || var ==> !in_color(flag, var, force, terminal),
        !flag && !var && terminal ==> in_color(flag, var, force, terminal),
        !flag && !var && (force == Some("1"@) || force == Some("true"@) || force == Some("yes"@))
            ==> in_color(flag, var, force, terminal),
        !terminal && force is None ==> !in_color(flag, var, force, terminal),
{
}

/// Where one directory is asked for, a session is shown if and only if its directory is known and
/// is that one.
pub proof fn law_sessions_of_a_directory(found: Seq<char>, same: bool)
    ensures
        in_directory(found, same) ==> same && found.len() > 0,
        same && found.len() > 0 ==> in_directory(found, same),
{
}

proof fn lemma_earlier_is_later(times: Seq<i128>, a: int, b: int)
    requires
        greater_first::<i128>(times, a, b),
    ensures
        times[a] >= times[b],
        times[a] == times[b] ==> a < b,
{
    reveal_with_fuel(lex_less, 2);
    if lex_less(seq![times[b] as int], seq![times[a] as int]) {
        assert(seq![times[b] as int][0] == times[b]);
        assert(seq![times[a] as int][0] == times[a]);
    }
}

/// The sessions that are found are the newest: as many as asked for, or all where there are fewer,
/// each once, the newest first, and none that is left out is newer than one that is listed. Of two
/// of one time, the one that comes first is listed first.
pub proof fn law_newest_sessions(times: Seq<i128>, limit: nat, r: Seq<usize>)
    requires
        lists_newest(times, limit, r),
    ensures
        r.len() == (if times.len() < limit {
            times.len()
        } else {
            limit
        }),
        r.no_duplicates(),
        forall|i: int| 0 <= i < r.len() ==> #[trigger] r[i] < times.len(),
        forall|i: int, j: int|
            0 <= i < j < r.len() ==> times[#[trigger] r[i] as int] >= times[#[trigger] r[j] as int],
        forall|i: int, j: int|
            0 <= i < j < r.len() && times[#[trigger] r[i] as int] == times[#[trigger] r[j] as int]
                ==> r[i] < r[j],
        forall|i: int, k: usize|
            0 <= i < r.len() && k < times.len() && !(#[trigger] r.contains(k))
                ==> times[#[trigger] r[i] as int] >= times[k as int],
{
    let all = choose|all: Seq<usize>|
        #[trigger] descending::<i128>(times, 0, times.len() as int, all) && r == first_places(
            all,
            limit,
        );
    assert forall|i: int, j: int| 0 <= i < j < all.len() implies times[#[trigger] all[i] as int]
        >= times[#[trigger] all[j] as int] && (times[all[i] as int] == times[all[j] as int]
        ==> all[i] < all[j]) by {
        assert(greater_first::<i128>(times, all[i] as int, all[j] as int));
        lemma_earlier_is_later(times, all[i] as int, all[j] as int);
    }
    assert forall|i: int| 0 <= i < r.len() implies r[i] == all[i] by {}
    assert forall|i: int, j: int| 0 <= i < r.len() && 0 <= j < r.len() && i != j implies r[i]
        != r[j] by {
        if i < j {
            assert(times[all[i] as int] == times[all[j] as int] ==> all[i] < all[j]);
        } else {
            assert(times[all[j] as int] == times[all[i] as int] ==> all[j] < all[i]);
        }
    }
    assert forall|i: int| 0 <= i < r.len() implies #[trigger] r[i] < times.len() by {
        assert(all[i] < times.len());
    }
    assert forall|i: int, k: usize|
        0 <= i < r.len() && k < times.len() && !(#[trigger] r.contains(k))
            implies times[#[trigger] r[i] as int]
        >= times[k as int] by {
        assert(all.contains(k));
        let j = choose|j: int| 0 <= j < all.len() && all[j] == k;
        if j < r.len() {
            assert(r[j] == k);
        }
        assert(times[all[i] as int] >= times[all[j] as int]);
    }
}

/// The directory of a session is what its summary says under `info` and `cwd`, else under `cwd`;
/// where the summary says nothing, it is what an escaped name of the directory above stands for;
/// else it is not known.
pub proof fn law_directory_of_a_session(
    t: JsonTree,
    info: JsonTree,
    s: Seq<char>,
    parent: Option<Seq<char>>,
)
    requires
        s.len() > 0,
    ensures
        t.field("info"@) == Some(info) && info.field("cwd"@) == Some(JsonTree::Text(s))
            ==> session_cwd(Some(t), parent) == s,
        (t.field("info"@) is None || (t.field("info"@) == Some(info) && info.field("cwd"@) is None))
            && t.field("cwd"@) == Some(JsonTree::Text(s)) ==> session_cwd(Some(t), parent) == s,
        t.field("info"@) == Some(info) && (info.field("cwd"@) matches Some(v) && v
            == JsonTree::Text(Seq::empty())) ==> session_cwd(Some(t), parent) == session_cwd(
            None,
            parent,
        ),
        t.field("info"@) is None && t.field("cwd"@) is None ==> session_cwd(Some(t), parent)
            == session_cwd(None, parent),
        parent is None ==> session_cwd(None, parent) == ""@,
        parent matches Some(p) ==> (p.len() > 0 && p[0] == '%' ==> session_cwd(None, parent)
            == crate::places::decoded(p)),
        parent matches Some(p) ==> (p.len() == 0 || p[0] != '%' ==> session_cwd(None, parent)
            == ""@),
{
    reveal_with_fuel(JsonTree::at, 3);
    let path = seq!["info"@, "cwd"@];
    assert(path.skip(1) =~= seq!["cwd"@]);
    assert(path.skip(1).skip(1) =~= Seq::<Seq<char>>::empty());
    if t.field("info"@) == Some(info) {
        assert(t.at(path) == info.at(path.skip(1)));
        assert(info.at(path.skip(1)) == info.field("cwd"@));
    }
}

/// The sixteen digits of a byte: those of ten, and six letters of either case.
pub proof fn law_hexadecimal_digits(b: u8)
    ensures
        0x30 <= b <= 0x39 ==> hex_digit(b) == Some((b - 0x30) as u8),
        0x41 <= b <= 0x46 ==> hex_digit(b) == Some((b - 0x41 + 10) as u8),
        0x61 <= b <= 0x66 ==> hex_digit(b) == Some((b - 0x61 + 10) as u8),
        !(0x30 <= b <= 0x39 || 0x41 <= b <= 0x46 || 0x61 <= b <= 0x66) ==> hex_digit(b) is None,
{
}

} // verus!
