//! What holds of the profiles that a store holds, and of which of them a login belongs to.
use crate::identity::{user_of, Identity};
use crate::names::name_error;
use crate::order::{
    increasing, lemma_insert_text, lemma_ordered, lex_less, ordered, text_rank, SortKey,
};
use crate::store::{
    candidates, files_of, first_of_user, first_with_user, is_profile, matching, named, persisted,
    profile_names, with_names, AuthTree, DirEntry, ProfileTree, StoreTree,
};
use crate::text::trimmed;
use vstd::prelude::*;

verus! {

/// A profile is a directory with an accepted name and a login in it, and nothing else.
pub proof fn law_profiles_of_a_directory(entries: Seq<DirEntry>, name: Seq<char>)
    ensures
        profile_names(entries).contains(name) <==> exists|i: int|
            0 <= i < entries.len() && (#[trigger] entries[i]).name@ == name && entries[i].is_dir
                && entries[i].has_auth && name_error(name) is None,
    decreases entries.len(),
{
    if entries.len() > 0 {
        let a = entries.drop_last();
        law_profiles_of_a_directory(a, name);
        if profile_names(a).contains(name) {
            let i = choose|i: int|
                0 <= i < a.len() && (#[trigger] a[i]).name@ == name && a[i].is_dir && a[i].has_auth
                    && name_error(name) is None;
            assert(entries[i] == a[i]);
        }
        if is_profile(entries.last()) && entries.last().name@ == name {
            assert(entries[entries.len() - 1].name@ == name);
        }
        if exists|i: int|
            0 <= i < entries.len() && (#[trigger] entries[i]).name@ == name && entries[i].is_dir
                && entries[i].has_auth && name_error(name) is None {
            let i = choose|i: int|
                0 <= i < entries.len() && (#[trigger] entries[i]).name@ == name
                    && entries[i].is_dir && entries[i].has_auth && name_error(name) is None;
            if i < a.len() {
                assert(a[i] == entries[i]);
            }
        }
    }
}

/// The marker names the profile that its text spells, without white space at the ends; a blank
/// marker names none.
pub proof fn law_marker(text: Seq<char>)
    ensures
        trimmed(text).len() > 0 ==> named(text) == Some(trimmed(text)),
        trimmed(text).len() == 0 ==> named(text) is None,
{
}

/// The files of a profile are the first that bear its name; a profile that there are none of has no
/// login and no limit.
pub proof fn law_files_by_name(files: Seq<ProfileTree>, name: Seq<char>, k: int)
    ensures
        0 <= k < files.len() && files[k].name == name && (forall|j: int|
            0 <= j < k ==> (#[trigger] files[j]).name != name) ==> files_of(files, name)
            == files[k],
        (forall|j: int| 0 <= j < files.len() ==> (#[trigger] files[j]).name != name) ==> files_of(
            files,
            name,
        ).auth is Missing && files_of(files, name).limit is None,
    decreases files.len(),
{
    if files.len() > 0 && files[0].name != name {
        let rest = files.skip(1);
        law_files_by_name(rest, name, k - 1);
        if 0 < k < files.len() && (forall|j: int|
            0 <= j < k ==> (#[trigger] files[j]).name != name) {
            assert(rest[k - 1] == files[k]);
            assert forall|j: int| 0 <= j < k - 1 implies (#[trigger] rest[j]).name != name by {
                assert(rest[j] == files[j + 1]);
            }
        }
        if forall|j: int| 0 <= j < files.len() ==> (#[trigger] files[j]).name != name {
            assert forall|j: int| 0 <= j < rest.len() implies (#[trigger] rest[j]).name != name by {
                assert(rest[j] == files[j + 1]);
            }
        }
    }
}

/// The place `k` is the first of `names` whose profile is that of `user`.
pub open spec fn first_place(s: StoreTree, user: Seq<char>, names: Seq<Seq<char>>, k: int) -> bool {
    &&& 0 <= k < names.len()
    &&& s.user_at(names[k]) == Some(user)
    &&& forall|j: int| 0 <= j < k ==> s.user_at(#[trigger] names[j]) != Some(user)
}

/// No profile of `names` is that of `user`.
pub open spec fn no_place(s: StoreTree, user: Seq<char>, names: Seq<Seq<char>>) -> bool {
    forall|j: int| 0 <= j < names.len() ==> s.user_at(#[trigger] names[j]) != Some(user)
}

/// Every login of `names` can be read.
pub open spec fn readable(s: StoreTree, names: Seq<Seq<char>>) -> bool {
    forall|j: int| 0 <= j < names.len() ==> !(s.auth_of(#[trigger] names[j]) is Unreadable)
}

proof fn lemma_first_with_user(s: StoreTree, user: Seq<char>, among: Seq<Seq<char>>, k: int)
    requires
        readable(s, among),
    ensures
        first_place(s, user, among, k) ==> first_with_user(s, Some(user), among) == Ok::<
            Option<Seq<char>>,
            Seq<char>,
        >(Some(among[k])),
        no_place(s, user, among) ==> first_with_user(s, Some(user), among) == Ok::<
            Option<Seq<char>>,
            Seq<char>,
        >(None),
    decreases among.len(),
{
    if among.len() > 0 {
        let rest = among.skip(1);
        assert forall|j: int| 0 <= j < rest.len() implies !(s.auth_of(
            #[trigger] rest[j],
        ) is Unreadable) by {
            assert(rest[j] == among[j + 1]);
        }
        assert(!(s.auth_of(among[0]) is Unreadable));
        lemma_first_with_user(s, user, rest, k - 1);
        if first_place(s, user, among, k) && k > 0 {
            assert(s.user_at(among[0]) != Some(user));
            assert(rest[k - 1] == among[k]);
            assert forall|j: int| 0 <= j < k - 1 implies s.user_at(#[trigger] rest[j]) != Some(
                user,
            ) by {
                assert(rest[j] == among[j + 1]);
            }
            assert(first_place(s, user, rest, k - 1));
        }
        if no_place(s, user, among) {
            assert(s.user_at(among[0]) != Some(user));
            assert forall|j: int| 0 <= j < rest.len() implies s.user_at(#[trigger] rest[j]) != Some(
                user,
            ) by {
                assert(rest[j] == among[j + 1]);
            }
        }
    }
}

proof fn lemma_first_of_user(s: StoreTree, user: Seq<char>, among: Seq<Seq<char>>, k: int)
    ensures
        first_place(s, user, among, k) ==> first_of_user(s, user, among) == Some(among[k]),
        no_place(s, user, among) ==> first_of_user(s, user, among) is None,
    decreases among.len(),
{
    if among.len() > 0 {
        let rest = among.skip(1);
        lemma_first_of_user(s, user, rest, k - 1);
        if first_place(s, user, among, k) && k > 0 {
            assert(s.user_at(among[0]) != Some(user));
            assert(rest[k - 1] == among[k]);
            assert forall|j: int| 0 <= j < k - 1 implies s.user_at(#[trigger] rest[j]) != Some(
                user,
            ) by {
                assert(rest[j] == among[j + 1]);
            }
            assert(first_place(s, user, rest, k - 1));
        }
        if no_place(s, user, among) {
            assert(s.user_at(among[0]) != Some(user));
            assert forall|j: int| 0 <= j < rest.len() implies s.user_at(#[trigger] rest[j]) != Some(
                user,
            ) by {
                assert(rest[j] == among[j + 1]);
            }
        }
    }
}

proof fn lemma_with_names(s: StoreTree, user: Seq<char>, base: Seq<Seq<char>>,
    names: Seq<Seq<char>>)
    ensures
        with_names(base, names).len() >= base.len(),
        forall|j: int| 0 <= j < base.len() ==> #[trigger] with_names(base, names)[j] == base[j],
        readable(s, base) && readable(s, names) ==> readable(s, with_names(base, names)),
        no_place(s, user, base) && no_place(s, user, names) ==> no_place(
            s,
            user,
            with_names(base, names),
        ),
    decreases names.len(),
{
    if names.len() > 0 {
        let front = names.drop_last();
        lemma_with_names(s, user, base, front);
        let a = with_names(base, front);
        let all = with_names(base, names);
        if readable(s, base) && readable(s, names) {
            assert forall|j: int| 0 <= j < front.len() implies !(s.auth_of(
                #[trigger] front[j],
            ) is Unreadable) by {
                assert(front[j] == names[j]);
            }
            assert(!(s.auth_of(names[names.len() - 1]) is Unreadable));
            assert forall|j: int| 0 <= j < all.len() implies !(s.auth_of(
                #[trigger] all[j],
            ) is Unreadable) by {
                if j < a.len() {
                    assert(all[j] == a[j]);
                }
            }
        }
        if no_place(s, user, base) && no_place(s, user, names) {
            assert forall|j: int| 0 <= j < front.len() implies s.user_at(#[trigger] front[j])
                != Some(user) by {
                assert(front[j] == names[j]);
            }
            assert(s.user_at(names[names.len() - 1]) != Some(user));
            assert forall|j: int| 0 <= j < all.len() implies s.user_at(#[trigger] all[j]) != Some(
                user,
            ) by {
                if j < a.len() {
                    assert(all[j] == a[j]);
                }
            }
        }
    }
}

proof fn lemma_first_name(
    s: StoreTree,
    user: Seq<char>,
    base: Seq<Seq<char>>,
    names: Seq<Seq<char>>,
    i: int,
) -> (k: int)
    requires
        no_place(s, user, base),
        first_place(s, user, names, i),
    ensures
        first_place(s, user, with_names(base, names), k),
        with_names(base, names)[k] == names[i],
    decreases names.len(),
{
    let front = names.drop_last();
    let a = with_names(base, front);
    let all = with_names(base, names);
    if i < front.len() {
        assert(front[i] == names[i]);
        assert forall|j: int| 0 <= j < i implies s.user_at(#[trigger] front[j]) != Some(user) by {
            assert(front[j] == names[j]);
        }
        let k = lemma_first_name(s, user, base, front, i);
        assert(all[k] == a[k]);
        assert forall|j: int| 0 <= j < k implies s.user_at(#[trigger] all[j]) != Some(user) by {
            assert(all[j] == a[j]);
        }
        k
    } else {
        assert forall|j: int| 0 <= j < front.len() implies s.user_at(#[trigger] front[j]) != Some(
            user,
        ) by {
            assert(front[j] == names[j]);
        }
        lemma_with_names(s, user, base, front);
        assert(no_place(s, user, a));
        if a.contains(names.last()) {
            let j = choose|j: int| 0 <= j < a.len() && a[j] == names.last();
            assert(s.user_at(a[j]) != Some(user));
        }
        let k = a.len() as int;
        assert(all == a.push(names.last()));
        assert forall|j: int| 0 <= j < k implies s.user_at(#[trigger] all[j]) != Some(user) by {
            assert(all[j] == a[j]);
        }
        k
    }
}

proof fn lemma_nobody(s: StoreTree, among: Seq<Seq<char>>)
    requires
        readable(s, among),
    ensures
        first_with_user(s, None, among) == Ok::<Option<Seq<char>>, Seq<char>>(None),
    decreases among.len(),
{
    if among.len() > 0 {
        let rest = among.skip(1);
        assert forall|j: int| 0 <= j < rest.len() implies !(s.auth_of(
            #[trigger] rest[j],
        ) is Unreadable) by {
            assert(rest[j] == among[j + 1]);
        }
        assert(!(s.auth_of(among[0]) is Unreadable));
        lemma_nobody(s, rest);
    }
}

/// The live login is written back to the current profile where that is the same user's, else to the
/// first profile of that user, and to none where there is no such profile. It is written back to
/// none where nobody is signed in.
pub proof fn law_written_back_to_its_profile(
    s: StoreTree,
    user: Seq<char>,
    current: Option<Seq<char>>,
    names: Seq<Seq<char>>,
    k: int,
)
    requires
        s.current == Ok::<Option<Seq<char>>, Seq<char>>(current),
        s.names == Ok::<Seq<Seq<char>>, Seq<char>>(names),
        readable(s, names),
        current matches Some(c) ==> !(s.auth_of(c) is Unreadable),
    ensures
        s.live is Missing ==> persisted(s) == Ok::<Option<Seq<char>>, Seq<char>>(None),
        s.live matches AuthTree::Present(t) ==> (user_of(t) is None ==> persisted(s) == Ok::<
            Option<Seq<char>>,
            Seq<char>,
        >(None)),
        s.live matches AuthTree::Present(t) ==> (user_of(t) == Some(user) ==> {
            &&& current matches Some(c) ==> (s.user_at(c) == Some(user) ==> persisted(s) == Ok::<
                Option<Seq<char>>,
                Seq<char>,
            >(Some(c)))
            &&& (current matches Some(c) ==> s.user_at(c) != Some(user)) ==> {
                &&& first_place(s, user, names, k) ==> persisted(s) == Ok::<
                    Option<Seq<char>>,
                    Seq<char>,
                >(Some(names[k]))
                &&& no_place(s, user, names) ==> persisted(s) == Ok::<
                    Option<Seq<char>>,
                    Seq<char>,
                >(None)
            }
        }),
{
    let base = match current {
        Some(c) => Seq::empty().push(c),
        None => Seq::empty(),
    };
    let all = candidates(current, names);
    assert(all == with_names(base, names));
    lemma_with_names(s, user, base, names);
    assert(readable(s, all));
    lemma_nobody(s, all);
    if let Some(c) = current {
        assert(base[0] == c);
        if s.user_at(c) == Some(user) {
            assert(all[0] == c);
            assert(first_place(s, user, all, 0));
            lemma_first_with_user(s, user, all, 0);
        }
    }
    if current matches Some(c) ==> s.user_at(c) != Some(user) {
        assert(no_place(s, user, base));
        if first_place(s, user, names, k) {
            let m = lemma_first_name(s, user, base, names, k);
            lemma_first_with_user(s, user, all, m);
        }
        if no_place(s, user, names) {
            lemma_first_with_user(s, user, all, 0);
        }
    }
}

/// The profile that a login belongs to is the current one where that is the same user's, else the
/// first profile of that user. Without a user it is the current one.
pub proof fn law_profile_of_a_login(
    s: StoreTree,
    id: Identity,
    current: Option<Seq<char>>,
    names: Seq<Seq<char>>,
    k: int,
)
    requires
        s.current == Ok::<Option<Seq<char>>, Seq<char>>(current),
        s.names == Ok::<Seq<Seq<char>>, Seq<char>>(names),
    ensures
        id.user_id is None ==> matching(s, id) == Ok::<Option<Seq<char>>, Seq<char>>(current),
        id.user_id matches Some(user) ==> {
            &&& current matches Some(c) ==> (s.user_at(c) == Some(user) ==> matching(s, id) == Ok::<
                Option<Seq<char>>,
                Seq<char>,
            >(Some(c)))
            &&& (current matches Some(c) ==> s.user_at(c) != Some(user)) ==> {
                &&& first_place(s, user, names, k) ==> matching(s, id) == Ok::<
                    Option<Seq<char>>,
                    Seq<char>,
                >(Some(names[k]))
                &&& no_place(s, user, names) ==> matching(s, id) == Ok::<
                    Option<Seq<char>>,
                    Seq<char>,
                >(None)
            }
        },
{
    if let Some(user) = id.user_id {
        lemma_first_of_user(s, user, names, k);
    }
}

proof fn lemma_names_ordered(entries: Seq<DirEntry>) -> (r: Seq<Seq<char>>)
    ensures
        increasing::<String>(r),
        r.to_set() == profile_names(entries),
    decreases entries.len(),
{
    if entries.len() == 0 {
        let r = Seq::<Seq<char>>::empty();
        assert(r.to_set() =~= Set::<Seq<char>>::empty());
        r
    } else {
        let a = lemma_names_ordered(entries.drop_last());
        if is_profile(entries.last()) {
            lemma_insert_text(a, entries.last().name@)
        } else {
            a
        }
    }
}

/// The profiles of a directory are listed in the order of their names, each once.
pub proof fn law_profiles_in_order(entries: Seq<DirEntry>, name: Seq<char>)
    ensures
        ordered(profile_names(entries)).contains(name) <==> profile_names(entries).contains(name),
        forall|i: int, j: int|
            0 <= i < j < ordered(profile_names(entries)).len() ==> lex_less(
                text_rank(#[trigger] ordered(profile_names(entries))[i]),
                text_rank(#[trigger] ordered(profile_names(entries))[j]),
            ),
{
    let r = lemma_names_ordered(entries);
    lemma_ordered(r, profile_names(entries));
    assert(r.to_set().contains(name) == r.contains(name));
    assert forall|i: int, j: int| 0 <= i < j < r.len() implies lex_less(
        text_rank(#[trigger] r[i]),
        text_rank(#[trigger] r[j]),
    ) by {
        assert(lex_less(String::rank(r[i]), String::rank(r[j])));
    }
}

} // verus!
