//! What holds of the identity in a login, and of the names of profiles.
use crate::identity::{first_login, full_name, identity_of, user_of, Identity};
use crate::json::{opt_str, text_or, JsonTree};
use crate::names::{
    address_name, default_name, dot_or_dash, inner, letters_and_digits, name_char, name_chars,
    name_error, stem, user_name, NameError,
};
use crate::text::{
    first_chars, front_of, lemma_back_is, lemma_front_is, lemma_trimmed_is, lemma_without_back,
    lemma_without_front, trimmed, white_space, without_back, without_front,
};
use crate::text_laws::{law_trimmed, lemma_cut_back, lemma_cut_front};
use vstd::prelude::*;
use vstd::utf8::{encode_utf8, is_ascii_chars, is_ascii_chars_encode_utf8};

verus! {

/// A string counts without the white space at its ends, and not at all where nothing is left.
pub proof fn law_strings(t: JsonTree, key: Seq<char>, s: Seq<char>)
    ensures
        t.field(key) == Some(JsonTree::Text(s)) && trimmed(s).len() > 0 ==> opt_str(t, key) == Some(
            trimmed(s),
        ),
        t.field(key) == Some(JsonTree::Text(s)) && trimmed(s).len() == 0
            ==> opt_str(t, key) is None,
        t.field(key) is None ==> opt_str(t, key) is None,
        t.field(key) matches Some(v) ==> (!(v is Text) ==> opt_str(t, key) is None),
{
}

/// The value has an address, a user or a key.
pub open spec fn names_login(t: JsonTree) -> bool {
    t.field("email"@) is Some || t.field("user_id"@) is Some || t.field("key"@) is Some
}

/// An identity is read from the first entry that has an address, a user or a key: each part of it
/// from the string of that name, and the user from the principal where there is no user.
pub proof fn law_identity_of_a_login(e: Seq<(Seq<char>, JsonTree)>, k: int)
    ensures
        0 <= k < e.len() && names_login(e[k].1) && (forall|j: int|
            0 <= j < k ==> !names_login((#[trigger] e[j]).1)) ==> ({
            let t = e[k].1;
            &&& identity_of(JsonTree::Object(e)) matches Some(id) && {
                &&& id.email == opt_str(t, "email"@)
                &&& opt_str(t, "user_id"@) is Some ==> id.user_id == opt_str(t, "user_id"@)
                &&& opt_str(t, "user_id"@) is None ==> id.user_id == opt_str(t, "principal_id"@)
                &&& id.first_name == opt_str(t, "first_name"@)
                &&& id.last_name == opt_str(t, "last_name"@)
                &&& id.expires_at == opt_str(t, "expires_at"@)
                &&& id.auth_mode == opt_str(t, "auth_mode"@)
                &&& user_of(JsonTree::Object(e)) == id.user_id
            }
        }),
        (forall|j: int| 0 <= j < e.len() ==> !names_login((#[trigger] e[j]).1)) ==> identity_of(
            JsonTree::Object(e),
        ) is None && user_of(JsonTree::Object(e)) is None,
    decreases e.len(),
{
    if e.len() > 0 {
        let rest = e.skip(1);
        law_identity_of_a_login(rest, k - 1);
        assert(first_login(e) == identity_of(JsonTree::Object(e)));
        if !names_login(e[0].1) {
            assert(identity_of(JsonTree::Object(e)) == identity_of(JsonTree::Object(rest)));
            if 0 < k < e.len() && (forall|j: int|
                0 <= j < k ==> !names_login((#[trigger] e[j]).1)) {
                assert(rest[k - 1] == e[k]);
                assert forall|j: int| 0 <= j < k - 1 implies !names_login(
                    (#[trigger] rest[j]).1,
                ) by {
                    assert(rest[j] == e[j + 1]);
                }
            }
            if forall|j: int| 0 <= j < e.len() ==> !names_login((#[trigger] e[j]).1) {
                assert forall|j: int| 0 <= j < rest.len() implies !names_login(
                    (#[trigger] rest[j]).1,
                ) by {
                    assert(rest[j] == e[j + 1]);
                }
            }
        }
    }
}

/// What is no object holds no identity.
pub proof fn law_no_identity(t: JsonTree)
    requires
        !(t is Object),
    ensures
        identity_of(t) is None,
        user_of(t) is None,
{
}

/// A full name is the first and the last name with a blank between them, or the one that is there.
pub proof fn law_full_name(id: Identity, a: Seq<char>, b: Seq<char>)
    requires
        a.len() > 0,
        b.len() > 0,
        trimmed(a) == a,
        trimmed(b) == b,
    ensures
        id.first_name == Some(a) && id.last_name == Some(b) ==> full_name(id) == Some(
            a + seq![' '] + b,
        ),
        id.first_name == Some(a) && id.last_name is None ==> full_name(id) == Some(a),
        id.first_name is None && id.last_name == Some(b) ==> full_name(id) == Some(b),
        id.first_name is None && id.last_name is None ==> full_name(id) is None,
{
    reveal_strlit("");
    assert(""@ =~= Seq::<char>::empty());
    lemma_trimmed_is(Seq::empty());
    lemma_blank_between(a, b);
    lemma_blank_behind(a);
    lemma_blank_in_front(b);
    lemma_blank_alone();
    assert(text_or(None, ""@) == ""@);
}

proof fn lemma_ends(a: Seq<char>)
    requires
        a.len() > 0,
        trimmed(a) == a,
    ensures
        !white_space(a[0]),
        !white_space(a.last()),
{
    law_trimmed(a);
}

proof fn lemma_blank_between(a: Seq<char>, b: Seq<char>)
    requires
        a.len() > 0,
        b.len() > 0,
        trimmed(a) == a,
        trimmed(b) == b,
    ensures
        trimmed(a + " "@ + b) == a + seq![' '] + b,
{
    reveal_strlit(" ");
    assert(" "@ =~= seq![' ']);
    lemma_ends(a);
    lemma_ends(b);
    let both = a + seq![' '] + b;
    assert(both[0] == a[0]);
    assert(both.last() == b.last());
    assert(a + " "@ + b == both);
    lemma_trimmed_is(both);
}

proof fn lemma_blank_behind(a: Seq<char>)
    requires
        a.len() > 0,
        trimmed(a) == a,
    ensures
        trimmed(a + " "@ + Seq::<char>::empty()) == a,
{
    reveal_strlit(" ");
    lemma_ends(a);
    let p = |c: char| white_space(c);
    let front = a + " "@ + Seq::<char>::empty();
    assert(front =~= a + seq![' ']);
    lemma_front_is(front, p, 0);
    assert(front.skip(0) =~= front);
    lemma_back_is(front, p, a.len() as int);
    assert(front.take(a.len() as int) =~= a);
}

proof fn lemma_blank_in_front(b: Seq<char>)
    requires
        b.len() > 0,
        trimmed(b) == b,
    ensures
        trimmed(Seq::<char>::empty() + " "@ + b) == b,
{
    reveal_strlit(" ");
    lemma_ends(b);
    let p = |c: char| white_space(c);
    let back = Seq::<char>::empty() + " "@ + b;
    assert(back =~= seq![' '] + b);
    lemma_front_is(back, p, 1);
    assert(back.skip(1) =~= b);
    lemma_back_is(b, p, b.len() as int);
    assert(b.take(b.len() as int) =~= b);
}

proof fn lemma_blank_alone()
    ensures
        trimmed(Seq::<char>::empty() + " "@ + Seq::<char>::empty()).len() == 0,
{
    reveal_strlit(" ");
    let p = |c: char| white_space(c);
    let none = Seq::<char>::empty() + " "@ + Seq::<char>::empty();
    assert(none =~= seq![' ']);
    lemma_front_is(none, p, 1);
    assert(none.skip(1) =~= Seq::<char>::empty());
}

/// The character may stand in the name of a profile.
pub open spec fn allowed(c: char) -> bool {
    '0' <= c <= '9' || 'A' <= c <= 'Z' || 'a' <= c <= 'z' || c == '.' || c == '_' || c == '-'
}

proof fn lemma_allowed_are_bytes(name: Seq<char>)
    requires
        forall|i: int| 0 <= i < name.len() ==> allowed(#[trigger] name[i]),
    ensures
        encode_utf8(name).len() == name.len(),
{
    assert(is_ascii_chars(name)) by {
        assert forall|i: int| 0 <= i < name.len() implies '\0' <= #[trigger] name[i]
            <= '\u{7f}' by {
            assert(allowed(name[i]));
        }
    }
    is_ascii_chars_encode_utf8(name);
}

/// A name is accepted if and only if it has one to 64 characters, each a letter, a digit, a dot, an
/// underscore or a dash, starts with no dot, and is not `current`.
pub proof fn law_accepted_names(name: Seq<char>)
    ensures
        name_error(name) is None <==> {
            &&& 1 <= name.len() <= 64
            &&& forall|i: int| 0 <= i < name.len() ==> allowed(#[trigger] name[i])
            &&& name[0] != '.'
            &&& name != "current"@
        },
        name.len() == 0 ==> name_error(name) == Some(NameError::Length),
        name == "current"@ ==> name_error(name) == Some(NameError::Reserved),
{
    reveal_strlit(".");
    reveal_strlit("..");
    reveal_strlit("current");
    assert("."@[0] == '.');
    assert(".."@[0] == '.');
    let ok = forall|i: int| 0 <= i < name.len() ==> allowed(#[trigger] name[i]);
    if ok {
        lemma_allowed_are_bytes(name);
        assert forall|i: int| 0 <= i < name.len() implies name_char(#[trigger] name[i]) by {
            assert(allowed(name[i]));
        }
    }
    if name_error(name) is None {
        assert forall|i: int| 0 <= i < name.len() implies allowed(#[trigger] name[i]) by {
            assert(name_char(name[i]));
        }
    }
    if name == "current"@ {
        assert(name.len() == 7);
        assert forall|i: int| 0 <= i < name.len() implies allowed(#[trigger] name[i]) by {}
        lemma_allowed_are_bytes(name);
    }
}

/// Of an address each character that a name may have stays, a plus or a blank becomes a dash, and
/// any other is left out.
pub proof fn law_characters_of_a_name(a: Seq<char>, b: Seq<char>, c: char)
    ensures
        name_chars(a + b) == name_chars(a) + name_chars(b),
        allowed(c) ==> name_chars(seq![c]) == seq![c],
        c == '+' || c == ' ' ==> name_chars(seq![c]) == seq!['-'],
        !allowed(c) && c != '+' && c != ' ' ==> name_chars(seq![c]).len() == 0,
    decreases b.len(),
{
    reveal_with_fuel(name_chars, 2);
    assert(seq![c].drop_last() =~= Seq::<char>::empty());
    assert(seq![c].last() == c);
    assert(Seq::<char>::empty().push(c) =~= seq![c]);
    assert(Seq::<char>::empty().push('-') =~= seq!['-']);
    if b.len() == 0 {
        assert(a + b =~= a);
        assert(name_chars(a) + name_chars(b) =~= name_chars(a));
    } else {
        assert((a + b).drop_last() =~= a + b.drop_last());
        law_characters_of_a_name(a, b.drop_last(), c);
        assert(name_chars(a + b) =~= name_chars(a) + name_chars(b));
    }
}

/// Of a user's name only letters and digits stay.
pub proof fn law_letters_and_digits(a: Seq<char>, b: Seq<char>, c: char)
    ensures
        letters_and_digits(a + b) == letters_and_digits(a) + letters_and_digits(b),
        '0' <= c <= '9' || 'A' <= c <= 'Z' || 'a' <= c <= 'z' ==> letters_and_digits(seq![c])
            == seq![c],
        !('0' <= c <= '9' || 'A' <= c <= 'Z' || 'a' <= c <= 'z') ==> letters_and_digits(
            seq![c],
        ).len() == 0,
    decreases b.len(),
{
    reveal_with_fuel(letters_and_digits, 2);
    assert(seq![c].drop_last() =~= Seq::<char>::empty());
    assert(seq![c].last() == c);
    assert(Seq::<char>::empty().push(c) =~= seq![c]);
    if b.len() == 0 {
        assert(a + b =~= a);
        assert(letters_and_digits(a) + letters_and_digits(b) =~= letters_and_digits(a));
    } else {
        assert((a + b).drop_last() =~= a + b.drop_last());
        law_letters_and_digits(a, b.drop_last(), c);
        assert(letters_and_digits(a + b) =~= letters_and_digits(a) + letters_and_digits(b));
    }
}

proof fn lemma_allowed_stay(s: Seq<char>)
    requires
        forall|i: int| 0 <= i < s.len() ==> allowed(#[trigger] s[i]),
    ensures
        name_chars(s) == s,
    decreases s.len(),
{
    if s.len() > 0 {
        let a = s.drop_last();
        assert forall|i: int| 0 <= i < a.len() implies allowed(#[trigger] a[i]) by {
            assert(a[i] == s[i]);
        }
        lemma_allowed_stay(a);
        assert(allowed(s[s.len() - 1]));
        assert(a.push(s.last()) =~= s);
    }
}

/// The name that an account gets on its own is what stands in its address before the `@`, where all
/// of that may stand in a name and no dot or dash stands at its ends.
pub proof fn law_named_by_address(id: Identity, local: Seq<char>, rest: Seq<char>)
    requires
        id.email == Some(local + rest),
        rest.len() > 0,
        rest[0] == '@',
        local.len() > 0,
        forall|i: int| 0 <= i < local.len() ==> allowed(#[trigger] local[i]),
        local[0] != '.' && local[0] != '-',
        local.last() != '.' && local.last() != '-',
    ensures
        default_name(id) == local,
{
    let email = local + rest;
    assert(front_of(email, '@') == local) by {
        lemma_front_is_local(local, rest);
    }
    lemma_allowed_stay(local);
    let p = |c: char| dot_or_dash(c);
    lemma_front_is(local, p, 0);
    assert(local.skip(0) =~= local);
    lemma_back_is(local, p, local.len() as int);
    assert(local.take(local.len() as int) =~= local);
    assert(inner(local) == local);
    assert(stem(local) == local);
    assert(address_name(email) == local);
}

proof fn lemma_front_is_local(local: Seq<char>, rest: Seq<char>)
    requires
        rest.len() > 0,
        rest[0] == '@',
        forall|i: int| 0 <= i < local.len() ==> #[trigger] local[i] != '@',
    ensures
        front_of(local + rest, '@') == local,
    decreases local.len(),
{
    let s = local + rest;
    if local.len() == 0 {
        assert(s[0] == '@');
        assert(local =~= Seq::<char>::empty());
    } else {
        let tail = local.skip(1);
        assert(s[0] == local[0]);
        assert(s.skip(1) =~= tail + rest);
        assert forall|i: int| 0 <= i < tail.len() implies #[trigger] tail[i] != '@' by {
            assert(tail[i] == local[i + 1]);
        }
        lemma_front_is_local(tail, rest);
        assert(seq![s[0]] + tail =~= local);
    }
}

/// Without an address an account is named by the first eight letters and digits of its user; with
/// neither it is named `default`.
pub proof fn law_named_by_user(id: Identity, user: Seq<char>)
    requires
        id.email is None,
    ensures
        id.user_id == Some(user) && letters_and_digits(user).len() > 0 ==> default_name(id)
            == "user-"@ + first_chars(letters_and_digits(user), 8),
        id.user_id == Some(user) && letters_and_digits(user).len() == 0 ==> default_name(id)
            == "default"@,
        id.user_id is None ==> default_name(id) == "default"@,
{
    assert(user_name(user).len() > 0 <==> letters_and_digits(user).len() > 0);
}

/// What is cut off at the ends of a name are dots and dashes, and what is left neither starts nor
/// ends with one.
pub proof fn law_ends_of_a_name(s: Seq<char>)
    ensures
        exists|i: int|
            0 <= i && i + inner(s).len() <= s.len() && inner(s) == #[trigger] s.subrange(
                i,
                i + inner(s).len(),
            ) && (forall|j: int|
                0 <= j < s.len() && !(i <= j < i + inner(s).len()) ==> #[trigger] s[j] == '.'
                    || s[j] == '-'),
        inner(s).len() > 0 ==> inner(s)[0] != '.' && inner(s)[0] != '-' && inner(s).last() != '.'
            && inner(s).last() != '-',
{
    let p = |c: char| dot_or_dash(c);
    let f = without_front(s, p);
    let t = without_back(f, p);
    lemma_without_front(s, p);
    lemma_without_back(f, p);
    lemma_cut_front(s, p);
    lemma_cut_back(f, p);
    let i = s.len() - f.len();
    assert(inner(s) == t);
    assert(inner(s) =~= s.subrange(i, i + inner(s).len()));
    assert forall|j: int| 0 <= j < s.len() && !(i <= j < i + t.len()) implies #[trigger] s[j] == '.'
        || s[j] == '-' by {
        if j < i {
            assert(p(s[j]));
        } else {
            assert(f[j - i] == s[j]);
            assert(p(f[j - i]));
        }
    }
    if t.len() > 0 {
        assert(t[0] == f[0]);
        assert(!p(f[0]));
        assert(!p(t.last()));
    }
}

/// The name that an account gets on its own is made of what stands in its address before the `@`:
/// of the characters that stay, without dots and dashes at the ends, where anything is left.
pub proof fn law_named_by_what_stays(id: Identity, email: Seq<char>)
    requires
        id.email == Some(email),
        inner(name_chars(front_of(email, '@'))).len() > 0,
    ensures
        default_name(id) == inner(name_chars(front_of(email, '@'))),
{
}

} // verus!
