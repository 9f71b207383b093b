//! Names of profiles.
use crate::identity::{AuthIdentity, Identity};
use crate::text::{
    ascii_alphanumeric, before_char, chars_of, concat2, first_chars, front_of,
    is_ascii_alphanumeric, lemma_back_is, lemma_front_is, lemma_without_back, lemma_without_front,
    owned, same_text, starts_with_char, string_of, take_chars, without_back, without_front,
};
use vstd::prelude::*;
use vstd::string::*;
use vstd::utf8::{encode_utf8, is_ascii_chars, is_ascii_chars_encode_utf8};

verus! {

/// A character that a name may hold.
pub open spec fn name_char(c: char) -> bool {
    ascii_alphanumeric(c) || c == '.' || c == '_' || c == '-'
}

fn is_name_char(c: char) -> (r: bool)
    ensures
        r == name_char(c),
{
    is_ascii_alphanumeric(c) || c == '.' || c == '_' || c == '-'
}

/// The characters of `s` that a name may hold, with a dash for each plus sign and blank.
pub open spec fn name_chars(s: Seq<char>) -> Seq<char>
    decreases s.len(),
{
    if s.len() == 0 {
        Seq::empty()
    } else if name_char(s.last()) {
        name_chars(s.drop_last()).push(s.last())
    } else if s.last() == '+' || s.last() == ' ' {
        name_chars(s.drop_last()).push('-')
    } else {
        name_chars(s.drop_last())
    }
}

/// A dot or a dash.
pub open spec fn dot_or_dash(c: char) -> bool {
    c == '.' || c == '-'
}

/// What is left of `s` without dots and dashes at its ends.
pub open spec fn inner(s: Seq<char>) -> Seq<char> {
    without_back(without_front(s, |c: char| dot_or_dash(c)), |c: char| dot_or_dash(c))
}

/// The name that is made of `s`.
pub open spec fn stem(s: Seq<char>) -> Seq<char> {
    inner(name_chars(s))
}

/// The name that is made of `s`: the characters that a name may hold, with dashes for plus signs
/// and blanks, and without dots and dashes at the ends.
pub fn sanitize_stem(s: &str) -> (r: String)
    ensures
        r@ == stem(s@),
{
    let v = chars_of(s);
    let mut out: Vec<char> = Vec::new();
    for i in 0..v.len()
        invariant
            v@ == s@,
            out@ == name_chars(s@.take(i as int)),
    {
        assert(s@.take(i as int + 1).drop_last() =~= s@.take(i as int));
        let c = v[i];
        if is_name_char(c) {
            out.push(c);
        } else if c == '+' || c == ' ' {
            out.push('-');
        }
    }
    assert(s@.take(s@.len() as int) =~= s@);
    let ghost p = |c: char| dot_or_dash(c);
    let mut from: usize = 0;
    while from < out.len() && (out[from] == '.' || out[from] == '-')
        invariant
            from <= out.len(),
            forall|j: int| 0 <= j < from ==> dot_or_dash(#[trigger] out@[j]),
        decreases out.len() - from,
    {
        from = from + 1;
    }
    proof {
        lemma_front_is(out@, p, from as int);
    }
    let ghost rest = out@.skip(from as int);
    let mut to: usize = out.len();
    while to > from && (out[to - 1] == '.' || out[to - 1] == '-')
        invariant
            from <= to <= out.len(),
            forall|j: int| to <= j < out.len() ==> dot_or_dash(#[trigger] out@[j]),
        decreases to,
    {
        to = to - 1;
    }
    proof {
        assert forall|j: int| to - from <= j < rest.len() implies p(#[trigger] rest[j]) by {
            assert(dot_or_dash(out@[j + from]));
        }
        lemma_back_is(rest, p, to - from);
        assert(rest.take(to - from) =~= out@.subrange(from as int, to as int));
    }
    string_of(&out, from, to)
}

/// The letters and digits of `s`.
pub open spec fn letters_and_digits(s: Seq<char>) -> Seq<char>
    decreases s.len(),
{
    if s.len() == 0 {
        Seq::empty()
    } else if ascii_alphanumeric(s.last()) {
        letters_and_digits(s.drop_last()).push(s.last())
    } else {
        letters_and_digits(s.drop_last())
    }
}

fn short_user(s: &str) -> (r: String)
    ensures
        r@ == first_chars(letters_and_digits(s@), 8),
{
    let v = chars_of(s);
    let mut out: Vec<char> = Vec::new();
    for i in 0..v.len()
        invariant
            v@ == s@,
            out@ == letters_and_digits(s@.take(i as int)),
    {
        assert(s@.take(i as int + 1).drop_last() =~= s@.take(i as int));
        if is_ascii_alphanumeric(v[i]) {
            out.push(v[i]);
        }
    }
    assert(s@.take(s@.len() as int) =~= s@);
    let all = string_of(&out, 0, out.len());
    assert(out@.subrange(0, out@.len() as int) =~= out@);
    take_chars(all.as_str(), 8)
}

/// The name that an address gives: that of what stands in front of the at sign.
pub open spec fn address_name(email: Seq<char>) -> Seq<char> {
    stem(front_of(email, '@'))
}

/// The name that a user gives: the first eight letters and digits.
pub open spec fn user_name(user_id: Seq<char>) -> Seq<char> {
    first_chars(letters_and_digits(user_id), 8)
}

/// The name of a profile that has been given none: by the address, else by the user.
pub open spec fn default_name(id: Identity) -> Seq<char> {
    if id.email is Some && address_name(id.email->0).len() > 0 {
        address_name(id.email->0)
    } else if id.user_id is Some && user_name(id.user_id->0).len() > 0 {
        "user-"@ + user_name(id.user_id->0)
    } else {
        "default"@
    }
}

/// The name of a profile that has been given none: by the address, else by the user.
pub fn default_profile_name(id: &AuthIdentity) -> (r: String)
    ensures
        r@ == default_name(id@),
{
    if let Some(email) = &id.email {
        let local = before_char(email.as_str(), '@');
        let s = sanitize_stem(local.as_str());
        if !s.as_str().is_empty() {
            return s;
        }
    }
    if let Some(uid) = &id.user_id {
        let s = short_user(uid.as_str());
        if !s.as_str().is_empty() {
            return concat2("user-", s.as_str());
        }
    }
    owned("default")
}

/// An identity of which only the address is known.
pub open spec fn address_only(email: Seq<char>) -> Identity {
    Identity {
        email: Some(email),
        user_id: None,
        first_name: None,
        last_name: None,
        expires_at: None,
        auth_mode: None,
    }
}

/// The name of a profile of which only the address is known.
pub fn default_profile_name_from_email(email: &str) -> (r: String)
    ensures
        r@ == default_name(address_only(email@)),
{
    default_profile_name(
        &AuthIdentity {
            email: Some(owned(email)),
            user_id: None,
            first_name: None,
            last_name: None,
            expires_at: None,
            auth_mode: None,
        },
    )
}

/// Why a text is no name.
#[derive(Debug, Clone, Copy, PartialEq, Eq)]
pub enum NameError {
    /// It is empty, or longer than 64 bytes.
    Length,
    /// It means something else.
    Reserved,
    /// It starts with a dot.
    Hidden,
    /// It holds a character that a name may not hold.
    Character,
}

/// Why `name` is no name; nothing where it is one.
pub open spec fn name_error(name: Seq<char>) -> Option<NameError> {
    if name.len() == 0 || encode_utf8(name).len() > 64 {
        Some(NameError::Length)
    } else if name == "."@ || name == ".."@ || name == "current"@ {
        Some(NameError::Reserved)
    } else if name[0] == '.' {
        Some(NameError::Hidden)
    } else if !(forall|i: int| 0 <= i < name.len() ==> name_char(#[trigger] name[i])) {
        Some(NameError::Character)
    } else {
        None
    }
}

/// Whether `name` can be the name of a profile.
pub fn validate_profile_name(name: &str) -> (r: Result<(), NameError>)
    ensures
        r is Ok <==> name_error(name@) is None,
        r matches Err(e) ==> name_error(name@) == Some(e),
{
    if name.is_empty() || name.as_bytes().len() > 64 {
        return Err(NameError::Length);
    }
    if same_text(name, ".") || same_text(name, "..") || same_text(name, "current") {
        return Err(NameError::Reserved);
    }
    if starts_with_char(name, '.') {
        return Err(NameError::Hidden);
    }
    let v = chars_of(name);
    for i in 0..v.len()
        invariant
            v@ == name@,
            forall|j: int| 0 <= j < i ==> name_char(#[trigger] v@[j]),
            name@.len() > 0,
            encode_utf8(name@).len() <= 64,
            name@ != "."@,
            name@ != ".."@,
            name@ != "current"@,
            name@[0] != '.',
    {
        if !is_name_char(v[i]) {
            assert(!name_char(name@[i as int]));
            return Err(NameError::Character);
        }
    }
    Ok(())
}

/// What is said of a text that is no name.
pub open spec fn name_message(e: NameError, name: Seq<char>) -> Seq<char> {
    match e {
        NameError::Length => "profile name must be 1–64 characters"@,
        NameError::Reserved => "invalid profile name: "@ + name,
        NameError::Hidden => "profile name must not start with '.'"@,
        NameError::Character => "profile name may only contain A-Z a-z 0-9 . _ -"@,
    }
}

impl NameError {
    /// What is said of the text `name`.
    pub fn message(&self, name: &str) -> (r: String)
        ensures
            r@ == name_message(*self, name@),
    {
        match self {
            NameError::Length => owned("profile name must be 1–64 characters"),
            NameError::Reserved => concat2("invalid profile name: ", name),
            NameError::Hidden => owned("profile name must not start with '.'"),
            NameError::Character => owned("profile name may only contain A-Z a-z 0-9 . _ -"),
        }
    }
}

/// The name of a profile is one component of a path: it holds no separator, and is neither the
/// directory itself nor the one above.
pub proof fn law_name_is_one_component(name: Seq<char>)
    requires
        name_error(name) is None,
    ensures
        forall|i: int| 0 <= i < name.len() ==> #[trigger] name[i] != '/' && name[i] != '\\',
        name.len() > 0,
        name != "."@,
        name != ".."@,
        name != "current"@,
{
    assert forall|i: int| 0 <= i < name.len() implies #[trigger] name[i] != '/' && name[i]
        != '\\' by {
        assert(name_char(name[i]));
    }
}

proof fn lemma_name_chars(s: Seq<char>)
    ensures
        forall|i: int| 0 <= i < name_chars(s).len() ==> name_char(#[trigger] name_chars(s)[i]),
    decreases s.len(),
{
    if s.len() > 0 {
        lemma_name_chars(s.drop_last());
        let a = name_chars(s.drop_last());
        let all = name_chars(s);
        assert forall|i: int| 0 <= i < all.len() implies name_char(#[trigger] all[i]) by {
            if i < a.len() {
                assert(all[i] == a[i]);
            }
        }
    }
}

proof fn lemma_name_chars_same(s: Seq<char>)
    requires
        forall|i: int| 0 <= i < s.len() ==> name_char(#[trigger] s[i]),
    ensures
        name_chars(s) == s,
    decreases s.len(),
{
    if s.len() > 0 {
        let a = s.drop_last();
        assert forall|i: int| 0 <= i < a.len() implies name_char(#[trigger] a[i]) by {
            assert(name_char(s[i]));
        }
        lemma_name_chars_same(a);
        assert(name_char(s[s.len() - 1]));
        assert(a.push(s.last()) =~= s);
    } else {
        assert(s =~= Seq::<char>::empty());
    }
}

proof fn lemma_inner(s: Seq<char>)
    ensures
        exists|k: int|
            0 <= k && k + inner(s).len() <= s.len() && inner(s) == #[trigger] s.subrange(
                k,
                k + inner(s).len(),
            ),
        inner(s).len() > 0 ==> !dot_or_dash(inner(s)[0]) && !dot_or_dash(inner(s).last()),
        inner(inner(s)) == inner(s),
{
    let p = |c: char| dot_or_dash(c);
    let f = without_front(s, p);
    let r = inner(s);
    lemma_without_front(s, p);
    lemma_without_back(f, p);
    let k = s.len() - f.len();
    assert(r =~= s.subrange(k, k + r.len()));
    if r.len() > 0 {
        assert(r[0] == f[0]);
        lemma_front_is(r, p, 0);
        assert(r.skip(0) =~= r);
        lemma_back_is(r, p, r.len() as int);
        assert(r.take(r.len() as int) =~= r);
    } else {
        assert(without_front(r, p) =~= r);
    }
}

/// A name that has been made is made of itself: the rules are applied once.
pub proof fn law_stem_is_stable(s: Seq<char>)
    ensures
        stem(stem(s)) == stem(s),
        forall|i: int| 0 <= i < stem(s).len() ==> name_char(#[trigger] stem(s)[i]),
        stem(s).len() > 0 ==> stem(s)[0] != '.',
{
    let n = name_chars(s);
    lemma_name_chars(s);
    lemma_inner(n);
    let r = stem(s);
    let k = choose|k: int|
        0 <= k && k + r.len() <= n.len() && r == #[trigger] n.subrange(k, k + r.len());
    assert forall|i: int| 0 <= i < r.len() implies name_char(#[trigger] r[i]) by {
        assert(r[i] == n[k + i]);
    }
    lemma_name_chars_same(r);
}

proof fn lemma_letters(s: Seq<char>)
    ensures
        forall|i: int|
            0 <= i < letters_and_digits(s).len() ==> ascii_alphanumeric(
                #[trigger] letters_and_digits(s)[i],
            ),
    decreases s.len(),
{
    if s.len() > 0 {
        lemma_letters(s.drop_last());
        let a = letters_and_digits(s.drop_last());
        let all = letters_and_digits(s);
        assert forall|i: int| 0 <= i < all.len() implies ascii_alphanumeric(
            #[trigger] all[i],
        ) by {
            if i < a.len() {
                assert(all[i] == a[i]);
            }
        }
    }
}

/// A default name is made of characters that a name may hold, and does not start with a dot.
pub proof fn lemma_default_name(id: Identity)
    ensures
        default_name(id).len() > 0,
        forall|i: int|
            0 <= i < default_name(id).len() ==> name_char(#[trigger] default_name(id)[i]),
        default_name(id)[0] != '.',
{
    let d = default_name(id);
    reveal_strlit("user-");
    reveal_strlit("default");
    if id.email is Some {
        law_stem_is_stable(front_of(id.email->0, '@'));
    }
    if id.user_id is Some {
        lemma_letters(id.user_id->0);
    }
    assert forall|i: int| 0 <= i < d.len() implies name_char(#[trigger] d[i]) by {
        if id.email is Some && address_name(id.email->0).len() > 0 {
        } else if id.user_id is Some && user_name(id.user_id->0).len() > 0 {
            if i >= 5 {
                assert(d[i] == user_name(id.user_id->0)[i - 5]);
                assert(d[i] == letters_and_digits(id.user_id->0)[i - 5]);
            }
        }
    }
}

/// The name that a profile has been given by default is a name, unless it has more than 64
/// characters or is `current`.
pub proof fn law_default_name_is_valid(id: Identity)
    requires
        default_name(id).len() <= 64,
        default_name(id) != "current"@,
    ensures
        name_error(default_name(id)) is None,
{
    let d = default_name(id);
    lemma_default_name(id);
    reveal_strlit(".");
    reveal_strlit("..");
    assert(is_ascii_chars(d)) by {
        assert forall|i: int| 0 <= i < d.len() implies '\0' <= #[trigger] d[i] <= '\u{7f}' by {
            assert(name_char(d[i]));
        }
    }
    is_ascii_chars_encode_utf8(d);
    assert("."@[0] == '.');
    assert(".."@[0] == '.');
}

} // verus!
