//! What holds of the pieces of a text.
use crate::text::{
    ascii_alphanumeric, first_chars, front_of, has_part, head, joined, last_chars,
    lemma_without_back,
    lemma_without_front, lower, replaced, trimmed, upper, white_space, without_back, without_front,
};
use vstd::prelude::*;
use vstd::utf8::{
    encode_utf8, encode_utf8_decode_utf8, is_ascii_chars, is_ascii_chars_encode_utf8,
};

verus! {

/// Blanks, tabs and the ends of lines are white space; letters, digits and marks of ASCII are not.
pub proof fn law_white_space(c: char)
    ensures
        c == ' ' || c == '\t' || c == '\n' || c == '\r' ==> white_space(c),
        '!' <= c <= '~' ==> !white_space(c),
{
}

/// What is cut off in front satisfies `p`.
pub proof fn lemma_cut_front(s: Seq<char>, p: spec_fn(char) -> bool)
    ensures
        forall|i: int| 0 <= i < s.len() - without_front(s, p).len() ==> p(#[trigger] s[i]),
    decreases s.len(),
{
    lemma_without_front(s, p);
    if s.len() > 0 && p(s[0]) {
        lemma_cut_front(s.skip(1), p);
        assert forall|i: int| 0 <= i < s.len() - without_front(s, p).len() implies p(
            #[trigger] s[i],
        ) by {
            if i > 0 {
                assert(s.skip(1)[i - 1] == s[i]);
            }
        }
    }
}

/// What is cut off at the back satisfies `p`.
pub proof fn lemma_cut_back(s: Seq<char>, p: spec_fn(char) -> bool)
    ensures
        forall|i: int| without_back(s, p).len() <= i < s.len() ==> p(#[trigger] s[i]),
    decreases s.len(),
{
    lemma_without_back(s, p);
    if s.len() > 0 && p(s.last()) {
        lemma_cut_back(s.drop_last(), p);
        assert forall|i: int| without_back(s, p).len() <= i < s.len() implies p(
            #[trigger] s[i],
        ) by {
            if i < s.len() - 1 {
                assert(s.drop_last()[i] == s[i]);
            }
        }
    }
}

/// What is cut off at the ends of a text is white space, and what is left neither starts nor ends
/// with it.
pub proof fn law_trimmed(s: Seq<char>)
    ensures
        exists|i: int|
            0 <= i && i + trimmed(s).len() <= s.len() && trimmed(s) == #[trigger] s.subrange(
                i,
                i + trimmed(s).len(),
            ) && (forall|j: int|
                0 <= j < s.len() && !(i <= j < i + trimmed(s).len()) ==> white_space(
                    #[trigger] s[j],
                )),
        trimmed(s).len() > 0 ==> !white_space(trimmed(s)[0]) && !white_space(trimmed(s).last()),
{
    let p = |c: char| white_space(c);
    let f = without_front(s, p);
    let t = without_back(f, p);
    lemma_without_front(s, p);
    lemma_without_back(f, p);
    lemma_cut_front(s, p);
    lemma_cut_back(f, p);
    let i = s.len() - f.len();
    assert(trimmed(s) == t);
    assert(trimmed(s) =~= s.subrange(i, i + trimmed(s).len()));
    assert forall|j: int| 0 <= j < s.len() && !(i <= j < i + t.len()) implies white_space(
        #[trigger] s[j],
    ) by {
        if j < i {
            assert(p(s[j]));
        } else {
            assert(f[j - i] == s[j]);
            assert(p(f[j - i]));
        }
    }
    if t.len() > 0 {
        assert(t[0] == f[0]);
        assert(!p(f[0]));
        assert(!p(t.last()));
    }
}

/// What stands in front of the first `c` holds no `c`, and is followed by one where the text holds
/// one at all.
pub proof fn law_front_of(s: Seq<char>, c: char)
    ensures
        front_of(s, c).len() <= s.len(),
        front_of(s, c) == s.take(front_of(s, c).len() as int),
        !front_of(s, c).contains(c),
        front_of(s, c).len() < s.len() ==> s[front_of(s, c).len() as int] == c,
        !s.contains(c) ==> front_of(s, c) == s,
    decreases s.len(),
{
    if s.len() == 0 || s[0] == c {
        assert(s.take(0) =~= Seq::<char>::empty());
    } else {
        let rest = s.skip(1);
        law_front_of(rest, c);
        let f = front_of(s, c);
        assert(f =~= s.take(f.len() as int));
        assert(!f.contains(c)) by {
            if f.contains(c) {
                let i = choose|i: int| 0 <= i < f.len() && f[i] == c;
                assert(front_of(rest, c)[i - 1] == c);
            }
        }
        if f.len() < s.len() {
            assert(rest[front_of(rest, c).len() as int] == s[f.len() as int]);
        }
        if !s.contains(c) {
            assert(!rest.contains(c)) by {
                if rest.contains(c) {
                    let i = choose|i: int| 0 <= i < rest.len() && rest[i] == c;
                    assert(s[i + 1] == c);
                }
            }
            assert(seq![s[0]] + rest =~= s);
        }
    }
}

/// The first and the last characters of a text are a prefix and a suffix of it, with as many
/// characters as asked for, or all where there are fewer.
pub proof fn law_first_and_last(s: Seq<char>, n: nat)
    ensures
        first_chars(s, n).len() == (if s.len() < n {
            s.len()
        } else {
            n
        }),
        last_chars(s, n).len() == first_chars(s, n).len(),
        forall|i: int| 0 <= i < first_chars(s, n).len() ==> #[trigger] first_chars(s, n)[i] == s[i],
        forall|i: int|
            0 <= i < last_chars(s, n).len() ==> #[trigger] last_chars(s, n)[i] == s[s.len()
                - last_chars(s, n).len() + i],
{
}

/// Only the character that is to be replaced changes.
pub proof fn law_replaced(s: Seq<char>, from: char, to: char)
    ensures
        replaced(s, from, to).len() == s.len(),
        forall|i: int|
            0 <= i < s.len() && s[i] == from ==> #[trigger] replaced(s, from, to)[i] == to,
        forall|i: int|
            0 <= i < s.len() && s[i] != from ==> #[trigger] replaced(s, from, to)[i] == s[i],
{
}

/// Lower case and upper case change letters of ASCII alone, and change each into the one of the
/// other case: the letters stand at the same distance in both cases.
pub proof fn law_cases(s: Seq<char>, i: int)
    requires
        0 <= i < s.len(),
    ensures
        lower(s).len() == s.len(),
        upper(s).len() == s.len(),
        'A' <= s[i] <= 'Z'
            ==> 'a' <= lower(s)[i] <= 'z' && lower(s)[i] as int - 'a' as int == s[i] as int
            - 'A' as int && upper(s)[i] == s[i],
        'a' <= s[i] <= 'z'
            ==> 'A' <= upper(s)[i] <= 'Z' && upper(s)[i] as int - 'A' as int == s[i] as int
            - 'a' as int && lower(s)[i] == s[i],
        !ascii_alphanumeric(s[i]) || '0' <= s[i] <= '9' ==> lower(s)[i] == s[i] && upper(s)[i]
            == s[i],
{
}

/// Texts are joined in their order: one more comes behind the others and a separator.
pub proof fn law_joined(parts: Seq<Seq<char>>, last: Seq<char>, sep: Seq<char>)
    ensures
        joined(Seq::empty(), sep).len() == 0,
        joined(seq![last], sep) == last,
        parts.len() > 0 ==> joined(parts.push(last), sep) == joined(parts, sep) + sep + last,
{
    assert(parts.push(last).drop_last() =~= parts);
}

/// A text has a part if and only if it is that part with something in front and behind.
pub proof fn law_parts(s: Seq<char>, a: Seq<char>, part: Seq<char>, b: Seq<char>)
    ensures
        has_part(a + part + b, part),
        has_part(s, part) ==> part.len() <= s.len(),
        has_part(s, part) ==> exists|x: Seq<char>, y: Seq<char>| s == #[trigger] (x + part + y),
{
    let all = a + part + b;
    assert(all.subrange(a.len() as int, a.len() as int + part.len()) =~= part);
    if has_part(s, part) {
        let i = choose|i: int|
            0 <= i && i + part.len() <= s.len() && #[trigger] s.subrange(i, i + part.len()) == part;
        assert(s =~= s.take(i) + part + s.skip(i + part.len()));
    }
}

/// A text of ASCII is cut to as many characters as bytes are asked for.
pub proof fn law_head(s: Seq<char>, n: nat)
    requires
        is_ascii_chars(s),
    ensures
        s.len() <= n ==> head(s, n) == s,
        s.len() > n ==> head(s, n) == s.take(n as int),
{
    is_ascii_chars_encode_utf8(s);
    if s.len() > n {
        let t = s.take(n as int);
        assert(is_ascii_chars(t));
        is_ascii_chars_encode_utf8(t);
        assert(encode_utf8(s).take(n as int) =~= encode_utf8(t));
        encode_utf8_decode_utf8(t);
    }
}

} // verus!
