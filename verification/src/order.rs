//! Orders on keys, a set that keeps its keys in order, and a stable sort.
use vstd::prelude::*;
use vstd::string::*;
use vstd::utf8::*;

verus! {

/// `a` comes in front of `b` in the lexicographic order.
pub open spec fn lex_less(a: Seq<int>, b: Seq<int>) -> bool
    decreases a.len(),
{
    if b.len() == 0 {
        false
    } else if a.len() == 0 {
        true
    } else if a[0] != b[0] {
        a[0] < b[0]
    } else {
        lex_less(a.skip(1), b.skip(1))
    }
}

/// Nothing comes in front of itself.
pub proof fn lemma_lex_irreflexive(a: Seq<int>)
    ensures
        !lex_less(a, a),
    decreases a.len(),
{
    if a.len() > 0 {
        lemma_lex_irreflexive(a.skip(1));
    }
}

/// The lexicographic order is transitive.
pub proof fn lemma_lex_transitive(a: Seq<int>, b: Seq<int>, c: Seq<int>)
    requires
        lex_less(a, b),
        lex_less(b, c),
    ensures
        lex_less(a, c),
    decreases a.len(),
{
    if a.len() > 0 && a[0] == b[0] && b[0] == c[0] {
        lemma_lex_transitive(a.skip(1), b.skip(1), c.skip(1));
    }
}

/// Of two different sequences one comes in front of the other.
pub proof fn lemma_lex_total(a: Seq<int>, b: Seq<int>)
    ensures
        a == b || lex_less(a, b) || lex_less(b, a),
    decreases a.len(),
{
    if a.len() > 0 && b.len() > 0 && a[0] == b[0] {
        lemma_lex_total(a.skip(1), b.skip(1));
        if a.skip(1) == b.skip(1) {
            assert(a =~= seq![a[0]] + a.skip(1));
            assert(b =~= seq![b[0]] + b.skip(1));
        }
    } else if a.len() == 0 && b.len() == 0 {
        assert(a =~= b);
    }
}

/// Where two sequences agree up to `k`, what stands there decides.
pub proof fn lemma_lex_at(a: Seq<int>, b: Seq<int>, k: int)
    requires
        0 <= k <= a.len(),
        k <= b.len(),
        forall|j: int| 0 <= j < k ==> a[j] == b[j],
    ensures
        k < b.len() && (k == a.len() || a[k] < b[k]) ==> lex_less(a, b),
    decreases k,
{
    if k > 0 {
        assert forall|j: int| 0 <= j < k - 1 implies a.skip(1)[j] == b.skip(1)[j] by {
            assert(a[j + 1] == b[j + 1]);
        }
        lemma_lex_at(a.skip(1), b.skip(1), k - 1);
    }
}

/// How two keys stand to each other.
pub enum Place {
    Before,
    Same,
    Behind,
}

/// A value with a place in a total order.
pub trait SortKey: View {
    /// The sequence by which the key is ordered.
    spec fn rank(key: Self::V) -> Seq<int>;

    /// Keys of one rank are one key.
    proof fn lemma_rank(a: Self::V, b: Self::V)
        requires
            Self::rank(a) == Self::rank(b),
        ensures
            a == b,
    ;

    /// How the key stands to `other`.
    fn place(&self, other: &Self) -> (r: Place)
        ensures
            match r {
                Place::Before => lex_less(Self::rank(self@), Self::rank(other@)),
                Place::Same => self@ == other@,
                Place::Behind => lex_less(Self::rank(other@), Self::rank(self@)),
            },
    ;
}

/// The bytes of a text.
pub open spec fn text_rank(s: Seq<char>) -> Seq<int> {
    encode_utf8(s).map_values(|b: u8| b as int)
}

proof fn lemma_text_rank(a: Seq<char>, b: Seq<char>)
    requires
        text_rank(a) == text_rank(b),
    ensures
        a == b,
{
    let x = encode_utf8(a);
    let y = encode_utf8(b);
    assert(x.len() == text_rank(a).len());
    assert(y.len() == text_rank(b).len());
    assert forall|i: int| 0 <= i < x.len() implies x[i] == y[i] by {
        assert(text_rank(a)[i] == x[i] as int);
        assert(text_rank(b)[i] == y[i] as int);
    }
    assert(x =~= y);
    encode_utf8_decode_utf8(a);
    encode_utf8_decode_utf8(b);
}

/// How the text `a` stands to `b`, byte by byte.
pub fn text_place(a: &str, b: &str) -> (r: Place)
    ensures
        match r {
            Place::Before => lex_less(text_rank(a@), text_rank(b@)),
            Place::Same => a@ == b@,
            Place::Behind => lex_less(text_rank(b@), text_rank(a@)),
        },
{
    let x = a.as_bytes();
    let y = b.as_bytes();
    let ghost p = text_rank(a@);
    let ghost q = text_rank(b@);
    let mut k: usize = 0;
    while k < x.len() && k < y.len() && x[k] == y[k]
        invariant
            k <= x@.len(),
            k <= y@.len(),
            x@ == encode_utf8(a@),
            y@ == encode_utf8(b@),
            p == text_rank(a@),
            q == text_rank(b@),
            forall|j: int| 0 <= j < k ==> p[j] == q[j],
        decreases x@.len() - k,
    {
        k = k + 1;
    }
    proof {
        lemma_lex_at(p, q, k as int);
        lemma_lex_at(q, p, k as int);
    }
    if k < x.len() && k < y.len() {
        if x[k] < y[k] {
            Place::Before
        } else {
            Place::Behind
        }
    } else if k < y.len() {
        Place::Before
    } else if k < x.len() {
        Place::Behind
    } else {
        proof {
            assert(p =~= q);
            lemma_text_rank(a@, b@);
        }
        Place::Same
    }
}

impl SortKey for String {
    open spec fn rank(key: Seq<char>) -> Seq<int> {
        text_rank(key)
    }

    proof fn lemma_rank(a: Seq<char>, b: Seq<char>) {
        lemma_text_rank(a, b);
    }

    fn place(&self, other: &Self) -> (r: Place) {
        text_place(self.as_str(), other.as_str())
    }
}

impl SortKey for u64 {
    open spec fn rank(key: u64) -> Seq<int> {
        seq![key as int]
    }

    proof fn lemma_rank(a: u64, b: u64) {
        assert(seq![a as int][0] == seq![b as int][0]);
    }

    fn place(&self, other: &Self) -> (r: Place) {
        if *self < *other {
            Place::Before
        } else if *self == *other {
            Place::Same
        } else {
            Place::Behind
        }
    }
}

impl SortKey for i128 {
    open spec fn rank(key: i128) -> Seq<int> {
        seq![key as int]
    }

    proof fn lemma_rank(a: i128, b: i128) {
        assert(seq![a as int][0] == seq![b as int][0]);
    }

    fn place(&self, other: &Self) -> (r: Place) {
        if *self < *other {
            Place::Before
        } else if *self == *other {
            Place::Same
        } else {
            Place::Behind
        }
    }
}

/// The keys of a list.
pub open spec fn keys_of<K: SortKey>(v: Seq<K>) -> Seq<K::V> {
    Seq::new(v.len(), |i: int| v[i]@)
}

/// Each key comes in front of those behind it.
pub open spec fn increasing<K: SortKey>(keys: Seq<K::V>) -> bool {
    forall|i: int, j: int|
        0 <= i < j < keys.len() ==> lex_less(
            #[trigger] K::rank(keys[i]),
            #[trigger] K::rank(keys[j]),
        )
}

/// A set of keys, held in order.
pub struct SortedSet<K> {
    pub items: Vec<K>,
}

impl<K: SortKey> SortedSet<K> {
    /// The keys in order.
    pub open spec fn keys(&self) -> Seq<K::V> {
        keys_of(self.items@)
    }

    /// The keys are in order, and none occurs twice.
    pub open spec fn wf(&self) -> bool {
        increasing::<K>(self.keys())
    }

    /// The empty set.
    pub fn new() -> (r: Self)
        ensures
            r.wf(),
            r.keys() == Seq::<K::V>::empty(),
    {
        let r = SortedSet { items: Vec::new() };
        assert(r.keys() =~= Seq::<K::V>::empty());
        r
    }

    /// The number of keys.
    pub fn len(&self) -> (r: usize)
        ensures
            r == self.keys().len(),
    {
        self.items.len()
    }

    /// Whether `key` is in the set, and where it is or belongs.
    fn find(&self, key: &K) -> (r: (bool, usize))
        requires
            self.wf(),
        ensures
            r.1 <= self.keys().len(),
            r.0 == self.keys().contains(key@),
            r.0 ==> r.1 < self.keys().len() && self.keys()[r.1 as int] == key@,
            forall|i: int|
                0 <= i < r.1 ==> lex_less(K::rank(#[trigger] self.keys()[i]), K::rank(key@)),
            !r.0 ==> forall|i: int|
                r.1 <= i < self.keys().len() ==> lex_less(
                    K::rank(key@),
                    K::rank(#[trigger] self.keys()[i]),
                ),
    {
        let mut lo: usize = 0;
        let mut hi: usize = self.items.len();
        while lo < hi
            invariant
                self.wf(),
                lo <= hi <= self.keys().len(),
                forall|i: int|
                    0 <= i < lo ==> lex_less(K::rank(#[trigger] self.keys()[i]), K::rank(key@)),
                forall|i: int|
                    hi <= i < self.keys().len() ==> lex_less(
                        K::rank(key@),
                        K::rank(#[trigger] self.keys()[i]),
                    ),
            decreases hi - lo,
        {
            let mid: usize = lo + (hi - lo) / 2;
            assert(self.items@[mid as int]@ == self.keys()[mid as int]);
            match self.items[mid].place(key) {
                Place::Before => {
                    proof {
                        assert forall|i: int| 0 <= i < mid + 1 implies lex_less(
                            K::rank(#[trigger] self.keys()[i]),
                            K::rank(key@),
                        ) by {
                            if i < mid {
                                lemma_lex_transitive(
                                    K::rank(self.keys()[i]),
                                    K::rank(self.keys()[mid as int]),
                                    K::rank(key@),
                                );
                            }
                        }
                    }
                    lo = mid + 1;
                },
                Place::Same => {
                    return (true, mid);
                },
                Place::Behind => {
                    proof {
                        assert forall|i: int| mid <= i < self.keys().len() implies lex_less(
                            K::rank(key@),
                            K::rank(#[trigger] self.keys()[i]),
                        ) by {
                            if i > mid {
                                lemma_lex_transitive(
                                    K::rank(key@),
                                    K::rank(self.keys()[mid as int]),
                                    K::rank(self.keys()[i]),
                                );
                            }
                        }
                    }
                    hi = mid;
                },
            }
        }
        proof {
            lemma_lex_irreflexive(K::rank(key@));
            assert(!self.keys().contains(key@));
        }
        (false, lo)
    }

    /// Whether `key` is in the set.
    pub fn contains(&self, key: &K) -> (r: bool)
        requires
            self.wf(),
        ensures
            r == self.keys().contains(key@),
    {
        self.find(key).0
    }

    /// Puts `key` into the set, and says whether it was not there.
    pub fn insert(&mut self, key: K) -> (r: bool)
        requires
            old(self).wf(),
        ensures
            final(self).wf(),
            r == !old(self).keys().contains(key@),
            !r ==> final(self).keys() == old(self).keys(),
            r ==> exists|at: int|
                0 <= at <= old(self).keys().len() && final(self).keys()
                    == #[trigger] old(self).keys().insert(at, key@),
            final(self).keys().to_set() == old(self).keys().to_set().insert(key@),
    {
        let (there, at) = self.find(&key);
        let ghost before = self.keys();
        let ghost k = key@;
        if there {
            proof {
                assert(before.to_set().insert(k) =~= before.to_set());
            }
            return false;
        }
        self.items.insert(at, key);
        proof {
            let now = self.keys();
            assert(now =~= before.insert(at as int, k));
            assert forall|i: int, j: int| 0 <= i < j < now.len() implies lex_less(
                #[trigger] K::rank(now[i]),
                #[trigger] K::rank(now[j]),
            ) by {
                let i0 = if i < at { i } else { i - 1 };
                let j0 = if j < at { j } else { j - 1 };
                if i == at {
                    assert(now[j] == before[j0]);
                } else if j == at {
                    assert(now[i] == before[i0]);
                } else {
                    assert(now[i] == before[i0] && now[j] == before[j0]);
                    assert(lex_less(K::rank(before[i0]), K::rank(before[j0])));
                }
            }
            assert forall|v: K::V| now.to_set().contains(v) == before.to_set().insert(k).contains(
                v,
            ) by {
                if before.contains(v) {
                    let i = choose|i: int| 0 <= i < before.len() && before[i] == v;
                    let i1 = if i < at { i } else { i + 1 };
                    assert(now[i1] == v);
                }
                if v == k {
                    assert(now[at as int] == v);
                }
                if now.contains(v) {
                    let i = choose|i: int| 0 <= i < now.len() && now[i] == v;
                    if i != at {
                        let i0 = if i < at { i } else { i - 1 };
                        assert(before[i0] == v);
                    }
                }
            }
            assert(now.to_set() =~= before.to_set().insert(k));
        }
        true
    }
}

/// Two lists of keys in order with the same keys are the same list.
pub proof fn lemma_increasing_unique<K: SortKey>(a: Seq<K::V>, b: Seq<K::V>)
    requires
        increasing::<K>(a),
        increasing::<K>(b),
        a.to_set() == b.to_set(),
    ensures
        a == b,
    decreases a.len(),
{
    if a.len() == 0 {
        if b.len() > 0 {
            assert(b.to_set().contains(b[0]));
            assert(a.contains(b[0]));
        }
        assert(a =~= b);
    } else {
        assert(a.to_set().contains(a.last()));
        assert(b.contains(a.last()));
        let j = choose|j: int| 0 <= j < b.len() && b[j] == a.last();
        assert(b.to_set().contains(b.last()));
        assert(a.contains(b.last()));
        let i = choose|i: int| 0 <= i < a.len() && a[i] == b.last();
        if j < b.len() - 1 {
            assert(lex_less(K::rank(b[j]), K::rank(b[b.len() - 1])));
            if i < a.len() - 1 {
                assert(lex_less(K::rank(a[i]), K::rank(a[a.len() - 1])));
                lemma_lex_transitive(
                    K::rank(a.last()),
                    K::rank(b.last()),
                    K::rank(a.last()),
                );
            }
            lemma_lex_irreflexive(K::rank(a.last()));
        }
        let x = a.drop_last();
        let y = b.drop_last();
        assert forall|i: int, j: int| 0 <= i < j < x.len() implies lex_less(
            #[trigger] K::rank(x[i]),
            #[trigger] K::rank(x[j]),
        ) by {
            assert(lex_less(K::rank(a[i]), K::rank(a[j])));
        }
        assert forall|i: int, j: int| 0 <= i < j < y.len() implies lex_less(
            #[trigger] K::rank(y[i]),
            #[trigger] K::rank(y[j]),
        ) by {
            assert(lex_less(K::rank(b[i]), K::rank(b[j])));
        }
        assert forall|v: K::V| x.to_set().contains(v) == y.to_set().contains(v) by {
            lemma_lex_irreflexive(K::rank(a.last()));
            if x.contains(v) {
                let m = choose|m: int| 0 <= m < x.len() && x[m] == v;
                assert(a[m] == v);
                assert(a.to_set().contains(v));
                assert(b.contains(v));
                let n = choose|n: int| 0 <= n < b.len() && b[n] == v;
                assert(lex_less(K::rank(a[m]), K::rank(a[a.len() - 1])));
                assert(n < b.len() - 1);
                assert(y[n] == v);
            }
            if y.contains(v) {
                let m = choose|m: int| 0 <= m < y.len() && y[m] == v;
                assert(b[m] == v);
                assert(b.to_set().contains(v));
                assert(a.contains(v));
                let n = choose|n: int| 0 <= n < a.len() && a[n] == v;
                assert(lex_less(K::rank(b[m]), K::rank(b[b.len() - 1])));
                assert(n < a.len() - 1);
                assert(x[n] == v);
            }
        }
        assert(x.to_set() =~= y.to_set());
        lemma_increasing_unique::<K>(x, y);
        assert(a =~= x.push(a.last()));
        assert(b =~= y.push(b.last()));
    }
}

/// The texts of a set in order, each once.
pub open spec fn ordered(set: Set<Seq<char>>) -> Seq<Seq<char>> {
    choose|r: Seq<Seq<char>>| #[trigger] increasing::<String>(r) && r.to_set() == set
}

/// A list in order is the one of its set.
pub proof fn lemma_ordered(r: Seq<Seq<char>>, set: Set<Seq<char>>)
    requires
        increasing::<String>(r),
        r.to_set() == set,
    ensures
        ordered(set) == r,
{
    lemma_increasing_unique::<String>(ordered(set), r);
}

/// One more text can be put in its place.
pub proof fn lemma_insert_text(r: Seq<Seq<char>>, x: Seq<char>) -> (out: Seq<Seq<char>>)
    requires
        increasing::<String>(r),
    ensures
        increasing::<String>(out),
        out.to_set() == r.to_set().insert(x),
    decreases r.len(),
{
    if r.len() == 0 {
        let out = Seq::empty().push(x);
        lemma_push_set(r, x);
        assert(r =~= Seq::empty());
        out
    } else {
        let a = r.drop_last();
        let z = r.last();
        assert(r =~= a.push(z));
        assert(r[r.len() - 1] == z);
        lemma_lex_total(text_rank(z), text_rank(x));
        if text_rank(z) == text_rank(x) {
            lemma_text_rank(z, x);
            assert(r.contains(x));
            assert(r.to_set() =~= r.to_set().insert(x));
            r
        } else if lex_less(text_rank(z), text_rank(x)) {
            let out = r.push(x);
            lemma_push_set(r, x);
            assert forall|i: int, j: int| 0 <= i < j < out.len() implies lex_less(
                #[trigger] String::rank(out[i]),
                #[trigger] String::rank(out[j]),
            ) by {
                if j == r.len() && i < r.len() - 1 {
                    assert(lex_less(String::rank(r[i]), String::rank(r[r.len() - 1])));
                    lemma_lex_transitive(text_rank(r[i]), text_rank(z), text_rank(x));
                } else if j < r.len() {
                    assert(lex_less(String::rank(r[i]), String::rank(r[j])));
                }
            }
            out
        } else {
            assert forall|i: int, j: int| 0 <= i < j < a.len() implies lex_less(
                #[trigger] String::rank(a[i]),
                #[trigger] String::rank(a[j]),
            ) by {
                assert(lex_less(String::rank(r[i]), String::rank(r[j])));
            }
            let o = lemma_insert_text(a, x);
            let out = o.push(z);
            lemma_push_set(o, z);
            lemma_push_set(a, z);
            assert(out.to_set() =~= r.to_set().insert(x));
            assert forall|i: int, j: int| 0 <= i < j < out.len() implies lex_less(
                #[trigger] String::rank(out[i]),
                #[trigger] String::rank(out[j]),
            ) by {
                if j == o.len() {
                    let v = o[i];
                    assert(o.to_set().contains(v));
                    if v != x {
                        assert(a.to_set().contains(v));
                        let k = choose|k: int| 0 <= k < a.len() && a[k] == v;
                        assert(lex_less(String::rank(r[k]), String::rank(r[r.len() - 1])));
                    }
                } else {
                    assert(lex_less(String::rank(o[i]), String::rank(o[j])));
                }
            }
            out
        }
    }
}

proof fn lemma_in_order(v: Seq<Seq<char>>) -> (r: Seq<Seq<char>>)
    ensures
        increasing::<String>(r),
        r.to_set() == v.to_set(),
    decreases v.len(),
{
    if v.len() == 0 {
        v
    } else {
        let a = lemma_in_order(v.drop_last());
        lemma_push_set(v.drop_last(), v.last());
        assert(v.drop_last().push(v.last()) =~= v);
        lemma_insert_text(a, v.last())
    }
}

/// The texts of a list and one more, in order, hold just those.
pub proof fn lemma_ordered_with(v: Seq<Seq<char>>, x: Seq<char>)
    ensures
        forall|n: Seq<char>| #[trigger]
            ordered(v.to_set().insert(x)).contains(n) == (v.contains(n) || n == x),
{
    let r = lemma_in_order(v.push(x));
    lemma_push_set(v, x);
    lemma_ordered(r, v.to_set().insert(x));
    assert forall|n: Seq<char>| #[trigger] ordered(v.to_set().insert(x)).contains(n) == (
    v.contains(n) || n == x) by {
        assert(r.to_set().contains(n) == r.contains(n));
    }
}

proof fn lemma_push_set(r: Seq<Seq<char>>, x: Seq<char>)
    ensures
        r.push(x).to_set() == r.to_set().insert(x),
{
    let out = r.push(x);
    assert forall|v: Seq<char>| out.to_set().contains(v) == r.to_set().insert(x).contains(v) by {
        if r.contains(v) {
            let k = choose|k: int| 0 <= k < r.len() && r[k] == v;
            assert(out[k] == v);
        }
        if v == x {
            assert(out[r.len() as int] == v);
        }
        if out.contains(v) && v != x {
            let k = choose|k: int| 0 <= k < out.len() && out[k] == v;
            assert(r[k] == v);
        }
    }
    assert(out.to_set() =~= r.to_set().insert(x));
}

/// A filtered list holds just those of the list that pass.
pub proof fn lemma_filter_members<A>(s: Seq<A>, p: spec_fn(A) -> bool)
    ensures
        forall|i: int|
            0 <= i < s.filter(p).len() ==> p(#[trigger] s.filter(p)[i]) && s.contains(
                s.filter(p)[i],
            ),
        forall|i: int|
            0 <= i < s.len() && p(#[trigger] s[i]) ==> s.filter(p).contains(s[i]),
    decreases s.len(),
{
    reveal(Seq::filter);
    if s.len() > 0 {
        let a = s.drop_last();
        let fa = a.filter(p);
        let f = s.filter(p);
        lemma_filter_members(a, p);
        assert forall|i: int| 0 <= i < f.len() implies p(#[trigger] f[i]) && s.contains(f[i]) by {
            if i < fa.len() {
                assert(f[i] == fa[i]);
                let k = choose|k: int| 0 <= k < a.len() && a[k] == fa[i];
                assert(s[k] == f[i]);
            } else {
                assert(s[s.len() - 1] == f[i]);
            }
        }
        assert forall|i: int| 0 <= i < s.len() && p(#[trigger] s[i]) implies f.contains(s[i]) by {
            if i < a.len() {
                assert(a[i] == s[i]);
                let k = choose|k: int| 0 <= k < fa.len() && fa[k] == a[i];
                assert(f[k] == s[i]);
            } else {
                assert(f[f.len() - 1] == s[i]);
            }
        }
    }
}

/// Position `a` comes in front of position `b`: by the greater key, and among equal keys by the
/// position.
pub open spec fn greater_first<K: SortKey>(keys: Seq<K::V>, a: int, b: int) -> bool {
    lex_less(K::rank(keys[b]), K::rank(keys[a])) || (keys[a] == keys[b] && a < b)
}

/// `r` lists the positions `lo..hi` of `keys`, the greatest key first and equal keys in their
/// order.
pub open spec fn descending<K: SortKey>(keys: Seq<K::V>, lo: int, hi: int, r: Seq<usize>) -> bool {
    &&& r.len() == hi - lo
    &&& forall|i: int| 0 <= i < r.len() ==> lo <= #[trigger] r[i] < hi
    &&& forall|k: usize| lo <= k < hi ==> #[trigger] r.contains(k)
    &&& forall|i: int, j: int|
        0 <= i < j < r.len() ==> greater_first::<K>(
            keys,
            (#[trigger] r[i]) as int,
            (#[trigger] r[j]) as int,
        )
}

proof fn lemma_greater_first_transitive<K: SortKey>(keys: Seq<K::V>, a: int, b: int, c: int)
    requires
        greater_first::<K>(keys, a, b),
        greater_first::<K>(keys, b, c),
    ensures
        greater_first::<K>(keys, a, c),
{
    if lex_less(K::rank(keys[b]), K::rank(keys[a])) && lex_less(
        K::rank(keys[c]),
        K::rank(keys[b]),
    ) {
        lemma_lex_transitive(K::rank(keys[c]), K::rank(keys[b]), K::rank(keys[a]));
    }
}

/// The positions of two sorted halves as one sorted list.
fn merge<K: SortKey>(
    keys: &Vec<K>,
    lo: usize,
    mid: usize,
    hi: usize,
    left: Vec<usize>,
    right: Vec<usize>,
) -> (r: Vec<usize>)
    requires
        lo <= mid <= hi <= keys.len(),
        descending::<K>(keys_of(keys@), lo as int, mid as int, left@),
        descending::<K>(keys_of(keys@), mid as int, hi as int, right@),
    ensures
        descending::<K>(keys_of(keys@), lo as int, hi as int, r@),
{
    let ghost ks = keys_of(keys@);
    let mut out: Vec<usize> = Vec::new();
    let mut i: usize = 0;
    let mut j: usize = 0;
    while i < left.len() || j < right.len()
        invariant
            lo <= mid <= hi <= keys.len(),
            ks == keys_of(keys@),
            descending::<K>(ks, lo as int, mid as int, left@),
            descending::<K>(ks, mid as int, hi as int, right@),
            i <= left.len(),
            j <= right.len(),
            out.len() == i + j,
            forall|a: int| 0 <= a < out.len() ==> lo <= #[trigger] out@[a] < hi,
            forall|a: int| 0 <= a < i ==> out@.contains(#[trigger] left@[a]),
            forall|b: int| 0 <= b < j ==> out@.contains(#[trigger] right@[b]),
            forall|a: int, b: int|
                0 <= a < b < out.len() ==> greater_first::<K>(
                    ks,
                    (#[trigger] out@[a]) as int,
                    (#[trigger] out@[b]) as int,
                ),
            forall|a: int, b: int|
                0 <= a < out.len() && i <= b < left.len() ==> greater_first::<K>(
                    ks,
                    (#[trigger] out@[a]) as int,
                    (#[trigger] left@[b]) as int,
                ),
            forall|a: int, b: int|
                0 <= a < out.len() && j <= b < right.len() ==> greater_first::<K>(
                    ks,
                    (#[trigger] out@[a]) as int,
                    (#[trigger] right@[b]) as int,
                ),
        decreases left.len() - i + right.len() - j,
    {
        let from_left = if i == left.len() {
            false
        } else if j == right.len() {
            true
        } else {
            let x: usize = left[i];
            let y: usize = right[j];
            assert(ks[x as int] == keys@[x as int]@);
            assert(ks[y as int] == keys@[y as int]@);
            match keys[x].place(&keys[y]) {
                Place::Before => false,
                Place::Same => true,
                Place::Behind => true,
            }
        };
        let ghost prev = out@;
        if from_left {
            let x: usize = left[i];
            proof {
                assert forall|b: int| j <= b < right.len() implies greater_first::<K>(
                    ks,
                    x as int,
                    (#[trigger] right@[b]) as int,
                ) by {
                    if b > j {
                        lemma_greater_first_transitive::<K>(
                            ks,
                            x as int,
                            right@[j as int] as int,
                            right@[b] as int,
                        );
                    }
                }
            }
            out.push(x);
            i = i + 1;
            proof {
                assert(out@[prev.len() as int] == x);
                assert forall|a: int| 0 <= a < i implies out@.contains(#[trigger] left@[a]) by {
                    if a < i - 1 {
                        assert(prev.contains(left@[a]));
                        let m = choose|m: int| 0 <= m < prev.len() && prev[m] == left@[a];
                        assert(out@[m] == left@[a]);
                    }
                }
                assert forall|b: int| 0 <= b < j implies out@.contains(#[trigger] right@[b]) by {
                    assert(prev.contains(right@[b]));
                    let m = choose|m: int| 0 <= m < prev.len() && prev[m] == right@[b];
                    assert(out@[m] == right@[b]);
                }
            }
        } else {
            let y: usize = right[j];
            proof {
                assert forall|b: int| i <= b < left.len() implies greater_first::<K>(
                    ks,
                    y as int,
                    (#[trigger] left@[b]) as int,
                ) by {
                    if b > i {
                        lemma_greater_first_transitive::<K>(
                            ks,
                            y as int,
                            left@[i as int] as int,
                            left@[b] as int,
                        );
                    }
                }
            }
            out.push(y);
            j = j + 1;
            proof {
                assert(out@[prev.len() as int] == y);
                assert forall|a: int| 0 <= a < i implies out@.contains(#[trigger] left@[a]) by {
                    assert(prev.contains(left@[a]));
                    let m = choose|m: int| 0 <= m < prev.len() && prev[m] == left@[a];
                    assert(out@[m] == left@[a]);
                }
                assert forall|b: int| 0 <= b < j implies out@.contains(#[trigger] right@[b]) by {
                    if b < j - 1 {
                        assert(prev.contains(right@[b]));
                        let m = choose|m: int| 0 <= m < prev.len() && prev[m] == right@[b];
                        assert(out@[m] == right@[b]);
                    }
                }
            }
        }
    }
    proof {
        assert forall|k: usize| lo <= k < hi implies #[trigger] out@.contains(k) by {
            if k < mid {
                assert(left@.contains(k));
                let a = choose|a: int| 0 <= a < left.len() && left@[a] == k;
                assert(out@.contains(left@[a]));
            } else {
                assert(right@.contains(k));
                let b = choose|b: int| 0 <= b < right.len() && right@[b] == k;
                assert(out@.contains(right@[b]));
            }
        }
    }
    out
}

/// The positions `lo..hi` of `keys`, the greatest key first and equal keys in their order.
fn sort_range<K: SortKey>(keys: &Vec<K>, lo: usize, hi: usize) -> (r: Vec<usize>)
    requires
        lo <= hi <= keys.len(),
    ensures
        descending::<K>(keys_of(keys@), lo as int, hi as int, r@),
    decreases hi - lo,
{
    if hi - lo == 0 {
        Vec::new()
    } else if hi - lo == 1 {
        let mut r: Vec<usize> = Vec::new();
        r.push(lo);
        assert(r@[0] == lo);
        r
    } else {
        let mid: usize = lo + (hi - lo) / 2;
        let left = sort_range(keys, lo, mid);
        let right = sort_range(keys, mid, hi);
        merge(keys, lo, mid, hi, left, right)
    }
}

/// The positions of `keys`, the greatest key first and equal keys in their order.
pub fn sort_descending<K: SortKey>(keys: &Vec<K>) -> (r: Vec<usize>)
    ensures
        descending::<K>(keys_of(keys@), 0, keys@.len() as int, r@),
{
    sort_range(keys, 0, keys.len())
}

/// There is one way to list positions by their keys: two such lists are the same list.
pub proof fn law_one_descending_order<K: SortKey>(
    keys: Seq<K::V>,
    lo: int,
    hi: int,
    a: Seq<usize>,
    b: Seq<usize>,
)
    requires
        descending::<K>(keys, lo, hi, a),
        descending::<K>(keys, lo, hi, b),
    ensures
        a == b,
{
    lemma_descending_prefix::<K>(keys, lo, hi, a, b, a.len() as int);
    assert(a =~= b);
}

proof fn lemma_descending_prefix<K: SortKey>(
    keys: Seq<K::V>,
    lo: int,
    hi: int,
    a: Seq<usize>,
    b: Seq<usize>,
    n: int,
)
    requires
        descending::<K>(keys, lo, hi, a),
        descending::<K>(keys, lo, hi, b),
        0 <= n <= a.len(),
    ensures
        forall|i: int| 0 <= i < n ==> a[i] == b[i],
    decreases n,
{
    if n > 0 {
        lemma_descending_prefix::<K>(keys, lo, hi, a, b, n - 1);
        let m = n - 1;
        if a[m] != b[m] {
            assert(b.contains(a[m]));
            assert(a.contains(b[m]));
            let p = choose|p: int| 0 <= p < b.len() && b[p] == a[m];
            let q = choose|q: int| 0 <= q < a.len() && a[q] == b[m];
            assert(p > m) by {
                if p < m {
                    assert(a[p] == b[p]);
                    assert(greater_first::<K>(keys, a[p] as int, a[m] as int));
                    lemma_lex_irreflexive(K::rank(keys[a[m] as int]));
                }
            }
            assert(q > m) by {
                if q < m {
                    assert(a[q] == b[q]);
                    assert(greater_first::<K>(keys, b[q] as int, b[m] as int));
                    lemma_lex_irreflexive(K::rank(keys[b[m] as int]));
                }
            }
            assert(greater_first::<K>(keys, a[m] as int, a[q] as int));
            assert(greater_first::<K>(keys, b[m] as int, b[p] as int));
            lemma_greater_first_transitive::<K>(keys, a[m] as int, b[m] as int, a[m] as int);
            lemma_lex_irreflexive(K::rank(keys[a[m] as int]));
        }
    }
}

} // verus!
