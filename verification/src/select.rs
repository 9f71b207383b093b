//! Which sessions are shown, and in which order.
use crate::clock::{dates, law_dates_sort_by_time, lemma_date_is_known};
use crate::daily::too_early;
use crate::json::ref_text;
use crate::order::{
    descending, greater_first, keys_of, lemma_lex_irreflexive, lemma_lex_transitive, lex_less,
    sort_descending, text_place, text_rank, Place, SortKey,
};
use crate::session::SessionStat;
use crate::text::{owned, same_text};
use vstd::prelude::*;

verus! {

/// How sessions are ordered.
#[derive(Debug, Clone, Copy, PartialEq, Eq)]
pub enum SortMode {
    /// By their tokens.
    Total,
    /// By their last activity.
    Recent,
}

/// The session is shown: its last day is not known or not before `since`, and, where only those
/// with usage are shown, it has some.
pub open spec fn keeps(s: SessionStat, since: Option<Seq<char>>, usage_only: bool) -> bool {
    !too_early(s.last_activity_day@, since) && (usage_only ==> s.has_usage)
}

/// Whether the session is shown.
pub fn keeps_session(s: &SessionStat, since: Option<&str>, usage_only: bool) -> (r: bool)
    ensures
        r == keeps(*s, ref_text(since), usage_only),
{
    if usage_only && !s.has_usage {
        return false;
    }
    match since {
        Some(from) => {
            let day = s.last_activity_day.as_str();
            if same_text(day, "unknown") {
                return true;
            }
            proof {
                lemma_lex_irreflexive(text_rank(day@));
                if lex_less(text_rank(day@), text_rank(from@)) && lex_less(
                    text_rank(from@),
                    text_rank(day@),
                ) {
                    lemma_lex_transitive(text_rank(day@), text_rank(from@), text_rank(day@));
                }
            }
            match text_place(day, from) {
                Place::Before => false,
                _ => true,
            }
        },
        None => true,
    }
}

/// Session `a` comes in front of session `b`: by the greater key, and among equal keys by the
/// place.
pub open spec fn session_first(
    stats: Seq<SessionStat>,
    sort: SortMode,
    a: usize,
    b: usize,
) -> bool {
    match sort {
        SortMode::Total => {
            ||| stats[a as int].tokens.total_tokens > stats[b as int].tokens.total_tokens
            ||| stats[a as int].tokens.total_tokens == stats[b as int].tokens.total_tokens && a < b
        },
        SortMode::Recent => {
            ||| lex_less(
                text_rank(stats[b as int].last_activity@),
                text_rank(stats[a as int].last_activity@),
            )
            ||| stats[a as int].last_activity@ == stats[b as int].last_activity@ && a < b
        },
    }
}

/// `r` lists the sessions that are shown, each once and in order.
pub open spec fn lists_sessions(
    stats: Seq<SessionStat>,
    since: Option<Seq<char>>,
    usage_only: bool,
    sort: SortMode,
    r: Seq<usize>,
) -> bool {
    &&& forall|i: int|
        0 <= i < r.len() ==> #[trigger] r[i] < stats.len() && keeps(
            stats[r[i] as int],
            since,
            usage_only,
        )
    &&& forall|k: usize|
        k < stats.len() && keeps(stats[k as int], since, usage_only) ==> #[trigger] r.contains(k)
    &&& forall|i: int, j: int|
        0 <= i < j < r.len() ==> session_first(stats, sort, #[trigger] r[i], #[trigger] r[j])
}

fn kept_sessions(stats: &Vec<SessionStat>, since: Option<&str>, usage_only: bool) -> (r: Vec<
    usize,
>)
    ensures
        forall|i: int|
            0 <= i < r@.len() ==> #[trigger] r@[i] < stats@.len() && keeps(
                stats@[r@[i] as int],
                ref_text(since),
                usage_only,
            ),
        forall|k: usize|
            k < stats@.len() && keeps(stats@[k as int], ref_text(since), usage_only)
                ==> #[trigger] r@.contains(k),
        forall|i: int, j: int| 0 <= i < j < r@.len() ==> #[trigger] r@[i] < #[trigger] r@[j],
{
    let mut out: Vec<usize> = Vec::new();
    for k in 0..stats.len()
        invariant
            forall|i: int|
                0 <= i < out@.len() ==> #[trigger] out@[i] < k && keeps(
                    stats@[out@[i] as int],
                    ref_text(since),
                    usage_only,
                ),
            forall|m: usize|
                m < k && keeps(stats@[m as int], ref_text(since), usage_only)
                    ==> #[trigger] out@.contains(m),
            forall|i: int, j: int|
                0 <= i < j < out@.len() ==> #[trigger] out@[i] < #[trigger] out@[j],
    {
        let ghost prev = out@;
        if keeps_session(&stats[k], since, usage_only) {
            out.push(k);
            assert(out@[prev.len() as int] == k);
            assert forall|m: usize|
                m < k + 1 && keeps(
                    stats@[m as int],
                    ref_text(since),
                    usage_only,
                ) implies #[trigger] out@.contains(m) by {
                if m < k {
                    assert(prev.contains(m));
                    let i = choose|i: int| 0 <= i < prev.len() && prev[i] == m;
                    assert(out@[i] == m);
                }
            }
        }
    }
    out
}

fn pick(kept: &Vec<usize>, places: &Vec<usize>) -> (r: Vec<usize>)
    requires
        forall|i: int| 0 <= i < places@.len() ==> #[trigger] places@[i] < kept@.len(),
    ensures
        r@.len() == places@.len(),
        forall|i: int| 0 <= i < r@.len() ==> #[trigger] r@[i] == kept@[places@[i] as int],
{
    let mut out: Vec<usize> = Vec::new();
    for i in 0..places.len()
        invariant
            forall|i: int| 0 <= i < places@.len() ==> #[trigger] places@[i] < kept@.len(),
            out@.len() == i,
            forall|j: int| 0 <= j < i ==> #[trigger] out@[j] == kept@[places@[j] as int],
    {
        let place: usize = places[i];
        out.push(kept[place]);
    }
    out
}

proof fn lemma_listed<K: SortKey>(
    stats: Seq<SessionStat>,
    since: Option<Seq<char>>,
    usage_only: bool,
    sort: SortMode,
    kept: Seq<usize>,
    keys: Seq<K::V>,
    places: Seq<usize>,
    r: Seq<usize>,
)
    requires
        keys.len() == kept.len(),
        kept.len() <= usize::MAX,
        descending::<K>(keys, 0, keys.len() as int, places),
        r.len() == places.len(),
        forall|i: int| 0 <= i < r.len() ==> #[trigger] r[i] == kept[places[i] as int],
        forall|i: int|
            0 <= i < kept.len() ==> #[trigger] kept[i] < stats.len() && keeps(
                stats[kept[i] as int],
                since,
                usage_only,
            ),
        forall|k: usize|
            k < stats.len() && keeps(stats[k as int], since, usage_only)
                ==> #[trigger] kept.contains(
                k,
            ),
        forall|i: int, j: int| 0 <= i < j < kept.len() ==> #[trigger] kept[i] < #[trigger] kept[j],
        forall|a: int, b: int|
            0 <= a < kept.len() && 0 <= b < kept.len() && #[trigger] greater_first::<K>(
                keys,
                a,
                b,
            ) ==> session_first(stats, sort, kept[a], kept[b]),
    ensures
        lists_sessions(stats, since, usage_only, sort, r),
{
    assert forall|i: int| 0 <= i < r.len() implies #[trigger] r[i] < stats.len() && keeps(
        stats[r[i] as int],
        since,
        usage_only,
    ) by {
        assert(0 <= places[i] < keys.len());
        assert(kept[places[i] as int] < stats.len());
    }
    assert forall|k: usize|
        k < stats.len() && keeps(
            stats[k as int],
            since,
            usage_only,
        ) implies #[trigger] r.contains(k) by {
        assert(kept.contains(k));
        let m = choose|m: int| 0 <= m < kept.len() && kept[m] == k;
        assert(places.contains(m as usize));
        let i = choose|i: int| 0 <= i < places.len() && places[i] == m as usize;
        assert(r[i] == k);
    }
    assert forall|i: int, j: int| 0 <= i < j < r.len() implies session_first(
        stats,
        sort,
        #[trigger] r[i],
        #[trigger] r[j],
    ) by {
        assert(0 <= places[i] < keys.len() && 0 <= places[j] < keys.len());
        assert(greater_first::<K>(keys, places[i] as int, places[j] as int));
    }
}

/// The sessions that are shown, in order: those with more tokens or with a later activity first.
pub fn session_order(
    stats: &Vec<SessionStat>,
    since: Option<&str>,
    usage_only: bool,
    sort: SortMode,
) -> (r: Vec<usize>)
    ensures
        lists_sessions(stats@, ref_text(since), usage_only, sort, r@),
        sort is Total ==> (forall|i: int, j: int|
            0 <= i < j < r@.len() ==> stats@[#[trigger] r@[i] as int].tokens.total_tokens
                >= stats@[#[trigger] r@[j] as int].tokens.total_tokens),
{
    let kept = kept_sessions(stats, since, usage_only);
    match sort {
        SortMode::Total => {
            let mut keys: Vec<u64> = Vec::new();
            for i in 0..kept.len()
                invariant
                    forall|i: int| 0 <= i < kept@.len() ==> #[trigger] kept@[i] < stats@.len(),
                    keys@.len() == i,
                    forall|j: int|
                        0 <= j < i ==> #[trigger] keys@[j]
                            == stats@[kept@[j] as int].tokens.total_tokens,
            {
                let k: usize = kept[i];
                keys.push(stats[k].tokens.total_tokens);
            }
            let places = sort_descending(&keys);
            let r = pick(&kept, &places);
            proof {
                let ks = keys_of(keys@);
                assert forall|a: int, b: int|
                    0 <= a < kept@.len() && 0 <= b < kept@.len() && #[trigger] greater_first::<u64>(
                        ks,
                        a,
                        b,
                    ) implies session_first(stats@, sort, kept@[a], kept@[b]) by {
                    assert(ks[a] == keys@[a] && ks[b] == keys@[b]);
                    assert(lex_less(seq![ks[b] as int], seq![ks[a] as int]) ==> ks[b] < ks[a]) by {
                        reveal_with_fuel(lex_less, 2);
                    }
                }
                lemma_listed::<u64>(
                    stats@,
                    ref_text(since),
                    usage_only,
                    sort,
                    kept@,
                    ks,
                    places@,
                    r@,
                );
            }
            r
        },
        SortMode::Recent => {
            let mut keys: Vec<String> = Vec::new();
            for i in 0..kept.len()
                invariant
                    forall|i: int| 0 <= i < kept@.len() ==> #[trigger] kept@[i] < stats@.len(),
                    keys@.len() == i,
                    forall|j: int|
                        0 <= j < i ==> (#[trigger] keys@[j])@
                            == stats@[kept@[j] as int].last_activity@,
            {
                let k: usize = kept[i];
                keys.push(owned(stats[k].last_activity.as_str()));
            }
            let places = sort_descending(&keys);
            let r = pick(&kept, &places);
            proof {
                let ks = keys_of(keys@);
                assert forall|a: int, b: int|
                    0 <= a < kept@.len() && 0 <= b < kept@.len()
                        && #[trigger] greater_first::<String>(ks, a, b) implies session_first(
                    stats@,
                    sort,
                    kept@[a],
                    kept@[b],
                ) by {
                    assert(ks[a] == keys@[a]@ && ks[b] == keys@[b]@);
                }
                lemma_listed::<String>(
                    stats@,
                    ref_text(since),
                    usage_only,
                    sort,
                    kept@,
                    ks,
                    places@,
                    r@,
                );
            }
            r
        },
    }
}

/// There is one way to list the sessions that are shown: two such lists are the same list.
pub proof fn law_one_session_order(
    stats: Seq<SessionStat>,
    since: Option<Seq<char>>,
    usage_only: bool,
    sort: SortMode,
    a: Seq<usize>,
    b: Seq<usize>,
)
    requires
        lists_sessions(stats, since, usage_only, sort, a),
        lists_sessions(stats, since, usage_only, sort, b),
    ensures
        a == b,
    decreases a.len(),
{
    lemma_listed_prefix(stats, since, usage_only, sort, a, b, a.len() as int);
    if a.len() < b.len() {
        let x = b[a.len() as int];
        assert(a.contains(x));
        let i = choose|i: int| 0 <= i < a.len() && a[i] == x;
        assert(b[i] == x);
        lemma_not_first(stats, sort, b[i], b[a.len() as int]);
    }
    assert(a =~= b);
}

proof fn lemma_not_first(stats: Seq<SessionStat>, sort: SortMode, a: usize, b: usize)
    requires
        session_first(stats, sort, a, b),
    ensures
        a != b,
        !session_first(stats, sort, b, a),
{
    let x = text_rank(stats[a as int].last_activity@);
    let y = text_rank(stats[b as int].last_activity@);
    lemma_lex_irreflexive(x);
    if lex_less(x, y) && lex_less(y, x) {
        lemma_lex_transitive(x, y, x);
    }
}

proof fn lemma_listed_prefix(
    stats: Seq<SessionStat>,
    since: Option<Seq<char>>,
    usage_only: bool,
    sort: SortMode,
    a: Seq<usize>,
    b: Seq<usize>,
    n: int,
)
    requires
        lists_sessions(stats, since, usage_only, sort, a),
        lists_sessions(stats, since, usage_only, sort, b),
        0 <= n <= a.len(),
    ensures
        n <= b.len(),
        forall|i: int| 0 <= i < n ==> a[i] == b[i],
    decreases n,
{
    if n > 0 {
        lemma_listed_prefix(stats, since, usage_only, sort, a, b, n - 1);
        let m = n - 1;
        assert(b.contains(a[m]));
        let p = choose|p: int| 0 <= p < b.len() && b[p] == a[m];
        if p < m {
            assert(a[p] == b[p]);
            lemma_not_first(stats, sort, a[p], a[m]);
        }
        if p > m {
            assert(a.contains(b[m]));
            let q = choose|q: int| 0 <= q < a.len() && a[q] == b[m];
            if q < m {
                assert(a[q] == b[q]);
                lemma_not_first(stats, sort, b[q], b[m]);
            } else if q == m {
                lemma_not_first(stats, sort, b[m], b[p]);
            } else {
                assert(session_first(stats, sort, a[m], a[q]));
                assert(session_first(stats, sort, b[m], b[p]));
                lemma_not_first(stats, sort, a[m], a[q]);
            }
        }
    }
}

/// Sessions that are sorted by their tokens come with the greater total in front: no session in the
/// list has more tokens in all than one before it. Of two with the same total, the one that was
/// found first comes first.
pub proof fn law_greatest_total_first(
    stats: Seq<SessionStat>,
    since: Option<Seq<char>>,
    usage_only: bool,
    r: Seq<usize>,
)
    requires
        lists_sessions(stats, since, usage_only, SortMode::Total, r),
    ensures
        forall|i: int, j: int|
            0 <= i < j < r.len() ==> stats[#[trigger] r[i] as int].tokens.total_tokens
                >= stats[#[trigger] r[j] as int].tokens.total_tokens,
        forall|i: int, j: int|
            0 <= i < j < r.len() && stats[#[trigger] r[i] as int].tokens.total_tokens
                == stats[#[trigger] r[j] as int].tokens.total_tokens ==> r[i] < r[j],
{
    assert forall|i: int, j: int| 0 <= i < j < r.len()
        implies (stats[#[trigger] r[i] as int].tokens.total_tokens
        >= stats[#[trigger] r[j] as int].tokens.total_tokens) && (
    stats[r[i] as int].tokens.total_tokens == stats[r[j] as int].tokens.total_tokens ==> r[i]
        < r[j]) by {
        assert(session_first(stats, SortMode::Total, r[i], r[j]));
    }
}

/// Sessions that are sorted by their activity come with the later one in front: no session in the
/// list was last active after one before it. Of two with the same last activity, the one that was
/// found first comes first.
pub proof fn law_latest_activity_first(
    stats: Seq<SessionStat>,
    since: Option<Seq<char>>,
    usage_only: bool,
    r: Seq<usize>,
)
    requires
        lists_sessions(stats, since, usage_only, SortMode::Recent, r),
    ensures
        forall|i: int, j: int|
            0 <= i < j < r.len() ==> !lex_less(
                text_rank(stats[#[trigger] r[i] as int].last_activity@),
                text_rank(stats[#[trigger] r[j] as int].last_activity@),
            ),
        forall|i: int, j: int|
            0 <= i < j < r.len() && stats[#[trigger] r[i] as int].last_activity@
                == stats[#[trigger] r[j] as int].last_activity@ ==> r[i] < r[j],
{
    assert forall|i: int, j: int| 0 <= i < j < r.len() implies !lex_less(
        text_rank(stats[#[trigger] r[i] as int].last_activity@),
        text_rank(stats[#[trigger] r[j] as int].last_activity@),
    ) && (stats[r[i] as int].last_activity@ == stats[r[j] as int].last_activity@ ==> r[i]
        < r[j]) by {
        assert(session_first(stats, SortMode::Recent, r[i], r[j]));
        let x = text_rank(stats[r[i] as int].last_activity@);
        let y = text_rank(stats[r[j] as int].last_activity@);
        lemma_lex_irreflexive(x);
        lemma_lex_irreflexive(y);
        if lex_less(x, y) && lex_less(y, x) {
            lemma_lex_transitive(x, y, x);
        }
    }
}

/// Which sessions are listed does not depend on the order. Each is listed once. A session without
/// usage is left out where only those with usage are shown, and one whose last day has the number
/// `n` is left out where that lies before the day number `k` of `since`; every other one is listed,
/// one of an unknown day among them. A `since` that is no date is compared as a text.
pub proof fn law_listed_sessions(
    stats: Seq<SessionStat>,
    since: Option<Seq<char>>,
    usage_only: bool,
    sort: SortMode,
    r: Seq<usize>,
    a: usize,
    n: int,
    k: int,
)
    requires
        lists_sessions(stats, since, usage_only, sort, r),
        a < stats.len(),
    ensures
        r.no_duplicates(),
        usage_only && !stats[a as int].has_usage ==> !r.contains(a),
        since is None && (!usage_only || stats[a as int].has_usage) ==> r.contains(a),
        stats[a as int].last_activity_day@ == "unknown"@ && (!usage_only
            || stats[a as int].has_usage) ==> r.contains(a),
        since matches Some(from) ==> (dates(from, k) && dates(
            stats[a as int].last_activity_day@,
            n,
        ) && (!usage_only || stats[a as int].has_usage) ==> (r.contains(a) <==> n >= k)),
        since matches Some(from) ==> (stats[a as int].last_activity_day@ != "unknown"@ && (
        !usage_only || stats[a as int].has_usage) ==> (r.contains(a) <==> !lex_less(
            text_rank(stats[a as int].last_activity_day@),
            text_rank(from),
        ))),
{
    let s = stats[a as int];
    if let Some(from) = since {
        if dates(from, k) && dates(s.last_activity_day@, n) {
            law_dates_sort_by_time(s.last_activity_day@, n, from, k);
            lemma_date_is_known(s.last_activity_day@, n);
        }
    }
    assert forall|i: int, j: int| 0 <= i < r.len() && 0 <= j < r.len() && i != j implies r[i]
        != r[j] by {
        if i < j {
            assert(session_first(stats, sort, r[i], r[j]));
            lemma_not_first(stats, sort, r[i], r[j]);
        } else {
            assert(session_first(stats, sort, r[j], r[i]));
            lemma_not_first(stats, sort, r[j], r[i]);
        }
    }
    if r.contains(a) {
        let i = choose|i: int| 0 <= i < r.len() && r[i] == a;
        assert(keeps(stats[r[i] as int], since, usage_only));
    }
}

} // verus!
