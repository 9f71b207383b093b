//! Totals by UTC day.
use crate::bucket::{law_add_usage_tallies, lemma_total_add, total, TokenBucket};
use crate::clock::{day_of, ms_to_day};
use crate::json::{opt_text, ref_text, Json, JsonTree};
use crate::order::{
    increasing, lemma_filter_members, lemma_increasing_unique, lemma_lex_irreflexive,
    lemma_lex_transitive, lex_less, text_place, text_rank, Place, SortKey, SortedSet,
};
use crate::parse::{parse_json, text_tree};
use crate::session::{
    first_of_each, law_keys_differ, lemma_first_prefix, lemma_record_keys_push,
    lemma_totals_prefix, mentions_usage, record_keys, speaks_of_usage, totals_fit, CountOverflow,
};
use crate::text::{owned, same_text, texts, trim, trimmed};
use crate::usage::{
    agent_ts, agent_ts_ms, key_of, line_usage, ref_trees, usage_key, usage_of_line, UsageKey,
};
use vstd::prelude::*;

verus! {

/// The usage that one log line records: the session, the day and the records.
#[verifier::ext_equal]
pub struct DayEvent {
    pub sid: Seq<char>,
    pub day: Seq<char>,
    pub records: Seq<JsonTree>,
}

/// A known day that lies before `since`.
pub open spec fn too_early(day: Seq<char>, since: Option<Seq<char>>) -> bool {
    match since {
        Some(s) => day != "unknown"@ && lex_less(text_rank(day), text_rank(s)),
        None => false,
    }
}

/// The usage that a line records for the session `sid`; nothing where it records none, or where
/// its day is too early. A record that occurs twice in a line counts once.
pub open spec fn event_of(
    sid: Seq<char>,
    t: JsonTree,
    since: Option<Seq<char>>,
) -> Option<DayEvent> {
    if line_usage(t).len() == 0 || too_early(day_of(agent_ts(t)), since) {
        None
    } else {
        Some(
            DayEvent { sid, day: day_of(agent_ts(t)), records: first_of_each(line_usage(t)) },
        )
    }
}

/// The usage that the text of a line records.
pub open spec fn line_event(
    sid: Seq<char>,
    line: Seq<char>,
    since: Option<Seq<char>>,
) -> Option<DayEvent> {
    if mentions_usage(line) {
        match text_tree(trimmed(line)) {
            Some(t) => event_of(sid, t, since),
            None => None,
        }
    } else {
        None
    }
}

/// The usage that the lines of a session record.
pub open spec fn session_events(
    sid: Seq<char>,
    lines: Seq<Seq<char>>,
    since: Option<Seq<char>>,
) -> Seq<DayEvent>
    decreases lines.len(),
{
    if lines.len() == 0 {
        Seq::empty()
    } else {
        match line_event(sid, lines.last(), since) {
            Some(e) => session_events(sid, lines.drop_last(), since).push(e),
            None => session_events(sid, lines.drop_last(), since),
        }
    }
}

/// The usage that the logs of some sessions record.
pub open spec fn log_events(logs: Seq<SessionLog>, since: Option<Seq<char>>) -> Seq<DayEvent>
    decreases logs.len(),
{
    if logs.len() == 0 {
        Seq::empty()
    } else {
        log_events(logs.drop_last(), since) + session_events(
            logs.last().session_id@,
            texts(logs.last().lines@),
            since,
        )
    }
}

/// The records of a day.
pub open spec fn records_on(events: Seq<DayEvent>, day: Seq<char>) -> Seq<JsonTree>
    decreases events.len(),
{
    if events.len() == 0 {
        Seq::empty()
    } else if events.last().day == day {
        records_on(events.drop_last(), day) + events.last().records
    } else {
        records_on(events.drop_last(), day)
    }
}

/// The sessions of a day.
pub open spec fn sessions_on(events: Seq<DayEvent>, day: Seq<char>) -> Set<Seq<char>>
    decreases events.len(),
{
    if events.len() == 0 {
        Set::empty()
    } else if events.last().day == day {
        sessions_on(events.drop_last(), day).insert(events.last().sid)
    } else {
        sessions_on(events.drop_last(), day)
    }
}

/// Some usage lies on the day.
pub open spec fn has_day(events: Seq<DayEvent>, day: Seq<char>) -> bool {
    exists|i: int| 0 <= i < events.len() && (#[trigger] events[i]).day == day
}

/// The log of a session.
pub struct SessionLog {
    pub session_id: String,
    pub lines: Vec<String>,
}

/// The totals of one day.
pub struct DailyStat {
    pub date: String,
    pub tokens: TokenBucket,
    pub sessions: SortedSet<String>,
}

impl DailyStat {
    /// The day is what the usage on it adds up to.
    pub open spec fn sums_up(&self, events: Seq<DayEvent>) -> bool {
        &&& self.tokens.tallies(records_on(events, self.date@))
        &&& self.sessions.wf()
        &&& self.sessions.keys().to_set() == sessions_on(events, self.date@)
    }

    /// Adds the records `us` of a session to a day that tallies `base`.
    fn add(&mut self, sid: &str, us: &Vec<&Json>, Ghost(base): Ghost<Seq<JsonTree>>) -> (r: Result<
        (),
        CountOverflow,
    >)
        requires
            old(self).tokens.tallies(base),
            old(self).sessions.wf(),
        ensures
            r is Ok <==> totals_fit(base + first_of_each(ref_trees(us@))),
            final(self).date == old(self).date,
            r is Ok ==> {
                &&& final(self).tokens.tallies(base + first_of_each(ref_trees(us@)))
                &&& final(self).sessions.wf()
                &&& final(self).sessions.keys().to_set() == old(
                    self,
                ).sessions.keys().to_set().insert(sid@)
            },
    {
        self.sessions.insert(owned(sid));
        let mut seen: SortedSet<UsageKey> = SortedSet::new();
        let ghost all = ref_trees(us@);
        proof {
            assert(seen.keys().to_set() =~= record_keys(all.take(0)));
            assert(base + first_of_each(all.take(0)) =~= base);
        }
        for i in 0..us.len()
            invariant
                all == ref_trees(us@),
                seen.wf(),
                seen.keys().to_set() == record_keys(all.take(i as int)),
                self.tokens.tallies(base + first_of_each(all.take(i as int))),
                self.date == old(self).date,
                self.sessions.wf(),
                self.sessions.keys().to_set() == old(self).sessions.keys().to_set().insert(sid@),
        {
            let u = us[i];
            let key = usage_key(u);
            let ghost done = all.take(i as int);
            let ghost next = all.take(i as int + 1);
            proof {
                assert(next =~= done.push(u@));
                assert(next.drop_last() =~= done);
                lemma_record_keys_push(done, u@);
                assert(seen.keys().contains(key) == seen.keys().to_set().contains(key));
            }
            if seen.insert(key) {
                let ghost so_far = base + first_of_each(done);
                proof {
                    assert(base + first_of_each(next) =~= so_far.push(u@));
                    assert(so_far.push(u@).drop_last() =~= so_far);
                }
                if !self.tokens.can_add(u) {
                    proof {
                        let tail = all.skip(i as int + 1);
                        assert(next + tail =~= all);
                        let rest = lemma_first_prefix(next, tail);
                        assert(base + first_of_each(all) =~= so_far.push(u@) + rest);
                        if totals_fit(base + first_of_each(all)) {
                            lemma_totals_prefix(so_far.push(u@), rest);
                        }
                    }
                    return Err(CountOverflow);
                }
                let ghost bucket = self.tokens;
                self.tokens.add_usage(u);
                proof {
                    law_add_usage_tallies(bucket, self.tokens, so_far, u@);
                }
            }
        }
        assert(all.take(us@.len() as int) =~= all);
        Ok(())
    }
}

/// Each day comes in front of those behind it.
pub open spec fn in_order(days: Seq<DailyStat>) -> bool {
    forall|i: int, j: int|
        0 <= i < j < days.len() ==> lex_less(
            text_rank((#[trigger] days[i]).date@),
            text_rank((#[trigger] days[j]).date@),
        )
}

/// The days are those on which usage lies, in order, each with what the usage on it adds up to.
#[verifier::opaque]
pub open spec fn days_of(days: Seq<DailyStat>, events: Seq<DayEvent>) -> bool {
    &&& in_order(days)
    &&& forall|i: int| 0 <= i < days.len() ==> (#[trigger] days[i]).sums_up(events)
    &&& forall|i: int| 0 <= i < days.len() ==> has_day(events, (#[trigger] days[i]).date@)
    &&& forall|k: int|
        0 <= k < events.len() ==> exists|i: int|
            0 <= i < days.len() && (#[trigger] days[i]).date@ == (#[trigger] events[k]).day
}

/// On every day the totals fit their words.
pub open spec fn days_fit(events: Seq<DayEvent>) -> bool {
    forall|day: Seq<char>| #[trigger] has_day(events, day) ==> totals_fit(records_on(events, day))
}

/// What has been read of the logs.
pub struct DailyScan {
    days: Vec<DailyStat>,
    since: Option<String>,
    events: Ghost<Seq<DayEvent>>,
}

fn is_too_early(day: &str, since: &Option<String>) -> (r: bool)
    ensures
        r == too_early(day@, opt_text(*since)),
{
    if let Some(s) = since {
        if !same_text(day, "unknown") {
            if let Place::Before = text_place(day, s.as_str()) {
                return true;
            }
            proof {
                if lex_less(text_rank(day@), text_rank(s@)) {
                    lemma_lex_irreflexive(text_rank(day@));
                    if lex_less(text_rank(s@), text_rank(day@)) {
                        lemma_lex_transitive(text_rank(day@), text_rank(s@), text_rank(day@));
                    }
                }
            }
        }
    }
    false
}

proof fn lemma_days_in_order(days: Seq<DailyStat>, events: Seq<DayEvent>)
    requires
        days_of(days, events),
    ensures
        in_order(days),
        forall|i: int| 0 <= i < days.len() ==> (#[trigger] days[i]).sums_up(events),
{
    reveal(days_of);
}

proof fn lemma_absent_day(days: Seq<DailyStat>, events: Seq<DayEvent>, day: Seq<char>, at: int)
    requires
        days_of(days, events),
        0 <= at <= days.len(),
        forall|i: int|
            0 <= i < at ==> lex_less(text_rank((#[trigger] days[i]).date@), text_rank(day)),
        forall|i: int|
            at <= i < days.len() ==> lex_less(
                text_rank(day),
                text_rank((#[trigger] days[i]).date@),
            ),
    ensures
        records_on(events, day) == Seq::<JsonTree>::empty(),
        sessions_on(events, day) == Set::<Seq<char>>::empty(),
{
    reveal(days_of);
    if has_day(events, day) {
        let k = choose|k: int| 0 <= k < events.len() && (#[trigger] events[k]).day == day;
        let i = choose|i: int|
            0 <= i < days.len() && (#[trigger] days[i]).date@ == events[k].day;
        lemma_lex_irreflexive(text_rank(day));
    }
    lemma_no_day(events, day);
}

impl DailyScan {
    /// The usage that has been read.
    pub closed spec fn events(&self) -> Seq<DayEvent> {
        self.events@
    }

    /// The day before which usage is passed over.
    pub closed spec fn since(&self) -> Option<Seq<char>> {
        match self.since {
            Some(s) => Some(s@),
            None => None,
        }
    }

    /// The days are what the usage adds up to.
    pub closed spec fn wf(&self) -> bool {
        days_of(self.days@, self.events@)
    }

    /// Nothing has been read. Usage on known days before `since` will be passed over.
    pub fn new(since: Option<&str>) -> (r: DailyScan)
        ensures
            r.wf(),
            r.events() == Seq::<DayEvent>::empty(),
            r.since() == ref_text(since),
    {
        let since = match since {
            Some(s) => Some(owned(s)),
            None => None,
        };
        proof {
            reveal(days_of);
        }
        DailyScan { days: Vec::new(), since, events: Ghost(Seq::empty()) }
    }

    /// Where the day `day` is or belongs, and whether it is there.
    fn find(&self, day: &str) -> (r: (bool, usize))
        requires
            in_order(self.days@),
        ensures
            r.1 <= self.days.len(),
            r.0 ==> r.1 < self.days.len() && self.days@[r.1 as int].date@ == day@,
            forall|i: int|
                0 <= i < r.1 ==> lex_less(
                    text_rank((#[trigger] self.days@[i]).date@),
                    text_rank(day@),
                ),
            !r.0 ==> forall|i: int|
                r.1 <= i < self.days.len() ==> lex_less(
                    text_rank(day@),
                    text_rank((#[trigger] self.days@[i]).date@),
                ),
    {
        let mut at: usize = 0;
        while at < self.days.len()
            invariant
                in_order(self.days@),
                at <= self.days.len(),
                forall|i: int|
                    0 <= i < at ==> lex_less(
                        text_rank((#[trigger] self.days@[i]).date@),
                        text_rank(day@),
                    ),
            decreases self.days.len() - at,
        {
            match text_place(self.days[at].date.as_str(), day) {
                Place::Before => {
                    at = at + 1;
                },
                Place::Same => {
                    return (true, at);
                },
                Place::Behind => {
                    proof {
                        assert forall|i: int| at <= i < self.days.len() implies lex_less(
                            text_rank(day@),
                            text_rank((#[trigger] self.days@[i]).date@),
                        ) by {
                            if i > at {
                                lemma_lex_transitive(
                                    text_rank(day@),
                                    text_rank(self.days@[at as int].date@),
                                    text_rank(self.days@[i].date@),
                                );
                            }
                        }
                    }
                    return (false, at);
                },
            }
        }
        (false, at)
    }

    /// Reads the value that a line of the session `sid` names. Fails where a total overflows.
    pub fn count_line(&mut self, sid: &str, obj: &Json) -> (r: Result<(), CountOverflow>)
        requires
            old(self).wf(),
        ensures
            event_of(sid@, obj@, old(self).since()) matches Some(e) ==> {
                &&& r is Ok <==> totals_fit(records_on(old(self).events().push(e), e.day))
                &&& r is Ok ==> final(self).wf() && final(self).events() == old(self).events().push(
                    e,
                )
            },
            event_of(sid@, obj@, old(self).since()) is None ==> r is Ok && final(self).wf()
                && final(self).events() == old(self).events(),
            final(self).since() == old(self).since(),
    {
        let us = usage_of_line(obj);
        if us.len() == 0 {
            return Ok(());
        }
        let day = ms_to_day(agent_ts_ms(obj));
        if is_too_early(day.as_str(), &self.since) {
            return Ok(());
        }
        self.enter(sid, day, &us)
    }

    /// Adds the records `us` of a session to a day. Fails where a total overflows.
    fn enter(&mut self, sid: &str, day: String, us: &Vec<&Json>) -> (r: Result<(), CountOverflow>)
        requires
            old(self).wf(),
        ensures
            ({
                let e = DayEvent {
                    sid: sid@,
                    day: day@,
                    records: first_of_each(ref_trees(us@)),
                };
                &&& r is Ok <==> totals_fit(records_on(old(self).events().push(e), e.day))
                &&& r is Ok ==> final(self).wf() && final(self).events() == old(self).events().push(
                    e,
                )
            }),
            final(self).since() == old(self).since(),
    {
        let ghost e = DayEvent {
            sid: sid@,
            day: day@,
            records: first_of_each(ref_trees(us@)),
        };
        let ghost before = self.events@;
        let ghost after = before.push(e);
        let ghost old_days = self.days@;
        proof {
            assert(after.drop_last() =~= before);
        }
        proof {
            lemma_days_in_order(old_days, before);
        }
        let (there, at) = self.find(day.as_str());
        let mut stat = if there {
            self.days.remove(at)
        } else {
            proof {
                lemma_absent_day(old_days, before, day@, at as int);
            }
            DailyStat {
                date: owned(day.as_str()),
                tokens: TokenBucket::new(),
                sessions: SortedSet::new(),
            }
        };
        proof {
            assert(stat.sums_up(before)) by {
                assert(stat.sessions.keys().to_set() =~= sessions_on(before, day@));
            }
        }
        if stat.add(sid, us, Ghost(records_on(before, day@))).is_err() {
            return Err(CountOverflow);
        }
        self.days.insert(at, stat);
        self.events = Ghost(after);
        proof {
            assert(self.days@ =~= if there {
                old_days.update(at as int, stat)
            } else {
                old_days.insert(at as int, stat)
            });
            lemma_day_added(old_days, before, e, at as int, there, stat, self.days@);
        }
        Ok(())
    }
}

proof fn lemma_day_added(
    old_days: Seq<DailyStat>,
    before: Seq<DayEvent>,
    e: DayEvent,
    at: int,
    there: bool,
    stat: DailyStat,
    now: Seq<DailyStat>,
)
    requires
        days_of(old_days, before),
        0 <= at <= old_days.len(),
        stat.date@ == e.day,
        stat.sums_up(before.push(e)),
        there ==> at < old_days.len() && old_days[at].date@ == e.day,
        forall|i: int|
            0 <= i < at ==> lex_less(
                text_rank((#[trigger] old_days[i]).date@),
                text_rank(e.day),
            ),
        !there ==> forall|i: int|
            at <= i < old_days.len() ==> lex_less(
                text_rank(e.day),
                text_rank((#[trigger] old_days[i]).date@),
            ),
        now == if there {
            old_days.update(at, stat)
        } else {
            old_days.insert(at, stat)
        },
    ensures
        days_of(now, before.push(e)),
{
    reveal(days_of);
    let after = before.push(e);
    assert(after.drop_last() =~= before);
    assert(after[before.len() as int] == e);
    assert forall|i: int, j: int| 0 <= i < j < now.len() implies lex_less(
        text_rank((#[trigger] now[i]).date@),
        text_rank((#[trigger] now[j]).date@),
    ) by {
        let i0 = if there || i < at { i } else { i - 1 };
        let j0 = if there || j < at { j } else { j - 1 };
        if i != at {
            assert(now[i] == old_days[i0]);
        }
        if j != at {
            assert(now[j] == old_days[j0]);
        }
        if there {
            assert(now[at].date@ == old_days[at].date@);
            assert(lex_less(text_rank(old_days[i].date@), text_rank(old_days[j].date@)));
        } else if i == at {
            assert(lex_less(text_rank(e.day), text_rank(old_days[j0].date@)));
        } else if j == at {
            assert(lex_less(text_rank(old_days[i0].date@), text_rank(e.day)));
        } else {
            assert(lex_less(text_rank(old_days[i0].date@), text_rank(old_days[j0].date@)));
        }
    }
    assert forall|i: int| 0 <= i < now.len() implies (#[trigger] now[i]).sums_up(after)
        && has_day(after, now[i].date@) by {
        if i == at {
            assert(after[before.len() as int].day == e.day);
        } else {
            let o = if there || i < at { i } else { i - 1 };
            assert(now[i] == old_days[o]);
            assert(old_days[o].sums_up(before));
            assert(has_day(before, old_days[o].date@));
            let k = choose|k: int|
                0 <= k < before.len() && (#[trigger] before[k]).day == old_days[o].date@;
            assert(after[k].day == old_days[o].date@);
            assert(now[i].date@ != e.day) by {
                lemma_lex_irreflexive(text_rank(e.day));
                if i < at {
                    assert(lex_less(
                        text_rank(now[i].date@),
                        text_rank(now[at].date@),
                    ));
                } else {
                    assert(lex_less(
                        text_rank(now[at].date@),
                        text_rank(now[i].date@),
                    ));
                }
            }
        }
    }
    assert forall|k: int| 0 <= k < after.len() implies exists|i: int|
        0 <= i < now.len() && (#[trigger] now[i]).date@ == (#[trigger] after[k]).day by {
        if k == before.len() {
            assert(now[at].date@ == after[k].day);
        } else {
            assert(after[k] == before[k]);
            let o = choose|o: int|
                0 <= o < old_days.len() && (#[trigger] old_days[o]).date@ == before[k].day;
            let i = if there || o < at { o } else { o + 1 };
            if there && o == at {
                assert(now[i].date@ == e.day);
            } else {
                assert(now[i] == old_days[o]);
            }
            assert(now[i].date@ == after[k].day);
        }
    }
}

proof fn lemma_no_day(events: Seq<DayEvent>, day: Seq<char>)
    requires
        !has_day(events, day),
    ensures
        records_on(events, day) == Seq::<JsonTree>::empty(),
        sessions_on(events, day) == Set::<Seq<char>>::empty(),
    decreases events.len(),
{
    if events.len() > 0 {
        let a = events.drop_last();
        assert(events[events.len() - 1].day != day);
        assert(!has_day(a, day)) by {
            if has_day(a, day) {
                let i = choose|i: int| 0 <= i < a.len() && (#[trigger] a[i]).day == day;
                assert(events[i].day == day);
            }
        }
        lemma_no_day(a, day);
    }
}

proof fn lemma_records_prefix(a: Seq<DayEvent>, b: Seq<DayEvent>, day: Seq<char>) -> (more: Seq<
    JsonTree,
>)
    ensures
        records_on(a + b, day) == records_on(a, day) + more,
        more == records_on(b, day),
    decreases b.len(),
{
    if b.len() == 0 {
        assert(a + b =~= a);
        let more = Seq::empty();
        assert(records_on(a, day) + more =~= records_on(a, day));
        more
    } else {
        assert((a + b).drop_last() =~= a + b.drop_last());
        let m = lemma_records_prefix(a, b.drop_last(), day);
        if b.last().day == day {
            assert((records_on(a, day) + m) + b.last().records =~= records_on(a, day) + (m
                + b.last().records));
            m + b.last().records
        } else {
            m
        }
    }
}

/// What overflows a day overflows it with more usage too.
proof fn lemma_days_prefix(a: Seq<DayEvent>, b: Seq<DayEvent>)
    requires
        days_fit(a + b),
    ensures
        days_fit(a),
{
    assert forall|day: Seq<char>| #[trigger] has_day(a, day) implies totals_fit(
        records_on(a, day),
    ) by {
        let i = choose|i: int| 0 <= i < a.len() && (#[trigger] a[i]).day == day;
        assert((a + b)[i].day == day);
        assert(has_day(a + b, day));
        let more = lemma_records_prefix(a, b, day);
        lemma_totals_prefix(records_on(a, day), more);
    }
}

proof fn lemma_days_fit(days: Seq<DailyStat>, events: Seq<DayEvent>)
    requires
        days_of(days, events),
    ensures
        days_fit(events),
{
    reveal(days_of);
    assert forall|day: Seq<char>| #[trigger] has_day(events, day) implies totals_fit(
        records_on(events, day),
    ) by {
        let k = choose|k: int| 0 <= k < events.len() && (#[trigger] events[k]).day == day;
        let i = choose|i: int|
            0 <= i < days.len() && (#[trigger] days[i]).date@ == events[k].day;
        assert(days[i].sums_up(events));
    }
}

proof fn lemma_session_prefix(
    sid: Seq<char>,
    a: Seq<Seq<char>>,
    b: Seq<Seq<char>>,
    since: Option<Seq<char>>,
) -> (more: Seq<DayEvent>)
    ensures
        session_events(sid, a + b, since) == session_events(sid, a, since) + more,
    decreases b.len(),
{
    if b.len() == 0 {
        assert(a + b =~= a);
        let more = Seq::empty();
        assert(session_events(sid, a, since) + more =~= session_events(sid, a, since));
        more
    } else {
        assert((a + b).drop_last() =~= a + b.drop_last());
        let m = lemma_session_prefix(sid, a, b.drop_last(), since);
        match line_event(sid, b.last(), since) {
            Some(e) => {
                assert((session_events(sid, a, since) + m).push(e) =~= session_events(sid, a, since)
                    + m.push(e));
                m.push(e)
            },
            None => m,
        }
    }
}

proof fn lemma_logs_prefix(
    a: Seq<SessionLog>,
    b: Seq<SessionLog>,
    since: Option<Seq<char>>,
) -> (more: Seq<DayEvent>)
    ensures
        log_events(a + b, since) == log_events(a, since) + more,
    decreases b.len(),
{
    if b.len() == 0 {
        assert(a + b =~= a);
        let more = Seq::empty();
        assert(log_events(a, since) + more =~= log_events(a, since));
        more
    } else {
        assert((a + b).drop_last() =~= a + b.drop_last());
        let m = lemma_logs_prefix(a, b.drop_last(), since);
        let es = session_events(b.last().session_id@, texts(b.last().lines@), since);
        assert((log_events(a, since) + m) + es =~= log_events(a, since) + (m + es));
        m + es
    }
}

impl DailyScan {
    /// Reads a line of the session `sid`. Fails where a total overflows.
    pub fn read_line(&mut self, sid: &str, line: &str) -> (r: Result<(), CountOverflow>)
        requires
            old(self).wf(),
        ensures
            line_event(sid@, line@, old(self).since()) matches Some(e) ==> {
                &&& r is Ok <==> totals_fit(records_on(old(self).events().push(e), e.day))
                &&& r is Ok ==> final(self).wf() && final(self).events() == old(self).events().push(
                    e,
                )
            },
            line_event(sid@, line@, old(self).since()) is None ==> r is Ok && final(self).wf()
                && final(self).events() == old(self).events(),
            final(self).since() == old(self).since(),
    {
        if !speaks_of_usage(line) {
            return Ok(());
        }
        let text = trim(line);
        match parse_json(text.as_str()) {
            Ok(obj) => self.count_line(sid, &obj),
            Err(_) => Ok(()),
        }
    }

    /// Reads the log of a session. Fails where a total overflows.
    pub fn read_session(&mut self, log: &SessionLog) -> (r: Result<(), CountOverflow>)
        requires
            old(self).wf(),
        ensures
            r is Ok <==> days_fit(
                old(self).events() + session_events(
                    log.session_id@,
                    texts(log.lines@),
                    old(self).since(),
                ),
            ),
            r is Ok ==> final(self).wf() && final(self).events() == old(self).events()
                + session_events(log.session_id@, texts(log.lines@), old(self).since()),
            final(self).since() == old(self).since(),
    {
        let ghost base = self.events();
        let ghost since = self.since();
        let ghost sid = log.session_id@;
        let ghost all = texts(log.lines@);
        assert(base + session_events(sid, all.take(0), since) =~= base);
        for i in 0..log.lines.len()
            invariant
                all == texts(log.lines@),
                sid == log.session_id@,
                base == old(self).events(),
                since == old(self).since(),
                self.wf(),
                self.since() == since,
                self.events() == base + session_events(sid, all.take(i as int), since),
        {
            let ghost before = self.events();
            assert(all.take(i as int + 1).drop_last() =~= all.take(i as int));
            if self.read_line(log.session_id.as_str(), log.lines[i].as_str()).is_err() {
                proof {
                    let e = line_event(sid, all[i as int], since)->0;
                    let a = all.take(i as int + 1);
                    let b = all.skip(i as int + 1);
                    assert(a + b =~= all);
                    let more = lemma_session_prefix(sid, a, b, since);
                    assert(base + session_events(sid, all, since) =~= before.push(e) + more);
                    if days_fit(base + session_events(sid, all, since)) {
                        lemma_days_prefix(before.push(e), more);
                        assert(before.push(e)[before.len() as int].day == e.day);
                        assert(has_day(before.push(e), e.day));
                    }
                }
                return Err(CountOverflow);
            }
            assert(self.events() =~= base + session_events(sid, all.take(i as int + 1), since));
        }
        assert(all.take(log.lines@.len() as int) =~= all);
        proof {
            lemma_days_fit(self.days@, self.events@);
        }
        Ok(())
    }

    /// The days that the usage lies on.
    pub fn finish(self) -> (r: Vec<DailyStat>)
        requires
            self.wf(),
        ensures
            days_of(r@, self.events()),
    {
        self.days
    }

    proof fn lemma_fits(&self)
        requires
            self.wf(),
        ensures
            days_fit(self.events()),
    {
        lemma_days_fit(self.days@, self.events@);
    }
}

/// The totals of each day, over the logs of some sessions, without known days before `since`.
/// Fails where a total overflows.
pub fn daily_from_raw(logs: &Vec<SessionLog>, since: Option<&str>) -> (r: Result<
    Vec<DailyStat>,
    CountOverflow,
>)
    ensures
        r is Ok <==> days_fit(log_events(logs@, ref_text(since))),
        r matches Ok(days) ==> days_of(days@, log_events(logs@, ref_text(since))),
{
    let ghost from = ref_text(since);
    let mut scan = DailyScan::new(since);
    for i in 0..logs.len()
        invariant
            from == ref_text(since),
            scan.wf(),
            scan.since() == from,
            scan.events() == log_events(logs@.take(i as int), from),
    {
        assert(logs@.take(i as int + 1).drop_last() =~= logs@.take(i as int));
        if scan.read_session(&logs[i]).is_err() {
            proof {
                let a = logs@.take(i as int + 1);
                let b = logs@.skip(i as int + 1);
                assert(a + b =~= logs@);
                let more = lemma_logs_prefix(a, b, from);
                if days_fit(log_events(logs@, from)) {
                    lemma_days_prefix(log_events(a, from), more);
                }
            }
            return Err(CountOverflow);
        }
    }
    assert(logs@.take(logs@.len() as int) =~= logs@);
    proof {
        scan.lemma_fits();
    }
    Ok(scan.finish())
}

/// The records of all usage.
pub open spec fn event_records(events: Seq<DayEvent>) -> Seq<JsonTree>
    decreases events.len(),
{
    if events.len() == 0 {
        Seq::empty()
    } else {
        event_records(events.drop_last()) + events.last().records
    }
}

/// The sum over some days of what `f` finds in their totals.
pub open spec fn days_sum(days: Seq<DailyStat>, f: spec_fn(TokenBucket) -> nat) -> nat
    decreases days.len(),
{
    if days.len() == 0 {
        0
    } else {
        days_sum(days.drop_last(), f) + f(days.last().tokens)
    }
}

/// The sum over some days of the counts under `key`.
spec fn days_total(days: Seq<DailyStat>, events: Seq<DayEvent>, key: Seq<char>) -> nat
    decreases days.len(),
{
    if days.len() == 0 {
        0
    } else {
        days_total(days.drop_last(), events, key) + total(
            records_on(events, days.last().date@),
            key,
        )
    }
}

spec fn among(days: Seq<DailyStat>, day: Seq<char>) -> bool {
    exists|i: int| 0 <= i < days.len() && (#[trigger] days[i]).date@ == day
}

proof fn lemma_days_total_step(days: Seq<DailyStat>, events: Seq<DayEvent>, key: Seq<char>)
    requires
        in_order(days),
        events.len() > 0,
    ensures
        days_total(days, events, key) == days_total(days, events.drop_last(), key) + (if among(
            days,
            events.last().day,
        ) {
            total(events.last().records, key)
        } else {
            0
        }),
    decreases days.len(),
{
    if days.len() > 0 {
        let a = days.drop_last();
        let day = events.last().day;
        assert(in_order(a)) by {
            assert forall|i: int, j: int| 0 <= i < j < a.len() implies lex_less(
                text_rank((#[trigger] a[i]).date@),
                text_rank((#[trigger] a[j]).date@),
            ) by {
                assert(lex_less(text_rank(days[i].date@), text_rank(days[j].date@)));
            }
        }
        lemma_days_total_step(a, events, key);
        if among(a, day) {
            let i = choose|i: int| 0 <= i < a.len() && (#[trigger] a[i]).date@ == day;
            assert(days[i].date@ == day);
            assert(lex_less(text_rank(days[i].date@), text_rank(days[days.len() - 1].date@)));
            lemma_lex_irreflexive(text_rank(day));
        }
        if days.last().date@ == day {
            assert(days[days.len() - 1].date@ == day);
            lemma_total_add(
                records_on(events.drop_last(), day),
                events.last().records,
                key,
            );
        } else if among(days, day) {
            let i = choose|i: int| 0 <= i < days.len() && (#[trigger] days[i]).date@ == day;
            assert(a[i].date@ == day);
        }
    }
}

proof fn lemma_days_total(days: Seq<DailyStat>, events: Seq<DayEvent>, key: Seq<char>)
    requires
        in_order(days),
        forall|k: int| 0 <= k < events.len() ==> among(days, (#[trigger] events[k]).day),
    ensures
        days_total(days, events, key) == total(event_records(events), key),
    decreases events.len(),
{
    if events.len() == 0 {
        lemma_days_total_empty(days, events, key);
    } else {
        let a = events.drop_last();
        assert forall|k: int| 0 <= k < a.len() implies among(days, (#[trigger] a[k]).day) by {
            assert(among(days, events[k].day));
        }
        lemma_days_total(days, a, key);
        assert(among(days, events[events.len() - 1].day));
        lemma_days_total_step(days, events, key);
        lemma_total_add(event_records(a), events.last().records, key);
    }
}

proof fn lemma_days_total_empty(days: Seq<DailyStat>, events: Seq<DayEvent>, key: Seq<char>)
    requires
        events.len() == 0,
    ensures
        days_total(days, events, key) == 0,
    decreases days.len(),
{
    if days.len() > 0 {
        lemma_days_total_empty(days.drop_last(), events, key);
    }
}

proof fn lemma_days_sum(
    days: Seq<DailyStat>,
    events: Seq<DayEvent>,
    f: spec_fn(TokenBucket) -> nat,
    key: Seq<char>,
)
    requires
        forall|i: int|
            0 <= i < days.len() ==> f((#[trigger] days[i]).tokens) == total(
                records_on(events, days[i].date@),
                key,
            ),
    ensures
        days_sum(days, f) == days_total(days, events, key),
    decreases days.len(),
{
    if days.len() > 0 {
        let a = days.drop_last();
        assert forall|i: int| 0 <= i < a.len() implies f((#[trigger] a[i]).tokens) == total(
            records_on(events, a[i].date@),
            key,
        ) by {
            assert(a[i] == days[i]);
        }
        lemma_days_sum(a, events, f, key);
        assert(days[days.len() - 1] == days.last());
    }
}

/// The days lose nothing and count nothing twice: over all days, each total sums up to the total
/// over the records of all usage.
pub proof fn law_days_conserve(days: Seq<DailyStat>, events: Seq<DayEvent>)
    requires
        days_of(days, events),
    ensures
        days_sum(days, |b: TokenBucket| b.input_tokens as nat) == total(
            event_records(events),
            "inputTokens"@,
        ),
        days_sum(days, |b: TokenBucket| b.output_tokens as nat) == total(
            event_records(events),
            "outputTokens"@,
        ),
        days_sum(days, |b: TokenBucket| b.total_tokens as nat) == total(
            event_records(events),
            "totalTokens"@,
        ),
        days_sum(days, |b: TokenBucket| b.cached_read_tokens as nat) == total(
            event_records(events),
            "cachedReadTokens"@,
        ),
        days_sum(days, |b: TokenBucket| b.reasoning_tokens as nat) == total(
            event_records(events),
            "reasoningTokens"@,
        ),
        days_sum(days, |b: TokenBucket| b.cost_usd_ticks as nat) == total(
            event_records(events),
            "costUsdTicks"@,
        ),
        days_sum(days, |b: TokenBucket| b.model_calls as nat) == total(
            event_records(events),
            "modelCalls"@,
        ),
{
    reveal(days_of);
    assert forall|k: int| 0 <= k < events.len() implies among(
        days,
        (#[trigger] events[k]).day,
    ) by {
        let i = choose|i: int|
            0 <= i < days.len() && (#[trigger] days[i]).date@ == events[k].day;
        assert(days[i].date@ == events[k].day);
    }
    lemma_days_total(days, events, "inputTokens"@);
    lemma_days_total(days, events, "outputTokens"@);
    lemma_days_total(days, events, "totalTokens"@);
    lemma_days_total(days, events, "cachedReadTokens"@);
    lemma_days_total(days, events, "reasoningTokens"@);
    lemma_days_total(days, events, "costUsdTicks"@);
    lemma_days_total(days, events, "modelCalls"@);
    lemma_days_sum(days, events, |b: TokenBucket| b.input_tokens as nat, "inputTokens"@);
    lemma_days_sum(days, events, |b: TokenBucket| b.output_tokens as nat, "outputTokens"@);
    lemma_days_sum(days, events, |b: TokenBucket| b.total_tokens as nat, "totalTokens"@);
    lemma_days_sum(days, events, |b: TokenBucket| b.cached_read_tokens as nat, "cachedReadTokens"@);
    lemma_days_sum(days, events, |b: TokenBucket| b.reasoning_tokens as nat, "reasoningTokens"@);
    lemma_days_sum(days, events, |b: TokenBucket| b.cost_usd_ticks as nat, "costUsdTicks"@);
    lemma_days_sum(days, events, |b: TokenBucket| b.model_calls as nat, "modelCalls"@);
}

proof fn lemma_session_not_early(
    sid: Seq<char>,
    lines: Seq<Seq<char>>,
    since: Option<Seq<char>>,
)
    ensures
        forall|k: int|
            0 <= k < session_events(sid, lines, since).len() ==> !too_early(
                (#[trigger] session_events(sid, lines, since)[k]).day,
                since,
            ),
    decreases lines.len(),
{
    if lines.len() > 0 {
        lemma_session_not_early(sid, lines.drop_last(), since);
        let a = session_events(sid, lines.drop_last(), since);
        let all = session_events(sid, lines, since);
        assert forall|k: int| 0 <= k < all.len() implies !too_early(
            (#[trigger] all[k]).day,
            since,
        ) by {
            if k < a.len() {
                assert(all[k] == a[k]);
            }
        }
    }
}

/// No usage on a known day before `since` counts.
pub proof fn law_nothing_early(logs: Seq<SessionLog>, since: Option<Seq<char>>)
    ensures
        forall|k: int|
            0 <= k < log_events(logs, since).len() ==> !too_early(
                (#[trigger] log_events(logs, since)[k]).day,
                since,
            ),
    decreases logs.len(),
{
    if logs.len() > 0 {
        law_nothing_early(logs.drop_last(), since);
        lemma_session_not_early(logs.last().session_id@, texts(logs.last().lines@), since);
        let a = log_events(logs.drop_last(), since);
        let b = session_events(logs.last().session_id@, texts(logs.last().lines@), since);
        let all = log_events(logs, since);
        assert forall|k: int| 0 <= k < all.len() implies !too_early(
            (#[trigger] all[k]).day,
            since,
        ) by {
            if k < a.len() {
                assert(all[k] == a[k]);
            } else {
                assert(all[k] == b[k - a.len()]);
            }
        }
    }
}

/// Two buckets hold the same totals.
pub open spec fn same_totals(a: TokenBucket, b: TokenBucket) -> bool {
    &&& a.input_tokens == b.input_tokens
    &&& a.output_tokens == b.output_tokens
    &&& a.total_tokens == b.total_tokens
    &&& a.cached_read_tokens == b.cached_read_tokens
    &&& a.reasoning_tokens == b.reasoning_tokens
    &&& a.cost_usd_ticks == b.cost_usd_ticks
    &&& a.charges@ == b.charges@
    &&& a.events == b.events
    &&& a.model_calls == b.model_calls
    &&& a.models.keys() == b.models.keys()
}

/// Two days are the same day, with the same totals and sessions.
pub open spec fn same_day(a: DailyStat, b: DailyStat) -> bool {
    &&& a.date@ == b.date@
    &&& same_totals(a.tokens, b.tokens)
    &&& a.sessions.keys() == b.sessions.keys()
}

/// The days that are not too early, in their order.
pub open spec fn later_days(days: Seq<DailyStat>, since: Option<Seq<char>>) -> Seq<DailyStat> {
    days.filter(|d: DailyStat| !too_early(d.date@, since))
}

/// The usage that is not too early.
spec fn later_events(events: Seq<DayEvent>, since: Option<Seq<char>>) -> Seq<DayEvent> {
    events.filter(|e: DayEvent| !too_early(e.day, since))
}

proof fn lemma_session_since(sid: Seq<char>, lines: Seq<Seq<char>>, since: Option<Seq<char>>)
    ensures
        session_events(sid, lines, since) == later_events(session_events(sid, lines, None), since),
    decreases lines.len(),
{
    reveal(Seq::filter);
    if lines.len() > 0 {
        let a = lines.drop_last();
        lemma_session_since(sid, a, since);
        let before = session_events(sid, a, None);
        if let Some(e) = line_event(sid, lines.last(), None) {
            assert(before.push(e).drop_last() =~= before);
        }
    }
}

proof fn lemma_logs_since(logs: Seq<SessionLog>, since: Option<Seq<char>>)
    ensures
        log_events(logs, since) == later_events(log_events(logs, None), since),
    decreases logs.len(),
{
    if logs.len() > 0 {
        let last = logs.last();
        let a = log_events(logs.drop_last(), None);
        let b = session_events(last.session_id@, texts(last.lines@), None);
        lemma_logs_since(logs.drop_last(), since);
        lemma_session_since(last.session_id@, texts(last.lines@), since);
        Seq::filter_distributes_over_add(a, b, |e: DayEvent| !too_early(e.day, since));
    } else {
        reveal(Seq::filter);
    }
}

proof fn lemma_later_day(events: Seq<DayEvent>, since: Option<Seq<char>>, day: Seq<char>)
    requires
        !too_early(day, since),
    ensures
        records_on(later_events(events, since), day) == records_on(events, day),
        sessions_on(later_events(events, since), day) == sessions_on(events, day),
    decreases events.len(),
{
    reveal(Seq::filter);
    if events.len() > 0 {
        let a = events.drop_last();
        lemma_later_day(a, since, day);
        if !too_early(events.last().day, since) {
            let f = later_events(a, since);
            assert(f.push(events.last()).drop_last() =~= f);
        }
    }
}

proof fn lemma_later_in_order(days: Seq<DailyStat>, since: Option<Seq<char>>)
    requires
        in_order(days),
    ensures
        in_order(later_days(days, since)),
    decreases days.len(),
{
    reveal(Seq::filter);
    if days.len() > 0 {
        let p = |d: DailyStat| !too_early(d.date@, since);
        let a = days.drop_last();
        let fa = later_days(a, since);
        let f = later_days(days, since);
        assert forall|i: int, j: int| 0 <= i < j < a.len() implies lex_less(
            text_rank((#[trigger] a[i]).date@),
            text_rank((#[trigger] a[j]).date@),
        ) by {
            assert(lex_less(text_rank(days[i].date@), text_rank(days[j].date@)));
        }
        lemma_later_in_order(a, since);
        lemma_filter_members(a, p);
        assert forall|i: int, j: int| 0 <= i < j < f.len() implies lex_less(
            text_rank((#[trigger] f[i]).date@),
            text_rank((#[trigger] f[j]).date@),
        ) by {
            assert(f[i] == fa[i]);
            if j < fa.len() {
                assert(f[j] == fa[j]);
            } else {
                assert(a.contains(fa[i]));
                let k = choose|k: int| 0 <= k < a.len() && a[k] == fa[i];
                assert(f[j] == days[days.len() - 1]);
                assert(days[k] == f[i]);
                assert(lex_less(
                    text_rank(days[k].date@),
                    text_rank(days[days.len() - 1].date@),
                ));
            }
        }
    }
}

/// The dates of some days.
spec fn dates_of(days: Seq<DailyStat>) -> Seq<Seq<char>> {
    Seq::new(days.len(), |i: int| days[i].date@)
}

proof fn lemma_dates_increase(days: Seq<DailyStat>)
    requires
        in_order(days),
    ensures
        increasing::<String>(dates_of(days)),
{
    let d = dates_of(days);
    assert forall|i: int, j: int| 0 <= i < j < d.len() implies lex_less(
        #[trigger] String::rank(d[i]),
        #[trigger] String::rank(d[j]),
    ) by {
        assert(d[i] == days[i].date@ && d[j] == days[j].date@);
        assert(lex_less(text_rank(days[i].date@), text_rank(days[j].date@)));
    }
}

proof fn lemma_days_have_usage(days: Seq<DailyStat>, events: Seq<DayEvent>)
    requires
        days_of(days, events),
    ensures
        forall|day: Seq<char>| dates_of(days).contains(day) <==> #[trigger] has_day(events, day),
{
    reveal(days_of);
    let d = dates_of(days);
    assert forall|day: Seq<char>| d.contains(day) <==> #[trigger] has_day(events, day) by {
        if d.contains(day) {
            let i = choose|i: int| 0 <= i < d.len() && d[i] == day;
            assert(has_day(events, days[i].date@));
        }
        if has_day(events, day) {
            let k = choose|k: int| 0 <= k < events.len() && (#[trigger] events[k]).day == day;
            let i = choose|i: int|
                0 <= i < days.len() && (#[trigger] days[i]).date@ == events[k].day;
            assert(d[i] == day);
        }
    }
}

/// Every line that records usage records some.
proof fn lemma_events_have_records(logs: Seq<SessionLog>, since: Option<Seq<char>>)
    ensures
        forall|k: int|
            0 <= k < log_events(logs, since).len() ==> (#[trigger] log_events(
                logs,
                since,
            )[k]).records.len() > 0,
    decreases logs.len(),
{
    if logs.len() > 0 {
        let last = logs.last();
        let a = log_events(logs.drop_last(), since);
        let b = session_events(last.session_id@, texts(last.lines@), since);
        lemma_events_have_records(logs.drop_last(), since);
        lemma_session_has_records(last.session_id@, texts(last.lines@), since);
        assert forall|k: int| 0 <= k < (a + b).len() implies (#[trigger] (a + b)[k]).records.len()
            > 0 by {
            if k < a.len() {
                assert((a + b)[k] == a[k]);
            } else {
                assert((a + b)[k] == b[k - a.len()]);
            }
        }
    }
}

proof fn lemma_session_has_records(
    sid: Seq<char>,
    lines: Seq<Seq<char>>,
    since: Option<Seq<char>>,
)
    ensures
        forall|k: int|
            0 <= k < session_events(sid, lines, since).len() ==> (#[trigger] session_events(
                sid,
                lines,
                since,
            )[k]).records.len() > 0,
    decreases lines.len(),
{
    if lines.len() > 0 {
        let a = session_events(sid, lines.drop_last(), since);
        lemma_session_has_records(sid, lines.drop_last(), since);
        if let Some(e) = line_event(sid, lines.last(), since) {
            let us = line_usage(text_tree(trimmed(lines.last()))->0);
            law_keys_differ(us);
            assert(record_keys(us).contains(key_of(us[0])));
            assert(e.records == first_of_each(us));
            assert(e.records.len() > 0);
            assert forall|k: int| 0 <= k < a.push(e).len() implies (#[trigger] a.push(
                e,
            )[k]).records.len() > 0 by {
                if k < a.len() {
                    assert(a.push(e)[k] == a[k]);
                }
            }
        }
    }
}

proof fn lemma_day_has_records(events: Seq<DayEvent>, day: Seq<char>)
    requires
        has_day(events, day),
        forall|k: int| 0 <= k < events.len() ==> (#[trigger] events[k]).records.len() > 0,
    ensures
        records_on(events, day).len() > 0,
    decreases events.len(),
{
    let a = events.drop_last();
    assert(events[events.len() - 1] == events.last());
    if events.last().day != day {
        let k = choose|k: int| 0 <= k < events.len() && (#[trigger] events[k]).day == day;
        assert(a[k].day == day);
        assert forall|k: int| 0 <= k < a.len() implies (#[trigger] a[k]).records.len() > 0 by {
            assert(events[k].records.len() > 0);
        }
        lemma_day_has_records(a, day);
    }
}

proof fn lemma_same_day(a: DailyStat, x: Seq<DayEvent>, b: DailyStat, y: Seq<DayEvent>)
    requires
        a.sums_up(x),
        b.sums_up(y),
        a.date@ == b.date@,
        records_on(x, a.date@) == records_on(y, a.date@),
        sessions_on(x, a.date@) == sessions_on(y, a.date@),
    ensures
        same_day(a, b),
{
    lemma_increasing_unique::<String>(a.tokens.models.keys(), b.tokens.models.keys());
    lemma_increasing_unique::<String>(a.sessions.keys(), b.sessions.keys());
}

/// With a first day, the days are those of all usage that are not known or not before it: the same
/// days with the same totals, in the same order. Each has usage.
pub proof fn law_since_keeps_later_days(
    logs: Seq<SessionLog>,
    since: Option<Seq<char>>,
    all: Seq<DailyStat>,
    kept: Seq<DailyStat>,
)
    requires
        days_of(all, log_events(logs, None)),
        days_of(kept, log_events(logs, since)),
    ensures
        kept.len() == later_days(all, since).len(),
        forall|i: int|
            0 <= i < kept.len() ==> same_day(#[trigger] kept[i], later_days(all, since)[i])
                && kept[i].tokens.events > 0,
{
    let x = log_events(logs, since);
    let y = log_events(logs, None);
    let p = |d: DailyStat| !too_early(d.date@, since);
    let q = |e: DayEvent| !too_early(e.day, since);
    let later = later_days(all, since);
    let dk = dates_of(kept);
    let dl = dates_of(later);
    lemma_logs_since(logs, since);
    lemma_days_in_order(all, y);
    lemma_days_in_order(kept, x);
    lemma_later_in_order(all, since);
    lemma_dates_increase(kept);
    lemma_dates_increase(later);
    lemma_days_have_usage(all, y);
    lemma_days_have_usage(kept, x);
    lemma_filter_members(all, p);
    lemma_filter_members(y, q);
    assert forall|day: Seq<char>| dk.to_set().contains(day) == dl.to_set().contains(day) by {
        if dk.contains(day) {
            assert(has_day(x, day));
            let k = choose|k: int| 0 <= k < x.len() && (#[trigger] x[k]).day == day;
            assert(q(x[k]) && y.contains(x[k]));
            let m = choose|m: int| 0 <= m < y.len() && y[m] == x[k];
            assert(y[m].day == day);
            assert(has_day(y, day));
            assert(dates_of(all).contains(day));
            let i = choose|i: int| 0 <= i < all.len() && dates_of(all)[i] == day;
            assert(p(all[i]));
            assert(later.contains(all[i]));
            let j = choose|j: int| 0 <= j < later.len() && later[j] == all[i];
            assert(dl[j] == day);
        }
        if dl.contains(day) {
            let j = choose|j: int| 0 <= j < dl.len() && dl[j] == day;
            assert(p(later[j]) && all.contains(later[j]));
            let i = choose|i: int| 0 <= i < all.len() && all[i] == later[j];
            assert(dates_of(all)[i] == day);
            assert(has_day(y, day));
            let m = choose|m: int| 0 <= m < y.len() && (#[trigger] y[m]).day == day;
            assert(q(y[m]));
            assert(x.contains(y[m]));
            let k = choose|k: int| 0 <= k < x.len() && x[k] == y[m];
            assert(x[k].day == day);
            assert(has_day(x, day));
        }
    }
    assert(dk.to_set() =~= dl.to_set());
    lemma_increasing_unique::<String>(dk, dl);
    assert(dk.len() == kept.len() && dl.len() == later.len());
    lemma_events_have_records(logs, since);
    assert forall|i: int| 0 <= i < kept.len() implies same_day(#[trigger] kept[i], later[i])
        && kept[i].tokens.events > 0 by {
        assert(dk[i] == dl[i]);
        assert(p(later[i]) && all.contains(later[i]));
        let j = choose|j: int| 0 <= j < all.len() && all[j] == later[i];
        assert(all[j].sums_up(y));
        assert(kept[i].sums_up(x));
        lemma_later_day(y, since, kept[i].date@);
        lemma_same_day(kept[i], x, later[i], y);
        assert(dk.contains(kept[i].date@));
        assert(has_day(x, kept[i].date@));
        lemma_day_has_records(x, kept[i].date@);
    }
}

} // verus!
