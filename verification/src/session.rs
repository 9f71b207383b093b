//! What the log of one session adds up to.
use crate::bucket::{law_add_usage_tallies, total, TokenBucket};
use crate::clock::{day_of, ms_to_day, ms_to_rfc3339, time_of};
use crate::json::{json_u64, Json, JsonTree};
use crate::order::SortedSet;
use crate::parse::{parse_json, text_tree};
use crate::text::{contains, has_part, owned, texts, trim, trimmed};
use crate::usage::{
    agent_ts, agent_ts_ms, get3, key_of, line_usage, ref_trees, usage_key, usage_of_line, UsageKey,
};
use vstd::prelude::*;

verus! {

/// A total does not fit its word.
#[derive(Debug, Clone, Copy, PartialEq, Eq)]
pub struct CountOverflow;

/// The text of a line speaks of usage.
pub open spec fn mentions_usage(text: Seq<char>) -> bool {
    has_part(text, "inputTokens"@) || has_part(text, "usage"@)
}

/// Whether the text of a line speaks of usage.
pub fn speaks_of_usage(text: &str) -> (r: bool)
    ensures
        r == mentions_usage(text@),
{
    contains(text, "inputTokens") || contains(text, "usage")
}

/// A line of a log: its text, and the value that the text names.
pub type LogLine = (Seq<char>, JsonTree);

/// The usage records of a line.
pub open spec fn records_of(line: LogLine) -> Seq<JsonTree> {
    if mentions_usage(line.0) {
        line_usage(line.1)
    } else {
        Seq::empty()
    }
}

/// The usage records of all lines.
pub open spec fn all_records(lines: Seq<LogLine>) -> Seq<JsonTree>
    decreases lines.len(),
{
    if lines.len() == 0 {
        Seq::empty()
    } else {
        all_records(lines.drop_last()) + records_of(lines.last())
    }
}

/// The keys of some records.
pub open spec fn record_keys(us: Seq<JsonTree>) -> Set<UsageKey> {
    Set::new(|k: UsageKey| exists|i: int| 0 <= i < us.len() && key_of(#[trigger] us[i]) == k)
}

/// Of the records with one key, the first.
pub open spec fn first_of_each(us: Seq<JsonTree>) -> Seq<JsonTree>
    decreases us.len(),
{
    if us.len() == 0 {
        Seq::empty()
    } else if record_keys(us.drop_last()).contains(key_of(us.last())) {
        first_of_each(us.drop_last())
    } else {
        first_of_each(us.drop_last()).push(us.last())
    }
}

/// The records that a session counts.
pub open spec fn session_records(lines: Seq<LogLine>) -> Seq<JsonTree> {
    first_of_each(all_records(lines))
}

/// Every total over the records fits its word.
pub open spec fn totals_fit(us: Seq<JsonTree>) -> bool {
    &&& total(us, "inputTokens"@) <= u64::MAX
    &&& total(us, "outputTokens"@) <= u64::MAX
    &&& total(us, "totalTokens"@) <= u64::MAX
    &&& total(us, "cachedReadTokens"@) <= u64::MAX
    &&& total(us, "reasoningTokens"@) <= u64::MAX
    &&& total(us, "costUsdTicks"@) <= u64::MAX
    &&& us.len() <= u64::MAX
    &&& total(us, "modelCalls"@) <= u64::MAX
}

/// The greater of two words.
pub open spec fn greater(a: u64, b: u64) -> u64 {
    if a < b {
        b
    } else {
        a
    }
}

fn max_word(a: u64, b: u64) -> (r: u64)
    ensures
        r == greater(a, b),
{
    if a < b {
        b
    } else {
        a
    }
}

/// The greatest input of a record.
pub open spec fn peak_input(us: Seq<JsonTree>) -> u64
    decreases us.len(),
{
    if us.len() == 0 {
        0
    } else {
        greater(peak_input(us.drop_last()), us.last().count_at("inputTokens"@))
    }
}

/// The latest time stamp of a line.
pub open spec fn latest(lines: Seq<LogLine>) -> Option<i64>
    decreases lines.len(),
{
    if lines.len() == 0 {
        None
    } else {
        match agent_ts(lines.last().1) {
            Some(ts) => match latest(lines.drop_last()) {
                Some(p) => Some(if p < ts {
                    ts
                } else {
                    p
                }),
                None => Some(ts),
            },
            None => latest(lines.drop_last()),
        }
    }
}

/// The size of the context that a line reports.
pub open spec fn context_of(t: JsonTree) -> Option<u64> {
    match t.at(seq!["params"@, "_meta"@, "totalTokens"@]) {
        Some(n) => n.count(),
        None => None,
    }
}

/// The sizes of the context that the lines report.
pub open spec fn contexts(lines: Seq<LogLine>) -> Seq<u64>
    decreases lines.len(),
{
    if lines.len() == 0 {
        Seq::empty()
    } else {
        match context_of(lines.last().1) {
            Some(n) => contexts(lines.drop_last()).push(n),
            None => contexts(lines.drop_last()),
        }
    }
}

/// The greatest of some words; zero where there is none.
pub open spec fn greatest(v: Seq<u64>) -> u64
    decreases v.len(),
{
    if v.len() == 0 {
        0
    } else {
        greater(greatest(v.drop_last()), v.last())
    }
}

proof fn lemma_total_prefix(us: Seq<JsonTree>, vs: Seq<JsonTree>, key: Seq<char>)
    ensures
        total(us, key) <= total(us + vs, key),
    decreases vs.len(),
{
    if vs.len() == 0 {
        assert(us + vs =~= us);
    } else {
        assert((us + vs).drop_last() =~= us + vs.drop_last());
        lemma_total_prefix(us, vs.drop_last(), key);
    }
}

/// What overflows for some records overflows for more.
pub proof fn lemma_totals_prefix(us: Seq<JsonTree>, vs: Seq<JsonTree>)
    requires
        totals_fit(us + vs),
    ensures
        totals_fit(us),
{
    lemma_total_prefix(us, vs, "inputTokens"@);
    lemma_total_prefix(us, vs, "outputTokens"@);
    lemma_total_prefix(us, vs, "totalTokens"@);
    lemma_total_prefix(us, vs, "cachedReadTokens"@);
    lemma_total_prefix(us, vs, "reasoningTokens"@);
    lemma_total_prefix(us, vs, "costUsdTicks"@);
    lemma_total_prefix(us, vs, "modelCalls"@);
}

/// The first records of more lines start with those of fewer.
pub proof fn lemma_first_prefix(us: Seq<JsonTree>, vs: Seq<JsonTree>) -> (rest: Seq<JsonTree>)
    ensures
        first_of_each(us + vs) == first_of_each(us) + rest,
    decreases vs.len(),
{
    if vs.len() == 0 {
        assert(us + vs =~= us);
        let rest = Seq::empty();
        assert(first_of_each(us) + rest =~= first_of_each(us));
        rest
    } else {
        let r = lemma_first_prefix(us, vs.drop_last());
        assert((us + vs).drop_last() =~= us + vs.drop_last());
        assert((us + vs).last() == vs.last());
        if record_keys(us + vs.drop_last()).contains(key_of(vs.last())) {
            r
        } else {
            assert((first_of_each(us) + r).push(vs.last()) =~= first_of_each(us) + r.push(
                vs.last(),
            ));
            r.push(vs.last())
        }
    }
}

/// One more record adds its key.
pub proof fn lemma_record_keys_push(us: Seq<JsonTree>, t: JsonTree)
    ensures
        record_keys(us.push(t)) == record_keys(us).insert(key_of(t)),
{
    let v = us.push(t);
    assert forall|k: UsageKey|
        record_keys(v).contains(k) == record_keys(us).insert(key_of(t)).contains(k) by {
        if record_keys(us).contains(k) {
            let i = choose|i: int| 0 <= i < us.len() && key_of(#[trigger] us[i]) == k;
            assert(v[i] == us[i]);
        }
        if k == key_of(t) {
            assert(key_of(v[us.len() as int]) == k);
        }
        if record_keys(v).contains(k) {
            let i = choose|i: int| 0 <= i < v.len() && key_of(#[trigger] v[i]) == k;
            if i < us.len() {
                assert(us[i] == v[i]);
            }
        }
    }
    assert(record_keys(v) =~= record_keys(us).insert(key_of(t)));
}

/// What has been read of a session's log.
pub struct SessionScan {
    bucket: TokenBucket,
    seen: SortedSet<UsageKey>,
    last_ts: Option<i64>,
    contexts: Vec<u64>,
    peak_input: u64,
    lines: Ghost<Seq<LogLine>>,
}

impl SessionScan {
    /// The lines that have been read.
    pub closed spec fn lines(&self) -> Seq<LogLine> {
        self.lines@
    }

    /// The scan holds what its lines add up to.
    pub closed spec fn wf(&self) -> bool {
        &&& self.seen.wf()
        &&& self.seen.keys().to_set() == record_keys(all_records(self.lines@))
        &&& self.bucket.tallies(session_records(self.lines@))
        &&& self.peak_input == peak_input(session_records(self.lines@))
        &&& self.last_ts == latest(self.lines@)
        &&& self.contexts@ == contexts(self.lines@)
    }

    /// Nothing has been read.
    pub fn new() -> (r: SessionScan)
        ensures
            r.wf(),
            r.lines() == Seq::<LogLine>::empty(),
    {
        let r = SessionScan {
            bucket: TokenBucket::new(),
            seen: SortedSet::new(),
            last_ts: None,
            contexts: Vec::new(),
            peak_input: 0,
            lines: Ghost(Seq::empty()),
        };
        proof {
            assert(r.seen.keys().to_set() =~= record_keys(Seq::empty()));
        }
        r
    }

    /// Reads a line: its text, and the value that the text names. Fails where a total overflows.
    pub fn count_line(&mut self, text: &str, obj: &Json) -> (r: Result<(), CountOverflow>)
        requires
            old(self).wf(),
        ensures
            r is Ok <==> totals_fit(session_records(old(self).lines().push((text@, obj@)))),
            r is Ok ==> final(self).wf() && final(self).lines() == old(self).lines().push(
                (text@, obj@),
            ),
    {
        let ghost before = self.lines@;
        let ghost after = before.push((text@, obj@));
        proof {
            assert(after.drop_last() =~= before);
        }
        if let Some(ts) = agent_ts_ms(obj) {
            self.last_ts = match self.last_ts {
                Some(p) => Some(if p < ts {
                    ts
                } else {
                    p
                }),
                None => Some(ts),
            };
        }
        if let Some(n) = get3(obj, "params", "_meta", "totalTokens") {
            if let Some(tokens) = n.as_count() {
                self.contexts.push(tokens);
            }
        }
        let ghost base = all_records(before);
        if speaks_of_usage(text) {
            let us = usage_of_line(obj);
            let ghost more = ref_trees(us@);
            proof {
                assert(base + more.take(0) =~= base);
            }
            for i in 0..us.len()
                invariant
                    more == ref_trees(us@),
                    all_records(after) == base + more,
                    self.seen.wf(),
                    self.seen.keys().to_set() == record_keys(base + more.take(i as int)),
                    self.bucket.tallies(first_of_each(base + more.take(i as int))),
                    self.peak_input == peak_input(first_of_each(base + more.take(i as int))),
                    self.last_ts == latest(after),
                    self.contexts@ == contexts(after),
                    old(self).lines@ == before,
                    after == before.push((text@, obj@)),
            {
                let u = us[i];
                let key = usage_key(u);
                let ghost done = base + more.take(i as int);
                let ghost next = base + more.take(i as int + 1);
                proof {
                    assert(next =~= done.push(u@));
                    assert(next.drop_last() =~= done);
                    lemma_record_keys_push(done, u@);
                    assert(self.seen.keys().contains(key) == self.seen.keys().to_set().contains(
                        key,
                    ));
                }
                if self.seen.insert(key) {
                    if !self.bucket.can_add(u) {
                        proof {
                            let tail = more.skip(i as int + 1);
                            assert(next + tail =~= base + more);
                            let rest = lemma_first_prefix(next, tail);
                            assert(first_of_each(next).drop_last() =~= first_of_each(done));
                            if totals_fit(first_of_each(base + more)) {
                                lemma_totals_prefix(first_of_each(next), rest);
                            }
                        }
                        return Err(CountOverflow);
                    }
                    self.peak_input = max_word(self.peak_input, json_u64(u, "inputTokens"));
                    let ghost bucket = self.bucket;
                    self.bucket.add_usage(u);
                    proof {
                        law_add_usage_tallies(bucket, self.bucket, first_of_each(done), u@);
                        assert(first_of_each(done).push(u@).drop_last() =~= first_of_each(done));
                    }
                }
            }
            assert(more.take(us@.len() as int) =~= more);
        } else {
            assert(all_records(after) =~= base);
        }
        self.lines = Ghost(after);
        Ok(())
    }

    /// Reads a line of the log. Lines that name no object are passed over. Fails where a total
    /// overflows.
    pub fn read_line(&mut self, line: &str) -> (r: Result<(), CountOverflow>)
        requires
            old(self).wf(),
        ensures
            line_of(line@) matches Some(l) ==> {
                &&& r is Ok <==> totals_fit(session_records(old(self).lines().push(l)))
                &&& r is Ok ==> final(self).wf() && final(self).lines() == old(self).lines().push(l)
            },
            line_of(line@) is None ==> r is Ok && *final(self) == *old(self),
    {
        let text = trim(line);
        if text.as_str().is_empty() {
            return Ok(());
        }
        match parse_json(text.as_str()) {
            Ok(obj) => {
                proof {
                    obj.lemma_tree();
                }
                match &obj {
                    Json::Object(_) => self.count_line(text.as_str(), &obj),
                    _ => Ok(()),
                }
            },
            Err(_) => Ok(()),
        }
    }

    /// What the lines that have been read add up to.
    pub fn finish(self, session_id: String, path: String, cwd: String) -> (r: SessionStat)
        requires
            self.wf(),
        ensures
            r.session_id == session_id,
            r.path == path,
            r.cwd == cwd,
            r.sums_up(self.lines()),
    {
        let mut peak: u64 = 0;
        let ghost all = self.contexts@;
        for i in 0..self.contexts.len()
            invariant
                all == self.contexts@,
                peak == greatest(all.take(i as int)),
        {
            assert(all.take(i as int + 1).drop_last() =~= all.take(i as int));
            peak = max_word(peak, self.contexts[i]);
        }
        assert(all.take(all.len() as int) =~= all);
        let first: u64 = if self.contexts.len() > 0 {
            self.contexts[0]
        } else {
            0
        };
        let last: u64 = if self.contexts.len() > 0 {
            self.contexts[self.contexts.len() - 1]
        } else {
            0
        };
        SessionStat {
            session_id,
            path,
            cwd,
            has_usage: self.bucket.events > 0,
            tokens: self.bucket,
            last_activity: ms_to_rfc3339(self.last_ts),
            last_activity_day: ms_to_day(self.last_ts),
            peak_input_tokens: self.peak_input,
            meta_peak_context: peak,
            meta_final_context: last,
            meta_first_context: first,
        }
    }
}

/// What a line of a log is read as: its text without white space at the ends, with the object
/// that it names; nothing where it names no object.
pub open spec fn line_of(line: Seq<char>) -> Option<LogLine> {
    if trimmed(line).len() == 0 {
        None
    } else {
        match text_tree(trimmed(line)) {
            Some(JsonTree::Object(e)) => Some((trimmed(line), JsonTree::Object(e))),
            _ => None,
        }
    }
}

/// What the lines of a log are read as.
pub open spec fn lines_of(lines: Seq<Seq<char>>) -> Seq<LogLine>
    decreases lines.len(),
{
    if lines.len() == 0 {
        Seq::empty()
    } else {
        match line_of(lines.last()) {
            Some(l) => lines_of(lines.drop_last()).push(l),
            None => lines_of(lines.drop_last()),
        }
    }
}

/// The totals of one session.
pub struct SessionStat {
    pub session_id: String,
    pub path: String,
    pub cwd: String,
    pub tokens: TokenBucket,
    pub last_activity: String,
    pub last_activity_day: String,
    pub peak_input_tokens: u64,
    pub meta_peak_context: u64,
    pub meta_final_context: u64,
    pub meta_first_context: u64,
    pub has_usage: bool,
}

impl SessionStat {
    /// The session is what the lines of its log add up to.
    pub open spec fn sums_up(&self, lines: Seq<LogLine>) -> bool {
        &&& self.tokens.tallies(session_records(lines))
        &&& self.last_activity@ == time_of(latest(lines))
        &&& self.last_activity_day@ == day_of(latest(lines))
        &&& self.peak_input_tokens == peak_input(session_records(lines))
        &&& self.meta_peak_context == greatest(contexts(lines))
        &&& self.meta_final_context == (if contexts(lines).len() > 0 {
            contexts(lines).last()
        } else {
            0
        })
        &&& self.meta_first_context == (if contexts(lines).len() > 0 {
            contexts(lines)[0]
        } else {
            0
        })
        &&& self.has_usage == (session_records(lines).len() > 0)
    }

    /// The greatest context, by the usage records and by the reports of the log.
    pub fn peak_context(&self) -> (r: u64)
        ensures
            r == greater(self.peak_input_tokens, self.meta_peak_context),
    {
        max_word(self.peak_input_tokens, self.meta_peak_context)
    }
}

proof fn lemma_lines_prefix(a: Seq<LogLine>, b: Seq<LogLine>)
    ensures
        all_records(a + b) == all_records(a) + all_records(b),
    decreases b.len(),
{
    if b.len() == 0 {
        assert(a + b =~= a);
        assert(all_records(a) + all_records(b) =~= all_records(a));
    } else {
        assert((a + b).drop_last() =~= a + b.drop_last());
        lemma_lines_prefix(a, b.drop_last());
        assert(all_records(a + b) =~= all_records(a) + all_records(b));
    }
}

proof fn lemma_lines_of_prefix(a: Seq<Seq<char>>, b: Seq<Seq<char>>) -> (rest: Seq<LogLine>)
    ensures
        lines_of(a + b) == lines_of(a) + rest,
    decreases b.len(),
{
    if b.len() == 0 {
        assert(a + b =~= a);
        let rest = Seq::empty();
        assert(lines_of(a) + rest =~= lines_of(a));
        rest
    } else {
        assert((a + b).drop_last() =~= a + b.drop_last());
        let r = lemma_lines_of_prefix(a, b.drop_last());
        match line_of(b.last()) {
            Some(l) => {
                assert((lines_of(a) + r).push(l) =~= lines_of(a) + r.push(l));
                r.push(l)
            },
            None => r,
        }
    }
}

/// The totals of the session whose log has the lines `lines`. Fails where a total overflows.
pub fn load_session(
    session_id: &str,
    path: &str,
    cwd: &str,
    lines: &Vec<String>,
) -> (r: Result<SessionStat, CountOverflow>)
    ensures
        r is Ok <==> totals_fit(session_records(lines_of(texts(lines@)))),
        r matches Ok(s) ==> {
            &&& s.session_id@ == session_id@
            &&& s.path@ == path@
            &&& s.cwd@ == cwd@
            &&& s.sums_up(lines_of(texts(lines@)))
        },
{
    let ghost all = texts(lines@);
    let mut scan = SessionScan::new();
    assert(lines_of(all.take(0)) =~= scan.lines());
    for i in 0..lines.len()
        invariant
            all == texts(lines@),
            scan.wf(),
            scan.lines() == lines_of(all.take(i as int)),
    {
        assert(all.take(i as int + 1).drop_last() =~= all.take(i as int));
        if scan.read_line(lines[i].as_str()).is_err() {
            proof {
                let a = all.take(i as int + 1);
                let b = all.skip(i as int + 1);
                assert(a + b =~= all);
                let rest = lemma_lines_of_prefix(a, b);
                lemma_lines_prefix(lines_of(a), rest);
                let more = lemma_first_prefix(all_records(lines_of(a)), all_records(rest));
                if totals_fit(session_records(lines_of(all))) {
                    lemma_totals_prefix(session_records(lines_of(a)), more);
                }
            }
            return Err(CountOverflow);
        }
    }
    assert(all.take(lines@.len() as int) =~= all);
    proof {
        scan.lemma_fits();
    }
    Ok(scan.finish(owned(session_id), owned(path), owned(cwd)))
}

impl SessionScan {
    /// The totals of a scan fit their words.
    pub proof fn lemma_fits(&self)
        requires
            self.wf(),
        ensures
            totals_fit(session_records(self.lines())),
    {
    }
}

/// No two records that a session counts have the same key.
pub proof fn law_keys_differ(us: Seq<JsonTree>)
    ensures
        record_keys(first_of_each(us)) == record_keys(us),
        forall|i: int, j: int|
            0 <= i < j < first_of_each(us).len() ==> key_of(#[trigger] first_of_each(us)[i])
                != key_of(#[trigger] first_of_each(us)[j]),
    decreases us.len(),
{
    if us.len() > 0 {
        let a = us.drop_last();
        law_keys_differ(a);
        lemma_record_keys_push(a, us.last());
        assert(a.push(us.last()) =~= us);
        let k = key_of(us.last());
        if record_keys(a).contains(k) {
            assert(record_keys(a).insert(k) =~= record_keys(a));
        } else {
            lemma_record_keys_push(first_of_each(a), us.last());
            assert forall|i: int, j: int| 0 <= i < j < first_of_each(us).len() implies key_of(
                #[trigger] first_of_each(us)[i],
            ) != key_of(#[trigger] first_of_each(us)[j]) by {
                assert(first_of_each(us)[i] == first_of_each(a)[i]);
                assert(record_keys(first_of_each(a)).contains(key_of(first_of_each(a)[i])));
            }
        }
    } else {
        assert(first_of_each(us) =~= us);
    }
}

/// Records whose keys have all been seen change nothing.
pub proof fn law_seen_records_change_nothing(us: Seq<JsonTree>, vs: Seq<JsonTree>)
    requires
        record_keys(vs).subset_of(record_keys(us)),
    ensures
        first_of_each(us + vs) == first_of_each(us),
        record_keys(us + vs) == record_keys(us),
    decreases vs.len(),
{
    if vs.len() == 0 {
        assert(us + vs =~= us);
    } else {
        let b = vs.drop_last();
        assert(b.push(vs.last()) =~= vs);
        lemma_record_keys_push(b, vs.last());
        assert(record_keys(b).subset_of(record_keys(us)));
        law_seen_records_change_nothing(us, b);
        assert((us + vs).drop_last() =~= us + b);
        assert((us + b).push(vs.last()) =~= us + vs);
        lemma_record_keys_push(us + b, vs.last());
        assert(record_keys(vs).contains(key_of(vs.last())));
        assert(record_keys(us).insert(key_of(vs.last())) =~= record_keys(us));
    }
}

/// The keys of a line are among those of its log.
proof fn lemma_line_keys(lines: Seq<LogLine>, i: int)
    requires
        0 <= i < lines.len(),
    ensures
        record_keys(records_of(lines[i])).subset_of(record_keys(all_records(lines))),
    decreases lines.len(),
{
    let front = all_records(lines.drop_last());
    let back = records_of(lines.last());
    let us = records_of(lines[i]);
    if i < lines.len() - 1 {
        lemma_line_keys(lines.drop_last(), i);
    }
    assert forall|k: UsageKey| record_keys(us).contains(k) implies record_keys(
        all_records(lines),
    ).contains(k) by {
        if i < lines.len() - 1 {
            assert(record_keys(front).contains(k));
            let n = choose|n: int| 0 <= n < front.len() && key_of(#[trigger] front[n]) == k;
            assert((front + back)[n] == front[n]);
        } else {
            let n = choose|n: int| 0 <= n < back.len() && key_of(#[trigger] back[n]) == k;
            assert((front + back)[front.len() + n] == back[n]);
        }
    }
}

/// A log followed by copies of some of its lines counts as much as the log.
pub proof fn law_copied_lines_count_once(lines: Seq<LogLine>, copies: Seq<LogLine>)
    requires
        forall|k: int| 0 <= k < copies.len() ==> lines.contains(#[trigger] copies[k]),
    ensures
        session_records(lines + copies) == session_records(lines),
    decreases copies.len(),
{
    if copies.len() == 0 {
        assert(lines + copies =~= lines);
    } else {
        let a = copies.drop_last();
        let all = lines + a;
        assert forall|k: int| 0 <= k < a.len() implies lines.contains(#[trigger] a[k]) by {
            assert(lines.contains(copies[k]));
        }
        law_copied_lines_count_once(lines, a);
        assert(lines.contains(copies[copies.len() - 1]));
        let i = choose|i: int| 0 <= i < lines.len() && lines[i] == copies.last();
        assert(all[i] == copies.last());
        lemma_line_keys(all, i);
        assert((lines + copies).drop_last() =~= all);
        law_seen_records_change_nothing(all_records(all), records_of(copies.last()));
    }
}

/// A log followed by a copy of one of its lines counts as much as the log.
pub proof fn law_copied_line_counts_once(lines: Seq<LogLine>, i: int)
    requires
        0 <= i < lines.len(),
    ensures
        session_records(lines.push(lines[i])) == session_records(lines),
{
    let one = Seq::empty().push(lines[i]);
    assert(lines.contains(one[0]));
    law_copied_lines_count_once(lines, one);
    assert(lines + one =~= lines.push(lines[i]));
}

/// A log in which every line occurs twice counts as much as one in which it occurs once.
pub proof fn law_repeated_log_counts_once(lines: Seq<LogLine>)
    ensures
        session_records(lines + lines) == session_records(lines),
{
    law_copied_lines_count_once(lines, lines);
}

/// The sum of what `f` finds in the keys of some records.
spec fn key_sum(us: Seq<JsonTree>, f: spec_fn(UsageKey) -> nat) -> nat
    decreases us.len(),
{
    if us.len() == 0 {
        0
    } else {
        key_sum(us.drop_last(), f) + f(key_of(us.last()))
    }
}

/// No two records have the same key.
spec fn keys_differ(us: Seq<JsonTree>) -> bool {
    forall|i: int, j: int|
        0 <= i < j < us.len() ==> key_of(#[trigger] us[i]) != key_of(#[trigger] us[j])
}

proof fn lemma_key_sum_remove(us: Seq<JsonTree>, j: int, f: spec_fn(UsageKey) -> nat)
    requires
        0 <= j < us.len(),
    ensures
        key_sum(us, f) == key_sum(us.remove(j), f) + f(key_of(us[j])),
    decreases us.len(),
{
    let a = us.drop_last();
    if j == us.len() - 1 {
        assert(us.remove(j) =~= a);
    } else {
        lemma_key_sum_remove(a, j, f);
        assert(us.remove(j).drop_last() =~= a.remove(j));
        assert(us.remove(j).last() == us.last());
    }
}

proof fn lemma_same_keys(us: Seq<JsonTree>, vs: Seq<JsonTree>, f: spec_fn(UsageKey) -> nat)
    requires
        keys_differ(us),
        keys_differ(vs),
        record_keys(us) == record_keys(vs),
    ensures
        key_sum(us, f) == key_sum(vs, f),
        us.len() == vs.len(),
    decreases us.len(),
{
    if us.len() == 0 {
        if vs.len() > 0 {
            assert(record_keys(vs).contains(key_of(vs[0])));
            assert(record_keys(us).contains(key_of(vs[0])));
        }
    } else {
        let a = us.drop_last();
        let k = key_of(us.last());
        assert(key_of(us[us.len() - 1]) == k);
        assert(record_keys(us).contains(k));
        assert(record_keys(vs).contains(k));
        let j = choose|j: int| 0 <= j < vs.len() && key_of(#[trigger] vs[j]) == k;
        let b = vs.remove(j);
        assert forall|x: UsageKey| record_keys(a).contains(x) == record_keys(b).contains(x) by {
            if record_keys(a).contains(x) {
                let i = choose|i: int| 0 <= i < a.len() && key_of(#[trigger] a[i]) == x;
                assert(us[i] == a[i]);
                assert(key_of(us[i]) != key_of(us[us.len() - 1]));
                assert(record_keys(us).contains(x));
                assert(record_keys(vs).contains(x));
                let m = choose|m: int| 0 <= m < vs.len() && key_of(#[trigger] vs[m]) == x;
                let n = if m < j { m } else { m - 1 };
                assert(b[n] == vs[m]);
            }
            if record_keys(b).contains(x) {
                let n = choose|n: int| 0 <= n < b.len() && key_of(#[trigger] b[n]) == x;
                let m = if n < j { n } else { n + 1 };
                assert(vs[m] == b[n]);
                if m < j {
                    assert(key_of(vs[m]) != key_of(vs[j]));
                } else {
                    assert(key_of(vs[j]) != key_of(vs[m]));
                }
                assert(record_keys(vs).contains(x));
                assert(record_keys(us).contains(x));
                let i = choose|i: int| 0 <= i < us.len() && key_of(#[trigger] us[i]) == x;
                assert(a[i] == us[i]);
            }
        }
        assert(record_keys(a) =~= record_keys(b));
        assert forall|p: int, q: int| 0 <= p < q < a.len() implies key_of(
            #[trigger] a[p],
        ) != key_of(#[trigger] a[q]) by {
            assert(key_of(us[p]) != key_of(us[q]));
        }
        assert forall|p: int, q: int| 0 <= p < q < b.len() implies key_of(
            #[trigger] b[p],
        ) != key_of(#[trigger] b[q]) by {
            let p0 = if p < j { p } else { p + 1 };
            let q0 = if q < j { q } else { q + 1 };
            assert(b[p] == vs[p0] && b[q] == vs[q0]);
            assert(key_of(vs[p0]) != key_of(vs[q0]));
        }
        lemma_same_keys(a, b, f);
        lemma_key_sum_remove(vs, j, f);
    }
}

proof fn lemma_total_by_keys(us: Seq<JsonTree>)
    ensures
        total(us, "inputTokens"@) == key_sum(us, |k: UsageKey| k.input as nat),
        total(us, "outputTokens"@) == key_sum(us, |k: UsageKey| k.output as nat),
        total(us, "totalTokens"@) == key_sum(us, |k: UsageKey| k.total as nat),
        total(us, "cachedReadTokens"@) == key_sum(us, |k: UsageKey| k.cached_read as nat),
        total(us, "costUsdTicks"@) == key_sum(us, |k: UsageKey| k.cost_ticks as nat),
        total(us, "modelCalls"@) == key_sum(us, |k: UsageKey| k.model_calls as nat),
    decreases us.len(),
{
    if us.len() > 0 {
        lemma_total_by_keys(us.drop_last());
    }
}

/// The counts that make up a key do not depend on the order of a session's records, nor on how
/// often one occurs: records with the same keys have the same totals.
pub proof fn law_order_does_not_matter(us: Seq<JsonTree>, vs: Seq<JsonTree>)
    requires
        record_keys(us) == record_keys(vs),
    ensures
        first_of_each(us).len() == first_of_each(vs).len(),
        total(first_of_each(us), "inputTokens"@) == total(first_of_each(vs), "inputTokens"@),
        total(first_of_each(us), "outputTokens"@) == total(first_of_each(vs), "outputTokens"@),
        total(first_of_each(us), "totalTokens"@) == total(first_of_each(vs), "totalTokens"@),
        total(first_of_each(us), "cachedReadTokens"@) == total(
            first_of_each(vs),
            "cachedReadTokens"@,
        ),
        total(first_of_each(us), "costUsdTicks"@) == total(first_of_each(vs), "costUsdTicks"@),
        total(first_of_each(us), "modelCalls"@) == total(first_of_each(vs), "modelCalls"@),
{
    let a = first_of_each(us);
    let b = first_of_each(vs);
    law_keys_differ(us);
    law_keys_differ(vs);
    lemma_total_by_keys(a);
    lemma_total_by_keys(b);
    lemma_same_keys(a, b, |k: UsageKey| k.input as nat);
    lemma_same_keys(a, b, |k: UsageKey| k.output as nat);
    lemma_same_keys(a, b, |k: UsageKey| k.total as nat);
    lemma_same_keys(a, b, |k: UsageKey| k.cached_read as nat);
    lemma_same_keys(a, b, |k: UsageKey| k.cost_ticks as nat);
    lemma_same_keys(a, b, |k: UsageKey| k.model_calls as nat);
}

} // verus!
