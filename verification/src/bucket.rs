//! Totals over usage records.
use crate::json::{entry_trees, json_u64, Json, JsonTree};
use crate::order::SortedSet;
use crate::pricing::{api_charge, charge_of, Charge};
use crate::text::owned;
use vstd::prelude::*;

verus! {

/// The sum of the counts under `key`.
pub open spec fn total(us: Seq<JsonTree>, key: Seq<char>) -> nat
    decreases us.len(),
{
    if us.len() == 0 {
        0
    } else {
        total(us.drop_last(), key) + us.last().count_at(key) as nat
    }
}

/// The keys of the entries of an object.
pub open spec fn entry_keys(e: Seq<(Seq<char>, JsonTree)>) -> Set<Seq<char>> {
    Set::new(|k: Seq<char>| exists|i: int| 0 <= i < e.len() && (#[trigger] e[i]).0 == k)
}

/// The models of a usage record: those that it names; `unknown` where it has no usage per model.
pub open spec fn models_of(t: JsonTree) -> Set<Seq<char>> {
    match t.field("modelUsage"@) {
        Some(JsonTree::Object(e)) => entry_keys(e),
        _ => Set::empty().insert("unknown"@),
    }
}

/// The models of all records.
pub open spec fn all_models(us: Seq<JsonTree>) -> Set<Seq<char>>
    decreases us.len(),
{
    if us.len() == 0 {
        Set::empty()
    } else {
        all_models(us.drop_last()).union(models_of(us.last()))
    }
}

/// What each record is charged at.
pub open spec fn charges_of(us: Seq<JsonTree>) -> Seq<Charge> {
    us.map_values(|t: JsonTree| charge_of(t))
}

/// Totals over usage records.
pub struct TokenBucket {
    pub input_tokens: u64,
    pub output_tokens: u64,
    pub total_tokens: u64,
    pub cached_read_tokens: u64,
    pub reasoning_tokens: u64,
    pub cost_usd_ticks: u64,
    /// What each record is charged at, in the order in which the records were added.
    pub charges: Vec<Charge>,
    pub events: u64,
    pub model_calls: u64,
    pub models: SortedSet<String>,
}

impl TokenBucket {
    /// The models are held in order.
    pub open spec fn wf(&self) -> bool {
        self.models.wf()
    }

    /// The bucket holds the totals over the records `us`.
    pub open spec fn tallies(&self, us: Seq<JsonTree>) -> bool {
        &&& self.wf()
        &&& self.input_tokens == total(us, "inputTokens"@)
        &&& self.output_tokens == total(us, "outputTokens"@)
        &&& self.total_tokens == total(us, "totalTokens"@)
        &&& self.cached_read_tokens == total(us, "cachedReadTokens"@)
        &&& self.reasoning_tokens == total(us, "reasoningTokens"@)
        &&& self.cost_usd_ticks == total(us, "costUsdTicks"@)
        &&& self.charges@ == charges_of(us)
        &&& self.events == us.len()
        &&& self.model_calls == total(us, "modelCalls"@)
        &&& self.models.keys().to_set() == all_models(us)
    }

    /// The bucket is `before` with the record `t` added.
    pub open spec fn adds(&self, before: &TokenBucket, t: JsonTree) -> bool {
        &&& self.wf()
        &&& self.input_tokens == before.input_tokens + t.count_at("inputTokens"@)
        &&& self.output_tokens == before.output_tokens + t.count_at("outputTokens"@)
        &&& self.total_tokens == before.total_tokens + t.count_at("totalTokens"@)
        &&& self.cached_read_tokens == before.cached_read_tokens + t.count_at("cachedReadTokens"@)
        &&& self.reasoning_tokens == before.reasoning_tokens + t.count_at("reasoningTokens"@)
        &&& self.cost_usd_ticks == before.cost_usd_ticks + t.count_at("costUsdTicks"@)
        &&& self.charges@ == before.charges@.push(charge_of(t))
        &&& self.events == before.events + 1
        &&& self.model_calls == before.model_calls + t.count_at("modelCalls"@)
        &&& self.models.keys().to_set() == before.models.keys().to_set().union(models_of(t))
    }

    /// The bucket is `before` with the totals of `o` added.
    pub open spec fn sums(&self, before: &TokenBucket, o: &TokenBucket) -> bool {
        &&& self.wf()
        &&& self.input_tokens == before.input_tokens + o.input_tokens
        &&& self.output_tokens == before.output_tokens + o.output_tokens
        &&& self.total_tokens == before.total_tokens + o.total_tokens
        &&& self.cached_read_tokens == before.cached_read_tokens + o.cached_read_tokens
        &&& self.reasoning_tokens == before.reasoning_tokens + o.reasoning_tokens
        &&& self.cost_usd_ticks == before.cost_usd_ticks + o.cost_usd_ticks
        &&& self.charges@ == before.charges@ + o.charges@
        &&& self.events == before.events + o.events
        &&& self.model_calls == before.model_calls + o.model_calls
        &&& self.models.keys().to_set() == before.models.keys().to_set().union(
            o.models.keys().to_set(),
        )
    }

    /// The empty bucket.
    pub fn new() -> (r: TokenBucket)
        ensures
            r.wf(),
            r.tallies(Seq::empty()),
    {
        let r = TokenBucket {
            input_tokens: 0,
            output_tokens: 0,
            total_tokens: 0,
            cached_read_tokens: 0,
            reasoning_tokens: 0,
            cost_usd_ticks: 0,
            charges: Vec::new(),
            events: 0,
            model_calls: 0,
            models: SortedSet::new(),
        };
        proof {
            assert(r.charges@ =~= charges_of(Seq::empty()));
            assert(r.models.keys().to_set() =~= Set::<Seq<char>>::empty());
        }
        r
    }

    /// No total of the bucket overflows when `t` is added to it.
    pub open spec fn fits(&self, t: JsonTree) -> bool {
        &&& self.input_tokens + t.count_at("inputTokens"@) <= u64::MAX
        &&& self.output_tokens + t.count_at("outputTokens"@) <= u64::MAX
        &&& self.total_tokens + t.count_at("totalTokens"@) <= u64::MAX
        &&& self.cached_read_tokens + t.count_at("cachedReadTokens"@) <= u64::MAX
        &&& self.reasoning_tokens + t.count_at("reasoningTokens"@) <= u64::MAX
        &&& self.cost_usd_ticks + t.count_at("costUsdTicks"@) <= u64::MAX
        &&& self.events + 1 <= u64::MAX
        &&& self.model_calls + t.count_at("modelCalls"@) <= u64::MAX
    }

    /// Whether no total of the bucket overflows when `u` is added to it.
    pub fn can_add(&self, u: &Json) -> (r: bool)
        ensures
            r == self.fits(u@),
    {
        json_u64(u, "inputTokens") <= u64::MAX - self.input_tokens && json_u64(u, "outputTokens")
            <= u64::MAX - self.output_tokens && json_u64(u, "totalTokens") <= u64::MAX
            - self.total_tokens && json_u64(u, "cachedReadTokens") <= u64::MAX
            - self.cached_read_tokens && json_u64(u, "reasoningTokens") <= u64::MAX
            - self.reasoning_tokens && json_u64(u, "costUsdTicks") <= u64::MAX
            - self.cost_usd_ticks && self.events < u64::MAX && json_u64(u, "modelCalls")
            <= u64::MAX - self.model_calls
    }

    /// Adds a usage record.
    pub fn add_usage(&mut self, u: &Json)
        requires
            old(self).wf(),
            old(self).fits(u@),
        ensures
            final(self).adds(old(self), u@),
    {
        self.input_tokens = self.input_tokens + json_u64(u, "inputTokens");
        self.output_tokens = self.output_tokens + json_u64(u, "outputTokens");
        self.total_tokens = self.total_tokens + json_u64(u, "totalTokens");
        self.cached_read_tokens = self.cached_read_tokens + json_u64(u, "cachedReadTokens");
        self.reasoning_tokens = self.reasoning_tokens + json_u64(u, "reasoningTokens");
        self.cost_usd_ticks = self.cost_usd_ticks + json_u64(u, "costUsdTicks");
        self.charges.push(api_charge(u));
        self.events = self.events + 1;
        self.model_calls = self.model_calls + json_u64(u, "modelCalls");
        add_models(&mut self.models, u);
    }

    /// No total of the bucket overflows when those of `o` are added to it.
    pub open spec fn fits_with(&self, o: &TokenBucket) -> bool {
        &&& self.input_tokens + o.input_tokens <= u64::MAX
        &&& self.output_tokens + o.output_tokens <= u64::MAX
        &&& self.total_tokens + o.total_tokens <= u64::MAX
        &&& self.cached_read_tokens + o.cached_read_tokens <= u64::MAX
        &&& self.reasoning_tokens + o.reasoning_tokens <= u64::MAX
        &&& self.cost_usd_ticks + o.cost_usd_ticks <= u64::MAX
        &&& self.events + o.events <= u64::MAX
        &&& self.model_calls + o.model_calls <= u64::MAX
    }

    /// Whether no total of the bucket overflows when those of `o` are added to it.
    pub fn can_merge(&self, o: &TokenBucket) -> (r: bool)
        ensures
            r == self.fits_with(o),
    {
        o.input_tokens <= u64::MAX - self.input_tokens && o.output_tokens <= u64::MAX
            - self.output_tokens && o.total_tokens <= u64::MAX - self.total_tokens
            && o.cached_read_tokens <= u64::MAX - self.cached_read_tokens && o.reasoning_tokens
            <= u64::MAX - self.reasoning_tokens && o.cost_usd_ticks <= u64::MAX
            - self.cost_usd_ticks && o.events <= u64::MAX - self.events && o.model_calls
            <= u64::MAX - self.model_calls
    }

    /// Adds the totals of another bucket.
    pub fn merge(&mut self, o: &TokenBucket)
        requires
            old(self).wf(),
            old(self).fits_with(o),
        ensures
            final(self).sums(old(self), o),
    {
        self.input_tokens = self.input_tokens + o.input_tokens;
        self.output_tokens = self.output_tokens + o.output_tokens;
        self.total_tokens = self.total_tokens + o.total_tokens;
        self.cached_read_tokens = self.cached_read_tokens + o.cached_read_tokens;
        self.reasoning_tokens = self.reasoning_tokens + o.reasoning_tokens;
        self.cost_usd_ticks = self.cost_usd_ticks + o.cost_usd_ticks;
        extend_charges(&mut self.charges, &o.charges);
        self.events = self.events + o.events;
        self.model_calls = self.model_calls + o.model_calls;
        extend_set(&mut self.models, &o.models);
    }

    /// The input that did not come from the cache.
    pub open spec fn fresh(&self) -> nat {
        if self.input_tokens >= self.cached_read_tokens {
            (self.input_tokens - self.cached_read_tokens) as nat
        } else {
            0
        }
    }

    /// The input that did not come from the cache.
    pub fn fresh_input_tokens(&self) -> (r: u64)
        ensures
            r == self.fresh(),
    {
        self.input_tokens.saturating_sub(self.cached_read_tokens)
    }

    /// The fresh input and the output can be added.
    pub open spec fn adds_up(&self) -> bool {
        self.fresh() + self.output_tokens <= u64::MAX
    }

    /// Whether the fresh input and the output can be added.
    pub fn can_add_up(&self) -> (r: bool)
        ensures
            r == self.adds_up(),
    {
        self.output_tokens <= u64::MAX - self.fresh_input_tokens()
    }

    /// The tokens without those from the cache.
    pub fn total_without_cache(&self) -> (r: u64)
        requires
            self.adds_up(),
        ensures
            r == self.fresh() + self.output_tokens,
    {
        self.fresh_input_tokens() + self.output_tokens
    }
}

/// Puts the models of a usage record into a set.
fn add_models(models: &mut SortedSet<String>, u: &Json)
    requires
        old(models).wf(),
    ensures
        final(models).wf(),
        final(models).keys().to_set() == old(models).keys().to_set().union(models_of(u@)),
{
    let ghost start = models.keys().to_set();
    if let Some(mu) = u.get("modelUsage") {
        proof {
            mu.lemma_tree();
        }
        if let Json::Object(entries) = mu {
            let ghost e = entry_trees(entries@);
            assert(start.union(entry_keys(e.take(0))) =~= start);
            for i in 0..entries.len()
                invariant
                    models.wf(),
                    e == entry_trees(entries@),
                    models.keys().to_set() == start.union(entry_keys(e.take(i as int))),
            {
                let key = owned(entries[i].0.as_str());
                models.insert(key);
                proof {
                    let a = e.take(i as int);
                    let b = e.take(i as int + 1);
                    let k = entries@[i as int].0@;
                    assert(b[i as int].0 == k);
                    assert forall|x: Seq<char>|
                        entry_keys(b).contains(x) == entry_keys(a).insert(k).contains(x) by {
                        if entry_keys(a).contains(x) {
                            let j = choose|j: int| 0 <= j < a.len() && (#[trigger] a[j]).0 == x;
                            assert(b[j].0 == x);
                        }
                        if entry_keys(b).contains(x) {
                            let j = choose|j: int| 0 <= j < b.len() && (#[trigger] b[j]).0 == x;
                            if j < i {
                                assert(a[j].0 == x);
                            }
                        }
                    }
                    assert(models.keys().to_set() =~= start.union(entry_keys(b)));
                }
            }
            assert(e.take(entries@.len() as int) =~= e);
            return;
        }
    }
    models.insert(owned("unknown"));
    assert(models.keys().to_set() =~= start.union(models_of(u@)));
}

fn extend_charges(v: &mut Vec<Charge>, more: &Vec<Charge>)
    ensures
        final(v)@ == old(v)@ + more@,
{
    let ghost start = v@;
    for i in 0..more.len()
        invariant
            v@ == start + more@.take(i as int),
    {
        v.push(more[i]);
        assert(v@ =~= start + more@.take(i as int + 1));
    }
    assert(more@.take(more@.len() as int) =~= more@);
}

/// Puts the keys of `more` into a set.
pub fn extend_set(v: &mut SortedSet<String>, more: &SortedSet<String>)
    requires
        old(v).wf(),
    ensures
        final(v).wf(),
        final(v).keys().to_set() == old(v).keys().to_set().union(more.keys().to_set()),
{
    let ghost start = v.keys().to_set();
    assert(start.union(more.keys().take(0).to_set()) =~= start);
    for i in 0..more.items.len()
        invariant
            v.wf(),
            v.keys().to_set() == start.union(more.keys().take(i as int).to_set()),
    {
        v.insert(owned(more.items[i].as_str()));
        proof {
            let a = more.keys().take(i as int);
            let b = more.keys().take(i as int + 1);
            assert(b =~= a.push(more.keys()[i as int]));
            assert forall|x: Seq<char>| b.to_set().contains(x) == a.to_set().insert(
                more.keys()[i as int],
            ).contains(x) by {
                if a.contains(x) {
                    let j = choose|j: int| 0 <= j < a.len() && a[j] == x;
                    assert(b[j] == x);
                }
                if x == more.keys()[i as int] {
                    assert(b[i as int] == x);
                }
            }
            assert(v.keys().to_set() =~= start.union(b.to_set()));
        }
    }
    assert(more.keys().take(more.items@.len() as int) =~= more.keys());
}

/// The totals over two lists of records are the sums of their totals.
pub proof fn lemma_total_add(us: Seq<JsonTree>, vs: Seq<JsonTree>, key: Seq<char>)
    ensures
        total(us + vs, key) == total(us, key) + total(vs, key),
    decreases vs.len(),
{
    if vs.len() == 0 {
        assert(us + vs =~= us);
    } else {
        assert((us + vs).drop_last() =~= us + vs.drop_last());
        lemma_total_add(us, vs.drop_last(), key);
    }
}

/// The models of two lists of records are those of either.
pub proof fn lemma_models_add(us: Seq<JsonTree>, vs: Seq<JsonTree>)
    ensures
        all_models(us + vs) == all_models(us).union(all_models(vs)),
    decreases vs.len(),
{
    if vs.len() == 0 {
        assert(us + vs =~= us);
        assert(all_models(us).union(all_models(vs)) =~= all_models(us));
    } else {
        assert((us + vs).drop_last() =~= us + vs.drop_last());
        lemma_models_add(us, vs.drop_last());
        assert(all_models(us + vs) =~= all_models(us).union(all_models(vs)));
    }
}

/// Adding a record to a bucket makes it tally that record too.
pub proof fn law_add_usage_tallies(
    before: TokenBucket,
    after: TokenBucket,
    us: Seq<JsonTree>,
    t: JsonTree,
)
    requires
        before.tallies(us),
        after.adds(&before, t),
    ensures
        after.tallies(us.push(t)),
{
    assert(us.push(t).drop_last() =~= us);
    assert(charges_of(us.push(t)) =~= charges_of(us).push(charge_of(t)));
}

/// Merging two buckets makes the first tally the records of both.
pub proof fn law_merge_tallies(
    before: TokenBucket,
    other: TokenBucket,
    after: TokenBucket,
    us: Seq<JsonTree>,
    vs: Seq<JsonTree>,
)
    requires
        before.tallies(us),
        other.tallies(vs),
        after.sums(&before, &other),
    ensures
        after.tallies(us + vs),
{
    lemma_total_add(us, vs, "inputTokens"@);
    lemma_total_add(us, vs, "outputTokens"@);
    lemma_total_add(us, vs, "totalTokens"@);
    lemma_total_add(us, vs, "cachedReadTokens"@);
    lemma_total_add(us, vs, "reasoningTokens"@);
    lemma_total_add(us, vs, "costUsdTicks"@);
    lemma_total_add(us, vs, "modelCalls"@);
    lemma_models_add(us, vs);
    assert(charges_of(us + vs) =~= charges_of(us) + charges_of(vs));
}

} // verus!
