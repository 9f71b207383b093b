//! List prices of the models, and what a usage record is charged at.
use crate::json::{entry_trees, json_u64, Json, JsonTree};
use crate::text::{ascii_lower_text, contains, has_part, lower, owned};
use vstd::prelude::*;

verus! {

/// Prices in hundredths of a dollar for a million tokens.
#[derive(Debug, Clone, Copy, PartialEq, Eq)]
pub struct Rates {
    pub input: u64,
    pub cached: u64,
    pub output: u64,
}

/// The number of input tokens from which on a request has a long context.
pub const LONG_CONTEXT: u64 = 200_000;

/// The prices of a model for a short and for a long context.
pub open spec fn tariff(model: Seq<char>) -> (Rates, Rates) {
    if has_part(lower(model), "grok-build-0.1"@) {
        (
            Rates { input: 100, cached: 20, output: 200 },
            Rates { input: 200, cached: 40, output: 400 },
        )
    } else if has_part(lower(model), "grok-4.3"@) {
        (
            Rates { input: 125, cached: 20, output: 250 },
            Rates { input: 250, cached: 40, output: 500 },
        )
    } else {
        (
            Rates { input: 200, cached: 30, output: 600 },
            Rates { input: 400, cached: 60, output: 1200 },
        )
    }
}

/// The prices of a model for a short and for a long context, and the number of input tokens from
/// which on the context is long.
pub fn rates_for_model(model: &str) -> (r: (Rates, Rates, u64))
    ensures
        (r.0, r.1) == tariff(model@),
        r.2 == LONG_CONTEXT,
{
    let m = ascii_lower_text(model);
    if contains(m.as_str(), "grok-build-0.1") {
        return (
            Rates { input: 100, cached: 20, output: 200 },
            Rates { input: 200, cached: 40, output: 400 },
            LONG_CONTEXT,
        );
    }
    if contains(m.as_str(), "grok-4.3") {
        return (
            Rates { input: 125, cached: 20, output: 250 },
            Rates { input: 250, cached: 40, output: 500 },
            LONG_CONTEXT,
        );
    }
    (
        Rates { input: 200, cached: 30, output: 600 },
        Rates { input: 400, cached: 60, output: 1200 },
        LONG_CONTEXT,
    )
}

/// The model that a usage record is priced by: the first of those that it names, else the default.
pub open spec fn model_of(t: JsonTree) -> Seq<char> {
    match t.field("modelUsage"@) {
        Some(JsonTree::Object(e)) => if e.len() > 0 {
            e[0].0
        } else {
            "grok-4.5"@
        },
        _ => "grok-4.5"@,
    }
}

/// The model that a usage record is priced by: the first of those that it names, else the default.
pub fn model_from_usage(u: &Json) -> (r: String)
    ensures
        r@ == model_of(u@),
{
    if let Some(mu) = u.get("modelUsage") {
        proof {
            mu.lemma_tree();
        }
        if let Json::Object(entries) = mu {
            if entries.len() > 0 {
                assert(entry_trees(entries@)[0].0 == entries@[0].0@);
                return owned(entries[0].0.as_str());
            }
        }
    }
    owned("grok-4.5")
}

/// The tokens of a usage record by the price that they have, and those prices.
#[derive(Debug, Clone, Copy, PartialEq, Eq)]
pub struct Charge {
    pub input: u64,
    pub fresh: u64,
    pub cached: u64,
    pub output: u64,
    pub rates: Rates,
}

/// What a usage record is charged at.
pub open spec fn charge_of(t: JsonTree) -> Charge {
    let input = t.count_at("inputTokens"@);
    let cached = t.count_at("cachedReadTokens"@);
    let (short, long) = tariff(model_of(t));
    Charge {
        input,
        fresh: if input >= cached {
            (input - cached) as u64
        } else {
            0
        },
        cached,
        output: t.count_at("outputTokens"@),
        rates: if input >= LONG_CONTEXT {
            long
        } else {
            short
        },
    }
}

/// What a usage record is charged at.
pub fn api_charge(u: &Json) -> (r: Charge)
    ensures
        r == charge_of(u@),
{
    let input: u64 = json_u64(u, "inputTokens");
    let output: u64 = json_u64(u, "outputTokens");
    let cached: u64 = json_u64(u, "cachedReadTokens");
    let fresh: u64 = input.saturating_sub(cached);
    let model = model_from_usage(u);
    let (short, long, threshold) = rates_for_model(model.as_str());
    let rates = if input >= threshold {
        long
    } else {
        short
    };
    Charge { input, fresh, cached, output, rates }
}

impl Charge {
    /// The price in hundredths of a dollar for a million tokens: the fresh input and the cached
    /// input each at its rate, and the output.
    pub open spec fn cost(self) -> nat {
        (self.fresh * self.rates.input + self.cached * self.rates.cached + self.output
            * self.rates.output) as nat
    }

    /// The price if all input were fresh.
    pub open spec fn cost_without_cache(self) -> nat {
        (self.input * self.rates.input + self.output * self.rates.output) as nat
    }
}

/// A model's cached input is cheaper than its fresh input, and a long context costs twice as much
/// as a short one.
pub proof fn law_tariff(model: Seq<char>)
    ensures
        tariff(model).0.cached < tariff(model).0.input,
        tariff(model).1.cached < tariff(model).1.input,
        tariff(model).1.input == 2 * tariff(model).0.input,
        tariff(model).1.cached == 2 * tariff(model).0.cached,
        tariff(model).1.output == 2 * tariff(model).0.output,
{
}

/// Where a record reads no more from the cache than it takes as input, the cache saves the
/// difference of the two rates on each token that was read from it.
pub proof fn law_cache_saves(t: JsonTree)
    requires
        t.count_at("cachedReadTokens"@) <= t.count_at("inputTokens"@),
    ensures
        charge_of(t).cost_without_cache() - charge_of(t).cost() == charge_of(t).cached * (charge_of(
            t,
        ).rates.input - charge_of(t).rates.cached),
        charge_of(t).cost() <= charge_of(t).cost_without_cache(),
{
    let c = charge_of(t);
    law_tariff(model_of(t));
    assert(c.input == c.fresh + c.cached);
    assert((c.fresh + c.cached) * c.rates.input == c.fresh * c.rates.input + c.cached
        * c.rates.input) by (nonlinear_arith);
    assert(c.cached * (c.rates.input - c.rates.cached) == c.cached * c.rates.input - c.cached
        * c.rates.cached) by (nonlinear_arith);
    assert(c.cached * (c.rates.input - c.rates.cached) >= 0) by (nonlinear_arith)
        requires
            c.cached >= 0,
            c.rates.input >= c.rates.cached,
    ;
    assert(c.fresh * c.rates.input >= 0 && c.cached * c.rates.cached >= 0 && c.output
        * c.rates.output >= 0 && c.input * c.rates.input >= 0) by (nonlinear_arith);
}

/// A record whose usage per model is an object with at least one entry is priced by the first of
/// that object's keys, also where it is the only one; a record that names no model is priced as
/// `grok-4.5`.
pub proof fn law_priced_by_the_first_model(t: JsonTree, e: Seq<(Seq<char>, JsonTree)>)
    ensures
        t.field("modelUsage"@) == Some(JsonTree::Object(e)) && e.len() >= 1
            ==> model_of(t) == e[0].0
            && (exists|i: int| 0 <= i < e.len() && #[trigger] e[i].0 == model_of(t)),
        t.field("modelUsage"@) == Some(JsonTree::Object(e)) && e.len() == 0 ==> model_of(t)
            == "grok-4.5"@,
        t.field("modelUsage"@) is None ==> model_of(t) == "grok-4.5"@,
        t.field("modelUsage"@) matches Some(m) ==> (!(m is Object) ==> model_of(t) == "grok-4.5"@),
{
}

/// What the input, the cached input and the output of a record cost, by the model that it names
/// first and by whether it takes 200000 input tokens or more. The letters of a model's name count
/// in either case.
pub proof fn law_price_list(t: JsonTree, e: Seq<(Seq<char>, JsonTree)>)
    requires
        t.field("modelUsage"@) == Some(JsonTree::Object(e)),
        e.len() >= 1,
    ensures
        ({
            let r = charge_of(t).rates;
            let many = t.count_at("inputTokens"@) >= 200_000;
            let build = has_part(lower(e[0].0), "grok-build-0.1"@);
            let older = has_part(lower(e[0].0), "grok-4.3"@);
            &&& build && !many ==> r.input == 100 && r.cached == 20 && r.output == 200
            &&& build && many ==> r.input == 200 && r.cached == 40 && r.output == 400
            &&& !build && older && !many ==> r.input == 125 && r.cached == 20 && r.output == 250
            &&& !build && older && many ==> r.input == 250 && r.cached == 40 && r.output == 500
            &&& !build && !older && !many ==> r.input == 200 && r.cached == 30 && r.output == 600
            &&& !build && !older && many ==> r.input == 400 && r.cached == 60 && r.output == 1200
        }),
{
}

/// A record is charged for the tokens that it counts: what it read from the cache at the cached
/// rate, the rest of the input at the full one, and the output. No input is counted twice.
pub proof fn law_charged_tokens(t: JsonTree)
    ensures
        charge_of(t).input == t.count_at("inputTokens"@),
        charge_of(t).cached == t.count_at("cachedReadTokens"@),
        charge_of(t).output == t.count_at("outputTokens"@),
        charge_of(t).cached <= charge_of(t).input ==> charge_of(t).fresh + charge_of(t).cached
            == charge_of(t).input,
        charge_of(t).cached > charge_of(t).input ==> charge_of(t).fresh == 0,
        charge_of(t).cost() == charge_of(t).fresh * charge_of(t).rates.input + charge_of(t).cached
            * charge_of(t).rates.cached + charge_of(t).output * charge_of(t).rates.output,
        charge_of(t).cost_without_cache() == charge_of(t).input * charge_of(t).rates.input
            + charge_of(t).output * charge_of(t).rates.output,
{
    let c = charge_of(t);
    assert(c.fresh * c.rates.input >= 0 && c.cached * c.rates.cached >= 0 && c.output
        * c.rates.output >= 0 && c.input * c.rates.input >= 0) by (nonlinear_arith);
}

} // verus!
