//! Swap routes: the optimizer's output shape, its invariants, and the
//! ranking policy.
//!
//! A route is an ordered sequence of hops from the requested input token to
//! the requested output token. Ranking orders candidate routes by score
//! (expected output minus a penalty proportional to price impact and risk)
//! descending, with lower gas estimate and then lower hop count as tie
//! breaks; the sort is stable: tied routes keep their discovery order.

use vstd::multiset::Multiset;
use vstd::prelude::*;

use crate::token::Token;

verus! {

/// Scale of fractional quantities: one million parts-per-million is 1.0.
pub const PPM_SCALE: u32 = 1_000_000;

/// Ceiling on amounts the optimizer works with, so that penalty arithmetic
/// stays inside `u128`.
pub const AMOUNT_CAP: u128 = 79228162514264337593543950336;

/// Routes whose price impact exceeds this fraction are rejected.
pub const IMPACT_CEILING_PPM: u32 = 200_000;

/// Flat gas charged per hop of a route.
pub const GAS_PER_HOP: u64 = 150_000;

/// Hop-count bound of the path search, to avoid path explosion.
pub const MAX_HOPS: usize = 2;

/// Largest venue risk score; scores live in `0 ..= MAX_RISK_SCORE`.
pub const MAX_RISK_SCORE: u8 = 100;

/// Divisor turning a risk score into a penalty fraction of the output.
pub const RISK_PENALTY_DEN: u128 = 400;

/// One hop of a route: a venue converts `amount_in` of `token_in` into at
/// least `amount_out_min` of `token_out`.
#[derive(Debug)]
pub struct SwapStep {
    pub exchange_id: String,
    pub token_in: Token,
    pub token_out: Token,
    pub fee_tier: Option<u32>,
    pub amount_in: u128,
    pub amount_out_min: u128,
}

impl Clone for SwapStep {
    fn clone(&self) -> (r: Self)
        ensures
            r == *self,
    {
        SwapStep {
            exchange_id: self.exchange_id.clone(),
            token_in: self.token_in.clone(),
            token_out: self.token_out.clone(),
            fee_tier: self.fee_tier,
            amount_in: self.amount_in,
            amount_out_min: self.amount_out_min,
        }
    }
}

/// A complete route with its aggregate figures. `price_impact_ppm` is a
/// fraction of `PPM_SCALE`; `risk_score` is a venue-reliability heuristic
/// in `0 ..= MAX_RISK_SCORE`.
#[derive(Debug)]
pub struct SwapRoute {
    pub steps: Vec<SwapStep>,
    pub amount_in: u128,
    pub expected_amount_out: u128,
    pub price_impact_ppm: u32,
    pub gas_estimate: u64,
    pub risk_score: u8,
}

/// A quote request: chain, chain-scoped token addresses, input amount in
/// base units, slippage tolerance as a fraction of `PPM_SCALE`, and an
/// optional venue allowlist.
#[derive(Debug)]
pub struct QuoteRequest {
    pub chain_id: u64,
    pub token_in: String,
    pub token_out: String,
    pub amount_in: u128,
    pub slippage_ppm: u32,
    pub exchanges: Option<Vec<String>>,
}

/// Ranked routes, best first, with optional ready-to-submit calldata.
#[derive(Debug)]
pub struct QuoteResponse {
    pub routes: Vec<SwapRoute>,
    pub tx_calldata: Option<String>,
}

/// Consecutive hops hand over the same token: `steps[i].token_out` is
/// `steps[i+1].token_in`.
pub open spec fn route_chained(r: SwapRoute) -> bool {
    forall|i: int|
        0 <= i < r.steps@.len() - 1 ==> (#[trigger] r.steps@[i]).token_out.same_key(
            r.steps@[i + 1].token_in,
        )
}

/// The route leads from `tin` to `tout`.
pub open spec fn route_connects(r: SwapRoute, tin: Token, tout: Token) -> bool {
    &&& r.steps@.len() >= 1
    &&& r.steps@[0].token_in.same_key(tin)
    &&& r.steps@[r.steps@.len() - 1].token_out.same_key(tout)
}

/// Internal consistency of a route: at least one chained hop, the route's
/// `amount_in` is the first hop's input, and the aggregate figures are in
/// their domains.
pub open spec fn route_wf(r: SwapRoute) -> bool {
    &&& r.steps@.len() >= 1
    &&& route_chained(r)
    &&& r.steps@[0].amount_in == r.amount_in
    &&& r.expected_amount_out <= AMOUNT_CAP
    &&& r.price_impact_ppm < PPM_SCALE
    &&& r.risk_score <= MAX_RISK_SCORE
}

/// Penalty subtracted from the expected output: a share proportional to
/// price impact plus a share proportional to the risk score.
pub open spec fn penalty_spec(r: SwapRoute) -> int {
    (r.expected_amount_out as int) * (r.price_impact_ppm as int) / (PPM_SCALE as int) + (
    r.expected_amount_out as int) * (r.risk_score as int) / (RISK_PENALTY_DEN as int)
}

/// Ranking score of a route: expected output minus the penalty, floored
/// at zero.
pub open spec fn score_spec(r: SwapRoute) -> int {
    if penalty_spec(r) >= r.expected_amount_out as int {
        0
    } else {
        r.expected_amount_out - penalty_spec(r)
    }
}

/// Strict ranking order: `a` must come before `b` when its score is
/// higher, or on equal score its gas estimate is lower, or on equal gas
/// its hop count is lower. Routes tied on all three may come in either
/// order, and ranking keeps their discovery order.
pub open spec fn ranks_before(a: SwapRoute, b: SwapRoute) -> bool {
    ||| score_spec(a) > score_spec(b)
    ||| (score_spec(a) == score_spec(b) && a.gas_estimate < b.gas_estimate)
    ||| (score_spec(a) == score_spec(b) && a.gas_estimate == b.gas_estimate && a.steps@.len()
        < b.steps@.len())
}

/// The list is ranked: no route strictly outranks an earlier one.
pub open spec fn ranked(s: Seq<SwapRoute>) -> bool {
    forall|i: int, j: int|
        0 <= i < j < s.len() ==> !(#[trigger] ranks_before(s[j], s[i]))
}

/// Where a newly discovered route lands among already-ranked ones: after
/// every route it does not strictly outrank.
pub open spec fn insert_pos(s: Seq<SwapRoute>, r: SwapRoute) -> int
    decreases s.len(),
{
    if s.len() == 0 {
        0
    } else if ranks_before(r, s[0]) {
        0
    } else {
        1 + insert_pos(s.drop_first(), r)
    }
}

/// Stable insertion of `r` into `s`.
pub open spec fn insert_ranked(s: Seq<SwapRoute>, r: SwapRoute) -> Seq<SwapRoute>
    decreases s.len(),
{
    if s.len() == 0 {
        seq![r]
    } else if ranks_before(r, s[0]) {
        seq![r] + s
    } else {
        seq![s[0]] + insert_ranked(s.drop_first(), r)
    }
}

/// The ranking policy as a function: stable insertion sort under
/// `ranks_before`, later discoveries inserted after earlier ties.
pub open spec fn rank_spec(s: Seq<SwapRoute>) -> Seq<SwapRoute>
    decreases s.len(),
{
    if s.len() == 0 {
        Seq::empty()
    } else {
        insert_ranked(rank_spec(s.drop_last()), s.last())
    }
}

/// The minimum acceptable output for an expected output at a slippage
/// tolerance: `amount_out × (1 − slippage)` in parts-per-million
/// arithmetic.
pub open spec fn good_min_out(amount_out: u128, slip: u32) -> int {
    (amount_out as int) * ((PPM_SCALE - slip) as int) / (PPM_SCALE as int)
}

/// Ranking score of a route, executable form.
pub fn route_score(r: &SwapRoute) -> (s: u128)
    requires
        r.expected_amount_out <= AMOUNT_CAP,
    ensures
        s as int == score_spec(*r),
{
    let out = r.expected_amount_out;
    proof {
        vstd::arithmetic::mul::lemma_mul_upper_bound(
            out as int,
            AMOUNT_CAP as int,
            r.price_impact_ppm as int,
            u32::MAX as int,
        );
        vstd::arithmetic::mul::lemma_mul_upper_bound(
            out as int,
            AMOUNT_CAP as int,
            r.risk_score as int,
            u8::MAX as int,
        );
        assert((AMOUNT_CAP as int) * (u32::MAX as int) <= u128::MAX as int);
        assert((AMOUNT_CAP as int) * (u8::MAX as int) <= u128::MAX as int);
    }
    let p1 = out * (r.price_impact_ppm as u128) / (PPM_SCALE as u128);
    let p2 = out * (r.risk_score as u128) / RISK_PENALTY_DEN;
    proof {
        vstd::arithmetic::div_mod::lemma_div_nonincreasing(
            (out as int) * (r.price_impact_ppm as int),
            PPM_SCALE as int,
        );
        vstd::arithmetic::div_mod::lemma_div_nonincreasing(
            (out as int) * (r.risk_score as int),
            RISK_PENALTY_DEN as int,
        );
        assert(p1 <= (out as int) * (r.price_impact_ppm as int));
        assert(p2 <= (out as int) * (r.risk_score as int));
    }
    let pen = p1 + p2;
    if pen >= out {
        0
    } else {
        out - pen
    }
}

/// Does `a` strictly outrank `b`?
pub fn outranks(a: &SwapRoute, b: &SwapRoute) -> (r: bool)
    requires
        a.expected_amount_out <= AMOUNT_CAP,
        b.expected_amount_out <= AMOUNT_CAP,
    ensures
        r == ranks_before(*a, *b),
{
    let sa = route_score(a);
    let sb = route_score(b);
    if sa != sb {
        sa > sb
    } else if a.gas_estimate != b.gas_estimate {
        a.gas_estimate < b.gas_estimate
    } else {
        a.steps.len() < b.steps.len()
    }
}

/// Rank candidate routes best-first: a stable sort under `ranks_before`.
/// The result is exactly `rank_spec` of the input; `lemma_rank_sorted`,
/// `lemma_rank_permutes` and `lemma_insert_ranked_stable` state the
/// ordering, permutation and stability laws of that policy.
pub fn rank_routes(routes: Vec<SwapRoute>) -> (r: Vec<SwapRoute>)
    requires
        forall|i: int|
            0 <= i < routes@.len() ==> (#[trigger] routes@[i]).expected_amount_out <= AMOUNT_CAP,
    ensures
        r@ == rank_spec(routes@),
{
    let ghost orig = routes@;
    let mut rest = routes;
    let mut out: Vec<SwapRoute> = Vec::new();
    let mut k: usize = 0;
    let n = rest.len();
    proof {
        assert(orig.take(0int) =~= Seq::<SwapRoute>::empty());
        assert(rank_spec(orig.take(0int)) =~= Seq::<SwapRoute>::empty());
    }
    while k < n
        invariant
            n == orig.len(),
            k <= n,
            rest@ =~= orig.skip(k as int),
            out@ =~= rank_spec(orig.take(k as int)),
            forall|i: int| 0 <= i < orig.len() ==> (#[trigger] orig[i]).expected_amount_out <= AMOUNT_CAP,
        decreases n - k,
    {
        proof {
            lemma_rank_spec_amounts(orig.take(k as int));
        }
        let x = rest.remove(0);
        proof {
            assert(x == orig[k as int]);
            assert(rest@ =~= orig.skip(k + 1));
        }
        let j = find_insert_pos(&out, &x);
        proof {
            lemma_insert_ranked_split(out@, x, j as int);
        }
        let ghost out_before = out@;
        out.insert(j, x);
        proof {
            assert(out@ =~= out_before.take(j as int) + seq![x] + out_before.skip(j as int));
            assert(orig.take(k + 1).drop_last() =~= orig.take(k as int));
            assert(orig.take(k + 1).last() == orig[k as int]);
            assert(out@ =~= rank_spec(orig.take(k + 1)));
        }
        k = k + 1;
    }
    proof {
        assert(orig.take(n as int) =~= orig);
    }
    out
}

/// First position in an already-ranked list whose occupant the new route
/// strictly outranks, or the length when there is none.
fn find_insert_pos(out: &Vec<SwapRoute>, x: &SwapRoute) -> (j: usize)
    requires
        x.expected_amount_out <= AMOUNT_CAP,
        forall|i: int|
            0 <= i < out@.len() ==> (#[trigger] out@[i]).expected_amount_out <= AMOUNT_CAP,
    ensures
        j <= out@.len(),
        forall|k: int| 0 <= k < j ==> !ranks_before(*x, #[trigger] out@[k]),
        j < out@.len() ==> ranks_before(*x, out@[j as int]),
{
    let m = out.len();
    let mut j: usize = 0;
    while j < m
        invariant
            m == out@.len(),
            j <= m,
            x.expected_amount_out <= AMOUNT_CAP,
            forall|i: int|
                0 <= i < out@.len() ==> (#[trigger] out@[i]).expected_amount_out <= AMOUNT_CAP,
            forall|k: int| 0 <= k < j ==> !ranks_before(*x, #[trigger] out@[k]),
        decreases m - j,
    {
        if outranks(x, &out[j]) {
            return j;
        }
        j = j + 1;
    }
    m
}

/// `insert_ranked` inserts exactly at the first position whose occupant
/// the new route strictly outranks.
proof fn lemma_insert_ranked_split(s: Seq<SwapRoute>, r: SwapRoute, j: int)
    requires
        0 <= j <= s.len(),
        forall|k: int| 0 <= k < j ==> !ranks_before(r, #[trigger] s[k]),
        j < s.len() ==> ranks_before(r, s[j]),
    ensures
        insert_ranked(s, r) =~= s.take(j) + seq![r] + s.skip(j),
    decreases s.len(),
{
    if s.len() == 0 {
        assert(insert_ranked(s, r) =~= seq![r]);
    } else if j == 0 {
        if ranks_before(r, s[0]) {
            assert(insert_ranked(s, r) =~= seq![r] + s);
        }
        assert(s.take(0int) =~= Seq::<SwapRoute>::empty());
        assert(s.skip(0int) =~= s);
    } else {
        assert(!ranks_before(r, s[0]));
        lemma_insert_ranked_split(s.drop_first(), r, j - 1);
        assert(s.take(j) =~= seq![s[0]] + s.drop_first().take(j - 1));
        assert(s.skip(j) =~= s.drop_first().skip(j - 1));
        assert(insert_ranked(s, r) =~= seq![s[0]] + insert_ranked(s.drop_first(), r));
    }
}

/// Every route `rank_spec` hands back came from the input, so its amount
/// bound carries over.
proof fn lemma_rank_spec_amounts(s: Seq<SwapRoute>)
    requires
        forall|i: int| 0 <= i < s.len() ==> (#[trigger] s[i]).expected_amount_out <= AMOUNT_CAP,
    ensures
        forall|i: int|
            0 <= i < rank_spec(s).len() ==> (#[trigger] rank_spec(s)[i]).expected_amount_out
                <= AMOUNT_CAP,
        rank_spec(s).len() == s.len(),
    decreases s.len(),
{
    if s.len() == 0 {
    } else {
        lemma_rank_spec_amounts(s.drop_last());
        lemma_insert_ranked_contents(rank_spec(s.drop_last()), s.last());
        assert forall|i: int|
            0 <= i < rank_spec(s).len() implies (#[trigger] rank_spec(s)[i]).expected_amount_out
            <= AMOUNT_CAP by {
            let x = rank_spec(s)[i];
            assert(rank_spec(s) == insert_ranked(rank_spec(s.drop_last()), s.last()));
            if x == s.last() {
                assert(s[s.len() - 1].expected_amount_out <= AMOUNT_CAP);
            } else {
                assert(rank_spec(s.drop_last()).contains(x));
                let w = choose|w: int|
                    0 <= w < rank_spec(s.drop_last()).len() && rank_spec(s.drop_last())[w] == x;
                assert(rank_spec(s.drop_last())[w].expected_amount_out <= AMOUNT_CAP);
            }
        }
    }
}

/// Everything in `insert_ranked(s, r)` is `r` or an element of `s`, and
/// the length grows by one.
proof fn lemma_insert_ranked_contents(s: Seq<SwapRoute>, r: SwapRoute)
    ensures
        insert_ranked(s, r).len() == s.len() + 1,
        forall|i: int|
            0 <= i < insert_ranked(s, r).len() ==> (#[trigger] insert_ranked(s, r)[i]) == r
                || s.contains(insert_ranked(s, r)[i]),
    decreases s.len(),
{
    if s.len() == 0 {
    } else if ranks_before(r, s[0]) {
    } else {
        lemma_insert_ranked_contents(s.drop_first(), r);
        assert forall|i: int|
            0 <= i < insert_ranked(s, r).len() implies (#[trigger] insert_ranked(s, r)[i]) == r
            || s.contains(insert_ranked(s, r)[i]) by {
            let t = seq![s[0]] + insert_ranked(s.drop_first(), r);
            assert(insert_ranked(s, r) == t);
            if i == 0 {
                assert(s.contains(s[0]));
            } else {
                let x = insert_ranked(s.drop_first(), r)[i - 1];
                assert(t[i] == x);
                if x == r {
                } else {
                    assert(s.drop_first().contains(x));
                    let w = choose|w: int| 0 <= w < s.drop_first().len() && s.drop_first()[w] == x;
                    assert(s[w + 1] == x);
                }
            }
        }
    }
}

/// Ranking law: the output of the ranking policy is ranked — no route
/// strictly outranks one placed before it.
pub proof fn lemma_rank_sorted(s: Seq<SwapRoute>)
    ensures
        ranked(rank_spec(s)),
    decreases s.len(),
{
    if s.len() == 0 {
    } else {
        lemma_rank_sorted(s.drop_last());
        lemma_insert_ranked_sorted(rank_spec(s.drop_last()), s.last());
    }
}

/// Stable insertion keeps the list ranked.
proof fn lemma_insert_ranked_sorted(s: Seq<SwapRoute>, r: SwapRoute)
    requires
        ranked(s),
    ensures
        ranked(insert_ranked(s, r)),
    decreases s.len(),
{
    if s.len() == 0 {
    } else if ranks_before(r, s[0]) {
        let t = seq![r] + s;
        assert forall|i: int, j: int| 0 <= i < j < t.len() implies !(#[trigger] ranks_before(
            t[j],
            t[i],
        )) by {
            if i == 0 {
                assert(!ranks_before(s[j - 1], s[0]));
            } else {
                assert(!ranks_before(s[j - 1], s[i - 1]));
            }
        }
    } else {
        assert(ranked(s.drop_first())) by {
            assert forall|i: int, j: int|
                0 <= i < j < s.drop_first().len() implies !(#[trigger] ranks_before(
                s.drop_first()[j],
                s.drop_first()[i],
            )) by {
                assert(!ranks_before(s[j + 1], s[i + 1]));
            }
        }
        lemma_insert_ranked_sorted(s.drop_first(), r);
        lemma_insert_ranked_contents(s.drop_first(), r);
        let t = seq![s[0]] + insert_ranked(s.drop_first(), r);
        assert forall|i: int, j: int| 0 <= i < j < t.len() implies !(#[trigger] ranks_before(
            t[j],
            t[i],
        )) by {
            if i == 0 {
                let x = insert_ranked(s.drop_first(), r)[j - 1];
                if x == r {
                    assert(!ranks_before(r, s[0]));
                } else {
                    assert(s.drop_first().contains(x));
                    let w = choose|w: int|
                        0 <= w < s.drop_first().len() && s.drop_first()[w] == x;
                    assert(!ranks_before(s[w + 1], s[0]));
                }
            } else {
                assert(!ranks_before(
                    insert_ranked(s.drop_first(), r)[j - 1],
                    insert_ranked(s.drop_first(), r)[i - 1],
                ));
            }
        }
    }
}

/// Ranking law: the ranking policy permutes its input — no route is
/// duplicated or lost.
pub proof fn lemma_rank_permutes(s: Seq<SwapRoute>)
    ensures
        rank_spec(s).to_multiset() == s.to_multiset(),
    decreases s.len(),
{
    broadcast use vstd::seq_lib::group_to_multiset_ensures;

    if s.len() == 0 {
        assert(rank_spec(s) =~= s);
    } else {
        lemma_rank_permutes(s.drop_last());
        lemma_insert_ranked_multiset(rank_spec(s.drop_last()), s.last());
        assert(s.drop_last().push(s.last()) =~= s);
        assert(s.drop_last().push(s.last()).to_multiset() =~= s.drop_last().to_multiset().insert(
            s.last(),
        ));
    }
}

/// Stable insertion adds exactly the new route to the contents.
proof fn lemma_insert_ranked_multiset(s: Seq<SwapRoute>, r: SwapRoute)
    ensures
        insert_ranked(s, r).to_multiset() == s.to_multiset().insert(r),
    decreases s.len(),
{
    broadcast use vstd::seq_lib::group_to_multiset_ensures;

    if s.len() == 0 {
        assert(insert_ranked(s, r) =~= Seq::<SwapRoute>::empty().push(r));
        assert(Seq::<SwapRoute>::empty().push(r).to_multiset() =~= s.to_multiset().insert(r));
    } else if ranks_before(r, s[0]) {
        vstd::seq_lib::lemma_multiset_commutative(seq![r], s);
        assert(seq![r].to_multiset() =~= Multiset::<SwapRoute>::empty().insert(r)) by {
            assert(seq![r] =~= Seq::<SwapRoute>::empty().push(r));
        }
        assert(insert_ranked(s, r).to_multiset() =~= s.to_multiset().insert(r));
    } else {
        lemma_insert_ranked_multiset(s.drop_first(), r);
        vstd::seq_lib::lemma_multiset_commutative(seq![s[0]], insert_ranked(s.drop_first(), r));
        vstd::seq_lib::lemma_multiset_commutative(seq![s[0]], s.drop_first());
        assert(seq![s[0]] + s.drop_first() =~= s);
        assert(seq![s[0]].to_multiset() =~= Multiset::<SwapRoute>::empty().insert(s[0])) by {
            assert(seq![s[0]] =~= Seq::<SwapRoute>::empty().push(s[0]));
        }
        assert(insert_ranked(s, r).to_multiset() =~= s.to_multiset().insert(r));
    }
}

/// Ranking keeps the input's length, and every route it hands back is
/// one of the routes handed in.
pub proof fn lemma_rank_contains(s: Seq<SwapRoute>)
    ensures
        rank_spec(s).len() == s.len(),
        forall|i: int| 0 <= i < rank_spec(s).len() ==> s.contains(#[trigger] rank_spec(s)[i]),
{
    broadcast use vstd::seq_lib::group_to_multiset_ensures;

    lemma_rank_permutes(s);
    assert(rank_spec(s).to_multiset().len() == rank_spec(s).len());
    assert(s.to_multiset().len() == s.len());
    assert forall|i: int| 0 <= i < rank_spec(s).len() implies s.contains(
        #[trigger] rank_spec(s)[i],
    ) by {
        let x = rank_spec(s)[i];
        assert(rank_spec(s).contains(x));
        assert(rank_spec(s).to_multiset().count(x) > 0);
        assert(s.to_multiset().count(x) > 0);
    }
}

/// Ranking law: ranking one more discovery is stable insertion into the
/// ranking of the earlier ones.
pub proof fn lemma_rank_spec_step(s: Seq<SwapRoute>, r: SwapRoute)
    ensures
        rank_spec(s.push(r)) == insert_ranked(rank_spec(s), r),
{
    assert(s.push(r).drop_last() =~= s);
    assert(s.push(r).last() == r);
}

/// Ranking law, stability: a route is inserted after every already-placed
/// route it does not strictly outrank, so routes tied on score, gas and
/// hop count keep their discovery order.
pub proof fn lemma_insert_ranked_stable(s: Seq<SwapRoute>, r: SwapRoute)
    ensures
        0 <= insert_pos(s, r) <= s.len(),
        insert_ranked(s, r) =~= s.take(insert_pos(s, r)) + seq![r] + s.skip(insert_pos(s, r)),
        forall|k: int| 0 <= k < insert_pos(s, r) ==> !ranks_before(r, #[trigger] s[k]),
    decreases s.len(),
{
    if s.len() == 0 {
        assert(insert_ranked(s, r) =~= seq![r]);
        assert(s.take(0int) =~= Seq::<SwapRoute>::empty());
        assert(s.skip(0int) =~= Seq::<SwapRoute>::empty());
    } else if ranks_before(r, s[0]) {
        assert(s.take(0int) =~= Seq::<SwapRoute>::empty());
        assert(s.skip(0int) =~= s);
    } else {
        lemma_insert_ranked_stable(s.drop_first(), r);
        let p = insert_pos(s.drop_first(), r);
        assert(s.take(p + 1) =~= seq![s[0]] + s.drop_first().take(p));
        assert(s.skip(p + 1) =~= s.drop_first().skip(p));
        assert(insert_ranked(s, r) =~= seq![s[0]] + insert_ranked(s.drop_first(), r));
        assert forall|k: int| 0 <= k < insert_pos(s, r) implies !ranks_before(
            r,
            #[trigger] s[k],
        ) by {
            if k > 0 {
                assert(!ranks_before(r, s.drop_first()[k - 1]));
            }
        }
    }
}

} // verus!
