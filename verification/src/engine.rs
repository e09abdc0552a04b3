//! The route optimizer: token/venue registry, price-cache consultation,
//! best-first candidate discovery with a hop bound of two, and ranking.
//!
//! The engine never branches on a venue type: it talks to adapters only
//! through the `LiquiditySource` capability interface. A failed or
//! implausible adapter answer prunes the edge; pruning everything yields
//! `InsufficientLiquidity`, and surviving paths that all violate the
//! impact ceiling yield `PriceImpactTooHigh`.

use vstd::prelude::*;

use crate::cache::PriceCache;
use crate::errors::RouterError;
use crate::routes::AMOUNT_CAP;
use crate::routes::GAS_PER_HOP;
use crate::routes::IMPACT_CEILING_PPM;
use crate::routes::MAX_HOPS;
use crate::routes::MAX_RISK_SCORE;
use crate::routes::PPM_SCALE;
use crate::routes::QuoteRequest;
use crate::routes::QuoteResponse;
use crate::routes::SwapRoute;
use crate::routes::SwapStep;
use crate::routes::good_min_out;
use crate::routes::lemma_rank_contains;
use crate::routes::lemma_rank_sorted;
use crate::routes::rank_routes;
use crate::routes::rank_spec;
use crate::routes::ranked;
use crate::routes::route_connects;
use crate::routes::route_wf;
use crate::token::Exchange;
use crate::token::Token;

verus! {

/// Capability interface of a liquidity venue adapter; one implementation
/// per venue type (constant-product AMM, concentrated liquidity, order
/// book, ...), supplied by the embedding. `get_quote` converts an input
/// amount into the expected output amount and a price-impact fraction in
/// parts-per-million; `get_reserves` reports the pair's current depth.
pub trait LiquiditySource {
    fn get_quote(&self, token_in: &Token, token_out: &Token, amount_in: u128) -> Result<
        (u128, u32),
        RouterError,
    >;

    fn get_reserves(&self, token_a: &Token, token_b: &Token) -> Result<
        (u128, u128),
        RouterError,
    >;
}

/// A registered venue: its descriptor and its adapter.
pub struct VenueEntry<S> {
    pub venue: Exchange,
    pub source: S,
}

/// A validated edge quote: output amount, impact and venue risk.
pub struct EdgeFig {
    pub amount_out: u128,
    pub impact_ppm: u32,
    pub risk: u8,
}

/// First registered token with the given chain and address.
pub open spec fn spec_find_token(toks: Seq<Token>, chain_id: u64, addr: Seq<char>) -> Option<
    Token,
>
    decreases toks.len(),
{
    if toks.len() == 0 {
        None
    } else if toks[0].chain_id == chain_id && toks[0].address@ == addr {
        Some(toks[0])
    } else {
        spec_find_token(toks.drop_first(), chain_id, addr)
    }
}

/// Venue risk heuristic from reserve depth relative to the trade size:
/// deeper reserves mean lower risk; at a depth of a hundred times the
/// trade the risk bottoms out at zero.
pub open spec fn risk_of_depth(reserve: u128, amount: u128) -> int {
    let ratio = reserve as int / amount as int;
    if ratio >= 100 {
        0
    } else {
        100 - ratio
    }
}

/// The risk heuristic the optimizer applies to a surviving edge.
pub fn risk_from_depth(reserve: u128, amount: u128) -> (r: u8)
    requires
        amount >= 1,
        reserve >= 2 * amount,
    ensures
        r as int == risk_of_depth(reserve, amount),
        r <= MAX_RISK_SCORE,
{
    let ratio = reserve / amount;
    if ratio >= 100 {
        0
    } else {
        (100 - ratio) as u8
    }
}

/// Risk law: the risk score is monotonic non-increasing in liquidity
/// depth — a deeper pool never scores riskier.
pub proof fn lemma_risk_monotonic(r1: u128, r2: u128, amount: u128)
    requires
        r1 <= r2,
        amount >= 1,
    ensures
        risk_of_depth(r2, amount) <= risk_of_depth(r1, amount),
{
    vstd::arithmetic::div_mod::lemma_div_is_ordered(r1 as int, r2 as int, amount as int);
}

/// Everything `find_routes` promises of each route it returns for a
/// request asking to swap `amount` of `tin` into `tout` at slippage
/// `slip`.
pub open spec fn good_route(rt: SwapRoute, tin: Token, tout: Token, amount: u128, slip: u32) -> bool {
    &&& route_wf(rt)
    &&& route_connects(rt, tin, tout)
    &&& rt.amount_in == amount
    &&& rt.price_impact_ppm <= IMPACT_CEILING_PPM
    &&& rt.steps@[rt.steps@.len() - 1].amount_out_min == good_min_out(
        rt.expected_amount_out,
        slip,
    )
    &&& forall|i: int|
        0 <= i < rt.steps@.len() - 1 ==> (#[trigger] rt.steps@[i]).amount_out_min == good_min_out(
            rt.steps@[i + 1].amount_in,
            slip,
        )
}

/// The id occurs in the list.
pub open spec fn id_in_list(id: Seq<char>, list: Seq<String>) -> bool {
    exists|i: int| 0 <= i < list.len() && (#[trigger] list[i])@ == id
}

/// The venue is admitted by the request's optional allowlist.
pub open spec fn venue_admitted(id: Seq<char>, allow: Option<Vec<String>>) -> bool {
    match allow {
        None => true,
        Some(list) => id_in_list(id, list@),
    }
}

/// The venue serves the request: right chain, admitted by the allowlist.
pub open spec fn venue_usable(v: Exchange, req: QuoteRequest) -> bool {
    v.chain_id == req.chain_id && venue_admitted(v.id@, req.exchanges)
}

/// No registered venue serves the request.
pub open spec fn no_usable_venue<S>(venues: Seq<VenueEntry<S>>, req: QuoteRequest) -> bool {
    forall|i: int| 0 <= i < venues.len() ==> !venue_usable((#[trigger] venues[i]).venue, req)
}

/// The hop's tokens are registered on the requested chain and its venue
/// is a registered venue on that chain, admitted by the allowlist.
pub open spec fn step_from_registry<S>(
    st: SwapStep,
    toks: Seq<Token>,
    venues: Seq<VenueEntry<S>>,
    req: QuoteRequest,
) -> bool {
    &&& st.token_in.chain_id == req.chain_id
    &&& st.token_out.chain_id == req.chain_id
    &&& spec_find_token(toks, req.chain_id, st.token_in.address@) is Some
    &&& spec_find_token(toks, req.chain_id, st.token_out.address@) is Some
    &&& exists|w: int|
        0 <= w < venues.len() && (#[trigger] venues[w]).venue.id@ == st.exchange_id@
            && venues[w].venue.chain_id == req.chain_id
    &&& venue_admitted(st.exchange_id@, req.exchanges)
}

/// Every hop of the route comes from the registry the request was asked
/// against, and the hop count respects the search bound.
pub open spec fn route_from_registry<S>(
    rt: SwapRoute,
    toks: Seq<Token>,
    venues: Seq<VenueEntry<S>>,
    req: QuoteRequest,
) -> bool {
    &&& rt.steps@.len() <= MAX_HOPS
    &&& forall|i: int|
        0 <= i < rt.steps@.len() ==> step_from_registry(
            #[trigger] rt.steps@[i],
            toks,
            venues,
            req,
        )
}

/// The request names tokens that are both registered on the requested
/// chain: exactly the condition whose failure is a `ConfigError`.
pub open spec fn request_tokens_ok(toks: Seq<Token>, req: QuoteRequest) -> bool {
    &&& spec_find_token(toks, req.chain_id, req.token_in@) is Some
    &&& spec_find_token(toks, req.chain_id, req.token_out@) is Some
}

/// The requested input token (meaningful when `request_tokens_ok`).
pub open spec fn spec_token_in(toks: Seq<Token>, req: QuoteRequest) -> Token {
    spec_find_token(toks, req.chain_id, req.token_in@)->Some_0
}

/// The requested output token (meaningful when `request_tokens_ok`).
pub open spec fn spec_token_out(toks: Seq<Token>, req: QuoteRequest) -> Token {
    spec_find_token(toks, req.chain_id, req.token_out@)->Some_0
}

/// The aggregation router: venue adapters, the token registry and the
/// shared price cache.
pub struct RouterEngine<S> {
    liquidity_sources: Vec<VenueEntry<S>>,
    tokens: Vec<Token>,
    price_cache: PriceCache,
}

impl<S: LiquiditySource> RouterEngine<S> {
    /// Registered tokens, in registration order.
    pub closed spec fn spec_tokens(self) -> Seq<Token> {
        self.tokens@
    }

    /// Registered venues, in registration order.
    pub closed spec fn spec_venues(self) -> Seq<VenueEntry<S>> {
        self.liquidity_sources@
    }

    /// One adapter instance per venue id: ids never repeat.
    pub open spec fn venues_unique(self) -> bool {
        forall|i: int, j: int|
            0 <= i < j < self.spec_venues().len() ==> (#[trigger] self.spec_venues()[i]).venue.id@
                != (#[trigger] self.spec_venues()[j]).venue.id@
    }

    pub fn new() -> (r: Self)
        ensures
            r.spec_tokens() == Seq::<Token>::empty(),
            r.spec_venues() == Seq::<VenueEntry<S>>::empty(),
            r.venues_unique(),
    {
        let r = RouterEngine {
            liquidity_sources: Vec::new(),
            tokens: Vec::new(),
            price_cache: PriceCache::new(),
        };
        proof {
            assert(r.spec_tokens() =~= Seq::<Token>::empty());
            assert(r.spec_venues() =~= Seq::<VenueEntry<S>>::empty());
        }
        r
    }

    /// Register a venue adapter under its descriptor: one adapter
    /// instance per venue id, so a registration under an already-known id
    /// replaces that venue's adapter; other ids are untouched.
    pub fn register_liquidity_source(&mut self, venue: Exchange, source: S)
        requires
            old(self).venues_unique(),
        ensures
            final(self).spec_tokens() == old(self).spec_tokens(),
            final(self).venues_unique(),
            (exists|i: int|
                0 <= i < old(self).spec_venues().len() && (#[trigger] old(
                    self,
                ).spec_venues()[i]).venue.id@ == venue.id@ && final(self).spec_venues() == old(
                    self,
                ).spec_venues().update(i, VenueEntry { venue, source })) || ((forall|i: int|
                0 <= i < old(self).spec_venues().len() ==> (#[trigger] old(
                    self,
                ).spec_venues()[i]).venue.id@ != venue.id@) && final(self).spec_venues() == old(
                self,
            ).spec_venues().push(VenueEntry { venue, source })),
    {
        let n = self.liquidity_sources.len();
        let mut i: usize = 0;
        while i < n
            invariant
                n == self.liquidity_sources.len(),
                i <= n,
                self.liquidity_sources@ == old(self).liquidity_sources@,
                self.tokens@ == old(self).tokens@,
                old(self).venues_unique(),
                forall|j: int|
                    0 <= j < i ==> (#[trigger] old(self).liquidity_sources@[j]).venue.id@
                        != venue.id@,
            decreases n - i,
        {
            if self.liquidity_sources[i].venue.id == venue.id {
                let ghost pre = self.liquidity_sources@;
                let entry = VenueEntry { venue, source };
                let _ = self.liquidity_sources.remove(i);
                self.liquidity_sources.insert(i, entry);
                proof {
                    assert(self.liquidity_sources@ =~= pre.update(i as int, entry));
                }
                return ;
            }
            i = i + 1;
        }
        self.liquidity_sources.push(VenueEntry { venue, source });
    }

    /// Register a token, overwriting any token with the same
    /// `(chain_id, address)` identity; other registrations are untouched.
    pub fn register_token(&mut self, token: Token)
        ensures
            spec_find_token(final(self).spec_tokens(), token.chain_id, token.address@) == Some(
                token,
            ),
            forall|c: u64, ad: Seq<char>|
                #![trigger spec_find_token(final(self).spec_tokens(), c, ad)]
                !(c == token.chain_id && ad == token.address@) ==> spec_find_token(
                    final(self).spec_tokens(),
                    c,
                    ad,
                ) == spec_find_token(old(self).spec_tokens(), c, ad),
            final(self).spec_venues() == old(self).spec_venues(),
    {
        let n = self.tokens.len();
        let mut i: usize = 0;
        while i < n
            invariant
                n == self.tokens.len(),
                i <= n,
                self.tokens@ == old(self).tokens@,
                self.liquidity_sources@ == old(self).liquidity_sources@,
                forall|j: int|
                    0 <= j < i ==> !((#[trigger] old(self).tokens@[j]).chain_id == token.chain_id
                        && old(self).tokens@[j].address@ == token.address@),
            decreases n - i,
        {
            let same = self.tokens[i].chain_id == token.chain_id && self.tokens[i].address
                == token.address;
            if same {
                let ghost pre = self.tokens@;
                let _ = self.tokens.remove(i);
                self.tokens.insert(i, token.clone());
                proof {
                    assert(self.tokens@ =~= pre.update(i as int, token));
                    lemma_find_token_update(pre, i as int, token, token.chain_id, token.address@);
                    assert(spec_find_token(self.tokens@, token.chain_id, token.address@) == Some(
                        token,
                    ));
                    assert forall|c: u64, ad: Seq<char>|
                        !(c == token.chain_id && ad == token.address@) implies spec_find_token(
                        self.tokens@,
                        c,
                        ad,
                    ) == spec_find_token(old(self).tokens@, c, ad) by {
                        lemma_find_token_update(pre, i as int, token, c, ad);
                    }
                }
                return ;
            }
            i = i + 1;
        }
        self.tokens.push(token.clone());
        proof {
            lemma_find_token_none(old(self).tokens@, token.chain_id, token.address@);
            lemma_find_token_push(
                old(self).tokens@,
                token,
                token.chain_id,
                token.address@,
            );
            assert(spec_find_token(self.tokens@, token.chain_id, token.address@) == Some(token));
            assert forall|c: u64, ad: Seq<char>|
                !(c == token.chain_id && ad == token.address@) implies spec_find_token(
                self.tokens@,
                c,
                ad,
            ) == spec_find_token(old(self).tokens@, c, ad) by {
                lemma_find_token_push(old(self).tokens@, token, c, ad);
            }
        }
    }

    /// Look a token up by chain and address; a copy of the registered
    /// token, or `None`.
    pub fn get_token(&self, chain_id: u64, address: &String) -> (r: Option<Token>)
        ensures
            r == spec_find_token(self.spec_tokens(), chain_id, address@),
    {
        let n = self.tokens.len();
        let mut i: usize = 0;
        proof {
            assert(self.tokens@.skip(0int) =~= self.tokens@);
        }
        while i < n
            invariant
                n == self.tokens.len(),
                i <= n,
                spec_find_token(self.tokens@, chain_id, address@) == spec_find_token(
                    self.tokens@.skip(i as int),
                    chain_id,
                    address@,
                ),
            decreases n - i,
        {
            proof {
                assert(self.tokens@.skip(i as int)[0] == self.tokens@[i as int]);
                assert(self.tokens@.skip(i as int).drop_first() =~= self.tokens@.skip(i + 1));
            }
            if self.tokens[i].chain_id == chain_id && self.tokens[i].address == *address {
                return Some(self.tokens[i].clone());
            }
            i = i + 1;
        }
        proof {
            assert(self.tokens@.skip(n as int) =~= Seq::<Token>::empty());
        }
        None
    }

    /// Find ranked execution routes for a quote request.
    ///
    /// Fails with `ConfigError` exactly when the request's tokens are
    /// not both registered on the requested chain (a missing
    /// registration, spec-style). A degenerate request naming the same
    /// token twice has no path and reports `InsufficientLiquidity`, as
    /// does a request for whose chain and allowlist no venue is
    /// registered — both decided by registry state alone and stated
    /// below. Otherwise every returned route is well-formed, connects
    /// the requested tokens, spends the requested amount, respects the
    /// impact ceiling and the hop bound, carries per-hop
    /// `amount_out_min` derived from the slippage tolerance, and uses
    /// only registered, admitted venues and registered tokens of the
    /// chain; the list is ranked best-first. `InsufficientLiquidity`
    /// reports that no path survived pruning, `PriceImpactTooHigh` that
    /// paths survived but all exceeded the impact ceiling (the
    /// discrimination itself is the exact contract of
    /// `select_outcome`). The input domain asks for a positive amount
    /// (the liquidity floor divides by it) within the cap the penalty
    /// arithmetic needs.
    pub fn find_routes(&mut self, request: QuoteRequest, now: u64) -> (r: Result<
        QuoteResponse,
        RouterError,
    >)
        requires
            1 <= request.amount_in <= AMOUNT_CAP,
            request.slippage_ppm <= PPM_SCALE,
        ensures
            final(self).spec_tokens() == old(self).spec_tokens(),
            final(self).spec_venues() == old(self).spec_venues(),
            request_tokens_ok(old(self).spec_tokens(), request) && no_usable_venue(
                old(self).spec_venues(),
                request,
            ) ==> r matches Err(RouterError::InsufficientLiquidity(_)),
            match r {
                Ok(resp) => {
                    &&& request_tokens_ok(old(self).spec_tokens(), request)
                    &&& request.token_in@ != request.token_out@
                    &&& resp.routes@.len() >= 1
                    &&& ranked(resp.routes@)
                    &&& forall|i: int|
                        0 <= i < resp.routes@.len() ==> good_route(
                            #[trigger] resp.routes@[i],
                            spec_token_in(old(self).spec_tokens(), request),
                            spec_token_out(old(self).spec_tokens(), request),
                            request.amount_in,
                            request.slippage_ppm,
                        ) && route_from_registry(
                            resp.routes@[i],
                            old(self).spec_tokens(),
                            old(self).spec_venues(),
                            request,
                        )
                    &&& resp.tx_calldata is None
                },
                Err(RouterError::ConfigError(_)) => !request_tokens_ok(
                    old(self).spec_tokens(),
                    request,
                ),
                Err(RouterError::InsufficientLiquidity(_)) => request_tokens_ok(
                    old(self).spec_tokens(),
                    request,
                ),
                Err(RouterError::PriceImpactTooHigh(_)) => request_tokens_ok(
                    old(self).spec_tokens(),
                    request,
                ) && request.token_in@ != request.token_out@,
                Err(_) => false,
            },
    {
        let tin = match self.get_token(request.chain_id, &request.token_in) {
            Some(t) => t,
            None => {
                return Err(RouterError::ConfigError(str::to_owned("input token not registered")));
            },
        };
        let tout = match self.get_token(request.chain_id, &request.token_out) {
            Some(t) => t,
            None => {
                return Err(RouterError::ConfigError(str::to_owned("output token not registered")));
            },
        };
        if request.token_in == request.token_out {
            // A request from a token to itself has no path to find.
            return Err(
                RouterError::InsufficientLiquidity(
                    str::to_owned("no path: the requested tokens are identical"),
                ),
            );
        }
        proof {
            lemma_find_token_some(old(self).spec_tokens(), request.chain_id, request.token_in@);
            lemma_find_token_some(old(self).spec_tokens(), request.chain_id, request.token_out@);
            assert(!tin.same_key(tout));
        }
        let amount = request.amount_in;
        let slip = request.slippage_ppm;

        // Venues serving this request: right chain, admitted by the
        // allowlist.
        let nv = self.liquidity_sources.len();
        let mut active: Vec<usize> = Vec::new();
        let mut vi: usize = 0;
        while vi < nv
            invariant
                nv == self.liquidity_sources.len(),
                vi <= nv,
                self.liquidity_sources@ == old(self).liquidity_sources@,
                self.tokens@ == old(self).tokens@,
                forall|k: int|
                    0 <= k < active@.len() ==> (#[trigger] active@[k]) < nv && venue_usable(
                        old(self).liquidity_sources@[active@[k] as int].venue,
                        request,
                    ),
                active@.len() == 0 ==> forall|j: int|
                    0 <= j < vi ==> !venue_usable(
                        (#[trigger] old(self).liquidity_sources@[j]).venue,
                        request,
                    ),
            decreases nv - vi,
        {
            let entry = &self.liquidity_sources[vi];
            let ok = entry.venue.chain_id == request.chain_id && venue_allowed(
                &entry.venue.id,
                &request.exchanges,
            );
            if ok {
                active.push(vi);
            }
            vi = vi + 1;
        }
        if active.len() == 0 {
            return Err(
                RouterError::InsufficientLiquidity(
                    str::to_owned("no venue serves the requested chain"),
                ),
            );
        }
        proof {
            assert(venue_usable(old(self).liquidity_sources@[active@[0] as int].venue, request));
            assert(!no_usable_venue(old(self).liquidity_sources@, request));
        }
        let na = active.len();
        let mut candidates: Vec<SwapRoute> = Vec::new();
        let mut saw_path = false;

        // Single-hop candidates: one edge per admitted venue.
        let mut ai: usize = 0;
        while ai < na
            invariant
                na == active@.len(),
                ai <= na,
                nv == self.liquidity_sources.len(),
                self.liquidity_sources@ == old(self).liquidity_sources@,
                self.tokens@ == old(self).tokens@,
                1 <= amount <= AMOUNT_CAP,
                slip <= PPM_SCALE,
                amount == request.amount_in,
                slip == request.slippage_ppm,
                !tin.same_key(tout),
                tin.chain_id == request.chain_id,
                tout.chain_id == request.chain_id,
                spec_find_token(old(self).tokens@, request.chain_id, tin.address@) is Some,
                spec_find_token(old(self).tokens@, request.chain_id, tout.address@) is Some,
                forall|k: int|
                    0 <= k < active@.len() ==> (#[trigger] active@[k]) < nv && venue_usable(
                        old(self).liquidity_sources@[active@[k] as int].venue,
                        request,
                    ),
                forall|i: int|
                    0 <= i < candidates@.len() ==> good_route(
                        #[trigger] candidates@[i],
                        tin,
                        tout,
                        amount,
                        slip,
                    ) && route_from_registry(
                        candidates@[i],
                        old(self).tokens@,
                        old(self).liquidity_sources@,
                        request,
                    ),
            decreases na - ai,
        {
            let v = active[ai];
            let fig_opt = quote_edge(
                &mut self.price_cache,
                &self.liquidity_sources[v],
                &tin,
                &tout,
                amount,
                now,
            );
            match fig_opt {
                Some(fig) => {
                    saw_path = true;
                    if fig.impact_ppm <= IMPACT_CEILING_PPM {
                        let rt = build_route_one(
                            &self.liquidity_sources[v].venue,
                            &tin,
                            &tout,
                            amount,
                            &fig,
                            slip,
                        );
                        proof {
                            assert(venue_usable(
                                old(self).liquidity_sources@[v as int].venue,
                                request,
                            ));
                            assert(step_from_registry(
                                rt.steps@[0],
                                old(self).tokens@,
                                old(self).liquidity_sources@,
                                request,
                            ));
                            assert(route_from_registry(
                                rt,
                                old(self).tokens@,
                                old(self).liquidity_sources@,
                                request,
                            ));
                        }
                        candidates.push(rt);
                    }
                },
                None => {},
            }
            ai = ai + 1;
        }

        // Two-hop candidates: re-quote the second hop with the realized
        // output of the first.
        let nt = self.tokens.len();
        let mut mi: usize = 0;
        while mi < nt
            invariant
                nt == self.tokens.len(),
                mi <= nt,
                na == active@.len(),
                nv == self.liquidity_sources.len(),
                self.liquidity_sources@ == old(self).liquidity_sources@,
                self.tokens@ == old(self).tokens@,
                1 <= amount <= AMOUNT_CAP,
                slip <= PPM_SCALE,
                amount == request.amount_in,
                slip == request.slippage_ppm,
                !tin.same_key(tout),
                tin.chain_id == request.chain_id,
                tout.chain_id == request.chain_id,
                spec_find_token(old(self).tokens@, request.chain_id, tin.address@) is Some,
                spec_find_token(old(self).tokens@, request.chain_id, tout.address@) is Some,
                forall|k: int|
                    0 <= k < active@.len() ==> (#[trigger] active@[k]) < nv && venue_usable(
                        old(self).liquidity_sources@[active@[k] as int].venue,
                        request,
                    ),
                forall|i: int|
                    0 <= i < candidates@.len() ==> good_route(
                        #[trigger] candidates@[i],
                        tin,
                        tout,
                        amount,
                        slip,
                    ) && route_from_registry(
                        candidates@[i],
                        old(self).tokens@,
                        old(self).liquidity_sources@,
                        request,
                    ),
            decreases nt - mi,
        {
            let mid = self.tokens[mi].clone();
            let mid_ok = mid.chain_id == request.chain_id && !mid.key_eq(&tin) && !mid.key_eq(
                &tout,
            );
            if mid_ok {
                proof {
                    lemma_find_token_present(old(self).tokens@, request.chain_id, mi as int);
                }
                let mut a1: usize = 0;
                while a1 < na
                    invariant
                        na == active@.len(),
                        a1 <= na,
                        nv == self.liquidity_sources.len(),
                        self.liquidity_sources@ == old(self).liquidity_sources@,
                        self.tokens@ == old(self).tokens@,
                        1 <= amount <= AMOUNT_CAP,
                        slip <= PPM_SCALE,
                        amount == request.amount_in,
                        slip == request.slippage_ppm,
                        !tin.same_key(tout),
                        !mid.same_key(tin),
                        !mid.same_key(tout),
                        tin.chain_id == request.chain_id,
                        tout.chain_id == request.chain_id,
                        mid.chain_id == request.chain_id,
                        spec_find_token(old(self).tokens@, request.chain_id, tin.address@)
                            is Some,
                        spec_find_token(old(self).tokens@, request.chain_id, tout.address@)
                            is Some,
                        spec_find_token(old(self).tokens@, request.chain_id, mid.address@)
                            is Some,
                        forall|k: int|
                            0 <= k < active@.len() ==> (#[trigger] active@[k]) < nv
                                && venue_usable(
                                old(self).liquidity_sources@[active@[k] as int].venue,
                                request,
                            ),
                        forall|i: int|
                            0 <= i < candidates@.len() ==> good_route(
                                #[trigger] candidates@[i],
                                tin,
                                tout,
                                amount,
                                slip,
                            ) && route_from_registry(
                                candidates@[i],
                                old(self).tokens@,
                                old(self).liquidity_sources@,
                                request,
                            ),
                    decreases na - a1,
                {
                    let v1 = active[a1];
                    let fig1_opt = quote_edge(
                        &mut self.price_cache,
                        &self.liquidity_sources[v1],
                        &tin,
                        &mid,
                        amount,
                        now,
                    );
                    match fig1_opt {
                        Some(f1) => {
                            let mut a2: usize = 0;
                            while a2 < na
                                invariant
                                    na == active@.len(),
                                    a2 <= na,
                                    v1 < nv,
                                    nv == self.liquidity_sources.len(),
                                    self.liquidity_sources@ == old(self).liquidity_sources@,
                                    self.tokens@ == old(self).tokens@,
                                    1 <= amount <= AMOUNT_CAP,
                                    slip <= PPM_SCALE,
                                    amount == request.amount_in,
                                    slip == request.slippage_ppm,
                                    !tin.same_key(tout),
                                    !mid.same_key(tin),
                                    !mid.same_key(tout),
                                    tin.chain_id == request.chain_id,
                                    tout.chain_id == request.chain_id,
                                    mid.chain_id == request.chain_id,
                                    spec_find_token(
                                        old(self).tokens@,
                                        request.chain_id,
                                        tin.address@,
                                    ) is Some,
                                    spec_find_token(
                                        old(self).tokens@,
                                        request.chain_id,
                                        tout.address@,
                                    ) is Some,
                                    spec_find_token(
                                        old(self).tokens@,
                                        request.chain_id,
                                        mid.address@,
                                    ) is Some,
                                    venue_usable(
                                        old(self).liquidity_sources@[v1 as int].venue,
                                        request,
                                    ),
                                    1 <= f1.amount_out <= AMOUNT_CAP,
                                    f1.impact_ppm < PPM_SCALE,
                                    f1.risk <= MAX_RISK_SCORE,
                                    forall|k: int|
                                        0 <= k < active@.len() ==> (#[trigger] active@[k]) < nv
                                            && venue_usable(
                                            old(
                                                self,
                                            ).liquidity_sources@[active@[k] as int].venue,
                                            request,
                                        ),
                                    forall|i: int|
                                        0 <= i < candidates@.len() ==> good_route(
                                            #[trigger] candidates@[i],
                                            tin,
                                            tout,
                                            amount,
                                            slip,
                                        ) && route_from_registry(
                                            candidates@[i],
                                            old(self).tokens@,
                                            old(self).liquidity_sources@,
                                            request,
                                        ),
                                decreases na - a2,
                            {
                                let v2 = active[a2];
                                let fig2_opt = quote_edge(
                                    &mut self.price_cache,
                                    &self.liquidity_sources[v2],
                                    &mid,
                                    &tout,
                                    f1.amount_out,
                                    now,
                                );
                                match fig2_opt {
                                    Some(f2) => {
                                        saw_path = true;
                                        let combined = combine_impact(
                                            f1.impact_ppm,
                                            f2.impact_ppm,
                                        );
                                        if combined <= IMPACT_CEILING_PPM {
                                            let rt = build_route_two(
                                                &self.liquidity_sources[v1].venue,
                                                &self.liquidity_sources[v2].venue,
                                                &tin,
                                                &mid,
                                                &tout,
                                                amount,
                                                &f1,
                                                &f2,
                                                combined,
                                                slip,
                                            );
                                            proof {
                                                assert(venue_usable(
                                                    old(
                                                        self,
                                                    ).liquidity_sources@[v2 as int].venue,
                                                    request,
                                                ));
                                                assert(step_from_registry(
                                                    rt.steps@[0],
                                                    old(self).tokens@,
                                                    old(self).liquidity_sources@,
                                                    request,
                                                ));
                                                assert(step_from_registry(
                                                    rt.steps@[1],
                                                    old(self).tokens@,
                                                    old(self).liquidity_sources@,
                                                    request,
                                                ));
                                                assert(route_from_registry(
                                                    rt,
                                                    old(self).tokens@,
                                                    old(self).liquidity_sources@,
                                                    request,
                                                ));
                                            }
                                            candidates.push(rt);
                                        }
                                    },
                                    None => {},
                                }
                                a2 = a2 + 1;
                            }
                        },
                        None => {},
                    }
                    a1 = a1 + 1;
                }
            }
            mi = mi + 1;
        }

        let ghost cand_view = candidates@;
        let outcome = select_outcome(candidates, saw_path);
        match outcome {
            Ok(resp) => {
                proof {
                    lemma_rank_sorted(cand_view);
                    lemma_rank_contains(cand_view);
                    assert forall|i: int| 0 <= i < resp.routes@.len() implies good_route(
                        #[trigger] resp.routes@[i],
                        tin,
                        tout,
                        amount,
                        slip,
                    ) && route_from_registry(
                        resp.routes@[i],
                        old(self).tokens@,
                        old(self).liquidity_sources@,
                        request,
                    ) by {
                        assert(cand_view.contains(resp.routes@[i]));
                        let w = choose|w: int|
                            0 <= w < cand_view.len() && cand_view[w] == resp.routes@[i];
                        assert(good_route(cand_view[w], tin, tout, amount, slip));
                        assert(route_from_registry(
                            cand_view[w],
                            old(self).tokens@,
                            old(self).liquidity_sources@,
                            request,
                        ));
                    }
                }
                Ok(resp)
            },
            Err(e) => Err(e),
        }
    }
}

/// Decide the outcome of a finished search from the surviving
/// candidates and whether any full path was quoted at all: a nonempty
/// candidate set is ranked and returned; an empty one is
/// `PriceImpactTooHigh` exactly when some path was seen (it must have
/// been pruned by the ceiling) and `InsufficientLiquidity` exactly when
/// none was.
pub fn select_outcome(candidates: Vec<SwapRoute>, saw_path: bool) -> (r: Result<
    QuoteResponse,
    RouterError,
>)
    requires
        forall|i: int|
            0 <= i < candidates@.len() ==> (#[trigger] candidates@[i]).expected_amount_out
                <= AMOUNT_CAP,
    ensures
        match r {
            Ok(resp) => {
                &&& candidates@.len() >= 1
                &&& resp.routes@ == rank_spec(candidates@)
                &&& resp.tx_calldata is None
            },
            Err(RouterError::PriceImpactTooHigh(_)) => candidates@.len() == 0 && saw_path,
            Err(RouterError::InsufficientLiquidity(_)) => candidates@.len() == 0 && !saw_path,
            Err(_) => false,
        },
{
    if candidates.len() == 0 {
        if saw_path {
            Err(
                RouterError::PriceImpactTooHigh(
                    str::to_owned("every discovered path exceeds the impact ceiling"),
                ),
            )
        } else {
            Err(
                RouterError::InsufficientLiquidity(
                    str::to_owned("no path between the requested tokens survived pruning"),
                ),
            )
        }
    } else {
        let ranked_routes = rank_routes(candidates);
        Ok(QuoteResponse { routes: ranked_routes, tx_calldata: None })
    }
}

/// Is the venue admitted by the request's optional allowlist?
fn venue_allowed(id: &String, allow: &Option<Vec<String>>) -> (r: bool)
    ensures
        r == venue_admitted(id@, *allow),
{
    match allow {
        None => true,
        Some(list) => {
            let n = list.len();
            let mut i: usize = 0;
            while i < n
                invariant
                    n == list@.len(),
                    i <= n,
                    *allow == Some(*list),
                    forall|j: int| 0 <= j < i ==> (#[trigger] list@[j])@ != id@,
                decreases n - i,
            {
                if list[i] == *id {
                    proof {
                        assert(id_in_list(id@, list@)) by {
                            assert(0 <= (i as int) && (i as int) < list@.len());
                            assert((list@[i as int])@ == id@);
                        }
                    }
                    return true;
                }
                i = i + 1;
            }
            false
        },
    }
}

/// Fractional impacts compose as `1 - (1 - a)(1 - b)`; in
/// parts-per-million arithmetic that is `a + b - a * b / PPM_SCALE`.
fn combine_impact(a: u32, b: u32) -> (r: u32)
    requires
        a < PPM_SCALE,
        b < PPM_SCALE,
    ensures
        r >= a,
        r >= b,
        r <= a + b,
{
    proof {
        assert((a as int) * (b as int) < 1000000000000int) by (nonlinear_arith)
            requires
                a < 1000000,
                b < 1000000,
        ;
    }
    let prod = (a as u64) * (b as u64) / (PPM_SCALE as u64);
    proof {
        vstd::arithmetic::div_mod::lemma_div_nonincreasing(
            (a as int) * (b as int),
            PPM_SCALE as int,
        );
        assert((a as int) * (b as int) / (PPM_SCALE as int) <= b as int) by (nonlinear_arith)
            requires
                a < PPM_SCALE,
                0 <= b,
        ;
        assert((a as int) * (b as int) / (PPM_SCALE as int) <= a as int) by (nonlinear_arith)
            requires
                b < PPM_SCALE,
                0 <= a,
        ;
    }
    a + b - (prod as u32)
}

/// Quote one edge of the route graph: consult the price cache first, call
/// the venue adapter on a miss and memoize its answer, then validate the
/// figures and apply the liquidity floor. Any failure or implausible
/// answer prunes the edge (`None`); a surviving edge carries positive
/// bounded output, an impact below one, and a bounded risk score.
fn quote_edge<S: LiquiditySource>(
    cache: &mut PriceCache,
    entry: &VenueEntry<S>,
    a: &Token,
    b: &Token,
    amount: u128,
    now: u64,
) -> (r: Option<EdgeFig>)
    requires
        1 <= amount <= AMOUNT_CAP,
        !a.same_key(*b),
    ensures
        match r {
            Some(fig) => {
                &&& 1 <= fig.amount_out <= AMOUNT_CAP
                &&& fig.impact_ppm < PPM_SCALE
                &&& fig.risk <= MAX_RISK_SCORE
            },
            None => true,
        },
{
    let cached = cache.get(a, b, now);
    let figured: Option<(u128, u32)> = match cached {
        Some((num, den, imp)) => {
            if den == 0 {
                None
            } else {
                match amount.checked_mul(num) {
                    Some(scaled) => Some((scaled / den, imp)),
                    None => None,
                }
            }
        },
        None => {
            match entry.source.get_quote(a, b, amount) {
                Ok((quoted, imp)) => {
                    if quoted >= 1 {
                        cache.put(a.clone(), b.clone(), quoted, amount, imp, now);
                        Some((quoted, imp))
                    } else {
                        None
                    }
                },
                Err(_) => None,
            }
        },
    };
    let (out_raw, impact) = match figured {
        Some(p) => p,
        None => {
            return None;
        },
    };
    let reserves = entry.source.get_reserves(a, b);
    admit_edge(out_raw, impact, reserves, amount)
}

/// Validate one adapter answer: exactly which quotes survive, and with
/// which figures. The quoted output must be positive and bounded, the
/// impact a fraction below one, the reserves known and covering twice
/// the trade (the liquidity floor); a surviving edge keeps the quoted
/// output and impact and scores `risk_of_depth` of the input-side
/// reserve.
pub fn admit_edge(
    quoted_out: u128,
    impact_ppm: u32,
    reserves: Result<(u128, u128), RouterError>,
    amount: u128,
) -> (r: Option<EdgeFig>)
    requires
        1 <= amount <= AMOUNT_CAP,
    ensures
        match r {
            Some(fig) => {
                &&& fig.amount_out == quoted_out
                &&& 1 <= quoted_out <= AMOUNT_CAP
                &&& fig.impact_ppm == impact_ppm
                &&& impact_ppm < PPM_SCALE
                &&& match reserves {
                    Ok(rr) => rr.0 >= 2 * amount && fig.risk as int == risk_of_depth(
                        rr.0,
                        amount,
                    ) && fig.risk <= MAX_RISK_SCORE,
                    Err(_) => false,
                }
            },
            None => !({
                &&& 1 <= quoted_out <= AMOUNT_CAP
                &&& impact_ppm < PPM_SCALE
                &&& match reserves {
                    Ok(rr) => rr.0 >= 2 * amount,
                    Err(_) => false,
                }
            }),
        },
{
    if quoted_out < 1 || quoted_out > AMOUNT_CAP {
        return None;
    }
    if impact_ppm >= PPM_SCALE {
        return None;
    }
    match reserves {
        Ok((reserve_in, _reserve_out)) => {
            if reserve_in < 2 * amount {
                return None;
            }
            let risk = risk_from_depth(reserve_in, amount);
            Some(EdgeFig { amount_out: quoted_out, impact_ppm, risk })
        },
        Err(_) => None,
    }
}

/// Assemble the single hop of a direct route.
fn build_step(
    venue: &Exchange,
    a: &Token,
    b: &Token,
    amount_in: u128,
    amount_out: u128,
    slip: u32,
) -> (st: SwapStep)
    requires
        amount_out <= AMOUNT_CAP,
        slip <= PPM_SCALE,
    ensures
        st.exchange_id == venue.id,
        st.token_in == *a,
        st.token_out == *b,
        st.amount_in == amount_in,
        st.amount_out_min == good_min_out(amount_out, slip),
{
    let min_out = apply_slippage(amount_out, slip);
    let fee_tier = if venue.fee_tiers.len() > 0 {
        Some(venue.fee_tiers[0])
    } else {
        None
    };
    SwapStep {
        exchange_id: venue.id.clone(),
        token_in: a.clone(),
        token_out: b.clone(),
        fee_tier,
        amount_in,
        amount_out_min: min_out,
    }
}

/// `amount_out × (1 − slippage)` in parts-per-million arithmetic.
fn apply_slippage(amount_out: u128, slip: u32) -> (r: u128)
    requires
        amount_out <= AMOUNT_CAP,
        slip <= PPM_SCALE,
    ensures
        r == good_min_out(amount_out, slip),
{
    proof {
        vstd::arithmetic::mul::lemma_mul_upper_bound(
            amount_out as int,
            AMOUNT_CAP as int,
            (PPM_SCALE - slip) as int,
            PPM_SCALE as int,
        );
        assert((AMOUNT_CAP as int) * (PPM_SCALE as int) <= u128::MAX as int);
    }
    amount_out * ((PPM_SCALE - slip) as u128) / (PPM_SCALE as u128)
}

/// A one-hop route from a validated edge.
fn build_route_one(
    venue: &Exchange,
    tin: &Token,
    tout: &Token,
    amount: u128,
    fig: &EdgeFig,
    slip: u32,
) -> (rt: SwapRoute)
    requires
        1 <= amount <= AMOUNT_CAP,
        1 <= fig.amount_out <= AMOUNT_CAP,
        fig.impact_ppm <= IMPACT_CEILING_PPM,
        fig.risk <= MAX_RISK_SCORE,
        slip <= PPM_SCALE,
    ensures
        good_route(rt, *tin, *tout, amount, slip),
        rt.expected_amount_out == fig.amount_out,
        rt.steps@.len() == 1,
        rt.steps@[0].exchange_id == venue.id,
        rt.steps@[0].token_in == *tin,
        rt.steps@[0].token_out == *tout,
{
    let step = build_step(venue, tin, tout, amount, fig.amount_out, slip);
    let mut steps: Vec<SwapStep> = Vec::new();
    steps.push(step);
    let rt = SwapRoute {
        steps,
        amount_in: amount,
        expected_amount_out: fig.amount_out,
        price_impact_ppm: fig.impact_ppm,
        gas_estimate: GAS_PER_HOP,
        risk_score: fig.risk,
    };
    proof {
        assert(rt.steps@.len() == 1);
        assert(route_wf(rt));
        assert(route_connects(rt, *tin, *tout));
    }
    rt
}

/// A two-hop route through `mid`, the second hop re-quoted with the
/// realized output of the first.
#[verifier::rlimit(20)]
fn build_route_two(
    venue1: &Exchange,
    venue2: &Exchange,
    tin: &Token,
    mid: &Token,
    tout: &Token,
    amount: u128,
    fig1: &EdgeFig,
    fig2: &EdgeFig,
    combined_impact: u32,
    slip: u32,
) -> (rt: SwapRoute)
    requires
        1 <= amount <= AMOUNT_CAP,
        1 <= fig1.amount_out <= AMOUNT_CAP,
        1 <= fig2.amount_out <= AMOUNT_CAP,
        fig1.risk <= MAX_RISK_SCORE,
        fig2.risk <= MAX_RISK_SCORE,
        combined_impact <= IMPACT_CEILING_PPM,
        slip <= PPM_SCALE,
    ensures
        good_route(rt, *tin, *tout, amount, slip),
        rt.expected_amount_out == fig2.amount_out,
        rt.steps@.len() == 2,
        rt.steps@[0].exchange_id == venue1.id,
        rt.steps@[1].exchange_id == venue2.id,
        rt.steps@[0].token_in == *tin,
        rt.steps@[0].token_out == *mid,
        rt.steps@[1].token_in == *mid,
        rt.steps@[1].token_out == *tout,
        rt.steps@[1].amount_in == fig1.amount_out,
{
    let step1 = build_step(venue1, tin, mid, amount, fig1.amount_out, slip);
    let step2 = build_step(venue2, mid, tout, fig1.amount_out, fig2.amount_out, slip);
    let mut steps: Vec<SwapStep> = Vec::new();
    steps.push(step1);
    steps.push(step2);
    let risk = if fig1.risk >= fig2.risk {
        fig1.risk
    } else {
        fig2.risk
    };
    let rt = SwapRoute {
        steps,
        amount_in: amount,
        expected_amount_out: fig2.amount_out,
        price_impact_ppm: combined_impact,
        gas_estimate: 2 * GAS_PER_HOP,
        risk_score: risk,
    };
    proof {
        assert(rt.steps@.len() == 2);
        assert(rt.steps@[0].token_out.same_key(rt.steps@[1].token_in));
        assert(route_wf(rt));
        assert(route_connects(rt, *tin, *tout));
    }
    rt
}

/// What a lookup sees after the registry replaced the token at `i`.
spec fn spec_find_token_after(
    pre: Seq<Token>,
    i: int,
    token: Token,
    c: u64,
    ad: Seq<char>,
) -> Option<Token> {
    if c == token.chain_id && ad == token.address@ {
        Some(token)
    } else {
        spec_find_token(pre, c, ad)
    }
}

/// What a lookup sees after the registry appended `token`.
spec fn spec_find_token_after_push(
    pre: Seq<Token>,
    token: Token,
    c: u64,
    ad: Seq<char>,
) -> Option<Token> {
    if c == token.chain_id && ad == token.address@ {
        if spec_find_token(pre, c, ad) is Some {
            spec_find_token(pre, c, ad)
        } else {
            Some(token)
        }
    } else {
        spec_find_token(pre, c, ad)
    }
}

/// A list in which no token carries the key yields no find.
proof fn lemma_find_token_none(toks: Seq<Token>, c: u64, ad: Seq<char>)
    requires
        forall|j: int|
            0 <= j < toks.len() ==> !((#[trigger] toks[j]).chain_id == c && toks[j].address@
                == ad),
    ensures
        spec_find_token(toks, c, ad) is None,
    decreases toks.len(),
{
    if toks.len() == 0 {
    } else {
        assert(!(toks[0].chain_id == c && toks[0].address@ == ad));
        lemma_find_token_none(toks.drop_first(), c, ad);
    }
}

/// A token sitting in the registry on chain `c` is findable by its own
/// address (some registration with that key answers).
proof fn lemma_find_token_present(toks: Seq<Token>, c: u64, k: int)
    requires
        0 <= k < toks.len(),
        toks[k].chain_id == c,
    ensures
        spec_find_token(toks, c, toks[k].address@) is Some,
    decreases k,
{
    if toks[0].chain_id == c && toks[0].address@ == toks[k].address@ {
    } else {
        lemma_find_token_present(toks.drop_first(), c, k - 1);
    }
}

/// A found token really carries the queried chain and address.
proof fn lemma_find_token_some(toks: Seq<Token>, c: u64, ad: Seq<char>)
    ensures
        match spec_find_token(toks, c, ad) {
            Some(t) => t.chain_id == c && t.address@ == ad,
            None => true,
        },
    decreases toks.len(),
{
    if toks.len() == 0 {
    } else if toks[0].chain_id == c && toks[0].address@ == ad {
    } else {
        lemma_find_token_some(toks.drop_first(), c, ad);
    }
}

proof fn lemma_find_token_update(pre: Seq<Token>, i: int, token: Token, c: u64, ad: Seq<char>)
    requires
        0 <= i < pre.len(),
        pre[i].chain_id == token.chain_id && pre[i].address@ == token.address@,
        forall|j: int|
            0 <= j < i ==> !((#[trigger] pre[j]).chain_id == token.chain_id && pre[j].address@
                == token.address@),
    ensures
        spec_find_token(pre.update(i, token), c, ad) == spec_find_token_after(
            pre,
            i,
            token,
            c,
            ad,
        ),
    decreases i,
{
    if i == 0 {
        assert(pre.update(0int, token)[0] == token);
        assert(pre.update(0int, token).drop_first() =~= pre.drop_first());
    } else {
        assert(pre.update(i, token)[0] == pre[0]);
        assert(pre.update(i, token).drop_first() =~= pre.drop_first().update(i - 1, token));
        lemma_find_token_update(pre.drop_first(), i - 1, token, c, ad);
    }
}

proof fn lemma_find_token_push(pre: Seq<Token>, token: Token, c: u64, ad: Seq<char>)
    ensures
        spec_find_token(pre.push(token), c, ad) == spec_find_token_after_push(pre, token, c, ad),
    decreases pre.len(),
{
    if pre.len() == 0 {
        assert(pre.push(token)[0] == token);
        assert(pre.push(token).drop_first() =~= Seq::<Token>::empty());
        assert(spec_find_token(pre, c, ad) is None);
        if token.chain_id == c && token.address@ == ad {
            assert(spec_find_token(pre.push(token), c, ad) == Some(token));
        } else {
            assert(spec_find_token(pre.push(token), c, ad) == spec_find_token(
                Seq::<Token>::empty(),
                c,
                ad,
            ));
        }
    } else {
        assert(pre.push(token)[0] == pre[0]);
        assert(pre.push(token).drop_first() =~= pre.drop_first().push(token));
        if pre[0].chain_id == c && pre[0].address@ == ad {
            assert(spec_find_token(pre, c, ad) == Some(pre[0]));
            assert(spec_find_token(pre.push(token), c, ad) == Some(pre[0]));
        } else {
            lemma_find_token_push(pre.drop_first(), token, c, ad);
            assert(spec_find_token(pre, c, ad) == spec_find_token(pre.drop_first(), c, ad));
            assert(spec_find_token(pre.push(token), c, ad) == spec_find_token(
                pre.drop_first().push(token),
                c,
                ad,
            ));
        }
    }
}

} // verus!
