use std::cell::RefCell;
use std::rc::Rc;

use router_engine::routes::GAS_PER_HOP;
use router_engine::routes::rank_routes;
use router_engine::routes::route_score;
use router_engine::LiquiditySource;
use router_engine::QuoteRequest;
use router_engine::RouterEngine;
use router_engine::RouterError;
use router_engine::SwapRoute;
use router_engine::SwapStep;
use router_engine::Token;
use router_engine::Exchange;

fn tok(chain: u64, addr: &str, sym: &str, dec: u8) -> Token {
    Token { chain_id: chain, address: addr.to_string(), symbol: sym.to_string(), decimals: dec }
}

fn venue(id: &str, chain: u64) -> Exchange {
    Exchange {
        id: id.to_string(),
        name: id.to_string(),
        chain_id: chain,
        router_address: "0xrouter".to_string(),
        factory_address: None,
        fee_tiers: vec![3000],
    }
}

enum MockSource {
    Pool { addr_a: String, addr_b: String, reserve_a: u128, reserve_b: u128 },
    HighImpact,
}

impl LiquiditySource for MockSource {
    fn get_quote(
        &self,
        token_in: &Token,
        token_out: &Token,
        amount_in: u128,
    ) -> Result<(u128, u32), RouterError> {
        match self {
            MockSource::Pool { addr_a, addr_b, reserve_a, reserve_b } => {
                let (r_in, r_out) = if token_in.address == *addr_a && token_out.address == *addr_b
                {
                    (*reserve_a, *reserve_b)
                } else if token_in.address == *addr_b && token_out.address == *addr_a {
                    (*reserve_b, *reserve_a)
                } else {
                    return Err(RouterError::InsufficientLiquidity("unknown pair".to_string()));
                };
                let out = amount_in * r_out / (r_in + amount_in);
                let impact = (amount_in * 1_000_000 / (r_in + amount_in)) as u32;
                Ok((out, impact))
            }
            MockSource::HighImpact => Ok((amount_in / 2, 500_000)),
        }
    }

    fn get_reserves(
        &self,
        token_a: &Token,
        token_b: &Token,
    ) -> Result<(u128, u128), RouterError> {
        match self {
            MockSource::Pool { addr_a, addr_b, reserve_a, reserve_b } => {
                if token_a.address == *addr_a && token_b.address == *addr_b {
                    Ok((*reserve_a, *reserve_b))
                } else if token_a.address == *addr_b && token_b.address == *addr_a {
                    Ok((*reserve_b, *reserve_a))
                } else {
                    Err(RouterError::InsufficientLiquidity("unknown pair".to_string()))
                }
            }
            MockSource::HighImpact => Ok((1u128 << 90, 1u128 << 90)),
        }
    }
}

fn request(amount: u128, slippage_ppm: u32) -> QuoteRequest {
    QuoteRequest {
        chain_id: 1,
        token_in: "0xusdc".to_string(),
        token_out: "0xweth".to_string(),
        amount_in: amount,
        slippage_ppm,
        exchanges: None,
    }
}

const USDC_RESERVE: u128 = 100_000_000_000; // 100,000 USDC at 6 decimals
const WETH_RESERVE: u128 = 50_000_000_000_000_000_000; // 50 WETH at 18 decimals

fn engine_with_pool() -> RouterEngine<MockSource> {
    let mut eng: RouterEngine<MockSource> = RouterEngine::new();
    eng.register_token(tok(1, "0xusdc", "USDC", 6));
    eng.register_token(tok(1, "0xweth", "WETH", 18));
    eng.register_liquidity_source(
        venue("unidex", 1),
        MockSource::Pool {
            addr_a: "0xusdc".to_string(),
            addr_b: "0xweth".to_string(),
            reserve_a: USDC_RESERVE,
            reserve_b: WETH_RESERVE,
        },
    );
    eng
}

#[test]
fn registry_lookup_and_overwrite() {
    let mut eng: RouterEngine<MockSource> = RouterEngine::new();
    eng.register_token(tok(1, "0xusdc", "USDC", 18));
    // Same identity, corrected decimals: registration overwrites.
    eng.register_token(tok(1, "0xusdc", "USDC", 6));
    let got = eng.get_token(1, &"0xusdc".to_string()).unwrap();
    assert_eq!(got.decimals, 6);
    assert_eq!(got.symbol, "USDC");
    assert!(eng.get_token(2, &"0xusdc".to_string()).is_none());
    assert!(eng.get_token(1, &"0xother".to_string()).is_none());
}

#[test]
fn scenario_single_hop_swap() {
    // 1,000 USDC -> WETH against 100,000 USDC / 50 WETH, slippage 1%.
    let mut eng = engine_with_pool();
    let amount: u128 = 1_000_000_000;
    let resp = eng.find_routes(request(amount, 10_000), 100).unwrap();
    assert_eq!(resp.routes.len(), 1);
    let route = &resp.routes[0];
    assert_eq!(route.steps.len(), 1);
    assert_eq!(route.amount_in, amount);
    let expected_out = amount * WETH_RESERVE / (USDC_RESERVE + amount);
    assert_eq!(route.expected_amount_out, expected_out);
    assert_eq!(route.steps[0].amount_out_min, expected_out * 990_000 / 1_000_000);
    assert_eq!(route.steps[0].token_in.address, "0xusdc");
    assert_eq!(route.steps[0].token_out.address, "0xweth");
    assert_eq!(route.steps[0].exchange_id, "unidex");
    assert_eq!(route.gas_estimate, GAS_PER_HOP);
    assert!(route.price_impact_ppm < 10_000);
    assert!(resp.tx_calldata.is_none());
}

#[test]
fn scenario_no_venue_on_chain_is_insufficient_liquidity() {
    let mut eng: RouterEngine<MockSource> = RouterEngine::new();
    eng.register_token(tok(1, "0xusdc", "USDC", 6));
    eng.register_token(tok(1, "0xweth", "WETH", 18));
    // The only venue lives on another chain.
    eng.register_liquidity_source(
        venue("otherchain", 2),
        MockSource::Pool {
            addr_a: "0xusdc".to_string(),
            addr_b: "0xweth".to_string(),
            reserve_a: USDC_RESERVE,
            reserve_b: WETH_RESERVE,
        },
    );
    let err = eng.find_routes(request(1_000_000_000, 10_000), 100).unwrap_err();
    assert!(matches!(err, RouterError::InsufficientLiquidity(_)));
}

#[test]
fn unregistered_token_is_config_error() {
    let mut eng = engine_with_pool();
    let mut req = request(1_000_000_000, 10_000);
    req.token_out = "0xunknown".to_string();
    let err = eng.find_routes(req, 100).unwrap_err();
    assert!(matches!(err, RouterError::ConfigError(_)));
}

#[test]
fn identical_tokens_find_no_path() {
    // Both tokens registered, so nothing is misconfigured; a swap of a
    // token into itself simply has no path.
    let mut eng = engine_with_pool();
    let mut req = request(1_000_000_000, 10_000);
    req.token_out = "0xusdc".to_string();
    let err = eng.find_routes(req, 100).unwrap_err();
    assert!(matches!(err, RouterError::InsufficientLiquidity(_)));
}

#[test]
fn venue_reregistration_replaces_the_adapter() {
    let mut eng = engine_with_pool();
    // Re-register the same venue id with a pool ten times as deep: the
    // new adapter replaces the old one, so only the new figures appear.
    eng.register_liquidity_source(
        venue("unidex", 1),
        MockSource::Pool {
            addr_a: "0xusdc".to_string(),
            addr_b: "0xweth".to_string(),
            reserve_a: 10 * USDC_RESERVE,
            reserve_b: 10 * WETH_RESERVE,
        },
    );
    let amount: u128 = 1_000_000_000;
    let resp = eng.find_routes(request(amount, 10_000), 100).unwrap();
    assert_eq!(resp.routes.len(), 1);
    let expected_out = amount * (10 * WETH_RESERVE) / (10 * USDC_RESERVE + amount);
    assert_eq!(resp.routes[0].expected_amount_out, expected_out);
}

#[test]
fn every_path_over_the_ceiling_is_price_impact_too_high() {
    let mut eng: RouterEngine<MockSource> = RouterEngine::new();
    eng.register_token(tok(1, "0xusdc", "USDC", 6));
    eng.register_token(tok(1, "0xweth", "WETH", 18));
    eng.register_liquidity_source(venue("thinpool", 1), MockSource::HighImpact);
    let err = eng.find_routes(request(1_000_000_000, 10_000), 100).unwrap_err();
    assert!(matches!(err, RouterError::PriceImpactTooHigh(_)));
}

#[test]
fn two_hop_route_requotes_the_second_leg() {
    let mut eng: RouterEngine<MockSource> = RouterEngine::new();
    eng.register_token(tok(1, "0xaaa", "AAA", 18));
    eng.register_token(tok(1, "0xbbb", "BBB", 18));
    eng.register_token(tok(1, "0xccc", "CCC", 18));
    let big: u128 = 1_000_000_000_000;
    eng.register_liquidity_source(
        venue("v1", 1),
        MockSource::Pool {
            addr_a: "0xaaa".to_string(),
            addr_b: "0xbbb".to_string(),
            reserve_a: big,
            reserve_b: big,
        },
    );
    eng.register_liquidity_source(
        venue("v2", 1),
        MockSource::Pool {
            addr_a: "0xbbb".to_string(),
            addr_b: "0xccc".to_string(),
            reserve_a: big,
            reserve_b: big,
        },
    );
    let req = QuoteRequest {
        chain_id: 1,
        token_in: "0xaaa".to_string(),
        token_out: "0xccc".to_string(),
        amount_in: 1_000_000,
        slippage_ppm: 5_000,
        exchanges: None,
    };
    let resp = eng.find_routes(req, 100).unwrap();
    assert_eq!(resp.routes.len(), 1);
    let route = &resp.routes[0];
    assert_eq!(route.steps.len(), 2);
    assert_eq!(route.steps[0].exchange_id, "v1");
    assert_eq!(route.steps[1].exchange_id, "v2");
    assert_eq!(route.steps[0].token_out.address, "0xbbb");
    assert_eq!(route.steps[1].token_in.address, "0xbbb");
    // The second hop spends exactly what the first hop yields.
    let out1 = 1_000_000u128 * big / (big + 1_000_000);
    assert_eq!(route.steps[1].amount_in, out1);
    assert_eq!(route.expected_amount_out, out1 * big / (big + out1));
    assert_eq!(route.gas_estimate, 2 * GAS_PER_HOP);
}

#[test]
fn allowlist_restricts_the_search() {
    let mut eng = engine_with_pool();
    let mut req = request(1_000_000_000, 10_000);
    req.exchanges = Some(vec!["someoneelse".to_string()]);
    let err = eng.find_routes(req, 100).unwrap_err();
    assert!(matches!(err, RouterError::InsufficientLiquidity(_)));

    let mut eng2 = engine_with_pool();
    let mut req2 = request(1_000_000_000, 10_000);
    req2.exchanges = Some(vec!["unidex".to_string()]);
    assert!(eng2.find_routes(req2, 100).is_ok());
}

struct CountingSource {
    quotes: Rc<RefCell<u32>>,
}

impl LiquiditySource for CountingSource {
    fn get_quote(
        &self,
        _token_in: &Token,
        _token_out: &Token,
        amount_in: u128,
    ) -> Result<(u128, u32), RouterError> {
        *self.quotes.borrow_mut() += 1;
        Ok((amount_in * 2, 100))
    }

    fn get_reserves(
        &self,
        _token_a: &Token,
        _token_b: &Token,
    ) -> Result<(u128, u128), RouterError> {
        Ok((1u128 << 80, 1u128 << 80))
    }
}

#[test]
fn cache_is_consulted_before_the_adapter() {
    let mut eng: RouterEngine<CountingSource> = RouterEngine::new();
    eng.register_token(tok(1, "0xusdc", "USDC", 6));
    eng.register_token(tok(1, "0xweth", "WETH", 18));
    let quotes = Rc::new(RefCell::new(0u32));
    eng.register_liquidity_source(venue("counting", 1), CountingSource { quotes: quotes.clone() });
    let first = eng.find_routes(request(1_000, 10_000), 500).unwrap();
    assert_eq!(*quotes.borrow(), 1);
    // Within the TTL the second request is served from the cache: no
    // further adapter quote happens, and the figures agree.
    let second = eng.find_routes(request(1_000, 10_000), 510).unwrap();
    assert_eq!(*quotes.borrow(), 1);
    assert_eq!(first.routes[0].expected_amount_out, second.routes[0].expected_amount_out);
    // Past the TTL the price is quoted live again.
    let third = eng.find_routes(request(1_000, 10_000), 600).unwrap();
    assert_eq!(*quotes.borrow(), 2);
    assert_eq!(third.routes[0].expected_amount_out, 2_000);
}

fn plain_step(id: &str, amount_in: u128, amount_out_min: u128) -> SwapStep {
    SwapStep {
        exchange_id: id.to_string(),
        token_in: tok(1, "0xaaa", "AAA", 18),
        token_out: tok(1, "0xbbb", "BBB", 18),
        fee_tier: Some(3000),
        amount_in,
        amount_out_min,
    }
}

fn plain_route(id: &str, out: u128, impact: u32, risk: u8, gas: u64, hops: usize) -> SwapRoute {
    let mut steps = Vec::new();
    for _ in 0..hops {
        steps.push(plain_step(id, 1_000, 990));
    }
    SwapRoute {
        steps,
        amount_in: 1_000,
        expected_amount_out: out,
        price_impact_ppm: impact,
        gas_estimate: gas,
        risk_score: risk,
    }
}

#[test]
fn score_subtracts_impact_and_risk_penalties() {
    let r = plain_route("x", 1_000, 250_000, 40, GAS_PER_HOP, 1);
    // 1000 - 1000*0.25 - 1000*40/400 = 650
    assert_eq!(route_score(&r), 650);
    let floored = plain_route("y", 100, 999_999, 100, GAS_PER_HOP, 1);
    // Penalty (99 + 25) exceeds the output: floored at zero.
    assert_eq!(route_score(&floored), 0);
}

#[test]
fn ranking_orders_by_score_descending() {
    let lo = plain_route("lo", 1_000, 0, 0, GAS_PER_HOP, 1);
    let hi = plain_route("hi", 2_000, 0, 0, GAS_PER_HOP, 1);
    let ranked = rank_routes(vec![lo, hi]);
    assert_eq!(ranked[0].steps[0].exchange_id, "hi");
    assert_eq!(ranked[1].steps[0].exchange_id, "lo");
}

#[test]
fn ranking_breaks_score_ties_by_gas_then_hops() {
    let slow = plain_route("gas200", 1_000, 0, 0, 200_000, 1);
    let fast = plain_route("gas100", 1_000, 0, 0, 100_000, 1);
    let ranked = rank_routes(vec![slow, fast]);
    assert_eq!(ranked[0].steps[0].exchange_id, "gas100");
    assert_eq!(ranked[1].steps[0].exchange_id, "gas200");

    let long = plain_route("twohop", 1_000, 0, 0, 100_000, 2);
    let short = plain_route("onehop", 1_000, 0, 0, 100_000, 1);
    let ranked2 = rank_routes(vec![long, short]);
    assert_eq!(ranked2[0].steps[0].exchange_id, "onehop");
    assert_eq!(ranked2[1].steps[0].exchange_id, "twohop");
}

#[test]
fn ranking_is_stable_for_full_ties() {
    let first = plain_route("first", 1_000, 0, 0, GAS_PER_HOP, 1);
    let second = plain_route("second", 1_000, 0, 0, GAS_PER_HOP, 1);
    let ranked = rank_routes(vec![first, second]);
    assert_eq!(ranked[0].steps[0].exchange_id, "first");
    assert_eq!(ranked[1].steps[0].exchange_id, "second");
}
