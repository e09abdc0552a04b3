use router_engine::cache::PRICE_TTL_SECS;
use router_engine::PriceCache;
use router_engine::Token;

fn tok(chain: u64, addr: &str, sym: &str, dec: u8) -> Token {
    Token { chain_id: chain, address: addr.to_string(), symbol: sym.to_string(), decimals: dec }
}

#[test]
fn put_then_get_returns_stored_value() {
    let a = tok(1, "0xaaa", "AAA", 18);
    let b = tok(1, "0xbbb", "BBB", 6);
    let mut c = PriceCache::new();
    c.put(a.clone(), b.clone(), 300, 7, 1_500, 1_000);
    assert_eq!(c.get(&a, &b, 1_000), Some((300, 7, 1_500)));
}

#[test]
fn reversed_direction_inverts_the_price() {
    let a = tok(1, "0xaaa", "AAA", 18);
    let b = tok(1, "0xbbb", "BBB", 6);
    let mut c = PriceCache::new();
    c.put(a.clone(), b.clone(), 300, 7, 1_500, 1_000);
    assert_eq!(c.get(&b, &a, 1_000), Some((7, 300, 1_500)));
}

#[test]
fn entry_expires_after_ttl() {
    let a = tok(1, "0xaaa", "AAA", 18);
    let b = tok(1, "0xbbb", "BBB", 6);
    let mut c = PriceCache::new();
    c.put(a.clone(), b.clone(), 300, 7, 1_500, 1_000);
    assert_eq!(c.get(&a, &b, 1_000 + PRICE_TTL_SECS - 1), Some((300, 7, 1_500)));
    assert_eq!(c.get(&a, &b, 1_000 + PRICE_TTL_SECS), None);
    assert_eq!(c.get(&a, &b, 5_000), None);
}

#[test]
fn unordered_pair_shares_one_slot() {
    let a = tok(1, "0xaaa", "AAA", 18);
    let b = tok(1, "0xbbb", "BBB", 6);
    let mut c = PriceCache::new();
    c.put(a.clone(), b.clone(), 300, 7, 1_500, 1_000);
    // Overwrite through the reversed direction: last writer wins.
    c.put(b.clone(), a.clone(), 9, 500, 2_000, 1_001);
    assert_eq!(c.get(&a, &b, 1_001), Some((500, 9, 2_000)));
    assert_eq!(c.get(&b, &a, 1_001), Some((9, 500, 2_000)));
}

#[test]
fn miss_is_silent_and_other_pairs_keep_their_slots() {
    let a = tok(1, "0xaaa", "AAA", 18);
    let b = tok(1, "0xbbb", "BBB", 6);
    let d = tok(1, "0xddd", "DDD", 8);
    let mut c = PriceCache::new();
    assert_eq!(c.get(&a, &b, 0), None);
    c.put(a.clone(), b.clone(), 300, 7, 1_500, 1_000);
    c.put(a.clone(), d.clone(), 11, 13, 100, 1_000);
    assert_eq!(c.get(&a, &b, 1_000), Some((300, 7, 1_500)));
    assert_eq!(c.get(&a, &d, 1_000), Some((11, 13, 100)));
    assert_eq!(c.get(&b, &d, 1_000), None);
}
