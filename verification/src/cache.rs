//! Time-bounded memo of venue-pair price estimates.
//!
//! The cache is keyed by the unordered token pair: `(A, B)` and `(B, A)`
//! share one slot that stores a canonical direction; a read in the opposite
//! direction gets the inverted price. A price is kept as the exact rational
//! `num / den` (output units per input unit), so inversion is a swap. An
//! entry older than `PRICE_TTL_SECS` is treated as absent, never served.

use vstd::prelude::*;

use crate::token::Token;

verus! {

/// Seconds an entry stays servable after it was written.
pub const PRICE_TTL_SECS: u64 = 30;

/// One cache slot: the pair in its stored direction, the price of
/// `token_a -> token_b` as `num / den`, the impact estimate at the quoted
/// size, and the write time.
pub struct PriceEntry {
    pub token_a: Token,
    pub token_b: Token,
    pub num: u128,
    pub den: u128,
    pub impact_ppm: u32,
    pub timestamp: u64,
}

/// True when the unordered pairs `{a1, b1}` and `{a2, b2}` are the same.
pub open spec fn unordered_same(a1: Token, b1: Token, a2: Token, b2: Token) -> bool {
    (a1.same_key(a2) && b1.same_key(b2)) || (a1.same_key(b2) && b1.same_key(a2))
}

/// True when entry `e` occupies the slot of the unordered pair `{a, b}`.
pub open spec fn entry_matches(e: PriceEntry, a: Token, b: Token) -> bool {
    unordered_same(e.token_a, e.token_b, a, b)
}

/// An entry written at `ts` is still servable at `now`. An entry whose
/// write time lies ahead of the reading clock (clock skew between
/// concurrent writers) counts as fresh rather than expired.
pub open spec fn fresh_at(ts: u64, now: u64) -> bool {
    now < ts || now - ts < PRICE_TTL_SECS
}

/// The price of `a -> b` read off entry `e`, inverting when `e` stores the
/// opposite direction.
pub open spec fn oriented(e: PriceEntry, a: Token) -> (u128, u128, u32) {
    if e.token_a.same_key(a) {
        (e.num, e.den, e.impact_ppm)
    } else {
        (e.den, e.num, e.impact_ppm)
    }
}

/// What a lookup of the pair `{a, b}` at time `now` yields on the entry
/// list `s`: the first slot of the pair decides; a stale slot means absent.
pub open spec fn spec_get(s: Seq<PriceEntry>, a: Token, b: Token, now: u64) -> Option<
    (u128, u128, u32),
>
    decreases s.len(),
{
    if s.len() == 0 {
        None
    } else if entry_matches(s[0], a, b) {
        if fresh_at(s[0].timestamp, now) {
            Some(oriented(s[0], a))
        } else {
            None
        }
    } else {
        spec_get(s.drop_first(), a, b, now)
    }
}

/// Shared memo of venue-pair prices; a lookup miss is silent, never an error.
pub struct PriceCache {
    entries: Vec<PriceEntry>,
}

impl View for PriceCache {
    type V = Seq<PriceEntry>;

    closed spec fn view(&self) -> Seq<PriceEntry> {
        self.entries@
    }
}

impl PriceCache {
    pub fn new() -> (r: Self)
        ensures
            r@ == Seq::<PriceEntry>::empty(),
    {
        PriceCache { entries: Vec::new() }
    }

    /// Read the price of `a -> b` recorded for the unordered pair `{a, b}`,
    /// or `None` when no entry exists or the entry's TTL has elapsed.
    pub fn get(&self, a: &Token, b: &Token, now: u64) -> (r: Option<(u128, u128, u32)>)
        ensures
            r == spec_get(self@, *a, *b, now),
    {
        let n = self.entries.len();
        let mut i: usize = 0;
        proof {
            assert(self@.skip(0int) =~= self@);
        }
        while i < n
            invariant
                n == self.entries.len(),
                i <= n,
                spec_get(self@, *a, *b, now) == spec_get(self@.skip(i as int), *a, *b, now),
            decreases n - i,
        {
            let e = &self.entries[i];
            let fwd = e.token_a.key_eq(a) && e.token_b.key_eq(b);
            let rev = e.token_a.key_eq(b) && e.token_b.key_eq(a);
            proof {
                assert(self@.skip(i as int)[0] == self@[i as int]);
                assert(self@.skip(i as int).drop_first() =~= self@.skip(i + 1));
            }
            if fwd || rev {
                if now < e.timestamp || now - e.timestamp < PRICE_TTL_SECS {
                    if e.token_a.key_eq(a) {
                        return Some((e.num, e.den, e.impact_ppm));
                    } else {
                        return Some((e.den, e.num, e.impact_ppm));
                    }
                } else {
                    return None;
                }
            }
            i = i + 1;
        }
        proof {
            assert(self@.skip(n as int) =~= Seq::<PriceEntry>::empty());
        }
        None
    }

    /// Record the price of `a -> b` for the unordered pair `{a, b}`,
    /// overwriting unconditionally: last writer wins, other pairs keep
    /// their slots.
    pub fn put(&mut self, a: Token, b: Token, num: u128, den: u128, impact_ppm: u32, now: u64)
        requires
            !a.same_key(b),
            num >= 1,
            den >= 1,
        ensures
            forall|t: u64|
                #![trigger spec_get(final(self)@, a, b, t)]
                spec_get(final(self)@, a, b, t) == if fresh_at(now, t) {
                    Some((num, den, impact_ppm))
                } else {
                    None::<(u128, u128, u32)>
                },
            forall|t: u64|
                #![trigger spec_get(final(self)@, b, a, t)]
                spec_get(final(self)@, b, a, t) == if fresh_at(now, t) {
                    Some((den, num, impact_ppm))
                } else {
                    None::<(u128, u128, u32)>
                },
            forall|x: Token, y: Token, t: u64|
                #![trigger spec_get(final(self)@, x, y, t)]
                !unordered_same(x, y, a, b) ==> spec_get(final(self)@, x, y, t)
                    == spec_get(old(self)@, x, y, t),
    {
        let entry = PriceEntry {
            token_a: a.clone(),
            token_b: b.clone(),
            num,
            den,
            impact_ppm,
            timestamp: now,
        };
        let n = self.entries.len();
        let mut i: usize = 0;
        while i < n
            invariant
                n == self.entries.len(),
                i <= n,
                self.entries@ == old(self)@,
                entry.token_a == a,
                entry.token_b == b,
                entry.num == num,
                entry.den == den,
                entry.impact_ppm == impact_ppm,
                entry.timestamp == now,
                !a.same_key(b),
                forall|j: int| 0 <= j < i ==> !entry_matches(old(self)@[j], a, b),
            decreases n - i,
        {
            let e = &self.entries[i];
            let fwd = e.token_a.key_eq(&entry.token_a) && e.token_b.key_eq(&entry.token_b);
            let rev = e.token_a.key_eq(&entry.token_b) && e.token_b.key_eq(&entry.token_a);
            if fwd || rev {
                let _ = self.entries.remove(i);
                self.entries.insert(i, entry);
                proof {
                    assert(self.entries@ =~= old(self)@.update(i as int, entry));
                    assert forall|t: u64|
                        spec_get(self@, a, b, t) == if fresh_at(now, t) {
                            Some((num, den, impact_ppm))
                        } else {
                            None::<(u128, u128, u32)>
                        } by {
                        lemma_put_hits(old(self)@, i as int, entry, a, b, t);
                    }
                    assert forall|t: u64|
                        spec_get(self@, b, a, t) == if fresh_at(now, t) {
                            Some((den, num, impact_ppm))
                        } else {
                            None::<(u128, u128, u32)>
                        } by {
                        lemma_put_hits(old(self)@, i as int, entry, a, b, t);
                    }
                    assert forall|x: Token, y: Token, t: u64|
                        !unordered_same(x, y, a, b) implies spec_get(
                        self@,
                        x,
                        y,
                        t,
                    ) == spec_get(old(self)@, x, y, t) by {
                        lemma_put_update_other(old(self)@, i as int, entry, a, b, x, y, t);
                    }
                }
                return ;
            }
            i = i + 1;
        }
        self.entries.push(entry);
        proof {
            assert forall|t: u64|
                spec_get(self@, a, b, t) == if fresh_at(now, t) {
                    Some((num, den, impact_ppm))
                } else {
                    None::<(u128, u128, u32)>
                } by {
                lemma_put_push(old(self)@, entry, a, b, t);
            }
            assert forall|t: u64|
                spec_get(self@, b, a, t) == if fresh_at(now, t) {
                    Some((den, num, impact_ppm))
                } else {
                    None::<(u128, u128, u32)>
                } by {
                lemma_put_push(old(self)@, entry, a, b, t);
            }
            assert forall|x: Token, y: Token, t: u64|
                !unordered_same(x, y, a, b) implies spec_get(self@, x, y, t) == spec_get(
                old(self)@,
                x,
                y,
                t,
            ) by {
                lemma_put_push_other(old(self)@, entry, a, b, x, y, t);
            }
        }
    }
}

/// Updating the first slot of pair `{a, b}` makes a later lookup of
/// that pair (in either direction) see the new entry.
proof fn lemma_put_hits(s: Seq<PriceEntry>, i: int, e: PriceEntry, a: Token, b: Token, t: u64)
    requires
        0 <= i < s.len(),
        forall|j: int| 0 <= j < i ==> !entry_matches(s[j], a, b),
        e.token_a == a,
        e.token_b == b,
        !a.same_key(b),
    ensures
        spec_get(s.update(i, e), a, b, t) == if fresh_at(e.timestamp, t) {
            Some((e.num, e.den, e.impact_ppm))
        } else {
            None::<(u128, u128, u32)>
        },
        spec_get(s.update(i, e), b, a, t) == if fresh_at(e.timestamp, t) {
            Some((e.den, e.num, e.impact_ppm))
        } else {
            None::<(u128, u128, u32)>
        },
    decreases i,
{
    if i == 0 {
        assert(s.update(0int, e)[0] == e);
        assert(entry_matches(e, a, b));
        assert(entry_matches(e, b, a));
        assert(!e.token_a.same_key(b));
        assert(oriented(e, a) == (e.num, e.den, e.impact_ppm));
        assert(oriented(e, b) == (e.den, e.num, e.impact_ppm));
    } else {
        assert(s.update(i, e)[0] == s[0]);
        assert(!entry_matches(s[0], a, b));
        assert(!entry_matches(s[0], b, a));
        assert(s.update(i, e).drop_first() =~= s.drop_first().update(i - 1, e));
        lemma_put_hits(s.drop_first(), i - 1, e, a, b, t);
    }
}

/// Updating the slot of pair `{a, b}` leaves lookups of every other
/// unordered pair unchanged.
proof fn lemma_put_update_other(
    s: Seq<PriceEntry>,
    i: int,
    e: PriceEntry,
    a: Token,
    b: Token,
    x: Token,
    y: Token,
    t: u64,
)
    requires
        0 <= i < s.len(),
        entry_matches(s[i], a, b),
        e.token_a == a,
        e.token_b == b,
        !unordered_same(x, y, a, b),
    ensures
        spec_get(s.update(i, e), x, y, t) == spec_get(s, x, y, t),
    decreases i,
{
    if i == 0 {
        assert(!entry_matches(e, x, y));
        assert(!entry_matches(s[0], x, y));
        assert(s.update(0int, e)[0] == e);
        assert(s.update(0int, e).drop_first() =~= s.drop_first());
    } else {
        assert(s.update(i, e)[0] == s[0]);
        if entry_matches(s[0], x, y) {
        } else {
            assert(s.update(i, e).drop_first() =~= s.drop_first().update(i - 1, e));
            lemma_put_update_other(s.drop_first(), i - 1, e, a, b, x, y, t);
        }
    }
}

/// Appending a slot for pair `{a, b}` to a list that holds none makes a
/// lookup of that pair see it.
proof fn lemma_put_push(s: Seq<PriceEntry>, e: PriceEntry, a: Token, b: Token, t: u64)
    requires
        forall|j: int| 0 <= j < s.len() ==> !entry_matches(s[j], a, b),
        e.token_a == a,
        e.token_b == b,
        !a.same_key(b),
    ensures
        spec_get(s.push(e), a, b, t) == if fresh_at(e.timestamp, t) {
            Some((e.num, e.den, e.impact_ppm))
        } else {
            None::<(u128, u128, u32)>
        },
        spec_get(s.push(e), b, a, t) == if fresh_at(e.timestamp, t) {
            Some((e.den, e.num, e.impact_ppm))
        } else {
            None::<(u128, u128, u32)>
        },
    decreases s.len(),
{
    if s.len() == 0 {
        assert(s.push(e)[0] == e);
        assert(entry_matches(e, a, b));
        assert(entry_matches(e, b, a));
        assert(!e.token_a.same_key(b));
        assert(oriented(e, a) == (e.num, e.den, e.impact_ppm));
        assert(oriented(e, b) == (e.den, e.num, e.impact_ppm));
    } else {
        assert(s.push(e)[0] == s[0]);
        assert(!entry_matches(s[0], a, b));
        assert(!entry_matches(s[0], b, a));
        assert(s.push(e).drop_first() =~= s.drop_first().push(e));
        lemma_put_push(s.drop_first(), e, a, b, t);
    }
}

/// Appending a slot for pair `{a, b}` leaves lookups of every other
/// unordered pair unchanged.
proof fn lemma_put_push_other(
    s: Seq<PriceEntry>,
    e: PriceEntry,
    a: Token,
    b: Token,
    x: Token,
    y: Token,
    t: u64,
)
    requires
        e.token_a == a,
        e.token_b == b,
        !unordered_same(x, y, a, b),
    ensures
        spec_get(s.push(e), x, y, t) == spec_get(s, x, y, t),
    decreases s.len(),
{
    if s.len() == 0 {
        assert(s.push(e)[0] == e);
        assert(!entry_matches(e, x, y));
        assert(s.push(e).drop_first() =~= Seq::<PriceEntry>::empty());
        assert(spec_get(s.push(e), x, y, t) == spec_get(s.push(e).drop_first(), x, y, t));
        assert(spec_get(s, x, y, t) is None);
    } else {
        assert(s.push(e)[0] == s[0]);
        if entry_matches(s[0], x, y) {
            assert(spec_get(s.push(e), x, y, t) == spec_get(s, x, y, t));
        } else {
            assert(s.push(e).drop_first() =~= s.drop_first().push(e));
            lemma_put_push_other(s.drop_first(), e, a, b, x, y, t);
        }
    }
}

} // verus!
