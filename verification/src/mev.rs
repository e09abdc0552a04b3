//! MEV-resistant execution: obfuscate a transaction among decoys and
//! prepare an ordered bundle for a private relay.
//!
//! Obfuscation draws a random decoy count in `[2, 4]`, appends that many
//! decoys to the real transaction, and applies a uniformly random
//! permutation (each position filled by a uniform draw from what
//! remains, the Fisher–Yates distribution), so the real transaction's
//! position is indistinguishable from the decoys'. The output always has
//! `3` to `5` transactions and contains the real transaction's bytes
//! exactly once.

use rand_chacha::ChaCha20Rng;
use vstd::multiset::Multiset;
use vstd::prelude::*;

use crate::digest::sha256;
use crate::digest::sha256_of;
use crate::errors::RouterError;
use crate::hexcode::hex_of;
use crate::hexcode::hex_string;
use crate::randsrc::rng_bytes;
use crate::randsrc::rng_from_entropy;
use crate::randsrc::rng_range;

verus! {

/// The transaction bytes `txv` occur at exactly one position of `out`.
pub open spec fn appears_exactly_once(txv: Seq<u8>, out: Seq<Vec<u8>>) -> bool {
    exists|i: int|
        0 <= i < out.len() && (#[trigger] out[i])@ == txv && (forall|j: int|
            0 <= j < out.len() && j != i ==> (#[trigger] out[j])@ != txv)
}

/// What obfuscation promises: three to five transactions, the real one
/// among them exactly once.
pub open spec fn obfuscation_ok(txv: Seq<u8>, out: Seq<Vec<u8>>) -> bool {
    &&& 3 <= out.len() <= 5
    &&& appears_exactly_once(txv, out)
}

/// All transactions of a bundle, concatenated in order.
pub open spec fn flatten_bytes(s: Seq<Vec<u8>>) -> Seq<u8>
    decreases s.len(),
{
    if s.len() == 0 {
        Seq::empty()
    } else {
        flatten_bytes(s.drop_last()) + s.last()@
    }
}

/// The identifier of a bundle: the digest of its concatenated
/// transactions, rendered as prefixed hexadecimal.
pub open spec fn bundle_id_of(s: Seq<Vec<u8>>) -> Seq<char> {
    seq!['0', 'x'] + hex_of(sha256_of(flatten_bytes(s)))
}

/// The MEV protection layer in front of a private relay.
pub struct MevProtection {
    flashbots_relay: String,
}

impl MevProtection {
    /// The relay endpoint this instance submits to.
    pub closed spec fn spec_relay(self) -> Seq<char> {
        self.flashbots_relay@
    }

    pub fn new(flashbots_relay: String) -> (r: Self)
        ensures
            r.spec_relay() == flashbots_relay@,
    {
        MevProtection { flashbots_relay }
    }

    /// The relay endpoint, for the embedding that performs delivery.
    pub fn relay(&self) -> (r: &String)
        ensures
            r@ == self.spec_relay(),
    {
        &self.flashbots_relay
    }

    /// Obfuscate with a secure source of randomness.
    pub fn obfuscate_tx(&self, tx: Vec<u8>) -> (r: Vec<Vec<u8>>)
        ensures
            obfuscation_ok(tx@, r@),
    {
        let mut rng = rng_from_entropy();
        self.obfuscate_tx_with(tx, &mut rng)
    }

    /// Obfuscate with an injected generator, so tests can reproduce the
    /// decoy count and the permutation.
    pub fn obfuscate_tx_with(&self, tx: Vec<u8>, rng: &mut ChaCha20Rng) -> (r: Vec<Vec<u8>>)
        ensures
            obfuscation_ok(tx@, r@),
    {
        let ghost txv = tx@;
        let decoy_count = rng_range(rng, 2, 4);
        let mut items: Vec<Vec<u8>> = Vec::new();
        items.push(tx);
        let mut k: usize = 0;
        while k < decoy_count
            invariant
                k <= decoy_count,
                decoy_count <= 4,
                items@.len() == k + 1,
                items@[0]@ == txv,
                forall|j: int| 1 <= j < items@.len() ==> (#[trigger] items@[j])@ != txv,
            decreases decoy_count - k,
        {
            let d = make_decoy(rng, &items[0]);
            items.push(d);
            k = k + 1;
        }
        let ghost built = items@;
        let shuffled = shuffle(rng, items);
        proof {
            broadcast use vstd::seq_lib::group_to_multiset_ensures;
            broadcast use vstd::multiset::group_multiset_axioms;

            let x = built[0];
            lemma_count_single(built, x);
            assert(shuffled@.to_multiset().count(x) == 1);
            assert(shuffled@.contains(x));
            let i = choose|i: int| 0 <= i < shuffled@.len() && shuffled@[i] == x;
            assert forall|j: int| 0 <= j < shuffled@.len() && j != i implies (
            #[trigger] shuffled@[j])@ != txv by {
                let y = shuffled@[j];
                assert(shuffled@.contains(y));
                assert(shuffled@.to_multiset().count(y) > 0);
                assert(built.to_multiset().count(y) > 0);
                assert(built.contains(y));
                let w = choose|w: int| 0 <= w < built.len() && built[w] == y;
                if w == 0 {
                    assert(y == x);
                    lemma_two_positions(shuffled@, i, j);
                    assert(false);
                } else {
                    assert(built[w]@ != txv);
                }
            }
            assert(appears_exactly_once(txv, shuffled@));
        }
        shuffled
    }

    /// Deliver an ordered bundle towards the relay boundary: an empty
    /// bundle is rejected, any other bundle is assigned its content
    /// digest as identifier. The embedding performs the actual network
    /// delivery and surfaces relay rejections.
    pub fn send_bundle(&self, txs: Vec<Vec<u8>>) -> (r: Result<String, RouterError>)
        ensures
            match r {
                Ok(id) => txs@.len() >= 1 && id@ == bundle_id_of(txs@),
                Err(RouterError::ExecutionError(_)) => txs@.len() == 0,
                Err(_) => false,
            },
    {
        if txs.len() == 0 {
            return Err(RouterError::ExecutionError(str::to_owned("empty bundle rejected")));
        }
        let mut buf: Vec<u8> = Vec::new();
        let n = txs.len();
        let mut i: usize = 0;
        proof {
            assert(txs@.take(0int) =~= Seq::<Vec<u8>>::empty());
        }
        while i < n
            invariant
                n == txs@.len(),
                i <= n,
                buf@ == flatten_bytes(txs@.take(i as int)),
            decreases n - i,
        {
            buf.extend_from_slice(txs[i].as_slice());
            proof {
                assert(txs@.take(i + 1).drop_last() =~= txs@.take(i as int));
                assert(txs@.take(i + 1).last() == txs@[i as int]);
            }
            i = i + 1;
        }
        proof {
            assert(txs@.take(n as int) =~= txs@);
        }
        let digest = sha256(buf.as_slice());
        let mut id = str::to_owned("0x");
        id.append(hex_string(&digest).as_str());
        proof {
            reveal_strlit("0x");
            assert("0x"@ =~= seq!['0', 'x']);
            assert(id@ =~= bundle_id_of(txs@));
        }
        Ok(id)
    }
}

/// A decoy transaction: random filler bytes, adjusted so that it never
/// equals the real transaction.
fn make_decoy(rng: &mut ChaCha20Rng, tx: &Vec<u8>) -> (d: Vec<u8>)
    ensures
        d@ != tx@,
{
    let mut d = rng_bytes(rng, 100);
    if bytes_eq(&d, tx) {
        d.push(0u8);
        proof {
            assert(d@.len() != tx@.len());
        }
    }
    d
}

/// Byte-wise equality of two buffers.
fn bytes_eq(a: &Vec<u8>, b: &Vec<u8>) -> (r: bool)
    ensures
        r == (a@ == b@),
{
    if a.len() != b.len() {
        return false;
    }
    let n = a.len();
    let mut i: usize = 0;
    while i < n
        invariant
            n == a@.len(),
            n == b@.len(),
            i <= n,
            forall|k: int| 0 <= k < i ==> a@[k] == b@[k],
        decreases n - i,
    {
        if a[i] != b[i] {
            return false;
        }
        i = i + 1;
    }
    proof {
        assert(a@ =~= b@);
    }
    true
}

/// Uniformly permute the bundle: each output position is filled by a
/// uniform draw from the remaining transactions, which realizes the
/// Fisher–Yates distribution. The contents are exactly preserved.
fn shuffle(rng: &mut ChaCha20Rng, items: Vec<Vec<u8>>) -> (r: Vec<Vec<u8>>)
    ensures
        r@.to_multiset() == items@.to_multiset(),
        r@.len() == items@.len(),
{
    let ghost orig = items@;
    let mut rest = items;
    let mut out: Vec<Vec<u8>> = Vec::new();
    proof {
        broadcast use vstd::seq_lib::group_to_multiset_ensures;
        broadcast use vstd::multiset::group_multiset_axioms;

        assert(out@.to_multiset().add(rest@.to_multiset()) =~= orig.to_multiset());
    }
    while rest.len() > 0
        invariant
            out@.to_multiset().add(rest@.to_multiset()) == orig.to_multiset(),
            out@.len() + rest@.len() == orig.len(),
        decreases rest@.len(),
    {
        let j = rng_range(rng, 0, rest.len() - 1);
        let ghost pre = rest@;
        let v = rest.remove(j);
        out.push(v);
        proof {
            broadcast use vstd::seq_lib::group_to_multiset_ensures;
            broadcast use vstd::multiset::group_multiset_axioms;

            assert(v == pre[j as int]);
            assert(pre.contains(v));
            assert(pre.to_multiset().count(v) > 0);
            assert(out@.to_multiset().add(rest@.to_multiset()) =~= orig.to_multiset());
        }
    }
    proof {
        broadcast use vstd::seq_lib::group_to_multiset_ensures;
        broadcast use vstd::multiset::group_multiset_axioms;

        assert(rest@ =~= Seq::<Vec<u8>>::empty());
        assert(rest@.to_multiset() =~= Multiset::<Vec<u8>>::empty());
        assert(out@.to_multiset() =~= orig.to_multiset());
        assert(out@.to_multiset().len() == orig.to_multiset().len());
    }
    out
}

/// A list whose head value occurs nowhere else holds it exactly once.
proof fn lemma_count_single(s: Seq<Vec<u8>>, x: Vec<u8>)
    requires
        s.len() >= 1,
        s[0] == x,
        forall|j: int| 1 <= j < s.len() ==> (#[trigger] s[j])@ != s[0]@,
    ensures
        s.to_multiset().count(x) == 1,
    decreases s.len(),
{
    broadcast use vstd::seq_lib::group_to_multiset_ensures;
    broadcast use vstd::multiset::group_multiset_axioms;

    if s.len() == 1 {
        assert(s =~= Seq::<Vec<u8>>::empty().push(x));
        assert(Seq::<Vec<u8>>::empty().push(x).to_multiset() =~= Multiset::<
            Vec<u8>,
        >::empty().insert(x));
    } else {
        let s0 = s.drop_last();
        lemma_count_single(s0, x);
        assert(s.last()@ != x@);
        assert(s.last() != x);
        assert(s0.push(s.last()) =~= s);
        assert(s0.push(s.last()).to_multiset() =~= s0.to_multiset().insert(s.last()));
    }
}

/// A value sitting at two positions counts at least twice.
proof fn lemma_two_positions(s: Seq<Vec<u8>>, i: int, j: int)
    requires
        0 <= i < s.len(),
        0 <= j < s.len(),
        i != j,
        s[i] == s[j],
    ensures
        s.to_multiset().count(s[i]) >= 2,
{
    broadcast use vstd::seq_lib::group_to_multiset_ensures;
    broadcast use vstd::multiset::group_multiset_axioms;

    let (lo, hi) = if i < j {
        (i, j)
    } else {
        (j, i)
    };
    let t = s.remove(lo);
    assert(t.to_multiset() =~= s.to_multiset().remove(s[lo]));
    assert(t[hi - 1] == s[hi]);
    assert(t.contains(s[hi]));
    assert(t.to_multiset().count(s[hi]) > 0);
}

} // verus!
