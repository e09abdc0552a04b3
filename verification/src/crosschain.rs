//! Cross-chain atomic swaps: a hash-time-locked state machine.
//!
//! Each swap record moves `Initiated -> Claimed` (the secret whose
//! digest matches the stored hash is presented before expiration) or
//! `Initiated -> Refunded` (the expiration has passed); both are
//! terminal and mutually exclusive. The coordinator only ever sees the
//! secret's hash at initiation; a failed claim or refund leaves the
//! record untouched.

use vstd::prelude::*;

use crate::digest::sha256;
use crate::digest::sha256_of;
use crate::errors::RouterError;
use crate::hexcode::hex_of;
use crate::hexcode::hex_string;
use crate::randsrc::random_bytes_32;

verus! {

/// The lifecycle of a hash-time-locked swap.
#[derive(Debug, Clone, Copy, PartialEq, Eq, Structural)]
pub enum SwapState {
    Initiated,
    Claimed,
    Refunded,
}

/// A registered bridge between two chains.
#[derive(Debug)]
pub struct Bridge {
    pub source_chain: u64,
    pub dest_chain: u64,
    pub bridge_address: String,
}

/// One hash-time-locked swap.
#[derive(Debug)]
pub struct SwapRecord {
    pub record_id: u64,
    pub source_chain: u64,
    pub dest_chain: u64,
    pub secret_hash: Vec<u8>,
    pub expiration: u64,
    pub amount: u128,
    pub state: SwapState,
}

/// Some bridge serves the ordered chain pair.
pub open spec fn has_bridge(bs: Seq<Bridge>, source_chain: u64, dest_chain: u64) -> bool {
    exists|i: int|
        0 <= i < bs.len() && (#[trigger] bs[i]).source_chain == source_chain
            && bs[i].dest_chain == dest_chain
}

/// A claim of `secret` at `now` is valid against record `rec`.
pub open spec fn claim_valid(rec: SwapRecord, secret: Seq<u8>, now: u64) -> bool {
    &&& rec.state == SwapState::Initiated
    &&& sha256_of(secret) == rec.secret_hash@
    &&& now < rec.expiration
}

/// A refund at `now` is valid against record `rec`.
pub open spec fn refund_valid(rec: SwapRecord, now: u64) -> bool {
    &&& rec.state == SwapState::Initiated
    &&& now >= rec.expiration
}

/// `rec` is `old_rec` moved to `state`, everything else untouched.
pub open spec fn stepped(old_rec: SwapRecord, rec: SwapRecord, state: SwapState) -> bool {
    rec == SwapRecord {
        record_id: old_rec.record_id,
        source_chain: old_rec.source_chain,
        dest_chain: old_rec.dest_chain,
        secret_hash: old_rec.secret_hash,
        expiration: old_rec.expiration,
        amount: old_rec.amount,
        state,
    }
}

/// The hash-time-locked swap coordinator: a read-only bridge registry
/// and the store of swap records, one independently updated record per
/// swap.
pub struct CrossChainSwap {
    bridges: Vec<Bridge>,
    records: Vec<SwapRecord>,
}

impl CrossChainSwap {
    /// Registered bridges, in registration order.
    pub closed spec fn spec_bridges(self) -> Seq<Bridge> {
        self.bridges@
    }

    /// Swap records; the record with id `i` sits at position `i`.
    pub closed spec fn spec_records(self) -> Seq<SwapRecord> {
        self.records@
    }

    /// Record ids equal their positions, so ids are never reused.
    pub open spec fn wf(self) -> bool {
        forall|i: int|
            0 <= i < self.spec_records().len() ==> (#[trigger] self.spec_records()[i]).record_id
                == i
    }

    pub fn new() -> (r: Self)
        ensures
            r.spec_bridges() == Seq::<Bridge>::empty(),
            r.spec_records() == Seq::<SwapRecord>::empty(),
            r.wf(),
    {
        let r = CrossChainSwap { bridges: Vec::new(), records: Vec::new() };
        proof {
            assert(r.spec_bridges() =~= Seq::<Bridge>::empty());
            assert(r.spec_records() =~= Seq::<SwapRecord>::empty());
        }
        r
    }

    /// Register the bridge serving `(source_chain, dest_chain)`.
    pub fn register_bridge(&mut self, source_chain: u64, dest_chain: u64, bridge_address: String)
        ensures
            final(self).spec_bridges() == old(self).spec_bridges().push(
                Bridge { source_chain, dest_chain, bridge_address },
            ),
            final(self).spec_records() == old(self).spec_records(),
            old(self).wf() ==> final(self).wf(),
    {
        self.bridges.push(Bridge { source_chain, dest_chain, bridge_address });
    }

    /// Draw a fresh 32-byte secret and its one-way digest. Only the
    /// digest is ever handed to `initiate_swap`; the secret stays with
    /// the caller until a claim reveals it.
    pub fn generate_secret() -> (r: (Vec<u8>, Vec<u8>))
        ensures
            r.0@.len() == 32,
            r.1@ == sha256_of(r.0@),
            r.1@.len() == 32,
    {
        let secret = random_bytes_32();
        let hash = sha256(secret.as_slice());
        (secret, hash)
    }

    /// Lock a swap: requires a registered bridge for the chain pair;
    /// on success a record in `Initiated` is appended and its id
    /// returned. The coordinator receives only the secret's hash.
    pub fn initiate_swap(
        &mut self,
        source_chain: u64,
        dest_chain: u64,
        secret_hash: Vec<u8>,
        expiration: u64,
        amount: u128,
    ) -> (r: Result<u64, RouterError>)
        requires
            old(self).wf(),
            old(self).spec_records().len() < u64::MAX,
        ensures
            final(self).wf(),
            final(self).spec_bridges() == old(self).spec_bridges(),
            match r {
                Ok(id) => {
                    &&& has_bridge(old(self).spec_bridges(), source_chain, dest_chain)
                    &&& id == old(self).spec_records().len()
                    &&& final(self).spec_records() == old(self).spec_records().push(
                        SwapRecord {
                            record_id: id,
                            source_chain,
                            dest_chain,
                            secret_hash,
                            expiration,
                            amount,
                            state: SwapState::Initiated,
                        },
                    )
                },
                Err(RouterError::ConfigError(_)) => {
                    &&& !has_bridge(old(self).spec_bridges(), source_chain, dest_chain)
                    &&& final(self).spec_records() == old(self).spec_records()
                },
                Err(_) => false,
            },
    {
        let nb = self.bridges.len();
        let mut i: usize = 0;
        let mut found = false;
        while i < nb
            invariant
                nb == self.bridges.len(),
                i <= nb,
                self.bridges@ == old(self).bridges@,
                self.records@ == old(self).records@,
                found == exists|k: int|
                    0 <= k < i && (#[trigger] self.bridges@[k]).source_chain == source_chain
                        && self.bridges@[k].dest_chain == dest_chain,
            decreases nb - i,
        {
            if self.bridges[i].source_chain == source_chain && self.bridges[i].dest_chain
                == dest_chain {
                found = true;
            }
            i = i + 1;
        }
        if !found {
            return Err(
                RouterError::ConfigError(
                    str::to_owned("no bridge registered for the chain pair"),
                ),
            );
        }
        let id = self.records.len() as u64;
        self.records.push(
            SwapRecord {
                record_id: id,
                source_chain,
                dest_chain,
                secret_hash,
                expiration,
                amount,
                state: SwapState::Initiated,
            },
        );
        Ok(id)
    }

    /// A copy of a record's fixed fields and current state, for
    /// inspection; `None` for an unknown id.
    pub fn get_record(&self, record_id: u64) -> (r: Option<(u64, u64, u64, u128, SwapState)>)
        requires
            self.wf(),
        ensures
            match r {
                Some(view) => {
                    &&& record_id < self.spec_records().len()
                    &&& view == {
                        let rec = self.spec_records()[record_id as int];
                        (rec.source_chain, rec.dest_chain, rec.expiration, rec.amount, rec.state)
                    }
                },
                None => record_id >= self.spec_records().len(),
            },
    {
        if record_id >= self.records.len() as u64 {
            return None;
        }
        let rec = &self.records[record_id as usize];
        Some((rec.source_chain, rec.dest_chain, rec.expiration, rec.amount, rec.state))
    }

    /// Claim a lock by revealing the secret: valid only from
    /// `Initiated`, only when the secret's digest equals the stored
    /// hash, and only before expiration. On success the record becomes
    /// `Claimed` and the receipt carries the revealed hash; any failure
    /// leaves every record exactly as it was.
    pub fn claim_funds(&mut self, record_id: u64, secret: Vec<u8>, now: u64) -> (r: Result<
        String,
        RouterError,
    >)
        requires
            old(self).wf(),
        ensures
            final(self).wf(),
            final(self).spec_bridges() == old(self).spec_bridges(),
            match r {
                Ok(receipt) => {
                    &&& record_id < old(self).spec_records().len()
                    &&& claim_valid(old(self).spec_records()[record_id as int], secret@, now)
                    &&& final(self).spec_records().len() == old(self).spec_records().len()
                    &&& stepped(
                        old(self).spec_records()[record_id as int],
                        final(self).spec_records()[record_id as int],
                        SwapState::Claimed,
                    )
                    &&& forall|k: int|
                        0 <= k < old(self).spec_records().len() && k != record_id
                            ==> final(self).spec_records()[k] == old(self).spec_records()[k]
                    &&& receipt@ == seq!['0', 'x'] + hex_of(
                        old(self).spec_records()[record_id as int].secret_hash@,
                    )
                },
                Err(RouterError::ConfigError(_)) => {
                    &&& record_id >= old(self).spec_records().len()
                    &&& final(self).spec_records() == old(self).spec_records()
                },
                Err(RouterError::ExecutionError(_)) => {
                    &&& record_id < old(self).spec_records().len()
                    &&& !claim_valid(old(self).spec_records()[record_id as int], secret@, now)
                    &&& final(self).spec_records() == old(self).spec_records()
                },
                Err(_) => false,
            },
    {
        if record_id >= self.records.len() as u64 {
            return Err(RouterError::ConfigError(str::to_owned("unknown swap record")));
        }
        let idx = record_id as usize;
        let initiated = matches!(self.records[idx].state, SwapState::Initiated);
        if !initiated {
            return Err(
                RouterError::ExecutionError(str::to_owned("swap is no longer claimable")),
            );
        }
        if now >= self.records[idx].expiration {
            return Err(RouterError::ExecutionError(str::to_owned("swap has expired")));
        }
        let digest = sha256(secret.as_slice());
        if !hash_eq(&digest, &self.records[idx].secret_hash) {
            return Err(
                RouterError::ExecutionError(str::to_owned("secret does not match the lock")),
            );
        }
        let ghost pre = self.records@;
        let old_rec = self.records.remove(idx);
        let receipt_body = hex_string(&old_rec.secret_hash);
        let new_rec = SwapRecord {
            record_id: old_rec.record_id,
            source_chain: old_rec.source_chain,
            dest_chain: old_rec.dest_chain,
            secret_hash: old_rec.secret_hash,
            expiration: old_rec.expiration,
            amount: old_rec.amount,
            state: SwapState::Claimed,
        };
        self.records.insert(idx, new_rec);
        let mut receipt = str::to_owned("0x");
        receipt.append(receipt_body.as_str());
        proof {
            assert(self.records@ =~= pre.update(idx as int, new_rec));
            reveal_strlit("0x");
            assert("0x"@ =~= seq!['0', 'x']);
        }
        Ok(receipt)
    }

    /// Refund a lock after its expiration: valid only from `Initiated`
    /// once `now >= expiration`. On success the record becomes
    /// `Refunded`; any failure leaves every record exactly as it was.
    pub fn refund(&mut self, record_id: u64, now: u64) -> (r: Result<String, RouterError>)
        requires
            old(self).wf(),
        ensures
            final(self).wf(),
            final(self).spec_bridges() == old(self).spec_bridges(),
            match r {
                Ok(receipt) => {
                    &&& record_id < old(self).spec_records().len()
                    &&& refund_valid(old(self).spec_records()[record_id as int], now)
                    &&& final(self).spec_records().len() == old(self).spec_records().len()
                    &&& stepped(
                        old(self).spec_records()[record_id as int],
                        final(self).spec_records()[record_id as int],
                        SwapState::Refunded,
                    )
                    &&& forall|k: int|
                        0 <= k < old(self).spec_records().len() && k != record_id
                            ==> final(self).spec_records()[k] == old(self).spec_records()[k]
                    &&& receipt@ == seq!['0', 'x'] + hex_of(
                        old(self).spec_records()[record_id as int].secret_hash@,
                    )
                },
                Err(RouterError::ConfigError(_)) => {
                    &&& record_id >= old(self).spec_records().len()
                    &&& final(self).spec_records() == old(self).spec_records()
                },
                Err(RouterError::ExecutionError(_)) => {
                    &&& record_id < old(self).spec_records().len()
                    &&& !refund_valid(old(self).spec_records()[record_id as int], now)
                    &&& final(self).spec_records() == old(self).spec_records()
                },
                Err(_) => false,
            },
    {
        if record_id >= self.records.len() as u64 {
            return Err(RouterError::ConfigError(str::to_owned("unknown swap record")));
        }
        let idx = record_id as usize;
        let initiated = matches!(self.records[idx].state, SwapState::Initiated);
        if !initiated {
            return Err(
                RouterError::ExecutionError(str::to_owned("swap is no longer refundable")),
            );
        }
        if now < self.records[idx].expiration {
            return Err(RouterError::ExecutionError(str::to_owned("swap has not expired yet")));
        }
        let ghost pre = self.records@;
        let old_rec = self.records.remove(idx);
        let receipt_body = hex_string(&old_rec.secret_hash);
        let new_rec = SwapRecord {
            record_id: old_rec.record_id,
            source_chain: old_rec.source_chain,
            dest_chain: old_rec.dest_chain,
            secret_hash: old_rec.secret_hash,
            expiration: old_rec.expiration,
            amount: old_rec.amount,
            state: SwapState::Refunded,
        };
        self.records.insert(idx, new_rec);
        let mut receipt = str::to_owned("0x");
        receipt.append(receipt_body.as_str());
        proof {
            assert(self.records@ =~= pre.update(idx as int, new_rec));
            reveal_strlit("0x");
            assert("0x"@ =~= seq!['0', 'x']);
        }
        Ok(receipt)
    }
}

/// Byte-wise equality of two digests.
fn hash_eq(a: &Vec<u8>, b: &Vec<u8>) -> (r: bool)
    ensures
        r == (a@ == b@),
{
    if a.len() != b.len() {
        return false;
    }
    let n = a.len();
    let mut i: usize = 0;
    while i < n
        invariant
            n == a@.len(),
            n == b@.len(),
            i <= n,
            forall|k: int| 0 <= k < i ==> a@[k] == b@[k],
        decreases n - i,
    {
        if a[i] != b[i] {
            return false;
        }
        i = i + 1;
    }
    proof {
        assert(a@ =~= b@);
    }
    true
}

/// Terminality law: `Claimed` and `Refunded` are mutually exclusive
/// ends. A record that a valid claim could move to `Claimed` cannot at
/// the same time be refunded, and vice versa — and a record that has
/// left `Initiated` satisfies neither predicate, so no operation ever
/// moves it again.
pub proof fn lemma_terminal_exclusive(rec: SwapRecord, secret: Seq<u8>, now: u64)
    ensures
        !(claim_valid(rec, secret, now) && refund_valid(rec, now)),
        rec.state != SwapState::Initiated ==> !claim_valid(rec, secret, now) && !refund_valid(
            rec,
            now,
        ),
{
}

} // verus!
