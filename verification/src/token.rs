//! Tokens and liquidity venues: the immutable descriptors the registry owns.

use vstd::prelude::*;

verus! {

/// A token registered on some chain. Identity is `(chain_id, address)`;
/// `decimals` is used by callers for amount normalization.
#[derive(Debug)]
pub struct Token {
    pub chain_id: u64,
    pub address: String,
    pub symbol: String,
    pub decimals: u8,
}

impl Token {
    /// Two tokens denote the same asset when chain and address agree.
    pub open spec fn same_key(self, other: Token) -> bool {
        self.chain_id == other.chain_id && self.address@ == other.address@
    }

    /// Identity test on `(chain_id, address)`.
    pub fn key_eq(&self, other: &Token) -> (r: bool)
        ensures
            r == self.same_key(*other),
    {
        self.chain_id == other.chain_id && self.address == other.address
    }
}

impl Clone for Token {
    fn clone(&self) -> (r: Self)
        ensures
            r == *self,
    {
        Token {
            chain_id: self.chain_id,
            address: self.address.clone(),
            symbol: self.symbol.clone(),
            decimals: self.decimals,
        }
    }
}

/// A liquidity venue descriptor: one adapter instance serves each venue id.
#[derive(Debug)]
pub struct Exchange {
    pub id: String,
    pub name: String,
    pub chain_id: u64,
    pub router_address: String,
    pub factory_address: Option<String>,
    pub fee_tiers: Vec<u32>,
}

impl Clone for Exchange {
    fn clone(&self) -> (r: Self)
        ensures
            r.id == self.id,
            r.name == self.name,
            r.chain_id == self.chain_id,
            r.router_address == self.router_address,
            r.factory_address == self.factory_address,
            r.fee_tiers@ == self.fee_tiers@,
    {
        Exchange {
            id: self.id.clone(),
            name: self.name.clone(),
            chain_id: self.chain_id,
            router_address: self.router_address.clone(),
            factory_address: match &self.factory_address {
                Some(a) => Some(a.clone()),
                None => None,
            },
            fee_tiers: self.fee_tiers.clone(),
        }
    }
}

} // verus!
