//! Error taxonomy of the router.

use vstd::prelude::*;

verus! {

/// Failure classes reported by the router.
///
/// `InsufficientLiquidity`: no viable path or edge meets reserve
/// requirements. `PriceImpactTooHigh`: a path exists but violates the
/// impact ceiling. `ExecutionError`: a downstream submission or claim
/// failed. `ChainError`: an external chain is unreachable or inconsistent.
/// `ConfigError`: a registration (token, bridge) is missing.
#[derive(Debug)]
pub enum RouterError {
    InsufficientLiquidity(String),
    PriceImpactTooHigh(String),
    ExecutionError(String),
    ChainError(String),
    ConfigError(String),
}

impl RouterError {
    /// Short label naming the error class, for embedding layers to render.
    pub fn label(&self) -> (r: &'static str)
        ensures
            r@ == self.label_spec(),
    {
        match self {
            RouterError::InsufficientLiquidity(_) => "insufficient liquidity",
            RouterError::PriceImpactTooHigh(_) => "price impact too high",
            RouterError::ExecutionError(_) => "execution error",
            RouterError::ChainError(_) => "chain error",
            RouterError::ConfigError(_) => "configuration error",
        }
    }

    pub open spec fn label_spec(&self) -> Seq<char> {
        match self {
            RouterError::InsufficientLiquidity(_) => "insufficient liquidity"@,
            RouterError::PriceImpactTooHigh(_) => "price impact too high"@,
            RouterError::ExecutionError(_) => "execution error"@,
            RouterError::ChainError(_) => "chain error"@,
            RouterError::ConfigError(_) => "configuration error"@,
        }
    }
}

} // verus!
