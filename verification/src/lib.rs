//! Multi-chain DEX aggregation router: route optimization across liquidity
//! venues, MEV-resistant bundle preparation, and a hash-time-locked
//! cross-chain swap coordinator.

pub mod cache;
pub mod crosschain;
pub mod digest;
pub mod engine;
pub mod errors;
pub mod hexcode;
pub mod mev;
pub mod randsrc;
pub mod routes;
pub mod token;

pub use cache::PriceCache;
pub use engine::LiquiditySource;
pub use engine::RouterEngine;
pub use routes::QuoteRequest;
pub use routes::QuoteResponse;
pub use routes::SwapRoute;
pub use routes::SwapStep;

pub use errors::RouterError;
pub use token::Exchange;
pub use token::Token;
