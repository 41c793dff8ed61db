//! Turboflow event-contract client library: credentials, JWT payloads, the
//! JSON model of the service's replies, and the rules applied to them.
pub mod text;
pub mod json;
pub mod types;
pub mod utils;
pub mod auth;
pub mod login;
pub mod trader;

pub use auth::AuthStore;
pub use login::TurboflowLogin;
pub use trader::TurboflowTrader;
pub use types::{
    AuthInfo, AuthStatus, DurationConfig, Error, EventContract, EventContractConfig, Result,
    BTC_USDT_PAIR_ID, DEFAULT_POOL_ID, DURATION_10M, DURATION_15M, DURATION_1H, DURATION_30S,
    DURATION_3M, DURATION_5M, DURATION_60S, ETH_USDT_PAIR_ID, ORDER_WAY_HIGHER, ORDER_WAY_LOWER,
    XAU_USDT_PAIR_ID,
};
