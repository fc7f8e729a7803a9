//! State core of a content-rewards platform: token ledger, reputation,
//! content items, deduplicated likes and shares, and a top-ten leaderboard.
pub mod identity;
pub mod consistency;
pub mod laws;
pub mod model;
pub mod platform;
pub mod ranking;
pub mod rewards;

pub use identity::Identity;
pub use model::PlatformError;
pub use platform::{Leaderboard, State, Vibe};
pub use rewards::Reaction;
