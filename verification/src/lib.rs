//! A pari-mutuel horse racing platform.
//!
//! Races move through `Pending -> Active -> Finished`. While a race is pending,
//! bettors stake amounts on horses; once it is active, each tick moves every
//! running horse by a deterministic pseudo-random distance; once it is finished,
//! every bettor who backed the winner may claim a share of the whole pool in
//! proportion to their stake on the winner.
//!
//! The platform is an explicit state value: every operation takes the caller's
//! identity, the current block and the block timestamp as plain arguments and
//! hands back the events that the host should publish.
//!
//! - [`types`]: identities, races, horses, bets, errors and events.
//! - [`engine`]: the deterministic draw and the tick that moves the horses.
//! - [`ranking`]: the final order of a race.
//! - [`payout`]: the settlement arithmetic, exact on 128 bits.
//! - [`ledger`]: bets and pools as mathematical values.
//! - [`state`]: the platform as a mathematical value, and its invariant.
//! - [`platform`]: the platform and its operations.
//! - [`record`] and [`audit`]: the platform as plain records, and their validation.
//! - [`laws`]: what holds of every valid platform.

pub mod audit;
pub mod engine;
pub mod laws;
pub mod ledger;
pub mod payout;
pub mod platform;
pub mod ranking;
pub mod record;
pub mod state;
pub mod types;

pub use platform::{transfer_outcome, KareraPlatform};
pub use record::{Ledger, PlatformRecord, RaceBook};
pub use types::{
    AccountId, Balance, Bet, BetPlaced, Error, Horse, Race, RaceFinished, RaceProgress,
    RaceStarted, RaceStatus, RaceUpdate, FINISH_LINE, HORSES_PER_RACE, RACE_DURATION_BLOCKS,
    TOTAL_RACES,
};
