//! Plain data of the platform: identities, races, horses, bets, errors and the
//! events that operations report.

use vstd::prelude::*;

verus! {

/// Number of blocks after which an active race is closed whatever the horses did.
pub const RACE_DURATION_BLOCKS: u32 = 100;

/// Number of horses in every race; horse ids are `0..HORSES_PER_RACE`.
pub const HORSES_PER_RACE: u8 = 6;

/// Largest number of races the platform ever creates; race ids are `0..TOTAL_RACES`.
pub const TOTAL_RACES: u8 = 5;

/// Distance at which a horse has finished.
pub const FINISH_LINE: u32 = 1000;

/// An amount of value.
pub type Balance = u128;

/// The identity of an account: 32 opaque bytes, compared for equality only.
#[derive(Clone, Copy, Debug, PartialEq, Eq)]
pub struct AccountId {
    pub bytes: [u8; 32],
}

impl AccountId {
    /// Wraps 32 raw bytes.
    pub fn new(bytes: [u8; 32]) -> (id: AccountId)
        ensures
            id.bytes == bytes,
    {
        AccountId { bytes }
    }

    /// Whether two identities are the same account.
    pub fn same_as(&self, other: &AccountId) -> (same: bool)
        ensures
            same == (*self == *other),
    {
        let mut i: usize = 0;
        while i < 32
            invariant
                i <= 32,
                forall|j: int| 0 <= j < i ==> self.bytes[j] == other.bytes[j],
            decreases 32 - i,
        {
            if self.bytes[i] != other.bytes[i] {
                return false;
            }
            i += 1;
        }
        assert(self.bytes == other.bytes);
        true
    }
}

/// Where a race stands in its life.
#[derive(Debug, Clone, Copy, PartialEq, Eq, Structural)]
pub enum RaceStatus {
    Pending,
    Active,
    Finished,
}

/// One horse of one race.
#[derive(Debug, Clone, Copy)]
pub struct Horse {
    pub id: u8,
    pub position: u32,
    pub finished: bool,
    pub finish_time: Option<u32>,
}

/// The record of one race.
#[derive(Debug, Clone)]
pub struct Race {
    pub id: u8,
    pub status: RaceStatus,
    pub start_block: u32,
    pub current_block: u32,
    pub winner: Option<u8>,
    pub rankings: Vec<u8>,
}

/// One wager.
#[derive(Debug, Clone, Copy)]
pub struct Bet {
    pub bettor: AccountId,
    pub race_id: u8,
    pub horse_id: u8,
    pub amount: Balance,
}

/// Reported when a race starts.
#[derive(Debug, Clone, Copy)]
pub struct RaceStarted {
    pub race_id: u8,
    pub start_block: u32,
}

/// Reported after a tick: the new position of every horse that ran in it.
#[derive(Debug, Clone)]
pub struct RaceUpdate {
    pub race_id: u8,
    pub block_number: u32,
    pub positions: Vec<(u8, u32)>,
}

/// Reported when a race is closed.
#[derive(Debug, Clone)]
pub struct RaceFinished {
    pub race_id: u8,
    pub winner: u8,
    pub rankings: Vec<u8>,
}

/// What one call that advances a race reports: the tick, where one was run,
/// and the close of the race, where the call closed it.
#[derive(Debug, Clone)]
pub struct RaceProgress {
    pub update: Option<RaceUpdate>,
    pub finished: Option<RaceFinished>,
}

/// Reported when a bet is accepted.
#[derive(Debug, Clone, Copy)]
pub struct BetPlaced {
    pub bettor: AccountId,
    pub race_id: u8,
    pub horse_id: u8,
    pub amount: Balance,
}

/// Why an operation was refused.
#[derive(Debug, Clone, Copy, PartialEq, Eq, Structural)]
pub enum Error {
    RaceNotFound,
    RaceNotActive,
    RaceAlreadyStarted,
    RaceNotFinished,
    MaxRacesReached,
    InvalidHorse,
    BettingClosed,
    InvalidBetAmount,
    NoWinner,
    NoWinningBets,
    AlreadyClaimed,
    TransferFailed,
    Unauthorized,
}

} // verus!
