//! The platform as plain records: what a host keeps between calls.

use vstd::prelude::*;
use crate::ledger::LedgerView;
use crate::state::{BookView, PlatformView};
use crate::types::{AccountId, Balance, Bet, Horse, Race};

verus! {

/// The bets of one bettor on one race, and whether the bettor has claimed.
#[derive(Debug, Clone)]
pub struct Ledger {
    pub bettor: AccountId,
    pub bets: Vec<Bet>,
    pub claimed: bool,
}

/// One race with its horses, its pools and the ledgers of its bettors.
#[derive(Debug, Clone)]
pub struct RaceBook {
    pub race: Race,
    pub horses: Vec<Horse>,
    pub total_pool: Balance,
    pub horse_pools: Vec<Balance>,
    pub ledgers: Vec<Ledger>,
}

/// A whole platform: its owner and the books of its races by race id.
#[derive(Debug, Clone)]
pub struct PlatformRecord {
    pub owner: AccountId,
    pub books: Vec<RaceBook>,
}

/// The ledgers as mathematical values.
pub open spec fn ledger_views(ledgers: Seq<Ledger>) -> Seq<LedgerView> {
    ledgers.map_values(|ledger: Ledger| ledger@)
}

/// The books as mathematical values.
pub open spec fn book_views(books: Seq<RaceBook>) -> Seq<BookView> {
    books.map_values(|book: RaceBook| book@)
}

impl View for Ledger {
    type V = LedgerView;

    open spec fn view(&self) -> LedgerView {
        LedgerView { bettor: self.bettor, bets: self.bets@, claimed: self.claimed }
    }
}

impl View for RaceBook {
    type V = BookView;

    open spec fn view(&self) -> BookView {
        BookView {
            race: self.race@,
            horses: self.horses@,
            total_pool: self.total_pool as nat,
            horse_pools: self.horse_pools@.map_values(|pool: Balance| pool as nat),
            ledgers: ledger_views(self.ledgers@),
        }
    }
}

impl View for PlatformRecord {
    type V = PlatformView;

    open spec fn view(&self) -> PlatformView {
        PlatformView { owner: self.owner, books: book_views(self.books@) }
    }
}

} // verus!
