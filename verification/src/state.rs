//! The platform as a mathematical value, what makes such a value valid, and
//! the effect of each operation on it.

use vstd::prelude::*;
use crate::engine::{lemma_newly_finished, newly_finished, ticked};
use crate::ledger::{
    bets_of, bettors_distinct, has_claimed, lemma_position_of, lemma_with_bet_bets,
    lemma_with_bet_sums, lemma_with_claim_bets, lemma_with_claim_sums, staked, staked_on,
    with_bet, with_claim, LedgerView,
};
use crate::ranking::{ids_below, ids_in_order, is_final_ranking, lemma_distinct_ids_bounded};
use crate::types::{
    AccountId, Bet, Horse, Race, RaceStatus, FINISH_LINE, HORSES_PER_RACE, RACE_DURATION_BLOCKS,
    TOTAL_RACES,
};

verus! {

/// The record of a race, its ranking as a sequence.
pub struct RaceView {
    pub id: u8,
    pub status: RaceStatus,
    pub start_block: u32,
    pub current_block: u32,
    pub winner: Option<u8>,
    pub rankings: Seq<u8>,
}

impl View for Race {
    type V = RaceView;

    open spec fn view(&self) -> RaceView {
        RaceView {
            id: self.id,
            status: self.status,
            start_block: self.start_block,
            current_block: self.current_block,
            winner: self.winner,
            rankings: self.rankings@,
        }
    }
}

/// All that the platform holds of one race: its record, its horses, its pools
/// and the ledgers of its bettors, in the order of their first bets.
pub struct BookView {
    pub race: RaceView,
    pub horses: Seq<Horse>,
    pub total_pool: nat,
    pub horse_pools: Seq<nat>,
    pub ledgers: Seq<LedgerView>,
}

/// The whole platform: its owner and one book per race, indexed by race id.
pub struct PlatformView {
    pub owner: AccountId,
    pub books: Seq<BookView>,
}

/// A horse at the start.
pub open spec fn fresh_horse(id: u8) -> Horse {
    Horse { id, position: 0, finished: false, finish_time: None }
}

/// A horse is either running short of the finish line, or finished, timed and
/// pinned to the finish line.
pub open spec fn horse_valid(horse: Horse) -> bool {
    &&& horse.finished <==> horse.finish_time is Some
    &&& horse.finished ==> horse.position == FINISH_LINE
    &&& !horse.finished ==> horse.position < FINISH_LINE
}

/// A bet recorded in the ledger of `bettor` on race `race_id`.
pub open spec fn bet_valid(bet: Bet, bettor: AccountId, race_id: int) -> bool {
    &&& bet.bettor == bettor
    &&& bet.race_id == race_id
    &&& bet.horse_id < HORSES_PER_RACE
    &&& bet.amount > 0
}

/// A ledger holds at least one bet, and only bets of its bettor on its race.
pub open spec fn ledger_valid(ledger: LedgerView, race_id: int) -> bool {
    &&& ledger.bets.len() > 0
    &&& forall|i: int|
        0 <= i < ledger.bets.len() ==> bet_valid(#[trigger] ledger.bets[i], ledger.bettor, race_id)
}

/// What the status of a race says of its record and its horses.
pub open spec fn race_valid(race: RaceView, horses: Seq<Horse>) -> bool {
    match race.status {
        RaceStatus::Pending => {
            &&& race.rankings.len() == 0
            &&& race.winner is None
            &&& race.start_block == 0
            &&& race.current_block == 0
            &&& forall|i: int|
                0 <= i < horses.len() ==> #[trigger] horses[i] == fresh_horse(i as u8)
        },
        RaceStatus::Active => {
            &&& race.winner is None
            &&& race.start_block <= race.current_block
            &&& forall|i: int|
                0 <= i < race.rankings.len() ==> horses[(#[trigger] race.rankings[i]) as int].finished
        },
        RaceStatus::Finished => {
            &&& is_final_ranking(horses, race.rankings)
            &&& race.winner == Some(race.rankings[0])
        },
    }
}

/// The invariant of one book, held at index `id`.
pub open spec fn book_valid(book: BookView, id: int) -> bool {
    &&& book.race.id == id
    &&& book.horses.len() == HORSES_PER_RACE
    &&& ids_in_order(book.horses)
    &&& forall|i: int| 0 <= i < book.horses.len() ==> horse_valid(#[trigger] book.horses[i])
    &&& ids_below(book.race.rankings, HORSES_PER_RACE as nat)
    &&& book.race.rankings.no_duplicates()
    &&& book.race.rankings.len() <= HORSES_PER_RACE
    &&& race_valid(book.race, book.horses)
    &&& book.horse_pools.len() == HORSES_PER_RACE
    &&& forall|h: int|
        0 <= h < HORSES_PER_RACE ==> #[trigger] book.horse_pools[h] == staked_on(
            book.ledgers,
            h as u8,
        )
    &&& book.total_pool == staked(book.ledgers)
    &&& book.total_pool <= u128::MAX
    &&& bettors_distinct(book.ledgers)
    &&& forall|k: int| 0 <= k < book.ledgers.len() ==> ledger_valid(#[trigger] book.ledgers[k], id)
    &&& book.race.status != RaceStatus::Finished ==> forall|k: int|
        0 <= k < book.ledgers.len() ==> !(#[trigger] book.ledgers[k]).claimed
}

/// The invariant of the platform.
pub open spec fn platform_valid(platform: PlatformView) -> bool {
    &&& platform.books.len() <= TOTAL_RACES
    &&& forall|r: int| 0 <= r < platform.books.len() ==> book_valid(#[trigger] platform.books[r], r)
}

/// The book of a race that was just created.
pub open spec fn fresh_book(id: u8) -> BookView {
    BookView {
        race: RaceView {
            id,
            status: RaceStatus::Pending,
            start_block: 0,
            current_block: 0,
            winner: None,
            rankings: Seq::empty(),
        },
        horses: Seq::new(HORSES_PER_RACE as nat, |i: int| fresh_horse(i as u8)),
        total_pool: 0,
        horse_pools: Seq::new(HORSES_PER_RACE as nat, |i: int| 0nat),
        ledgers: Seq::empty(),
    }
}

/// The book after its race was started at `block`.
pub open spec fn started_book(book: BookView, block: u32) -> BookView {
    BookView {
        race: RaceView {
            id: book.race.id,
            status: RaceStatus::Active,
            start_block: block,
            current_block: block,
            winner: book.race.winner,
            rankings: book.race.rankings,
        },
        horses: book.horses,
        total_pool: book.total_pool,
        horse_pools: book.horse_pools,
        ledgers: book.ledgers,
    }
}

/// The book after the tick at `block` moved its horses.
pub open spec fn ticked_book(book: BookView, block: u32, timestamp: u64) -> BookView {
    let elapsed = (block - book.race.start_block) as u32;
    let horses = ticked(book.horses, elapsed, block, timestamp);
    BookView {
        race: RaceView {
            id: book.race.id,
            status: book.race.status,
            start_block: book.race.start_block,
            current_block: block,
            winner: book.race.winner,
            rankings: book.race.rankings + newly_finished(
                book.horses,
                horses,
                book.horses.len() as int,
            ),
        },
        horses,
        total_pool: book.total_pool,
        horse_pools: book.horse_pools,
        ledgers: book.ledgers,
    }
}

/// The book after its race was closed with the final ranking `ranking`.
pub open spec fn closed_book(book: BookView, ranking: Seq<u8>) -> BookView {
    BookView {
        race: RaceView {
            id: book.race.id,
            status: RaceStatus::Finished,
            start_block: book.race.start_block,
            current_block: book.race.current_block,
            winner: Some(ranking[0]),
            rankings: ranking,
        },
        horses: book.horses,
        total_pool: book.total_pool,
        horse_pools: book.horse_pools,
        ledgers: book.ledgers,
    }
}

/// The book after `bet` was accepted.
pub open spec fn book_with_bet(book: BookView, bet: Bet) -> BookView {
    BookView {
        race: book.race,
        horses: book.horses,
        total_pool: book.total_pool + bet.amount as nat,
        horse_pools: book.horse_pools.update(
            bet.horse_id as int,
            book.horse_pools[bet.horse_id as int] + bet.amount as nat,
        ),
        ledgers: with_bet(book.ledgers, bet),
    }
}

/// The book after `bettor` claimed.
pub open spec fn book_with_claim(book: BookView, bettor: AccountId) -> BookView {
    BookView {
        race: book.race,
        horses: book.horses,
        total_pool: book.total_pool,
        horse_pools: book.horse_pools,
        ledgers: with_claim(book.ledgers, bettor),
    }
}

/// The platform with the book of race `race_id` replaced.
pub open spec fn with_book(platform: PlatformView, race_id: u8, book: BookView) -> PlatformView {
    PlatformView { owner: platform.owner, books: platform.books.update(race_id as int, book) }
}

/// Whether an active race has run out of time at `block`.
pub open spec fn timed_out(book: BookView, block: u32) -> bool {
    block - book.race.start_block >= RACE_DURATION_BLOCKS
}

/// Accepting a valid bet on a pending or running race keeps the book valid.
pub proof fn lemma_book_with_bet_valid(book: BookView, bet: Bet, id: int)
    requires
        book_valid(book, id),
        book.race.status != RaceStatus::Finished,
        bet_valid(bet, bet.bettor, id),
        book.total_pool + bet.amount <= u128::MAX,
    ensures
        book_valid(book_with_bet(book, bet), id),
{
    let after = book_with_bet(book, bet);
    lemma_position_of(book.ledgers, bet.bettor);
    lemma_with_bet_sums(book.ledgers, bet, 0);
    assert forall|h: int| 0 <= h < HORSES_PER_RACE implies #[trigger] after.horse_pools[h]
        == staked_on(after.ledgers, h as u8) by {
        lemma_with_bet_sums(book.ledgers, bet, h as u8);
    }
    assert forall|i: int, j: int| 0 <= i < j < after.ledgers.len() implies (
    #[trigger] after.ledgers[i]).bettor != (#[trigger] after.ledgers[j]).bettor by {}
}

/// A claim on a finished race keeps the book valid.
pub proof fn lemma_book_with_claim_valid(book: BookView, bettor: AccountId, id: int)
    requires
        book_valid(book, id),
        book.race.status == RaceStatus::Finished,
    ensures
        book_valid(book_with_claim(book, bettor), id),
{
    let after = book_with_claim(book, bettor);
    lemma_position_of(book.ledgers, bettor);
    lemma_with_claim_sums(book.ledgers, bettor, 0);
    assert forall|h: int| 0 <= h < HORSES_PER_RACE implies #[trigger] after.horse_pools[h]
        == staked_on(after.ledgers, h as u8) by {
        lemma_with_claim_sums(book.ledgers, bettor, h as u8);
    }
    assert forall|i: int, j: int| 0 <= i < j < after.ledgers.len() implies (
    #[trigger] after.ledgers[i]).bettor != (#[trigger] after.ledgers[j]).bettor by {}
}

/// A tick on a running race, at a block no earlier than its start, keeps the book valid.
pub proof fn lemma_ticked_book_valid(book: BookView, block: u32, timestamp: u64, id: int)
    requires
        book_valid(book, id),
        book.race.status == RaceStatus::Active,
        book.race.start_block <= block,
    ensures
        book_valid(ticked_book(book, block, timestamp), id),
{
    let after = ticked_book(book, block, timestamp);
    lemma_newly_finished(book.horses, after.horses, book.horses.len() as int);
    assert forall|i: int| 0 <= i < after.race.rankings.len() implies (
    #[trigger] after.race.rankings[i]) < HORSES_PER_RACE
        && after.horses[after.race.rankings[i] as int].finished by {}
    lemma_distinct_ids_bounded(after.race.rankings, HORSES_PER_RACE as nat);
}

/// A status is kept, or gives way to the next one: a race never goes back and
/// never skips a status.
pub open spec fn status_follows(before: RaceStatus, after: RaceStatus) -> bool {
    ||| after == before
    ||| before == RaceStatus::Pending && after == RaceStatus::Active
    ||| before == RaceStatus::Active && after == RaceStatus::Finished
}

/// What holds between a book and any later state of it: the status only moves
/// forward, no horse moves back or leaves the finish line, bets are only
/// appended, the pool never shrinks, and a claim once recorded stays recorded.
pub open spec fn book_follows(before: BookView, after: BookView) -> bool {
    &&& after.race.id == before.race.id
    &&& status_follows(before.race.status, after.race.status)
    &&& after.horses.len() == before.horses.len()
    &&& forall|h: int|
        0 <= h < before.horses.len() ==> {
            &&& (#[trigger] before.horses[h]).position <= after.horses[h].position
            &&& before.horses[h].finished ==> after.horses[h] == before.horses[h]
        }
    &&& before.total_pool <= after.total_pool
    &&& forall|bettor: AccountId| #[trigger]
        bets_of(before.ledgers, bettor).is_prefix_of(bets_of(after.ledgers, bettor))
    &&& forall|bettor: AccountId| #[trigger]
        has_claimed(before.ledgers, bettor) ==> has_claimed(after.ledgers, bettor)
}

/// What holds between the platform and any later state of it: the owner
/// stays, no race disappears, and every race's book follows its earlier one.
pub open spec fn platform_follows(before: PlatformView, after: PlatformView) -> bool {
    &&& after.owner == before.owner
    &&& before.books.len() <= after.books.len()
    &&& forall|r: int|
        0 <= r < before.books.len() ==> book_follows(
            #[trigger] before.books[r],
            after.books[r],
        )
}

/// A book with one more bet follows the book without it.
pub proof fn lemma_book_with_bet_follows(book: BookView, bet: Bet)
    ensures
        book_follows(book, book_with_bet(book, bet)),
{
    let after = book_with_bet(book, bet);
    assert forall|bettor: AccountId| #[trigger]
        bets_of(book.ledgers, bettor).is_prefix_of(bets_of(after.ledgers, bettor)) by {
        lemma_with_bet_bets(book.ledgers, bet, bettor);
    }
    assert forall|bettor: AccountId| #[trigger]
        has_claimed(book.ledgers, bettor) implies has_claimed(after.ledgers, bettor) by {
        lemma_with_bet_bets(book.ledgers, bet, bettor);
    }
}

/// A book with one more claim follows the book without it.
pub proof fn lemma_book_with_claim_follows(book: BookView, claimant: AccountId)
    ensures
        book_follows(book, book_with_claim(book, claimant)),
{
    let after = book_with_claim(book, claimant);
    assert forall|bettor: AccountId| #[trigger]
        bets_of(book.ledgers, bettor).is_prefix_of(bets_of(after.ledgers, bettor)) by {
        lemma_with_claim_bets(book.ledgers, claimant, bettor);
    }
    assert forall|bettor: AccountId| #[trigger]
        has_claimed(book.ledgers, bettor) implies has_claimed(after.ledgers, bettor) by {
        lemma_with_claim_bets(book.ledgers, claimant, bettor);
    }
}

} // verus!
