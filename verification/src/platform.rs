//! The platform itself: the state that the operations work on, and the
//! operations.

use vstd::prelude::*;
use crate::audit::record_is_valid;
use crate::engine::{all_finished, reported, run_tick};
use crate::ledger::{
    bets_of, has_claimed, lemma_ledger_within_pool, lemma_position_found, lemma_position_of,
    lemma_stake_prefix, lemma_stake_push, lemma_staked_on_within_total, position_of, stake_on,
    staked, staked_on,
};
use crate::payout::{payout, payout_of};
use crate::ranking::{final_ranking, is_final_ranking};
use crate::record::{book_views, ledger_views, Ledger, PlatformRecord, RaceBook};
use crate::state::{
    book_with_bet, book_with_claim, closed_book, fresh_book, fresh_horse,
    lemma_book_with_bet_follows, lemma_book_with_bet_valid, lemma_book_with_claim_follows,
    lemma_book_with_claim_valid, lemma_ticked_book_valid, platform_follows, platform_valid,
    started_book, ticked_book, timed_out, with_book, BookView, PlatformView,
};
use crate::types::{
    AccountId, Balance, Bet, BetPlaced, Error, Horse, Race, RaceFinished, RaceProgress, RaceStarted,
    RaceStatus, RaceUpdate, HORSES_PER_RACE, RACE_DURATION_BLOCKS, TOTAL_RACES,
};

verus! {

/// The racing platform: an owner and the races created so far.
pub struct KareraPlatform {
    owner: AccountId,
    books: Vec<RaceBook>,
}

impl View for KareraPlatform {
    type V = PlatformView;

    closed spec fn view(&self) -> PlatformView {
        PlatformView { owner: self.owner, books: book_views(self.books@) }
    }
}

/// The error, if any, with which starting race `race_id` is refused to `caller`.
pub open spec fn start_refusal(
    platform: PlatformView,
    caller: AccountId,
    race_id: u8,
) -> Option<Error> {
    if caller != platform.owner {
        Some(Error::Unauthorized)
    } else if race_id >= platform.books.len() {
        Some(Error::RaceNotFound)
    } else if platform.books[race_id as int].race.status != RaceStatus::Pending {
        Some(Error::RaceAlreadyStarted)
    } else {
        None
    }
}

/// The error, if any, with which a bet of `amount` on horse `horse_id` of race
/// `race_id` is refused. An amount that the pool cannot hold is refused like an
/// amount of zero.
pub open spec fn bet_refusal(
    platform: PlatformView,
    race_id: u8,
    horse_id: u8,
    amount: Balance,
) -> Option<Error> {
    if race_id >= platform.books.len() {
        Some(Error::RaceNotFound)
    } else if platform.books[race_id as int].race.status != RaceStatus::Pending {
        Some(Error::BettingClosed)
    } else if horse_id >= HORSES_PER_RACE {
        Some(Error::InvalidHorse)
    } else if amount == 0 {
        Some(Error::InvalidBetAmount)
    } else if platform.books[race_id as int].total_pool + amount > u128::MAX {
        Some(Error::InvalidBetAmount)
    } else {
        None
    }
}

/// What `bettor` staked on the winner of the race, zero where there is no winner.
pub open spec fn winning_stake(book: BookView, bettor: AccountId) -> nat {
    match book.race.winner {
        Some(winner) => stake_on(bets_of(book.ledgers, bettor), winner),
        None => 0,
    }
}

/// What was staked on the winner of the race by all bettors together.
pub open spec fn winning_pool(book: BookView) -> nat {
    match book.race.winner {
        Some(winner) => book.horse_pools[winner as int],
        None => 0,
    }
}

/// The error, if any, with which a claim of `caller` on race `race_id` is refused.
pub open spec fn claim_refusal(
    platform: PlatformView,
    caller: AccountId,
    race_id: u8,
) -> Option<Error> {
    if race_id >= platform.books.len() {
        Some(Error::RaceNotFound)
    } else {
        let book = platform.books[race_id as int];
        if book.race.status != RaceStatus::Finished {
            Some(Error::RaceNotFinished)
        } else if has_claimed(book.ledgers, caller) {
            Some(Error::AlreadyClaimed)
        } else if book.race.winner is None {
            Some(Error::NoWinner)
        } else if winning_stake(book, caller) == 0 {
            Some(Error::NoWinningBets)
        } else {
            None
        }
    }
}

/// What a claim of `bettor` pays: the bettor's share of the whole pool, in
/// proportion to the bettor's part of the stake on the winner, rounded down.
pub open spec fn claim_amount(book: BookView, bettor: AccountId) -> nat {
    payout_of(winning_stake(book, bettor), book.total_pool, winning_pool(book))
}

/// The platform with one more race, pending, under the next race id.
pub open spec fn with_new_book(platform: PlatformView) -> PlatformView {
    PlatformView {
        owner: platform.owner,
        books: platform.books.push(fresh_book(platform.books.len() as u8)),
    }
}

/// Whether the race had started by `block`.
pub open spec fn started_by(book: BookView, block: u32) -> bool {
    book.race.start_block <= block
}

/// The error, if any, with which advancing or closing race `race_id` is refused.
pub open spec fn advance_refusal(platform: PlatformView, race_id: u8) -> Option<Error> {
    if race_id >= platform.books.len() {
        Some(Error::RaceNotFound)
    } else if platform.books[race_id as int].race.status != RaceStatus::Active {
        Some(Error::RaceNotActive)
    } else {
        None
    }
}

/// `event` reports that race `race_id`, whose book was `book`, was closed with
/// its final ranking, and `after` is `before` with nothing else changed.
pub open spec fn race_closed(
    before: PlatformView,
    race_id: u8,
    book: BookView,
    event: RaceFinished,
    after: PlatformView,
) -> bool {
    &&& event.race_id == race_id
    &&& is_final_ranking(book.horses, event.rankings@)
    &&& event.winner == event.rankings@[0]
    &&& after == with_book(before, race_id, closed_book(book, event.rankings@))
}

/// `event` reports the tick that turned the horses of race `race_id` from
/// those of `book` into those of `moved`.
pub open spec fn tick_reported(
    race_id: u8,
    block: u32,
    book: BookView,
    moved: BookView,
    event: RaceUpdate,
) -> bool {
    &&& event.race_id == race_id
    &&& event.block_number == block
    &&& event.positions@ == reported(book.horses, moved.horses, book.horses.len() as int)
}

/// What a successful call that advances race `race_id` at `block` does and reports.
pub open spec fn race_advanced(
    before: PlatformView,
    race_id: u8,
    block: u32,
    timestamp: u64,
    progress: RaceProgress,
    after: PlatformView,
) -> bool {
    let book = before.books[race_id as int];
    let moved = ticked_book(book, block, timestamp);
    if timed_out(book, block) {
        &&& progress.update is None
        &&& progress.finished matches Some(event)
        &&& race_closed(before, race_id, book, event, after)
    } else if all_finished(moved.horses) {
        &&& progress.update matches Some(update)
        &&& tick_reported(race_id, block, book, moved, update)
        &&& progress.finished matches Some(event)
        &&& race_closed(before, race_id, moved, event, after)
    } else {
        &&& progress.update matches Some(update)
        &&& tick_reported(race_id, block, book, moved, update)
        &&& progress.finished is None
        &&& after == with_book(before, race_id, moved)
    }
}

/// A copy of a list of ids.
fn copy_ids(ids: &Vec<u8>) -> (copy: Vec<u8>)
    ensures
        copy@ == ids@,
{
    let mut copy: Vec<u8> = Vec::new();
    let mut i: usize = 0;
    while i < ids.len()
        invariant
            i <= ids.len(),
            copy@ == ids@.take(i as int),
        decreases ids.len() - i,
    {
        copy.push(ids[i]);
        i += 1;
    }
    copy
}

/// Index of the ledger of `bettor`, if the bettor has one.
fn find_ledger(ledgers: &Vec<Ledger>, bettor: &AccountId) -> (found: Option<usize>)
    ensures
        match found {
            Some(k) => k == position_of(ledger_views(ledgers@), *bettor),
            None => position_of(ledger_views(ledgers@), *bettor) < 0,
        },
{
    let ghost views = ledger_views(ledgers@);
    let mut i: usize = ledgers.len();
    while i > 0
        invariant
            i <= ledgers.len(),
            views == ledger_views(ledgers@),
            forall|j: int| i <= j < views.len() ==> (#[trigger] views[j]).bettor != *bettor,
        decreases i,
    {
        i -= 1;
        if ledgers[i].bettor.same_as(bettor) {
            proof {
                lemma_position_found(views, *bettor, i as int);
            }
            return Some(i);
        }
    }
    proof {
        lemma_position_found(views, *bettor, -1);
    }
    None
}

/// What `bets` stake on `horse`.
fn stake_sum(bets: &Vec<Bet>, horse: u8) -> (sum: Balance)
    requires
        stake_on(bets@, horse) <= u128::MAX,
    ensures
        sum == stake_on(bets@, horse),
{
    let mut sum: Balance = 0;
    let mut i: usize = 0;
    while i < bets.len()
        invariant
            i <= bets.len(),
            sum == stake_on(bets@.take(i as int), horse),
            stake_on(bets@, horse) <= u128::MAX,
        decreases bets.len() - i,
    {
        proof {
            assert(bets@.take(i as int + 1) =~= bets@.take(i as int).push(bets@[i as int]));
            lemma_stake_push(bets@.take(i as int), bets@[i as int], horse);
            lemma_stake_prefix(bets@, i as int + 1, horse);
        }
        if bets[i].horse_id == horse {
            sum = sum + bets[i].amount;
        }
        i += 1;
    }
    assert(bets@.take(bets.len() as int) =~= bets@);
    sum
}

/// What the host reports of a claim once it has tried to transfer `payout`:
/// the payout where the transfer went through, `TransferFailed` where it did
/// not. The claim stays recorded either way.
pub fn transfer_outcome(payout: Balance, transferred: bool) -> (result: Result<Balance, Error>)
    ensures
        transferred ==> result == Ok::<Balance, Error>(payout),
        !transferred ==> result == Err::<Balance, Error>(Error::TransferFailed),
{
    if transferred {
        Ok(payout)
    } else {
        Err(Error::TransferFailed)
    }
}

impl KareraPlatform {
    /// The invariant that every operation keeps.
    pub open spec fn wf(&self) -> bool {
        platform_valid(self@)
    }

    /// A platform without races, owned by `owner`.
    pub fn new(owner: AccountId) -> (platform: KareraPlatform)
        ensures
            platform.wf(),
            platform@ == (PlatformView { owner, books: Seq::empty() }),
    {
        let platform = KareraPlatform { owner, books: Vec::new() };
        assert(platform@.books =~= Seq::empty());
        platform
    }

    /// Takes up a platform from the record that a host kept of it. Gives
    /// nothing where the record is not a valid platform.
    pub fn restore(record: PlatformRecord) -> (platform: Option<KareraPlatform>)
        ensures
            platform_valid(record@) ==> (platform matches Some(restored) && restored.wf()
                && restored@ == record@),
            !platform_valid(record@) ==> platform is None,
    {
        if !record_is_valid(&record) {
            return None;
        }
        Some(KareraPlatform { owner: record.owner, books: record.books })
    }

    /// Hands the platform over as a record for the host to keep.
    pub fn into_record(self) -> (record: PlatformRecord)
        ensures
            record@ == self@,
    {
        PlatformRecord { owner: self.owner, books: self.books }
    }

    /// Creates the next race, pending, with all horses at the start.
    ///
    /// Fails with `MaxRacesReached` once `TOTAL_RACES` races exist.
    pub fn create_race(&mut self) -> (result: Result<u8, Error>)
        requires
            old(self).wf(),
        ensures
            final(self).wf(),
            platform_follows(old(self)@, final(self)@),
            old(self)@.books.len() >= TOTAL_RACES ==> {
                &&& result == Err::<u8, Error>(Error::MaxRacesReached)
                &&& final(self)@ == old(self)@
            },
            old(self)@.books.len() < TOTAL_RACES ==> {
                &&& result == Ok::<u8, Error>(old(self)@.books.len() as u8)
                &&& final(self)@ == with_new_book(old(self)@)
            },
    {
        if self.books.len() >= TOTAL_RACES as usize {
            return Err(Error::MaxRacesReached);
        }
        let race_id: u8 = self.books.len() as u8;
        let mut horses: Vec<Horse> = Vec::new();
        let mut horse_pools: Vec<Balance> = Vec::new();
        let mut i: u8 = 0;
        while i < HORSES_PER_RACE
            invariant
                i <= HORSES_PER_RACE,
                horses.len() == i,
                horse_pools.len() == i,
                forall|j: int| 0 <= j < i ==> #[trigger] horses[j] == fresh_horse(j as u8),
                forall|j: int| 0 <= j < i ==> #[trigger] horse_pools[j] == 0,
            decreases HORSES_PER_RACE - i,
        {
            horses.push(Horse { id: i, position: 0, finished: false, finish_time: None });
            horse_pools.push(0);
            i += 1;
        }
        let race = Race {
            id: race_id,
            status: RaceStatus::Pending,
            start_block: 0,
            current_block: 0,
            winner: None,
            rankings: Vec::new(),
        };
        let book = RaceBook { race, horses, total_pool: 0, horse_pools, ledgers: Vec::new() };
        proof {
            let fresh = fresh_book(race_id);
            assert(book@.horses =~= fresh.horses);
            assert(book@.horse_pools =~= fresh.horse_pools);
            assert(book@.ledgers =~= fresh.ledgers);
        }
        self.books.push(book);
        proof {
            assert(self@.books =~= old(self)@.books.push(fresh_book(race_id)));
        }
        Ok(race_id)
    }

    /// Starts a pending race at `block_number`. Only the owner may do so.
    ///
    /// Fails with `Unauthorized` where `caller` is not the owner, else with
    /// `RaceNotFound` where no race `race_id` exists, else with
    /// `RaceAlreadyStarted` where the race is no longer pending.
    pub fn start_race(
        &mut self,
        caller: &AccountId,
        race_id: u8,
        block_number: u32,
    ) -> (result: Result<RaceStarted, Error>)
        requires
            old(self).wf(),
        ensures
            final(self).wf(),
            platform_follows(old(self)@, final(self)@),
            match start_refusal(old(self)@, *caller, race_id) {
                Some(error) => {
                    &&& result == Err::<RaceStarted, Error>(error)
                    &&& final(self)@ == old(self)@
                },
                None => {
                    &&& result == Ok::<RaceStarted, Error>(
                        RaceStarted { race_id, start_block: block_number },
                    )
                    &&& final(self)@ == with_book(
                        old(self)@,
                        race_id,
                        started_book(old(self)@.books[race_id as int], block_number),
                    )
                },
            },
    {
        if !caller.same_as(&self.owner) {
            return Err(Error::Unauthorized);
        }
        let at: usize = race_id as usize;
        if at >= self.books.len() {
            return Err(Error::RaceNotFound);
        }
        match self.books[at].race.status {
            RaceStatus::Pending => {},
            _ => {
                return Err(Error::RaceAlreadyStarted);
            },
        }
        self.books[at].race.status = RaceStatus::Active;
        self.books[at].race.start_block = block_number;
        self.books[at].race.current_block = block_number;
        proof {
            let before = old(self)@.books[race_id as int];
            let after = started_book(before, block_number);
            assert(self@.books =~= old(self)@.books.update(race_id as int, after));
        }
        Ok(RaceStarted { race_id, start_block: block_number })
    }

    /// Records a bet of `amount` by `bettor` on horse `horse_id` of the pending
    /// race `race_id`, and adds it to the pool of the race and of the horse.
    ///
    /// Fails with `RaceNotFound` where no such race exists, else with
    /// `BettingClosed` where the race is not pending, else with `InvalidHorse`
    /// where the horse id is out of range, else with `InvalidBetAmount` where
    /// the amount is zero or would overflow the pool.
    pub fn place_bet(
        &mut self,
        bettor: &AccountId,
        race_id: u8,
        horse_id: u8,
        amount: Balance,
    ) -> (result: Result<BetPlaced, Error>)
        requires
            old(self).wf(),
        ensures
            final(self).wf(),
            platform_follows(old(self)@, final(self)@),
            match bet_refusal(old(self)@, race_id, horse_id, amount) {
                Some(error) => {
                    &&& result == Err::<BetPlaced, Error>(error)
                    &&& final(self)@ == old(self)@
                },
                None => {
                    &&& result == Ok::<BetPlaced, Error>(
                        BetPlaced { bettor: *bettor, race_id, horse_id, amount },
                    )
                    &&& final(self)@ == with_book(
                        old(self)@,
                        race_id,
                        book_with_bet(
                            old(self)@.books[race_id as int],
                            Bet { bettor: *bettor, race_id, horse_id, amount },
                        ),
                    )
                },
            },
    {
        let at: usize = race_id as usize;
        if at >= self.books.len() {
            return Err(Error::RaceNotFound);
        }
        match self.books[at].race.status {
            RaceStatus::Pending => {},
            _ => {
                return Err(Error::BettingClosed);
            },
        }
        if horse_id >= HORSES_PER_RACE {
            return Err(Error::InvalidHorse);
        }
        if amount == 0 {
            return Err(Error::InvalidBetAmount);
        }
        let total: Balance = match self.books[at].total_pool.checked_add(amount) {
            Some(total) => total,
            None => {
                return Err(Error::InvalidBetAmount);
            },
        };
        let bet = Bet { bettor: *bettor, race_id, horse_id, amount };
        let ghost before = old(self)@.books[race_id as int];
        let ghost after = book_with_bet(before, bet);
        proof {
            lemma_book_with_bet_valid(before, bet, race_id as int);
            lemma_staked_on_within_total(before.ledgers, horse_id);
            lemma_position_of(before.ledgers, *bettor);
        }
        let found = find_ledger(&self.books[at].ledgers, bettor);
        match found {
            Some(k) => {
                self.books[at].ledgers[k].bets.push(bet);
            },
            None => {
                let mut bets: Vec<Bet> = Vec::new();
                bets.push(bet);
                self.books[at].ledgers.push(Ledger { bettor: *bettor, bets, claimed: false });
            },
        }
        self.books[at].total_pool = total;
        let pool: Balance = self.books[at].horse_pools[horse_id as usize];
        self.books[at].horse_pools[horse_id as usize] = pool + amount;
        proof {
            let now = self.books[at as int]@;
            assert(now.ledgers =~= after.ledgers);
            assert(now.horse_pools =~= after.horse_pools);
            assert(self@.books =~= old(self)@.books.update(race_id as int, after));
            lemma_book_with_bet_follows(before, bet);
        }
        Ok(BetPlaced { bettor: *bettor, race_id, horse_id, amount })
    }

    /// Settles the claim of `caller` on the finished race `race_id`: records
    /// that the caller has claimed and returns the payout that the host is to
    /// transfer. The claim is recorded before the transfer is tried and stays
    /// recorded where the transfer fails.
    ///
    /// Fails with `RaceNotFound` where no such race exists, else with
    /// `RaceNotFinished` where the race is not finished, else with
    /// `AlreadyClaimed` where the caller has claimed before, else with
    /// `NoWinner` where the race has no winner, else with `NoWinningBets` where
    /// the caller staked nothing on the winner.
    pub fn claim_winnings(
        &mut self,
        caller: &AccountId,
        race_id: u8,
    ) -> (result: Result<Balance, Error>)
        requires
            old(self).wf(),
        ensures
            final(self).wf(),
            platform_follows(old(self)@, final(self)@),
            match claim_refusal(old(self)@, *caller, race_id) {
                Some(error) => {
                    &&& result == Err::<Balance, Error>(error)
                    &&& final(self)@ == old(self)@
                },
                None => {
                    &&& result matches Ok(amount)
                    &&& amount == claim_amount(old(self)@.books[race_id as int], *caller)
                    &&& final(self)@ == with_book(
                        old(self)@,
                        race_id,
                        book_with_claim(old(self)@.books[race_id as int], *caller),
                    )
                },
            },
    {
        let at: usize = race_id as usize;
        if at >= self.books.len() {
            return Err(Error::RaceNotFound);
        }
        match self.books[at].race.status {
            RaceStatus::Finished => {},
            _ => {
                return Err(Error::RaceNotFinished);
            },
        }
        let ghost before = old(self)@.books[race_id as int];
        proof {
            lemma_position_of(before.ledgers, *caller);
        }
        let found = find_ledger(&self.books[at].ledgers, caller);
        let claimed: bool = match found {
            Some(k) => self.books[at].ledgers[k].claimed,
            None => false,
        };
        if claimed {
            return Err(Error::AlreadyClaimed);
        }
        let winner: u8 = match self.books[at].race.winner {
            Some(winner) => winner,
            None => {
                return Err(Error::NoWinner);
            },
        };
        let k: usize = match found {
            Some(k) => k,
            None => {
                return Err(Error::NoWinningBets);
            },
        };
        proof {
            lemma_ledger_within_pool(before.ledgers, k as int, winner);
            assert(before.horse_pools[winner as int] == staked_on(before.ledgers, winner));
        }
        let stake: Balance = stake_sum(&self.books[at].ledgers[k].bets, winner);
        if stake == 0 {
            return Err(Error::NoWinningBets);
        }
        let total_pool: Balance = self.books[at].total_pool;
        let winning: Balance = self.books[at].horse_pools[winner as usize];
        if winning == 0 {
            return Err(Error::NoWinningBets);
        }
        let amount: Balance = payout(stake, total_pool, winning);
        self.books[at].ledgers[k].claimed = true;
        proof {
            let after = book_with_claim(before, *caller);
            lemma_book_with_claim_valid(before, *caller, race_id as int);
            let now = self.books[at as int]@;
            assert(now.ledgers =~= after.ledgers);
            assert(self@.books =~= old(self)@.books.update(race_id as int, after));
            lemma_book_with_claim_follows(before, *caller);
        }
        Ok(amount)
    }

    /// Closes the running race `race_id`: ranks its horses, names the first
    /// the winner and marks the race finished. Whatever ranking the ticks have
    /// built is replaced.
    ///
    /// Fails with `RaceNotFound` where no such race exists, else with
    /// `RaceNotActive` where the race is not running.
    fn finish_race(&mut self, race_id: u8) -> (result: Result<RaceFinished, Error>)
        requires
            old(self).wf(),
        ensures
            final(self).wf(),
            platform_follows(old(self)@, final(self)@),
            match advance_refusal(old(self)@, race_id) {
                Some(error) => {
                    &&& result == Err::<RaceFinished, Error>(error)
                    &&& final(self)@ == old(self)@
                },
                None => result matches Ok(event) && race_closed(
                    old(self)@,
                    race_id,
                    old(self)@.books[race_id as int],
                    event,
                    final(self)@,
                ),
            },
    {
        let at: usize = race_id as usize;
        if at >= self.books.len() {
            return Err(Error::RaceNotFound);
        }
        match self.books[at].race.status {
            RaceStatus::Active => {},
            _ => {
                return Err(Error::RaceNotActive);
            },
        }
        let ghost before = old(self)@.books[race_id as int];
        let ranking: Vec<u8> = final_ranking(&self.books[at].horses);
        let winner: u8 = ranking[0];
        let rankings: Vec<u8> = copy_ids(&ranking);
        self.books[at].race.rankings = ranking;
        self.books[at].race.winner = Some(winner);
        self.books[at].race.status = RaceStatus::Finished;
        proof {
            let after = closed_book(before, rankings@);
            assert(self@.books =~= old(self)@.books.update(race_id as int, after));
        }
        Ok(RaceFinished { race_id, winner, rankings })
    }

    /// Advances the running race `race_id` to `block_number`.
    ///
    /// Once `RACE_DURATION_BLOCKS` blocks have passed since the start, the
    /// race is closed as it stands. Before that, one tick moves every horse
    /// still running, and the race is closed where the tick brings the last
    /// horse home.
    ///
    /// Fails with `RaceNotFound` where no such race exists, else with
    /// `RaceNotActive` where the race is not running. Blocks do not run
    /// backwards: a running race is never advanced to a block before its start.
    pub fn update_race(
        &mut self,
        race_id: u8,
        block_number: u32,
        block_timestamp: u64,
    ) -> (result: Result<RaceProgress, Error>)
        requires
            old(self).wf(),
            advance_refusal(old(self)@, race_id) is None ==> started_by(
                old(self)@.books[race_id as int],
                block_number,
            ),
        ensures
            final(self).wf(),
            platform_follows(old(self)@, final(self)@),
            match advance_refusal(old(self)@, race_id) {
                Some(error) => {
                    &&& result == Err::<RaceProgress, Error>(error)
                    &&& final(self)@ == old(self)@
                },
                None => result matches Ok(progress) && race_advanced(
                    old(self)@,
                    race_id,
                    block_number,
                    block_timestamp,
                    progress,
                    final(self)@,
                ),
            },
    {
        let at: usize = race_id as usize;
        if at >= self.books.len() {
            return Err(Error::RaceNotFound);
        }
        match self.books[at].race.status {
            RaceStatus::Active => {},
            _ => {
                return Err(Error::RaceNotActive);
            },
        }
        let ghost before = old(self)@.books[race_id as int];
        let elapsed: u32 = block_number - self.books[at].race.start_block;
        if elapsed >= RACE_DURATION_BLOCKS {
            return match self.finish_race(race_id) {
                Ok(event) => Ok(RaceProgress { update: None, finished: Some(event) }),
                Err(error) => Err(error),
            };
        }
        let ghost moved = ticked_book(before, block_number, block_timestamp);
        proof {
            lemma_ticked_book_valid(before, block_number, block_timestamp, race_id as int);
        }
        let book = &mut self.books[at];
        let (positions, all_home) = run_tick(
            &mut book.horses,
            &mut book.race.rankings,
            elapsed,
            block_number,
            block_timestamp,
        );
        book.race.current_block = block_number;
        proof {
            assert(self@.books =~= old(self)@.books.update(race_id as int, moved));
        }
        let update = RaceUpdate { race_id, block_number, positions };
        if all_home {
            match self.finish_race(race_id) {
                Ok(event) => {
                    proof {
                        let closed = closed_book(moved, event.rankings@);
                        assert(self@.books =~= old(self)@.books.update(race_id as int, closed));
                    }
                    Ok(RaceProgress { update: Some(update), finished: Some(event) })
                },
                Err(error) => Err(error),
            }
        } else {
            Ok(RaceProgress { update: Some(update), finished: None })
        }
    }

    /// The record of race `race_id`, if the race exists.
    pub fn get_race(&self, race_id: u8) -> (race: Option<Race>)
        ensures
            race_id < self@.books.len() ==> (race matches Some(found) && found@
                == self@.books[race_id as int].race),
            race_id >= self@.books.len() ==> race is None,
    {
        let at: usize = race_id as usize;
        if at >= self.books.len() {
            return None;
        }
        let race = &self.books[at].race;
        Some(
            Race {
                id: race.id,
                status: race.status,
                start_block: race.start_block,
                current_block: race.current_block,
                winner: race.winner,
                rankings: copy_ids(&race.rankings),
            },
        )
    }

    /// Horse `horse_id` of race `race_id`, if both exist.
    pub fn get_horse(&self, race_id: u8, horse_id: u8) -> (horse: Option<Horse>)
        ensures
            horse == if race_id < self@.books.len() && horse_id
                < self@.books[race_id as int].horses.len() {
                Some(self@.books[race_id as int].horses[horse_id as int])
            } else {
                None
            },
    {
        let at: usize = race_id as usize;
        if at >= self.books.len() {
            return None;
        }
        let h: usize = horse_id as usize;
        if h >= self.books[at].horses.len() {
            return None;
        }
        Some(self.books[at].horses[h])
    }

    /// The horses of race `race_id` in the order of their ids; none where the
    /// race does not exist.
    pub fn get_all_horses(&self, race_id: u8) -> (horses: Vec<Horse>)
        ensures
            horses@ == if race_id < self@.books.len() {
                self@.books[race_id as int].horses
            } else {
                Seq::empty()
            },
    {
        let mut horses: Vec<Horse> = Vec::new();
        let at: usize = race_id as usize;
        if at >= self.books.len() {
            return horses;
        }
        let source = &self.books[at].horses;
        let mut i: usize = 0;
        while i < source.len()
            invariant
                i <= source.len(),
                horses@ == source@.take(i as int),
            decreases source.len() - i,
        {
            horses.push(source[i]);
            i += 1;
        }
        horses
    }

    /// The number of races created so far.
    pub fn get_race_count(&self) -> (count: u8)
        requires
            self.wf(),
        ensures
            count == self@.books.len(),
    {
        self.books.len() as u8
    }

    /// What was staked on race `race_id` in all; zero where the race does not exist.
    pub fn get_total_pool(&self, race_id: u8) -> (pool: Balance)
        ensures
            pool == if race_id < self@.books.len() {
                self@.books[race_id as int].total_pool
            } else {
                0
            },
    {
        let at: usize = race_id as usize;
        if at >= self.books.len() {
            return 0;
        }
        self.books[at].total_pool
    }

    /// What was staked on horse `horse_id` of race `race_id`; zero where
    /// either does not exist.
    pub fn get_horse_pool(&self, race_id: u8, horse_id: u8) -> (pool: Balance)
        ensures
            pool == if race_id < self@.books.len() && horse_id
                < self@.books[race_id as int].horse_pools.len() {
                self@.books[race_id as int].horse_pools[horse_id as int]
            } else {
                0
            },
    {
        let at: usize = race_id as usize;
        if at >= self.books.len() {
            return 0;
        }
        let h: usize = horse_id as usize;
        if h >= self.books[at].horse_pools.len() {
            return 0;
        }
        self.books[at].horse_pools[h]
    }

    /// The account that may start races.
    pub fn get_owner(&self) -> (owner: AccountId)
        ensures
            owner == self@.owner,
    {
        self.owner
    }

    /// The bets of `bettor` on race `race_id` in the order they were placed;
    /// none where the race does not exist.
    pub fn get_bets(&self, bettor: &AccountId, race_id: u8) -> (bets: Vec<Bet>)
        ensures
            bets@ == if race_id < self@.books.len() {
                bets_of(self@.books[race_id as int].ledgers, *bettor)
            } else {
                Seq::empty()
            },
    {
        let mut bets: Vec<Bet> = Vec::new();
        let at: usize = race_id as usize;
        if at >= self.books.len() {
            return bets;
        }
        let k: usize = match find_ledger(&self.books[at].ledgers, bettor) {
            Some(k) => k,
            None => {
                return bets;
            },
        };
        proof {
            lemma_position_of(self@.books[race_id as int].ledgers, *bettor);
        }
        let source = &self.books[at].ledgers[k].bets;
        let mut i: usize = 0;
        while i < source.len()
            invariant
                i <= source.len(),
                bets@ == source@.take(i as int),
            decreases source.len() - i,
        {
            bets.push(source[i]);
            i += 1;
        }
        bets
    }

    /// Whether `bettor` has claimed on race `race_id`.
    pub fn has_claimed(&self, bettor: &AccountId, race_id: u8) -> (claimed: bool)
        ensures
            claimed == (race_id < self@.books.len() && has_claimed(
                self@.books[race_id as int].ledgers,
                *bettor,
            )),
    {
        let at: usize = race_id as usize;
        if at >= self.books.len() {
            return false;
        }
        proof {
            lemma_position_of(self@.books[race_id as int].ledgers, *bettor);
        }
        match find_ledger(&self.books[at].ledgers, bettor) {
            Some(k) => self.books[at].ledgers[k].claimed,
            None => false,
        }
    }
}

} // verus!
