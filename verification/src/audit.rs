//! Checks that a record is a valid platform, so that a host can hand back
//! what it kept between calls.

use vstd::prelude::*;
use crate::ledger::{
    bettors_distinct, lemma_pools_sum, lemma_stake_prefix, lemma_stake_push, lemma_staked_below_all,
    lemma_staked_prefix, pools_sum, stake_on, staked, staked_on,
};
use crate::ranking::{
    final_ranking, ids_below, ids_in_order, is_final_ranking, lemma_final_ranking_unique,
};
use crate::record::{ledger_views, Ledger, PlatformRecord, RaceBook};
use crate::state::{
    bet_valid, book_valid, fresh_horse, horse_valid, ledger_valid, platform_valid, race_valid,
    BookView,
};
use crate::types::{
    Balance, Bet, Horse, Race, RaceStatus, FINISH_LINE, HORSES_PER_RACE, TOTAL_RACES,
};

verus! {

/// Whether `horses` are the horses of a race: as many as a race has, each
/// with its index as its id, each either running or finished.
pub open spec fn field_valid(horses: Seq<Horse>) -> bool {
    &&& horses.len() == HORSES_PER_RACE
    &&& ids_in_order(horses)
    &&& forall|i: int| 0 <= i < horses.len() ==> horse_valid(#[trigger] horses[i])
}

/// Whether `horses` are the horses of a race.
fn field_is_valid(horses: &Vec<Horse>) -> (ok: bool)
    ensures
        ok == field_valid(horses@),
{
    if horses.len() != HORSES_PER_RACE as usize {
        return false;
    }
    let mut i: usize = 0;
    while i < horses.len()
        invariant
            i <= horses.len(),
            horses.len() == HORSES_PER_RACE,
            forall|j: int| 0 <= j < i ==> (#[trigger] horses[j]).id == j && horse_valid(horses[j]),
        decreases horses.len() - i,
    {
        let horse = &horses[i];
        let timed: bool = horse.finish_time.is_some();
        let placed: bool = if horse.finished {
            horse.position == FINISH_LINE
        } else {
            horse.position < FINISH_LINE
        };
        if horse.id as usize != i || horse.finished != timed || !placed {
            return false;
        }
        i += 1;
    }
    true
}

/// Whether every id in `ids` is below `n`.
fn ids_are_below(ids: &Vec<u8>, n: u8) -> (ok: bool)
    ensures
        ok == ids_below(ids@, n as nat),
{
    let mut i: usize = 0;
    while i < ids.len()
        invariant
            i <= ids.len(),
            forall|j: int| 0 <= j < i ==> (#[trigger] ids[j]) < n,
        decreases ids.len() - i,
    {
        if ids[i] >= n {
            return false;
        }
        i += 1;
    }
    true
}

/// Whether no id occurs twice in `ids`.
fn ids_are_distinct(ids: &Vec<u8>) -> (ok: bool)
    ensures
        ok == ids@.no_duplicates(),
{
    let mut i: usize = 0;
    while i < ids.len()
        invariant
            i <= ids.len(),
            forall|a: int, b: int| 0 <= a < i && 0 <= b < a ==> ids[a] != ids[b],
        decreases ids.len() - i,
    {
        let mut k: usize = 0;
        while k < i
            invariant
                k <= i,
                i < ids.len(),
                forall|b: int| 0 <= b < k ==> ids[i as int] != ids[b],
            decreases i - k,
        {
            if ids[k] == ids[i] {
                return false;
            }
            k += 1;
        }
        i += 1;
    }
    assert forall|a: int, b: int|
        0 <= a < ids@.len() && 0 <= b < ids@.len() && a != b implies ids@[a] != ids@[b] by {}
    true
}

/// Whether two lists of ids are the same.
fn same_ids(first: &Vec<u8>, second: &Vec<u8>) -> (same: bool)
    ensures
        same == (first@ == second@),
{
    if first.len() != second.len() {
        return false;
    }
    let mut i: usize = 0;
    while i < first.len()
        invariant
            i <= first.len(),
            first.len() == second.len(),
            forall|j: int| 0 <= j < i ==> first[j] == second[j],
        decreases first.len() - i,
    {
        if first[i] != second[i] {
            return false;
        }
        i += 1;
    }
    assert(first@ =~= second@);
    true
}

/// Whether the record of a race fits its status and its horses.
fn race_is_valid(race: &Race, horses: &Vec<Horse>) -> (ok: bool)
    requires
        field_valid(horses@),
        ids_below(race.rankings@, HORSES_PER_RACE as nat),
    ensures
        ok == race_valid(race@, horses@),
{
    match race.status {
        RaceStatus::Pending => {
            if race.rankings.len() != 0 || race.winner.is_some() || race.start_block != 0
                || race.current_block != 0 {
                return false;
            }
            let mut i: usize = 0;
            while i < horses.len()
                invariant
                    i <= horses.len(),
                    field_valid(horses@),
                    race.status == RaceStatus::Pending,
                    forall|j: int| 0 <= j < i ==> #[trigger] horses[j] == fresh_horse(j as u8),
                decreases horses.len() - i,
            {
                let horse = &horses[i];
                if horse.position != 0 || horse.finished {
                    return false;
                }
                i += 1;
            }
            true
        },
        RaceStatus::Active => {
            if race.winner.is_some() || race.start_block > race.current_block {
                return false;
            }
            let mut i: usize = 0;
            while i < race.rankings.len()
                invariant
                    i <= race.rankings.len(),
                    field_valid(horses@),
                    race.status == RaceStatus::Active,
                    ids_below(race.rankings@, HORSES_PER_RACE as nat),
                    forall|j: int|
                        0 <= j < i ==> horses[(#[trigger] race.rankings[j]) as int].finished,
                decreases race.rankings.len() - i,
            {
                if !horses[race.rankings[i] as usize].finished {
                    return false;
                }
                i += 1;
            }
            true
        },
        RaceStatus::Finished => {
            let expected: Vec<u8> = final_ranking(horses);
            proof {
                if is_final_ranking(horses@, race.rankings@) {
                    lemma_final_ranking_unique(horses@, race.rankings@, expected@);
                }
            }
            if !same_ids(&race.rankings, &expected) {
                return false;
            }
            match race.winner {
                Some(winner) => winner == expected[0],
                None => false,
            }
        },
    }
}

/// Whether a ledger holds at least one bet, and only bets of its bettor on race `race_id`.
fn ledger_is_valid(ledger: &Ledger, race_id: u8) -> (ok: bool)
    ensures
        ok == ledger_valid(ledger@, race_id as int),
{
    if ledger.bets.len() == 0 {
        return false;
    }
    let mut i: usize = 0;
    while i < ledger.bets.len()
        invariant
            i <= ledger.bets.len(),
            ledger.bets.len() > 0,
            forall|j: int|
                0 <= j < i ==> bet_valid(
                    #[trigger] ledger@.bets[j],
                    ledger.bettor,
                    race_id as int,
                ),
        decreases ledger.bets.len() - i,
    {
        let bet = &ledger.bets[i];
        if !bet.bettor.same_as(&ledger.bettor) || bet.race_id != race_id || bet.horse_id
            >= HORSES_PER_RACE || bet.amount == 0 {
            return false;
        }
        i += 1;
    }
    true
}

/// Whether every ledger is valid for race `race_id`.
fn ledgers_are_valid(ledgers: &Vec<Ledger>, race_id: u8) -> (ok: bool)
    ensures
        ok == (forall|k: int|
            0 <= k < ledgers.len() ==> ledger_valid(
                #[trigger] ledger_views(ledgers@)[k],
                race_id as int,
            )),
{
    let mut k: usize = 0;
    while k < ledgers.len()
        invariant
            k <= ledgers.len(),
            forall|j: int|
                0 <= j < k ==> ledger_valid(
                    #[trigger] ledger_views(ledgers@)[j],
                    race_id as int,
                ),
        decreases ledgers.len() - k,
    {
        if !ledger_is_valid(&ledgers[k], race_id) {
            assert(!ledger_valid(ledger_views(ledgers@)[k as int], race_id as int));
            return false;
        }
        k += 1;
    }
    true
}

/// Whether no two ledgers belong to the same bettor.
fn bettors_are_distinct(ledgers: &Vec<Ledger>) -> (ok: bool)
    ensures
        ok == bettors_distinct(ledger_views(ledgers@)),
{
    let ghost views = ledger_views(ledgers@);
    let mut j: usize = 0;
    while j < ledgers.len()
        invariant
            j <= ledgers.len(),
            views == ledger_views(ledgers@),
            forall|a: int, b: int|
                0 <= a < b < j ==> (#[trigger] views[a]).bettor != (#[trigger] views[b]).bettor,
        decreases ledgers.len() - j,
    {
        let mut i: usize = 0;
        while i < j
            invariant
                i <= j,
                j < ledgers.len(),
                views == ledger_views(ledgers@),
                forall|a: int|
                    0 <= a < i ==> (#[trigger] views[a]).bettor != views[j as int].bettor,
            decreases j - i,
        {
            if ledgers[i].bettor.same_as(&ledgers[j].bettor) {
                assert(views[i as int].bettor == views[j as int].bettor);
                return false;
            }
            i += 1;
        }
        j += 1;
    }
    true
}

/// Whether no ledger is marked as claimed.
fn none_claimed(ledgers: &Vec<Ledger>) -> (ok: bool)
    ensures
        ok == (forall|k: int|
            0 <= k < ledgers.len() ==> !(#[trigger] ledger_views(ledgers@)[k]).claimed),
{
    let mut k: usize = 0;
    while k < ledgers.len()
        invariant
            k <= ledgers.len(),
            forall|j: int| 0 <= j < k ==> !(#[trigger] ledger_views(ledgers@)[j]).claimed,
        decreases ledgers.len() - k,
    {
        if ledgers[k].claimed {
            assert(ledger_views(ledgers@)[k as int].claimed);
            return false;
        }
        k += 1;
    }
    true
}

/// What `bets` stake on `horse`, unless that is more than a balance holds.
fn stake_on_checked(bets: &Vec<Bet>, horse: u8) -> (sum: Option<Balance>)
    ensures
        match sum {
            Some(s) => s == stake_on(bets@, horse),
            None => stake_on(bets@, horse) > u128::MAX,
        },
{
    let mut sum: Balance = 0;
    let mut i: usize = 0;
    while i < bets.len()
        invariant
            i <= bets.len(),
            sum == stake_on(bets@.take(i as int), horse),
        decreases bets.len() - i,
    {
        proof {
            assert(bets@.take(i as int + 1) =~= bets@.take(i as int).push(bets@[i as int]));
            lemma_stake_push(bets@.take(i as int), bets@[i as int], horse);
            lemma_stake_prefix(bets@, i as int + 1, horse);
        }
        if bets[i].horse_id == horse {
            sum = match sum.checked_add(bets[i].amount) {
                Some(next) => next,
                None => {
                    return None;
                },
            };
        }
        i += 1;
    }
    assert(bets@.take(bets.len() as int) =~= bets@);
    Some(sum)
}

/// What all ledgers together stake on `horse`, unless that is more than a balance holds.
fn staked_on_checked(ledgers: &Vec<Ledger>, horse: u8) -> (sum: Option<Balance>)
    ensures
        match sum {
            Some(s) => s == staked_on(ledger_views(ledgers@), horse),
            None => staked_on(ledger_views(ledgers@), horse) > u128::MAX,
        },
{
    let ghost views = ledger_views(ledgers@);
    let mut sum: Balance = 0;
    let mut k: usize = 0;
    while k < ledgers.len()
        invariant
            k <= ledgers.len(),
            views == ledger_views(ledgers@),
            sum == staked_on(views.take(k as int), horse),
        decreases ledgers.len() - k,
    {
        proof {
            assert(views.take(k as int + 1).drop_last() =~= views.take(k as int));
            lemma_staked_prefix(views, k as int + 1, horse);
        }
        let part: Balance = match stake_on_checked(&ledgers[k].bets, horse) {
            Some(part) => part,
            None => {
                return None;
            },
        };
        sum = match sum.checked_add(part) {
            Some(next) => next,
            None => {
                return None;
            },
        };
        k += 1;
    }
    assert(views.take(ledgers.len() as int) =~= views);
    Some(sum)
}

/// The pools hold what the ledgers stake: each horse pool the stake on its
/// horse, the total pool the whole stake.
pub open spec fn pools_valid(book: BookView) -> bool {
    &&& book.horse_pools.len() == HORSES_PER_RACE
    &&& forall|h: int|
        0 <= h < HORSES_PER_RACE ==> #[trigger] book.horse_pools[h] == staked_on(
            book.ledgers,
            h as u8,
        )
    &&& book.total_pool == staked(book.ledgers)
}

/// Whether the pools of a book hold what its ledgers stake.
fn pools_are_valid(book: &RaceBook, Ghost(race_id): Ghost<int>) -> (ok: bool)
    requires
        forall|k: int|
            0 <= k < book.ledgers.len() ==> ledger_valid(#[trigger] book@.ledgers[k], race_id),
    ensures
        ok == pools_valid(book@),
{
    if book.horse_pools.len() != HORSES_PER_RACE as usize {
        return false;
    }
    let ghost pools = book@.horse_pools;
    let ghost ledgers = book@.ledgers;
    let mut sum: Option<Balance> = Some(0);
    let mut h: u8 = 0;
    while h < HORSES_PER_RACE
        invariant
            h <= HORSES_PER_RACE,
            book.horse_pools.len() == HORSES_PER_RACE,
            pools == book@.horse_pools,
            ledgers == book@.ledgers,
            forall|g: int| 0 <= g < h ==> #[trigger] pools[g] == staked_on(ledgers, g as u8),
            match sum {
                Some(s) => s == pools_sum(pools, h as nat),
                None => pools_sum(pools, h as nat) > u128::MAX,
            },
        decreases HORSES_PER_RACE - h,
    {
        let pool: Balance = book.horse_pools[h as usize];
        assert(pools[h as int] == pool);
        match staked_on_checked(&book.ledgers, h) {
            Some(on_horse) => {
                if on_horse != pool {
                    return false;
                }
            },
            None => {
                return false;
            },
        }
        sum = match sum {
            Some(s) => s.checked_add(pool),
            None => None,
        };
        h += 1;
    }
    proof {
        lemma_pools_sum(ledgers, pools, HORSES_PER_RACE as nat);
        assert forall|k: int, i: int|
            0 <= k < ledgers.len() && 0 <= i < ledgers[k].bets.len() implies (
        #[trigger] ledgers[k].bets[i]).horse_id < HORSES_PER_RACE as nat by {}
        lemma_staked_below_all(ledgers, HORSES_PER_RACE as nat);
    }
    match sum {
        Some(s) => s == book.total_pool,
        None => false,
    }
}

/// Whether `book` is a valid book for race `race_id`.
pub fn book_is_valid(book: &RaceBook, race_id: u8) -> (ok: bool)
    ensures
        ok == book_valid(book@, race_id as int),
{
    if book.race.id != race_id {
        return false;
    }
    if !field_is_valid(&book.horses) {
        return false;
    }
    if book.race.rankings.len() > HORSES_PER_RACE as usize {
        return false;
    }
    if !ids_are_below(&book.race.rankings, HORSES_PER_RACE) {
        return false;
    }
    if !ids_are_distinct(&book.race.rankings) {
        return false;
    }
    if !race_is_valid(&book.race, &book.horses) {
        return false;
    }
    if !ledgers_are_valid(&book.ledgers, race_id) {
        return false;
    }
    if !bettors_are_distinct(&book.ledgers) {
        return false;
    }
    if !pools_are_valid(book, Ghost(race_id as int)) {
        return false;
    }
    match book.race.status {
        RaceStatus::Finished => true,
        _ => none_claimed(&book.ledgers),
    }
}

/// Whether `record` is a valid platform.
pub fn record_is_valid(record: &PlatformRecord) -> (ok: bool)
    ensures
        ok == platform_valid(record@),
{
    if record.books.len() > TOTAL_RACES as usize {
        return false;
    }
    let mut r: u8 = 0;
    while (r as usize) < record.books.len()
        invariant
            r <= record.books.len() <= TOTAL_RACES,
            forall|q: int| 0 <= q < r ==> book_valid(#[trigger] record@.books[q], q),
        decreases record.books.len() - r,
    {
        if !book_is_valid(&record.books[r as usize], r) {
            assert(!book_valid(record@.books[r as int], r as int));
            return false;
        }
        r += 1;
    }
    true
}

} // verus!
