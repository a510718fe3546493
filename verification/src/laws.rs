//! What holds of every valid platform, stated over its mathematical value.

use vstd::prelude::*;
use vstd::arithmetic::div_mod::lemma_fundamental_div_mod;
use crate::engine::{moved, spec_acceleration};
use crate::ledger::{
    has_claimed, lemma_pools_sum, lemma_position_of_distinct, lemma_staked_below_all,
    lemma_with_claim_bets, pools_sum, stake_on, staked, staked_on,
};
use crate::payout::{lemma_payout_superadditive, lemma_payout_within_pool, payout_of};
use crate::platform::{bet_refusal, claim_amount, claim_refusal, winning_pool};
use crate::ranking::{ids_in_order, is_final_ranking, lemma_final_ranking_unique, ranks_before};
use crate::state::{
    book_valid, book_with_claim, horse_valid, platform_follows, platform_valid, status_follows,
    with_book, BookView, PlatformView,
};
use crate::types::{AccountId, Balance, Error, Horse, RaceStatus, FINISH_LINE, HORSES_PER_RACE};

verus! {

/// The place of a status in the life of a race.
pub open spec fn status_rank(status: RaceStatus) -> nat {
    match status {
        RaceStatus::Pending => 0,
        RaceStatus::Active => 1,
        RaceStatus::Finished => 2,
    }
}

/// A status that follows another is the same or the next one: no status is
/// revisited and none is skipped.
pub proof fn law_status_moves_one_step(before: RaceStatus, after: RaceStatus)
    requires
        status_follows(before, after),
    ensures
        status_rank(before) <= status_rank(after) <= status_rank(before) + 1,
{
}

/// A horse never moves back, never passes the finish line, and once finished
/// stays as it is.
pub proof fn law_horse_moves_forward(horse: Horse, elapsed: u32, block: u32, timestamp: u64)
    requires
        horse_valid(horse),
    ensures
        horse_valid(moved(horse, elapsed, spec_acceleration(horse.id, block, timestamp))),
        horse.position <= moved(
            horse,
            elapsed,
            spec_acceleration(horse.id, block, timestamp),
        ).position <= FINISH_LINE,
        horse.finished ==> moved(horse, elapsed, spec_acceleration(horse.id, block, timestamp))
            == horse,
{
}

/// The rankings of a finished race list every horse of the race exactly once,
/// in the final order, and the winner is the first of them.
pub proof fn law_finished_race_is_ranked(platform: PlatformView, race_id: u8)
    requires
        platform_valid(platform),
        race_id < platform.books.len(),
        platform.books[race_id as int].race.status == RaceStatus::Finished,
    ensures
        is_final_ranking(
            platform.books[race_id as int].horses,
            platform.books[race_id as int].race.rankings,
        ),
        platform.books[race_id as int].race.rankings.len() == HORSES_PER_RACE,
        platform.books[race_id as int].race.rankings.no_duplicates(),
        forall|id: u8|
            id < HORSES_PER_RACE ==> #[trigger] platform.books[race_id as int].race.rankings.contains(
                id,
            ),
        platform.books[race_id as int].race.winner == Some(
            platform.books[race_id as int].race.rankings[0],
        ),
{
}

/// Of two different horses, exactly one is placed ahead of the other.
pub proof fn law_order_is_total(a: Horse, b: Horse)
    requires
        a.id != b.id,
    ensures
        ranks_before(a, b) != ranks_before(b, a),
        !ranks_before(a, a),
{
}

/// In a final ranking, a finished horse stands ahead of every horse still
/// running; of two finished horses the one that finished earlier stands
/// ahead, and of two that finished at the same tick the one with the lower
/// id; of two horses still running the one that got farther stands ahead, and
/// of two that got equally far the one with the lower id.
pub proof fn law_tie_breaks(horses: Seq<Horse>, ranking: Seq<u8>, i: int, j: int)
    requires
        ids_in_order(horses),
        is_final_ranking(horses, ranking),
        0 <= i < ranking.len(),
        0 <= j < ranking.len(),
        ({
            let a = horses[ranking[i] as int];
            let b = horses[ranking[j] as int];
            ||| a.finished && !b.finished
            ||| a.finished && b.finished && a.finish_time is Some && b.finish_time is Some
                && a.finish_time->0 < b.finish_time->0
            ||| a.finished && b.finished && a.finish_time == b.finish_time && a.id < b.id
            ||| !a.finished && !b.finished && a.position > b.position
            ||| !a.finished && !b.finished && a.position == b.position && a.id < b.id
        }),
    ensures
        i < j,
{
}

/// A race has one final ranking only.
pub proof fn law_final_ranking_unique(horses: Seq<Horse>, first: Seq<u8>, second: Seq<u8>)
    requires
        ids_in_order(horses),
        is_final_ranking(horses, first),
        is_final_ranking(horses, second),
    ensures
        first == second,
{
    lemma_final_ranking_unique(horses, first, second);
}

/// The pool of a race is the sum of the pools of its horses and the sum of
/// all amounts bet on the race.
pub proof fn law_pools_conserved(platform: PlatformView, race_id: u8)
    requires
        platform_valid(platform),
        race_id < platform.books.len(),
    ensures
        platform.books[race_id as int].total_pool == pools_sum(
            platform.books[race_id as int].horse_pools,
            HORSES_PER_RACE as nat,
        ),
        platform.books[race_id as int].total_pool == staked(
            platform.books[race_id as int].ledgers,
        ),
{
    let book = platform.books[race_id as int];
    lemma_pools_sum(book.ledgers, book.horse_pools, HORSES_PER_RACE as nat);
    assert forall|k: int, i: int|
        0 <= k < book.ledgers.len() && 0 <= i < book.ledgers[k].bets.len() implies (
    #[trigger] book.ledgers[k].bets[i]).horse_id < HORSES_PER_RACE as nat by {}
    lemma_staked_below_all(book.ledgers, HORSES_PER_RACE as nat);
}

/// A bet on a race that is not pending is refused with `BettingClosed`,
/// whatever the horse and the amount.
pub proof fn law_betting_window(platform: PlatformView, race_id: u8, horse_id: u8, amount: Balance)
    requires
        race_id < platform.books.len(),
        platform.books[race_id as int].race.status != RaceStatus::Pending,
    ensures
        bet_refusal(platform, race_id, horse_id, amount) == Some(Error::BettingClosed),
{
}

/// After a claim was accepted, the next claim of the same bettor on the same
/// race is refused with `AlreadyClaimed`.
pub proof fn law_second_claim_refused(platform: PlatformView, caller: AccountId, race_id: u8)
    requires
        platform_valid(platform),
        claim_refusal(platform, caller, race_id) is None,
    ensures
        claim_refusal(
            with_book(
                platform,
                race_id,
                book_with_claim(platform.books[race_id as int], caller),
            ),
            caller,
            race_id,
        ) == Some(Error::AlreadyClaimed),
{
    let book = platform.books[race_id as int];
    lemma_with_claim_bets(book.ledgers, caller, caller);
}

/// The sum of what the first `n` bettors of a race may claim.
pub open spec fn claims_sum(book: BookView, n: int) -> nat
    decreases n,
{
    if n <= 0 {
        0
    } else {
        claims_sum(book, n - 1) + claim_amount(book, book.ledgers[n - 1].bettor)
    }
}

/// What the first `n` bettors may claim is no more than their stakes on the
/// winner are worth together.
proof fn lemma_claims_bounded(book: BookView, id: int, n: int)
    requires
        book_valid(book, id),
        0 <= n <= book.ledgers.len(),
        book.race.winner is Some,
    ensures
        claims_sum(book, n) <= payout_of(
            staked_on(book.ledgers.take(n), book.race.winner->0),
            book.total_pool,
            winning_pool(book),
        ),
    decreases n,
{
    let winner = book.race.winner->0;
    if n > 0 {
        lemma_claims_bounded(book, id, n - 1);
        lemma_position_of_distinct(book.ledgers, n - 1);
        assert(book.ledgers.take(n).drop_last() =~= book.ledgers.take(n - 1));
        lemma_payout_superadditive(
            staked_on(book.ledgers.take(n - 1), winner),
            stake_on(book.ledgers[n - 1].bets, winner),
            book.total_pool,
            winning_pool(book),
        );
    }
}

/// All that the bettors of a race may ever claim together is no more than the
/// pool of the race.
pub proof fn law_payouts_within_pool(platform: PlatformView, race_id: u8)
    requires
        platform_valid(platform),
        race_id < platform.books.len(),
    ensures
        claims_sum(
            platform.books[race_id as int],
            platform.books[race_id as int].ledgers.len() as int,
        ) <= platform.books[race_id as int].total_pool,
{
    let book = platform.books[race_id as int];
    lemma_claims_zero_without_winner(book, book.ledgers.len() as int);
    if book.race.winner is Some {
        lemma_claims_bounded(book, race_id as int, book.ledgers.len() as int);
        assert(book.ledgers.take(book.ledgers.len() as int) =~= book.ledgers);
        if winning_pool(book) > 0 {
            lemma_payout_within_pool(winning_pool(book), book.total_pool, winning_pool(book));
        }
    }
}

/// What the first `n` bettors may claim falls short of what their stakes on
/// the winner are worth together by less than one unit for each of them.
proof fn lemma_claims_nearly_all(book: BookView, id: int, n: int)
    requires
        book_valid(book, id),
        0 <= n <= book.ledgers.len(),
        book.race.winner is Some,
        winning_pool(book) > 0,
    ensures
        (claims_sum(book, n) + n) * winning_pool(book) >= staked_on(
            book.ledgers.take(n),
            book.race.winner->0,
        ) * book.total_pool + n,
    decreases n,
{
    let winner = book.race.winner->0;
    let pool = winning_pool(book);
    if n > 0 {
        lemma_claims_nearly_all(book, id, n - 1);
        lemma_position_of_distinct(book.ledgers, n - 1);
        assert(book.ledgers.take(n).drop_last() =~= book.ledgers.take(n - 1));
        let stake = stake_on(book.ledgers[n - 1].bets, winner);
        let earlier = staked_on(book.ledgers.take(n - 1), winner);
        let worth: int = (stake * book.total_pool) as int;
        let share: int = worth / (pool as int);
        let rest: int = worth % (pool as int);
        lemma_fundamental_div_mod(worth, pool as int);
        assert((share + 1) * pool >= worth + 1) by (nonlinear_arith)
            requires
                worth == pool * share + rest,
                rest < pool,
        ;
        assert((claims_sum(book, n - 1) + share + n) * pool >= (earlier + stake) * book.total_pool
            + n) by (nonlinear_arith)
            requires
                (claims_sum(book, n - 1) + (n - 1)) * pool >= earlier * book.total_pool + (n - 1),
                (share + 1) * pool >= worth + 1,
                worth == stake * book.total_pool,
        ;
    } else {
        assert((claims_sum(book, 0) + 0) * pool == 0) by (nonlinear_arith)
            requires
                claims_sum(book, 0) == 0,
        ;
        assert(0 * book.total_pool + 0 == 0) by (nonlinear_arith);
    }
}

/// Where anything was staked on the winner, all that the bettors of the race
/// may claim together is the pool of the race but for the remainders of the
/// divisions: less than one unit for each bettor.
pub proof fn law_payouts_leave_only_remainders(platform: PlatformView, race_id: u8)
    requires
        platform_valid(platform),
        race_id < platform.books.len(),
        winning_pool(platform.books[race_id as int]) > 0,
    ensures
        platform.books[race_id as int].total_pool < claims_sum(
            platform.books[race_id as int],
            platform.books[race_id as int].ledgers.len() as int,
        ) + platform.books[race_id as int].ledgers.len(),
{
    let book = platform.books[race_id as int];
    let n = book.ledgers.len() as int;
    let pool = winning_pool(book);
    lemma_claims_nearly_all(book, race_id as int, n);
    assert(book.ledgers.take(n) =~= book.ledgers);
    assert(claims_sum(book, n) + n > book.total_pool) by (nonlinear_arith)
        requires
            (claims_sum(book, n) + n) * pool >= pool * book.total_pool + n,
            n >= 1,
            pool > 0,
    ;
}

/// Where a race has no winner, nobody may claim anything.
proof fn lemma_claims_zero_without_winner(book: BookView, n: int)
    requires
        0 <= n,
    ensures
        book.race.winner is None ==> claims_sum(book, n) == 0,
    decreases n,
{
    if n > 0 {
        lemma_claims_zero_without_winner(book, n - 1);
    }
}

/// A run of the platform: each state follows the one before it, as the state
/// after an operation follows the state before it.
pub open spec fn is_history(states: Seq<PlatformView>) -> bool {
    forall|i: int|
        0 <= i < states.len() - 1 ==> platform_follows(#[trigger] states[i], states[i + 1])
}

/// Over a run of the platform, a race that exists goes on existing, and its
/// status never goes back.
pub proof fn law_status_never_goes_back(states: Seq<PlatformView>, race_id: u8, i: int, j: int)
    requires
        is_history(states),
        0 <= i <= j < states.len(),
        race_id < states[i].books.len(),
    ensures
        race_id < states[j].books.len(),
        status_rank(states[i].books[race_id as int].race.status) <= status_rank(
            states[j].books[race_id as int].race.status,
        ),
    decreases j - i,
{
    if i < j {
        law_status_never_goes_back(states, race_id, i, j - 1);
    }
}

/// Over a run of the platform, once a bettor has claimed on a finished race,
/// every later claim of that bettor on that race is refused with
/// `AlreadyClaimed`.
pub proof fn law_claim_refused_ever_after(
    states: Seq<PlatformView>,
    caller: AccountId,
    race_id: u8,
    i: int,
    j: int,
)
    requires
        is_history(states),
        0 <= i <= j < states.len(),
        race_id < states[i].books.len(),
        states[i].books[race_id as int].race.status == RaceStatus::Finished,
        has_claimed(states[i].books[race_id as int].ledgers, caller),
    ensures
        claim_refusal(states[j], caller, race_id) == Some(Error::AlreadyClaimed),
    decreases j - i,
{
    if i < j {
        law_claim_refused_ever_after(states, caller, race_id, i, j - 1);
    }
}

} // verus!
