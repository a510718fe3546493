//! The wagering ledger of one race as a mathematical value: one ledger per
//! bettor, holding that bettor's bets in the order they were placed, and the
//! sums that the pools are held to.

use vstd::prelude::*;
use crate::types::{AccountId, Bet};

verus! {

/// The bets of one bettor on one race, and whether the bettor has claimed.
pub struct LedgerView {
    pub bettor: AccountId,
    pub bets: Seq<Bet>,
    pub claimed: bool,
}

/// What `bets` stake on `horse`.
pub open spec fn stake_on(bets: Seq<Bet>, horse: u8) -> nat
    decreases bets.len(),
{
    if bets.len() == 0 {
        0
    } else if bets.last().horse_id == horse {
        stake_on(bets.drop_last(), horse) + bets.last().amount as nat
    } else {
        stake_on(bets.drop_last(), horse)
    }
}

/// What `bets` stake on the horses with an id below `horses`.
pub open spec fn stake_below(bets: Seq<Bet>, horses: nat) -> nat
    decreases bets.len(),
{
    if bets.len() == 0 {
        0
    } else if bets.last().horse_id < horses {
        stake_below(bets.drop_last(), horses) + bets.last().amount as nat
    } else {
        stake_below(bets.drop_last(), horses)
    }
}

/// What `bets` stake in all.
pub open spec fn stake_total(bets: Seq<Bet>) -> nat
    decreases bets.len(),
{
    if bets.len() == 0 {
        0
    } else {
        stake_total(bets.drop_last()) + bets.last().amount as nat
    }
}

/// What all bettors together stake on `horse`.
pub open spec fn staked_on(ledgers: Seq<LedgerView>, horse: u8) -> nat
    decreases ledgers.len(),
{
    if ledgers.len() == 0 {
        0
    } else {
        staked_on(ledgers.drop_last(), horse) + stake_on(ledgers.last().bets, horse)
    }
}

/// What all bettors together stake on the horses with an id below `horses`.
pub open spec fn staked_below(ledgers: Seq<LedgerView>, horses: nat) -> nat
    decreases ledgers.len(),
{
    if ledgers.len() == 0 {
        0
    } else {
        staked_below(ledgers.drop_last(), horses) + stake_below(ledgers.last().bets, horses)
    }
}

/// What all bettors together stake.
pub open spec fn staked(ledgers: Seq<LedgerView>) -> nat
    decreases ledgers.len(),
{
    if ledgers.len() == 0 {
        0
    } else {
        staked(ledgers.drop_last()) + stake_total(ledgers.last().bets)
    }
}

/// The sum of the first `n` per-horse pools.
pub open spec fn pools_sum(pools: Seq<nat>, n: nat) -> nat
    decreases n,
{
    if n == 0 {
        0
    } else {
        pools_sum(pools, (n - 1) as nat) + pools[n - 1]
    }
}

/// Index of the last ledger of `bettor`, or -1 where the bettor has none.
pub open spec fn position_of(ledgers: Seq<LedgerView>, bettor: AccountId) -> int
    decreases ledgers.len(),
{
    if ledgers.len() == 0 {
        -1
    } else if ledgers.last().bettor == bettor {
        ledgers.len() - 1
    } else {
        position_of(ledgers.drop_last(), bettor)
    }
}

/// The bets of `bettor`, in the order they were placed.
pub open spec fn bets_of(ledgers: Seq<LedgerView>, bettor: AccountId) -> Seq<Bet> {
    let at = position_of(ledgers, bettor);
    if at < 0 {
        Seq::empty()
    } else {
        ledgers[at].bets
    }
}

/// Whether `bettor` has claimed.
pub open spec fn has_claimed(ledgers: Seq<LedgerView>, bettor: AccountId) -> bool {
    let at = position_of(ledgers, bettor);
    at >= 0 && ledgers[at].claimed
}

/// No two ledgers belong to the same bettor.
pub open spec fn bettors_distinct(ledgers: Seq<LedgerView>) -> bool {
    forall|i: int, j: int|
        0 <= i < j < ledgers.len() ==> (#[trigger] ledgers[i]).bettor != (
        #[trigger] ledgers[j]).bettor
}

/// The ledgers after `bet` is recorded: appended to its bettor's ledger, which
/// is opened at the end of the list where the bettor had none.
pub open spec fn with_bet(ledgers: Seq<LedgerView>, bet: Bet) -> Seq<LedgerView> {
    let at = position_of(ledgers, bet.bettor);
    if at < 0 {
        ledgers.push(LedgerView { bettor: bet.bettor, bets: seq![bet], claimed: false })
    } else {
        ledgers.update(
            at,
            LedgerView {
                bettor: ledgers[at].bettor,
                bets: ledgers[at].bets.push(bet),
                claimed: ledgers[at].claimed,
            },
        )
    }
}

/// The ledgers after `bettor` has claimed.
pub open spec fn with_claim(ledgers: Seq<LedgerView>, bettor: AccountId) -> Seq<LedgerView> {
    let at = position_of(ledgers, bettor);
    if at < 0 {
        ledgers
    } else {
        ledgers.update(
            at,
            LedgerView { bettor: ledgers[at].bettor, bets: ledgers[at].bets, claimed: true },
        )
    }
}

/// `position_of` finds a ledger of the bettor, and none stands after it.
pub proof fn lemma_position_of(ledgers: Seq<LedgerView>, bettor: AccountId)
    ensures
        -1 <= position_of(ledgers, bettor) < ledgers.len(),
        position_of(ledgers, bettor) >= 0 ==> ledgers[position_of(ledgers, bettor)].bettor
            == bettor,
        forall|i: int|
            position_of(ledgers, bettor) < i < ledgers.len() ==> (#[trigger] ledgers[i]).bettor
                != bettor,
    decreases ledgers.len(),
{
    if ledgers.len() > 0 && ledgers.last().bettor != bettor {
        let front = ledgers.drop_last();
        lemma_position_of(front, bettor);
        assert forall|i: int| position_of(ledgers, bettor) < i < ledgers.len() implies (
        #[trigger] ledgers[i]).bettor != bettor by {
            if i < front.len() {
                assert(front[i] == ledgers[i]);
            }
        }
    }
}

/// Among distinct bettors, a ledger is found at its own index.
pub proof fn lemma_position_of_distinct(ledgers: Seq<LedgerView>, k: int)
    requires
        bettors_distinct(ledgers),
        0 <= k < ledgers.len(),
    ensures
        position_of(ledgers, ledgers[k].bettor) == k,
{
    lemma_position_of(ledgers, ledgers[k].bettor);
}

/// One more bet adds its amount to the stake on its horse and to no other.
pub proof fn lemma_stake_push(bets: Seq<Bet>, bet: Bet, horse: u8)
    ensures
        stake_on(bets.push(bet), horse) == stake_on(bets, horse) + if bet.horse_id == horse {
            bet.amount as nat
        } else {
            0
        },
        stake_total(bets.push(bet)) == stake_total(bets) + bet.amount as nat,
{
    assert(bets.push(bet).drop_last() =~= bets);
}

/// The stake of a prefix of the bets is part of the stake of all of them.
pub proof fn lemma_stake_prefix(bets: Seq<Bet>, n: int, horse: u8)
    requires
        0 <= n <= bets.len(),
    ensures
        stake_on(bets.take(n), horse) <= stake_on(bets, horse),
    decreases bets.len(),
{
    if n == bets.len() {
        assert(bets.take(n) =~= bets);
    } else {
        lemma_stake_prefix(bets.drop_last(), n, horse);
        assert(bets.drop_last().take(n) =~= bets.take(n));
    }
}

/// What one ledger stakes on a horse is part of what all stake on it.
pub proof fn lemma_ledger_within_pool(ledgers: Seq<LedgerView>, k: int, horse: u8)
    requires
        0 <= k < ledgers.len(),
    ensures
        stake_on(ledgers[k].bets, horse) <= staked_on(ledgers, horse),
    decreases ledgers.len(),
{
    if k < ledgers.len() - 1 {
        lemma_ledger_within_pool(ledgers.drop_last(), k, horse);
    }
}

/// Replacing one ledger changes the sums by the difference of its stakes.
pub proof fn lemma_staked_update(ledgers: Seq<LedgerView>, k: int, ledger: LedgerView, horse: u8)
    requires
        0 <= k < ledgers.len(),
    ensures
        staked_on(ledgers.update(k, ledger), horse) + stake_on(ledgers[k].bets, horse)
            == staked_on(ledgers, horse) + stake_on(ledger.bets, horse),
        staked(ledgers.update(k, ledger)) + stake_total(ledgers[k].bets) == staked(ledgers)
            + stake_total(ledger.bets),
    decreases ledgers.len(),
{
    let updated = ledgers.update(k, ledger);
    if k == ledgers.len() - 1 {
        assert(updated.drop_last() =~= ledgers.drop_last());
    } else {
        lemma_staked_update(ledgers.drop_last(), k, ledger, horse);
        assert(updated.drop_last() =~= ledgers.drop_last().update(k, ledger));
    }
}

/// Recording a bet adds its amount to the stake on its horse and to the total.
pub proof fn lemma_with_bet_sums(ledgers: Seq<LedgerView>, bet: Bet, horse: u8)
    ensures
        staked_on(with_bet(ledgers, bet), horse) == staked_on(ledgers, horse) + if bet.horse_id
            == horse {
            bet.amount as nat
        } else {
            0
        },
        staked(with_bet(ledgers, bet)) == staked(ledgers) + bet.amount as nat,
{
    lemma_position_of(ledgers, bet.bettor);
    let at = position_of(ledgers, bet.bettor);
    if at < 0 {
        let opened = LedgerView { bettor: bet.bettor, bets: seq![bet], claimed: false };
        assert(ledgers.push(opened).drop_last() =~= ledgers);
        lemma_stake_push(Seq::<Bet>::empty(), bet, horse);
    } else {
        let grown = LedgerView {
            bettor: ledgers[at].bettor,
            bets: ledgers[at].bets.push(bet),
            claimed: ledgers[at].claimed,
        };
        lemma_staked_update(ledgers, at, grown, horse);
        lemma_stake_push(ledgers[at].bets, bet, horse);
    }
}

/// A claim changes no stake.
pub proof fn lemma_with_claim_sums(ledgers: Seq<LedgerView>, bettor: AccountId, horse: u8)
    ensures
        staked_on(with_claim(ledgers, bettor), horse) == staked_on(ledgers, horse),
        staked(with_claim(ledgers, bettor)) == staked(ledgers),
{
    lemma_position_of(ledgers, bettor);
    let at = position_of(ledgers, bettor);
    if at >= 0 {
        let marked = LedgerView {
            bettor: ledgers[at].bettor,
            bets: ledgers[at].bets,
            claimed: true,
        };
        lemma_staked_update(ledgers, at, marked, horse);
    }
}

/// The stake below `horses + 1` is the stake below `horses` and the stake on `horses`.
pub proof fn lemma_stake_below_step(bets: Seq<Bet>, horses: u8)
    ensures
        stake_below(bets, horses as nat + 1) == stake_below(bets, horses as nat) + stake_on(
            bets,
            horses,
        ),
        stake_below(bets, 0) == 0,
    decreases bets.len(),
{
    if bets.len() > 0 {
        lemma_stake_below_step(bets.drop_last(), horses);
    }
}

/// Where every bet names a horse below `horses`, the stake below `horses` is the whole stake.
pub proof fn lemma_stake_below_all(bets: Seq<Bet>, horses: nat)
    requires
        forall|i: int| 0 <= i < bets.len() ==> (#[trigger] bets[i]).horse_id < horses,
    ensures
        stake_below(bets, horses) == stake_total(bets),
    decreases bets.len(),
{
    if bets.len() > 0 {
        let front = bets.drop_last();
        lemma_stake_below_all(front, horses);
    }
}

/// The same two facts over all ledgers.
pub proof fn lemma_staked_below_step(ledgers: Seq<LedgerView>, horses: u8)
    ensures
        staked_below(ledgers, horses as nat + 1) == staked_below(ledgers, horses as nat)
            + staked_on(ledgers, horses),
        staked_below(ledgers, 0) == 0,
    decreases ledgers.len(),
{
    if ledgers.len() > 0 {
        lemma_staked_below_step(ledgers.drop_last(), horses);
        lemma_stake_below_step(ledgers.last().bets, horses);
    }
}

/// Where every bet names a horse below `horses`, what is staked below
/// `horses` is all that is staked.
pub proof fn lemma_staked_below_all(ledgers: Seq<LedgerView>, horses: nat)
    requires
        forall|k: int, i: int|
            0 <= k < ledgers.len() && 0 <= i < ledgers[k].bets.len() ==> (
            #[trigger] ledgers[k].bets[i]).horse_id < horses,
    ensures
        staked_below(ledgers, horses) == staked(ledgers),
    decreases ledgers.len(),
{
    if ledgers.len() > 0 {
        let front = ledgers.drop_last();
        assert forall|k: int, i: int|
            0 <= k < front.len() && 0 <= i < front[k].bets.len() implies (
        #[trigger] front[k].bets[i]).horse_id < horses by {}
        lemma_staked_below_all(front, horses);
        let last = ledgers.last();
        lemma_stake_below_all(last.bets, horses);
    }
}

/// Pools that each hold the stake on their horse add up to what is staked
/// below the number of pools.
pub proof fn lemma_pools_sum(ledgers: Seq<LedgerView>, pools: Seq<nat>, n: nat)
    requires
        n <= pools.len(),
        n <= 256,
        forall|h: int| 0 <= h < n ==> #[trigger] pools[h] == staked_on(ledgers, h as u8),
    ensures
        pools_sum(pools, n) == staked_below(ledgers, n),
    decreases n,
{
    if n == 0 {
        lemma_staked_below_step(ledgers, 0);
    } else {
        lemma_pools_sum(ledgers, pools, (n - 1) as nat);
        lemma_staked_below_step(ledgers, (n - 1) as u8);
    }
}

/// The ledger of a bettor that no later ledger belongs to is the one `position_of` finds.
pub proof fn lemma_position_found(ledgers: Seq<LedgerView>, bettor: AccountId, k: int)
    requires
        -1 <= k < ledgers.len(),
        k >= 0 ==> ledgers[k].bettor == bettor,
        forall|j: int| k < j < ledgers.len() ==> (#[trigger] ledgers[j]).bettor != bettor,
    ensures
        position_of(ledgers, bettor) == k,
    decreases ledgers.len(),
{
    if ledgers.len() > 0 && k < ledgers.len() - 1 {
        let front = ledgers.drop_last();
        lemma_position_found(front, bettor, k);
    }
}

/// What is staked on one horse is part of what is staked in all.
pub proof fn lemma_stake_on_within_total(bets: Seq<Bet>, horse: u8)
    ensures
        stake_on(bets, horse) <= stake_total(bets),
    decreases bets.len(),
{
    if bets.len() > 0 {
        lemma_stake_on_within_total(bets.drop_last(), horse);
    }
}

/// The same over all ledgers.
pub proof fn lemma_staked_on_within_total(ledgers: Seq<LedgerView>, horse: u8)
    ensures
        staked_on(ledgers, horse) <= staked(ledgers),
    decreases ledgers.len(),
{
    if ledgers.len() > 0 {
        lemma_staked_on_within_total(ledgers.drop_last(), horse);
        lemma_stake_on_within_total(ledgers.last().bets, horse);
    }
}

/// Replacing a ledger by one of the same bettor moves no bettor's ledger.
pub proof fn lemma_position_of_update(
    ledgers: Seq<LedgerView>,
    k: int,
    ledger: LedgerView,
    bettor: AccountId,
)
    requires
        0 <= k < ledgers.len(),
        ledger.bettor == ledgers[k].bettor,
    ensures
        position_of(ledgers.update(k, ledger), bettor) == position_of(ledgers, bettor),
    decreases ledgers.len(),
{
    let updated = ledgers.update(k, ledger);
    if k == ledgers.len() - 1 {
        assert(updated.drop_last() =~= ledgers.drop_last());
    } else {
        lemma_position_of_update(ledgers.drop_last(), k, ledger, bettor);
        assert(updated.drop_last() =~= ledgers.drop_last().update(k, ledger));
    }
}

/// Recording a bet appends it to the bets of its bettor, leaves the bets of
/// every other bettor as they were, and changes no claim.
pub proof fn lemma_with_bet_bets(ledgers: Seq<LedgerView>, bet: Bet, bettor: AccountId)
    ensures
        bets_of(with_bet(ledgers, bet), bettor) == if bettor == bet.bettor {
            bets_of(ledgers, bettor).push(bet)
        } else {
            bets_of(ledgers, bettor)
        },
        has_claimed(with_bet(ledgers, bet), bettor) == has_claimed(ledgers, bettor),
{
    lemma_position_of(ledgers, bet.bettor);
    lemma_position_of(ledgers, bettor);
    let at = position_of(ledgers, bet.bettor);
    if at < 0 {
        let opened = LedgerView { bettor: bet.bettor, bets: seq![bet], claimed: false };
        assert(ledgers.push(opened).drop_last() =~= ledgers);
    } else {
        let grown = LedgerView {
            bettor: ledgers[at].bettor,
            bets: ledgers[at].bets.push(bet),
            claimed: ledgers[at].claimed,
        };
        lemma_position_of_update(ledgers, at, grown, bettor);
    }
}

/// A claim changes no bets, and no claim but that of the claimant, who has
/// claimed afterwards if the claimant has a ledger.
pub proof fn lemma_with_claim_bets(ledgers: Seq<LedgerView>, claimant: AccountId, bettor: AccountId)
    ensures
        bets_of(with_claim(ledgers, claimant), bettor) == bets_of(ledgers, bettor),
        has_claimed(with_claim(ledgers, claimant), bettor) == (has_claimed(ledgers, bettor) || (
        bettor == claimant && position_of(ledgers, claimant) >= 0)),
{
    lemma_position_of(ledgers, claimant);
    lemma_position_of(ledgers, bettor);
    let at = position_of(ledgers, claimant);
    if at >= 0 {
        let marked = LedgerView {
            bettor: ledgers[at].bettor,
            bets: ledgers[at].bets,
            claimed: true,
        };
        lemma_position_of_update(ledgers, at, marked, bettor);
    }
}

/// What the first ledgers stake on a horse is part of what all stake on it.
pub proof fn lemma_staked_prefix(ledgers: Seq<LedgerView>, n: int, horse: u8)
    requires
        0 <= n <= ledgers.len(),
    ensures
        staked_on(ledgers.take(n), horse) <= staked_on(ledgers, horse),
    decreases ledgers.len(),
{
    if n == ledgers.len() {
        assert(ledgers.take(n) =~= ledgers);
    } else {
        lemma_staked_prefix(ledgers.drop_last(), n, horse);
        assert(ledgers.drop_last().take(n) =~= ledgers.take(n));
    }
}

} // verus!
