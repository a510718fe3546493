//! The final order of a race.
//!
//! Finished horses come first, by finish time; the others follow, by distance
//! covered, farthest first. Horses that tie keep the order of their ids. This
//! makes the order strict and total, so a race has exactly one final ranking.

use vstd::prelude::*;
use crate::types::Horse;

verus! {

/// The tick at which a horse finished, or -1 where none is recorded.
pub open spec fn finish_tick(horse: Horse) -> int {
    match horse.finish_time {
        Some(t) => t as int,
        None => -1,
    }
}

/// Whether `a` is placed ahead of `b` in the final order.
pub open spec fn ranks_before(a: Horse, b: Horse) -> bool {
    if a.finished && b.finished {
        finish_tick(a) < finish_tick(b) || (finish_tick(a) == finish_tick(b) && a.id < b.id)
    } else if a.finished {
        true
    } else if b.finished {
        false
    } else {
        a.position > b.position || (a.position == b.position && a.id < b.id)
    }
}

/// Every horse carries its index as its id.
pub open spec fn ids_in_order(horses: Seq<Horse>) -> bool {
    forall|i: int| 0 <= i < horses.len() ==> (#[trigger] horses[i]).id == i
}

/// Every entry of `ranking` is the id of one of `n` horses.
pub open spec fn ids_below(ranking: Seq<u8>, n: nat) -> bool {
    forall|i: int| 0 <= i < ranking.len() ==> (#[trigger] ranking[i]) < n
}

/// Every one of the first `n` horse ids occurs in `ranking`.
pub open spec fn lists_all(ranking: Seq<u8>, n: nat) -> bool {
    forall|k: u8| k < n ==> #[trigger] ranking.contains(k)
}

/// Each horse listed in `ranking` is placed ahead of every horse listed after it.
pub open spec fn in_final_order(horses: Seq<Horse>, ranking: Seq<u8>) -> bool {
    forall|i: int, j: int|
        0 <= i < j < ranking.len() ==> ranks_before(
            horses[(#[trigger] ranking[i]) as int],
            horses[(#[trigger] ranking[j]) as int],
        )
}

/// `ranking` is the final ranking of `horses`: it lists every horse once, each
/// ahead of all that follow it.
pub open spec fn is_final_ranking(horses: Seq<Horse>, ranking: Seq<u8>) -> bool {
    &&& ranking.len() == horses.len()
    &&& ids_below(ranking, horses.len())
    &&& lists_all(ranking, horses.len())
    &&& ranking.no_duplicates()
    &&& in_final_order(horses, ranking)
}

/// Whether `a` is placed ahead of `b` in the final order.
pub fn goes_before(a: &Horse, b: &Horse) -> (ahead: bool)
    ensures
        ahead == ranks_before(*a, *b),
{
    if a.finished && b.finished {
        match (a.finish_time, b.finish_time) {
            (Some(ta), Some(tb)) => ta < tb || (ta == tb && a.id < b.id),
            (None, Some(_)) => true,
            (Some(_), None) => false,
            (None, None) => a.id < b.id,
        }
    } else if a.finished {
        true
    } else if b.finished {
        false
    } else {
        a.position > b.position || (a.position == b.position && a.id < b.id)
    }
}

/// The final ranking of `horses`, whose ids are their indices.
pub fn final_ranking(horses: &Vec<Horse>) -> (ranking: Vec<u8>)
    requires
        horses.len() <= 256,
        ids_in_order(horses@),
    ensures
        is_final_ranking(horses@, ranking@),
{
    let n: usize = horses.len();
    let mut ranking: Vec<u8> = Vec::new();
    let ghost mut place: Seq<int> = Seq::empty();
    let mut next: usize = 0;
    while next < n
        invariant
            n == horses.len(),
            n <= 256,
            ids_in_order(horses@),
            next <= n,
            ranking.len() == next,
            ids_below(ranking@, next as nat),
            in_final_order(horses@, ranking@),
            place.len() == next,
            forall|k: int|
                0 <= k < next ==> 0 <= #[trigger] place[k] < next && ranking[place[k]] == k,
            forall|i: int|
                0 <= i < next ==> 0 <= (#[trigger] ranking[i]) < next && place[ranking[i] as int]
                    == i,
        decreases n - next,
    {
        let id: u8 = next as u8;
        let mut at: usize = 0;
        while at < ranking.len() && !goes_before(&horses[next], &horses[ranking[at] as usize])
            invariant
                n == horses.len(),
                next < n,
                id == next,
                ids_in_order(horses@),
                ranking.len() == next,
                ids_below(ranking@, next as nat),
                at <= ranking.len(),
                forall|i: int| 0 <= i < at ==> ranks_before(
                    horses[(#[trigger] ranking[i]) as int],
                    horses[next as int],
                ),
            decreases ranking.len() - at,
        {
            at += 1;
        }
        ranking.insert(at, id);
        proof {
            let shifted = Seq::new(
                next as nat,
                |k: int| if place[k] >= at { place[k] + 1 } else { place[k] },
            );
            place = shifted.push(at as int);
        }
        next += 1;
    }
    proof {
        assert forall|k: u8| k < n implies #[trigger] ranking@.contains(k) by {
            assert(ranking@[place[k as int]] == k);
        }
    }
    ranking
}

/// A list of distinct ids below `n` has at most `n` entries.
pub proof fn lemma_distinct_ids_bounded(ids: Seq<u8>, n: nat)
    requires
        ids.no_duplicates(),
        ids_below(ids, n),
    ensures
        ids.len() <= n,
    decreases n,
{
    if n == 0 {
        if ids.len() > 0 {
            assert(ids[0] < n);
        }
    } else if exists|i: int| 0 <= i < ids.len() && ids[i] == n - 1 {
        let at = choose|i: int| 0 <= i < ids.len() && ids[i] == n - 1;
        let rest = ids.remove(at);
        lemma_distinct_ids_bounded(rest, (n - 1) as nat);
    } else {
        lemma_distinct_ids_bounded(ids, (n - 1) as nat);
    }
}

/// Two final rankings of the same horses are the same.
pub proof fn lemma_final_ranking_unique(horses: Seq<Horse>, first: Seq<u8>, second: Seq<u8>)
    requires
        ids_in_order(horses),
        is_final_ranking(horses, first),
        is_final_ranking(horses, second),
    ensures
        first == second,
{
    lemma_rankings_agree(horses, first, second, first.len() as int);
}

/// Two final rankings of the same horses agree on their first `n` places.
proof fn lemma_rankings_agree(horses: Seq<Horse>, first: Seq<u8>, second: Seq<u8>, n: int)
    requires
        ids_in_order(horses),
        is_final_ranking(horses, first),
        is_final_ranking(horses, second),
        0 <= n <= first.len(),
    ensures
        forall|i: int| 0 <= i < n ==> first[i] == second[i],
    decreases n,
{
    if n > 0 {
        lemma_rankings_agree(horses, first, second, n - 1);
        let x = first[n - 1];
        let y = second[n - 1];
        if x != y {
            assert(second.contains(x));
            assert(first.contains(y));
        }
    }
}

} // verus!
