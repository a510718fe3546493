//! The progression engine: how far each horse moves in one tick.
//!
//! Movement is a pure function of the block number, the block timestamp and the
//! horse's id, so that every replica computes the same race.

use vstd::prelude::*;
use crate::ranking::ids_in_order;
use crate::types::{Horse, FINISH_LINE};

verus! {

/// Multiplier of the linear congruential step.
pub const LCG_MULTIPLIER: u32 = 1664525;

/// Increment of the linear congruential step.
pub const LCG_INCREMENT: u32 = 1013904223;

/// The low 32 bits of a timestamp.
pub open spec fn low_bits(timestamp: u64) -> u32 {
    (timestamp % 0x1_0000_0000) as u32
}

/// The seed of one horse's draw: timestamp, block and horse id folded by XOR.
pub open spec fn entropy(seed: u8, block: u32, timestamp: u64) -> u32 {
    low_bits(timestamp) ^ block ^ (seed as u32)
}

/// One linear congruential step on 32 bits, reduced to `0..100`.
pub open spec fn spec_pseudo_random(seed: u8, block: u32, timestamp: u64) -> u32 {
    (((LCG_MULTIPLIER as int) * (entropy(seed, block, timestamp) as int) + (LCG_INCREMENT as int))
        % 0x1_0000_0000 % 100) as u32
}

/// Distance that horse `horse_id` covers in the tick at `block`: between 15 and 35.
pub open spec fn spec_acceleration(horse_id: u8, block: u32, timestamp: u64) -> u32 {
    (spec_pseudo_random(horse_id, block, timestamp) % 21 + 15) as u32
}

/// The horse after a tick in which it covers `acceleration`, `elapsed` blocks
/// into the race. A finished horse is left as it is; a horse that reaches the
/// finish line is pinned to it and timed.
pub open spec fn moved(horse: Horse, elapsed: u32, acceleration: u32) -> Horse {
    if horse.finished {
        horse
    } else if horse.position + acceleration >= FINISH_LINE {
        Horse { id: horse.id, position: FINISH_LINE, finished: true, finish_time: Some(elapsed) }
    } else {
        Horse {
            id: horse.id,
            position: (horse.position + acceleration) as u32,
            finished: false,
            finish_time: horse.finish_time,
        }
    }
}

/// A pseudo-random number in `0..100`, drawn from a linear congruential step
/// seeded by `timestamp XOR block XOR seed`.
pub fn pseudo_random(seed: u8, block: u32, timestamp: u64) -> (value: u32)
    ensures
        value == spec_pseudo_random(seed, block, timestamp),
        value < 100,
{
    let low: u32 = (timestamp & 0xffff_ffff) as u32;
    assert(low == low_bits(timestamp)) by (bit_vector)
        requires
            low == (timestamp & 0xffff_ffff) as u32,
    ;
    let hash: u32 = low ^ block ^ (seed as u32);
    LCG_MULTIPLIER.wrapping_mul(hash).wrapping_add(LCG_INCREMENT) % 100
}

/// Distance that horse `horse_id` covers in the tick at `block`.
pub fn acceleration(horse_id: u8, block: u32, timestamp: u64) -> (distance: u32)
    ensures
        distance == spec_acceleration(horse_id, block, timestamp),
        15 <= distance <= 35,
{
    pseudo_random(horse_id, block, timestamp) % 21 + 15
}

/// Moves one horse by `acceleration`, `elapsed` blocks into the race.
pub fn advance_horse(horse: Horse, elapsed: u32, acceleration: u32) -> (after: Horse)
    requires
        horse.position <= FINISH_LINE,
        acceleration <= 35,
    ensures
        after == moved(horse, elapsed, acceleration),
{
    if horse.finished {
        horse
    } else {
        let position: u32 = horse.position + acceleration;
        if position >= FINISH_LINE {
            Horse {
                id: horse.id,
                position: FINISH_LINE,
                finished: true,
                finish_time: Some(elapsed),
            }
        } else {
            Horse { id: horse.id, position, finished: false, finish_time: horse.finish_time }
        }
    }
}

/// The horses after the tick at `block`, `elapsed` blocks into the race.
pub open spec fn ticked(
    before: Seq<Horse>,
    elapsed: u32,
    block: u32,
    timestamp: u64,
) -> Seq<Horse> {
    Seq::new(
        before.len(),
        |i: int| moved(before[i], elapsed, spec_acceleration(before[i].id, block, timestamp)),
    )
}

/// Among the first `n` horses, the ids of those that reached the finish line
/// between `before` and `after`, in the order of their ids.
pub open spec fn newly_finished(before: Seq<Horse>, after: Seq<Horse>, n: int) -> Seq<u8>
    decreases n,
{
    if n <= 0 {
        Seq::empty()
    } else if !before[n - 1].finished && after[n - 1].finished {
        newly_finished(before, after, n - 1).push(after[n - 1].id)
    } else {
        newly_finished(before, after, n - 1)
    }
}

/// Among the first `n` horses, id and new position of each that was still
/// running in `before`, in the order of their ids.
pub open spec fn reported(before: Seq<Horse>, after: Seq<Horse>, n: int) -> Seq<(u8, u32)>
    decreases n,
{
    if n <= 0 {
        Seq::empty()
    } else if !before[n - 1].finished {
        reported(before, after, n - 1).push((after[n - 1].id, after[n - 1].position))
    } else {
        reported(before, after, n - 1)
    }
}

/// Whether every horse has finished.
pub open spec fn all_finished(horses: Seq<Horse>) -> bool {
    forall|i: int| 0 <= i < horses.len() ==> (#[trigger] horses[i]).finished
}

/// Runs one tick over the horses of a race, in the order of their ids.
///
/// Every horse still running moves by its draw for this block. The ids of the
/// horses that finish in this tick are appended to `rankings`. Returns id and
/// new position of each horse that ran, and whether all horses have now
/// finished.
pub fn run_tick(
    horses: &mut Vec<Horse>,
    rankings: &mut Vec<u8>,
    elapsed: u32,
    block: u32,
    timestamp: u64,
) -> (out: (Vec<(u8, u32)>, bool))
    requires
        forall|i: int|
            0 <= i < old(horses).len() ==> (#[trigger] old(horses)[i]).position <= FINISH_LINE,
    ensures
        final(horses)@ == ticked(old(horses)@, elapsed, block, timestamp),
        final(rankings)@ == old(rankings)@ + newly_finished(
            old(horses)@,
            final(horses)@,
            old(horses).len() as int,
        ),
        out.0@ == reported(old(horses)@, final(horses)@, old(horses).len() as int),
        out.1 == all_finished(final(horses)@),
{
    let n: usize = horses.len();
    let ghost before = horses@;
    let ghost listed = rankings@;
    let ghost after = ticked(before, elapsed, block, timestamp);
    let mut positions: Vec<(u8, u32)> = Vec::new();
    let mut done: bool = true;
    let mut i: usize = 0;
    while i < n
        invariant
            i <= n,
            n == before.len(),
            horses.len() == n,
            after == ticked(before, elapsed, block, timestamp),
            forall|j: int| 0 <= j < n ==> (#[trigger] before[j]).position <= FINISH_LINE,
            forall|j: int| 0 <= j < i ==> horses[j] == after[j],
            forall|j: int| i <= j < n ==> horses[j] == before[j],
            rankings@ == listed + newly_finished(before, after, i as int),
            positions@ == reported(before, after, i as int),
            done == (forall|j: int| 0 <= j < i ==> (#[trigger] after[j]).finished),
        decreases n - i,
    {
        let horse: Horse = horses[i];
        if !horse.finished {
            let step: u32 = acceleration(horse.id, block, timestamp);
            let next: Horse = advance_horse(horse, elapsed, step);
            if next.finished {
                rankings.push(next.id);
            } else {
                done = false;
            }
            positions.push((next.id, next.position));
            horses[i] = next;
        } else {
            assert(after[i as int] == horse);
        }
        i += 1;
    }
    assert(horses@ =~= after);
    (positions, done)
}

/// The horses that finish in a tick were running before it, are listed once
/// each and in the order of their ids.
pub proof fn lemma_newly_finished(before: Seq<Horse>, after: Seq<Horse>, n: int)
    requires
        0 <= n <= before.len(),
        before.len() == after.len(),
        ids_in_order(after),
        after.len() <= 256,
    ensures
        forall|i: int|
            0 <= i < newly_finished(before, after, n).len() ==> {
                let id = #[trigger] newly_finished(before, after, n)[i];
                id < n && !before[id as int].finished && after[id as int].finished
            },
        forall|i: int, j: int|
            0 <= i < j < newly_finished(before, after, n).len() ==> newly_finished(
                before,
                after,
                n,
            )[i] < newly_finished(before, after, n)[j],
    decreases n,
{
    if n > 0 {
        lemma_newly_finished(before, after, n - 1);
    }
}

} // verus!
