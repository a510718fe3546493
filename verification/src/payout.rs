//! Pari-mutuel settlement arithmetic.
//!
//! A winning bettor receives `floor(stake * total_pool / winning_pool)`. The
//! product may need up to 256 bits, so it is never formed: quotient and
//! remainder are carried through a double-and-add over the bits of the pool.

use vstd::prelude::*;
use vstd::arithmetic::div_mod::{lemma_fundamental_div_mod_converse, lemma_div_is_ordered};
use crate::types::Balance;

verus! {

/// What a stake on the winner is worth: its share of the whole pool, rounded
/// down; nothing where nothing was staked on the winner.
pub open spec fn payout_of(stake: nat, total_pool: nat, winning_pool: nat) -> nat {
    if winning_pool == 0 {
        0
    } else {
        (stake * total_pool) / winning_pool
    }
}

/// A payout never exceeds the pool when the stake is part of the winning pool.
pub proof fn lemma_payout_within_pool(stake: nat, total_pool: nat, winning_pool: nat)
    requires
        0 < winning_pool,
        stake <= winning_pool,
    ensures
        payout_of(stake, total_pool, winning_pool) <= total_pool,
{
    assert(stake * total_pool <= winning_pool * total_pool) by (nonlinear_arith)
        requires
            stake <= winning_pool,
    ;
    lemma_div_is_ordered(
        (stake * total_pool) as int,
        (winning_pool * total_pool) as int,
        winning_pool as int,
    );
    assert((winning_pool * total_pool) as int == total_pool as int * winning_pool as int + 0)
        by (nonlinear_arith);
    lemma_fundamental_div_mod_converse(
        (winning_pool * total_pool) as int,
        winning_pool as int,
        total_pool as int,
        0,
    );
}

/// Rounding down separately never gives more than rounding down the sum.
pub proof fn lemma_floor_superadditive(x: nat, y: nat, d: nat)
    requires
        0 < d,
    ensures
        x / d + y / d <= (x + y) / d,
{
    let qx = x / d;
    let qy = y / d;
    let rx = x % d;
    let ry = y % d;
    assert(x == d * qx + rx && y == d * qy + ry) by (nonlinear_arith)
        requires
            0 < d,
            qx == x / d,
            qy == y / d,
            rx == x % d,
            ry == y % d,
    ;
    assert((qx + qy) * d <= x + y) by (nonlinear_arith)
        requires
            x == d * qx + rx,
            y == d * qy + ry,
    ;
    lemma_div_is_ordered(((qx + qy) * d) as int, (x + y) as int, d as int);
    lemma_fundamental_div_mod_converse(((qx + qy) * d) as int, d as int, (qx + qy) as int, 0);
}

/// Two payouts together never exceed the payout of the two stakes together.
pub proof fn lemma_payout_superadditive(a: nat, b: nat, total_pool: nat, winning_pool: nat)
    ensures
        payout_of(a, total_pool, winning_pool) + payout_of(b, total_pool, winning_pool)
            <= payout_of(a + b, total_pool, winning_pool),
{
    if winning_pool > 0 {
        lemma_floor_superadditive(a * total_pool, b * total_pool, winning_pool);
        assert(a * total_pool + b * total_pool == (a + b) * total_pool) by (nonlinear_arith);
    }
}

/// Quotient and remainder of `a * b` by `c`, for `a <= c`, without forming the product.
fn mul_div_rem(a: u128, b: u128, c: u128) -> (qr: (u128, u128))
    requires
        0 < c,
        a <= c,
    ensures
        qr.0 * c + qr.1 == a * b,
        qr.1 < c,
        qr.0 <= b,
    decreases b,
{
    if b == 0 {
        return (0, 0);
    }
    let half: u128 = b / 2;
    let odd: bool = b % 2 == 1;
    let (hq, hr) = mul_div_rem(a, half, c);
    // Double the half result, folding one overflow of the remainder into the quotient.
    let carry_double: bool = hr >= c - hr;
    let doubled: u128 = if carry_double { hr - (c - hr) } else { hr + hr };
    // Add `a` once more when the lowest bit of `b` is set.
    let carry_add: bool = odd && doubled >= c - a;
    let rem: u128 = if !odd {
        doubled
    } else if carry_add {
        doubled - (c - a)
    } else {
        doubled + a
    };
    let ghost cd: int = if carry_double { 1 } else { 0 };
    let ghost ca: int = if carry_add { 1 } else { 0 };
    let ghost bit: int = if odd { 1 } else { 0 };
    let ghost q: int = 2 * hq + cd + ca;
    proof {
        assert(doubled + cd * c == 2 * hr) by (nonlinear_arith)
            requires
                carry_double ==> doubled == 2 * hr - c && cd == 1,
                !carry_double ==> doubled == 2 * hr && cd == 0,
        ;
        assert(rem + ca * c == doubled + bit * a) by (nonlinear_arith)
            requires
                !odd ==> rem == doubled && ca == 0 && bit == 0,
                odd && carry_add ==> rem == doubled + a - c && ca == 1 && bit == 1,
                odd && !carry_add ==> rem == doubled + a && ca == 0 && bit == 1,
        ;
        assert(q * c + rem == a * b) by (nonlinear_arith)
            requires
                q == 2 * hq + cd + ca,
                hq * c + hr == a * half,
                doubled + cd * c == 2 * hr,
                rem + ca * c == doubled + bit * a,
                b == 2 * half + bit,
        ;
        assert(q <= b) by (nonlinear_arith)
            requires
                q * c + rem == a * b,
                0 <= rem,
                0 <= b,
                0 <= a <= c,
                0 < c,
        ;
    }
    let mut quot: u128 = hq + hq;
    if carry_double {
        quot = quot + 1;
    }
    if carry_add {
        quot = quot + 1;
    }
    (quot, rem)
}

/// `floor(a * b / c)` for `a <= c`, exact for every `b`.
pub fn mul_div_floor(a: u128, b: u128, c: u128) -> (q: u128)
    requires
        0 < c,
        a <= c,
    ensures
        q as nat == (a as nat * b as nat) / (c as nat),
{
    let (q, r) = mul_div_rem(a, b, c);
    proof {
        assert((a as nat * b as nat) as int == q as int * c as int + r as int) by (nonlinear_arith)
            requires
                q * c + r == a * b,
        ;
        lemma_fundamental_div_mod_converse(
            (a as nat * b as nat) as int,
            c as int,
            q as int,
            r as int,
        );
    }
    q
}

/// The payout of `stake` out of `total_pool`, where `winning_pool` was staked
/// on the winner and `stake` is part of it.
pub fn payout(stake: Balance, total_pool: Balance, winning_pool: Balance) -> (amount: Balance)
    requires
        0 < winning_pool,
        stake <= winning_pool,
    ensures
        amount as nat == payout_of(stake as nat, total_pool as nat, winning_pool as nat),
        amount <= total_pool,
{
    proof {
        lemma_payout_within_pool(stake as nat, total_pool as nat, winning_pool as nat);
    }
    mul_div_floor(stake, total_pool, winning_pool)
}

} // verus!
