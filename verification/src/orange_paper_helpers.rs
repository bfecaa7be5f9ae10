//! Reference formulas of the monetary schedule: block subsidy, total and
//! remaining supply, halving epoch, block reward, chain work and UTXO-set
//! value.

use crate::constants::{C, H, M_MAX};
use vstd::arithmetic::power2::{lemma2_to64, pow2};
use vstd::bits::lemma_u64_shr_is_div;
use vstd::prelude::*;
use vstd::seq_lib::{to_multiset_build, to_multiset_contains, to_multiset_len, to_multiset_remove};

verus! {

/// The subsidy of the first halving period, `50 × C`.
pub open spec fn initial_subsidy() -> u64 {
    (50 * C) as u64
}

/// GetBlockSubsidy(h) = 50 × C × 2^(-⌊h/H⌋), zero from the 64th halving on.
pub open spec fn block_subsidy(height: u64) -> int {
    let halving_period = height / H;
    if halving_period >= 64 {
        0
    } else {
        (initial_subsidy() >> halving_period) as int
    }
}

/// TotalSupply(h) = the sum of the subsidies of blocks `0 ..= h`.
pub open spec fn total_supply(height: u64) -> int
    decreases height,
{
    if height == 0 {
        block_subsidy(0)
    } else {
        total_supply((height - 1) as u64) + block_subsidy(height)
    }
}

/// The subsidy of a whole halving period `p`, `50 × C × 2^(-p)`.
pub open spec fn period_subsidy(p: nat) -> int {
    if p >= 64 {
        0
    } else {
        (initial_subsidy() >> (p as u64)) as int
    }
}

/// The sum of the per-block subsidies of periods `0 .. p`.
pub open spec fn periods_sum(p: nat) -> int
    decreases p,
{
    if p == 0 {
        0
    } else {
        periods_sum((p - 1) as nat) + period_subsidy((p - 1) as nat)
    }
}

/// The total of all per-block subsidies of the schedule.
pub open spec fn all_periods_sum() -> int {
    periods_sum(33)
}

/// The sum of a sequence of amounts.
pub open spec fn amounts_sum(values: Seq<i64>) -> int
    decreases values.len(),
{
    if values.len() == 0 {
        0
    } else {
        amounts_sum(values.drop_last()) + values.last()
    }
}

/// Removing the amount at `i` takes exactly that amount out of the sum.
proof fn lemma_amounts_sum_remove(values: Seq<i64>, i: int)
    requires
        0 <= i < values.len(),
    ensures
        amounts_sum(values) == amounts_sum(values.remove(i)) + values[i],
    decreases values.len(),
{
    if i == values.len() - 1 {
        assert(values.remove(i) =~= values.drop_last());
    } else {
        let d = values.drop_last();
        lemma_amounts_sum_remove(d, i);
        assert(values.remove(i).drop_last() =~= d.remove(i));
        assert(values.remove(i).last() == values.last());
    }
}

/// The sum of amounts does not depend on their order: any two sequences
/// holding the same amounts, each as often, have the same sum.
pub proof fn lemma_amounts_sum_permutation(a: Seq<i64>, b: Seq<i64>)
    requires
        a.to_multiset() == b.to_multiset(),
    ensures
        amounts_sum(a) == amounts_sum(b),
    decreases a.len(),
{
    broadcast use vstd::multiset::group_multiset_axioms;

    to_multiset_len(a);
    to_multiset_len(b);
    if a.len() > 0 {
        let x = a.last();
        let a2 = a.drop_last();
        assert(a2.push(x) =~= a);
        to_multiset_build(a2, x);
        assert(a.to_multiset().count(x) > 0);
        to_multiset_contains(b, x);
        let j = choose|j: int| 0 <= j < b.len() && b[j] == x;
        let b2 = b.remove(j);
        to_multiset_remove(b, j);
        assert(b2.to_multiset() =~= a2.to_multiset());
        lemma_amounts_sum_permutation(a2, b2);
        lemma_amounts_sum_remove(b, j);
    }
}

/// Every partial sum of `values`, taken from the front, fits in `i64`.
pub open spec fn partial_sums_fit(values: Seq<i64>) -> bool {
    forall|k: int|
        0 <= k <= values.len() ==> i64::MIN <= #[trigger] amounts_sum(values.take(k)) <= i64::MAX
}

proof fn lemma_shift_bounds(p: u64)
    ensures
        initial_subsidy() >> p <= initial_subsidy(),
        33 <= p ==> initial_subsidy() >> p == 0,
{
    assert(5_000_000_000u64 >> p <= 5_000_000_000u64) by (bit_vector);
    assert(33 <= p ==> 5_000_000_000u64 >> p == 0u64) by (bit_vector);
}

/// A subsidy is between zero and the initial subsidy, and zero from the 33rd
/// halving on.
pub proof fn lemma_subsidy_bounds(height: u64)
    ensures
        0 <= block_subsidy(height) <= initial_subsidy(),
        height >= 33 * H ==> block_subsidy(height) == 0,
{
    let p = height / H;
    lemma_shift_bounds(p);
    if height >= 33 * H {
        assert(p >= 33) by (nonlinear_arith)
            requires
                height >= 33 * 210_000,
                p == height / 210_000,
        ;
    }
}

/// The running total is never negative and never exceeds what the first 33
/// halving periods can pay at most.
pub proof fn lemma_total_supply_bounds(height: u64)
    ensures
        0 <= total_supply(height),
        height < 33 * H ==> total_supply(height) <= (height + 1) * initial_subsidy(),
        total_supply(height) <= 33 * H * initial_subsidy(),
    decreases height,
{
    lemma_subsidy_bounds(height);
    if height > 0 {
        lemma_total_supply_bounds((height - 1) as u64);
    }
}

/// The subsidy is halved each period, down to zero.
pub proof fn lemma_subsidy_halves(height: u64)
    requires
        height as int + H <= u64::MAX,
    ensures
        block_subsidy((height + H) as u64) == block_subsidy(height) / 2,
{
    let p = height / H;
    let q = ((height + H) as u64) / H;
    assert(q == p + 1) by (nonlinear_arith)
        requires
            p == height / 210_000,
            q == (height + 210_000) / 210_000,
    ;
    if p < 63 {
        let x = initial_subsidy() >> p;
        assert(5_000_000_000u64 >> (p + 1) as u64 == (5_000_000_000u64 >> p) / 2) by (bit_vector)
            requires
                p < 63,
        ;
    } else if p == 63 {
        assert(5_000_000_000u64 >> 63u64 == 0u64) by (bit_vector);
    }
}

proof fn lemma_period_subsidy_matches(height: u64)
    ensures
        block_subsidy(height) == period_subsidy((height / H) as nat),
{
}

/// The running total inside period `p = ⌊h/H⌋`: all earlier periods in full,
/// then `h mod H + 1` blocks of the current one.
#[verifier::spinoff_prover]
pub proof fn lemma_total_supply_closed_form(height: u64)
    ensures
        total_supply(height) == H * periods_sum((height / H) as nat) + (height % H + 1)
            * period_subsidy((height / H) as nat),
    decreases height,
{
    let p = (height / H) as nat;
    if height > 0 {
        let prev = (height - 1) as u64;
        lemma_total_supply_closed_form(prev);
        lemma_period_subsidy_matches(height);
        assert(total_supply(height) == total_supply(prev) + block_subsidy(height));
        if height % H == 0 {
            assert(prev / H == p - 1 && prev % H == H - 1) by (nonlinear_arith)
                requires
                    height > 0,
                    prev == height - 1,
                    height % 210_000 == 0,
                    p == height / 210_000,
            ;
            assert(total_supply(prev) == H * periods_sum((p - 1) as nat) + H * period_subsidy(
                (p - 1) as nat,
            ));
            assert(H * periods_sum(p) == H * periods_sum((p - 1) as nat) + H * period_subsidy(
                (p - 1) as nat,
            )) by (nonlinear_arith)
                requires
                    periods_sum(p) == periods_sum((p - 1) as nat) + period_subsidy((p - 1) as nat),
            ;
            assert(height % H + 1 == 1);
            assert(total_supply(height) == H * periods_sum(p) + (height % H + 1) * period_subsidy(p));
        } else {
            assert(prev / H == p && prev % H == height % H - 1) by (nonlinear_arith)
                requires
                    height > 0,
                    prev == height - 1,
                    height % 210_000 != 0,
                    p == height / 210_000,
            ;
            assert((height % H + 1) * period_subsidy(p) == (prev % H + 1) * period_subsidy(p)
                + period_subsidy(p)) by (nonlinear_arith)
                requires
                    height % 210_000 == prev % 210_000 + 1,
            ;
            assert(total_supply(prev) == H * periods_sum(p) + (prev % H + 1) * period_subsidy(p));
            assert(total_supply(height) == H * periods_sum(p) + (height % H + 1) * period_subsidy(p));
        }
    } else {
        assert(height / H == 0 && height % H == 0);
        lemma_period_subsidy_matches(height);
        assert(periods_sum(0) == 0);
        assert(total_supply(height) == H * periods_sum(p) + (height % H + 1) * period_subsidy(p));
    }
}

/// The per-period sums stop growing after the 33rd period.
proof fn lemma_periods_sum_bounded(p: nat)
    ensures
        0 <= periods_sum(p) <= all_periods_sum(),
        p >= 33 ==> periods_sum(p) == all_periods_sum(),
    decreases p,
{
    if p > 0 {
        lemma_periods_sum_bounded((p - 1) as nat);
        if p - 1 < 64 {
            lemma_shift_bounds((p - 1) as u64);
        }
    }
    if p < 33 {
        lemma_periods_sum_monotone(p, 33);
    }
}

proof fn lemma_periods_sum_monotone(p: nat, q: nat)
    requires
        p <= q,
    ensures
        periods_sum(p) <= periods_sum(q),
    decreases q,
{
    if p < q {
        lemma_periods_sum_monotone(p, (q - 1) as nat);
        if q - 1 < 64 {
            lemma_shift_bounds((q - 1) as u64);
        }
    }
}

proof fn lemma_period_subsidy_div(p: nat)
    requires
        p < 64,
    ensures
        period_subsidy(p) == 5_000_000_000nat / pow2(p),
{
    lemma_u64_shr_is_div(5_000_000_000u64, p as u64);
}

/// The per-block subsidies of all periods add up to 99.99999989 bitcoin, so
/// the schedule pays 20,999,999.9769 bitcoin in all.
proof fn lemma_all_periods_sum_value()
    ensures
        all_periods_sum() == 9_999_999_989,
{
    lemma2_to64();
    assert forall|q: nat| q < 33 implies #[trigger] period_subsidy(q) == 5_000_000_000nat / pow2(q) by {
        lemma_period_subsidy_div(q);
    }
    reveal_with_fuel(periods_sum, 34);
    assert(periods_sum(33) == 9_999_999_989);
}

/// The total supply never exceeds the maximum money supply, at any height.
pub proof fn lemma_total_supply_within_max_money(height: u64)
    ensures
        total_supply(height) <= M_MAX,
{
    let p = (height / H) as nat;
    lemma_total_supply_closed_form(height);
    lemma_periods_sum_bounded(p + 1);
    lemma_all_periods_sum_value();
    assert(periods_sum(p + 1) == periods_sum(p) + period_subsidy(p));
    if p < 64 {
        lemma_shift_bounds(p as u64);
    }
    assert(0 <= period_subsidy(p));
    assert(height % H + 1 <= H);
    assert((height % H + 1) * period_subsidy(p) <= H * period_subsidy(p)) by (nonlinear_arith)
        requires
            height % 210_000 + 1 <= 210_000,
            0 <= period_subsidy(p),
    ;
    assert(H * periods_sum(p + 1) <= H * all_periods_sum()) by (nonlinear_arith)
        requires
            periods_sum(p + 1) <= all_periods_sum(),
    ;
}

/// ValidateSupplyLimit(h) = TotalSupply(h) <= MAX_MONEY
pub fn expected_validatesupplylimit_from_orange_paper(height: u64) -> (r: bool)
    ensures
        r == (total_supply(height) <= M_MAX),
        r,
{
    proof {
        lemma_total_supply_within_max_money(height);
    }
    let total_supply = expected_totalsupply_from_orange_paper(height);
    total_supply <= M_MAX
}

/// TotalSupply(h) = sum of all block subsidies from 0 to h
pub fn expected_totalsupply_from_orange_paper(height: u64) -> (total: i64)
    ensures
        total == total_supply(height),
{
    let mut total: i64 = 0;
    let mut h: u64 = 0;
    loop
        invariant
            h <= height,
            total == (if h == 0 {
                0
            } else {
                total_supply((h - 1) as u64)
            }),
        decreases height - h,
    {
        proof {
            lemma_total_supply_bounds(h);
            lemma_subsidy_bounds(h);
        }
        let halving_period = h / H;
        let initial_subsidy = 50 * C;
        if halving_period < 64 {
            total = total + (initial_subsidy >> halving_period) as i64;
        }
        if h == height {
            return total;
        }
        h = h + 1;
    }
}

/// GetBlockSubsidy(h) = 50 × C × 2^(-⌊h/H⌋)
pub fn expected_getblocksubsidy_from_orange_paper(height: u64) -> (subsidy: i64)
    ensures
        subsidy == block_subsidy(height),
{
    let halving_period = height / H;
    let initial_subsidy = 50 * C;
    proof {
        lemma_shift_bounds(halving_period);
    }
    if halving_period >= 64 {
        0
    } else {
        (initial_subsidy >> halving_period) as i64
    }
}

/// BlockReward(h) = GetBlockSubsidy(h) + Fees(block)
pub fn expected_blockreward_from_orange_paper(height: u64, fees: i64) -> (reward: i64)
    requires
        i64::MIN <= block_subsidy(height) + fees <= i64::MAX,
    ensures
        reward == block_subsidy(height) + fees,
{
    expected_getblocksubsidy_from_orange_paper(height) + fees
}

/// HalvingEpoch(h) = ⌊h/H⌋
pub fn expected_halvingepoch_from_orange_paper(height: u64) -> (epoch: u64)
    ensures
        epoch == height / H,
{
    height / H
}

/// RemainingSupply(h) = M_MAX - TotalSupply(h)
pub fn expected_remainingsupply_from_orange_paper(height: u64) -> (remaining: i64)
    ensures
        remaining == M_MAX - total_supply(height),
{
    proof {
        lemma_total_supply_bounds(height);
    }
    M_MAX - expected_totalsupply_from_orange_paper(height)
}

/// Work(target) = 2^256 / (target + 1), simplified to `u128::MAX / (target + 1)`.
pub fn expected_workfromtarget_from_orange_paper(target: u64) -> (work: u128)
    ensures
        work == (if target > 0 {
            u128::MAX as int / (target + 1)
        } else {
            u128::MAX as int
        }),
{
    if target > 0 {
        let target_plus_one = (target as u128) + 1;
        u128::MAX / target_plus_one.max(1)
    } else {
        u128::MAX
    }
}

/// UTXOSetValue(utxo_set) = sum(utxo.value for utxo in utxo_set)
pub fn expected_utxosetvalue_from_orange_paper(utxo_values: &[i64]) -> (total: i64)
    requires
        partial_sums_fit(utxo_values@),
    ensures
        total == amounts_sum(utxo_values@),
{
    let n = utxo_values.len();
    let mut total: i64 = 0;
    let mut k: usize = 0;
    assert(utxo_values@.take(0) =~= Seq::<i64>::empty());
    while k < n
        invariant
            n == utxo_values@.len(),
            k <= n,
            partial_sums_fit(utxo_values@),
            total == amounts_sum(utxo_values@.take(k as int)),
        decreases n - k,
    {
        assert(utxo_values@.take(k + 1).drop_last() =~= utxo_values@.take(k as int));
        assert(i64::MIN <= amounts_sum(utxo_values@.take(k + 1)) <= i64::MAX);
        total = total + utxo_values[k];
        k = k + 1;
    }
    assert(utxo_values@.take(n as int) =~= utxo_values@);
    total
}

} // verus!
