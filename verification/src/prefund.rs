//! How much money a ramp needs: an estimate in integer math, fees included.

use vstd::prelude::*;
use crate::config::{Config, RampStep};
use crate::math::{saturated128, saturating_product};
use crate::worker::run::launched_over;
use crate::worker::schedule::law_step_launches;
use crate::worker::validate::{validate_fee_nonzero, ZeroFee};

verus! {

/// The buffer on top of what is needed, in percent.
pub const BUFFER_PERCENT: u64 = 20;

/// The payments of the full seconds of the steps: `sum(tps * (hold_ms / 1000))`.
pub open spec fn planned_tx(steps: Seq<RampStep>) -> nat
    decreases steps.len(),
{
    if steps.len() == 0 {
        0
    } else {
        planned_tx(steps.drop_last()) + steps.last().tps as nat * (steps.last().hold_ms as nat
            / 1000)
    }
}

/// How many payments the full seconds of a ramp hold, held at the largest `u128`.
pub fn total_tx_count(cfg: &Config) -> (n: u128)
    ensures
        n == saturated128(planned_tx(cfg.ramp.steps@) as int),
{
    let steps: &Vec<RampStep> = &cfg.ramp.steps;
    let mut total: u128 = 0;
    let mut i: usize = 0;
    assert(steps@.take(0) =~= Seq::empty());
    while i < steps.len()
        invariant
            i <= steps@.len(),
            total == saturated128(planned_tx(steps@.take(i as int)) as int),
        decreases steps@.len() - i,
    {
        let step: RampStep = steps[i];
        let seconds: u128 = (step.hold_ms / 1000) as u128;
        let step_tx: u128 = saturating_product(step.tps as u128, seconds);
        proof {
            assert(steps@.take(i + 1).drop_last() =~= steps@.take(i as int));
            assert(step.tps * (step.hold_ms / 1000) <= u64::MAX * u64::MAX) by (nonlinear_arith)
                requires
                    0 <= step.tps <= u64::MAX,
                    0 <= step.hold_ms / 1000 <= u64::MAX,
            ;
        }
        total = total.saturating_add(step_tx);
        i = i + 1;
    }
    assert(steps@.take(steps@.len() as int) =~= steps@);
    total
}

/// What a ramp costs.
#[derive(Debug, Clone, Copy, PartialEq, Eq, Structural)]
pub struct PrefundEstimate {
    pub total_tx_count: u128,
    pub amount_atomic: u128,
    pub fee_atomic: u128,
    pub required_fees_total_atomic: u128,
    pub required_total_atomic: u128,
    pub recommended_prefund_atomic: u128,
    pub buffer_percent: u64,
}

/// What `count` payments cost. Every product and sum is held at the largest `u128`.
pub open spec fn estimate_of(count: u128, amount: u128, fee: u128) -> PrefundEstimate {
    let required = saturated128(count * saturated128(amount + fee));
    PrefundEstimate {
        total_tx_count: count,
        amount_atomic: amount,
        fee_atomic: fee,
        required_fees_total_atomic: saturated128(count * fee),
        required_total_atomic: required,
        recommended_prefund_atomic: (saturated128(required * 120) / 100) as u128,
        buffer_percent: BUFFER_PERCENT,
    }
}

/// What the payments of a ramp cost. Fees are mandatory.
pub fn estimate(cfg: &Config) -> (r: Result<PrefundEstimate, ZeroFee>)
    ensures
        r == (if cfg.payment.fee_atomic == 0 {
            Err::<PrefundEstimate, ZeroFee>(ZeroFee)
        } else {
            Ok::<PrefundEstimate, ZeroFee>(
                estimate_of(
                    saturated128(planned_tx(cfg.ramp.steps@) as int),
                    cfg.payment.amount_atomic,
                    cfg.payment.fee_atomic,
                ),
            )
        }),
{
    let amount: u128 = cfg.payment.amount_atomic;
    let fee: u128 = cfg.payment.fee_atomic;
    match validate_fee_nonzero(fee) {
        Err(e) => {
            return Err(e);
        },
        Ok(_) => {},
    }
    let total_tx: u128 = total_tx_count(cfg);
    let per_tx_total: u128 = amount.saturating_add(fee);
    let required_total: u128 = saturating_product(total_tx, per_tx_total);
    let required_fees_total: u128 = saturating_product(total_tx, fee);
    // +20% buffer, integer-only.
    let recommended_prefund: u128 = saturating_product(required_total, 120) / 100;
    Ok(
        PrefundEstimate {
            total_tx_count: total_tx,
            amount_atomic: amount,
            fee_atomic: fee,
            required_fees_total_atomic: required_fees_total,
            required_total_atomic: required_total,
            recommended_prefund_atomic: recommended_prefund,
            buffer_percent: BUFFER_PERCENT,
        },
    )
}

/// While nothing saturates, the total is the amounts and the fees of all payments, and
/// the recommendation is a fifth more than the total, rounded down.
pub proof fn law_estimate_adds_up(count: u128, amount: u128, fee: u128)
    requires
        amount + fee <= u128::MAX,
        count * (amount + fee) * 120 <= u128::MAX,
    ensures
        ({
            let e = estimate_of(count, amount, fee);
            &&& e.required_total_atomic == count * amount + e.required_fees_total_atomic
            &&& e.required_fees_total_atomic == count * fee
            &&& e.recommended_prefund_atomic == e.required_total_atomic + e.required_total_atomic
                as int * BUFFER_PERCENT / 100
            &&& e.recommended_prefund_atomic >= e.required_total_atomic
        }),
{
    assert(count * (amount + fee) == count * amount + count * fee) by (nonlinear_arith);
    assert(0 <= count * amount) by (nonlinear_arith)
        requires
            0 <= count,
            0 <= amount,
    ;
    assert(0 <= count * fee) by (nonlinear_arith)
        requires
            0 <= count,
            0 <= fee,
    ;
}

/// The estimate counts the payments that the worker launches in full seconds: all of
/// them where every step is held for whole seconds, and never more.
pub proof fn law_estimate_counts_launches(steps: Seq<RampStep>)
    ensures
        planned_tx(steps) <= launched_over(steps),
        (forall|i: int| 0 <= i < steps.len() ==> (#[trigger] steps[i]).hold_ms % 1000 == 0)
            ==> planned_tx(steps) == launched_over(steps),
    decreases steps.len(),
{
    if steps.len() > 0 {
        law_estimate_counts_launches(steps.drop_last());
        let s = steps.last();
        law_step_launches(s.tps, s.hold_ms);
        let rest = s.hold_ms as nat % 1000;
        assert(0 <= s.tps * rest) by (nonlinear_arith)
            requires
                0 <= s.tps,
                0 <= rest,
        ;
        assert(rest == 0 ==> s.tps * rest == 0) by (nonlinear_arith);
        if forall|i: int| 0 <= i < steps.len() ==> (#[trigger] steps[i]).hold_ms % 1000 == 0 {
            assert(steps[steps.len() - 1].hold_ms % 1000 == 0);
            assert forall|i: int| 0 <= i < steps.drop_last().len() implies (
            #[trigger] steps.drop_last()[i]).hold_ms % 1000 == 0 by {
                assert(steps[i].hold_ms % 1000 == 0);
            }
        }
    }
}

/// The estimate counts the payments of the whole seconds of each step, `tps` for each.
pub proof fn law_whole_seconds_are_counted(steps: Seq<RampStep>, s: RampStep, seconds: nat)
    requires
        seconds * 1000 <= s.hold_ms < (seconds + 1) * 1000,
    ensures
        planned_tx(Seq::<RampStep>::empty()) == 0,
        planned_tx(steps.push(s)) == planned_tx(steps) + s.tps * seconds,
{
    assert(steps.push(s).drop_last() =~= steps);
    assert(s.hold_ms as nat / 1000 == seconds);
}

/// Where a product or a sum is too large it is held at the largest number, and never comes
/// out smaller than it is.
pub proof fn law_estimate_never_wraps(count: u128, amount: u128, fee: u128)
    ensures
        ({
            let e = estimate_of(count, amount, fee);
            &&& e.total_tx_count == count
            &&& e.amount_atomic == amount
            &&& e.fee_atomic == fee
            &&& e.buffer_percent == 20
            &&& count * fee >= u128::MAX ==> e.required_fees_total_atomic == u128::MAX
            &&& count * fee <= u128::MAX ==> e.required_fees_total_atomic == count * fee
            &&& amount + fee <= u128::MAX && count * (amount + fee) <= u128::MAX
                ==> e.required_total_atomic == count * (amount + fee)
            &&& count == 0 ==> e.required_total_atomic == 0
            &&& count > 0 && count * (amount + fee) >= u128::MAX ==> e.required_total_atomic
                == u128::MAX
            &&& e.required_total_atomic * 120 <= u128::MAX ==> e.recommended_prefund_atomic
                == e.required_total_atomic * 120 / 100
            &&& e.required_total_atomic * 120 >= u128::MAX ==> e.recommended_prefund_atomic
                == u128::MAX / 100
        }),
{
    assert(0 <= count * fee) by (nonlinear_arith)
        requires
            0 <= count,
            0 <= fee,
    ;
    assert(0 <= count * (amount + fee)) by (nonlinear_arith)
        requires
            0 <= count,
            0 <= amount + fee,
    ;
    if amount + fee > u128::MAX && count > 0 {
        assert(count * u128::MAX >= u128::MAX) by (nonlinear_arith)
            requires
                count >= 1,
        ;
    }
}

} // verus!
