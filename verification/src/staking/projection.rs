//! Projected future-earnings estimates.
//!
//! Projections reuse the exact same compounding math as realized yield, so a
//! forecast is consistent with what will actually accrue if the rate holds.

use crate::staking::apy::{apr_to_apy_spec, lemma_apy_is_one_year_yield, APYCalculator};
use crate::staking::compounding::{
    lemma_growth_at_least_one, yield_spec, Compounding, YieldCalculator,
};
use crate::staking::fixed_point::{MathError, SCALE, SECONDS_PER_YEAR};
use crate::staking::records::{mode_strategy, CompoundingMode, YieldProjection};
use vstd::prelude::*;

verus! {

/// Builds [`YieldProjection`]s for staked positions.
pub struct YieldProjector;

/// The projection of `principal` at `apr` under `mode` over the horizon: the
/// projected yield, the balance `principal + yield`, and the effective APY.
pub open spec fn projection_spec(
    principal: i128,
    apr: i128,
    mode: CompoundingMode,
    horizon_seconds: u64,
) -> Result<YieldProjection, MathError> {
    match yield_spec(mode_strategy(mode), principal, apr, horizon_seconds) {
        Err(e) => Err(e),
        Ok(y) => if principal + y > i128::MAX || principal + y < i128::MIN {
            Err(MathError::Overflow)
        } else {
            match apr_to_apy_spec(apr, mode_strategy(mode)) {
                Err(e) => Err(e),
                Ok(apy) => Ok(
                    YieldProjection {
                        principal,
                        apr,
                        mode,
                        horizon_seconds,
                        projected_yield: y,
                        projected_balance: (principal + y) as i128,
                        effective_apy: apy,
                    },
                ),
            }
        },
    }
}

impl YieldProjector {
    /// Project earnings for `principal` at `apr` under `mode` over
    /// `horizon_seconds`, including the effective APY implied by the rate.
    pub fn project(principal: i128, apr: i128, mode: CompoundingMode, horizon_seconds: u64) -> (r:
        Result<YieldProjection, MathError>)
        ensures
            r == projection_spec(principal, apr, mode, horizon_seconds),
            r matches Ok(p) ==> p.projected_balance == p.principal + p.projected_yield,
    {
        let strategy: Compounding = mode.to_strategy();
        let calc = YieldCalculator::new(strategy);

        let projected_yield = calc.compute_yield(principal, apr, horizon_seconds)?;
        let projected_balance = principal.checked_add(projected_yield).ok_or(MathError::Overflow)?;
        let effective_apy = APYCalculator::apr_to_apy(apr, strategy)?;

        Ok(
            YieldProjection {
                principal,
                apr,
                mode,
                horizon_seconds,
                projected_yield,
                projected_balance,
                effective_apy,
            },
        )
    }
}


/// A projection's effective APY is the APY that [`APYCalculator::apr_to_apy`]
/// gives for the rate under the mode's compounding, and it is the yield that
/// one whole unit earns over one year at the same rate and mode (whenever it is
/// above `i128::MIN`, so always at a non-negative rate), which is also the
/// projected yield of one whole unit over one year; a non-negative rate never
/// gives a negative APY.
pub proof fn lemma_projection_apy_is_unit_year_yield(
    principal: i128,
    apr: i128,
    mode: CompoundingMode,
    horizon_seconds: u64,
    p: YieldProjection,
)
    requires
        projection_spec(principal, apr, mode, horizon_seconds) == Ok::<YieldProjection, MathError>(p),
    ensures
        apr_to_apy_spec(apr, mode_strategy(mode)) == Ok::<i128, MathError>(p.effective_apy),
        p.effective_apy > i128::MIN ==> yield_spec(
            mode_strategy(mode),
            SCALE,
            apr,
            SECONDS_PER_YEAR,
        ) == Ok::<i128, MathError>(p.effective_apy),
        p.effective_apy > i128::MIN ==> (projection_spec(SCALE, apr, mode, SECONDS_PER_YEAR) matches Ok(
            q,
        ) ==> q.projected_yield == p.effective_apy),
        apr >= 0 ==> p.effective_apy >= 0,
{
    lemma_apy_is_one_year_yield(apr, mode_strategy(mode));
    if apr >= 0 {
        lemma_growth_at_least_one(mode_strategy(mode), apr, SECONDS_PER_YEAR);
    }
}

} // verus!
