use vstd::prelude::*;
use crate::state::{cur_key, CdpEngine};
use crate::table::Key;
use crate::types::{apply_change, Balance, Change, CurrencyId, Error, Origin, Ratio, RiskParams};

verus! {

/// The parameters left after the five directives are applied to `cur`.
pub open spec fn updated_params(
    cur: RiskParams,
    interest_rate_per_period: Change<Option<Ratio>>,
    liquidation_ratio: Change<Option<Ratio>>,
    liquidation_penalty: Change<Option<Ratio>>,
    required_collateral_ratio: Change<Option<Ratio>>,
    debit_ceiling: Change<Balance>,
) -> RiskParams {
    RiskParams {
        interest_rate_per_period: apply_change(interest_rate_per_period, cur.interest_rate_per_period),
        liquidation_ratio: apply_change(liquidation_ratio, cur.liquidation_ratio),
        liquidation_penalty: apply_change(liquidation_penalty, cur.liquidation_penalty),
        required_collateral_ratio: apply_change(
            required_collateral_ratio,
            cur.required_collateral_ratio,
        ),
        debit_ceiling: apply_change(debit_ceiling, cur.debit_ceiling),
    }
}

impl CdpEngine {
    /// Overwrite any of the risk parameters of collateral type `c`. Only the
    /// privileged authority may do this; all five directives apply together,
    /// and a `NoChange` directive leaves its field exactly as it was.
    pub fn set_collateral_params(
        &mut self,
        origin: Origin,
        c: CurrencyId,
        interest_rate_per_period: Change<Option<Ratio>>,
        liquidation_ratio: Change<Option<Ratio>>,
        liquidation_penalty: Change<Option<Ratio>>,
        required_collateral_ratio: Change<Option<Ratio>>,
        debit_ceiling: Change<Balance>,
    ) -> (r: Result<(), Error>)
        requires
            old(self).wf(),
        ensures
            final(self).wf(),
            match r {
                Ok(()) => {
                    &&& origin == Origin::Root
                    &&& final(self).risk_map() == old(self).risk_map().insert(
                            cur_key(c),
                            updated_params(
                                old(self).risk_of(c),
                                interest_rate_per_period,
                                liquidation_ratio,
                                liquidation_penalty,
                                required_collateral_ratio,
                                debit_ceiling,
                            ),
                        )
                    &&& final(self).balance_map() == old(self).balance_map()
                    &&& final(self).position_map() == old(self).position_map()
                    &&& final(self).auth_map() == old(self).auth_map()
                    &&& final(self).rate_map() == old(self).rate_map()
                    &&& final(self).price_map() == old(self).price_map()
                    &&& final(self).pool_map() == old(self).pool_map()
                    &&& final(self).total_map() == old(self).total_map()
                    &&& final(self).config == old(self).config
                },
                Err(e) => {
                    &&& e == Error::NotAuthorized
                    &&& origin != Origin::Root
                    &&& *final(self) == *old(self)
                },
            },
    {
        match origin {
            Origin::Root => {},
            Origin::Signed(_) => {
                return Err(Error::NotAuthorized);
            },
        }
        let cur = self.get_risk_params(c);
        let updated = RiskParams {
            interest_rate_per_period: match interest_rate_per_period {
                Change::NoChange => cur.interest_rate_per_period,
                Change::NewValue(v) => v,
            },
            liquidation_ratio: match liquidation_ratio {
                Change::NoChange => cur.liquidation_ratio,
                Change::NewValue(v) => v,
            },
            liquidation_penalty: match liquidation_penalty {
                Change::NoChange => cur.liquidation_penalty,
                Change::NewValue(v) => v,
            },
            required_collateral_ratio: match required_collateral_ratio {
                Change::NoChange => cur.required_collateral_ratio,
                Change::NewValue(v) => v,
            },
            debit_ceiling: match debit_ceiling {
                Change::NoChange => cur.debit_ceiling,
                Change::NewValue(v) => v,
            },
        };
        self.risks.insert(Key { c: c, a: 0, b: 0 }, updated);
        Ok(())
    }
}

} // verus!
