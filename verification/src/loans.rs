use vstd::prelude::*;
use crate::state::{acct_key, auth_key, cur_key, CdpEngine};
use crate::table::Key;
use crate::types::{AccountId, Amount, Balance, CurrencyId, Error, Position, Ratio, SCALE};

verus! {

/// The stable value of `collateral` at `price`, scaled up by `SCALE`.
pub open spec fn collateral_scaled_value(collateral: Balance, price: Ratio) -> int {
    collateral * price.parts
}

/// The stable value of `debit` debit units at exchange rate `rate`, scaled
/// up by `SCALE`.
pub open spec fn debit_scaled_value(debit: Balance, rate: Ratio) -> int {
    debit * rate.parts
}

/// The collateral ratio check: collateral value over debt value is at least
/// `req`, written without division.
pub open spec fn ratio_ok(
    collateral: Balance,
    debit: Balance,
    price: Ratio,
    rate: Ratio,
    req: Ratio,
) -> bool {
    collateral_scaled_value(collateral, price) * SCALE
        >= debit_scaled_value(debit, rate) * req.parts
}

/// The debit ceiling check: the stable value of `total_debit` debit units
/// does not exceed `ceiling`.
pub open spec fn ceiling_ok(total_debit: int, rate: Ratio, ceiling: Balance) -> bool {
    total_debit * rate.parts <= ceiling * SCALE
}

/// The stablecoin minted (positive) or burned (negative) by a debit
/// adjustment of `dd` units at exchange rate `rate`, rounded toward zero.
pub open spec fn stable_delta(dd: int, rate: Ratio) -> int {
    if dd >= 0 {
        (dd * rate.parts) / (SCALE as int)
    } else {
        -(((-dd) * rate.parts) / (SCALE as int))
    }
}

/// Whether the collateral ratio rule admits a position of `nc` collateral
/// and `nd` debit units for collateral type `c`. With no required ratio set
/// every position is admitted; with one set, the ratio is compared at the
/// oracle price.
pub open spec fn ratio_check_passes(s: CdpEngine, c: CurrencyId, nc: Balance, nd: Balance) -> bool {
    match s.risk_of(c).required_collateral_ratio {
        None => true,
        Some(req) => match s.price_of(c) {
            None => false,
            Some(p) => ratio_ok(nc, nd, p, s.rate_of(c), req),
        },
    }
}

/// The first reason `adjust_loan(who, c, cd, dd)` fails on state `s`, if any.
/// The checks run in this order, and nothing is mutated before all pass.
pub open spec fn adjust_error(
    s: CdpEngine,
    who: AccountId,
    c: CurrencyId,
    cd: int,
    dd: int,
) -> Option<Error> {
    let pos = s.position_of(c, who);
    let rate = s.rate_of(c);
    let risk = s.risk_of(c);
    let nc = pos.collateral + cd;
    let nd = pos.debit + dd;
    let bal_col = s.balance_of(c, who);
    let bal_stable = s.balance_of(s.config.stable_currency, who);
    let total = s.total_debit_of(c);
    if nc < 0 {
        Some(Error::InsufficientBalance)
    } else if nc > u64::MAX {
        Some(Error::Overflow)
    } else if nd < 0 {
        Some(Error::Overflow)
    } else if nd > u64::MAX {
        Some(Error::Overflow)
    } else if cd > 0 && bal_col < cd {
        Some(Error::InsufficientBalance)
    } else if cd < 0 && bal_col - cd > u64::MAX {
        Some(Error::Overflow)
    } else if dd > 0 && total + dd > u64::MAX {
        Some(Error::Overflow)
    } else if dd < 0 && total + dd < 0 {
        Some(Error::Overflow)
    } else if dd > 0 && !ceiling_ok(total + dd, rate, risk.debit_ceiling) {
        Some(Error::ExceedsDebitCeiling)
    } else if nd != 0 && risk.required_collateral_ratio.is_some() && s.price_of(c).is_none() {
        Some(Error::PriceNotAvailable)
    } else if nd != 0 && !ratio_check_passes(s, c, nc as Balance, nd as Balance) {
        Some(Error::InsufficientCollateralRatio)
    } else if dd > 0 && stable_delta(dd, rate) > u64::MAX {
        Some(Error::Overflow)
    } else if dd > 0 && bal_stable + stable_delta(dd, rate) > u64::MAX {
        Some(Error::Overflow)
    } else if dd < 0 && bal_stable + stable_delta(dd, rate) < 0 {
        Some(Error::InsufficientBalance)
    } else {
        None
    }
}

/// How a successful `adjust_loan` leaves the engine.
pub open spec fn adjust_ok_post(
    s0: CdpEngine,
    s1: CdpEngine,
    who: AccountId,
    c: CurrencyId,
    cd: int,
    dd: int,
) -> bool {
    let pos = s0.position_of(c, who);
    let rate = s0.rate_of(c);
    let stable = s0.config.stable_currency;
    let nc = (pos.collateral + cd) as Balance;
    let nd = (pos.debit + dd) as Balance;
    let nb_col = (s0.balance_of(c, who) - cd) as Balance;
    let nb_stable = (s0.balance_of(stable, who) + stable_delta(dd, rate)) as Balance;
    let ntotal = (s0.total_debit_of(c) + dd) as Balance;
    &&& s1.position_map() == (if nc == 0 && nd == 0 {
            s0.position_map().remove(acct_key(c, who))
        } else {
            s0.position_map().insert(acct_key(c, who), Position { collateral: nc, debit: nd })
        })
    &&& s1.balance_map() == s0.balance_map()
            .insert(acct_key(c, who), nb_col)
            .insert(acct_key(stable, who), nb_stable)
    &&& s1.total_map() == s0.total_map().insert(cur_key(c), ntotal)
    &&& s1.auth_map() == s0.auth_map()
    &&& s1.risk_map() == s0.risk_map()
    &&& s1.rate_map() == s0.rate_map()
    &&& s1.price_map() == s0.price_map()
    &&& s1.pool_map() == s0.pool_map()
    &&& s1.config == s0.config
}

/// The first reason `transfer_loan_from(who, c, from)` fails on `s`, if any.
pub open spec fn transfer_error(
    s: CdpEngine,
    who: AccountId,
    c: CurrencyId,
    from: AccountId,
) -> Option<Error> {
    let native = s.config.native_currency;
    if s.auth_of(c, from, who).is_none() {
        Some(Error::AuthorizationNotFound)
    } else if !s.position_of(c, who).is_zero() && who != from {
        Some(Error::PositionAlreadyExists)
    } else if s.balance_of(native, from) + s.auth_map()[auth_key(c, from, who)] > u64::MAX {
        Some(Error::Overflow)
    } else {
        None
    }
}

/// How a successful `transfer_loan_from` leaves the engine: the whole
/// position moves from `from` to `who`, the authorization is consumed, and
/// its deposit is released back to `from`.
pub open spec fn transfer_ok_post(
    s0: CdpEngine,
    s1: CdpEngine,
    who: AccountId,
    c: CurrencyId,
    from: AccountId,
) -> bool {
    let native = s0.config.native_currency;
    let dep = s0.auth_map()[auth_key(c, from, who)];
    let pos = s0.position_of(c, from);
    &&& s1.position_map() == (if pos.is_zero() || who == from {
            s0.position_map()
        } else {
            s0.position_map().remove(acct_key(c, from)).insert(acct_key(c, who), pos)
        })
    &&& s1.auth_map() == s0.auth_map().remove(auth_key(c, from, who))
    &&& s1.balance_map() == s0.balance_map().insert(
            acct_key(native, from),
            (s0.balance_of(native, from) + dep) as Balance,
        )
    &&& s1.risk_map() == s0.risk_map()
    &&& s1.rate_map() == s0.rate_map()
    &&& s1.price_map() == s0.price_map()
    &&& s1.pool_map() == s0.pool_map()
    &&& s1.total_map() == s0.total_map()
    &&& s1.config == s0.config
}

/// The full contract of `transfer_loan_from`: what holds of the states
/// before and after the call for each possible result.
pub open spec fn transfer_contract(
    s0: CdpEngine,
    s1: CdpEngine,
    who: AccountId,
    c: CurrencyId,
    from: AccountId,
    r: Result<(), Error>,
) -> bool {
    match r {
        Ok(()) => {
            &&& transfer_error(s0, who, c, from).is_none()
            &&& transfer_ok_post(s0, s1, who, c, from)
        },
        Err(e) => {
            &&& s1 == s0
            &&& transfer_error(s0, who, c, from) == Some(e)
        },
    }
}

proof fn lemma_mul_bound(a: int, b: int, a2: int, b2: int)
    requires
        0 <= a <= a2,
        0 <= b <= b2,
    ensures
        a * b <= a2 * b2,
{
    assert(a * b <= a2 * b2) by (nonlinear_arith)
        requires
            0 <= a <= a2,
            0 <= b <= b2,
    {}
}

impl CdpEngine {
    /// Adjust the caller's position for collateral type `c` by a signed
    /// collateral delta and a signed debit delta (in debit units).
    ///
    /// Collateral moves between the caller's free balance and the position;
    /// a debit increase mints stablecoin to the caller and a decrease burns
    /// it, both converted through the debit exchange rate. The call fails —
    /// and changes nothing — unless the resulting position clears the
    /// collateral-ratio rule and the per-type debit ceiling.
    pub fn adjust_loan(
        &mut self,
        who: AccountId,
        c: CurrencyId,
        collateral_adjustment: Amount,
        debit_adjustment: Amount,
    ) -> (r: Result<(), Error>)
        requires
            old(self).wf(),
            c != old(self).config.stable_currency,
            c != old(self).config.native_currency,
        ensures
            final(self).wf(),
            match r {
                Ok(()) => {
                    &&& adjust_error(
                            *old(self), who, c,
                            collateral_adjustment as int, debit_adjustment as int,
                        ).is_none()
                    &&& adjust_ok_post(
                            *old(self), *final(self), who, c,
                            collateral_adjustment as int, debit_adjustment as int,
                        )
                },
                Err(e) => {
                    &&& *final(self) == *old(self)
                    &&& adjust_error(
                            *old(self), who, c,
                            collateral_adjustment as int, debit_adjustment as int,
                        ) == Some(e)
                },
            },
            r.is_ok() && old(self).position_of(c, who).debit + debit_adjustment != 0
                ==> ratio_check_passes(
                    *old(self), c,
                    (old(self).position_of(c, who).collateral + collateral_adjustment) as Balance,
                    (old(self).position_of(c, who).debit + debit_adjustment) as Balance,
                ),
    {
        let cd = collateral_adjustment;
        let dd = debit_adjustment;
        let pos = self.get_position(c, who);
        let rate = self.get_debit_exchange_rate(c);
        let risk = self.get_risk_params(c);

        // Resulting collateral.
        if cd > u64::MAX as i128 {
            return Err(Error::Overflow);
        }
        let nc_i: i128 = pos.collateral as i128 + cd;
        if nc_i < 0 {
            return Err(Error::InsufficientBalance);
        }
        if nc_i > u64::MAX as i128 {
            return Err(Error::Overflow);
        }
        let nc: u64 = nc_i as u64;

        // Resulting debit units.
        if dd > u64::MAX as i128 {
            return Err(Error::Overflow);
        }
        let nd_i: i128 = pos.debit as i128 + dd;
        if nd_i < 0 {
            return Err(Error::Overflow);
        }
        if nd_i > u64::MAX as i128 {
            return Err(Error::Overflow);
        }
        let nd: u64 = nd_i as u64;

        // Collateral side of the caller's balance.
        let bal_col = self.get_balance(c, who);
        if cd > 0 && (bal_col as i128) < cd {
            return Err(Error::InsufficientBalance);
        }
        let nb_col_i: i128 = bal_col as i128 - cd;
        if nb_col_i > u64::MAX as i128 {
            return Err(Error::Overflow);
        }
        let nb_col: u64 = nb_col_i as u64;

        // Debit total and ceiling.
        let total = self.get_total_debit(c);
        let ntotal_i: i128 = total as i128 + dd;
        if dd > 0 && ntotal_i > u64::MAX as i128 {
            return Err(Error::Overflow);
        }
        if dd < 0 && ntotal_i < 0 {
            return Err(Error::Overflow);
        }
        let ntotal: u64 = ntotal_i as u64;
        if dd > 0 {
            proof {
                lemma_mul_bound(ntotal as int, rate.parts as int,
                    u64::MAX as int, u32::MAX as int);
                lemma_mul_bound(risk.debit_ceiling as int, SCALE as int,
                    u64::MAX as int, SCALE as int);
            }
            let issued: u128 = (ntotal as u128) * (rate.parts as u128);
            let cap: u128 = (risk.debit_ceiling as u128) * (SCALE as u128);
            if issued > cap {
                return Err(Error::ExceedsDebitCeiling);
            }
        }

        // Collateral ratio rule.
        if nd != 0 {
            if let Some(req) = risk.required_collateral_ratio {
                let price = match self.get_price(c) {
                    Some(p) => p,
                    None => {
                        return Err(Error::PriceNotAvailable);
                    },
                };
                proof {
                    lemma_mul_bound(nc as int, price.parts as int,
                        u64::MAX as int, u32::MAX as int);
                    lemma_mul_bound(nd as int, rate.parts as int,
                        u64::MAX as int, u32::MAX as int);
                    lemma_mul_bound((nc as int) * (price.parts as int), SCALE as int,
                        (u64::MAX as int) * (u32::MAX as int), SCALE as int);
                    lemma_mul_bound((nd as int) * (rate.parts as int), req.parts as int,
                        (u64::MAX as int) * (u32::MAX as int), u32::MAX as int);
                }
                let cv: u128 = (nc as u128) * (price.parts as u128);
                let dv: u128 = (nd as u128) * (rate.parts as u128);
                if cv * (SCALE as u128) < dv * (req.parts as u128) {
                    return Err(Error::InsufficientCollateralRatio);
                }
            }
        }

        // Stablecoin side of the caller's balance.
        let stable = self.config.stable_currency;
        let bal_stable = self.get_balance(stable, who);
        let nb_stable: u64;
        if dd > 0 {
            proof {
                lemma_mul_bound(dd as int, rate.parts as int,
                    u64::MAX as int, u32::MAX as int);
            }
            let minted: u128 = (dd as u128) * (rate.parts as u128) / (SCALE as u128);
            if minted > u64::MAX as u128 {
                return Err(Error::Overflow);
            }
            if (bal_stable as u128) + minted > u64::MAX as u128 {
                return Err(Error::Overflow);
            }
            nb_stable = bal_stable + (minted as u64);
        } else if dd < 0 {
            proof {
                lemma_mul_bound((-dd) as int, rate.parts as int,
                    u64::MAX as int, u32::MAX as int);
            }
            let burned: u128 = ((-dd) as u128) * (rate.parts as u128) / (SCALE as u128);
            if (bal_stable as u128) < burned {
                return Err(Error::InsufficientBalance);
            }
            nb_stable = bal_stable - (burned as u64);
        } else {
            nb_stable = bal_stable;
        }

        // All checks passed: apply the adjustment.
        self.balances.insert(Key { c: c, a: who, b: 0 }, nb_col);
        self.balances.insert(Key { c: stable, a: who, b: 0 }, nb_stable);
        if nc == 0 && nd == 0 {
            self.positions.remove(Key { c: c, a: who, b: 0 });
        } else {
            self.positions.insert(Key { c: c, a: who, b: 0 }, Position { collateral: nc, debit: nd });
        }
        self.totals.insert(Key { c: c, a: 0, b: 0 }, ntotal);
        proof {
            assert forall|k2: Key| #[trigger] self.position_map().contains_key(k2)
                implies !self.position_map()[k2].is_zero() by {
                if k2 != acct_key(c, who) {
                    assert(old(self).position_map().contains_key(k2));
                }
            }
        }
        Ok(())
    }

    /// Take over the whole position `from` holds for collateral type `c`.
    /// The caller must hold an authorization granted by `from`; it is
    /// consumed by the transfer and its deposit released back to `from`.
    /// The caller's own position for `c` must be empty.
    pub fn transfer_loan_from(&mut self, who: AccountId, c: CurrencyId, from: AccountId)
        -> (r: Result<(), Error>)
        requires
            old(self).wf(),
        ensures
            final(self).wf(),
            transfer_contract(*old(self), *final(self), who, c, from, r),
    {
        let native = self.config.native_currency;
        let k = Key { c: c, a: from, b: who };
        let dep = match self.auths.get(k) {
            Some(d) => *d,
            None => {
                return Err(Error::AuthorizationNotFound);
            },
        };
        let mine = self.get_position(c, who);
        if (mine.collateral != 0 || mine.debit != 0) && who != from {
            return Err(Error::PositionAlreadyExists);
        }
        let bal = self.get_balance(native, from);
        if (bal as u128) + (dep as u128) > u64::MAX as u128 {
            return Err(Error::Overflow);
        }
        let pos = self.get_position(c, from);
        if !(pos.collateral == 0 && pos.debit == 0) && who != from {
            self.positions.remove(Key { c: c, a: from, b: 0 });
            self.positions.insert(Key { c: c, a: who, b: 0 }, pos);
        }
        self.auths.remove(k);
        self.balances.insert(Key { c: native, a: from, b: 0 }, bal + dep);
        proof {
            assert forall|k2: Key| #[trigger] self.auth_map().contains_key(k2)
                implies self.auth_map()[k2] == old(self).config.deposit_per_authorization by {
                assert(old(self).auth_map().contains_key(k2));
            }
            assert forall|k2: Key| #[trigger] self.position_map().contains_key(k2)
                implies !self.position_map()[k2].is_zero() by {
                if k2 != acct_key(c, who) {
                    assert(old(self).position_map().contains_key(k2));
                }
            }
        }
        Ok(())
    }
}

} // verus!
