use vstd::prelude::*;
use vstd::map::*;
use vstd::assert_sets_equal;
use crate::state::{acct_key, auth_key, CdpEngine};
use crate::table::Key;
use crate::types::{AccountId, Balance, CurrencyId, Error};

verus! {

/// The keys of every authorization `who` has granted, over all collateral
/// types and delegates.
pub open spec fn owner_auth_keys(m: Map<Key, Balance>, who: AccountId) -> Set<Key> {
    m.dom().filter(|k: Key| k.a == who)
}

/// How a successful fresh `authorize` leaves the engine: the grant is
/// recorded, the deposit moves out of the granter's free native balance,
/// and nothing else changes.
pub open spec fn authorize_fresh_post(
    s0: CdpEngine,
    s1: CdpEngine,
    who: AccountId,
    c: CurrencyId,
    to: AccountId,
) -> bool {
    let native = s0.config.native_currency;
    let dep = s0.config.deposit_per_authorization;
    &&& s1.auth_map() == s0.auth_map().insert(auth_key(c, who, to), dep)
    &&& s1.balance_map() == s0.balance_map().insert(
            acct_key(native, who),
            (s0.balance_of(native, who) - dep) as Balance,
        )
    &&& s1.position_map() == s0.position_map()
    &&& s1.risk_map() == s0.risk_map()
    &&& s1.rate_map() == s0.rate_map()
    &&& s1.price_map() == s0.price_map()
    &&& s1.pool_map() == s0.pool_map()
    &&& s1.total_map() == s0.total_map()
    &&& s1.config == s0.config
}

/// How a successful `unauthorize` leaves the engine: the grant is gone and
/// its deposit is back in the granter's free native balance.
pub open spec fn unauthorize_post(
    s0: CdpEngine,
    s1: CdpEngine,
    who: AccountId,
    c: CurrencyId,
    to: AccountId,
) -> bool {
    let native = s0.config.native_currency;
    let dep = s0.auth_map()[auth_key(c, who, to)];
    &&& s1.auth_map() == s0.auth_map().remove(auth_key(c, who, to))
    &&& s1.balance_map() == s0.balance_map().insert(
            acct_key(native, who),
            (s0.balance_of(native, who) + dep) as Balance,
        )
    &&& s1.position_map() == s0.position_map()
    &&& s1.risk_map() == s0.risk_map()
    &&& s1.rate_map() == s0.rate_map()
    &&& s1.price_map() == s0.price_map()
    &&& s1.pool_map() == s0.pool_map()
    &&& s1.total_map() == s0.total_map()
    &&& s1.config == s0.config
}

/// The full contract of `unauthorize_all`: what holds of the states before
/// and after the call for each possible result.
pub open spec fn unauthorize_all_contract(
    s0: CdpEngine,
    s1: CdpEngine,
    who: AccountId,
    r: Result<(), Error>,
) -> bool {
    let native = s0.config.native_currency;
    let dep = s0.config.deposit_per_authorization;
    let granted = owner_auth_keys(s0.auth_map(), who);
    match r {
        Ok(()) => {
            &&& s0.balance_of(native, who) + dep * granted.len() <= u64::MAX
            &&& s1.auth_map() == s0.auth_map().remove_keys(granted)
            &&& s1.position_map() == s0.position_map()
            &&& s1.risk_map() == s0.risk_map()
            &&& s1.rate_map() == s0.rate_map()
            &&& s1.price_map() == s0.price_map()
            &&& s1.pool_map() == s0.pool_map()
            &&& s1.total_map() == s0.total_map()
            &&& s1.config == s0.config
            &&& if granted.len() == 0 {
                    s1 == s0
                } else {
                    s1.balance_map() == s0.balance_map().insert(
                        acct_key(native, who),
                        (s0.balance_of(native, who) + dep * granted.len()) as Balance,
                    )
                }
        },
        Err(e) => {
            &&& e == Error::Overflow
            &&& s1 == s0
            &&& s0.balance_of(native, who) + dep * granted.len() > u64::MAX
        },
    }
}

impl CdpEngine {
    /// Grant `to` the right to manage `who`'s position for collateral type
    /// `c`, reserving the configured deposit from `who`'s native balance.
    ///
    /// Re-granting an authorization that already exists succeeds and changes
    /// nothing: the existing deposit keeps backing the grant, so nothing is
    /// reserved twice.
    pub fn authorize(&mut self, who: AccountId, c: CurrencyId, to: AccountId)
        -> (r: Result<(), Error>)
        requires
            old(self).wf(),
        ensures
            final(self).wf(),
            match r {
                Ok(()) => if old(self).auth_of(c, who, to).is_some() {
                    *final(self) == *old(self)
                } else {
                    &&& old(self).balance_of(old(self).config.native_currency, who)
                            >= old(self).config.deposit_per_authorization
                    &&& authorize_fresh_post(*old(self), *final(self), who, c, to)
                },
                Err(e) => {
                    &&& e == Error::InsufficientBalance
                    &&& *final(self) == *old(self)
                    &&& old(self).auth_of(c, who, to).is_none()
                    &&& old(self).balance_of(old(self).config.native_currency, who)
                            < old(self).config.deposit_per_authorization
                },
            },
    {
        let native = self.config.native_currency;
        let dep = self.config.deposit_per_authorization;
        let k = Key { c: c, a: who, b: to };
        if self.auths.get(k).is_some() {
            return Ok(());
        }
        let bal = self.get_balance(native, who);
        if bal < dep {
            return Err(Error::InsufficientBalance);
        }
        self.balances.insert(Key { c: native, a: who, b: 0 }, bal - dep);
        self.auths.insert(k, dep);
        proof {
            assert forall|k2: Key| #[trigger] self.auth_map().contains_key(k2)
                implies self.auth_map()[k2] == dep by {
                if k2 != k {
                    assert(old(self).auth_map().contains_key(k2));
                }
            }
        }
        Ok(())
    }

    /// Withdraw the authorization `who` granted `to` for collateral type `c`,
    /// refunding the reserved deposit to `who`'s native balance.
    pub fn unauthorize(&mut self, who: AccountId, c: CurrencyId, to: AccountId)
        -> (r: Result<(), Error>)
        requires
            old(self).wf(),
        ensures
            final(self).wf(),
            match r {
                Ok(()) => {
                    &&& old(self).auth_of(c, who, to).is_some()
                    &&& old(self).balance_of(old(self).config.native_currency, who)
                            + old(self).auth_map()[auth_key(c, who, to)] <= u64::MAX
                    &&& unauthorize_post(*old(self), *final(self), who, c, to)
                },
                Err(e) => {
                    &&& *final(self) == *old(self)
                    &&& if old(self).auth_of(c, who, to).is_none() {
                            e == Error::AuthorizationNotFound
                        } else {
                            &&& e == Error::Overflow
                            &&& old(self).balance_of(old(self).config.native_currency, who)
                                    + old(self).auth_map()[auth_key(c, who, to)] > u64::MAX
                        }
                },
            },
    {
        let native = self.config.native_currency;
        let k = Key { c: c, a: who, b: to };
        let dep = match self.auths.get(k) {
            Some(d) => *d,
            None => {
                return Err(Error::AuthorizationNotFound);
            },
        };
        let bal = self.get_balance(native, who);
        if bal as u128 + dep as u128 > u64::MAX as u128 {
            return Err(Error::Overflow);
        }
        self.auths.remove(k);
        self.balances.insert(Key { c: native, a: who, b: 0 }, bal + dep);
        proof {
            assert forall|k2: Key| #[trigger] self.auth_map().contains_key(k2)
                implies self.auth_map()[k2] == old(self).config.deposit_per_authorization by {
                assert(old(self).auth_map().contains_key(k2));
            }
        }
        Ok(())
    }

    /// Withdraw every authorization `who` has granted, over all collateral
    /// types and delegates, refunding every reserved deposit. With nothing
    /// granted this succeeds and changes nothing.
    pub fn unauthorize_all(&mut self, who: AccountId) -> (r: Result<(), Error>)
        requires
            old(self).wf(),
        ensures
            final(self).wf(),
            unauthorize_all_contract(*old(self), *final(self), who, r),
    {
        let native = self.config.native_currency;
        let dep = self.config.deposit_per_authorization;
        let keys = self.auths.keys();
        let ghost m0 = self.auth_map();
        let ghost target = owner_auth_keys(m0, who);
        let n = keys.len();

        let mut count: usize = 0;
        let ghost mut processed: Set<Key> = Set::empty();
        let mut i: usize = 0;
        while i < n
            invariant
                n == keys@.len(),
                0 <= i <= n,
                count <= i,
                processed.finite(),
                count as int == processed.len(),
                forall|k: Key| #[trigger] processed.contains(k)
                    <==> (exists|j: int| 0 <= j < i && keys@[j] == k && k.a == who),
                forall|i2: int, j2: int| 0 <= i2 < j2 < keys@.len() ==> keys@[i2] != keys@[j2],
            decreases n - i,
        {
            if keys[i].a == who {
                proof {
                    let kk = keys@[i as int];
                    if processed.contains(kk) {
                        let j = choose|j: int| 0 <= j < i && keys@[j] == kk && kk.a == who;
                        assert(keys@[j] != keys@[i as int]);
                        assert(false);
                    }
                    vstd::set::axiom_set_insert_len(processed, kk);
                    processed = processed.insert(kk);
                }
                count = count + 1;
            }
            i = i + 1;
        }
        proof {
            assert_sets_equal!(processed, target, k => {
                if processed.contains(k) {
                    let j = choose|j: int| 0 <= j < n && keys@[j] == k && k.a == who;
                    assert(keys@.contains(k));
                }
                if target.contains(k) {
                    assert(m0.contains_key(k));
                    assert(keys@.contains(k));
                    let j = choose|j: int| 0 <= j < keys@.len() && keys@[j] == k;
                    assert(processed.contains(k));
                }
            });
        }

        let bal = self.get_balance(native, who);
        proof {
            assert((dep as u128) * (count as u128)
                <= (u64::MAX as u128) * (u64::MAX as u128)) by (nonlinear_arith)
                requires
                    dep <= u64::MAX,
                    count <= u64::MAX,
            {}
            assert((u64::MAX as u128) * (u64::MAX as u128) + (u64::MAX as u128) < u128::MAX);
        }
        let refund: u128 = (dep as u128) * (count as u128);
        if (bal as u128) + refund > u64::MAX as u128 {
            return Err(Error::Overflow);
        }
        if count == 0 {
            proof {
                target.lemma_len0_is_empty();
                assert_maps_equal!(m0.remove_keys(target), m0);
            }
            return Ok(());
        }

        let ghost mut removed: Set<Key> = Set::empty();
        let mut i2: usize = 0;
        while i2 < n
            invariant
                n == keys@.len(),
                0 <= i2 <= n,
                removed.finite(),
                forall|k: Key| #[trigger] removed.contains(k)
                    <==> (exists|j: int| 0 <= j < i2 && keys@[j] == k && k.a == who),
                self.auths@ == m0.remove_keys(removed),
                self.auths.wf(),
                self.balances == old(self).balances,
                self.positions == old(self).positions,
                self.risks == old(self).risks,
                self.rates == old(self).rates,
                self.prices == old(self).prices,
                self.pools == old(self).pools,
                self.totals == old(self).totals,
                self.config == old(self).config,
            decreases n - i2,
        {
            if keys[i2].a == who {
                proof {
                    let kk = keys@[i2 as int];
                    assert_maps_equal!(
                        m0.remove_keys(removed).remove(kk),
                        m0.remove_keys(removed.insert(kk))
                    );
                }
                self.auths.remove(keys[i2]);
                proof {
                    removed = removed.insert(keys@[i2 as int]);
                }
            }
            i2 = i2 + 1;
        }
        proof {
            assert_sets_equal!(removed, target, k => {
                if removed.contains(k) {
                    let j = choose|j: int| 0 <= j < n && keys@[j] == k && k.a == who;
                    assert(keys@.contains(k));
                }
                if target.contains(k) {
                    assert(m0.contains_key(k));
                    assert(keys@.contains(k));
                    let j = choose|j: int| 0 <= j < keys@.len() && keys@[j] == k;
                    assert(removed.contains(k));
                }
            });
        }
        let newbal = bal + (refund as u64);
        self.balances.insert(Key { c: native, a: who, b: 0 }, newbal);
        proof {
            assert forall|k2: Key| #[trigger] self.auth_map().contains_key(k2)
                implies self.auth_map()[k2] == dep by {
                assert(old(self).auth_map().contains_key(k2));
            }
        }
        Ok(())
    }
}

} // verus!
