use vstd::prelude::*;
use crate::table::{Key, Table};
use crate::types::{AccountId, Balance, Config, CurrencyId, Pool, Position, Ratio, RiskParams};

verus! {

/// Key of a per-(currency, account) entry: a balance or a position.
pub open spec fn acct_key(c: CurrencyId, who: AccountId) -> Key {
    Key { c: c, a: who, b: 0 }
}

/// Key of a per-currency entry: risk parameters, an exchange rate, a price,
/// or a total debit.
pub open spec fn cur_key(c: CurrencyId) -> Key {
    Key { c: c, a: 0, b: 0 }
}

/// Key of an authorization granted by `owner` to `delegate` for currency `c`.
pub open spec fn auth_key(c: CurrencyId, owner: AccountId, delegate: AccountId) -> Key {
    Key { c: c, a: owner, b: delegate }
}

/// Key of the trading pair of two distinct currencies, the smaller id first.
pub open spec fn pair_key(x: CurrencyId, y: CurrencyId) -> Key {
    if x < y {
        Key { c: x, a: y, b: 0 }
    } else {
        Key { c: y, a: x, b: 0 }
    }
}

/// Every authorization in `m` is backed by exactly the deposit `dep`.
pub open spec fn deposits_all_equal(m: Map<Key, Balance>, dep: Balance) -> bool {
    forall|k: Key| #[trigger] m.contains_key(k) ==> m[k] == dep
}

/// No stored position has both fields zero.
pub open spec fn no_empty_positions(m: Map<Key, Position>) -> bool {
    forall|k: Key| #[trigger] m.contains_key(k) ==> !m[k].is_zero()
}

/// The whole engine: positions, balances, authorizations, risk parameters,
/// debit exchange rates, oracle prices, AMM pools and per-currency debit
/// totals, all keyed through `Key`.
pub struct CdpEngine {
    pub config: Config,
    pub balances: Table<Balance>,
    pub positions: Table<Position>,
    pub auths: Table<Balance>,
    pub risks: Table<RiskParams>,
    pub rates: Table<Ratio>,
    pub prices: Table<Ratio>,
    pub pools: Table<Pool>,
    pub totals: Table<Balance>,
}

impl CdpEngine {
    pub open spec fn balance_map(self) -> Map<Key, Balance> {
        self.balances@
    }

    pub open spec fn position_map(self) -> Map<Key, Position> {
        self.positions@
    }

    pub open spec fn auth_map(self) -> Map<Key, Balance> {
        self.auths@
    }

    pub open spec fn risk_map(self) -> Map<Key, RiskParams> {
        self.risks@
    }

    pub open spec fn rate_map(self) -> Map<Key, Ratio> {
        self.rates@
    }

    pub open spec fn price_map(self) -> Map<Key, Ratio> {
        self.prices@
    }

    pub open spec fn pool_map(self) -> Map<Key, Pool> {
        self.pools@
    }

    pub open spec fn total_map(self) -> Map<Key, Balance> {
        self.totals@
    }

    /// The free balance of `who` in currency `c`; zero when no entry exists.
    pub open spec fn balance_of(self, c: CurrencyId, who: AccountId) -> Balance {
        if self.balance_map().contains_key(acct_key(c, who)) {
            self.balance_map()[acct_key(c, who)]
        } else {
            0
        }
    }

    /// The position of `who` for collateral type `c`; the empty position
    /// when no entry exists.
    pub open spec fn position_of(self, c: CurrencyId, who: AccountId) -> Position {
        if self.position_map().contains_key(acct_key(c, who)) {
            self.position_map()[acct_key(c, who)]
        } else {
            Position { collateral: 0, debit: 0 }
        }
    }

    /// The deposit backing the authorization `owner` granted `delegate` for
    /// `c`, if that authorization exists.
    pub open spec fn auth_of(self, c: CurrencyId, owner: AccountId, delegate: AccountId)
        -> Option<Balance>
    {
        if self.auth_map().contains_key(auth_key(c, owner, delegate)) {
            Some(self.auth_map()[auth_key(c, owner, delegate)])
        } else {
            None
        }
    }

    /// The risk parameters of `c`; untouched defaults when the authority has
    /// never set any.
    pub open spec fn risk_of(self, c: CurrencyId) -> RiskParams {
        if self.risk_map().contains_key(cur_key(c)) {
            self.risk_map()[cur_key(c)]
        } else {
            RiskParams::initial_spec()
        }
    }

    /// The debit exchange rate of `c`; the configured default when accrual
    /// has never written one.
    pub open spec fn rate_of(self, c: CurrencyId) -> Ratio {
        if self.rate_map().contains_key(cur_key(c)) {
            self.rate_map()[cur_key(c)]
        } else {
            self.config.default_debit_exchange_rate
        }
    }

    /// The oracle price of `c`, if the oracle has one.
    pub open spec fn price_of(self, c: CurrencyId) -> Option<Ratio> {
        if self.price_map().contains_key(cur_key(c)) {
            Some(self.price_map()[cur_key(c)])
        } else {
            None
        }
    }

    /// The pool of the trading pair of `x` and `y`, if it was ever listed.
    pub open spec fn pool_of(self, x: CurrencyId, y: CurrencyId) -> Option<Pool> {
        if self.pool_map().contains_key(pair_key(x, y)) {
            Some(self.pool_map()[pair_key(x, y)])
        } else {
            None
        }
    }

    /// The debit units outstanding over all positions of collateral type `c`.
    pub open spec fn total_debit_of(self, c: CurrencyId) -> Balance {
        if self.total_map().contains_key(cur_key(c)) {
            self.total_map()[cur_key(c)]
        } else {
            0
        }
    }

    /// Well-formedness: every table holds each key once, every stored
    /// authorization is backed by exactly the configured deposit, and no
    /// stored position is empty.
    pub open spec fn wf(self) -> bool {
        &&& self.balances.wf()
        &&& self.positions.wf()
        &&& self.auths.wf()
        &&& self.risks.wf()
        &&& self.rates.wf()
        &&& self.prices.wf()
        &&& self.pools.wf()
        &&& self.totals.wf()
        &&& deposits_all_equal(self.auth_map(), self.config.deposit_per_authorization)
        &&& no_empty_positions(self.position_map())
    }

    /// An engine with the given constants and no state at all.
    pub fn new(config: Config) -> (s: CdpEngine)
        ensures
            s.wf(),
            s.config == config,
            s.balance_map() == Map::<Key, Balance>::empty(),
            s.position_map() == Map::<Key, Position>::empty(),
            s.auth_map() == Map::<Key, Balance>::empty(),
            s.risk_map() == Map::<Key, RiskParams>::empty(),
            s.rate_map() == Map::<Key, Ratio>::empty(),
            s.price_map() == Map::<Key, Ratio>::empty(),
            s.pool_map() == Map::<Key, Pool>::empty(),
            s.total_map() == Map::<Key, Balance>::empty(),
    {
        CdpEngine {
            config,
            balances: Table::new(),
            positions: Table::new(),
            auths: Table::new(),
            risks: Table::new(),
            rates: Table::new(),
            prices: Table::new(),
            pools: Table::new(),
            totals: Table::new(),
        }
    }

    /// Ledger surface: overwrite the free balance of `who` in `c`.
    pub fn set_balance(&mut self, c: CurrencyId, who: AccountId, amount: Balance)
        requires
            old(self).wf(),
        ensures
            final(self).wf(),
            final(self).balance_map() == old(self).balance_map().insert(acct_key(c, who), amount),
            final(self).position_map() == old(self).position_map(),
            final(self).auth_map() == old(self).auth_map(),
            final(self).risk_map() == old(self).risk_map(),
            final(self).rate_map() == old(self).rate_map(),
            final(self).price_map() == old(self).price_map(),
            final(self).pool_map() == old(self).pool_map(),
            final(self).total_map() == old(self).total_map(),
            final(self).config == old(self).config,
    {
        self.balances.insert(Key { c: c, a: who, b: 0 }, amount);
    }

    /// Oracle surface: publish a price for `c`, or withdraw it.
    pub fn feed_price(&mut self, c: CurrencyId, price: Option<Ratio>)
        requires
            old(self).wf(),
        ensures
            final(self).wf(),
            final(self).price_map() == match price {
                Some(p) => old(self).price_map().insert(cur_key(c), p),
                None => old(self).price_map().remove(cur_key(c)),
            },
            final(self).balance_map() == old(self).balance_map(),
            final(self).position_map() == old(self).position_map(),
            final(self).auth_map() == old(self).auth_map(),
            final(self).risk_map() == old(self).risk_map(),
            final(self).rate_map() == old(self).rate_map(),
            final(self).pool_map() == old(self).pool_map(),
            final(self).total_map() == old(self).total_map(),
            final(self).config == old(self).config,
    {
        match price {
            Some(p) => self.prices.insert(Key { c: c, a: 0, b: 0 }, p),
            None => self.prices.remove(Key { c: c, a: 0, b: 0 }),
        }
    }

    /// Accrual surface: write the debit exchange rate of `c`.
    pub fn set_debit_exchange_rate(&mut self, c: CurrencyId, rate: Ratio)
        requires
            old(self).wf(),
        ensures
            final(self).wf(),
            final(self).rate_map() == old(self).rate_map().insert(cur_key(c), rate),
            final(self).balance_map() == old(self).balance_map(),
            final(self).position_map() == old(self).position_map(),
            final(self).auth_map() == old(self).auth_map(),
            final(self).risk_map() == old(self).risk_map(),
            final(self).price_map() == old(self).price_map(),
            final(self).pool_map() == old(self).pool_map(),
            final(self).total_map() == old(self).total_map(),
            final(self).config == old(self).config,
    {
        self.rates.insert(Key { c: c, a: 0, b: 0 }, rate);
    }

    pub fn get_balance(&self, c: CurrencyId, who: AccountId) -> (r: Balance)
        requires
            self.wf(),
        ensures
            r == self.balance_of(c, who),
    {
        match self.balances.get(Key { c: c, a: who, b: 0 }) {
            Some(v) => *v,
            None => 0,
        }
    }

    pub fn get_position(&self, c: CurrencyId, who: AccountId) -> (r: Position)
        requires
            self.wf(),
        ensures
            r == self.position_of(c, who),
    {
        match self.positions.get(Key { c: c, a: who, b: 0 }) {
            Some(v) => *v,
            None => Position { collateral: 0, debit: 0 },
        }
    }

    pub fn get_authorization(&self, c: CurrencyId, owner: AccountId, delegate: AccountId)
        -> (r: Option<Balance>)
        requires
            self.wf(),
        ensures
            r == self.auth_of(c, owner, delegate),
    {
        match self.auths.get(Key { c: c, a: owner, b: delegate }) {
            Some(v) => Some(*v),
            None => None,
        }
    }

    pub fn get_risk_params(&self, c: CurrencyId) -> (r: RiskParams)
        requires
            self.wf(),
        ensures
            r == self.risk_of(c),
    {
        match self.risks.get(Key { c: c, a: 0, b: 0 }) {
            Some(v) => *v,
            None => RiskParams::initial(),
        }
    }

    pub fn get_debit_exchange_rate(&self, c: CurrencyId) -> (r: Ratio)
        requires
            self.wf(),
        ensures
            r == self.rate_of(c),
    {
        match self.rates.get(Key { c: c, a: 0, b: 0 }) {
            Some(v) => *v,
            None => self.config.default_debit_exchange_rate,
        }
    }

    pub fn get_price(&self, c: CurrencyId) -> (r: Option<Ratio>)
        requires
            self.wf(),
        ensures
            r == self.price_of(c),
    {
        match self.prices.get(Key { c: c, a: 0, b: 0 }) {
            Some(v) => Some(*v),
            None => None,
        }
    }

    pub fn get_pool(&self, x: CurrencyId, y: CurrencyId) -> (r: Option<Pool>)
        requires
            self.wf(),
        ensures
            r == self.pool_of(x, y),
    {
        let k = if x < y {
            Key { c: x, a: y, b: 0 }
        } else {
            Key { c: y, a: x, b: 0 }
        };
        match self.pools.get(k) {
            Some(v) => Some(*v),
            None => None,
        }
    }

    pub fn get_total_debit(&self, c: CurrencyId) -> (r: Balance)
        requires
            self.wf(),
        ensures
            r == self.total_debit_of(c),
    {
        match self.totals.get(Key { c: c, a: 0, b: 0 }) {
            Some(v) => *v,
            None => 0,
        }
    }
}

} // verus!
