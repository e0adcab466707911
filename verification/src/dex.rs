use vstd::prelude::*;
use vstd::assert_seqs_equal;
use crate::state::{acct_key, cur_key, pair_key, CdpEngine};
use crate::table::Key;
use crate::types::{AccountId, Balance, CurrencyId, Error, Origin, PairStatus, Pool, Position, SCALE};

verus! {

/// The reserve a swap from `x` to `y` draws its input into.
pub open spec fn reserve_in(pools: Map<Key, Pool>, x: CurrencyId, y: CurrencyId) -> Balance {
    let p = pools[pair_key(x, y)];
    if x < y {
        p.reserve_base
    } else {
        p.reserve_quote
    }
}

/// The reserve a swap from `x` to `y` takes its output from.
pub open spec fn reserve_out(pools: Map<Key, Pool>, x: CurrencyId, y: CurrencyId) -> Balance {
    let p = pools[pair_key(x, y)];
    if x < y {
        p.reserve_quote
    } else {
        p.reserve_base
    }
}

/// The pool key of hop `i` of the path.
pub open spec fn hop_pair(path: Seq<CurrencyId>, i: int) -> Key {
    pair_key(path[i], path[i + 1])
}

/// The input reserve of hop `i` of the path.
pub open spec fn hop_rin(pools: Map<Key, Pool>, path: Seq<CurrencyId>, i: int) -> Balance {
    reserve_in(pools, path[i], path[i + 1])
}

/// The input hop `i` of the path demands for `out` of output.
pub open spec fn hop_in_amt(pools: Map<Key, Pool>, path: Seq<CurrencyId>, i: int, out: int)
    -> Option<int>
{
    hop_input(pools, path[i], path[i + 1], out)
}

/// The two ends of hop `i` of the path are different currencies.
pub open spec fn hop_ends(path: Seq<CurrencyId>, i: int) -> bool {
    path[i] != path[i + 1]
}

/// No trading pair occurs twice along the path.
pub open spec fn hops_distinct(path: Seq<CurrencyId>) -> bool {
    forall|i: int, j: int| 0 <= i < j < path.len() - 1
        ==> #[trigger] hop_pair(path, i) != #[trigger] hop_pair(path, j)
}

/// A usable swap path: it starts at the collateral currency, ends at the
/// stablecoin, never repeats a currency in adjacent steps, and never routes
/// through the same pool twice.
pub open spec fn path_shape_ok(path: Seq<CurrencyId>, c: CurrencyId, stable: CurrencyId) -> bool {
    &&& path.len() >= 2
    &&& path[0] == c
    &&& path[path.len() - 1] == stable
    &&& forall|i: int| 0 <= i < path.len() - 1 ==> #[trigger] hop_ends(path, i)
    &&& hops_distinct(path)
}

/// Every adjacent pair along the path is a listed, enabled trading pair.
pub open spec fn path_enabled(pools: Map<Key, Pool>, path: Seq<CurrencyId>) -> bool {
    forall|i: int| 0 <= i < path.len() - 1 ==> {
        &&& pools.contains_key(#[trigger] hop_pair(path, i))
        &&& pools[hop_pair(path, i)].status == PairStatus::Enabled
    }
}

/// The input a constant-product pool demands for exactly `out` of output:
/// `floor(reserve_in * out / (reserve_out - out)) + 1`. `None` when the pool
/// cannot yield `out`, or the input would not fit a balance.
pub open spec fn hop_input(pools: Map<Key, Pool>, x: CurrencyId, y: CurrencyId, out: int)
    -> Option<int>
{
    let rin = reserve_in(pools, x, y) as int;
    let rout = reserve_out(pools, x, y) as int;
    if out >= rout {
        None
    } else {
        let v = rin * out / (rout - out) + 1;
        if v > u64::MAX {
            None
        } else {
            Some(v)
        }
    }
}

/// The amount entering each currency of the path, computed backwards from a
/// target output of `target` stablecoin against the current reserves.
/// `None` when some hop cannot deliver what the next one needs.
pub open spec fn swap_amounts(pools: Map<Key, Pool>, path: Seq<CurrencyId>, target: Balance)
    -> Option<Seq<Balance>>
    decreases path.len(),
{
    if path.len() <= 1 {
        Some(seq![target])
    } else {
        match swap_amounts(pools, path.drop_first(), target) {
            None => None,
            Some(t) => match hop_input(pools, path[0], path[1], t[0] as int) {
                None => None,
                Some(a) => Some(seq![a as Balance] + t),
            },
        }
    }
}

/// Every hop's input still fits its reserve.
pub open spec fn apply_fits(pools: Map<Key, Pool>, path: Seq<CurrencyId>, amts: Seq<Balance>)
    -> bool
{
    forall|i: int| 0 <= i < path.len() - 1
        ==> #[trigger] hop_rin(pools, path, i) + amts[i] <= u64::MAX
}

/// The pool of the `x`-to-`y` pair after taking `ain` in and paying `aout`
/// out.
pub open spec fn hop_pool(pools: Map<Key, Pool>, x: CurrencyId, y: CurrencyId, ain: Balance, aout: Balance)
    -> Pool
{
    let p = pools[pair_key(x, y)];
    if x < y {
        Pool {
            status: p.status,
            reserve_base: (p.reserve_base + ain) as Balance,
            reserve_quote: (p.reserve_quote - aout) as Balance,
        }
    } else {
        Pool {
            status: p.status,
            reserve_base: (p.reserve_base - aout) as Balance,
            reserve_quote: (p.reserve_quote + ain) as Balance,
        }
    }
}

/// The pool map after the whole multi-hop swap is applied, hop by hop.
pub open spec fn apply_swap(pools: Map<Key, Pool>, path: Seq<CurrencyId>, amts: Seq<Balance>)
    -> Map<Key, Pool>
    decreases path.len(),
{
    if path.len() <= 1 {
        pools
    } else {
        apply_swap(
            pools.insert(
                pair_key(path[0], path[1]),
                hop_pool(pools, path[0], path[1], amts[0], amts[1]),
            ),
            path.drop_first(),
            amts.drop_first(),
        )
    }
}

/// If the amounts of some suffix of the path cannot be computed, neither can
/// the amounts of the whole path.
proof fn lemma_swap_amounts_none(pools: Map<Key, Pool>, path: Seq<CurrencyId>, target: Balance, j: int)
    requires
        0 <= j <= path.len() - 1,
        swap_amounts(pools, path.subrange(j, path.len() as int), target).is_none(),
    ensures
        swap_amounts(pools, path, target).is_none(),
    decreases j,
{
    let n = path.len() as int;
    if j == 0 {
        assert_seqs_equal!(path.subrange(0, n) == path);
    } else {
        let pre = path.subrange(j - 1, n);
        assert_seqs_equal!(pre.drop_first() == path.subrange(j, n));
        assert(pre.len() >= 2);
        assert(swap_amounts(pools, pre, target).is_none());
        lemma_swap_amounts_none(pools, path, target, j - 1);
    }
}

/// What a successful amount computation pins down: one amount per path
/// entry, the target at the end, and each hop consistent with its pool.
proof fn lemma_swap_amounts_props(
    pools: Map<Key, Pool>,
    path: Seq<CurrencyId>,
    target: Balance,
    amts: Seq<Balance>,
)
    requires
        path.len() >= 1,
        swap_amounts(pools, path, target) == Some(amts),
    ensures
        amts.len() == path.len(),
        amts[path.len() - 1] == target,
        forall|i: int| 0 <= i < path.len() - 1
            ==> #[trigger] hop_in_amt(pools, path, i, amts[i + 1] as int)
                == Some(amts[i] as int),
    decreases path.len(),
{
    if path.len() == 1 {
    } else {
        let tail = swap_amounts(pools, path.drop_first(), target).unwrap();
        lemma_swap_amounts_props(pools, path.drop_first(), target, tail);
        let a0 = hop_input(pools, path[0], path[1], tail[0] as int).unwrap();
        assert(amts == seq![a0 as Balance] + tail);
        assert(amts.len() == path.len());
        assert forall|i: int| 0 <= i < path.len() - 1
            implies #[trigger] hop_in_amt(pools, path, i, amts[i + 1] as int)
                == Some(amts[i] as int) by {
            if i == 0 {
                assert(amts[1] == tail[0]);
                assert(0 <= a0 <= u64::MAX);
            } else {
                assert(hop_in_amt(pools, path.drop_first(), i - 1, tail[i] as int)
                    == Some(tail[i - 1] as int));
                assert(path.drop_first()[i - 1] == path[i]);
                assert(path.drop_first()[i] == path[i + 1]);
                assert(tail[i - 1] == amts[i]);
                assert(tail[i] == amts[i + 1]);
            }
        }
    }
}

/// The first reason `close_loan_has_debit_by_dex(who, c, max_collateral,
/// path)` fails on state `s`, if any. The checks run in this order, and
/// nothing is mutated before all pass.
pub open spec fn close_error(
    s: CdpEngine,
    who: AccountId,
    c: CurrencyId,
    max_collateral: Balance,
    path: Seq<CurrencyId>,
) -> Option<Error> {
    let pos = s.position_of(c, who);
    let stable = s.config.stable_currency;
    let rate = s.rate_of(c);
    let tval = (pos.debit * rate.parts) / (SCALE as int);
    let total = s.total_debit_of(c);
    if pos.debit == 0 {
        Some(Error::NoOutstandingDebit)
    } else if path.len() > s.config.max_swap_path_len {
        Some(Error::PathTooLong)
    } else if !path_shape_ok(path, c, stable) {
        Some(Error::InvalidSwapPath)
    } else if !path_enabled(s.pool_map(), path) {
        Some(Error::TradingPairNotEnabled)
    } else if tval > u64::MAX {
        Some(Error::Overflow)
    } else if total < pos.debit {
        Some(Error::Overflow)
    } else if tval == 0 {
        None
    } else {
        match swap_amounts(s.pool_map(), path, tval as Balance) {
            None => Some(Error::SwapSlippageExceeded),
            Some(amts) => if amts[0] > max_collateral {
                Some(Error::SwapSlippageExceeded)
            } else if amts[0] > pos.collateral {
                Some(Error::InsufficientBalance)
            } else if !apply_fits(s.pool_map(), path, amts) {
                Some(Error::Overflow)
            } else {
                None
            },
        }
    }
}

/// How a successful `close_loan_has_debit_by_dex` leaves the engine: the
/// swap is applied to the pools, the collateral it consumed leaves the
/// position, the debit is zeroed (the stablecoin bought is burned against
/// it), and the collateral left over stays in the position.
pub open spec fn close_ok_post(
    s0: CdpEngine,
    s1: CdpEngine,
    who: AccountId,
    c: CurrencyId,
    path: Seq<CurrencyId>,
) -> bool {
    let pos = s0.position_of(c, who);
    let rate = s0.rate_of(c);
    let tval = (pos.debit * rate.parts) / (SCALE as int);
    let spent: int = if tval == 0 {
        0
    } else {
        match swap_amounts(s0.pool_map(), path, tval as Balance) {
            Some(amts) => amts[0] as int,
            None => 0,
        }
    };
    let ncol = (pos.collateral - spent) as Balance;
    &&& s1.pool_map() == (if tval == 0 {
            s0.pool_map()
        } else {
            match swap_amounts(s0.pool_map(), path, tval as Balance) {
                Some(amts) => apply_swap(s0.pool_map(), path, amts),
                None => s0.pool_map(),
            }
        })
    &&& s1.position_map() == (if ncol == 0 {
            s0.position_map().remove(acct_key(c, who))
        } else {
            s0.position_map().insert(acct_key(c, who), Position { collateral: ncol, debit: 0 })
        })
    &&& s1.total_map() == s0.total_map().insert(
            cur_key(c),
            (s0.total_debit_of(c) - pos.debit) as Balance,
        )
    &&& s1.balance_map() == s0.balance_map()
    &&& s1.auth_map() == s0.auth_map()
    &&& s1.risk_map() == s0.risk_map()
    &&& s1.rate_map() == s0.rate_map()
    &&& s1.price_map() == s0.price_map()
    &&& s1.config == s0.config
}

/// The first reason `add_liquidity(who, x, y, ax, ay)` fails on `s`, if any.
pub open spec fn add_liquidity_error(
    s: CdpEngine,
    who: AccountId,
    x: CurrencyId,
    y: CurrencyId,
    ax: Balance,
    ay: Balance,
) -> Option<Error> {
    match s.pool_of(x, y) {
        None => Some(Error::TradingPairNotEnabled),
        Some(pool) => if pool.status != PairStatus::Enabled {
            Some(Error::TradingPairNotEnabled)
        } else if s.balance_of(x, who) < ax {
            Some(Error::InsufficientBalance)
        } else if s.balance_of(y, who) < ay {
            Some(Error::InsufficientBalance)
        } else {
            let bin: Balance = if x < y { ax } else { ay };
            let qin: Balance = if x < y { ay } else { ax };
            if pool.reserve_base + bin > u64::MAX {
                Some(Error::Overflow)
            } else if pool.reserve_quote + qin > u64::MAX {
                Some(Error::Overflow)
            } else {
                None
            }
        },
    }
}

/// How a successful `add_liquidity` leaves the engine: both amounts move
/// from the caller's balances into the pair's reserves.
pub open spec fn add_liquidity_post(
    s0: CdpEngine,
    s1: CdpEngine,
    who: AccountId,
    x: CurrencyId,
    y: CurrencyId,
    ax: Balance,
    ay: Balance,
) -> bool {
    let pool = s0.pool_map()[pair_key(x, y)];
    let bin: Balance = if x < y { ax } else { ay };
    let qin: Balance = if x < y { ay } else { ax };
    &&& s1.pool_map() == s0.pool_map().insert(pair_key(x, y), Pool {
            status: pool.status,
            reserve_base: (pool.reserve_base + bin) as Balance,
            reserve_quote: (pool.reserve_quote + qin) as Balance,
        })
    &&& s1.balance_map() == s0.balance_map()
            .insert(acct_key(x, who), (s0.balance_of(x, who) - ax) as Balance)
            .insert(acct_key(y, who), (s0.balance_of(y, who) - ay) as Balance)
    &&& s1.position_map() == s0.position_map()
    &&& s1.auth_map() == s0.auth_map()
    &&& s1.risk_map() == s0.risk_map()
    &&& s1.rate_map() == s0.rate_map()
    &&& s1.price_map() == s0.price_map()
    &&& s1.total_map() == s0.total_map()
    &&& s1.config == s0.config
}

fn pair_key_of(x: CurrencyId, y: CurrencyId) -> (k: Key)
    ensures
        k == pair_key(x, y),
{
    if x < y {
        Key { c: x, a: y, b: 0 }
    } else {
        Key { c: y, a: x, b: 0 }
    }
}

proof fn lemma_mul_fit(a: int, b: int, a2: int, b2: int)
    requires
        0 <= a <= a2,
        0 <= b <= b2,
    ensures
        a * b <= a2 * b2,
{
    assert(a * b <= a2 * b2) by (nonlinear_arith)
        requires
            0 <= a <= a2,
            0 <= b <= b2,
    {}
}

impl CdpEngine {
    /// List or re-enable the trading pair of `x` and `y`; existing reserves
    /// are kept. Only the privileged authority may do this.
    pub fn enable_trading_pair(&mut self, origin: Origin, x: CurrencyId, y: CurrencyId)
        -> (r: Result<(), Error>)
        requires
            old(self).wf(),
            x != y,
        ensures
            final(self).wf(),
            match r {
                Ok(()) => {
                    let p0 = match old(self).pool_of(x, y) {
                        Some(p) => p,
                        None => Pool { status: PairStatus::Disabled, reserve_base: 0, reserve_quote: 0 },
                    };
                    &&& origin == Origin::Root
                    &&& final(self).pool_map() == old(self).pool_map().insert(
                            pair_key(x, y),
                            Pool {
                                status: PairStatus::Enabled,
                                reserve_base: p0.reserve_base,
                                reserve_quote: p0.reserve_quote,
                            },
                        )
                    &&& final(self).balance_map() == old(self).balance_map()
                    &&& final(self).position_map() == old(self).position_map()
                    &&& final(self).auth_map() == old(self).auth_map()
                    &&& final(self).risk_map() == old(self).risk_map()
                    &&& final(self).rate_map() == old(self).rate_map()
                    &&& final(self).price_map() == old(self).price_map()
                    &&& final(self).total_map() == old(self).total_map()
                    &&& final(self).config == old(self).config
                },
                Err(e) => {
                    &&& e == Error::NotAuthorized
                    &&& origin != Origin::Root
                    &&& *final(self) == *old(self)
                },
            },
    {
        match origin {
            Origin::Root => {},
            Origin::Signed(_) => {
                return Err(Error::NotAuthorized);
            },
        }
        let k = pair_key_of(x, y);
        let p0 = match self.pools.get(k) {
            Some(p) => *p,
            None => Pool { status: PairStatus::Disabled, reserve_base: 0, reserve_quote: 0 },
        };
        self.pools.insert(k, Pool {
            status: PairStatus::Enabled,
            reserve_base: p0.reserve_base,
            reserve_quote: p0.reserve_quote,
        });
        Ok(())
    }

    /// Disable the trading pair of `x` and `y`; reserves are kept. Only the
    /// privileged authority may do this.
    pub fn disable_trading_pair(&mut self, origin: Origin, x: CurrencyId, y: CurrencyId)
        -> (r: Result<(), Error>)
        requires
            old(self).wf(),
            x != y,
        ensures
            final(self).wf(),
            match r {
                Ok(()) => {
                    let p0 = match old(self).pool_of(x, y) {
                        Some(p) => p,
                        None => Pool { status: PairStatus::Disabled, reserve_base: 0, reserve_quote: 0 },
                    };
                    &&& origin == Origin::Root
                    &&& final(self).pool_map() == old(self).pool_map().insert(
                            pair_key(x, y),
                            Pool {
                                status: PairStatus::Disabled,
                                reserve_base: p0.reserve_base,
                                reserve_quote: p0.reserve_quote,
                            },
                        )
                    &&& final(self).balance_map() == old(self).balance_map()
                    &&& final(self).position_map() == old(self).position_map()
                    &&& final(self).auth_map() == old(self).auth_map()
                    &&& final(self).risk_map() == old(self).risk_map()
                    &&& final(self).rate_map() == old(self).rate_map()
                    &&& final(self).price_map() == old(self).price_map()
                    &&& final(self).total_map() == old(self).total_map()
                    &&& final(self).config == old(self).config
                },
                Err(e) => {
                    &&& e == Error::NotAuthorized
                    &&& origin != Origin::Root
                    &&& *final(self) == *old(self)
                },
            },
    {
        match origin {
            Origin::Root => {},
            Origin::Signed(_) => {
                return Err(Error::NotAuthorized);
            },
        }
        let k = pair_key_of(x, y);
        let p0 = match self.pools.get(k) {
            Some(p) => *p,
            None => Pool { status: PairStatus::Disabled, reserve_base: 0, reserve_quote: 0 },
        };
        self.pools.insert(k, Pool {
            status: PairStatus::Disabled,
            reserve_base: p0.reserve_base,
            reserve_quote: p0.reserve_quote,
        });
        Ok(())
    }

    /// Move `ax` of `x` and `ay` of `y` from the caller's balances into the
    /// reserves of their enabled trading pair.
    pub fn add_liquidity(
        &mut self,
        who: AccountId,
        x: CurrencyId,
        y: CurrencyId,
        ax: Balance,
        ay: Balance,
    ) -> (r: Result<(), Error>)
        requires
            old(self).wf(),
            x != y,
        ensures
            final(self).wf(),
            match r {
                Ok(()) => {
                    &&& add_liquidity_error(*old(self), who, x, y, ax, ay).is_none()
                    &&& add_liquidity_post(*old(self), *final(self), who, x, y, ax, ay)
                },
                Err(e) => {
                    &&& *final(self) == *old(self)
                    &&& add_liquidity_error(*old(self), who, x, y, ax, ay) == Some(e)
                },
            },
    {
        let k = pair_key_of(x, y);
        let pool = match self.pools.get(k) {
            Some(p) => *p,
            None => {
                return Err(Error::TradingPairNotEnabled);
            },
        };
        match pool.status {
            PairStatus::Enabled => {},
            _ => {
                return Err(Error::TradingPairNotEnabled);
            },
        }
        let bx = self.get_balance(x, who);
        if bx < ax {
            return Err(Error::InsufficientBalance);
        }
        let by = self.get_balance(y, who);
        if by < ay {
            return Err(Error::InsufficientBalance);
        }
        let bin = if x < y { ax } else { ay };
        let qin = if x < y { ay } else { ax };
        if pool.reserve_base as u128 + bin as u128 > u64::MAX as u128 {
            return Err(Error::Overflow);
        }
        if pool.reserve_quote as u128 + qin as u128 > u64::MAX as u128 {
            return Err(Error::Overflow);
        }
        self.pools.insert(k, Pool {
            status: pool.status,
            reserve_base: pool.reserve_base + bin,
            reserve_quote: pool.reserve_quote + qin,
        });
        self.balances.insert(Key { c: x, a: who, b: 0 }, bx - ax);
        self.balances.insert(Key { c: y, a: who, b: 0 }, by - ay);
        Ok(())
    }

    /// Whether `path` has the shape a close-by-swap call needs.
    fn path_shape_valid(path: &Vec<CurrencyId>, c: CurrencyId, stable: CurrencyId) -> (ok: bool)
        ensures
            ok == path_shape_ok(path@, c, stable),
    {
        let n = path.len();
        if n < 2 {
            return false;
        }
        if path[0] != c {
            return false;
        }
        if path[n - 1] != stable {
            return false;
        }
        let mut i: usize = 0;
        while i + 1 < n
            invariant
                n == path@.len(),
                0 <= i <= n - 1,
                forall|j: int| 0 <= j < i ==> #[trigger] hop_ends(path@, j),
            decreases n - i,
        {
            if path[i] == path[i + 1] {
                proof {
                    assert(!hop_ends(path@, i as int));
                }
                return false;
            }
            proof {
                assert(hop_ends(path@, i as int));
            }
            i = i + 1;
        }
        let mut a: usize = 0;
        while a + 1 < n
            invariant
                n == path@.len(),
                0 <= a <= n - 1,
                forall|x: int, y: int| 0 <= x < y < n - 1 && x < a
                    ==> #[trigger] hop_pair(path@, x) != #[trigger] hop_pair(path@, y),
            decreases n - a,
        {
            let mut b: usize = a + 1;
            while b + 1 < n
                invariant
                    n == path@.len(),
                    0 <= a < b <= n - 1,
                    forall|y: int| a < y < b
                        ==> hop_pair(path@, a as int) != #[trigger] hop_pair(path@, y),
                decreases n - b,
            {
                if pair_key_of(path[a], path[a + 1]) == pair_key_of(path[b], path[b + 1]) {
                    proof {
                        assert(hop_pair(path@, a as int) == hop_pair(path@, b as int));
                    }
                    return false;
                }
                proof {
                    assert(hop_pair(path@, a as int) != hop_pair(path@, b as int));
                }
                b = b + 1;
            }
            a = a + 1;
        }
        true
    }

    /// Whether every adjacent pair along `path` is listed and enabled.
    fn path_pairs_enabled(&self, path: &Vec<CurrencyId>) -> (ok: bool)
        requires
            self.wf(),
            path@.len() >= 2,
        ensures
            ok == path_enabled(self.pool_map(), path@),
    {
        let n = path.len();
        let mut i: usize = 0;
        while i + 1 < n
            invariant
                self.wf(),
                n == path@.len(),
                n >= 2,
                0 <= i <= n - 1,
                forall|j: int| 0 <= j < i ==> {
                    &&& self.pool_map().contains_key(#[trigger] hop_pair(path@, j))
                    &&& self.pool_map()[hop_pair(path@, j)].status == PairStatus::Enabled
                },
            decreases n - i,
        {
            match self.pools.get(pair_key_of(path[i], path[i + 1])) {
                Some(p) => {
                    match p.status {
                        PairStatus::Enabled => {
                            proof {
                                assert(self.pool_map().contains_key(hop_pair(path@, i as int)));
                            }
                        },
                        _ => {
                            proof {
                                assert(self.pool_map()[hop_pair(path@, i as int)].status
                                    != PairStatus::Enabled);
                            }
                            return false;
                        },
                    }
                },
                None => {
                    proof {
                        assert(!self.pool_map().contains_key(hop_pair(path@, i as int)));
                    }
                    return false;
                },
            }
            i = i + 1;
        }
        true
    }

    /// Compute, backwards from `target`, what each hop must be fed.
    fn compute_amounts(&self, path: &Vec<CurrencyId>, target: Balance)
        -> (r: Option<Vec<Balance>>)
        requires
            self.wf(),
            path@.len() >= 2,
            path_enabled(self.pool_map(), path@),
        ensures
            match r {
                Some(v) => {
                    &&& v@.len() == path@.len()
                    &&& swap_amounts(self.pool_map(), path@, target) == Some(v@)
                },
                None => swap_amounts(self.pool_map(), path@, target).is_none(),
            },
    {
        let ghost pools0 = self.pool_map();
        let n = path.len();
        let mut amounts: Vec<u64> = vec![0u64; n];
        amounts[n - 1] = target;
        let mut k: usize = n - 1;
        while k > 0
            invariant
                self.wf(),
                pools0 == self.pool_map(),
                n == path@.len(),
                amounts@.len() == n,
                n >= 2,
                0 <= k <= n - 1,
                path_enabled(pools0, path@),
                swap_amounts(pools0, path@.subrange(k as int, n as int), target)
                    == Some(amounts@.subrange(k as int, n as int)),
            decreases k,
        {
            let out = amounts[k];
            proof {
                assert(pools0.contains_key(hop_pair(path@, k - 1)));
                assert(hop_pair(path@, k - 1) == pair_key(path@[k - 1], path@[k as int]));
            }
            let p = match self.pools.get(pair_key_of(path[k - 1], path[k])) {
                Some(pp) => *pp,
                None => {
                    proof {
                        assert(false);
                    }
                    return None;
                },
            };
            let rin = if path[k - 1] < path[k] { p.reserve_base } else { p.reserve_quote };
            let rout = if path[k - 1] < path[k] { p.reserve_quote } else { p.reserve_base };
            let ghost pre = path@.subrange(k - 1, n as int);
            proof {
                assert_seqs_equal!(pre.drop_first() == path@.subrange(k as int, n as int));
                assert(pre[0] == path@[k - 1] && pre[1] == path@[k as int]);
                assert(rin == reserve_in(pools0, path@[k - 1], path@[k as int]));
                assert(rout == reserve_out(pools0, path@[k - 1], path@[k as int]));
                assert(amounts@.subrange(k as int, n as int)[0] == out);
            }
            if out >= rout {
                proof {
                    assert(swap_amounts(pools0, pre, target).is_none());
                    lemma_swap_amounts_none(pools0, path@, target, k - 1);
                }
                return None;
            }
            proof {
                lemma_mul_fit(rin as int, out as int, u64::MAX as int, u64::MAX as int);
            }
            let v: u128 = (rin as u128) * (out as u128) / ((rout - out) as u128) + 1;
            if v > u64::MAX as u128 {
                proof {
                    assert(swap_amounts(pools0, pre, target).is_none());
                    lemma_swap_amounts_none(pools0, path@, target, k - 1);
                }
                return None;
            }
            let ghost amts_prev = amounts@;
            amounts[k - 1] = v as u64;
            proof {
                assert(hop_input(pools0, pre[0], pre[1], out as int) == Some(v as int));
                assert_seqs_equal!(
                    amounts@.subrange(k as int, n as int)
                        == amts_prev.subrange(k as int, n as int)
                );
                assert_seqs_equal!(
                    amounts@.subrange(k - 1, n as int)
                        == seq![(v as u64) as Balance] + amts_prev.subrange(k as int, n as int)
                );
            }
            k = k - 1;
        }
        proof {
            assert_seqs_equal!(path@.subrange(0, n as int) == path@);
            assert_seqs_equal!(amounts@.subrange(0, n as int) == amounts@);
        }
        Some(amounts)
    }

    /// Whether every reserve still fits after taking in its hop's input.
    fn fits_ok(&self, path: &Vec<CurrencyId>, amounts: &Vec<Balance>) -> (ok: bool)
        requires
            self.wf(),
            path@.len() >= 2,
            amounts@.len() == path@.len(),
            path_enabled(self.pool_map(), path@),
        ensures
            ok == apply_fits(self.pool_map(), path@, amounts@),
    {
        let n = path.len();
        let mut i: usize = 0;
        while i + 1 < n
            invariant
                self.wf(),
                n == path@.len(),
                amounts@.len() == n,
                n >= 2,
                0 <= i <= n - 1,
                path_enabled(self.pool_map(), path@),
                forall|j: int| 0 <= j < i
                    ==> #[trigger] hop_rin(self.pool_map(), path@, j) + amounts@[j] <= u64::MAX,
            decreases n - i,
        {
            proof {
                assert(self.pool_map().contains_key(hop_pair(path@, i as int)));
                assert(hop_pair(path@, i as int)
                    == pair_key(path@[i as int], path@[i + 1]));
            }
            let p = match self.pools.get(pair_key_of(path[i], path[i + 1])) {
                Some(pp) => *pp,
                None => {
                    proof {
                        assert(false);
                    }
                    return false;
                },
            };
            let rin = if path[i] < path[i + 1] { p.reserve_base } else { p.reserve_quote };
            proof {
                assert(rin == hop_rin(self.pool_map(), path@, i as int));
            }
            if rin as u128 + amounts[i] as u128 > u64::MAX as u128 {
                return false;
            }
            i = i + 1;
        }
        true
    }

    /// Apply the whole multi-hop swap to the pools. Pairs along the path
    /// are distinct, so each hop still sees its original reserves.
    fn apply_swap_hops(&mut self, path: &Vec<CurrencyId>, amounts: &Vec<Balance>)
        requires
            old(self).wf(),
            path@.len() >= 2,
            amounts@.len() == path@.len(),
            hops_distinct(path@),
            path_enabled(old(self).pool_map(), path@),
            apply_fits(old(self).pool_map(), path@, amounts@),
            forall|j: int| 0 <= j < path@.len() - 1
                ==> #[trigger] hop_in_amt(old(self).pool_map(), path@, j, amounts@[j + 1] as int)
                    == Some(amounts@[j] as int),
        ensures
            final(self).wf(),
            final(self).pool_map() == apply_swap(old(self).pool_map(), path@, amounts@),
            final(self).balances == old(self).balances,
            final(self).positions == old(self).positions,
            final(self).auths == old(self).auths,
            final(self).risks == old(self).risks,
            final(self).rates == old(self).rates,
            final(self).prices == old(self).prices,
            final(self).totals == old(self).totals,
            final(self).config == old(self).config,
    {
        let ghost pools0 = self.pool_map();
        let n = path.len();
        proof {
            assert_seqs_equal!(path@.subrange(0, n as int) == path@);
            assert_seqs_equal!(amounts@.subrange(0, n as int) == amounts@);
        }
        let mut i: usize = 0;
        while i + 1 < n
            invariant
                n == path@.len(),
                amounts@.len() == n,
                n >= 2,
                0 <= i <= n - 1,
                hops_distinct(path@),
                path_enabled(pools0, path@),
                apply_fits(pools0, path@, amounts@),
                forall|j: int| 0 <= j < n - 1
                    ==> #[trigger] hop_in_amt(pools0, path@, j, amounts@[j + 1] as int)
                        == Some(amounts@[j] as int),
                self.pools.wf(),
                forall|j: int| i <= j < n - 1 ==> {
                    &&& self.pool_map().contains_key(#[trigger] hop_pair(path@, j))
                    &&& self.pool_map()[hop_pair(path@, j)] == pools0[hop_pair(path@, j)]
                },
                apply_swap(
                    self.pool_map(),
                    path@.subrange(i as int, n as int),
                    amounts@.subrange(i as int, n as int),
                ) == apply_swap(pools0, path@, amounts@),
                self.balances == old(self).balances,
                self.positions == old(self).positions,
                self.auths == old(self).auths,
                self.risks == old(self).risks,
                self.rates == old(self).rates,
                self.prices == old(self).prices,
                self.totals == old(self).totals,
                self.config == old(self).config,
            decreases n - i,
        {
            proof {
                assert(self.pool_map().contains_key(hop_pair(path@, i as int)));
                assert(hop_pair(path@, i as int)
                    == pair_key(path@[i as int], path@[i + 1]));
            }
            let p = match self.pools.get(pair_key_of(path[i], path[i + 1])) {
                Some(pp) => *pp,
                None => {
                    proof {
                        assert(false);
                    }
                    return;
                },
            };
            let ain = amounts[i];
            let aout = amounts[i + 1];
            proof {
                assert(hop_in_amt(pools0, path@, i as int, aout as int) == Some(ain as int));
                assert(hop_rin(pools0, path@, i as int) + ain <= u64::MAX);
                assert(hop_pair(path@, i as int)
                    == pair_key(path@[i as int], path@[i + 1]));
                assert(self.pool_map().contains_key(hop_pair(path@, i as int)));
                assert(p == pools0[pair_key(path@[i as int], path@[i + 1])]);
            }
            let newp = if path[i] < path[i + 1] {
                Pool {
                    status: p.status,
                    reserve_base: p.reserve_base + ain,
                    reserve_quote: p.reserve_quote - aout,
                }
            } else {
                Pool {
                    status: p.status,
                    reserve_base: p.reserve_base - aout,
                    reserve_quote: p.reserve_quote + ain,
                }
            };
            let ghost sub = path@.subrange(i as int, n as int);
            let ghost asub = amounts@.subrange(i as int, n as int);
            let ghost before = self.pool_map();
            proof {
                assert(sub.len() >= 2);
                assert(sub[0] == path@[i as int] && sub[1] == path@[i + 1]);
                assert(asub[0] == ain && asub[1] == aout);
                assert_seqs_equal!(sub.drop_first() == path@.subrange(i + 1, n as int));
                assert_seqs_equal!(asub.drop_first() == amounts@.subrange(i + 1, n as int));
                assert(newp == hop_pool(before, sub[0], sub[1], asub[0], asub[1]));
            }
            self.pools.insert(pair_key_of(path[i], path[i + 1]), newp);
            proof {
                assert(self.pool_map()
                    == before.insert(pair_key(sub[0], sub[1]),
                        hop_pool(before, sub[0], sub[1], asub[0], asub[1])));
                assert forall|j: int| i + 1 <= j < n - 1 implies {
                    &&& self.pool_map().contains_key(#[trigger] hop_pair(path@, j))
                    &&& self.pool_map()[hop_pair(path@, j)] == pools0[hop_pair(path@, j)]
                } by {
                    assert(hop_pair(path@, i as int) != hop_pair(path@, j));
                }
            }
            i = i + 1;
        }
        proof {
            assert(path@.subrange(n - 1, n as int).len() == 1);
        }
    }

    /// Close the caller's whole debt for collateral type `c` by selling up
    /// to `max_collateral_amount` of its collateral through the AMM along
    /// `maybe_path` (by default directly into the stablecoin), buying
    /// exactly the position's outstanding stable value and burning it.
    ///
    /// All checks — path shape, every pair enabled, liquidity and the
    /// `max_collateral_amount` bound — run before any state is touched, so
    /// a failed call leaves every pool and the position exactly as they
    /// were. Collateral the swap does not consume stays in the position.
    #[verifier::rlimit(100)]
    #[verifier::spinoff_prover]
    pub fn close_loan_has_debit_by_dex(
        &mut self,
        who: AccountId,
        c: CurrencyId,
        max_collateral_amount: Balance,
        maybe_path: Option<Vec<CurrencyId>>,
    ) -> (r: Result<(), Error>)
        requires
            old(self).wf(),
        ensures
            final(self).wf(),
            ({
                let path = match maybe_path {
                    Some(p) => p@,
                    None => seq![c, old(self).config.stable_currency],
                };
                match r {
                    Ok(()) => {
                        &&& close_error(*old(self), who, c, max_collateral_amount, path).is_none()
                        &&& close_ok_post(*old(self), *final(self), who, c, path)
                    },
                    Err(e) => {
                        &&& *final(self) == *old(self)
                        &&& close_error(*old(self), who, c, max_collateral_amount, path)
                            == Some(e)
                    },
                }
            }),
    {
        let stable = self.config.stable_currency;
        let path: Vec<CurrencyId> = match maybe_path {
            Some(p) => p,
            None => {
                let mut v: Vec<CurrencyId> = Vec::new();
                v.push(c);
                v.push(stable);
                proof {
                    assert_seqs_equal!(v@ == seq![c, stable]);
                }
                v
            },
        };
        let n = path.len();
        let pos = self.get_position(c, who);
        if pos.debit == 0 {
            return Err(Error::NoOutstandingDebit);
        }
        if n > self.config.max_swap_path_len {
            return Err(Error::PathTooLong);
        }
        if !Self::path_shape_valid(&path, c, stable) {
            return Err(Error::InvalidSwapPath);
        }
        if !self.path_pairs_enabled(&path) {
            return Err(Error::TradingPairNotEnabled);
        }

        // Stable value owed.
        let rate = self.get_debit_exchange_rate(c);
        proof {
            lemma_mul_fit(pos.debit as int, rate.parts as int, u64::MAX as int, u32::MAX as int);
        }
        let tval128: u128 = (pos.debit as u128) * (rate.parts as u128) / (SCALE as u128);
        if tval128 > u64::MAX as u128 {
            return Err(Error::Overflow);
        }
        let total = self.get_total_debit(c);
        if total < pos.debit {
            return Err(Error::Overflow);
        }
        let ntotal = total - pos.debit;
        let target = tval128 as u64;

        if target == 0 {
            // The debt rounds to no stable value at all: zero the debit
            // without touching any pool.
            if pos.collateral == 0 {
                self.positions.remove(Key { c: c, a: who, b: 0 });
            } else {
                self.positions.insert(
                    Key { c: c, a: who, b: 0 },
                    Position { collateral: pos.collateral, debit: 0 },
                );
            }
            self.totals.insert(Key { c: c, a: 0, b: 0 }, ntotal);
            proof {
                assert forall|k2: Key| #[trigger] self.position_map().contains_key(k2)
                    implies !self.position_map()[k2].is_zero() by {
                    if k2 != acct_key(c, who) {
                        assert(old(self).position_map().contains_key(k2));
                    }
                }
            }
            return Ok(());
        }

        let amounts = match self.compute_amounts(&path, target) {
            Some(a) => a,
            None => {
                return Err(Error::SwapSlippageExceeded);
            },
        };
        let a0 = amounts[0];
        if a0 > max_collateral_amount {
            return Err(Error::SwapSlippageExceeded);
        }
        if a0 > pos.collateral {
            return Err(Error::InsufficientBalance);
        }
        if !self.fits_ok(&path, &amounts) {
            return Err(Error::Overflow);
        }
        proof {
            lemma_swap_amounts_props(self.pool_map(), path@, target, amounts@);
        }
        self.apply_swap_hops(&path, &amounts);

        // Settle the position: the debit is fully repaid, the collateral
        // the swap consumed is gone, the rest stays put.
        let ncol = pos.collateral - a0;
        if ncol == 0 {
            self.positions.remove(Key { c: c, a: who, b: 0 });
        } else {
            self.positions.insert(Key { c: c, a: who, b: 0 }, Position { collateral: ncol, debit: 0 });
        }
        self.totals.insert(Key { c: c, a: 0, b: 0 }, ntotal);
        proof {
            assert forall|k2: Key| #[trigger] self.position_map().contains_key(k2)
                implies !self.position_map()[k2].is_zero() by {
                if k2 != acct_key(c, who) {
                    assert(old(self).position_map().contains_key(k2));
                }
            }
        }
        Ok(())
    }
}

} // verus!
