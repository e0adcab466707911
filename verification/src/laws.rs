use vstd::prelude::*;
use vstd::assert_sets_equal;
use crate::auth::{authorize_fresh_post, owner_auth_keys, unauthorize_all_contract, unauthorize_post};
use crate::loans::{adjust_error, adjust_ok_post, transfer_contract, transfer_error};
use crate::state::CdpEngine;
use crate::table::Key;
use crate::types::{AccountId, CurrencyId, Error};

verus! {

/// A deposit round-trips: `authorize` followed immediately by `unauthorize`
/// of the same grant leaves the granter's free native balance exactly where
/// it started.
pub proof fn lemma_deposit_round_trip(
    s0: CdpEngine,
    s1: CdpEngine,
    s2: CdpEngine,
    who: AccountId,
    c: CurrencyId,
    to: AccountId,
)
    requires
        s0.auth_of(c, who, to).is_none(),
        s0.balance_of(s0.config.native_currency, who) >= s0.config.deposit_per_authorization,
        authorize_fresh_post(s0, s1, who, c, to),
        unauthorize_post(s1, s2, who, c, to),
    ensures
        s2.balance_of(s0.config.native_currency, who)
            == s0.balance_of(s0.config.native_currency, who),
{
    let native = s0.config.native_currency;
    let dep = s0.config.deposit_per_authorization;
    let b0 = s0.balance_of(native, who);
    assert(s1.balance_of(native, who) == b0 - dep);
    assert(s1.auth_map()[crate::state::auth_key(c, who, to)] == dep);
    assert(s2.balance_of(native, who) == (b0 - dep) + dep);
}

/// Without a prior grant, `transfer_loan_from` always fails with
/// `AuthorizationNotFound` and leaves the whole engine — both parties'
/// positions included — untouched.
pub proof fn lemma_transfer_needs_authorization(
    s0: CdpEngine,
    s1: CdpEngine,
    who: AccountId,
    c: CurrencyId,
    from: AccountId,
    r: Result<(), Error>,
)
    requires
        s0.auth_of(c, from, who).is_none(),
        transfer_contract(s0, s1, who, c, from, r),
    ensures
        r == Err::<(), Error>(Error::AuthorizationNotFound),
        s1 == s0,
        s1.position_of(c, who) == s0.position_of(c, who),
        s1.position_of(c, from) == s0.position_of(c, from),
{
    assert(transfer_error(s0, who, c, from) == Some(Error::AuthorizationNotFound));
}

/// `unauthorize_all` on an account that granted nothing succeeds and is a
/// no-op.
pub proof fn lemma_unauthorize_all_without_grants(
    s0: CdpEngine,
    s1: CdpEngine,
    who: AccountId,
    r: Result<(), Error>,
)
    requires
        forall|k: Key| #[trigger] s0.auth_map().contains_key(k) ==> k.a != who,
        unauthorize_all_contract(s0, s1, who, r),
    ensures
        r == Ok::<(), Error>(()),
        s1 == s0,
{
    let granted = owner_auth_keys(s0.auth_map(), who);
    assert_sets_equal!(granted, Set::empty(), k => {
        if granted.contains(k) {
            assert(s0.auth_map().contains_key(k));
        }
    });
    assert(granted.len() == 0);
    match r {
        Ok(u) => {
            assert(u == ());
            assert(r == Ok::<(), Error>(u));
        },
        Err(e) => {
            assert(s0.balance_of(s0.config.native_currency, who) <= u64::MAX);
            assert(false);
        },
    }
}

/// A round trip of adjustments restores the position: `adjust_loan(+C, +D)`
/// followed by `adjust_loan(-C, -D)` on an otherwise untouched position
/// brings collateral, debit, both balances and the per-type debit total
/// back to their original values.
pub proof fn lemma_adjust_round_trip(
    s0: CdpEngine,
    s1: CdpEngine,
    s2: CdpEngine,
    who: AccountId,
    c: CurrencyId,
    cd: int,
    dd: int,
)
    requires
        c != s0.config.stable_currency,
        adjust_error(s0, who, c, cd, dd).is_none(),
        adjust_ok_post(s0, s1, who, c, cd, dd),
        adjust_error(s1, who, c, -cd, -dd).is_none(),
        adjust_ok_post(s1, s2, who, c, -cd, -dd),
    ensures
        s2.position_of(c, who) == s0.position_of(c, who),
        s2.balance_of(c, who) == s0.balance_of(c, who),
        s2.balance_of(s0.config.stable_currency, who)
            == s0.balance_of(s0.config.stable_currency, who),
        s2.total_debit_of(c) == s0.total_debit_of(c),
{
    let p0 = s0.position_of(c, who);
    let nc = p0.collateral + cd;
    let nd = p0.debit + dd;
    assert(0 <= nc <= u64::MAX);
    assert(0 <= nd <= u64::MAX);
    assert(s1.position_of(c, who) == crate::types::Position {
        collateral: nc as u64,
        debit: nd as u64,
    } || (nc == 0 && nd == 0 && s1.position_of(c, who) == crate::types::Position {
        collateral: 0u64,
        debit: 0u64,
    }));
    assert(s1.rate_of(c) == s0.rate_of(c));
    assert(s1.config == s0.config);
    let sd = crate::loans::stable_delta(dd, s0.rate_of(c));
    assert(crate::loans::stable_delta(-dd, s1.rate_of(c)) == -sd);
    assert(s1.balance_of(c, who) == s0.balance_of(c, who) - cd);
    assert(s1.balance_of(s0.config.stable_currency, who)
        == s0.balance_of(s0.config.stable_currency, who) + sd);
    assert(s1.total_debit_of(c) == s0.total_debit_of(c) + dd);
}

} // verus!
