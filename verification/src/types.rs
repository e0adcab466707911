use vstd::prelude::*;

verus! {

/// Identifier of a currency. Collateral types are currencies distinct from the
/// system stablecoin and the native currency.
pub type CurrencyId = u32;

/// Identifier of an account.
pub type AccountId = u32;

/// An unsigned amount of some currency.
pub type Balance = u64;

/// A signed adjustment applied to a balance or to debit units.
pub type Amount = i128;

/// Denominator of all fixed-point ratios: a `Ratio` with `parts == SCALE`
/// has the value one.
pub const SCALE: u64 = 1_000_000;

/// An unsigned fixed-point number `parts / SCALE`, used for prices,
/// debit exchange rates, interest rates and collateral ratios.
#[derive(Clone, Copy, PartialEq, Eq, Structural, Debug)]
pub struct Ratio {
    pub parts: u32,
}

impl Ratio {
    /// The ratio `parts / SCALE`.
    pub fn from_parts(parts: u32) -> (r: Ratio)
        ensures
            r.parts == parts,
    {
        Ratio { parts }
    }

    /// The ratio one.
    pub fn one() -> (r: Ratio)
        ensures
            r.parts == SCALE,
    {
        Ratio { parts: 1_000_000 }
    }
}

/// A directive for one risk-parameter field: leave it as it is, or overwrite it.
#[derive(Clone, Copy, Debug)]
pub enum Change<T> {
    NoChange,
    NewValue(T),
}

/// The value a `Change` leaves behind, given the current value.
pub open spec fn apply_change<T>(c: Change<T>, current: T) -> T {
    match c {
        Change::NoChange => current,
        Change::NewValue(v) => v,
    }
}

/// The origin of a call: the privileged authority, or a signed account.
#[derive(Clone, Copy, PartialEq, Eq, Structural, Debug)]
pub enum Origin {
    Root,
    Signed(AccountId),
}

/// Typed failures of the entry points.
///
/// `Overflow` is not a market condition: it marks an adjustment whose
/// bookkeeping would leave the machine's integer range.
#[derive(Clone, Copy, PartialEq, Eq, Structural, Debug)]
pub enum Error {
    PriceNotAvailable,
    InsufficientCollateralRatio,
    ExceedsDebitCeiling,
    InsufficientBalance,
    PositionAlreadyExists,
    AuthorizationNotFound,
    NotAuthorized,
    TradingPairNotEnabled,
    SwapSlippageExceeded,
    PathTooLong,
    InvalidSwapPath,
    NoOutstandingDebit,
    Overflow,
}

/// A collateralized debt position: locked collateral and outstanding debit
/// units. A position with both fields zero is not stored.
#[derive(Clone, Copy, PartialEq, Eq, Structural, Debug)]
pub struct Position {
    pub collateral: Balance,
    pub debit: Balance,
}

impl Position {
    pub open spec fn is_zero(self) -> bool {
        self.collateral == 0 && self.debit == 0
    }
}

/// Per-collateral-type risk parameters. A `None` field means the check it
/// governs is not applied.
#[derive(Clone, Copy, Debug)]
pub struct RiskParams {
    pub interest_rate_per_period: Option<Ratio>,
    pub liquidation_ratio: Option<Ratio>,
    pub liquidation_penalty: Option<Ratio>,
    pub required_collateral_ratio: Option<Ratio>,
    pub debit_ceiling: Balance,
}

impl RiskParams {
    /// Parameters of a collateral type the authority has never touched:
    /// no ratio checks, and a debit ceiling of zero.
    pub fn initial() -> (r: RiskParams)
        ensures
            r.interest_rate_per_period.is_none(),
            r.liquidation_ratio.is_none(),
            r.liquidation_penalty.is_none(),
            r.required_collateral_ratio.is_none(),
            r.debit_ceiling == 0,
    {
        RiskParams {
            interest_rate_per_period: None,
            liquidation_ratio: None,
            liquidation_penalty: None,
            required_collateral_ratio: None,
            debit_ceiling: 0,
        }
    }

    pub open spec fn initial_spec() -> RiskParams {
        RiskParams {
            interest_rate_per_period: None,
            liquidation_ratio: None,
            liquidation_penalty: None,
            required_collateral_ratio: None,
            debit_ceiling: 0,
        }
    }
}

/// Status of an AMM trading pair.
#[derive(Clone, Copy, PartialEq, Eq, Structural, Debug)]
pub enum PairStatus {
    Disabled,
    Provisioning,
    Enabled,
}

/// An AMM constant-product pool for one ordered trading pair.
/// `reserve_base` belongs to the smaller currency id, `reserve_quote`
/// to the larger.
#[derive(Clone, Copy, PartialEq, Eq, Structural, Debug)]
pub struct Pool {
    pub status: PairStatus,
    pub reserve_base: Balance,
    pub reserve_quote: Balance,
}

/// System-wide constants fixed when the engine is created.
#[derive(Clone, Copy, PartialEq, Eq, Structural, Debug)]
pub struct Config {
    /// The single stablecoin minted against collateral.
    pub stable_currency: CurrencyId,
    /// The native currency in which authorization deposits are reserved.
    pub native_currency: CurrencyId,
    /// The deposit reserved from the granter for each authorization.
    pub deposit_per_authorization: Balance,
    /// The debit exchange rate of a collateral type never written by accrual.
    pub default_debit_exchange_rate: Ratio,
    /// The largest number of currencies allowed in a swap path.
    pub max_swap_path_len: usize,
}

} // verus!
