//! Currencies, accounts and the error taxonomy shared by the three components.
use vstd::prelude::*;

verus! {

/// An amount of some currency.
pub type Balance = u128;

/// A signed amount of some currency.
pub type Amount = i128;

/// An account on the host ledger.
pub type AccountId = u64;

/// A block height.
pub type BlockNumber = u64;

/// The tokens the treasury knows of.
#[derive(Clone, Copy, Debug, PartialEq, Eq, Structural)]
pub enum TokenSymbol {
    ACA,
    AUSD,
    DOT,
    LDOT,
    /// The governance token.
    ADAO,
    /// The staked governance token.
    SDAO,
}

/// A currency: a token, or the share token of a liquidity pool on a pair.
#[derive(Clone, Copy, Debug, PartialEq, Eq, Structural)]
pub enum CurrencyId {
    Token(TokenSymbol),
    DexShare(TokenSymbol, TokenSymbol),
}

/// Who makes a call: the privileged root, or a signed account.
#[derive(Clone, Copy, Debug, PartialEq, Eq, Structural)]
pub enum Origin {
    Root,
    Signed(AccountId),
}

/// Every way an operation can fail.
#[derive(Clone, Copy, Debug, PartialEq, Eq, Structural)]
pub enum Error {
    /// An arithmetic result does not fit.
    Overflow,
    /// An arithmetic result would be negative.
    Underflow,
    /// A division by zero.
    DivisionByZero,
    /// The caller is not authorized.
    BadOrigin,
    /// The account does not hold enough of the currency.
    BalanceTooLow,
    /// The amount would dip into locked funds.
    LiquidityRestrictions,
    SubscriptionNotFound,
    NoPrice,
    SubscriptionIsFull,
    BelowMinTargetAmount,
    BelowMinSubscriptionAmount,
    NoDecimalsInfo,
    ZeroTargetAllocation,
    TargetAllocationNotFound,
    InvalidTradingPair,
    VestingNotFound,
    MaxVestingChunkExceeded,
    BelowMinVestingAmount,
}

/// The position of a token in the fixed order of tokens.
pub open spec fn symbol_index(s: TokenSymbol) -> nat {
    match s {
        TokenSymbol::ACA => 0,
        TokenSymbol::AUSD => 1,
        TokenSymbol::DOT => 2,
        TokenSymbol::LDOT => 3,
        TokenSymbol::ADAO => 4,
        TokenSymbol::SDAO => 5,
    }
}

/// The position of a token in the fixed order of tokens.
pub fn token_index(s: TokenSymbol) -> (r: u64)
    ensures
        r == symbol_index(s),
{
    match s {
        TokenSymbol::ACA => 0,
        TokenSymbol::AUSD => 1,
        TokenSymbol::DOT => 2,
        TokenSymbol::LDOT => 3,
        TokenSymbol::ADAO => 4,
        TokenSymbol::SDAO => 5,
    }
}

/// A number that tells currencies apart.
pub open spec fn currency_code(c: CurrencyId) -> nat {
    match c {
        CurrencyId::Token(s) => symbol_index(s),
        CurrencyId::DexShare(a, b) => 8 + 8 * symbol_index(a) + symbol_index(b),
    }
}

/// A number that tells currencies apart.
pub fn currency_code_of(c: CurrencyId) -> (r: u64)
    ensures
        r == currency_code(c),
{
    match c {
        CurrencyId::Token(s) => token_index(s),
        CurrencyId::DexShare(a, b) => 8 + 8 * token_index(a) + token_index(b),
    }
}

pub proof fn lemma_currency_code_injective(c1: CurrencyId, c2: CurrencyId)
    ensures
        currency_code(c1) == currency_code(c2) ==> c1 == c2,
        currency_code(c1) < 64,
{
}

/// The token at a position in the fixed order of tokens.
pub open spec fn symbol_at(i: nat) -> Option<TokenSymbol> {
    if i == 0 {
        Some(TokenSymbol::ACA)
    } else if i == 1 {
        Some(TokenSymbol::AUSD)
    } else if i == 2 {
        Some(TokenSymbol::DOT)
    } else if i == 3 {
        Some(TokenSymbol::LDOT)
    } else if i == 4 {
        Some(TokenSymbol::ADAO)
    } else if i == 5 {
        Some(TokenSymbol::SDAO)
    } else {
        None
    }
}

fn symbol_at_index(i: u64) -> (r: Option<TokenSymbol>)
    ensures
        r == symbol_at(i as nat),
{
    if i == 0 {
        Some(TokenSymbol::ACA)
    } else if i == 1 {
        Some(TokenSymbol::AUSD)
    } else if i == 2 {
        Some(TokenSymbol::DOT)
    } else if i == 3 {
        Some(TokenSymbol::LDOT)
    } else if i == 4 {
        Some(TokenSymbol::ADAO)
    } else if i == 5 {
        Some(TokenSymbol::SDAO)
    } else {
        None
    }
}

/// The currency whose code is `i`, if any.
pub open spec fn currency_at(i: nat) -> Option<CurrencyId> {
    if i < 8 {
        match symbol_at(i) {
            Some(s) => Some(CurrencyId::Token(s)),
            None => None,
        }
    } else {
        let j = (i - 8) as nat;
        match (symbol_at(j / 8), symbol_at(j % 8)) {
            (Some(a), Some(b)) => Some(CurrencyId::DexShare(a, b)),
            _ => None,
        }
    }
}

/// The currency whose code is `i`, if any.
pub fn currency_at_code(i: u64) -> (r: Option<CurrencyId>)
    ensures
        r == currency_at(i as nat),
{
    if i < 8 {
        match symbol_at_index(i) {
            Some(s) => Some(CurrencyId::Token(s)),
            None => None,
        }
    } else {
        let j = i - 8;
        match (symbol_at_index(j / 8), symbol_at_index(j % 8)) {
            (Some(a), Some(b)) => Some(CurrencyId::DexShare(a, b)),
            _ => None,
        }
    }
}

pub proof fn lemma_currency_at_code(c: CurrencyId, i: nat)
    ensures
        currency_at(currency_code(c)) == Some(c),
        currency_at(i) == Some(c) ==> currency_code(c) == i,
{
    match c {
        CurrencyId::Token(s) => {},
        CurrencyId::DexShare(a, b) => {
            let j = (currency_code(c) - 8) as nat;
            assert(j == 8 * symbol_index(a) + symbol_index(b));
            assert(j / 8 == symbol_index(a) && j % 8 == symbol_index(b)) by (nonlinear_arith)
                requires j == 8 * symbol_index(a) + symbol_index(b), symbol_index(b) < 8;
        },
    }
    if currency_at(i) == Some(c) && i >= 8 {
        let j = (i - 8) as nat;
        assert(j == 8 * (j / 8) + j % 8) by (nonlinear_arith);
    }
}

/// The number of decimals of a currency; share tokens have none.
pub open spec fn decimals_spec(c: CurrencyId) -> Option<nat> {
    match c {
        CurrencyId::Token(s) => match s {
            TokenSymbol::DOT | TokenSymbol::LDOT => Some(10nat),
            _ => Some(12nat),
        },
        CurrencyId::DexShare(_, _) => None,
    }
}

/// `10^decimals` of a currency: the inner value of one whole unit.
pub open spec fn accuracy_spec(c: CurrencyId) -> Option<u128> {
    match decimals_spec(c) {
        Some(d) => if d == 10 {
            Some(10_000_000_000u128)
        } else {
            Some(1_000_000_000_000u128)
        },
        None => None,
    }
}

/// One whole unit of a currency, `10^decimals`, or `NoDecimalsInfo`.
pub fn currency_accuracy(c: CurrencyId) -> (r: Result<u128, Error>)
    ensures
        r == (match accuracy_spec(c) {
            Some(a) => Ok::<u128, Error>(a),
            None => Err(Error::NoDecimalsInfo),
        }),
{
    match c {
        CurrencyId::Token(s) => match s {
            TokenSymbol::DOT | TokenSymbol::LDOT => Ok(10_000_000_000u128),
            _ => Ok(1_000_000_000_000u128),
        },
        CurrencyId::DexShare(_, _) => Err(Error::NoDecimalsInfo),
    }
}

/// The share token of the pool on the pair `{a, b}`, with the pair ordered;
/// `None` where the two tokens are the same.
pub open spec fn dex_share_spec(a: TokenSymbol, b: TokenSymbol) -> Option<CurrencyId> {
    if a == b {
        None
    } else if symbol_index(a) < symbol_index(b) {
        Some(CurrencyId::DexShare(a, b))
    } else {
        Some(CurrencyId::DexShare(b, a))
    }
}

/// The share token of the pool on the pair `{a, b}`.
pub fn dex_share_currency_id(a: TokenSymbol, b: TokenSymbol) -> (r: Option<CurrencyId>)
    ensures
        r == dex_share_spec(a, b),
{
    let ia = token_index(a);
    let ib = token_index(b);
    if ia == ib {
        None
    } else if ia < ib {
        Some(CurrencyId::DexShare(a, b))
    } else {
        Some(CurrencyId::DexShare(b, a))
    }
}

} // verus!
