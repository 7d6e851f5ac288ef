//! The allocation manager: a target portfolio over the treasury's holdings,
//! and a periodic rebalance that provisions liquidity toward it.
use crate::fixed::{abs_u128, mul_div_spec, saturating_from_rational, saturating_mul_int, ACC};
use crate::ledger::{lemma_deposit_frame, lemma_other_currency_frame, Ledger, LedgerOp, LedgerView};
use crate::oracle::{relative_price_spec, MockPriceProvider};
use crate::types::{dex_share_currency_id, dex_share_spec, currency_at, currency_at_code, currency_code, currency_code_of, lemma_currency_at_code, lemma_currency_code_injective, AccountId, Amount, Balance, BlockNumber, CurrencyId, Error, Origin, TokenSymbol};
use vstd::prelude::*;

verus! {

/// The number of currency codes: every currency's code is below it.
pub const CODES: usize = 64;

/// A target value-weight with a symmetric tolerance.
#[derive(Clone, Copy, Debug, PartialEq, Eq, Structural, Default)]
pub struct Allocation {
    pub value: Balance,
    pub range: Balance,
}

/// A signed change to an allocation.
#[derive(Clone, Copy, Debug, PartialEq, Eq, Structural)]
pub struct AllocationAdjustment {
    pub value: i128,
    pub range: i128,
}

/// A target as shares of the whole (fixed-point).
#[derive(Clone, Copy, Debug, PartialEq, Eq, Structural)]
pub struct AllocationPercent {
    pub value: u128,
    pub min: u128,
    pub max: u128,
}

/// How far a holding is from its target.
#[derive(Clone, Copy, Debug, PartialEq, Eq, Structural)]
pub struct AllocationDiff {
    /// The current share (fixed-point).
    pub current: u128,
    /// The target share (fixed-point).
    pub target: u128,
    /// `current - target` (signed fixed-point).
    pub diff: i128,
    /// The distance outside the tolerance band, zero inside it (signed fixed-point).
    pub range_diff: i128,
    /// The current amount less the target amount.
    pub diff_amount: Amount,
}

/// A holding of the DAO and its value.
#[derive(Clone, Copy, Debug, PartialEq, Eq, Structural)]
pub struct CurrentAllocation {
    pub amount: Balance,
    pub value: Balance,
    /// The share of the total value (fixed-point).
    pub percent: u128,
}

/// Which pool a strategy provisions.
#[derive(Clone, Copy, Debug, PartialEq, Eq, Structural)]
pub enum StrategyKind {
    /// Mint governance tokens and pair them with the stable currency.
    LiquidityProvisionAusdAdao,
    /// Pair a token the DAO holds with the stable currency.
    LiquidityProvisionAusdOther(TokenSymbol),
}

/// A rebalancing strategy and the bounds of one trade.
#[derive(Clone, Copy, Debug, PartialEq, Eq, Structural)]
pub struct Strategy {
    pub kind: StrategyKind,
    /// Share of the difference traded at once (fixed-point).
    pub percent_per_trade: u128,
    pub max_amount_per_trade: i128,
    pub min_amount_per_trade: i128,
}

/// `n * rate` toward zero for a signed `n`, saturating at the bounds of `i128`.
pub open spec fn sat_mul_signed(rate: u128, n: i128) -> int {
    let m = if n >= 0 {
        mul_div_spec(n as int, rate as int, ACC as int)
    } else {
        -mul_div_spec(-(n as int), rate as int, ACC as int)
    };
    if m > i128::MAX {
        i128::MAX as int
    } else if m < i128::MIN {
        i128::MIN as int
    } else {
        m
    }
}

pub open spec fn min_int(a: int, b: int) -> int {
    if a <= b { a } else { b }
}

pub open spec fn max_int(a: int, b: int) -> int {
    if a >= b { a } else { b }
}

/// The size of one trade toward a difference `diff`, at most `max`:
/// zero where `max` or `|diff|` is at most the least trade, else
/// `percent_per_trade * |diff|` raised to the least trade, lowered to the
/// largest trade and to `max`.
pub open spec fn trade_amount_spec(s: Strategy, diff: i128, max: i128) -> int {
    let d = if diff >= 0 { diff as int } else { -(diff as int) };
    let d = if d > i128::MAX { i128::MAX as int } else { d };
    if max <= s.min_amount_per_trade || d <= s.min_amount_per_trade {
        0
    } else {
        let amount = sat_mul_signed(s.percent_per_trade, d as i128);
        min_int(min_int(max_int(s.min_amount_per_trade as int, amount), s.max_amount_per_trade as int), max as int)
    }
}

impl Strategy {
    /// The size of one trade toward a difference `diff`, at most `max`.
    pub fn trade_amount(&self, diff: i128, max: i128) -> (r: i128)
        ensures
            r == trade_amount_spec(*self, diff, max),
    {
        let diff_abs: i128 = if diff == i128::MIN {
            i128::MAX
        } else if diff < 0 {
            -diff
        } else {
            diff
        };
        if max <= self.min_amount_per_trade || diff_abs <= self.min_amount_per_trade {
            return 0;
        }
        let amount = crate::fixed::saturating_mul_int_signed(self.percent_per_trade, diff_abs);
        let a = if self.min_amount_per_trade >= amount {
            self.min_amount_per_trade
        } else {
            amount
        };
        let b = if a <= self.max_amount_per_trade {
            a
        } else {
            self.max_amount_per_trade
        };
        if b <= max {
            b
        } else {
            max
        }
    }
}

/// The parameters of the manager.
#[derive(Clone, Copy, Debug, PartialEq, Eq, Structural)]
pub struct Config {
    /// The stable currency values are measured in.
    pub stable_currency_id: CurrencyId,
    /// The length of the rebalance cycle in blocks (not zero).
    pub rebalance_period: BlockNumber,
    /// Rebalances run at the blocks whose remainder by the period is this.
    pub rebalance_offset: BlockNumber,
    /// The account whose holdings are managed.
    pub dao_account: AccountId,
    /// The manager's own account.
    pub pallet_account: AccountId,
    /// The account allowed to change targets and strategies.
    pub admin: AccountId,
}

/// What the manager reports.
#[derive(Clone, Debug, PartialEq, Eq)]
pub enum Event {
    TargetAllocationSet { currency_id: CurrencyId, allocation: Allocation },
    TargetAllocationRemoved { currency_id: CurrencyId },
    TargetAllocationAdjusted { currency_id: CurrencyId, adjustment: AllocationAdjustment },
    StrategiesSet { strategies: Vec<Strategy> },
}

/// The allocation manager.
pub struct Pallet {
    pub config: Config,
    /// The target of each currency, by currency code.
    pub targets: Vec<Option<Allocation>>,
    /// The target shares of each currency, by currency code.
    pub target_percents: Vec<Option<AllocationPercent>>,
    /// The strategies, used in turn.
    pub strategies: Vec<Strategy>,
    /// The events, oldest first.
    pub events: Vec<Event>,
}

/// Only codes of currencies hold targets.
pub open spec fn codes_valid(t: Seq<Option<Allocation>>) -> bool {
    forall|i: int| 0 <= i < t.len() && currency_at(i as nat) is None ==> #[trigger] t[i] is None
}

proof fn lemma_targets_set_valid(t: Seq<Option<Allocation>>, updates: Seq<(CurrencyId, Option<Allocation>)>)
    requires
        codes_valid(t),
        t.len() == CODES,
    ensures
        codes_valid(targets_set(t, updates)),
        targets_set(t, updates).len() == CODES,
    decreases updates.len(),
{
    if updates.len() > 0 {
        lemma_targets_set_valid(t, updates.drop_last());
        let c = updates.last().0;
        lemma_currency_code_injective(c, c);
        assert forall|i: int| 0 <= i < CODES && currency_at(i as nat) is None implies #[trigger] targets_set(t, updates)[i] is None by {
            lemma_currency_at_code(c, i as nat);
        }
    }
}

proof fn lemma_targets_adjusted_valid(t: Seq<Option<Allocation>>, adjustments: Seq<(CurrencyId, AllocationAdjustment)>)
    requires
        codes_valid(t),
        t.len() == CODES,
    ensures
        targets_adjusted(t, adjustments) is Ok ==> codes_valid(targets_adjusted(t, adjustments)->Ok_0)
            && targets_adjusted(t, adjustments)->Ok_0.len() == CODES,
    decreases adjustments.len(),
{
    if adjustments.len() > 0 {
        lemma_targets_adjusted_valid(t, adjustments.drop_last());
        let c = adjustments.last().0;
        lemma_currency_code_injective(c, c);
        if targets_adjusted(t, adjustments) is Ok {
            let t2 = targets_adjusted(t, adjustments)->Ok_0;
            assert forall|i: int| 0 <= i < CODES && currency_at(i as nat) is None implies #[trigger] t2[i] is None by {
                lemma_currency_at_code(c, i as nat);
            }
        }
    }
}

/// The sum of the target values.
pub open spec fn values_sum(t: Seq<Option<Allocation>>) -> nat
    decreases t.len(),
{
    if t.len() == 0 {
        0
    } else {
        values_sum(t.drop_last()) + match t.last() {
            Some(a) => a.value as nat,
            None => 0,
        }
    }
}

/// The sum of the target values, saturating.
pub open spec fn target_total(t: Seq<Option<Allocation>>) -> u128 {
    if values_sum(t) > u128::MAX {
        u128::MAX
    } else {
        values_sum(t) as u128
    }
}

/// `floor(n / d)` as a fixed-point value, saturating (`d` not zero).
pub open spec fn sat_rational(n: int, d: int) -> u128 {
    if mul_div_spec(n, ACC as int, d) > u128::MAX {
        u128::MAX
    } else {
        mul_div_spec(n, ACC as int, d) as u128
    }
}

/// The shares of one target within the total `total`.
pub open spec fn percent_of(a: Allocation, total: u128) -> AllocationPercent {
    AllocationPercent {
        value: sat_rational(a.value as int, total as int),
        min: sat_rational(if a.value >= a.range { a.value - a.range } else { 0 }, total as int),
        max: sat_rational(if a.value + a.range > u128::MAX { u128::MAX as int } else { a.value + a.range }, total as int),
    }
}

/// The target shares of all targets `t`.
pub open spec fn percents_of(t: Seq<Option<Allocation>>) -> Seq<Option<AllocationPercent>> {
    Seq::new(
        t.len(),
        |i: int|
            match t[i] {
                Some(a) => Some(percent_of(a, target_total(t))),
                None => None,
            },
    )
}

/// The targets after setting (or, with `None`, removing) each target in turn.
pub open spec fn targets_set(t: Seq<Option<Allocation>>, updates: Seq<(CurrencyId, Option<Allocation>)>) -> Seq<
    Option<Allocation>,
>
    decreases updates.len(),
{
    if updates.len() == 0 {
        t
    } else {
        targets_set(t, updates.drop_last()).update(currency_code(updates.last().0) as int, updates.last().1)
    }
}

/// The event of one target update.
pub open spec fn set_event(u: (CurrencyId, Option<Allocation>)) -> Event {
    match u.1 {
        Some(a) => Event::TargetAllocationSet { currency_id: u.0, allocation: a },
        None => Event::TargetAllocationRemoved { currency_id: u.0 },
    }
}

/// `x + d` for a signed `d`, saturating at zero and at the largest value.
pub open spec fn adjusted(x: u128, d: i128) -> u128 {
    if d > 0 {
        if x + d > u128::MAX { u128::MAX } else { (x + d) as u128 }
    } else {
        if x + d < 0 { 0 } else { (x + d) as u128 }
    }
}

/// The targets after each adjustment in turn, or `TargetAllocationNotFound`
/// where a currency has no target.
pub open spec fn targets_adjusted(
    t: Seq<Option<Allocation>>,
    adjustments: Seq<(CurrencyId, AllocationAdjustment)>,
) -> Result<Seq<Option<Allocation>>, Error>
    decreases adjustments.len(),
{
    if adjustments.len() == 0 {
        Ok(t)
    } else {
        match targets_adjusted(t, adjustments.drop_last()) {
            Err(e) => Err(e),
            Ok(t1) => {
                let (c, adj) = adjustments.last();
                let k = currency_code(c) as int;
                match t1[k] {
                    None => Err(Error::TargetAllocationNotFound),
                    Some(a) => Ok(
                        t1.update(
                            k,
                            Some(Allocation { value: adjusted(a.value, adj.value), range: adjusted(a.range, adj.range) }),
                        ),
                    ),
                }
            },
        }
    }
}

fn adjust(x: u128, d: i128) -> (r: u128)
    ensures
        r == adjusted(x, d),
{
    let m = abs_u128(d);
    if d > 0 {
        if x > u128::MAX - m {
            u128::MAX
        } else {
            x + m
        }
    } else {
        if x < m {
            0
        } else {
            x - m
        }
    }
}

/// The target shares of all targets, or `ZeroTargetAllocation` where the
/// target values sum to zero.
fn compute_percents(t: &Vec<Option<Allocation>>) -> (r: Result<Vec<Option<AllocationPercent>>, Error>)
    ensures
        match r {
            Ok(p) => target_total(t@) != 0 && p@ == percents_of(t@),
            Err(e) => e == Error::ZeroTargetAllocation && target_total(t@) == 0,
        },
{
    let mut total: u128 = 0;
    let mut i: usize = 0;
    while i < t.len()
        invariant
            i <= t.len(),
            total == target_total(t@.subrange(0, i as int)),
        decreases t.len() - i,
    {
        proof {
            assert(t@.subrange(0, i as int + 1).drop_last() =~= t@.subrange(0, i as int));
        }
        match t[i] {
            Some(a) => {
                total = if total > u128::MAX - a.value {
                    u128::MAX
                } else {
                    total + a.value
                };
            },
            None => {},
        }
        i = i + 1;
    }
    assert(t@.subrange(0, t.len() as int) =~= t@);
    if total == 0 {
        return Err(Error::ZeroTargetAllocation);
    }
    let mut p: Vec<Option<AllocationPercent>> = Vec::new();
    let mut j: usize = 0;
    while j < t.len()
        invariant
            j <= t.len(),
            total == target_total(t@),
            total != 0,
            p@.len() == j,
            forall|k: int| 0 <= k < j ==> p@[k] == percents_of(t@)[k],
        decreases t.len() - j,
    {
        match t[j] {
            Some(a) => {
                let lo = if a.value >= a.range {
                    a.value - a.range
                } else {
                    0
                };
                let hi = if a.value > u128::MAX - a.range {
                    u128::MAX
                } else {
                    a.value + a.range
                };
                p.push(
                    Some(
                        AllocationPercent {
                            value: saturating_from_rational(a.value, total),
                            min: saturating_from_rational(lo, total),
                            max: saturating_from_rational(hi, total),
                        },
                    ),
                );
            },
            None => p.push(None),
        }
        j = j + 1;
    }
    assert(p@ =~= percents_of(t@));
    Ok(p)
}

impl Pallet {
    pub open spec fn wf(&self) -> bool {
        &&& self.targets@.len() == CODES
        &&& self.target_percents@.len() == CODES
        &&& self.config.rebalance_period != 0
        &&& self.config.dao_account != self.config.pallet_account
        &&& codes_valid(self.targets@)
        &&& forall|i: int| 0 <= i < CODES && currency_at(i as nat) is None ==> #[trigger] self.target_percents@[i] is None
    }

    /// A manager with no targets and no strategies.
    pub fn new(config: Config) -> (r: Pallet)
        requires
            config.rebalance_period != 0,
            config.dao_account != config.pallet_account,
        ensures
            r.wf(),
            r.config == config,
            forall|i: int| 0 <= i < CODES ==> r.targets@[i] is None && r.target_percents@[i] is None,
            r.strategies@.len() == 0,
            r.events@.len() == 0,
    {
        let mut targets: Vec<Option<Allocation>> = Vec::new();
        let mut target_percents: Vec<Option<AllocationPercent>> = Vec::new();
        while targets.len() < CODES
            invariant
                targets.len() == target_percents.len(),
                targets.len() <= CODES,
                forall|i: int| 0 <= i < targets.len() ==> targets@[i] is None && target_percents@[i] is None,
            decreases CODES - targets.len(),
        {
            targets.push(None);
            target_percents.push(None);
        }
        let r = Pallet { config, targets, target_percents, strategies: Vec::new(), events: Vec::new() };
        assert(codes_valid(r.targets@));
        r
    }

    /// The target of `c`.
    pub open spec fn target(&self, c: CurrencyId) -> Option<Allocation> {
        self.targets@[currency_code(c) as int]
    }

    /// The target shares of `c`.
    pub open spec fn target_percent(&self, c: CurrencyId) -> Option<AllocationPercent> {
        self.target_percents@[currency_code(c) as int]
    }

    /// The target of `c`.
    pub fn target_allocation(&self, c: CurrencyId) -> (r: Option<Allocation>)
        requires
            self.wf(),
        ensures
            r == self.target(c),
    {
        proof {
            lemma_currency_code_injective(c, c);
        }
        self.targets[currency_code_of(c) as usize]
    }

    /// The target shares of `c`.
    pub fn target_allocation_percent(&self, c: CurrencyId) -> (r: Option<AllocationPercent>)
        requires
            self.wf(),
        ensures
            r == self.target_percent(c),
    {
        proof {
            lemma_currency_code_injective(c, c);
        }
        self.target_percents[currency_code_of(c) as usize]
    }

    /// Sets or removes targets in turn, then recomputes every target share;
    /// fails with `ZeroTargetAllocation`, changing nothing, where the target
    /// values then sum to zero. Only the admin may call it.
    pub fn set_target_allocations(&mut self, origin: Origin, updates: Vec<(CurrencyId, Option<Allocation>)>) -> (r: Result<(), Error>)
        requires
            old(self).wf(),
        ensures
            final(self).wf(),
            final(self).config == old(self).config,
            final(self).strategies@ == old(self).strategies@,
            ({
                let t = targets_set(old(self).targets@, updates@);
                if origin != Origin::Signed(old(self).config.admin) {
                    r == Err::<(), Error>(Error::BadOrigin) && final(self).unchanged(*old(self))
                } else if target_total(t) == 0 {
                    r == Err::<(), Error>(Error::ZeroTargetAllocation) && final(self).unchanged(*old(self))
                } else {
                    &&& r is Ok
                    &&& final(self).targets@ == t
                    &&& final(self).target_percents@ == percents_of(t)
                    &&& final(self).events@ == old(self).events@ + updates@.map_values(|u: (CurrencyId, Option<Allocation>)| set_event(u))
                }
            }),
    {
        if origin != Origin::Signed(self.config.admin) {
            return Err(Error::BadOrigin);
        }
        let mut t: Vec<Option<Allocation>> = Vec::new();
        let mut k: usize = 0;
        while k < self.targets.len()
            invariant
                k <= self.targets.len(),
                t@ == self.targets@.subrange(0, k as int),
            decreases self.targets.len() - k,
        {
            t.push(self.targets[k]);
            k = k + 1;
        }
        assert(t@ =~= self.targets@);
        let mut evs: Vec<Event> = Vec::new();
        let mut i: usize = 0;
        while i < updates.len()
            invariant
                i <= updates.len(),
                t@.len() == CODES,
                t@ == targets_set(self.targets@, updates@.subrange(0, i as int)),
                evs@ == updates@.subrange(0, i as int).map_values(|u: (CurrencyId, Option<Allocation>)| set_event(u)),
            decreases updates.len() - i,
        {
            let (c, a) = updates[i];
            proof {
                assert(updates@.subrange(0, i as int + 1).drop_last() =~= updates@.subrange(0, i as int));
                lemma_currency_code_injective(c, c);
            }
            t.set(currency_code_of(c) as usize, a);
            match a {
                Some(al) => evs.push(Event::TargetAllocationSet { currency_id: c, allocation: al }),
                None => evs.push(Event::TargetAllocationRemoved { currency_id: c }),
            }
            i = i + 1;
            assert(evs@ =~= updates@.subrange(0, i as int).map_values(|u: (CurrencyId, Option<Allocation>)| set_event(u)));
        }
        assert(updates@.subrange(0, updates.len() as int) =~= updates@);
        proof {
            lemma_targets_set_valid(self.targets@, updates@);
        }
        let p = compute_percents(&t)?;
        self.targets = t;
        self.target_percents = p;
        self.events.append(&mut evs);
        Ok(())
    }

    /// The targets, shares and events are as in `other`.
    pub open spec fn unchanged(&self, other: Pallet) -> bool {
        &&& self.targets@ == other.targets@
        &&& self.target_percents@ == other.target_percents@
        &&& self.events@ == other.events@
    }

    /// Adjusts existing targets in turn by signed amounts, saturating, then
    /// recomputes every target share; fails, changing nothing, with
    /// `TargetAllocationNotFound` where a currency has no target, or with
    /// `ZeroTargetAllocation`. Only the admin may call it.
    pub fn adjust_target_allocations(
        &mut self,
        origin: Origin,
        adjustments: Vec<(CurrencyId, AllocationAdjustment)>,
    ) -> (r: Result<(), Error>)
        requires
            old(self).wf(),
        ensures
            final(self).wf(),
            final(self).config == old(self).config,
            final(self).strategies@ == old(self).strategies@,
            if origin != Origin::Signed(old(self).config.admin) {
                r == Err::<(), Error>(Error::BadOrigin) && final(self).unchanged(*old(self))
            } else {
                match targets_adjusted(old(self).targets@, adjustments@) {
                    Err(e) => r == Err::<(), Error>(e) && final(self).unchanged(*old(self)),
                    Ok(t) => if target_total(t) == 0 {
                        r == Err::<(), Error>(Error::ZeroTargetAllocation) && final(self).unchanged(*old(self))
                    } else {
                        &&& r is Ok
                        &&& final(self).targets@ == t
                        &&& final(self).target_percents@ == percents_of(t)
                        &&& final(self).events@ == old(self).events@ + adjustments@.map_values(
                            |u: (CurrencyId, AllocationAdjustment)|
                                Event::TargetAllocationAdjusted { currency_id: u.0, adjustment: u.1 },
                        )
                    },
                }
            },
    {
        if origin != Origin::Signed(self.config.admin) {
            return Err(Error::BadOrigin);
        }
        let mut t: Vec<Option<Allocation>> = Vec::new();
        let mut k: usize = 0;
        while k < self.targets.len()
            invariant
                k <= self.targets.len(),
                t@ == self.targets@.subrange(0, k as int),
            decreases self.targets.len() - k,
        {
            t.push(self.targets[k]);
            k = k + 1;
        }
        assert(t@ =~= self.targets@);
        let mut evs: Vec<Event> = Vec::new();
        let mut i: usize = 0;
        while i < adjustments.len()
            invariant
                i <= adjustments.len(),
                *self == *old(self),
                self.wf(),
                origin == Origin::Signed(self.config.admin),
                t@.len() == CODES,
                targets_adjusted(self.targets@, adjustments@.subrange(0, i as int)) == Ok::<Seq<Option<Allocation>>, Error>(t@),
                evs@ == adjustments@.subrange(0, i as int).map_values(
                    |u: (CurrencyId, AllocationAdjustment)|
                        Event::TargetAllocationAdjusted { currency_id: u.0, adjustment: u.1 },
                ),
            decreases adjustments.len() - i,
        {
            let (c, adj) = adjustments[i];
            proof {
                assert(adjustments@.subrange(0, i as int + 1).drop_last() =~= adjustments@.subrange(0, i as int));
                lemma_currency_code_injective(c, c);
            }
            let code = currency_code_of(c) as usize;
            let a = match t[code] {
                Some(a) => a,
                None => {
                    proof {
                        lemma_adjusted_fails_on(self.targets@, adjustments@, i as int);
                    }
                    return Err(Error::TargetAllocationNotFound);
                },
            };
            t.set(code, Some(Allocation { value: adjust(a.value, adj.value), range: adjust(a.range, adj.range) }));
            evs.push(Event::TargetAllocationAdjusted { currency_id: c, adjustment: adj });
            i = i + 1;
            assert(evs@ =~= adjustments@.subrange(0, i as int).map_values(
                |u: (CurrencyId, AllocationAdjustment)|
                    Event::TargetAllocationAdjusted { currency_id: u.0, adjustment: u.1 },
            ));
        }
        assert(adjustments@.subrange(0, adjustments.len() as int) =~= adjustments@);
        proof {
            lemma_targets_adjusted_valid(self.targets@, adjustments@);
        }
        let p = compute_percents(&t)?;
        self.targets = t;
        self.target_percents = p;
        self.events.append(&mut evs);
        Ok(())
    }

    /// Replaces the strategies. Only the admin may call it.
    pub fn set_strategies(&mut self, origin: Origin, strategies: Vec<Strategy>) -> (r: Result<(), Error>)
        requires
            old(self).wf(),
        ensures
            final(self).wf(),
            final(self).config == old(self).config,
            final(self).targets@ == old(self).targets@,
            final(self).target_percents@ == old(self).target_percents@,
            origin != Origin::Signed(old(self).config.admin) ==> r == Err::<(), Error>(Error::BadOrigin)
                && final(self).strategies@ == old(self).strategies@ && final(self).events@ == old(self).events@,
            origin == Origin::Signed(old(self).config.admin) ==> {
                &&& r is Ok
                &&& final(self).strategies@ == strategies@
                &&& final(self).events@.len() == old(self).events@.len() + 1
                &&& final(self).events@.drop_last() == old(self).events@
                &&& final(self).events@.last() matches Event::StrategiesSet { strategies: s } && s@ == strategies@
            },
    {
        if origin != Origin::Signed(self.config.admin) {
            return Err(Error::BadOrigin);
        }
        let mut copy: Vec<Strategy> = Vec::new();
        let mut i: usize = 0;
        while i < strategies.len()
            invariant
                i <= strategies.len(),
                copy@ == strategies@.subrange(0, i as int),
            decreases strategies.len() - i,
        {
            copy.push(strategies[i]);
            i = i + 1;
        }
        assert(copy@ =~= strategies@);
        self.strategies = strategies;
        self.events.push(Event::StrategiesSet { strategies: copy });
        assert(self.events@.drop_last() =~= old(self).events@);
        Ok(())
    }
}

/// Where the target of the `i`-th adjustment is missing after the ones
/// before it, all of them fail.
proof fn lemma_adjusted_fails_on(t: Seq<Option<Allocation>>, adjustments: Seq<(CurrencyId, AllocationAdjustment)>, i: int)
    requires
        0 <= i < adjustments.len(),
        targets_adjusted(t, adjustments.subrange(0, i)) is Ok,
        targets_adjusted(t, adjustments.subrange(0, i))->Ok_0[currency_code(adjustments[i].0) as int] is None,
    ensures
        targets_adjusted(t, adjustments) == Err::<Seq<Option<Allocation>>, Error>(Error::TargetAllocationNotFound),
    decreases adjustments.len() - i,
{
    let p = adjustments.subrange(0, i + 1);
    assert(p.drop_last() =~= adjustments.subrange(0, i));
    lemma_adjusted_err_extends(t, adjustments, i + 1);
}

/// Once a prefix of the adjustments fails, all of them do.
proof fn lemma_adjusted_err_extends(t: Seq<Option<Allocation>>, adjustments: Seq<(CurrencyId, AllocationAdjustment)>, n: int)
    requires
        0 <= n <= adjustments.len(),
        targets_adjusted(t, adjustments.subrange(0, n)) is Err,
    ensures
        targets_adjusted(t, adjustments) == targets_adjusted(t, adjustments.subrange(0, n)),
    decreases adjustments.len() - n,
{
    if n == adjustments.len() {
        assert(adjustments.subrange(0, n) =~= adjustments);
    } else {
        assert(adjustments.subrange(0, n + 1).drop_last() =~= adjustments.subrange(0, n));
        lemma_adjusted_err_extends(t, adjustments, n + 1);
    }
}

/// The code `i` holds a target the DAO is measured on: any currency but the
/// governance token and its staked form.
pub open spec fn is_held(t: Seq<Option<Allocation>>, i: int) -> bool {
    &&& t[i] is Some
    &&& currency_at(i as nat) is Some
    &&& currency_at(i as nat) != Some(CurrencyId::Token(TokenSymbol::ADAO))
    &&& currency_at(i as nat) != Some(CurrencyId::Token(TokenSymbol::SDAO))
}

/// The price of the currency of code `i` in the stable currency.
pub open spec fn price_at(prices: &MockPriceProvider, stable: CurrencyId, i: int) -> Option<u128> {
    relative_price_spec(prices.price(currency_at(i as nat)->Some_0), prices.price(stable))
}

/// `floor(n * rate)`, saturating.
pub open spec fn sat_mul_int(rate: int, n: int) -> u128 {
    if mul_div_spec(n, rate, ACC as int) > u128::MAX {
        u128::MAX
    } else {
        mul_div_spec(n, rate, ACC as int) as u128
    }
}

/// The holdings of the first `n` codes as `(amount, value)`, and the sum of
/// their values; `NoPrice` where a held currency has no price.
pub open spec fn holdings_scan(
    t: Seq<Option<Allocation>>,
    v: LedgerView,
    prices: &MockPriceProvider,
    cfg: Config,
    n: nat,
) -> Result<(Seq<Option<(u128, u128)>>, nat), Error>
    decreases n,
{
    if n == 0 {
        Ok((Seq::empty(), 0))
    } else {
        match holdings_scan(t, v, prices, cfg, (n - 1) as nat) {
            Err(e) => Err(e),
            Ok((h, sum)) => {
                let i = n - 1;
                if !is_held(t, i) {
                    Ok((h.push(None), sum))
                } else {
                    match price_at(prices, cfg.stable_currency_id, i) {
                        None => Err(Error::NoPrice),
                        Some(p) => {
                            let amount = v.free(currency_at(i as nat)->Some_0, cfg.dao_account);
                            let value = sat_mul_int(p as int, amount as int);
                            Ok((h.push(Some((amount as u128, value))), sum + value as nat))
                        },
                    }
                }
            },
        }
    }
}

/// The current allocation of every code, and the total value (saturating);
/// `ZeroTargetAllocation` where the total is zero.
pub open spec fn current_spec(
    t: Seq<Option<Allocation>>,
    v: LedgerView,
    prices: &MockPriceProvider,
    cfg: Config,
) -> Result<(Seq<Option<CurrentAllocation>>, u128), Error> {
    match holdings_scan(t, v, prices, cfg, CODES as nat) {
        Err(e) => Err(e),
        Ok((h, sum)) => {
            let total = if sum > u128::MAX { u128::MAX } else { sum as u128 };
            if total == 0 {
                Err(Error::ZeroTargetAllocation)
            } else {
                Ok((
                    Seq::new(
                        h.len(),
                        |i: int|
                            match h[i] {
                                Some((amount, value)) => Some(
                                    CurrentAllocation {
                                        amount,
                                        value,
                                        percent: sat_rational(value as int, total as int),
                                    },
                                ),
                                None => None,
                            },
                    ),
                    total,
                ))
            }
        },
    }
}

/// `x` as a signed value, saturating.
pub open spec fn sat_i128(x: int) -> int {
    if x > i128::MAX { i128::MAX as int } else { x }
}

/// The signed difference `a - b`, each side saturating.
pub open spec fn signed_diff(a: u128, b: u128) -> int {
    if a > b { sat_i128(a - b) } else { -sat_i128(b - a) }
}

/// The difference of one code, from its target shares `tp`, its current
/// allocation `cur` and the target amount.
pub open spec fn diff_entry(tp: Option<AllocationPercent>, cur: Option<CurrentAllocation>, target_amount: u128) -> Option<AllocationDiff> {
    match (tp, cur) {
        (Some(tp), Some(cu)) => Some(
            AllocationDiff {
                current: cu.percent,
                target: tp.value,
                diff: signed_diff(cu.percent, tp.value) as i128,
                range_diff: (if cu.percent < tp.min {
                    -sat_i128(tp.min - cu.percent)
                } else if cu.percent > tp.max {
                    sat_i128(cu.percent - tp.max)
                } else {
                    0
                }) as i128,
                diff_amount: signed_diff(cu.amount, target_amount) as i128,
            },
        ),
        (Some(tp), None) => Some(
            AllocationDiff {
                current: 0,
                target: tp.value,
                diff: (-sat_i128(tp.value as int)) as i128,
                range_diff: (-sat_i128(tp.min as int)) as i128,
                diff_amount: (-sat_i128(target_amount as int)) as i128,
            },
        ),
        (None, Some(cu)) => Some(
            AllocationDiff {
                current: cu.percent,
                target: 0,
                diff: sat_i128(cu.percent as int) as i128,
                range_diff: sat_i128(cu.percent as int) as i128,
                diff_amount: sat_i128(cu.amount as int) as i128,
            },
        ),
        (None, None) => None,
    }
}

/// The differences of the first `n` codes; `NoPrice` or `DivisionByZero`
/// where a target's currency has no price or a zero price.
pub open spec fn diff_scan(
    tps: Seq<Option<AllocationPercent>>,
    cur: Seq<Option<CurrentAllocation>>,
    total: u128,
    prices: &MockPriceProvider,
    stable: CurrencyId,
    n: nat,
) -> Result<Seq<Option<AllocationDiff>>, Error>
    decreases n,
{
    if n == 0 {
        Ok(Seq::empty())
    } else {
        match diff_scan(tps, cur, total, prices, stable, (n - 1) as nat) {
            Err(e) => Err(e),
            Ok(d) => {
                let i = n - 1;
                match tps[i] {
                    None => Ok(d.push(diff_entry(None, cur[i], 0))),
                    Some(tp) => match price_at(prices, stable, i) {
                        None => Err(Error::NoPrice),
                        Some(p) => if p == 0 {
                            Err(Error::DivisionByZero)
                        } else {
                            let target_value = sat_mul_int(tp.value as int, total as int);
                            let target_amount = sat_rational(target_value as int, p as int);
                            Ok(d.push(diff_entry(Some(tp), cur[i], target_amount)))
                        },
                    },
                }
            },
        }
    }
}

fn to_i128_sat(x: u128) -> (r: i128)
    ensures
        r == sat_i128(x as int),
{
    if x > i128::MAX as u128 {
        i128::MAX
    } else {
        x as i128
    }
}

fn signed_difference(a: u128, b: u128) -> (r: i128)
    ensures
        r == signed_diff(a, b),
{
    if a > b {
        to_i128_sat(a - b)
    } else {
        -to_i128_sat(b - a)
    }
}

fn make_diff_entry(tp: Option<AllocationPercent>, cur: Option<CurrentAllocation>, target_amount: u128) -> (r: Option<AllocationDiff>)
    ensures
        r == diff_entry(tp, cur, target_amount),
{
    match (tp, cur) {
        (Some(tp), Some(cu)) => Some(
            AllocationDiff {
                current: cu.percent,
                target: tp.value,
                diff: signed_difference(cu.percent, tp.value),
                range_diff: if cu.percent < tp.min {
                    -to_i128_sat(tp.min - cu.percent)
                } else if cu.percent > tp.max {
                    to_i128_sat(cu.percent - tp.max)
                } else {
                    0
                },
                diff_amount: signed_difference(cu.amount, target_amount),
            },
        ),
        (Some(tp), None) => Some(
            AllocationDiff {
                current: 0,
                target: tp.value,
                diff: -to_i128_sat(tp.value),
                range_diff: -to_i128_sat(tp.min),
                diff_amount: -to_i128_sat(target_amount),
            },
        ),
        (None, Some(cu)) => Some(
            AllocationDiff {
                current: cu.percent,
                target: 0,
                diff: to_i128_sat(cu.percent),
                range_diff: to_i128_sat(cu.percent),
                diff_amount: to_i128_sat(cu.amount),
            },
        ),
        (None, None) => None,
    }
}

impl Pallet {
    /// The DAO's holdings of every currency with a target (but the governance
    /// token and its staked form): amount, value in the stable currency and
    /// share of the total, with the total value.
    pub fn current_allocations(&self, ledger: &Ledger, prices: &MockPriceProvider) -> (r: Result<
        (Vec<Option<CurrentAllocation>>, Balance),
        Error,
    >)
        requires
            self.wf(),
            prices.wf(),
        ensures
            match current_spec(self.targets@, ledger@, prices, self.config) {
                Ok((c, total)) => r is Ok && r->Ok_0.0@ == c && r->Ok_0.1 == total,
                Err(e) => r == Err::<(Vec<Option<CurrentAllocation>>, Balance), Error>(e),
            },
    {
        let ghost t = self.targets@;
        let mut h: Vec<Option<(u128, u128)>> = Vec::new();
        let mut total: u128 = 0;
        let ghost mut sum: nat = 0;
        let mut i: usize = 0;
        while i < CODES
            invariant
                i <= CODES,
                self.wf(),
                prices.wf(),
                t == self.targets@,
                holdings_scan(t, ledger@, prices, self.config, i as nat) == Ok::<(Seq<Option<(u128, u128)>>, nat), Error>((h@, sum)),
                total == if sum > u128::MAX { u128::MAX as nat } else { sum },
                h@.len() == i,
            decreases CODES - i,
        {
            let held = match self.targets[i] {
                None => false,
                Some(_) => match currency_at_code(i as u64) {
                    None => false,
                    Some(c) => c != CurrencyId::Token(TokenSymbol::ADAO) && c != CurrencyId::Token(TokenSymbol::SDAO),
                },
            };
            if !held {
                h.push(None);
            } else {
                let c = currency_at_code(i as u64).unwrap();
                let p = match prices.get_relative_price(c, self.config.stable_currency_id) {
                    Some(p) => p,
                    None => {
                        proof {
                            lemma_holdings_err_extends(t, ledger@, prices, self.config, (i + 1) as nat);
                        }
                        return Err(Error::NoPrice);
                    },
                };
                let amount = ledger.free_balance(c, self.config.dao_account);
                let value = saturating_mul_int(p, amount);
                h.push(Some((amount, value)));
                proof {
                    sum = sum + value as nat;
                }
                total = if total > u128::MAX - value {
                    u128::MAX
                } else {
                    total + value
                };
            }
            i = i + 1;
        }
        if total == 0 {
            return Err(Error::ZeroTargetAllocation);
        }
        let mut cur: Vec<Option<CurrentAllocation>> = Vec::new();
        let mut j: usize = 0;
        while j < CODES
            invariant
                j <= CODES,
                h@.len() == CODES,
                cur@.len() == j,
                total != 0,
                current_spec(t, ledger@, prices, self.config) is Ok,
                current_spec(t, ledger@, prices, self.config)->Ok_0.1 == total,
                forall|k: int| 0 <= k < j ==> cur@[k] == current_spec(t, ledger@, prices, self.config)->Ok_0.0[k],
                holdings_scan(t, ledger@, prices, self.config, CODES as nat) == Ok::<(Seq<Option<(u128, u128)>>, nat), Error>((h@, sum)),
            decreases CODES - j,
        {
            match h[j] {
                Some((amount, value)) => cur.push(
                    Some(CurrentAllocation { amount, value, percent: saturating_from_rational(value, total) }),
                ),
                None => cur.push(None),
            }
            j = j + 1;
        }
        assert(cur@ =~= current_spec(t, ledger@, prices, self.config)->Ok_0.0);
        Ok((cur, total))
    }

    /// How far each currency is from its target: for a currency with a
    /// target, the current share less the target share, the distance outside
    /// the tolerance band, and the current amount less the target amount
    /// (the target share of the total value, at the currency's price).
    pub fn allocation_diff(&self, ledger: &Ledger, prices: &MockPriceProvider) -> (r: Result<Vec<Option<AllocationDiff>>, Error>)
        requires
            self.wf(),
            prices.wf(),
        ensures
            match current_spec(self.targets@, ledger@, prices, self.config) {
                Err(e) => r == Err::<Vec<Option<AllocationDiff>>, Error>(e),
                Ok((cur, total)) => match diff_scan(
                    self.target_percents@,
                    cur,
                    total,
                    prices,
                    self.config.stable_currency_id,
                    CODES as nat,
                ) {
                    Ok(d) => r is Ok && r->Ok_0@ == d,
                    Err(e) => r == Err::<Vec<Option<AllocationDiff>>, Error>(e),
                },
            },
    {
        let (cur, total) = self.current_allocations(ledger, prices)?;
        proof {
            lemma_holdings_len(self.targets@, ledger@, prices, self.config, CODES as nat);
        }
        let ghost tps = self.target_percents@;
        let mut d: Vec<Option<AllocationDiff>> = Vec::new();
        let mut i: usize = 0;
        while i < CODES
            invariant
                i <= CODES,
                self.wf(),
                prices.wf(),
                tps == self.target_percents@,
                cur@.len() == CODES,
                current_spec(self.targets@, ledger@, prices, self.config) == Ok::<(Seq<Option<CurrentAllocation>>, u128), Error>((cur@, total)),
                diff_scan(tps, cur@, total, prices, self.config.stable_currency_id, i as nat) == Ok::<Seq<Option<AllocationDiff>>, Error>(d@),
            decreases CODES - i,
        {
            match self.target_percents[i] {
                None => d.push(make_diff_entry(None, cur[i], 0)),
                Some(tp) => {
                    let c = currency_at_code(i as u64).unwrap();
                    let p = match prices.get_relative_price(c, self.config.stable_currency_id) {
                        Some(p) => p,
                        None => {
                            proof {
                                lemma_diff_err_extends(tps, cur@, total, prices, self.config.stable_currency_id, (i + 1) as nat);
                            }
                            return Err(Error::NoPrice);
                        },
                    };
                    if p == 0 {
                        proof {
                            lemma_diff_err_extends(tps, cur@, total, prices, self.config.stable_currency_id, (i + 1) as nat);
                        }
                        return Err(Error::DivisionByZero);
                    }
                    let target_value = saturating_mul_int(tp.value, total);
                    let target_amount = saturating_from_rational(target_value, p);
                    d.push(make_diff_entry(Some(tp), cur[i], target_amount));
                },
            }
            i = i + 1;
        }
        Ok(d)
    }
}

proof fn lemma_holdings_len(
    t: Seq<Option<Allocation>>,
    v: LedgerView,
    prices: &MockPriceProvider,
    cfg: Config,
    n: nat,
)
    ensures
        holdings_scan(t, v, prices, cfg, n) is Ok ==> holdings_scan(t, v, prices, cfg, n)->Ok_0.0.len() == n,
    decreases n,
{
    if n > 0 {
        lemma_holdings_len(t, v, prices, cfg, (n - 1) as nat);
    }
}

proof fn lemma_holdings_err_extends(
    t: Seq<Option<Allocation>>,
    v: LedgerView,
    prices: &MockPriceProvider,
    cfg: Config,
    n: nat,
)
    requires
        n <= CODES,
        holdings_scan(t, v, prices, cfg, n) is Err,
    ensures
        holdings_scan(t, v, prices, cfg, CODES as nat) == holdings_scan(t, v, prices, cfg, n),
    decreases CODES - n,
{
    if n < CODES {
        lemma_holdings_err_extends(t, v, prices, cfg, n + 1);
    }
}

proof fn lemma_diff_err_extends(
    tps: Seq<Option<AllocationPercent>>,
    cur: Seq<Option<CurrentAllocation>>,
    total: u128,
    prices: &MockPriceProvider,
    stable: CurrencyId,
    n: nat,
)
    requires
        n <= CODES,
        diff_scan(tps, cur, total, prices, stable, n) is Err,
    ensures
        diff_scan(tps, cur, total, prices, stable, CODES as nat) == diff_scan(tps, cur, total, prices, stable, n),
    decreases CODES - n,
{
    if n < CODES {
        lemma_diff_err_extends(tps, cur, total, prices, stable, n + 1);
    }
}

/// A liquidity provision decided by a rebalance.
#[derive(Clone, Copy, Debug, PartialEq, Eq, Structural)]
pub struct Provision {
    /// Governance tokens minted into the provider's account first.
    pub mint_governance: Balance,
    /// Stable currency moved from the DAO to the provider first.
    pub stable_from_dao: Balance,
    /// The account that provides the liquidity.
    pub provider: AccountId,
    pub currency_a: CurrencyId,
    pub currency_b: CurrencyId,
    pub amount_a: Balance,
    pub amount_b: Balance,
    /// The share token of the pool, handed on to the DAO where the
    /// provider is another account.
    pub lp: CurrencyId,
}

/// The share token of the pool on a pair of tokens.
pub open spec fn pair_share(a: CurrencyId, b: CurrencyId) -> Option<CurrencyId> {
    match (a, b) {
        (CurrencyId::Token(x), CurrencyId::Token(y)) => dex_share_spec(x, y),
        _ => None,
    }
}

/// The ledger operations of a liquidity provision by `who`: `used_a` and
/// `used_b` of the pair move into the pool account, and `shares` of the
/// pool's share token are minted to `who`.
pub open spec fn liquidity_ops(
    pool: AccountId,
    who: AccountId,
    a: CurrencyId,
    b: CurrencyId,
    used_a: Balance,
    used_b: Balance,
    shares: Balance,
) -> Seq<LedgerOp> {
    seq![
        LedgerOp::Transfer(a, who, pool, used_a),
        LedgerOp::Transfer(b, who, pool, used_b),
        LedgerOp::Deposit(pair_share(a, b)->Some_0, who, shares),
    ]
}

/// A liquidity pool service.
pub trait DexManager: Sized {
    /// The account that holds the pools' reserves.
    spec fn pool_account(&self) -> AccountId;

    /// The outcome of `add_liquidity` with these arguments on the ledger `v`:
    /// the amounts used and the shares credited, or the error.
    spec fn add_liquidity_result(
        &self,
        v: LedgerView,
        who: AccountId,
        currency_a: CurrencyId,
        currency_b: CurrencyId,
        max_amount_a: Balance,
        max_amount_b: Balance,
        min_share_increment: Balance,
    ) -> Result<(Balance, Balance, Balance), Error>;

    /// Adds up to the given amounts of the pair from `who`'s balances as
    /// liquidity and credits `who` with at least `min_share_increment` of the
    /// pool's share token. Returns the amounts used and the shares credited.
    /// On failure nothing changes.
    fn add_liquidity(
        &mut self,
        ledger: &mut Ledger,
        who: AccountId,
        currency_a: CurrencyId,
        currency_b: CurrencyId,
        max_amount_a: Balance,
        max_amount_b: Balance,
        min_share_increment: Balance,
    ) -> (r: Result<(Balance, Balance, Balance), Error>)
        ensures
            r == old(self).add_liquidity_result(
                old(ledger)@,
                who,
                currency_a,
                currency_b,
                max_amount_a,
                max_amount_b,
                min_share_increment,
            ),
            r is Err ==> final(ledger)@ == old(ledger)@ && *final(self) == *old(self),
            r is Ok ==> {
                let (used_a, used_b, shares) = r->Ok_0;
                &&& pair_share(currency_a, currency_b) is Some
                &&& used_a <= max_amount_a
                &&& used_b <= max_amount_b
                &&& shares >= min_share_increment
                &&& old(ledger)@.apply_all(
                    liquidity_ops(old(self).pool_account(), who, currency_a, currency_b, used_a, used_b, shares),
                ) == Ok::<LedgerView, Error>(final(ledger)@)
            },
    ;
}

/// The stable currency the pools pair with.
pub open spec fn ausd() -> CurrencyId {
    CurrencyId::Token(TokenSymbol::AUSD)
}

/// The signed amount divided by two, toward zero.
pub open spec fn half(x: int) -> int {
    if x >= 0 { x / 2 } else { -((-x) / 2) }
}

/// The difference entry of `c`.
pub open spec fn diff_of(diff: Seq<Option<AllocationDiff>>, c: CurrencyId) -> Option<AllocationDiff> {
    diff[currency_code(c) as int]
}

/// The provision a strategy decides on the differences `diff`: `Ok(None)`
/// where the pool's share token has no difference, is not below its
/// tolerance band, or the trade comes to nothing. The trade is half of
/// `trade_amount` toward the share token's amount difference, at most the
/// stable currency's surplus (and, pairing another token, at most the value
/// of the DAO's holding of it).
pub open spec fn plan_spec(
    cfg: Config,
    strategy: Strategy,
    diff: Seq<Option<AllocationDiff>>,
    prices: &MockPriceProvider,
    v: LedgerView,
) -> Result<Option<Provision>, Error> {
    let other = match strategy.kind {
        StrategyKind::LiquidityProvisionAusdAdao => TokenSymbol::ADAO,
        StrategyKind::LiquidityProvisionAusdOther(t) => t,
    };
    let max_stable = match diff_of(diff, ausd()) {
        Some(d) => d.diff_amount as int,
        None => 0,
    };
    match dex_share_spec(TokenSymbol::AUSD, other) {
        None => Err(Error::InvalidTradingPair),
        Some(lp) => match diff_of(diff, lp) {
            None => Ok(None),
            Some(lp_diff) => if lp_diff.range_diff >= 0 {
                Ok(None)
            } else {
                match strategy.kind {
                    StrategyKind::LiquidityProvisionAusdAdao => {
                        let amount = half(trade_amount_spec(strategy, lp_diff.diff_amount, max_stable as i128));
                        if amount <= 0 {
                            Ok(None)
                        } else {
                            match relative_price_spec(prices.price(CurrencyId::Token(TokenSymbol::ADAO)), prices.price(cfg.stable_currency_id)) {
                                None => Err(Error::NoPrice),
                                Some(p) => {
                                    let minted = sat_mul_signed(p, amount as i128);
                                    Ok(Some(Provision {
                                        mint_governance: minted as u128,
                                        stable_from_dao: amount as u128,
                                        provider: cfg.pallet_account,
                                        currency_a: CurrencyId::Token(TokenSymbol::ADAO),
                                        currency_b: ausd(),
                                        amount_a: minted as u128,
                                        amount_b: amount as u128,
                                        lp,
                                    }))
                                },
                            }
                        }
                    },
                    StrategyKind::LiquidityProvisionAusdOther(t) => {
                        match relative_price_spec(prices.price(CurrencyId::Token(t)), prices.price(cfg.stable_currency_id)) {
                            None => Err(Error::NoPrice),
                            Some(p) => {
                                let held_value = sat_mul_int(p as int, v.free(CurrencyId::Token(t), cfg.dao_account) as int);
                                let cap = min_int(max_stable, sat_i128(held_value as int));
                                let amount = half(trade_amount_spec(strategy, lp_diff.diff_amount, cap as i128));
                                let other_to_add = sat_mul_signed(p, amount as i128);
                                if amount <= 0 || other_to_add <= 0 {
                                    Ok(None)
                                } else {
                                    Ok(Some(Provision {
                                        mint_governance: 0,
                                        stable_from_dao: 0,
                                        provider: cfg.dao_account,
                                        currency_a: CurrencyId::Token(t),
                                        currency_b: ausd(),
                                        amount_a: other_to_add as u128,
                                        amount_b: amount as u128,
                                        lp,
                                    }))
                                }
                            },
                        }
                    },
                }
            },
        },
    }
}

fn half_of(x: i128) -> (r: i128)
    ensures
        r == half(x as int),
{
    if x >= 0 {
        x / 2
    } else if x == i128::MIN {
        -0x4000_0000_0000_0000_0000_0000_0000_0000i128
    } else {
        -((-x) / 2)
    }
}

/// What a rebalance with strategy number `k` decides on the ledger `v`:
/// the current allocations, the differences and then the provision.
pub open spec fn rebalance_decision(m: &Pallet, v: LedgerView, prices: &MockPriceProvider, k: int) -> Result<Option<Provision>, Error> {
    match current_spec(m.targets@, v, prices, m.config) {
        Err(e) => Err(e),
        Ok((cur, total)) => match diff_scan(m.target_percents@, cur, total, prices, m.config.stable_currency_id, CODES as nat) {
            Err(e) => Err(e),
            Ok(d) => plan_spec(m.config, m.strategies@[k], d, prices, v),
        },
    }
}

/// The strategy run at block `now`, if any: at the blocks whose remainder by
/// the period is the offset, strategy number `(now / period) mod len`.
pub open spec fn scheduled_spec(now: BlockNumber, period: BlockNumber, offset: BlockNumber, len: nat) -> Option<nat> {
    if now % period != offset || len == 0 {
        None
    } else {
        Some(((now / period) as nat) % len)
    }
}

/// The strategy to run at block `now` among `len`, if any.
pub fn scheduled_strategy(now: BlockNumber, period: BlockNumber, offset: BlockNumber, len: usize) -> (r: Option<usize>)
    requires
        period != 0,
    ensures
        r == match scheduled_spec(now, period, offset, len as nat) {
            Some(i) => Some(i as usize),
            None => None::<usize>,
        },
        r is Some ==> r->Some_0 < len,
{
    if now % period != offset || len == 0 {
        return None;
    }
    let q = now / period;
    let n = len as u64;
    Some((q % n) as usize)
}

impl Pallet {
    /// The provision `strategy` decides on the differences `diff`.
    pub fn plan(&self, strategy: &Strategy, diff: &Vec<Option<AllocationDiff>>, prices: &MockPriceProvider, ledger: &Ledger) -> (r: Result<
        Option<Provision>,
        Error,
    >)
        requires
            prices.wf(),
            diff@.len() == CODES,
        ensures
            r == plan_spec(self.config, *strategy, diff@, prices, ledger@),
    {
        let other = match strategy.kind {
            StrategyKind::LiquidityProvisionAusdAdao => TokenSymbol::ADAO,
            StrategyKind::LiquidityProvisionAusdOther(t) => t,
        };
        let stable_code = currency_code_of(CurrencyId::Token(TokenSymbol::AUSD)) as usize;
        let max_stable: i128 = match diff[stable_code] {
            Some(d) => d.diff_amount,
            None => 0,
        };
        let lp = match dex_share_currency_id(TokenSymbol::AUSD, other) {
            Some(lp) => lp,
            None => return Err(Error::InvalidTradingPair),
        };
        proof {
            lemma_currency_code_injective(lp, lp);
        }
        let lp_diff = match diff[currency_code_of(lp) as usize] {
            Some(d) => d,
            None => return Ok(None),
        };
        if lp_diff.range_diff >= 0 {
            return Ok(None);
        }
        match strategy.kind {
            StrategyKind::LiquidityProvisionAusdAdao => {
                let amount = half_of(strategy.trade_amount(lp_diff.diff_amount, max_stable));
                if amount <= 0 {
                    return Ok(None);
                }
                let p = match prices.get_relative_price(CurrencyId::Token(TokenSymbol::ADAO), self.config.stable_currency_id) {
                    Some(p) => p,
                    None => return Err(Error::NoPrice),
                };
                let minted = crate::fixed::saturating_mul_int_signed(p, amount);
                Ok(Some(Provision {
                    mint_governance: minted as u128,
                    stable_from_dao: amount as u128,
                    provider: self.config.pallet_account,
                    currency_a: CurrencyId::Token(TokenSymbol::ADAO),
                    currency_b: CurrencyId::Token(TokenSymbol::AUSD),
                    amount_a: minted as u128,
                    amount_b: amount as u128,
                    lp,
                }))
            },
            StrategyKind::LiquidityProvisionAusdOther(t) => {
                let p = match prices.get_relative_price(CurrencyId::Token(t), self.config.stable_currency_id) {
                    Some(p) => p,
                    None => return Err(Error::NoPrice),
                };
                let held = ledger.free_balance(CurrencyId::Token(t), self.config.dao_account);
                let held_value = saturating_mul_int(p, held);
                let held_signed = to_i128_sat(held_value);
                let cap = if max_stable <= held_signed {
                    max_stable
                } else {
                    held_signed
                };
                let amount = half_of(strategy.trade_amount(lp_diff.diff_amount, cap));
                let other_to_add = crate::fixed::saturating_mul_int_signed(p, amount);
                if amount <= 0 || other_to_add <= 0 {
                    return Ok(None);
                }
                Ok(Some(Provision {
                    mint_governance: 0,
                    stable_from_dao: 0,
                    provider: self.config.dao_account,
                    currency_a: CurrencyId::Token(t),
                    currency_b: CurrencyId::Token(TokenSymbol::AUSD),
                    amount_a: other_to_add as u128,
                    amount_b: amount as u128,
                    lp,
                }))
            },
        }
    }
}

/// The operations before the liquidity is added: where the provider is not
/// the DAO, the governance tokens are minted into its account and the stable
/// currency is moved there from the DAO.
pub open spec fn pre_ops(cfg: Config, p: Provision) -> Seq<LedgerOp> {
    if p.provider == cfg.dao_account {
        Seq::empty()
    } else {
        seq![
            LedgerOp::Deposit(p.currency_a, p.provider, p.mint_governance),
            LedgerOp::Transfer(p.currency_b, cfg.dao_account, p.provider, p.stable_from_dao),
        ]
    }
}

/// A provision is on a pair of distinct tokens and names its share token.
pub open spec fn provision_wf(p: Provision) -> bool {
    pair_share(p.currency_a, p.currency_b) == Some(p.lp)
}

/// The hand-on of the provider's share tokens to the DAO is sure to succeed
/// on `v`: they carry no lock, and the DAO's and the provider's share tokens
/// together stay within their issuance.
pub open spec fn hand_on_ready(cfg: Config, p: Provision, v: LedgerView) -> bool {
    &&& v.locked(p.lp, p.provider) == 0
    &&& v.free(p.lp, cfg.dao_account) + v.free(p.lp, p.provider) <= v.total_issuance(p.lp)
}

/// The outcome of carrying out the provision `p` from the ledger `v` with
/// the pool service `dex`: the first failure of the operations before, the
/// hand-on check (where the provider is not the DAO) and the liquidity; or
/// the amounts used and the shares credited.
pub open spec fn provision_result<D: DexManager>(cfg: Config, p: Provision, v: LedgerView, dex: D) -> Result<
    (Balance, Balance, Balance),
    Error,
> {
    match v.apply_all(pre_ops(cfg, p)) {
        Err(e) => Err(e),
        Ok(v1) => if p.provider != cfg.dao_account && !hand_on_ready(cfg, p, v1) {
            Err(Error::Overflow)
        } else {
            dex.add_liquidity_result(v1, p.provider, p.currency_a, p.currency_b, p.amount_a, p.amount_b, 0)
        },
    }
}

/// `w` is the ledger after the provision `p` was carried out from `v` with
/// the pool account `pool`, `used_a` and `used_b` of the pair used and
/// `shares` credited: the operations before, the liquidity, and, where the
/// provider is not the DAO, all of its share tokens handed on to the DAO.
pub open spec fn provision_done(
    cfg: Config,
    p: Provision,
    pool: AccountId,
    v: LedgerView,
    w: LedgerView,
    used_a: Balance,
    used_b: Balance,
    shares: Balance,
) -> bool {
    &&& used_a <= p.amount_a
    &&& used_b <= p.amount_b
    &&& v.apply_all(pre_ops(cfg, p)) is Ok
    &&& v.apply_all(pre_ops(cfg, p))->Ok_0.apply_all(
        liquidity_ops(pool, p.provider, p.currency_a, p.currency_b, used_a, used_b, shares),
    ) is Ok
    &&& ({
        let v2 = v.apply_all(pre_ops(cfg, p))->Ok_0.apply_all(
            liquidity_ops(pool, p.provider, p.currency_a, p.currency_b, used_a, used_b, shares),
        )->Ok_0;
        if p.provider == cfg.dao_account {
            w == v2
        } else {
            v2.apply(LedgerOp::Transfer(p.lp, p.provider, cfg.dao_account, v2.free(p.lp, p.provider) as u128))
                == Ok::<LedgerView, Error>(w)
        }
    })
}

proof fn lemma_apply_two(v: LedgerView, a: LedgerOp, b: LedgerOp)
    ensures
        v.apply_all(seq![a, b]) == match v.apply(a) {
            Ok(n) => n.apply(b),
            Err(e) => Err(e),
        },
{
    let s = seq![a, b];
    let t = seq![b];
    assert(s[0] == a);
    assert(t[0] == b);
    assert(s.drop_first() =~= t);
    assert(t.drop_first() =~= Seq::<LedgerOp>::empty());
    match v.apply(a) {
        Ok(n) => {
            match n.apply(b) {
                Ok(m) => {
                    assert(m.apply_all(Seq::<LedgerOp>::empty()) == Ok::<LedgerView, Error>(m));
                },
                Err(_) => {},
            }
            assert(n.apply_all(t) == n.apply(b));
        },
        Err(_) => {},
    }
}

proof fn lemma_apply_three(v: LedgerView, a: LedgerOp, b: LedgerOp, c: LedgerOp)
    ensures
        v.apply_all(seq![a, b, c]) == match v.apply(a) {
            Ok(n) => n.apply_all(seq![b, c]),
            Err(e) => Err(e),
        },
{
    assert(seq![a, b, c][0] == a);
    assert(seq![a, b, c].drop_first() =~= seq![b, c]);
}

/// Carries out a provision: the operations before, the liquidity, and the
/// hand-on of the share tokens to the DAO. On any failure nothing changes.
/// Where the ledger is not consistent enough for the hand-on to be sure to
/// succeed (a lock on the provider's share tokens, or the DAO's and the
/// provider's share tokens exceeding their issuance), it fails with
/// `Overflow` before adding liquidity.
pub fn execute_provision<D: DexManager>(cfg: &Config, ledger: &mut Ledger, dex: &mut D, p: &Provision) -> (r: Result<
    (Balance, Balance, Balance),
    Error,
>)
    requires
        provision_wf(*p),
        cfg.dao_account != cfg.pallet_account,
    ensures
        r == provision_result(*cfg, *p, old(ledger)@, *old(dex)),
        r is Err ==> final(ledger)@ == old(ledger)@ && *final(dex) == *old(dex),
        r is Ok ==> provision_done(*cfg, *p, old(dex).pool_account(), old(ledger)@, final(ledger)@, r->Ok_0.0, r->Ok_0.1, r->Ok_0.2),
{
    let ghost v0 = ledger@;
    if p.provider == cfg.dao_account {
        assert(v0.apply_all(pre_ops(*cfg, *p)) == Ok::<LedgerView, Error>(v0));
        return dex.add_liquidity(ledger, p.provider, p.currency_a, p.currency_b, p.amount_a, p.amount_b, 0);
    }
    let op1 = LedgerOp::Deposit(p.currency_a, p.provider, p.mint_governance);
    let op2 = LedgerOp::Transfer(p.currency_b, cfg.dao_account, p.provider, p.stable_from_dao);
    proof {
        lemma_apply_two(v0, op1, op2);
    }
    let s1 = ledger.apply_undoable(op1)?;
    let s2 = match ledger.apply_undoable(op2) {
        Ok(s) => s,
        Err(e) => {
            ledger.undo(s1);
            return Err(e);
        },
    };
    let ghost v1 = ledger@;
    assert(v0.apply_all(pre_ops(*cfg, *p)) == Ok::<LedgerView, Error>(v1));
    let locked = ledger.locked_balance(p.lp, p.provider);
    let held_dao = ledger.free_balance(p.lp, cfg.dao_account);
    let held = ledger.free_balance(p.lp, p.provider);
    let issued = ledger.total_issuance(p.lp);
    if locked != 0 || held_dao > issued || held > issued - held_dao {
        ledger.undo(s2);
        ledger.undo(s1);
        return Err(Error::Overflow);
    }
    let used = match dex.add_liquidity(ledger, p.provider, p.currency_a, p.currency_b, p.amount_a, p.amount_b, 0) {
        Ok(x) => x,
        Err(e) => {
            ledger.undo(s2);
            ledger.undo(s1);
            return Err(e);
        },
    };
    let ghost v2 = ledger@;
    let share = ledger.free_balance(p.lp, p.provider);
    let hand_on = LedgerOp::Transfer(p.lp, p.provider, cfg.dao_account, share);
    proof {
        let (ua, ub, sh) = used;
        let pool = old(dex).pool_account();
        let t1 = LedgerOp::Transfer(p.currency_a, p.provider, pool, ua);
        let t2 = LedgerOp::Transfer(p.currency_b, p.provider, pool, ub);
        let d3 = LedgerOp::Deposit(p.lp, p.provider, sh);
        assert(liquidity_ops(pool, p.provider, p.currency_a, p.currency_b, ua, ub, sh) == seq![t1, t2, d3]);
        lemma_apply_three(v1, t1, t2, d3);
        lemma_apply_two(v1.apply(t1)->Ok_0, t2, d3);
        let u1 = v1.apply(t1)->Ok_0;
        let u2 = u1.apply(t2)->Ok_0;
        assert(u2.apply(d3) == Ok::<LedgerView, Error>(v2));
        lemma_other_currency_frame(v1, t1, p.lp);
        lemma_other_currency_frame(u1, t2, p.lp);
        lemma_deposit_frame(u2, p.lp, p.provider, sh);
        assert(v2.free(p.lp, p.provider) == v1.free(p.lp, p.provider) + sh);
        assert(v2.free(p.lp, cfg.dao_account) == v1.free(p.lp, cfg.dao_account));
        assert(v2.locked(p.lp, p.provider) == 0);
    }
    let h = ledger.apply(hand_on);
    assert(h is Ok);
    Ok(used)
}

impl Pallet {
    /// Runs `strategy` against the differences `diff`: decides the provision
    /// and carries it out. A decision that fails, or that there is nothing to
    /// do, changes nothing; so does any failure in carrying it out.
    pub fn rebalance<D: DexManager>(
        &self,
        ledger: &mut Ledger,
        dex: &mut D,
        prices: &MockPriceProvider,
        strategy: &Strategy,
        diff: &Vec<Option<AllocationDiff>>,
    ) -> (r: Result<(), Error>)
        requires
            self.wf(),
            prices.wf(),
            diff@.len() == CODES,
        ensures
            r is Err ==> final(ledger)@ == old(ledger)@ && *final(dex) == *old(dex),
            match plan_spec(self.config, *strategy, diff@, prices, old(ledger)@) {
                Err(e) => r == Err::<(), Error>(e),
                Ok(None) => r is Ok && final(ledger)@ == old(ledger)@ && *final(dex) == *old(dex),
                Ok(Some(p)) => match provision_result(self.config, p, old(ledger)@, *old(dex)) {
                    Err(e) => r == Err::<(), Error>(e),
                    Ok((ua, ub, sh)) => r is Ok && provision_done(
                        self.config,
                        p,
                        old(dex).pool_account(),
                        old(ledger)@,
                        final(ledger)@,
                        ua,
                        ub,
                        sh,
                    ),
                },
            },
    {
        match self.plan(strategy, diff, prices, ledger)? {
            None => Ok(()),
            Some(p) => {
                proof {
                    lemma_plan_wf(self.config, *strategy, diff@, prices, old(ledger)@);
                }
                match execute_provision(&self.config, ledger, dex, &p) {
                    Ok((ua, ub, sh)) => {
                        assert(provision_done(self.config, p, old(dex).pool_account(), old(ledger)@, ledger@, ua, ub, sh));
                        Ok(())
                    },
                    Err(e) => Err(e),
                }
            },
        }
    }

    /// The per-block hook: at the scheduled blocks, runs the scheduled
    /// strategy against the current differences. Failures change nothing
    /// and are not reported. Returns the number of the strategy run.
    pub fn on_initialize<D: DexManager>(
        &self,
        ledger: &mut Ledger,
        dex: &mut D,
        prices: &MockPriceProvider,
        now: BlockNumber,
    ) -> (r: Option<usize>)
        requires
            self.wf(),
            prices.wf(),
        ensures
            r == match scheduled_spec(now, self.config.rebalance_period, self.config.rebalance_offset, self.strategies@.len()) {
                Some(i) => Some(i as usize),
                None => None::<usize>,
            },
            r is None ==> final(ledger)@ == old(ledger)@ && *final(dex) == *old(dex),
            r is Some ==> match rebalance_decision(self, old(ledger)@, prices, r->Some_0 as int) {
                Ok(Some(p)) => match provision_result(self.config, p, old(ledger)@, *old(dex)) {
                    Ok((ua, ub, sh)) => provision_done(
                        self.config,
                        p,
                        old(dex).pool_account(),
                        old(ledger)@,
                        final(ledger)@,
                        ua,
                        ub,
                        sh,
                    ),
                    Err(_) => final(ledger)@ == old(ledger)@ && *final(dex) == *old(dex),
                },
                _ => final(ledger)@ == old(ledger)@ && *final(dex) == *old(dex),
            },
    {
        let i = scheduled_strategy(now, self.config.rebalance_period, self.config.rebalance_offset, self.strategies.len());
        match i {
            None => None,
            Some(k) => {
                let strategy = self.strategies[k];
                match self.allocation_diff(ledger, prices) {
                    Ok(diff) => {
                        proof {
                            lemma_diff_len(self, ledger@, prices);
                        }
                        let _ = self.rebalance(ledger, dex, prices, &strategy, &diff);
                    },
                    Err(_) => {},
                }
                Some(k)
            },
        }
    }
}

proof fn lemma_plan_wf(cfg: Config, strategy: Strategy, diff: Seq<Option<AllocationDiff>>, prices: &MockPriceProvider, v: LedgerView)
    ensures
        plan_spec(cfg, strategy, diff, prices, v) matches Ok(Some(p)) ==> provision_wf(p),
{
}

proof fn lemma_diff_scan_len(
    tps: Seq<Option<AllocationPercent>>,
    cur: Seq<Option<CurrentAllocation>>,
    total: u128,
    prices: &MockPriceProvider,
    stable: CurrencyId,
    n: nat,
)
    ensures
        diff_scan(tps, cur, total, prices, stable, n) is Ok ==> diff_scan(tps, cur, total, prices, stable, n)->Ok_0.len() == n,
    decreases n,
{
    if n > 0 {
        lemma_diff_scan_len(tps, cur, total, prices, stable, (n - 1) as nat);
    }
}

proof fn lemma_diff_len(m: &Pallet, v: LedgerView, prices: &MockPriceProvider)
    ensures
        current_spec(m.targets@, v, prices, m.config) is Ok ==> {
            let (cur, total) = current_spec(m.targets@, v, prices, m.config)->Ok_0;
            diff_scan(m.target_percents@, cur, total, prices, m.config.stable_currency_id, CODES as nat) is Ok
                ==> diff_scan(m.target_percents@, cur, total, prices, m.config.stable_currency_id, CODES as nat)->Ok_0.len()
                == CODES
        },
{
    if current_spec(m.targets@, v, prices, m.config) is Ok {
        let (cur, total) = current_spec(m.targets@, v, prices, m.config)->Ok_0;
        lemma_diff_scan_len(m.target_percents@, cur, total, prices, m.config.stable_currency_id, CODES as nat);
    }
}

} // verus!
