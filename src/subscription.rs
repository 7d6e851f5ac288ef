//! The subscription engine: finite bonding-curve sales of the governance
//! token for a payment currency, at a discount that rises while a sale is
//! idle and falls with each unit sold.
use crate::fixed::{
    abs_u128, checked_div, checked_mul, fixed_sqrt, mul_div, mul_div_spec, sqrt_floor,
    ACC, ACC_SQRT,
};
use crate::ledger::{is_balance_op, Ledger, LedgerOp, LedgerView};
use crate::oracle::{relative_price_spec, MockPriceProvider};
use crate::types::{accuracy_spec, currency_accuracy, AccountId, Balance, BlockNumber, CurrencyId, Error, Origin, TokenSymbol};
use vstd::hash_map::HashMapWithView;
use vstd::prelude::*;

verus! {

/// Identifies a subscription.
pub type SubscriptionId = u32;

/// One whole governance token: `10^12`, its decimals being 12.
pub const GOVERNANCE_UNIT: u128 = 1_000_000_000_000;

/// How the discount of a subscription moves. Rates are signed fixed-point.
#[derive(Clone, Copy, Debug, PartialEq, Eq, Structural)]
pub struct Discount {
    /// The largest discount.
    pub max: i128,
    /// The number of blocks of one idle interval.
    pub interval: BlockNumber,
    /// The rise of the discount per idle interval.
    pub inc_on_idle: i128,
    /// The fall of the discount per whole governance token sold (may be negative).
    pub dec_per_unit: i128,
}

/// The running state of a subscription.
#[derive(Clone, Copy, Debug, PartialEq, Eq, Structural)]
pub struct SubscriptionState {
    pub total_sold: Balance,
    pub last_sold_at: BlockNumber,
    /// The discount of the last sale (signed fixed-point).
    pub last_discount: i128,
}

/// A sale of governance tokens for `currency_id`.
#[derive(Clone, Copy, Debug, PartialEq, Eq, Structural)]
pub struct Subscription {
    pub currency_id: CurrencyId,
    /// Blocks for which what a subscriber buys stays locked.
    pub vesting_period: BlockNumber,
    /// The least amount one subscribe may buy.
    pub min_amount: Balance,
    /// At least this much payment per governance token (fixed-point).
    pub min_ratio: u128,
    /// The capacity: the most that may be sold in all.
    pub amount: Balance,
    pub discount: Discount,
    pub state: SubscriptionState,
}

pub open spec fn in_i128(x: int) -> bool {
    i128::MIN <= x <= i128::MAX
}

/// The number of whole idle intervals between the last sale and `now`.
pub open spec fn idle_intervals(sub: Subscription, now: BlockNumber) -> int {
    let elapsed = if now >= sub.state.last_sold_at {
        now - sub.state.last_sold_at
    } else {
        0
    };
    elapsed / (sub.discount.interval as int)
}

/// The discount at `now`: `min(last_discount + inc_on_idle * k - dec_per_unit * units, max)`
/// with `k` the idle intervals and `units` the whole tokens sold.
pub open spec fn price_discount_spec(sub: Subscription, now: BlockNumber) -> Result<i128, Error> {
    let d = sub.discount;
    if d.interval == 0 {
        Err(Error::Underflow)
    } else {
        let inc = d.inc_on_idle * idle_intervals(sub, now);
        let units = sub.state.total_sold / GOVERNANCE_UNIT;
        let dec = d.dec_per_unit * units;
        let s1 = sub.state.last_discount + inc;
        let s2 = s1 - dec;
        if !in_i128(inc) {
            Err(Error::Overflow)
        } else if units * ACC > i128::MAX || !in_i128(dec) || !in_i128(s1) {
            Err(Error::Overflow)
        } else if !in_i128(s2) {
            Err(Error::Underflow)
        } else if s2 <= d.max {
            Ok(s2 as i128)
        } else {
            Ok(d.max)
        }
    }
}

/// The discount of a subscription at `now`.
pub fn price_discount(sub: &Subscription, now: BlockNumber) -> (r: Result<i128, Error>)
    ensures
        r == price_discount_spec(*sub, now),
{
    let d = sub.discount;
    if d.interval == 0 {
        return Err(Error::Underflow);
    }
    let elapsed: u64 = if now >= sub.state.last_sold_at {
        now - sub.state.last_sold_at
    } else {
        0
    };
    let k = elapsed / d.interval;
    let inc = match d.inc_on_idle.checked_mul(k as i128) {
        Some(v) => v,
        None => return Err(Error::Overflow),
    };
    let units = sub.state.total_sold / GOVERNANCE_UNIT;
    assert(units < 0x1_0000_0000_0000_0000_0000_0000u128);
    if units > (i128::MAX as u128) / ACC {
        return Err(Error::Overflow);
    }
    assert(units * ACC <= i128::MAX) by (nonlinear_arith)
        requires units <= (i128::MAX as int) / (ACC as int), ACC > 0;
    let dec = match d.dec_per_unit.checked_mul(units as i128) {
        Some(v) => v,
        None => return Err(Error::Overflow),
    };
    let s1 = match sub.state.last_discount.checked_add(inc) {
        Some(v) => v,
        None => return Err(Error::Overflow),
    };
    let s2 = match s1.checked_sub(dec) {
        Some(v) => v,
        None => return Err(Error::Underflow),
    };
    if s2 <= d.max {
        Ok(s2)
    } else {
        Ok(d.max)
    }
}

/// `Some(x)` where `x` fits in 128 bits.
pub open spec fn fits(x: int) -> Option<u128> {
    if 0 <= x <= u128::MAX {
        Some(x as u128)
    } else {
        None
    }
}

/// The amount of governance tokens that `payment` buys at `now` and the
/// discount it is sold at. With `p0 = price_g * (1 - discount)` the start
/// price, `alpha = price_g * |dec_per_unit|` the slope and `v = payment * price_c`
/// the payment's value, the amount solves the area of the linear price curve:
/// `q0 = (sqrt(2 * alpha * v / 10^dec(c) + p0^2) - p0) / alpha`, in whole tokens
/// times `10^12`; it is then capped at `payment / min_ratio`. Every step rounds down.
pub open spec fn quote_spec(
    sub: Subscription,
    payment: Balance,
    now: BlockNumber,
    price_g: Option<u128>,
    price_c: Option<u128>,
) -> Result<(u128, i128), Error> {
    if price_g is None || price_c is None {
        Err(Error::NoPrice)
    } else {
        let pg = price_g->Some_0 as int;
        let pc = price_c->Some_0 as int;
        match price_discount_spec(sub, now) {
            Err(e) => Err(e),
            Ok(pd) => {
                let ratio = ACC - pd;
                let ratio_abs = if ratio >= 0 { ratio } else { -ratio };
                let p0 = mul_div_spec(pg, ratio_abs, ACC as int);
                let pv = mul_div_spec(payment * ACC, pc, ACC as int);
                let dabs = if sub.discount.dec_per_unit >= 0 {
                    sub.discount.dec_per_unit as int
                } else {
                    -sub.discount.dec_per_unit
                };
                let alpha = mul_div_spec(pg, dabs, ACC as int);
                let two_alpha = mul_div_spec(2 * ACC, alpha, ACC as int);
                let x1 = mul_div_spec(two_alpha, pv, ACC as int);
                if !in_i128(ratio) {
                    Err(Error::Underflow)
                } else if p0 > u128::MAX || payment * ACC > u128::MAX || pv > u128::MAX || alpha > u128::MAX {
                    Err(Error::Overflow)
                } else if accuracy_spec(sub.currency_id) is None {
                    Err(Error::NoDecimalsInfo)
                } else if two_alpha > u128::MAX || x1 > u128::MAX {
                    Err(Error::Overflow)
                } else {
                    let acc_c = accuracy_spec(sub.currency_id)->Some_0 as int;
                    let denom = if acc_c * ACC > u128::MAX { u128::MAX as int } else { acc_c * ACC };
                    let x = mul_div_spec(x1, ACC as int, denom);
                    let y = mul_div_spec(p0, p0, ACC as int);
                    let sq = sqrt_floor(x + y) * ACC_SQRT;
                    let amount_fixed = mul_div_spec(sq - p0, ACC as int, alpha);
                    let q0 = amount_fixed * GOVERNANCE_UNIT;
                    let cap = mul_div_spec(payment as int, ACC as int, sub.min_ratio as int);
                    if y > u128::MAX || x + y > u128::MAX {
                        Err(Error::Overflow)
                    } else if sq < p0 {
                        Err(Error::Underflow)
                    } else if alpha == 0 || amount_fixed > u128::MAX {
                        Err(Error::DivisionByZero)
                    } else if q0 > u128::MAX {
                        Err(Error::Overflow)
                    } else if sub.min_ratio == 0 {
                        Err(Error::DivisionByZero)
                    } else if cap > u128::MAX {
                        Err(Error::Overflow)
                    } else if q0 / (ACC as int) <= cap {
                        Ok(((q0 / (ACC as int)) as u128, pd))
                    } else {
                        Ok((cap as u128, pd))
                    }
                }
            },
        }
    }
}

/// The amount of governance tokens that `payment` buys at `now`, and the
/// discount it is sold at, given the prices of the governance token and of
/// the payment currency in the stable currency (`None`: no price).
pub fn subscription_amount(
    sub: &Subscription,
    payment: Balance,
    now: BlockNumber,
    price_g: Option<u128>,
    price_c: Option<u128>,
) -> (r: Result<(u128, i128), Error>)
    ensures
        r == quote_spec(*sub, payment, now, price_g, price_c),
{
    let pg = match price_g {
        Some(p) => p,
        None => return Err(Error::NoPrice),
    };
    let pc = match price_c {
        Some(p) => p,
        None => return Err(Error::NoPrice),
    };
    let pd = price_discount(sub, now)?;
    let ratio = match (ACC as i128).checked_sub(pd) {
        Some(v) => v,
        None => return Err(Error::Underflow),
    };
    let p0 = match checked_mul(pg, abs_u128(ratio)) {
        Some(v) => v,
        None => return Err(Error::Overflow),
    };
    let pay_fixed = match payment.checked_mul(ACC) {
        Some(v) => v,
        None => return Err(Error::Overflow),
    };
    let pv = match checked_mul(pay_fixed, pc) {
        Some(v) => v,
        None => return Err(Error::Overflow),
    };
    let alpha = match checked_mul(pg, abs_u128(sub.discount.dec_per_unit)) {
        Some(v) => v,
        None => return Err(Error::Overflow),
    };
    let acc_c = currency_accuracy(sub.currency_id)?;
    let two_alpha = match checked_mul(2 * ACC, alpha) {
        Some(v) => v,
        None => return Err(Error::Overflow),
    };
    let x1 = match checked_mul(two_alpha, pv) {
        Some(v) => v,
        None => return Err(Error::Overflow),
    };
    let denom = match acc_c.checked_mul(ACC) {
        Some(v) => v,
        None => u128::MAX,
    };
    let x = match mul_div(x1, ACC, denom) {
        Some(v) => v,
        None => return Err(Error::Overflow),
    };
    let y = match checked_mul(p0, p0) {
        Some(v) => v,
        None => return Err(Error::Overflow),
    };
    let z = match x.checked_add(y) {
        Some(v) => v,
        None => return Err(Error::Overflow),
    };
    let sq = fixed_sqrt(z);
    if sq < p0 {
        return Err(Error::Underflow);
    }
    let amount_fixed = match checked_div(sq - p0, alpha) {
        Some(v) => v,
        None => return Err(Error::DivisionByZero),
    };
    let q0 = match amount_fixed.checked_mul(GOVERNANCE_UNIT) {
        Some(v) => v,
        None => return Err(Error::Overflow),
    };
    let receive = q0 / ACC;
    if sub.min_ratio == 0 {
        return Err(Error::DivisionByZero);
    }
    let cap = match mul_div(payment, ACC, sub.min_ratio) {
        Some(v) => v,
        None => return Err(Error::Overflow),
    };
    if receive <= cap {
        Ok((receive, pd))
    } else {
        Ok((cap, pd))
    }
}

/// Mints what a subscriber bought.
pub trait StakedTokenManager: Sized {
    /// The manager can run on a ledger in this state.
    spec fn ready(&self, v: LedgerView) -> bool;

    /// A successful balance operation keeps the manager ready.
    proof fn lemma_ready_after_balance_op(&self, v: LedgerView, op: LedgerOp)
        requires
            self.ready(v),
            is_balance_op(op),
            v.apply(op) is Ok,
        ensures
            self.ready(v.apply(op)->Ok_0),
    ;

    /// `self` is `before` after it minted `amount` for `who` (vesting for
    /// `vesting_period` blocks from `now`), which took the ledger from `v0`
    /// to `v1`.
    spec fn minted(&self, before: Self, v0: LedgerView, v1: LedgerView, who: AccountId, amount: Balance, vesting_period: BlockNumber, now: BlockNumber) -> bool;

    /// The outcome of minting `amount` for `who` (vesting for
    /// `vesting_period` blocks from `now`) on the ledger `v`.
    spec fn mint_result(&self, v: LedgerView, who: AccountId, amount: Balance, vesting_period: BlockNumber, now: BlockNumber) -> Result<(), Error>;

    /// Mints `amount` governance tokens for `who`, vesting for `vesting_period`
    /// blocks from `now`. On failure nothing changes.
    fn mint_for_subscription(
        &mut self,
        ledger: &mut Ledger,
        who: AccountId,
        amount: Balance,
        vesting_period: BlockNumber,
        now: BlockNumber,
    ) -> (r: Result<(), Error>)
        requires
            old(self).ready(old(ledger)@),
        ensures
            final(self).ready(final(ledger)@),
            r == old(self).mint_result(old(ledger)@, who, amount, vesting_period, now),
            r is Err ==> final(ledger)@ == old(ledger)@ && *final(self) == *old(self),
            r is Ok ==> final(self).minted(*old(self), old(ledger)@, final(ledger)@, who, amount, vesting_period, now),
    ;
}

/// What the subscription engine reports.
#[derive(Clone, Copy, Debug, PartialEq, Eq, Structural)]
pub enum Event {
    SubscriptionCreated { id: SubscriptionId, subscription: Subscription },
    SubscriptionUpdated { id: SubscriptionId },
    SubscriptionClosed { id: SubscriptionId },
    Subscribed { who: AccountId, subscription_id: SubscriptionId, payment_amount: Balance, subscription_amount: Balance },
}

/// The subscription engine.
pub struct Pallet {
    /// The engine's own account, which receives the payments.
    pub pallet_account: AccountId,
    /// The currency prices are quoted in.
    pub stable_currency_id: CurrencyId,
    /// The id the next subscription gets.
    pub next_id: SubscriptionId,
    pub subscriptions: HashMapWithView<SubscriptionId, Subscription>,
    /// The events, oldest first.
    pub events: Vec<Event>,
}

/// `sub` after selling `q` at `now` with discount `pd`.
pub open spec fn sold(sub: Subscription, q: u128, now: BlockNumber, pd: i128) -> Subscription {
    Subscription {
        state: SubscriptionState { total_sold: (sub.state.total_sold + q) as u128, last_sold_at: now, last_discount: pd },
        ..sub
    }
}

/// What is left of the capacity, zero where it is exceeded.
pub open spec fn remaining(sub: Subscription) -> int {
    if sub.amount >= sub.state.total_sold {
        sub.amount - sub.state.total_sold
    } else {
        0
    }
}

/// What a subscribe of `payment` decides before any transfer: the amount
/// sold and the new discount, or the error.
pub open spec fn subscribe_decision(
    sub: Subscription,
    payment: Balance,
    min_target: Balance,
    now: BlockNumber,
    price_g: Option<u128>,
    price_c: Option<u128>,
) -> Result<(u128, i128), Error> {
    match quote_spec(sub, payment, now, price_g, price_c) {
        Err(e) => Err(e),
        Ok((q, pd)) => if q < sub.min_amount {
            Err(Error::BelowMinSubscriptionAmount)
        } else if q > remaining(sub) {
            Err(Error::SubscriptionIsFull)
        } else if q < min_target {
            Err(Error::BelowMinTargetAmount)
        } else {
            Ok((q, pd))
        },
    }
}

impl Pallet {
    /// A subscription engine with no subscriptions.
    pub fn new(pallet_account: AccountId, stable_currency_id: CurrencyId) -> (r: Pallet)
        ensures
            r.pallet_account == pallet_account,
            r.stable_currency_id == stable_currency_id,
            r.next_id == 0,
            r.subscriptions@ == Map::<SubscriptionId, Subscription>::empty(),
            r.events@ == Seq::<Event>::empty(),
    {
        Pallet {
            pallet_account,
            stable_currency_id,
            next_id: 0,
            subscriptions: HashMapWithView::new(),
            events: Vec::new(),
        }
    }

    /// Opens a subscription under the next id, with nothing sold, last sold
    /// at `now` and no discount; root only.
    pub fn create_subscription(
        &mut self,
        origin: Origin,
        currency_id: CurrencyId,
        vesting_period: BlockNumber,
        min_amount: Balance,
        min_ratio: u128,
        amount: Balance,
        discount: Discount,
        now: BlockNumber,
    ) -> (r: Result<(), Error>)
        ensures
            final(self).pallet_account == old(self).pallet_account,
            final(self).stable_currency_id == old(self).stable_currency_id,
            ({
                let sub = Subscription {
                    currency_id,
                    vesting_period,
                    min_amount,
                    min_ratio,
                    amount,
                    discount,
                    state: SubscriptionState { total_sold: 0, last_sold_at: now, last_discount: 0 },
                };
                if origin != Origin::Root {
                    r == Err::<(), Error>(Error::BadOrigin) && final(self).unchanged(*old(self))
                } else if old(self).next_id == u32::MAX {
                    r == Err::<(), Error>(Error::Overflow) && final(self).unchanged(*old(self))
                } else {
                    &&& r is Ok
                    &&& final(self).next_id == old(self).next_id + 1
                    &&& final(self).subscriptions@ == old(self).subscriptions@.insert(old(self).next_id, sub)
                    &&& final(self).events@ == old(self).events@.push(
                        Event::SubscriptionCreated { id: old(self).next_id, subscription: sub },
                    )
                }
            }),
    {
        if origin != Origin::Root {
            return Err(Error::BadOrigin);
        }
        let id = self.next_id;
        if id == u32::MAX {
            return Err(Error::Overflow);
        }
        self.next_id = id + 1;
        let sub = Subscription {
            currency_id,
            vesting_period,
            min_amount,
            min_ratio,
            amount,
            discount,
            state: SubscriptionState { total_sold: 0, last_sold_at: now, last_discount: 0 },
        };
        self.subscriptions.insert(id, sub);
        self.events.push(Event::SubscriptionCreated { id, subscription: sub });
        Ok(())
    }

    /// Nothing but the next id may differ from `other`.
    pub open spec fn unchanged(&self, other: Pallet) -> bool {
        &&& self.next_id == other.next_id
        &&& self.subscriptions@ == other.subscriptions@
        &&& self.events@ == other.events@
    }

    /// Replaces each given field of a subscription; root only. Fails with
    /// `SubscriptionIsFull`, changing nothing, where the capacity would then
    /// be below what is already sold.
    pub fn update_subscription(
        &mut self,
        origin: Origin,
        id: SubscriptionId,
        vesting_period: Option<BlockNumber>,
        min_amount: Option<Balance>,
        min_ratio: Option<u128>,
        amount: Option<Balance>,
        discount: Option<Discount>,
    ) -> (r: Result<(), Error>)
        ensures
            final(self).pallet_account == old(self).pallet_account,
            final(self).stable_currency_id == old(self).stable_currency_id,
            final(self).next_id == old(self).next_id,
            if origin != Origin::Root {
                r == Err::<(), Error>(Error::BadOrigin) && final(self).unchanged(*old(self))
            } else if !old(self).subscriptions@.contains_key(id) {
                r == Err::<(), Error>(Error::SubscriptionNotFound) && final(self).unchanged(*old(self))
            } else if (match amount { Some(v) => v, None => old(self).subscriptions@[id].amount })
                < old(self).subscriptions@[id].state.total_sold {
                r == Err::<(), Error>(Error::SubscriptionIsFull) && final(self).unchanged(*old(self))
            } else {
                let s = old(self).subscriptions@[id];
                &&& r is Ok
                &&& final(self).subscriptions@ == old(self).subscriptions@.insert(
                    id,
                    Subscription {
                        vesting_period: match vesting_period { Some(v) => v, None => s.vesting_period },
                        min_amount: match min_amount { Some(v) => v, None => s.min_amount },
                        min_ratio: match min_ratio { Some(v) => v, None => s.min_ratio },
                        amount: match amount { Some(v) => v, None => s.amount },
                        discount: match discount { Some(v) => v, None => s.discount },
                        ..s
                    },
                )
                &&& final(self).events@ == old(self).events@.push(Event::SubscriptionUpdated { id })
            },
            r is Ok ==> final(self).subscriptions@[id].state.total_sold <= final(self).subscriptions@[id].amount,
    {
        if origin != Origin::Root {
            return Err(Error::BadOrigin);
        }
        let mut s = match self.subscriptions.get(&id) {
            Some(s) => *s,
            None => return Err(Error::SubscriptionNotFound),
        };
        if let Some(v) = vesting_period {
            s.vesting_period = v;
        }
        if let Some(v) = min_amount {
            s.min_amount = v;
        }
        if let Some(v) = min_ratio {
            s.min_ratio = v;
        }
        if let Some(v) = amount {
            s.amount = v;
        }
        if let Some(v) = discount {
            s.discount = v;
        }
        if s.amount < s.state.total_sold {
            return Err(Error::SubscriptionIsFull);
        }
        self.subscriptions.insert(id, s);
        self.events.push(Event::SubscriptionUpdated { id });
        Ok(())
    }

    /// Removes a subscription; root only.
    pub fn close_subscription(&mut self, origin: Origin, id: SubscriptionId) -> (r: Result<(), Error>)
        ensures
            final(self).pallet_account == old(self).pallet_account,
            final(self).stable_currency_id == old(self).stable_currency_id,
            final(self).next_id == old(self).next_id,
            if origin != Origin::Root {
                r == Err::<(), Error>(Error::BadOrigin) && final(self).unchanged(*old(self))
            } else if !old(self).subscriptions@.contains_key(id) {
                r == Err::<(), Error>(Error::SubscriptionNotFound) && final(self).unchanged(*old(self))
            } else {
                &&& r is Ok
                &&& final(self).subscriptions@ == old(self).subscriptions@.remove(id)
                &&& final(self).events@ == old(self).events@.push(Event::SubscriptionClosed { id })
            },
    {
        if origin != Origin::Root {
            return Err(Error::BadOrigin);
        }
        match self.subscriptions.remove(&id) {
            Some(_) => {},
            None => {
                assert(self.subscriptions@ =~= old(self).subscriptions@);
                return Err(Error::SubscriptionNotFound);
            },
        }
        self.events.push(Event::SubscriptionClosed { id });
        Ok(())
    }

    /// Buys from subscription `id` with `payment` of its currency for the
    /// signed caller: quotes the amount at the oracle's prices, checks it
    /// against the subscription's minimum, its remaining capacity and the
    /// caller's `min_target`, records the sale, takes the payment into the
    /// engine's account and has `staked` mint the amount for the caller,
    /// vesting for the subscription's vesting period. On failure nothing
    /// changes, the minter included.
    pub fn subscribe<M: StakedTokenManager>(
        &mut self,
        ledger: &mut Ledger,
        staked: &mut M,
        prices: &MockPriceProvider,
        origin: Origin,
        id: SubscriptionId,
        payment: Balance,
        min_target: Balance,
        now: BlockNumber,
    ) -> (r: Result<(), Error>)
        requires
            old(staked).ready(old(ledger)@),
            prices.wf(),
        ensures
            final(staked).ready(final(ledger)@),
            final(self).pallet_account == old(self).pallet_account,
            final(self).stable_currency_id == old(self).stable_currency_id,
            final(self).next_id == old(self).next_id,
            r is Err ==> final(self).unchanged(*old(self)) && final(ledger)@ == old(ledger)@ && *final(staked)
                == *old(staked),
            match origin {
                Origin::Root => r == Err::<(), Error>(Error::BadOrigin),
                Origin::Signed(who) => if !old(self).subscriptions@.contains_key(id) {
                    r == Err::<(), Error>(Error::SubscriptionNotFound)
                } else {
                    let sub = old(self).subscriptions@[id];
                    let stable = old(self).stable_currency_id;
                    match subscribe_decision(
                        sub,
                        payment,
                        min_target,
                        now,
                        relative_price_spec(prices.price(CurrencyId::Token(TokenSymbol::ADAO)), prices.price(stable)),
                        relative_price_spec(prices.price(sub.currency_id), prices.price(stable)),
                    ) {
                        Err(e) => r == Err::<(), Error>(e),
                        Ok((q, pd)) => match old(ledger)@.transfer(sub.currency_id, who, old(self).pallet_account, payment) {
                            Err(e) => r == Err::<(), Error>(e),
                            Ok(v1) => match old(staked).mint_result(v1, who, q, sub.vesting_period, now) {
                                Err(e) => r == Err::<(), Error>(e),
                                Ok(_) => r is Ok && {
                                &&& final(staked).minted(*old(staked), v1, final(ledger)@, who, q, sub.vesting_period, now)
                                &&& final(self).subscriptions@ == old(self).subscriptions@.insert(id, sold(sub, q, now, pd))
                                &&& final(self).events@ == old(self).events@.push(
                                    Event::Subscribed {
                                        who,
                                        subscription_id: id,
                                        payment_amount: payment,
                                        subscription_amount: q,
                                    },
                                )
                                &&& sub.state.total_sold <= sub.amount ==> sold(sub, q, now, pd).state.total_sold
                                    <= sub.amount
                                },
                            },
                        },
                    }
                },
            },
    {
        let who = match origin {
            Origin::Signed(w) => w,
            Origin::Root => return Err(Error::BadOrigin),
        };
        let sub = match self.subscriptions.get(&id) {
            Some(s) => *s,
            None => return Err(Error::SubscriptionNotFound),
        };
        let price_g = prices.get_relative_price(CurrencyId::Token(TokenSymbol::ADAO), self.stable_currency_id);
        let price_c = prices.get_relative_price(sub.currency_id, self.stable_currency_id);
        let (q, pd) = subscription_amount(&sub, payment, now, price_g, price_c)?;
        if q < sub.min_amount {
            return Err(Error::BelowMinSubscriptionAmount);
        }
        let left = if sub.amount >= sub.state.total_sold {
            sub.amount - sub.state.total_sold
        } else {
            0
        };
        if q > left {
            return Err(Error::SubscriptionIsFull);
        }
        if q < min_target {
            return Err(Error::BelowMinTargetAmount);
        }
        let op = LedgerOp::Transfer(sub.currency_id, who, self.pallet_account, payment);
        let ghost v0 = ledger@;
        let snap = ledger.apply_undoable(op)?;
        let ghost v1 = ledger@;
        let ghost staked0 = *staked;
        assert(v0.transfer(sub.currency_id, who, self.pallet_account, payment) == Ok::<LedgerView, Error>(v1));
        proof {
            staked.lemma_ready_after_balance_op(v0, op);
        }
        let minted = staked.mint_for_subscription(ledger, who, q, sub.vesting_period, now);
        assert(minted == staked0.mint_result(v1, who, q, sub.vesting_period, now));
        match minted {
            Ok(()) => {},
            Err(e) => {
                ledger.undo(snap);
                return Err(e);
            },
        }
        let new_sub = Subscription {
            state: SubscriptionState { total_sold: sub.state.total_sold + q, last_sold_at: now, last_discount: pd },
            ..sub
        };
        self.subscriptions.insert(id, new_sub);
        self.events.push(
            Event::Subscribed { who, subscription_id: id, payment_amount: payment, subscription_amount: q },
        );
        Ok(())
    }
}

} // verus!
