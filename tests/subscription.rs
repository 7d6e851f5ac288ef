use aqua_dao::fixed::{saturating_from_rational, ACC};
use aqua_dao::ledger::{Ledger, LedgerOp};
use aqua_dao::oracle::MockPriceProvider;
use aqua_dao::subscription::{
    subscription_amount, Discount, Subscription, Event, SubscriptionState, Pallet,
};
use aqua_dao::support::{dollar, MockBlockNumberProvider, MockStakedToken};
use aqua_dao::types::{AccountId, CurrencyId, Error, Origin, TokenSymbol};

const ALICE: AccountId = 1;
const PALLET: AccountId = 101;
const UNITS: u128 = 1_000_000;

const AUSD: CurrencyId = CurrencyId::Token(TokenSymbol::AUSD);
const ADAO: CurrencyId = CurrencyId::Token(TokenSymbol::ADAO);
const DOT: CurrencyId = CurrencyId::Token(TokenSymbol::DOT);

fn rate(n: u128, d: u128) -> i128 {
    saturating_from_rational(n, d) as i128
}

fn default_discount() -> Discount {
    Discount { max: rate(2, 10), interval: 1, inc_on_idle: rate(1, 1_000), dec_per_unit: rate(20, UNITS * 100) }
}

fn prices() -> MockPriceProvider {
    let mut p = MockPriceProvider::new();
    p.set_price(AUSD, Some(ACC));
    p.set_price(DOT, Some(ACC));
    p.set_price(ADAO, Some(ACC));
    p
}

fn funded_ledger() -> Ledger {
    let mut ledger = Ledger::new();
    ledger.apply(LedgerOp::Deposit(AUSD, ALICE, 2_000_000 * dollar(AUSD))).unwrap();
    ledger
}

fn create_default_subscription(subs: &mut Pallet, now: u64) -> Result<(), Error> {
    subs.create_subscription(
        Origin::Root,
        AUSD,
        1_000,
        dollar(ADAO) * 10,
        saturating_from_rational(1, 10),
        dollar(ADAO) * UNITS,
        default_discount(),
        now,
    )
}

fn set_last_discount(subs: &mut Pallet, id: u32, d: i128) {
    let mut s = *subs.subscriptions.get(&id).unwrap();
    s.state.last_discount = d;
    subs.subscriptions.insert(id, s);
}

#[test]
fn create_subscription_works() {
    let mut subs = Pallet::new(PALLET, AUSD);
    assert_eq!(create_default_subscription(&mut subs, 1), Ok(()));
    assert_eq!(
        subs.events.last(),
        Some(&Event::SubscriptionCreated {
            id: 0,
            subscription: Subscription {
                currency_id: AUSD,
                vesting_period: 1_000,
                min_amount: dollar(ADAO) * 10,
                min_ratio: saturating_from_rational(1, 10),
                amount: dollar(ADAO) * UNITS,
                discount: default_discount(),
                state: SubscriptionState { total_sold: 0, last_sold_at: 1, last_discount: 0 },
            },
        })
    );
    assert_eq!(subs.next_id, 1);
}

#[test]
fn create_subscription_fails_if_not_required_origin() {
    let mut subs = Pallet::new(PALLET, AUSD);
    assert_eq!(
        subs.create_subscription(
            Origin::Signed(ALICE),
            AUSD,
            1_000,
            dollar(ADAO) * 10,
            saturating_from_rational(1, 10),
            dollar(ADAO) * UNITS,
            default_discount(),
            1,
        ),
        Err(Error::BadOrigin)
    );
    assert_eq!(subs.next_id, 0);
}

#[test]
pub fn update_subscription_works() {
    let mut subs = Pallet::new(PALLET, AUSD);
    assert_eq!(create_default_subscription(&mut subs, 1), Ok(()));
    let new_discount = Discount { max: ACC as i128, interval: 1, inc_on_idle: ACC as i128, dec_per_unit: ACC as i128 };
    assert_eq!(
        subs.update_subscription(Origin::Root, 0, Some(1), Some(1), Some(ACC), Some(0), Some(new_discount)),
        Ok(())
    );
    assert_eq!(
        subs.subscriptions.get(&0).copied(),
        Some(Subscription {
            currency_id: AUSD,
            vesting_period: 1,
            min_amount: 1,
            min_ratio: ACC,
            amount: 0,
            discount: new_discount,
            state: SubscriptionState { total_sold: 0, last_sold_at: 1, last_discount: 0 },
        })
    );
    assert_eq!(subs.events.last(), Some(&Event::SubscriptionUpdated { id: 0 }));
}

#[test]
fn update_subscription_fails_if_not_required_origin() {
    let mut subs = Pallet::new(PALLET, AUSD);
    assert_eq!(create_default_subscription(&mut subs, 1), Ok(()));
    assert_eq!(
        subs.update_subscription(Origin::Signed(ALICE), 0, Some(1), None, None, None, None),
        Err(Error::BadOrigin)
    );
    assert_eq!(subs.update_subscription(Origin::Root, 7, Some(1), None, None, None, None), Err(Error::SubscriptionNotFound));
}

#[test]
fn close_subscription_works() {
    let mut subs = Pallet::new(PALLET, AUSD);
    assert_eq!(create_default_subscription(&mut subs, 1), Ok(()));
    assert_eq!(subs.close_subscription(Origin::Root, 0), Ok(()));
    assert_eq!(subs.events.last(), Some(&Event::SubscriptionClosed { id: 0 }));
    assert!(subs.subscriptions.get(&0).is_none());
}

#[test]
fn close_subscription_fails_if_not_required_origin() {
    let mut subs = Pallet::new(PALLET, AUSD);
    assert_eq!(create_default_subscription(&mut subs, 1), Ok(()));
    assert_eq!(subs.close_subscription(Origin::Signed(ALICE), 0), Err(Error::BadOrigin));
    assert_eq!(subs.close_subscription(Origin::Root, 3), Err(Error::SubscriptionNotFound));
}

#[test]
fn subscribe_works() {
    let mut ledger = funded_ledger();
    let mut minter = MockStakedToken::new();
    let mut subs = Pallet::new(PALLET, AUSD);
    assert_eq!(create_default_subscription(&mut subs, 1), Ok(()));
    set_last_discount(&mut subs, 0, rate(5, 100));

    let payment_amount = dollar(AUSD) * 100;
    assert_eq!(
        subs.subscribe(&mut ledger, &mut minter, &prices(), Origin::Signed(ALICE), 0, payment_amount, 0, 1),
        Ok(())
    );

    let s = *subs.subscriptions.get(&0).unwrap();
    assert_eq!(s.state.total_sold, 105_260_000_000_000);
    assert_eq!(s.state.last_sold_at, 1);
    assert_eq!(s.state.last_discount, rate(5, 100));
    assert_eq!(ledger.free_balance(AUSD, ALICE), 1_999_900 * dollar(AUSD));
    assert_eq!(ledger.free_balance(AUSD, PALLET), payment_amount);
    assert_eq!(minter.minted(), (105_260_000_000_000, 1_000));
    assert_eq!(
        subs.events.last(),
        Some(&Event::Subscribed {
            who: ALICE,
            subscription_id: 0,
            payment_amount,
            subscription_amount: 105_260_000_000_000,
        })
    );
}

fn subscribed_amount(subs: &Pallet) -> u128 {
    match subs.events.last() {
        Some(Event::Subscribed { subscription_amount, .. }) => *subscription_amount,
        _ => panic!("no subscription"),
    }
}

#[test]
fn no_discount_increase_on_subscribe_within_interval() {
    let mut ledger = funded_ledger();
    let mut minter = MockStakedToken::new();
    let mut clock = MockBlockNumberProvider::new();
    let mut subs = Pallet::new(PALLET, AUSD);
    assert_eq!(
        subs.create_subscription(
            Origin::Root,
            AUSD,
            1_000,
            dollar(ADAO) * 10,
            saturating_from_rational(1, 10),
            dollar(ADAO) * UNITS,
            Discount { max: rate(1, 2), interval: 1_000, inc_on_idle: rate(1, 2), dec_per_unit: rate(20, UNITS * 100) },
            clock.current_block_number(),
        ),
        Ok(())
    );
    let p = prices();
    let payment_amount = dollar(AUSD) * 100;
    assert_eq!(
        subs.subscribe(&mut ledger, &mut minter, &p, Origin::Signed(ALICE), 0, payment_amount, 0, clock.current_block_number()),
        Ok(())
    );
    assert_eq!(subscribed_amount(&subs), 99_995_000_000_000);

    // no discount on new subscription within interval
    clock.set_block_number(998);
    assert_eq!(
        subs.subscribe(&mut ledger, &mut minter, &p, Origin::Signed(ALICE), 0, payment_amount, 0, clock.current_block_number()),
        Ok(())
    );
    assert_eq!(subscribed_amount(&subs), 99_995_000_000_000);

    // discount increases
    clock.set_block_number(2000);
    assert_eq!(
        subs.subscribe(&mut ledger, &mut minter, &p, Origin::Signed(ALICE), 0, payment_amount, 0, clock.current_block_number()),
        Ok(())
    );
    assert_eq!(subscribed_amount(&subs), 199_965_000_000_000);
}

#[test]
fn subscribe_with_below_min_ratio_works() {
    let mut ledger = funded_ledger();
    let mut minter = MockStakedToken::new();
    let mut subs = Pallet::new(PALLET, AUSD);
    // min_ratio is 1
    assert_eq!(
        subs.create_subscription(Origin::Root, AUSD, 1_000, dollar(ADAO) * 10, ACC, dollar(ADAO) * UNITS, default_discount(), 1),
        Ok(())
    );
    set_last_discount(&mut subs, 0, rate(5, 100));
    let payment_amount = dollar(AUSD) * 100;
    assert_eq!(
        subs.subscribe(&mut ledger, &mut minter, &prices(), Origin::Signed(ALICE), 0, payment_amount, 0, 1),
        Ok(())
    );
    assert_eq!(subscribed_amount(&subs), dollar(ADAO) * 100);
}

#[test]
fn subscribe_fails_if_below_min_amount() {
    let mut ledger = funded_ledger();
    let mut minter = MockStakedToken::new();
    let mut subs = Pallet::new(PALLET, AUSD);
    assert_eq!(create_default_subscription(&mut subs, 1), Ok(()));
    let payment_amount = dollar(AUSD) * 1;
    assert_eq!(
        subs.subscribe(&mut ledger, &mut minter, &prices(), Origin::Signed(ALICE), 0, payment_amount, 0, 1),
        Err(Error::BelowMinSubscriptionAmount)
    );
    assert_eq!(ledger.free_balance(AUSD, ALICE), 2_000_000 * dollar(AUSD));
}

#[test]
fn subscribe_fails_if_full() {
    let mut ledger = funded_ledger();
    let mut minter = MockStakedToken::new();
    let mut subs = Pallet::new(PALLET, AUSD);
    assert_eq!(create_default_subscription(&mut subs, 1), Ok(()));
    let mut s = *subs.subscriptions.get(&0).unwrap();
    s.state.total_sold = dollar(ADAO) * UNITS;
    subs.subscriptions.insert(0, s);
    let payment_amount = dollar(AUSD) * 100;
    assert_eq!(
        subs.subscribe(&mut ledger, &mut minter, &prices(), Origin::Signed(ALICE), 0, payment_amount, 0, 1),
        Err(Error::SubscriptionIsFull)
    );
}

#[test]
fn subscribe_fails_if_below_target_amount() {
    let mut ledger = funded_ledger();
    let mut minter = MockStakedToken::new();
    let mut subs = Pallet::new(PALLET, AUSD);
    assert_eq!(create_default_subscription(&mut subs, 1), Ok(()));
    set_last_discount(&mut subs, 0, rate(5, 100));
    let payment_amount = dollar(AUSD) * 10;
    assert_eq!(
        subs.subscribe(&mut ledger, &mut minter, &prices(), Origin::Signed(ALICE), 0, payment_amount, dollar(ADAO) * 100, 1),
        Err(Error::BelowMinTargetAmount)
    );
}

#[test]
fn subscribe_fails_without_price_or_subscription() {
    let mut ledger = funded_ledger();
    let mut minter = MockStakedToken::new();
    let mut subs = Pallet::new(PALLET, AUSD);
    assert_eq!(create_default_subscription(&mut subs, 1), Ok(()));
    let mut p = prices();
    p.set_price(ADAO, None);
    assert_eq!(
        subs.subscribe(&mut ledger, &mut minter, &p, Origin::Signed(ALICE), 0, dollar(AUSD), 0, 1),
        Err(Error::NoPrice)
    );
    assert_eq!(
        subs.subscribe(&mut ledger, &mut minter, &prices(), Origin::Signed(ALICE), 9, dollar(AUSD), 0, 1),
        Err(Error::SubscriptionNotFound)
    );
    assert_eq!(
        subs.subscribe(&mut ledger, &mut minter, &prices(), Origin::Root, 0, dollar(AUSD), 0, 1),
        Err(Error::BadOrigin)
    );
}

fn plain_subscription(last_discount: i128) -> Subscription {
    Subscription {
        currency_id: AUSD,
        vesting_period: 10,
        min_amount: 0,
        min_ratio: 1,
        amount: u128::MAX,
        discount: Discount { max: rate(1, 2), interval: 1, inc_on_idle: 0, dec_per_unit: rate(20, 100_000_000) },
        state: SubscriptionState { total_sold: 0, last_sold_at: 1, last_discount },
    }
}

#[test]
fn quote_at_zero_discount() {
    let sub = plain_subscription(0);
    let q = subscription_amount(&sub, 100 * dollar(AUSD), 1, Some(ACC), Some(ACC)).unwrap();
    assert_eq!(q, (99_995_000_000_000, 0));
}

#[test]
fn quote_grows_with_payment_and_discount() {
    let sub = plain_subscription(0);
    let (q1, _) = subscription_amount(&sub, 100 * dollar(AUSD), 1, Some(ACC), Some(ACC)).unwrap();
    let (q2, _) = subscription_amount(&sub, 200 * dollar(AUSD), 1, Some(ACC), Some(ACC)).unwrap();
    assert!(q2 >= q1);
    let discounted = plain_subscription(rate(1, 10));
    let (q3, d) = subscription_amount(&discounted, 100 * dollar(AUSD), 1, Some(ACC), Some(ACC)).unwrap();
    assert_eq!(d, rate(1, 10));
    assert!(q3 > q1);
}

#[test]
fn quote_errors() {
    let sub = plain_subscription(0);
    assert_eq!(subscription_amount(&sub, 1, 1, None, Some(ACC)), Err(Error::NoPrice));
    let mut no_interval = sub;
    no_interval.discount.interval = 0;
    assert_eq!(subscription_amount(&no_interval, 1, 1, Some(ACC), Some(ACC)), Err(Error::Underflow));
    let mut flat = sub;
    flat.discount.dec_per_unit = 0;
    assert_eq!(subscription_amount(&flat, 1, 1, Some(ACC), Some(ACC)), Err(Error::DivisionByZero));
    let mut share = sub;
    share.currency_id = CurrencyId::DexShare(TokenSymbol::ACA, TokenSymbol::AUSD);
    assert_eq!(subscription_amount(&share, 1, 1, Some(ACC), Some(ACC)), Err(Error::NoDecimalsInfo));
    let mut no_ratio = sub;
    no_ratio.min_ratio = 0;
    assert_eq!(subscription_amount(&no_ratio, 1, 1, Some(ACC), Some(ACC)), Err(Error::DivisionByZero));
    assert_eq!(subscription_amount(&sub, u128::MAX, 1, Some(ACC), Some(ACC)), Err(Error::Overflow));
}

#[test]
fn dollar_units() {
    assert_eq!(dollar(AUSD), 1_000_000_000_000);
    assert_eq!(dollar(DOT), 10_000_000_000);
}

#[test]
fn subscribe_keeps_sales_within_capacity() {
    let mut ledger = funded_ledger();
    let mut minter = MockStakedToken::new();
    let mut subs = Pallet::new(PALLET, AUSD);
    let mut sub = plain_subscription(0);
    sub.amount = 99_995_000_000_000;
    assert_eq!(
        subs.create_subscription(Origin::Root, AUSD, 10, 0, 1, sub.amount, sub.discount, 1),
        Ok(())
    );
    let payment_amount = dollar(AUSD) * 100;
    assert_eq!(
        subs.subscribe(&mut ledger, &mut minter, &prices(), Origin::Signed(ALICE), 0, payment_amount, 0, 1),
        Ok(())
    );
    let s = *subs.subscriptions.get(&0).unwrap();
    assert_eq!(s.state.total_sold, s.amount);
    assert_eq!(
        subs.subscribe(&mut ledger, &mut minter, &prices(), Origin::Signed(ALICE), 0, payment_amount, 0, 1),
        Err(Error::SubscriptionIsFull)
    );
    assert_eq!(subs.subscriptions.get(&0).unwrap().state.total_sold, s.amount);
}

#[test]
fn cap_divides_by_min_ratio() {
    let mut sub = plain_subscription(0);
    sub.min_ratio = saturating_from_rational(3, 10);
    let q = subscription_amount(&sub, 3 * dollar(AUSD), 1, Some(ACC), Some(10 * ACC)).unwrap();
    assert_eq!(q.0, 10 * dollar(ADAO));
}

#[test]
fn update_subscription_keeps_capacity_above_sold() {
    let mut subs = Pallet::new(PALLET, AUSD);
    assert_eq!(create_default_subscription(&mut subs, 1), Ok(()));
    let mut s = *subs.subscriptions.get(&0).unwrap();
    s.state.total_sold = 10;
    s.amount = 20;
    subs.subscriptions.insert(0, s);
    assert_eq!(
        subs.update_subscription(Origin::Root, 0, None, None, None, Some(5), None),
        Err(Error::SubscriptionIsFull)
    );
    assert_eq!(subs.subscriptions.get(&0).unwrap().amount, 20);
    assert_eq!(subs.update_subscription(Origin::Root, 0, None, None, None, Some(10), None), Ok(()));
    assert_eq!(subs.subscriptions.get(&0).unwrap().amount, 10);
}
