use aqua_dao::fixed::{saturating_from_rational, ACC};
use aqua_dao::ledger::{Ledger, LedgerOp};
use aqua_dao::staked::{Config, Event, Pallet};
use aqua_dao::subscription::StakedTokenManager;
use aqua_dao::support::ExtBuilder;
use aqua_dao::types::{AccountId, Balance, CurrencyId, Error, Origin, TokenSymbol};

const ALICE: AccountId = 1;
const BOB: AccountId = 2;
const DAO_ACCOUNT: AccountId = 10;
const TREASURY_ACCOUNT: AccountId = 20;
const PALLET: AccountId = 100;

const ADAO: CurrencyId = CurrencyId::Token(TokenSymbol::ADAO);
const SDAO: CurrencyId = CurrencyId::Token(TokenSymbol::SDAO);

fn config() -> Config {
    Config {
        treasury_share: saturating_from_rational(1, 10),
        dao_share: saturating_from_rational(1, 10),
        default_exchange_rate: ACC,
        inflation_period: 100,
        inflation_rate: ACC,
        pallet_account: PALLET,
        fee_dest_account: TREASURY_ACCOUNT,
        dao_account: DAO_ACCOUNT,
        reward_dest_account: TREASURY_ACCOUNT,
        max_vesting_chunks: 5,
    }
}

fn setup(balances: &[(AccountId, CurrencyId, Balance)]) -> (Ledger, Pallet) {
    let ledger = ExtBuilder::default().balances(balances.to_vec()).build().unwrap();
    (ledger, Pallet::new(config()))
}

#[test]
fn stake_works() {
    // exchange rate: 1 staked = 10 governance
    let (mut ledger, mut st) = setup(&[(ALICE, ADAO, 100), (BOB, SDAO, 10), (PALLET, ADAO, 100)]);

    assert_eq!(st.stake(&mut ledger, Origin::Signed(ALICE), 0), Ok(()));
    assert_eq!(st.events.len(), 0);

    assert_eq!(st.stake(&mut ledger, Origin::Signed(ALICE), 20), Ok(()));
    assert_eq!(ledger.free_balance(ADAO, ALICE), 80);
    assert_eq!(ledger.free_balance(SDAO, ALICE), 2);
    assert_eq!(ledger.free_balance(ADAO, PALLET), 120);
    assert_eq!(ledger.total_issuance(SDAO), 12);
    assert_eq!(st.events.last(), Some(&Event::Staked { who: ALICE, amount: 20, received: 2 }));
}

#[test]
fn unstake_works() {
    let (mut ledger, mut st) = setup(&[(ALICE, SDAO, 20), (BOB, SDAO, 30), (PALLET, ADAO, 500)]);

    assert_eq!(st.update_unstake_fee_rate(Origin::Root, saturating_from_rational(1, 10)), Ok(()));

    assert_eq!(st.unstake(&mut ledger, Origin::Signed(ALICE), 10), Ok(()));
    assert_eq!(ledger.free_balance(SDAO, ALICE), 10);
    assert_eq!(ledger.free_balance(ADAO, ALICE), 90);
    assert_eq!(ledger.free_balance(ADAO, TREASURY_ACCOUNT), 10);
    assert_eq!(st.events.last(), Some(&Event::Unstaked { who: ALICE, amount: 10, received: 90 }));
}

#[test]
fn claim_works() {
    // exchange rate: 1 staked = 10 governance
    let (mut ledger, mut st) = setup(&[(BOB, SDAO, 10), (PALLET, ADAO, 100)]);

    assert_eq!(st.mint_for_subscription(&mut ledger, ALICE, 100, 10, 1), Ok(()));

    assert_eq!(st.claim(&mut ledger, Origin::Signed(ALICE), 11), Ok(()));
    assert_eq!(ledger.free_balance(SDAO, ALICE), 10);
    assert_eq!(st.events.last(), Some(&Event::Claimed { who: ALICE, amount: 10 }));

    assert_eq!(st.claim(&mut ledger, Origin::Signed(ALICE), 11), Err(Error::VestingNotFound));
}

#[test]
fn cannot_claim_if_no_vesting() {
    let (mut ledger, mut st) = setup(&[]);
    assert_eq!(st.claim(&mut ledger, Origin::Signed(ALICE), 1), Err(Error::VestingNotFound));
}

#[test]
fn update_unstake_fee_rate_works() {
    let (_ledger, mut st) = setup(&[]);
    assert_eq!(st.update_unstake_fee_rate(Origin::Root, ACC), Ok(()));
    assert_eq!(st.unstake_fee_rate, ACC);
}

#[test]
fn update_unstaked_fee_rate_fails_if_bad_origin() {
    let (_ledger, mut st) = setup(&[]);
    assert_eq!(st.update_unstake_fee_rate(Origin::Signed(ALICE), ACC), Err(Error::BadOrigin));
}

#[test]
fn inflation_works() {
    let (mut ledger, mut st) = setup(&[(ALICE, ADAO, 50), (BOB, SDAO, 10), (PALLET, ADAO, 30)]);

    st.on_initialize(&mut ledger, 99);
    // no inflation yet
    assert_eq!(ledger.total_issuance(ADAO), 80);

    st.on_initialize(&mut ledger, 100);
    // mint: 80 / 0.8 = 100
    assert_eq!(ledger.free_balance(ADAO, PALLET), 130);
    // treasury, dao shares: 100 * share / exchange_rate = 100 * 0.1 / 3
    assert_eq!(ledger.free_balance(SDAO, TREASURY_ACCOUNT), 3);
    assert_eq!(ledger.free_balance(SDAO, DAO_ACCOUNT), 3);
    assert_eq!(st.deposited_rewards.last(), Some(&3));
}

#[test]
fn mint_for_subscription_works() {
    // exchange rate: 1 staked = 8 governance
    let (mut ledger, mut st) = setup(&[(BOB, SDAO, 10), (PALLET, ADAO, 80)]);

    assert_eq!(st.mint_for_subscription(&mut ledger, ALICE, 800, 10, 1), Ok(()));
    // mint: 800 / 0.8 = 1_000
    assert_eq!(ledger.free_balance(ADAO, PALLET), 1_080);
    // alice staked: += 800 / 8
    assert_eq!(ledger.free_balance(SDAO, ALICE), 100);
    // vested, not transferrable
    assert_eq!(
        ledger.apply(LedgerOp::Transfer(SDAO, ALICE, BOB, 1)),
        Err(Error::LiquidityRestrictions)
    );
    // treasury, dao shares: 1_000 * share / exchange_rate = 1000 * 0.1 / 8
    assert_eq!(ledger.free_balance(SDAO, TREASURY_ACCOUNT), 12);
    assert_eq!(ledger.free_balance(SDAO, DAO_ACCOUNT), 12);
    assert_eq!(st.deposited_rewards.last(), Some(&12));
}

#[test]
fn vesting_over_max_chunks_fails() {
    // exchange rate: 1 staked = 10 governance
    let (mut ledger, mut st) = setup(&[(BOB, SDAO, 10), (PALLET, ADAO, 100)]);
    for i in 0..5u64 {
        assert_eq!(st.mint_for_subscription(&mut ledger, ALICE, 100, 10, i + 1), Ok(()));
    }
    let before = ledger.free_balance(SDAO, ALICE);
    assert_eq!(st.mint_for_subscription(&mut ledger, ALICE, 100, 10, 6), Err(Error::MaxVestingChunkExceeded));
    assert_eq!(ledger.free_balance(SDAO, ALICE), before);
}

#[test]
fn vesting_claim_scenario() {
    // exchange rate: 1 staked = 10 governance
    let (mut ledger, mut st) = setup(&[(BOB, SDAO, 10), (PALLET, ADAO, 100)]);
    assert_eq!(st.mint_for_subscription(&mut ledger, ALICE, 100, 10, 1), Ok(()));
    assert_eq!(ledger.locked_balance(SDAO, ALICE), ledger.free_balance(SDAO, ALICE));

    // nothing has unlocked at block 10
    assert_eq!(st.claim(&mut ledger, Origin::Signed(ALICE), 10), Err(Error::VestingNotFound));
    assert_eq!(ledger.locked_balance(SDAO, ALICE), 10);
    assert!(st.vesting.contains_key(&ALICE));

    // the whole chunk unlocks at block 11 and the lock goes
    assert_eq!(st.claim(&mut ledger, Origin::Signed(ALICE), 11), Ok(()));
    assert_eq!(ledger.locked_balance(SDAO, ALICE), 0);
    assert!(!st.vesting.contains_key(&ALICE));
}

#[test]
fn exchange_rate_round_trip() {
    // 100 governance held, 10 staked issued: rate 10
    let (mut ledger, mut st) = setup(&[(ALICE, ADAO, 20), (BOB, SDAO, 10), (PALLET, ADAO, 100)]);
    assert_eq!(st.exchange_rate(&ledger), 10 * ACC);
    assert_eq!(st.account_id(), PALLET);
    assert_eq!(st.stake(&mut ledger, Origin::Signed(ALICE), 20), Ok(()));
    assert_eq!(ledger.free_balance(SDAO, ALICE), 2);
    assert_eq!(st.unstake(&mut ledger, Origin::Signed(ALICE), 2), Ok(()));
    assert_eq!(ledger.free_balance(ADAO, ALICE), 20);
}

#[test]
fn stake_fails_for_root_and_low_balance() {
    let (mut ledger, mut st) = setup(&[(ALICE, ADAO, 5)]);
    assert_eq!(st.stake(&mut ledger, Origin::Root, 1), Err(Error::BadOrigin));
    assert_eq!(st.stake(&mut ledger, Origin::Signed(ALICE), 6), Err(Error::BalanceTooLow));
    assert_eq!(ledger.free_balance(ADAO, ALICE), 5);
    assert_eq!(ledger.total_issuance(SDAO), 0);
}

#[test]
fn unstake_fails_when_fee_rate_above_one() {
    let (mut ledger, mut st) = setup(&[(ALICE, SDAO, 10), (PALLET, ADAO, 100)]);
    assert_eq!(st.update_unstake_fee_rate(Origin::Root, 2 * ACC), Ok(()));
    assert_eq!(st.unstake(&mut ledger, Origin::Signed(ALICE), 1), Err(Error::Underflow));
}

#[test]
fn mint_split_rejects_full_shares() {
    let mut cfg = config();
    cfg.treasury_share = ACC / 2;
    cfg.dao_share = ACC / 2;
    assert_eq!(aqua_dao::staked::mint_split(&cfg, 100), Err(Error::DivisionByZero));
    cfg.dao_share = ACC;
    assert_eq!(aqua_dao::staked::mint_split(&cfg, 100), Err(Error::Underflow));
    cfg.treasury_share = u128::MAX;
    assert_eq!(aqua_dao::staked::mint_split(&cfg, 100), Err(Error::Overflow));
}

#[test]
fn genesis_balances_that_overflow_fail() {
    let r = ExtBuilder::default().balances(vec![(ALICE, ADAO, u128::MAX), (BOB, ADAO, 1)]).build();
    assert_eq!(r.err(), Some(Error::Overflow));
    let ledger = ExtBuilder::default().balances(vec![(ALICE, ADAO, 7), (ALICE, ADAO, 5)]).build().unwrap();
    assert_eq!(ledger.free_balance(ADAO, ALICE), 12);
    assert_eq!(ledger.total_issuance(ADAO), 12);
}

#[test]
fn mint_divides_exactly() {
    let mut cfg = config();
    cfg.treasury_share = saturating_from_rational(3, 10);
    cfg.dao_share = 0;
    let (m, mt, md) = aqua_dao::staked::mint_split(&cfg, 7_000_000_000_000_000_000).unwrap();
    assert_eq!(m, 10_000_000_000_000_000_000);
    assert_eq!(mt, 3_000_000_000_000_000_000);
    assert_eq!(md, 0);
}

#[test]
fn staked_conversion_divides_exactly() {
    // 30 governance held, 10 staked issued: rate 3
    let (ledger, _st) = setup(&[(BOB, SDAO, 10), (PALLET, ADAO, 30)]);
    let cfg = config();
    assert_eq!(aqua_dao::staked::to_staked(&cfg, &ledger, 3_000_000_000_000_000_000), Ok(1_000_000_000_000_000_000));
    assert_eq!(aqua_dao::staked::from_staked(&cfg, &ledger, 1_000_000_000_000_000_000), Ok(3_000_000_000_000_000_000));
}
