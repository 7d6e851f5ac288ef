use aqua_dao::allocation::{
    scheduled_strategy, Allocation, AllocationAdjustment, Config, AllocationDiff, Event,
    Pallet, AllocationPercent, CurrentAllocation, DexManager, Strategy, StrategyKind,
};
use aqua_dao::fixed::{saturating_from_rational, ACC};
use aqua_dao::ledger::{Ledger, LedgerOp, LedgerView};
use aqua_dao::oracle::{MockPriceProvider, MockPriceSource};
use aqua_dao::support::{run_to_block, MockBlockNumberProvider};
use aqua_dao::types::{AccountId, Balance, CurrencyId, Error, Origin, TokenSymbol};

const ALICE: AccountId = 0;
const BOB: AccountId = 1;
const DAO: AccountId = 2;
const PALLET: AccountId = 102;
const POOL: AccountId = 200;

const AUSD: CurrencyId = CurrencyId::Token(TokenSymbol::AUSD);
const ACA: CurrencyId = CurrencyId::Token(TokenSymbol::ACA);
const ADAO: CurrencyId = CurrencyId::Token(TokenSymbol::ADAO);
const DOT: CurrencyId = CurrencyId::Token(TokenSymbol::DOT);
const ACA_AUSD_LP: CurrencyId = CurrencyId::DexShare(TokenSymbol::ACA, TokenSymbol::AUSD);
const ADAO_AUSD_LP: CurrencyId = CurrencyId::DexShare(TokenSymbol::AUSD, TokenSymbol::ADAO);

/// A pool service for the tests: the first provision of a pair is credited
/// the sum of the amounts in shares, later ones in proportion to the pool.
struct TestDex {
    pools: Vec<(CurrencyId, Balance, Balance, Balance)>,
}

fn lp_of(a: CurrencyId, b: CurrencyId) -> CurrencyId {
    match (a, b) {
        (CurrencyId::Token(x), CurrencyId::Token(y)) => {
            aqua_dao::types::dex_share_currency_id(x, y).unwrap()
        }
        _ => panic!("not a token pair"),
    }
}

impl DexManager for TestDex {
    fn pool_account(&self) -> AccountId {
        POOL
    }

    fn add_liquidity_result(
        &self,
        _v: LedgerView,
        _who: AccountId,
        _currency_a: CurrencyId,
        _currency_b: CurrencyId,
        _max_amount_a: Balance,
        _max_amount_b: Balance,
        _min_share_increment: Balance,
    ) -> Result<(Balance, Balance, Balance), Error> {
        unreachable!("stands for the outcome in proofs only")
    }

    fn add_liquidity(
        &mut self,
        ledger: &mut Ledger,
        who: AccountId,
        currency_a: CurrencyId,
        currency_b: CurrencyId,
        max_amount_a: Balance,
        max_amount_b: Balance,
        _min_share_increment: Balance,
    ) -> Result<(Balance, Balance, Balance), Error> {
        let lp = lp_of(currency_a, currency_b);
        let pos = self.pools.iter().position(|p| p.0 == lp);
        let (pool_a, _pool_b, shares) = match pos {
            Some(i) => (self.pools[i].1, self.pools[i].2, self.pools[i].3),
            None => (0, 0, 0),
        };
        let increment = if shares == 0 { max_amount_a + max_amount_b } else { shares * max_amount_a / pool_a };
        let ops = vec![
            LedgerOp::Transfer(currency_a, who, POOL, max_amount_a),
            LedgerOp::Transfer(currency_b, who, POOL, max_amount_b),
            LedgerOp::Deposit(lp, who, increment),
        ];
        ledger.apply_all(&ops)?;
        match pos {
            Some(i) => {
                self.pools[i].1 += max_amount_a;
                self.pools[i].2 += max_amount_b;
                self.pools[i].3 += increment;
            }
            None => self.pools.push((lp, max_amount_a, max_amount_b, increment)),
        }
        Ok((max_amount_a, max_amount_b, increment))
    }
}

struct World {
    ledger: Ledger,
    dex: TestDex,
    prices: MockPriceProvider,
    manager: Pallet,
    clock: MockBlockNumberProvider,
}

fn world() -> World {
    let mut prices: MockPriceSource = MockPriceProvider::new();
    for c in [ACA, AUSD, ADAO, ACA_AUSD_LP, ADAO_AUSD_LP] {
        prices.set_price(c, Some(ACC));
    }
    let config = Config {
        stable_currency_id: AUSD,
        rebalance_period: 2,
        rebalance_offset: 1,
        dao_account: DAO,
        pallet_account: PALLET,
        admin: ALICE,
    };
    World {
        ledger: Ledger::new(),
        dex: TestDex { pools: Vec::new() },
        prices,
        manager: Pallet::new(config),
        clock: MockBlockNumberProvider::new(),
    }
}

fn fund(w: &mut World, c: CurrencyId, amount: Balance) {
    w.ledger.apply(LedgerOp::Deposit(c, DAO, amount)).unwrap();
}

fn half_strategy(kind: StrategyKind) -> Strategy {
    Strategy {
        kind,
        percent_per_trade: saturating_from_rational(1, 2),
        max_amount_per_trade: 1_000_000,
        min_amount_per_trade: -1_000_000,
    }
}

// Sets AUSD/ADAO and AUSD/ACA for liquidity provision
fn set_test_strategies(w: &mut World) {
    let strategies = vec![
        half_strategy(StrategyKind::LiquidityProvisionAusdAdao),
        half_strategy(StrategyKind::LiquidityProvisionAusdOther(TokenSymbol::ACA)),
    ];
    assert_eq!(w.manager.set_strategies(Origin::Signed(ALICE), strategies), Ok(()));
}

fn run(w: &mut World, n: u64) {
    run_to_block(&w.manager, &mut w.ledger, &mut w.dex, &w.prices, &mut w.clock, n);
}

fn code(c: CurrencyId) -> usize {
    aqua_dao::types::currency_code_of(c) as usize
}

fn pct(n: u128, d: u128) -> u128 {
    saturating_from_rational(n, d)
}

fn spct(n: u128, d: u128) -> i128 {
    saturating_from_rational(n, d) as i128
}

#[test]
fn set_target_allocations_fails() {
    let mut w = world();
    assert_eq!(w.manager.set_target_allocations(Origin::Signed(BOB), vec![]), Err(Error::BadOrigin));
    assert_eq!(w.manager.set_target_allocations(Origin::Signed(ALICE), vec![]), Err(Error::ZeroTargetAllocation));
}

#[test]
fn set_target_allocations_works() {
    let mut w = world();
    let alloc = Allocation { value: 100, range: 10 };
    assert_eq!(
        w.manager.set_target_allocations(Origin::Signed(ALICE), vec![(ACA, Some(alloc)), (AUSD, Some(alloc))]),
        Ok(())
    );
    assert_eq!(
        w.manager.events.last(),
        Some(&Event::TargetAllocationSet { currency_id: AUSD, allocation: alloc })
    );
    assert_eq!(
        w.manager.target_allocation_percent(AUSD),
        Some(AllocationPercent { value: pct(5, 10), min: pct(9, 20), max: pct(11, 20) })
    );

    let alloc2 = Allocation { value: 50, range: 5 };
    // Will overwrite existing allocation
    assert_eq!(w.manager.set_target_allocations(Origin::Signed(ALICE), vec![(ACA, Some(alloc2))]), Ok(()));
    assert_eq!(
        w.manager.events.last(),
        Some(&Event::TargetAllocationSet { currency_id: ACA, allocation: alloc2 })
    );
    assert_eq!(w.manager.target_allocation(ACA), Some(alloc2));
    assert_eq!(w.manager.target_allocation(AUSD), Some(alloc));

    // Totally remove an allocation of a token
    assert_eq!(w.manager.set_target_allocations(Origin::Signed(ALICE), vec![(ACA, None)]), Ok(()));
    assert_eq!(w.manager.events.last(), Some(&Event::TargetAllocationRemoved { currency_id: ACA }));
    assert_eq!(
        w.manager.target_allocation_percent(AUSD),
        Some(AllocationPercent { value: pct(1, 1), min: pct(9, 10), max: pct(11, 10) })
    );
    assert_eq!(w.manager.target_allocation_percent(ACA), None);
}

#[test]
fn adjust_target_allocations_fails() {
    let mut w = world();
    assert_eq!(w.manager.adjust_target_allocations(Origin::Signed(BOB), vec![]), Err(Error::BadOrigin));
    assert_eq!(w.manager.adjust_target_allocations(Origin::Signed(ALICE), vec![]), Err(Error::ZeroTargetAllocation));
    assert_eq!(
        w.manager.adjust_target_allocations(
            Origin::Signed(ALICE),
            vec![(ACA, AllocationAdjustment { value: 10, range: 5 })]
        ),
        Err(Error::TargetAllocationNotFound)
    );
}

#[test]
fn adjust_target_allocations_works() {
    let mut w = world();
    let alloc = Allocation { value: 100, range: 10 };
    assert_eq!(
        w.manager.set_target_allocations(Origin::Signed(ALICE), vec![(ACA, Some(alloc)), (AUSD, Some(alloc))]),
        Ok(())
    );
    assert_eq!(
        w.manager.target_allocation_percent(ACA),
        Some(AllocationPercent { value: pct(1, 2), min: pct(45, 100), max: pct(55, 100) })
    );

    let adjustment = AllocationAdjustment { value: -50, range: -5 };
    assert_eq!(w.manager.adjust_target_allocations(Origin::Signed(ALICE), vec![(ACA, adjustment)]), Ok(()));
    assert_eq!(
        w.manager.events.last(),
        Some(&Event::TargetAllocationAdjusted { currency_id: ACA, adjustment })
    );
    assert_eq!(w.manager.target_allocation(ACA), Some(Allocation { value: 50, range: 5 }));
    assert_eq!(w.manager.target_allocation(AUSD), Some(alloc));
    assert_eq!(
        w.manager.target_allocation_percent(ACA),
        Some(AllocationPercent { value: pct(1, 3), min: pct(3, 10), max: pct(11, 30) })
    );
}

#[test]
fn set_strategies_works() {
    let mut w = world();
    assert_eq!(w.manager.set_strategies(Origin::Signed(BOB), vec![]), Err(Error::BadOrigin));
    assert_eq!(w.manager.strategies.len(), 0);
    let strategy = Strategy {
        kind: StrategyKind::LiquidityProvisionAusdAdao,
        percent_per_trade: 0,
        max_amount_per_trade: 0,
        min_amount_per_trade: 0,
    };
    assert_eq!(w.manager.set_strategies(Origin::Signed(ALICE), vec![strategy]), Ok(()));
    assert_eq!(w.manager.strategies, vec![strategy]);
}

#[test]
fn test_current_allocations() {
    let mut w = world();
    fund(&mut w, AUSD, 1_000_000);
    fund(&mut w, ACA, 1_000_000);
    let alloc = Allocation { value: 100, range: 10 };
    assert_eq!(
        w.manager.set_target_allocations(Origin::Signed(ALICE), vec![(ACA, Some(alloc)), (AUSD, Some(alloc))]),
        Ok(())
    );
    let (cur, total) = w.manager.current_allocations(&w.ledger, &w.prices).unwrap();
    assert_eq!(total, 2_000_000);
    assert_eq!(cur[code(ACA)], Some(CurrentAllocation { amount: 1_000_000, value: 1_000_000, percent: pct(1, 2) }));
}

#[test]
fn test_allocation_diff() {
    let mut w = world();
    fund(&mut w, AUSD, 1_000_000);
    fund(&mut w, ACA, 1_000_000);
    let alloc = Allocation { value: 100, range: 10 };
    assert_eq!(
        w.manager.set_target_allocations(Origin::Signed(ALICE), vec![(ACA, Some(alloc)), (AUSD, Some(alloc))]),
        Ok(())
    );

    // There is no difference as allocations are the same
    let diff = w.manager.allocation_diff(&w.ledger, &w.prices).unwrap();
    assert_eq!(
        diff[code(ACA)],
        Some(AllocationDiff { current: pct(1, 2), target: pct(1, 2), diff: 0, range_diff: 0, diff_amount: 0 })
    );

    let adjustment = AllocationAdjustment { value: -50, range: -5 };
    assert_eq!(w.manager.adjust_target_allocations(Origin::Signed(ALICE), vec![(ACA, adjustment)]), Ok(()));

    // slight loss of precision due to fixed integer: off by one at most
    let diff = w.manager.allocation_diff(&w.ledger, &w.prices).unwrap();
    assert_eq!(
        diff[code(ACA)],
        Some(AllocationDiff {
            current: pct(1, 2),
            target: pct(1, 3),
            diff: 166666666666666667,
            range_diff: 133333333333333334,
            diff_amount: 333_334,
        })
    );
    assert_eq!(
        diff[code(AUSD)],
        Some(AllocationDiff {
            current: pct(1, 2),
            target: pct(2, 3),
            diff: -166666666666666666,
            range_diff: -spct(1, 10),
            diff_amount: -333_333,
        })
    );
}

#[test]
fn on_initialize_no_allocations() {
    let mut w = world();
    fund(&mut w, AUSD, 1_000_000);
    assert_eq!(w.ledger.free_balance(AUSD, DAO), 1_000_000);

    // Nothing happens when no allocations are set and no strategies are set
    run(&mut w, 4);
    assert_eq!(w.ledger.free_balance(AUSD, DAO), 1_000_000);

    set_test_strategies(&mut w);
    assert_eq!(w.manager.strategies.len(), 2);

    // Nothing happens when no allocations are set
    run(&mut w, 8);
    assert_eq!(w.ledger.free_balance(AUSD, DAO), 1_000_000);
}

#[test]
fn rebalance_ausd_other_works() {
    let mut w = world();
    fund(&mut w, AUSD, 1_000_000);
    fund(&mut w, ACA, 1_000_000);
    let alloc = Allocation { value: 100, range: 10 };
    let alloc2 = Allocation { value: 50, range: 5 };
    assert_eq!(
        w.manager.set_target_allocations(
            Origin::Signed(ALICE),
            vec![(AUSD, Some(alloc)), (ACA, Some(alloc2)), (ACA_AUSD_LP, Some(alloc))]
        ),
        Ok(())
    );
    let strategy = half_strategy(StrategyKind::LiquidityProvisionAusdOther(TokenSymbol::ACA));

    let diff = w.manager.allocation_diff(&w.ledger, &w.prices).unwrap();
    assert_eq!(
        diff[code(AUSD)],
        Some(AllocationDiff {
            current: pct(1, 2),
            target: pct(2, 5),
            diff: spct(1, 10),
            range_diff: spct(6, 100),
            diff_amount: 200_000,
        })
    );
    assert_eq!(w.manager.rebalance(&mut w.ledger, &mut w.dex, &w.prices, &strategy, &diff), Ok(()));
    assert_eq!(w.ledger.free_balance(AUSD, DAO), 900_000);

    let diff = w.manager.allocation_diff(&w.ledger, &w.prices).unwrap();
    assert_eq!(
        diff[code(AUSD)],
        Some(AllocationDiff {
            current: pct(9, 20),
            target: pct(2, 5),
            diff: spct(1, 20),
            range_diff: spct(1, 100),
            diff_amount: 100_000,
        })
    );
    assert_eq!(w.manager.rebalance(&mut w.ledger, &mut w.dex, &w.prices, &strategy, &diff), Ok(()));

    // will recursively rebalance 50%
    assert_eq!(w.ledger.free_balance(AUSD, DAO), 850_000);
    let diff = w.manager.allocation_diff(&w.ledger, &w.prices).unwrap();
    assert_eq!(
        diff[code(AUSD)],
        Some(AllocationDiff {
            current: pct(17, 40),
            target: pct(2, 5),
            diff: spct(1, 40),
            range_diff: spct(0, 1),
            diff_amount: 50_000,
        })
    );
}

#[test]
fn rebalance_ausd_adao_works() {
    let mut w = world();
    fund(&mut w, AUSD, 1_000_000);
    let alloc = Allocation { value: 100, range: 10 };
    assert_eq!(
        w.manager.set_target_allocations(Origin::Signed(ALICE), vec![(AUSD, Some(alloc)), (ADAO_AUSD_LP, Some(alloc))]),
        Ok(())
    );
    let strategy = half_strategy(StrategyKind::LiquidityProvisionAusdAdao);

    let diff = w.manager.allocation_diff(&w.ledger, &w.prices).unwrap();
    assert_eq!(
        diff[code(AUSD)],
        Some(AllocationDiff {
            current: pct(1, 1),
            target: pct(1, 2),
            diff: spct(1, 2),
            range_diff: spct(45, 100),
            diff_amount: 500_000,
        })
    );
    assert_eq!(w.manager.rebalance(&mut w.ledger, &mut w.dex, &w.prices, &strategy, &diff), Ok(()));

    let diff = w.manager.allocation_diff(&w.ledger, &w.prices).unwrap();
    assert_eq!(
        diff[code(AUSD)],
        Some(AllocationDiff {
            current: pct(7, 9),
            target: pct(1, 2),
            diff: spct(25, 90),
            range_diff: spct(41, 180),
            diff_amount: 312_500,
        })
    );

    assert_eq!(w.manager.rebalance(&mut w.ledger, &mut w.dex, &w.prices, &strategy, &diff), Ok(()));
    // LP token deposited into dao account
    assert_eq!(w.ledger.free_balance(ADAO_AUSD_LP, DAO), 406_250);
}

fn four_targets(w: &mut World, alloc: Allocation) {
    assert_eq!(
        w.manager.set_target_allocations(
            Origin::Signed(ALICE),
            vec![(AUSD, Some(alloc)), (ACA, Some(alloc)), (ACA_AUSD_LP, Some(alloc)), (ADAO_AUSD_LP, Some(alloc))]
        ),
        Ok(())
    );
}

#[test]
fn alternates_strategies_correctly() {
    let mut w = world();
    fund(&mut w, AUSD, 1_000_000);
    fund(&mut w, ACA, 1_000_000);
    set_test_strategies(&mut w);
    four_targets(&mut w, Allocation { value: 100, range: 10 });
    run(&mut w, 2);

    // Nothing happens as offset is 1 so only will rebalance on odd blocks
    assert_eq!(w.ledger.free_balance(AUSD, DAO), 1_000_000);
    assert_eq!(w.ledger.free_balance(ACA, DAO), 1_000_000);
    run(&mut w, 3);

    // rebalance with ausd and other token (ACA in this case)
    assert_eq!(w.ledger.free_balance(AUSD, DAO), 875_000);
    assert_eq!(w.ledger.free_balance(ACA, DAO), 875_000);
    run(&mut w, 5);

    // rebalance with ausd and adao
    assert_eq!(w.ledger.free_balance(AUSD, DAO), 750_000);
    assert_eq!(w.ledger.free_balance(ACA, DAO), 875_000);
}

#[test]
fn allocate_with_no_funds() {
    let mut w = world();
    set_test_strategies(&mut w);
    four_targets(&mut w, Allocation { value: 100, range: 10 });
    let events = w.manager.events.len();
    run(&mut w, 5);

    // rebalance errors out and no liquidity is added to pools
    assert_eq!(w.manager.events.len(), events);
    assert!(w.dex.pools.is_empty());
}

#[test]
fn zero_amount_allocations_test() {
    let mut w = world();
    w.prices.set_price(DOT, Some(ACC));
    set_test_strategies(&mut w);
    let alloc = Allocation { value: 0, range: 10 };
    let alloc2 = Allocation { value: 1, range: 10 };
    assert_eq!(
        w.manager.set_target_allocations(
            Origin::Signed(ALICE),
            vec![
                (AUSD, Some(alloc)),
                (ACA, Some(alloc)),
                (DOT, Some(alloc2)),
                (ACA_AUSD_LP, Some(alloc)),
                (ADAO_AUSD_LP, Some(alloc))
            ]
        ),
        Ok(())
    );
    run(&mut w, 5);
    assert!(w.dex.pools.is_empty());
}

#[test]
fn on_initialize_max_greater_than_one() {
    let mut w = world();
    fund(&mut w, AUSD, 1_000_000);
    fund(&mut w, ACA, 1_000_000);
    set_test_strategies(&mut w);
    four_targets(&mut w, Allocation { value: 100, range: 200 });

    // Nothing happens due to range being larger than value in allocation
    run(&mut w, 5);
    assert_eq!(w.ledger.free_balance(AUSD, DAO), 1_000_000);
    assert_eq!(w.ledger.free_balance(ACA, DAO), 1_000_000);
}

#[test]
fn rebalance_cadence() {
    // period 2, offset 1, two strategies
    assert_eq!(scheduled_strategy(2, 2, 1, 2), None);
    assert_eq!(scheduled_strategy(3, 2, 1, 2), Some(1));
    assert_eq!(scheduled_strategy(5, 2, 1, 2), Some(0));
    assert_eq!(scheduled_strategy(7, 2, 1, 2), Some(1));
    assert_eq!(scheduled_strategy(7, 2, 1, 0), None);
    // the index is not capped: consecutive blocks past 2^32 still alternate
    assert_eq!(scheduled_strategy(1 << 33, 1, 0, 2), Some(0));
    assert_eq!(scheduled_strategy((1 << 33) + 1, 1, 0, 2), Some(1));
}

#[test]
fn trade_amount_bounds() {
    let s = Strategy {
        kind: StrategyKind::LiquidityProvisionAusdAdao,
        percent_per_trade: saturating_from_rational(1, 2),
        max_amount_per_trade: 100,
        min_amount_per_trade: 10,
    };
    assert_eq!(s.trade_amount(-1_000, 1_000), 100);
    assert_eq!(s.trade_amount(40, 1_000), 20);
    assert_eq!(s.trade_amount(12, 1_000), 10);
    assert_eq!(s.trade_amount(10, 1_000), 0);
    assert_eq!(s.trade_amount(1_000, 10), 0);
    assert_eq!(s.trade_amount(1_000, 50), 50);
}

#[test]
fn target_percents_sum_to_one() {
    let mut w = world();
    let a = Allocation { value: 1, range: 0 };
    assert_eq!(w.manager.set_target_allocations(Origin::Signed(ALICE), vec![(ACA, Some(a)), (AUSD, Some(a)), (DOT, Some(a))]), Ok(()));
    let sum: u128 = [ACA, AUSD, DOT].iter().map(|c| w.manager.target_allocation_percent(*c).unwrap().value).sum();
    assert!(sum <= ACC && sum > ACC - 3);
}

#[test]
fn pairing_the_stable_currency_with_itself_fails() {
    let mut w = world();
    fund(&mut w, AUSD, 1_000_000);
    four_targets(&mut w, Allocation { value: 100, range: 10 });
    let diff = w.manager.allocation_diff(&w.ledger, &w.prices).unwrap();
    let strategy = half_strategy(StrategyKind::LiquidityProvisionAusdOther(TokenSymbol::AUSD));
    assert_eq!(
        w.manager.rebalance(&mut w.ledger, &mut w.dex, &w.prices, &strategy, &diff),
        Err(Error::InvalidTradingPair)
    );
    assert_eq!(w.ledger.free_balance(AUSD, DAO), 1_000_000);
}

#[test]
fn missing_price_fails_the_snapshot() {
    let mut w = world();
    fund(&mut w, AUSD, 1_000_000);
    four_targets(&mut w, Allocation { value: 100, range: 10 });
    w.prices.set_price(ACA, None);
    assert_eq!(w.manager.current_allocations(&w.ledger, &w.prices).err(), Some(Error::NoPrice));
    assert_eq!(w.manager.allocation_diff(&w.ledger, &w.prices).err(), Some(Error::NoPrice));
}

#[test]
fn target_amount_divides_by_the_price() {
    let mut w = world();
    w.prices.set_price(ACA, Some(3 * ACC));
    fund(&mut w, ACA, 1_000_000);
    let alloc = Allocation { value: 100, range: 10 };
    assert_eq!(w.manager.set_target_allocations(Origin::Signed(ALICE), vec![(ACA, Some(alloc))]), Ok(()));
    let diff = w.manager.allocation_diff(&w.ledger, &w.prices).unwrap();
    assert_eq!(diff[code(ACA)].unwrap().diff_amount, 0);
}

#[test]
fn failed_share_hand_on_changes_nothing() {
    let mut w = world();
    fund(&mut w, AUSD, 1_000_000);
    let alloc = Allocation { value: 100, range: 10 };
    assert_eq!(
        w.manager.set_target_allocations(Origin::Signed(ALICE), vec![(AUSD, Some(alloc)), (ADAO_AUSD_LP, Some(alloc))]),
        Ok(())
    );
    // a lock on the manager's share tokens would stop the hand-on
    w.ledger.apply(LedgerOp::SetLock(ADAO_AUSD_LP, PALLET, 1)).unwrap();
    let strategy = half_strategy(StrategyKind::LiquidityProvisionAusdAdao);
    let diff = w.manager.allocation_diff(&w.ledger, &w.prices).unwrap();
    assert_eq!(w.manager.rebalance(&mut w.ledger, &mut w.dex, &w.prices, &strategy, &diff), Err(Error::Overflow));
    assert_eq!(w.ledger.free_balance(AUSD, DAO), 1_000_000);
    assert_eq!(w.ledger.free_balance(AUSD, PALLET), 0);
    assert_eq!(w.ledger.total_issuance(ADAO), 0);
    assert!(w.dex.pools.is_empty());
}
