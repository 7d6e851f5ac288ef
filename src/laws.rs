//! Properties that relate several operations, proved over their contracts.
use crate::allocation::{percent_of, percents_of, sat_rational, scheduled_spec, target_total, values_sum, Allocation, AllocationPercent};
use crate::fixed::{is_sqrt_floor, mul_div_spec, sqrt_floor, ACC, ACC_SQRT};
use crate::subscription::{
    price_discount_spec, quote_spec, remaining, sold, subscribe_decision, Subscription, SubscriptionState, GOVERNANCE_UNIT,
};
use crate::types::accuracy_spec;
use crate::ledger::{lemma_deposit_frame, lemma_lock_frame, LedgerOp, LedgerView};
use crate::staked::{
    exchange_rate_spec, from_staked_spec, lock_ops, mint_ops, mint_quote, to_staked_spec, unlock_block,
    vesting_plan, Config, Pallet,
};
use crate::types::{AccountId, Balance};
use crate::types::{BlockNumber, CurrencyId, TokenSymbol};
use vstd::prelude::*;

verus! {

/// Rebalances run exactly at the blocks whose remainder by the period is the
/// offset (while there is a strategy), and the strategies are taken in
/// index order: one period later comes the next strategy, cyclically.
pub proof fn lemma_rebalance_schedule(b: BlockNumber, period: BlockNumber, offset: BlockNumber, len: nat)
    requires
        period != 0,
    ensures
        scheduled_spec(b, period, offset, len) is Some <==> (b % period == offset && len > 0),
        b % period == offset && len > 0 && b + period <= u64::MAX
            ==> scheduled_spec((b + period) as u64, period, offset, len) == Some(
            ((scheduled_spec(b, period, offset, len)->Some_0 + 1) % len) as nat,
        ),
{
    if b % period == offset && len > 0 && b + period <= u64::MAX {
        let b2 = (b + period) as int;
        vstd::arithmetic::div_mod::lemma_mod_add_multiples_vanish(b as int, period as int);
        vstd::arithmetic::div_mod::lemma_div_plus_one(b as int, period as int);
        let i = (b / period) as int;
        vstd::arithmetic::div_mod::lemma_add_mod_noop(i, 1, len as int);
        vstd::arithmetic::div_mod::lemma_mod_twice(i, len as int);
        let n = len as int;
        vstd::arithmetic::div_mod::lemma_add_mod_noop(i % n, 1, n);

    }
}

/// Every account's free staked tokens cover its vesting total, in every
/// state the staked-token engine keeps.
pub proof fn lemma_vesting_covered(st: &Pallet, v: LedgerView, a: u64)
    requires
        st.inv(v),
    ensures
        st.vesting@.contains_key(a) ==> v.free(CurrencyId::Token(TokenSymbol::SDAO), a) >= st.vesting@[a].total,
{
    assert(v.locked(CurrencyId::Token(TokenSymbol::SDAO), a) <= v.free(CurrencyId::Token(TokenSymbol::SDAO), a));
}

/// Staking `a` and unstaking what it gave, at one and the same exchange rate
/// `X` and without a fee, gives back at most `a`, and less by at most the
/// value of one unit of the staked token plus one: `a - r <= floor(X) + 1`
/// in units of the last place.
pub proof fn lemma_stake_unstake_round_trip(cfg: Config, v1: LedgerView, v2: LedgerView, a: u128)
    requires
        cfg.wf(),
        exchange_rate_spec(cfg, v1) == exchange_rate_spec(cfg, v2),
        exchange_rate_spec(cfg, v1) != 0,
        to_staked_spec(cfg, v1, a) is Some,
        from_staked_spec(cfg, v2, to_staked_spec(cfg, v1, a)->Some_0) is Some,
    ensures
        ({
            let x = exchange_rate_spec(cfg, v1) as int;
            let r = from_staked_spec(cfg, v2, to_staked_spec(cfg, v1, a)->Some_0)->Some_0 as int;
            &&& r <= a
            &&& a - r <= mul_div_spec(1, x, ACC as int) + 1
        }),
{
    let x = exchange_rate_spec(cfg, v1) as int;
    let k = ACC as int;
    let s = to_staked_spec(cfg, v1, a)->Some_0 as int;
    let r = from_staked_spec(cfg, v2, s as u128)->Some_0 as int;
    let ai = a as int;
    assert(s == (ai * k) / x);
    assert(r == (s * x) / k);
    vstd::arithmetic::div_mod::lemma_fundamental_div_mod(ai * k, x);
    vstd::arithmetic::div_mod::lemma_fundamental_div_mod(s * x, k);
    vstd::arithmetic::div_mod::lemma_fundamental_div_mod(x, k);
    vstd::arithmetic::div_mod::lemma_mod_bound(ai * k, x);
    vstd::arithmetic::div_mod::lemma_mod_bound(s * x, k);
    vstd::arithmetic::div_mod::lemma_mod_bound(x, k);
    assert(1 * x == x);
    vstd::arithmetic::mul::lemma_mul_is_commutative(s, x);
    vstd::arithmetic::mul::lemma_mul_is_commutative(r, k);
    vstd::arithmetic::mul::lemma_mul_is_commutative(x / k, k);
    lemma_round_trip_bounds(ai, x, k, s, r, x / k);
}

proof fn lemma_round_trip_bounds(a: int, x: int, k: int, s: int, r: int, u: int)
    requires
        a >= 0,
        x > 0,
        k > 0,
        s >= 0,
        r >= 0,
        s * x <= a * k,
        s * x > a * k - x,
        r * k <= s * x,
        r * k > s * x - k,
        u * k <= x,
        u * k > x - k,
    ensures
        r <= a,
        a - r <= u + 1,
{
    assert(r * k <= a * k);
    assert(r <= a) by (nonlinear_arith)
        requires r * k <= a * k, k > 0;
    assert((a - r) * k < x + k) by (nonlinear_arith)
        requires r * k > s * x - k, s * x > a * k - x;
    assert((a - r) * k < (u + 2) * k) by (nonlinear_arith)
        requires (a - r) * k < x + k, u * k > x - k;
    assert(a - r < u + 2) by (nonlinear_arith)
        requires (a - r) * k < (u + 2) * k, k > 0;
}

proof fn lemma_apply_all_cons(v: LedgerView, op: LedgerOp, rest: Seq<LedgerOp>)
    ensures
        v.apply_all(seq![op] + rest) == match v.apply(op) {
            Ok(n) => n.apply_all(rest),
            Err(e) => Err(e),
        },
{
    let ops = seq![op] + rest;
    assert(ops[0] == op);
    assert(ops.drop_first() =~= rest);
}

proof fn lemma_apply_all_append(v: LedgerView, a: Seq<LedgerOp>, b: Seq<LedgerOp>)
    ensures
        v.apply_all(a + b) == match v.apply_all(a) {
            Ok(w) => w.apply_all(b),
            Err(e) => Err(e),
        },
    decreases a.len(),
{
    if a.len() == 0 {
        assert(a + b =~= b);
    } else {
        assert((a + b)[0] == a[0]);
        assert((a + b).drop_first() =~= a.drop_first() + b);
        match v.apply(a[0]) {
            Ok(n) => lemma_apply_all_append(n, a.drop_first(), b),
            Err(e) => {},
        }
    }
}

/// A subscription mint of `amount` for `who` grows the issuance of the
/// governance token by the gross mint `m = floor(amount / (1 - f))`, the
/// subscriber's staked tokens by
/// the staked value of `amount`, the DAO's by that of `floor(m * dao_share)`
/// and the reward destination's by that of `floor(m * treasury_share)`,
/// where the three accounts are distinct.
pub proof fn lemma_mint_growth(st: &Pallet, v: LedgerView, who: AccountId, amount: Balance, vesting_period: BlockNumber, now: BlockNumber)
    requires
        st.inv(v),
        who != st.config.dao_account,
        who != st.config.reward_dest_account,
        st.config.dao_account != st.config.reward_dest_account,
        mint_quote(st.config, v, amount) is Ok,
        vesting_plan(
            st.vesting@,
            who,
            mint_quote(st.config, v, amount)->Ok_0.1,
            unlock_block(now, vesting_period),
            st.config.max_vesting_chunks,
        ) is Ok,
    ensures
        ({
            let cfg = st.config;
            let (m, staked, dao_staked, treasury_staked) = mint_quote(cfg, v, amount)->Ok_0;
            let plan = vesting_plan(st.vesting@, who, staked, unlock_block(now, vesting_period), cfg.max_vesting_chunks)->Ok_0;
            let g = CurrencyId::Token(TokenSymbol::ADAO);
            let s = CurrencyId::Token(TokenSymbol::SDAO);
            let f = cfg.treasury_share + cfg.dao_share;
            v.apply_all(mint_ops(cfg, Some(who), m, staked, dao_staked, treasury_staked) + lock_ops(who, plan)) is Ok ==> {
                let w = v.apply_all(mint_ops(cfg, Some(who), m, staked, dao_staked, treasury_staked) + lock_ops(who, plan))->Ok_0;
                &&& m == mul_div_spec(amount as int, ACC as int, ACC - f)
                &&& w.total_issuance(g) == v.total_issuance(g) + m
                &&& Some(staked) == to_staked_spec(cfg, v, amount)
                &&& w.free(s, who) == v.free(s, who) + staked
                &&& Some(dao_staked) == to_staked_spec(cfg, v, mul_div_spec(m as int, cfg.dao_share as int, ACC as int) as u128)
                &&& w.free(s, cfg.dao_account) == v.free(s, cfg.dao_account) + dao_staked
                &&& Some(treasury_staked) == to_staked_spec(
                    cfg,
                    v,
                    mul_div_spec(m as int, cfg.treasury_share as int, ACC as int) as u128,
                )
                &&& w.free(s, cfg.reward_dest_account) == v.free(s, cfg.reward_dest_account) + treasury_staked
            }
        }),
{
    let cfg = st.config;
    let (m, staked, ds, ts) = mint_quote(cfg, v, amount)->Ok_0;
    let plan = vesting_plan(st.vesting@, who, staked, unlock_block(now, vesting_period), cfg.max_vesting_chunks)->Ok_0;
    let g = CurrencyId::Token(TokenSymbol::ADAO);
    let s = CurrencyId::Token(TokenSymbol::SDAO);
    let d0 = LedgerOp::Deposit(g, cfg.pallet_account, m);
    let d1 = LedgerOp::Deposit(s, who, staked);
    let d2 = LedgerOp::Deposit(s, cfg.dao_account, ds);
    let d3 = LedgerOp::Deposit(s, cfg.reward_dest_account, ts);
    let base = mint_ops(cfg, Some(who), m, staked, ds, ts);
    lemma_apply_all_append(v, base, lock_ops(who, plan));
    assert(base =~= seq![d0] + (seq![d1] + (seq![d2] + (seq![d3] + Seq::<LedgerOp>::empty()))));
    lemma_apply_all_cons(v, d0, seq![d1] + (seq![d2] + (seq![d3] + Seq::<LedgerOp>::empty())));
    if v.apply(d0) is Ok {
        let v1 = v.apply(d0)->Ok_0;
        lemma_deposit_frame(v, g, cfg.pallet_account, m);
        lemma_apply_all_cons(v1, d1, seq![d2] + (seq![d3] + Seq::<LedgerOp>::empty()));
        if v1.apply(d1) is Ok {
            let v2 = v1.apply(d1)->Ok_0;
            lemma_deposit_frame(v1, s, who, staked);
            lemma_apply_all_cons(v2, d2, seq![d3] + Seq::<LedgerOp>::empty());
            if v2.apply(d2) is Ok {
                let v3 = v2.apply(d2)->Ok_0;
                lemma_deposit_frame(v2, s, cfg.dao_account, ds);
                lemma_apply_all_cons(v3, d3, Seq::<LedgerOp>::empty());
                if v3.apply(d3) is Ok {
                    let v4 = v3.apply(d3)->Ok_0;
                    lemma_deposit_frame(v3, s, cfg.reward_dest_account, ts);
                    assert(v4.apply_all(Seq::<LedgerOp>::empty()) == Ok::<LedgerView, crate::types::Error>(v4));
                    assert(v.apply_all(base) == Ok::<LedgerView, crate::types::Error>(v4));
                    match plan {
                        Some(t) => {
                            let lk = LedgerOp::SetLock(s, who, t);
                            assert(lock_ops(who, plan) == seq![lk]);
                            lemma_apply_all_cons(v4, lk, Seq::<LedgerOp>::empty());
                            assert(seq![lk] + Seq::<LedgerOp>::empty() =~= seq![lk]);
                            lemma_lock_frame(v4, lk);
                            let w0 = v4.apply(lk)->Ok_0;
                            assert(w0.apply_all(Seq::<LedgerOp>::empty()) == Ok::<LedgerView, crate::types::Error>(w0));
                            let w = v4.apply(lk)->Ok_0;
                            assert(forall|c: CurrencyId, a: AccountId| #[trigger] w.free(c, a) == v4.free(c, a));
                            assert(forall|c: CurrencyId| #[trigger] w.total_issuance(c) == v4.total_issuance(c));
                        },
                        None => {
                            assert(v4.apply_all(lock_ops(who, plan)) == Ok::<LedgerView, crate::types::Error>(v4));
                        },
                    }
                }
            }
        }
    }
}

/// The sum of the value shares of the targets.
pub open spec fn percent_values_sum(p: Seq<Option<AllocationPercent>>) -> nat
    decreases p.len(),
{
    if p.len() == 0 {
        0
    } else {
        percent_values_sum(p.drop_last()) + match p.last() {
            Some(x) => x.value as nat,
            None => 0,
        }
    }
}

/// The number of targets.
pub open spec fn targets_count(t: Seq<Option<Allocation>>) -> nat
    decreases t.len(),
{
    if t.len() == 0 {
        0
    } else {
        targets_count(t.drop_last()) + if t.last() is Some {
            1nat
        } else {
            0
        }
    }
}

/// The shares of the targets within a total `total`.
spec fn percents_within(t: Seq<Option<Allocation>>, total: u128) -> Seq<Option<AllocationPercent>> {
    Seq::new(
        t.len(),
        |i: int|
            match t[i] {
                Some(a) => Some(percent_of(a, total)),
                None => None,
            },
    )
}

proof fn lemma_floor_bounds(a: int, d: int)
    requires
        a >= 0,
        d > 0,
    ensures
        (a / d) * d <= a,
        (a / d) * d >= a - d + 1,
        a / d >= 0,
{
    vstd::arithmetic::div_mod::lemma_fundamental_div_mod(a, d);
    vstd::arithmetic::div_mod::lemma_mod_bound(a, d);
    vstd::arithmetic::div_mod::lemma_div_pos_is_pos(a, d);
    vstd::arithmetic::mul::lemma_mul_is_commutative(d, a / d);
}

proof fn lemma_shares_bounds(t: Seq<Option<Allocation>>, total: u128)
    requires
        total > 0,
        values_sum(t) <= total,
    ensures
        ({
            let ps = percent_values_sum(percents_within(t, total)) as int;
            let k = ACC as int;
            let d = total as int;
            &&& d * ps <= k * values_sum(t)
            &&& d * ps + targets_count(t) * (d - 1) >= k * values_sum(t)
        }),
    decreases t.len(),
{
    if t.len() > 0 {
        let init = t.drop_last();
        assert(percents_within(t, total).drop_last() =~= percents_within(init, total));
        lemma_shares_bounds(init, total);
        let k = ACC as int;
        let d = total as int;
        let ps0 = percent_values_sum(percents_within(init, total)) as int;
        let pw = percents_within(t, total);
        assert(percent_values_sum(pw) == percent_values_sum(pw.drop_last()) + match pw.last() {
            Some(x) => x.value as nat,
            None => 0,
        });
        match t.last() {
            Some(a) => {
                let v = a.value as int;
                assert(v <= d);
                lemma_floor_bounds(v * k, d);
                let q = (v * k) / d;
                assert(q <= k) by (nonlinear_arith)
                    requires q * d <= v * k, v <= d, d > 0, k > 0;
                assert(percents_within(t, total).last() == Some(percent_of(a, total)));
                assert(percent_of(a, total).value == q);
                assert(d * (ps0 + q) <= k * (values_sum(init) + v)) by (nonlinear_arith)
                    requires d * ps0 <= k * values_sum(init), q * d <= v * k;
                assert(percent_values_sum(pw) == ps0 + q);
                assert(values_sum(t) == values_sum(init) + v);
                assert(d * (ps0 + q) + (targets_count(init) + 1) * (d - 1) >= k * (values_sum(init) + v))
                    by (nonlinear_arith)
                    requires
                        d * ps0 + targets_count(init) * (d - 1) >= k * values_sum(init),
                        q * d >= v * k - d + 1,
                ;
            },
            None => {
                assert(pw.last() is None);
                assert(percent_values_sum(pw) == ps0);
                assert(values_sum(t) == values_sum(init));
            },
        }
    } else {
        assert(percents_within(t, total).len() == 0);
        assert(percent_values_sum(percents_within(t, total)) == 0);
    }
}

proof fn lemma_sat_rational_monotone(a: int, b: int, d: int)
    requires
        0 <= a <= b,
        d > 0,
    ensures
        sat_rational(a, d) <= sat_rational(b, d),
{
    assert(a * (ACC as int) <= b * (ACC as int)) by (nonlinear_arith)
        requires a <= b;
    vstd::arithmetic::div_mod::lemma_div_is_ordered(a * (ACC as int), b * (ACC as int), d);
}

/// After targets are set or adjusted, the value shares sum to one within one
/// unit of the last place per target, where the target values sum to a
/// positive number that fits; and each target's value share lies between its
/// lower and upper shares.
pub proof fn lemma_target_percents(t: Seq<Option<Allocation>>)
    requires
        values_sum(t) > 0,
        values_sum(t) <= u128::MAX,
    ensures
        percent_values_sum(percents_of(t)) <= ACC,
        percent_values_sum(percents_of(t)) + targets_count(t) > ACC,
        forall|i: int|
            0 <= i < t.len() && #[trigger] percents_of(t)[i] is Some ==> percents_of(t)[i]->Some_0.min
                <= percents_of(t)[i]->Some_0.value <= percents_of(t)[i]->Some_0.max,
{
    let total = target_total(t);
    assert(percents_of(t) =~= percents_within(t, total));
    lemma_shares_bounds(t, total);
    let ps = percent_values_sum(percents_of(t)) as int;
    let k = ACC as int;
    let d = total as int;
    assert(values_sum(t) == d);
    assert(ps <= k) by (nonlinear_arith)
        requires d * ps <= k * d, d > 0;
    if targets_count(t) == 0 {
        lemma_count_zero(t);
    }
    assert(ps + targets_count(t) > k) by (nonlinear_arith)
        requires d * ps + targets_count(t) * (d - 1) >= k * d, d > 0, targets_count(t) >= 1;
    assert forall|i: int|
        0 <= i < t.len() && #[trigger] percents_of(t)[i] is Some implies percents_of(t)[i]->Some_0.min
            <= percents_of(t)[i]->Some_0.value <= percents_of(t)[i]->Some_0.max by {
        let a = t[i]->Some_0;
        let lo = if a.value >= a.range { a.value - a.range } else { 0 };
        let hi = if a.value + a.range > u128::MAX { u128::MAX as int } else { a.value + a.range };
        lemma_sat_rational_monotone(lo, a.value as int, d);
        lemma_sat_rational_monotone(a.value as int, hi, d);
    }
}

proof fn lemma_count_zero(t: Seq<Option<Allocation>>)
    requires
        targets_count(t) == 0,
    ensures
        values_sum(t) == 0,
    decreases t.len(),
{
    if t.len() > 0 {
        lemma_count_zero(t.drop_last());
    }
}

proof fn lemma_mul_div_monotone(a1: int, a2: int, b: int, c: int)
    requires
        0 <= a1 <= a2,
        b >= 0,
        c > 0,
    ensures
        mul_div_spec(a1, b, c) <= mul_div_spec(a2, b, c),
        mul_div_spec(b, a1, c) <= mul_div_spec(b, a2, c),
{
    assert(a1 * b <= a2 * b) by (nonlinear_arith)
        requires a1 <= a2, b >= 0;
    assert(b * a1 <= b * a2) by (nonlinear_arith)
        requires a1 <= a2, b >= 0;
    vstd::arithmetic::div_mod::lemma_div_is_ordered(a1 * b, a2 * b, c);
    vstd::arithmetic::div_mod::lemma_div_is_ordered(b * a1, b * a2, c);
}

proof fn lemma_sqrt_exists(n: nat)
    ensures
        is_sqrt_floor(n as int, sqrt_floor(n as int)),
    decreases n,
{
    if n == 0 {
        assert(is_sqrt_floor(0, 0));
    } else {
        lemma_sqrt_exists((n - 1) as nat);
        let r = sqrt_floor(n - 1);
        if (r + 1) * (r + 1) <= n {
            assert(n < (r + 2) * (r + 2)) by (nonlinear_arith)
                requires n - 1 < (r + 1) * (r + 1), r >= 0;
            assert(is_sqrt_floor(n as int, r + 1));
        } else {
            assert(is_sqrt_floor(n as int, r));
        }
    }
}

proof fn lemma_sqrt_monotone(n1: nat, n2: nat)
    requires
        n1 <= n2,
    ensures
        sqrt_floor(n1 as int) <= sqrt_floor(n2 as int),
{
    lemma_sqrt_exists(n1);
    lemma_sqrt_exists(n2);
    let r1 = sqrt_floor(n1 as int);
    let r2 = sqrt_floor(n2 as int);
    if r1 > r2 {
        assert((r2 + 1) * (r2 + 1) <= r1 * r1) by (nonlinear_arith)
            requires r2 >= 0, r2 + 1 <= r1;
    }
}

/// For a fixed subscription, prices and block, a larger payment buys at
/// least as much, wherever both quotes succeed.
pub proof fn lemma_quote_monotone_in_payment(
    sub: Subscription,
    p1: Balance,
    p2: Balance,
    now: BlockNumber,
    price_g: Option<u128>,
    price_c: Option<u128>,
)
    requires
        p1 <= p2,
        quote_spec(sub, p1, now, price_g, price_c) is Ok,
        quote_spec(sub, p2, now, price_g, price_c) is Ok,
    ensures
        quote_spec(sub, p1, now, price_g, price_c)->Ok_0.0 <= quote_spec(sub, p2, now, price_g, price_c)->Ok_0.0,
{
    let k = ACC as int;
    let g = price_g->Some_0 as int;
    let c = price_c->Some_0 as int;
    let pd = price_discount_spec(sub, now)->Ok_0;
    let ratio = k - pd;
    let ratio_abs = if ratio >= 0 { ratio } else { -ratio };
    let p0 = mul_div_spec(g, ratio_abs, k);
    let dabs = if sub.discount.dec_per_unit >= 0 { sub.discount.dec_per_unit as int } else { -sub.discount.dec_per_unit };
    let alpha = mul_div_spec(g, dabs, k);
    let two_alpha = mul_div_spec(2 * k, alpha, k);
    let acc_c = accuracy_spec(sub.currency_id)->Some_0 as int;
    let denom = if acc_c * k > u128::MAX { u128::MAX as int } else { acc_c * k };
    let y = mul_div_spec(p0, p0, k);

    let pv1 = mul_div_spec(p1 * k, c, k);
    let pv2 = mul_div_spec(p2 * k, c, k);
    assert(p1 * k <= p2 * k) by (nonlinear_arith)
        requires p1 <= p2, k > 0;
    lemma_mul_div_monotone(p1 * k, p2 * k, c, k);
    vstd::arithmetic::div_mod::lemma_div_pos_is_pos(2 * k * alpha, k);
    vstd::arithmetic::div_mod::lemma_div_pos_is_pos(p1 * k * c, k);
    let x1_1 = mul_div_spec(two_alpha, pv1, k);
    let x1_2 = mul_div_spec(two_alpha, pv2, k);
    lemma_mul_div_monotone(pv1, pv2, two_alpha, k);
    vstd::arithmetic::div_mod::lemma_div_pos_is_pos(two_alpha * pv1, k);
    let x_1 = mul_div_spec(x1_1, k, denom);
    let x_2 = mul_div_spec(x1_2, k, denom);
    lemma_mul_div_monotone(x1_1, x1_2, k, denom);
    vstd::arithmetic::div_mod::lemma_div_pos_is_pos(x1_1 * k, denom);
    vstd::arithmetic::div_mod::lemma_div_pos_is_pos(p0 * p0, k);
    lemma_sqrt_monotone((x_1 + y) as nat, (x_2 + y) as nat);
    let sq1 = sqrt_floor(x_1 + y) * ACC_SQRT;
    let sq2 = sqrt_floor(x_2 + y) * ACC_SQRT;
    assert(sq1 <= sq2) by (nonlinear_arith)
        requires sqrt_floor(x_1 + y) <= sqrt_floor(x_2 + y), sq1 == sqrt_floor(x_1 + y) * ACC_SQRT,
            sq2 == sqrt_floor(x_2 + y) * ACC_SQRT;
    let a1 = mul_div_spec(sq1 - p0, k, alpha);
    let a2 = mul_div_spec(sq2 - p0, k, alpha);
    lemma_mul_div_monotone(sq1 - p0, sq2 - p0, k, alpha);
    let q01 = a1 * GOVERNANCE_UNIT;
    let q02 = a2 * GOVERNANCE_UNIT;
    assert(q01 <= q02) by (nonlinear_arith)
        requires a1 <= a2, q01 == a1 * GOVERNANCE_UNIT, q02 == a2 * GOVERNANCE_UNIT;
    vstd::arithmetic::div_mod::lemma_div_is_ordered(q01, q02, k);
    lemma_mul_div_monotone(p1 as int, p2 as int, k, sub.min_ratio as int);
}

/// A larger last discount gives a discount at least as large, and, where the
/// largest discount is below one, a start price `price_g * (1 - discount)` at
/// most as large.
pub proof fn lemma_discount_monotone(sub: Subscription, d1: i128, d2: i128, now: BlockNumber, price_g: u128)
    requires
        d1 <= d2,
        price_discount_spec(Subscription { state: SubscriptionState { last_discount: d1, ..sub.state }, ..sub }, now) is Ok,
        price_discount_spec(Subscription { state: SubscriptionState { last_discount: d2, ..sub.state }, ..sub }, now) is Ok,
    ensures
        ({
            let pd1 = price_discount_spec(Subscription { state: SubscriptionState { last_discount: d1, ..sub.state }, ..sub }, now)->Ok_0;
            let pd2 = price_discount_spec(Subscription { state: SubscriptionState { last_discount: d2, ..sub.state }, ..sub }, now)->Ok_0;
            &&& pd1 <= pd2
            &&& sub.discount.max < ACC ==> mul_div_spec(price_g as int, ACC - pd2, ACC as int) <= mul_div_spec(
                price_g as int,
                ACC - pd1,
                ACC as int,
            )
        }),
{
    let s1 = Subscription { state: SubscriptionState { last_discount: d1, ..sub.state }, ..sub };
    let s2 = Subscription { state: SubscriptionState { last_discount: d2, ..sub.state }, ..sub };
    let pd1 = price_discount_spec(s1, now)->Ok_0;
    let pd2 = price_discount_spec(s2, now)->Ok_0;
    assert(pd1 <= pd2);
    if sub.discount.max < ACC {
        assert(pd2 <= sub.discount.max);
        lemma_mul_div_monotone(ACC - pd2, ACC - pd1, price_g as int, ACC as int);
    }
}

/// A sale that a subscribe decides never takes the amount sold past the
/// capacity, where it was within the capacity before.
pub proof fn lemma_sale_within_capacity(
    sub: Subscription,
    payment: Balance,
    min_target: Balance,
    now: BlockNumber,
    price_g: Option<u128>,
    price_c: Option<u128>,
)
    requires
        sub.state.total_sold <= sub.amount,
        subscribe_decision(sub, payment, min_target, now, price_g, price_c) is Ok,
    ensures
        ({
            let (q, pd) = subscribe_decision(sub, payment, min_target, now, price_g, price_c)->Ok_0;
            sold(sub, q, now, pd).state.total_sold <= sold(sub, q, now, pd).amount
        }),
{
    let (q, pd) = subscribe_decision(sub, payment, min_target, now, price_g, price_c)->Ok_0;
    assert(q <= remaining(sub));
}

} // verus!
