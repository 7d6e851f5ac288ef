//! The staked-token engine: converts the governance token into its staked
//! form at an exchange rate, mints for subscriptions with vesting, and
//! inflates periodically.
use crate::fixed::{checked_from_rational, checked_mul_int, mul_div, mul_div_spec, ACC};
use crate::ledger::{
    is_deposit, lemma_deposits_grow, lemma_lock_frame, is_balance_op, lemma_apply_all_push, lemma_balance_key_injective, lemma_balance_ops_keep_locks, lemma_deposit_frame,
    locks_covered, balance_key, Ledger, LedgerOp, LedgerView,
};
use crate::subscription::StakedTokenManager;
use crate::types::{AccountId, Balance, BlockNumber, CurrencyId, Error, Origin, TokenSymbol};
use vstd::hash_map::HashMapWithView;
use vstd::prelude::*;

verus! {

/// The fixed parameters of the engine.
#[derive(Clone, Copy, Debug, PartialEq, Eq, Structural)]
pub struct Config {
    /// Share of each mint credited to the reward destination (fixed-point).
    pub treasury_share: u128,
    /// Share of each mint credited to the DAO (fixed-point).
    pub dao_share: u128,
    /// Exchange rate used while nothing is staked (fixed-point, not zero).
    pub default_exchange_rate: u128,
    /// Inflation happens at every block that is a multiple of this (not zero).
    pub inflation_period: BlockNumber,
    /// Share of the issuance of the governance token minted per inflation (fixed-point).
    pub inflation_rate: u128,
    /// The engine's own account, which holds the staked governance tokens.
    pub pallet_account: AccountId,
    pub fee_dest_account: AccountId,
    pub dao_account: AccountId,
    pub reward_dest_account: AccountId,
    /// The largest number of vesting chunks an account may have.
    pub max_vesting_chunks: u32,
}

impl Config {
    pub open spec fn wf(self) -> bool {
        self.default_exchange_rate != 0 && self.inflation_period != 0
    }
}

/// An amount that unlocks at a block.
#[derive(Clone, Copy, Debug, PartialEq, Eq, Structural)]
pub struct VestingChunk {
    pub value: Balance,
    pub unlock_at: BlockNumber,
}

/// The vesting of one account: its chunks and their total.
#[derive(Debug)]
pub struct BondingLedger {
    pub total: Balance,
    pub unlocking: Vec<VestingChunk>,
}

/// The sum of the chunks' values.
pub open spec fn chunks_sum(s: Seq<VestingChunk>) -> nat
    decreases s.len(),
{
    if s.len() == 0 {
        0
    } else {
        chunks_sum(s.drop_last()) + s.last().value as nat
    }
}

/// The sum of the values of the chunks that have unlocked at `now`.
pub open spec fn matured_sum(s: Seq<VestingChunk>, now: BlockNumber) -> nat
    decreases s.len(),
{
    if s.len() == 0 {
        0
    } else {
        matured_sum(s.drop_last(), now) + if s.last().unlock_at <= now {
            s.last().value as nat
        } else {
            0
        }
    }
}

/// The chunks that are still locked at `now`, in order.
pub open spec fn pending(s: Seq<VestingChunk>, now: BlockNumber) -> Seq<VestingChunk>
    decreases s.len(),
{
    if s.len() == 0 {
        s
    } else if s.last().unlock_at <= now {
        pending(s.drop_last(), now)
    } else {
        pending(s.drop_last(), now).push(s.last())
    }
}

proof fn lemma_split_sum(s: Seq<VestingChunk>, now: BlockNumber)
    ensures
        chunks_sum(s) == matured_sum(s, now) + chunks_sum(pending(s, now)),
    decreases s.len(),
{
    if s.len() > 0 {
        lemma_split_sum(s.drop_last(), now);
        let p = pending(s.drop_last(), now);
        assert(p.push(s.last()).drop_last() =~= p);
    }
}

impl BondingLedger {
    pub open spec fn wf(&self, max_chunks: u32) -> bool {
        &&& self.total == chunks_sum(self.unlocking@)
        &&& self.unlocking@.len() <= max_chunks
    }
}

/// The exchange rate: governance tokens held by the engine per staked token
/// issued, or the default while none is issued.
pub open spec fn exchange_rate_spec(cfg: Config, v: LedgerView) -> u128 {
    let total = v.free(CurrencyId::Token(TokenSymbol::ADAO), cfg.pallet_account);
    let supply = v.total_issuance(CurrencyId::Token(TokenSymbol::SDAO));
    if supply == 0 || mul_div_spec(total as int, ACC as int, supply as int) > u128::MAX {
        cfg.default_exchange_rate
    } else {
        mul_div_spec(total as int, ACC as int, supply as int) as u128
    }
}

/// Staked tokens for `amount` governance tokens: `floor(amount / rate)`
/// (at the default rate where the rate is zero).
pub open spec fn to_staked_spec(cfg: Config, v: LedgerView, amount: u128) -> Option<u128> {
    let rate = exchange_rate_spec(cfg, v);
    let x = if rate == 0 { cfg.default_exchange_rate } else { rate };
    if x == 0 || mul_div_spec(amount as int, ACC as int, x as int) > u128::MAX {
        None
    } else {
        Some(mul_div_spec(amount as int, ACC as int, x as int) as u128)
    }
}

/// Governance tokens for `amount` staked tokens: `floor(amount * rate)`.
pub open spec fn from_staked_spec(cfg: Config, v: LedgerView, amount: u128) -> Option<u128> {
    let rate = exchange_rate_spec(cfg, v);
    if mul_div_spec(amount as int, rate as int, ACC as int) <= u128::MAX {
        Some(mul_div_spec(amount as int, rate as int, ACC as int) as u128)
    } else {
        None
    }
}

/// The gross mint for `amount` and its treasury and DAO parts:
/// `m = floor(amount / (1 - f))` with `f = treasury_share + dao_share`,
/// `m_t = floor(m * treasury_share)`, `m_d = floor(m * dao_share)`.
pub open spec fn mint_split_spec(cfg: Config, amount: u128) -> Result<(u128, u128, u128), Error> {
    let f = cfg.treasury_share + cfg.dao_share;
    if f > u128::MAX {
        Err(Error::Overflow)
    } else if f > ACC {
        Err(Error::Underflow)
    } else if f == ACC {
        Err(Error::DivisionByZero)
    } else {
        let m = mul_div_spec(amount as int, ACC as int, ACC - f);
        let mt = mul_div_spec(m, cfg.treasury_share as int, ACC as int);
        let md = mul_div_spec(m, cfg.dao_share as int, ACC as int);
        if m > u128::MAX || mt > u128::MAX || md > u128::MAX {
            Err(Error::Overflow)
        } else {
            Ok((m as u128, mt as u128, md as u128))
        }
    }
}

/// The exchange rate of the engine whose parameters are `cfg`, on `ledger`.
pub fn current_exchange_rate(cfg: &Config, ledger: &Ledger) -> (r: u128)
    ensures
        r == exchange_rate_spec(*cfg, ledger@),
{
    let total = ledger.free_balance(CurrencyId::Token(TokenSymbol::ADAO), cfg.pallet_account);
    let supply = ledger.total_issuance(CurrencyId::Token(TokenSymbol::SDAO));
    if supply == 0 {
        cfg.default_exchange_rate
    } else {
        match checked_from_rational(total, supply) {
            Some(r) => r,
            None => cfg.default_exchange_rate,
        }
    }
}

/// Staked tokens for `amount` governance tokens at the current rate.
pub fn to_staked(cfg: &Config, ledger: &Ledger, amount: u128) -> (r: Result<u128, Error>)
    requires
        cfg.wf(),
    ensures
        r == (match to_staked_spec(*cfg, ledger@, amount) {
            Some(s) => Ok::<u128, Error>(s),
            None => Err(Error::Overflow),
        }),
{
    let rate = current_exchange_rate(cfg, ledger);
    let x = if rate == 0 {
        cfg.default_exchange_rate
    } else {
        rate
    };
    match mul_div(amount, ACC, x) {
        Some(s) => Ok(s),
        None => Err(Error::Overflow),
    }
}

/// Governance tokens for `amount` staked tokens at the current rate.
pub fn from_staked(cfg: &Config, ledger: &Ledger, amount: u128) -> (r: Result<u128, Error>)
    ensures
        r == (match from_staked_spec(*cfg, ledger@, amount) {
            Some(s) => Ok::<u128, Error>(s),
            None => Err(Error::Overflow),
        }),
{
    let rate = current_exchange_rate(cfg, ledger);
    match checked_mul_int(rate, amount) {
        Some(s) => Ok(s),
        None => Err(Error::Overflow),
    }
}

/// The gross mint for `amount` and its treasury and DAO parts.
pub fn mint_split(cfg: &Config, amount: u128) -> (r: Result<(u128, u128, u128), Error>)
    ensures
        r == mint_split_spec(*cfg, amount),
{
    let f = match cfg.treasury_share.checked_add(cfg.dao_share) {
        Some(f) => f,
        None => return Err(Error::Overflow),
    };
    if f > ACC {
        return Err(Error::Underflow);
    }
    if f == ACC {
        return Err(Error::DivisionByZero);
    }
    let m = match mul_div(amount, ACC, ACC - f) {
        Some(m) => m,
        None => return Err(Error::Overflow),
    };
    let mt = match checked_mul_int(cfg.treasury_share, m) {
        Some(x) => x,
        None => return Err(Error::Overflow),
    };
    let md = match checked_mul_int(cfg.dao_share, m) {
        Some(x) => x,
        None => return Err(Error::Overflow),
    };
    Ok((m, mt, md))
}


/// The chunks after vesting `amount` more until `at`: merged into the last
/// chunk where it unlocks at the same block, else appended.
pub open spec fn with_chunk(s: Seq<VestingChunk>, amount: u128, at: BlockNumber) -> Seq<VestingChunk> {
    if s.len() > 0 && s.last().unlock_at == at {
        s.update(s.len() - 1, VestingChunk { value: (s.last().value + amount) as u128, unlock_at: at })
    } else {
        s.push(VestingChunk { value: amount, unlock_at: at })
    }
}

/// The chunks of `who` in `vesting`, none where it has no ledger.
pub open spec fn chunks_of(vesting: Map<AccountId, BondingLedger>, who: AccountId) -> Seq<VestingChunk> {
    if vesting.contains_key(who) {
        vesting[who].unlocking@
    } else {
        Seq::empty()
    }
}

/// The vested total of `who` in `vesting`, zero where it has no ledger.
pub open spec fn total_of(vesting: Map<AccountId, BondingLedger>, who: AccountId) -> nat {
    if vesting.contains_key(who) {
        vesting[who].total as nat
    } else {
        0
    }
}

/// How vesting `amount` more until `at` changes `who`'s ledger: `Ok(Some(t))`
/// with the new total `t`, `Ok(None)` where nothing is vested, or the error.
pub open spec fn vesting_plan(
    vesting: Map<AccountId, BondingLedger>,
    who: AccountId,
    amount: u128,
    at: BlockNumber,
    max_chunks: u32,
) -> Result<Option<u128>, Error> {
    let s = chunks_of(vesting, who);
    if amount == 0 {
        if vesting.contains_key(who) {
            Ok(None)
        } else {
            Err(Error::VestingNotFound)
        }
    } else if !(s.len() > 0 && s.last().unlock_at == at) && s.len() >= max_chunks {
        Err(Error::MaxVestingChunkExceeded)
    } else if total_of(vesting, who) + amount > u128::MAX {
        Err(Error::Overflow)
    } else {
        Ok(Some((total_of(vesting, who) + amount) as u128))
    }
}

/// `new` is `old` with `who`'s ledger holding `total` over `chunks`.
pub open spec fn vesting_set(
    new: Map<AccountId, BondingLedger>,
    old: Map<AccountId, BondingLedger>,
    who: AccountId,
    total: u128,
    chunks: Seq<VestingChunk>,
) -> bool {
    &&& new.dom() == old.dom().insert(who)
    &&& forall|a: AccountId| a != who && #[trigger] old.contains_key(a) ==> new[a] == old[a]
    &&& new[who].total == total
    &&& new[who].unlocking@ == chunks
}

/// `new` is `old` without `who`'s ledger.
pub open spec fn vesting_removed(new: Map<AccountId, BondingLedger>, old: Map<AccountId, BondingLedger>, who: AccountId) -> bool {
    &&& new.dom() == old.dom().remove(who)
    &&& forall|a: AccountId| a != who && #[trigger] old.contains_key(a) ==> new[a] == old[a]
}

/// The block `now + period`, saturating.
pub open spec fn unlock_block(now: BlockNumber, period: BlockNumber) -> BlockNumber {
    if now + period > u64::MAX {
        u64::MAX
    } else {
        (now + period) as u64
    }
}

/// The amounts of a mint for `amount`: `(m, staked, dao_staked, treasury_staked)`,
/// the gross mint and the staked tokens of the subscriber, the DAO and the
/// reward destination.
pub open spec fn mint_quote(cfg: Config, v: LedgerView, amount: u128) -> Result<(u128, u128, u128, u128), Error> {
    match mint_split_spec(cfg, amount) {
        Err(e) => Err(e),
        Ok((m, mt, md)) => match (
            to_staked_spec(cfg, v, mt),
            to_staked_spec(cfg, v, md),
            to_staked_spec(cfg, v, amount),
        ) {
            (Some(ts), Some(ds), Some(st)) => Ok((m, st, ds, ts)),
            _ => Err(Error::Overflow),
        },
    }
}

/// A lock of `total` on `who`'s staked tokens, where there is a new total.
pub open spec fn lock_ops(who: AccountId, plan: Option<u128>) -> Seq<LedgerOp> {
    match plan {
        Some(t) => seq![LedgerOp::SetLock(CurrencyId::Token(TokenSymbol::SDAO), who, t)],
        None => Seq::empty(),
    }
}

proof fn lemma_with_chunk_sum(s: Seq<VestingChunk>, amount: u128, at: BlockNumber)
    requires
        chunks_sum(s) + amount <= u128::MAX,
    ensures
        chunks_sum(with_chunk(s, amount, at)) == chunks_sum(s) + amount,
        with_chunk(s, amount, at).len() == if s.len() > 0 && s.last().unlock_at == at {
            s.len()
        } else {
            s.len() + 1
        },
{
    let w = with_chunk(s, amount, at);
    if s.len() > 0 && s.last().unlock_at == at {
        assert(w.drop_last() =~= s.drop_last());
    } else {
        assert(w.drop_last() =~= s);
    }
}

proof fn lemma_prefix_sum_le(s: Seq<VestingChunk>, i: int)
    requires
        0 <= i <= s.len(),
    ensures
        chunks_sum(s.subrange(0, i)) <= chunks_sum(s),
    decreases s.len(),
{
    if i == s.len() {
        assert(s.subrange(0, i) =~= s);
    } else {
        assert(s.subrange(0, i) =~= s.drop_last().subrange(0, i));
        lemma_prefix_sum_le(s.drop_last(), i);
    }
}

/// The amounts of an inflation of `amount`: `(m, dao_staked, treasury_staked)`.
pub open spec fn inflate_quote(cfg: Config, v: LedgerView, amount: u128) -> Result<(u128, u128, u128), Error> {
    match mint_split_spec(cfg, amount) {
        Err(e) => Err(e),
        Ok((m, mt, md)) => match (to_staked_spec(cfg, v, mt), to_staked_spec(cfg, v, md)) {
            (Some(ts), Some(ds)) => Ok((m, ds, ts)),
            _ => Err(Error::Overflow),
        },
    }
}

/// `after` is `before` after a successful mint of `amount` for `who` that
/// took the ledger from `v0` to `v1`: the ledger operations of the mint and
/// the lock, the reward record, and the vesting.
pub open spec fn mint_applied(
    before: Pallet,
    after: Pallet,
    v0: LedgerView,
    v1: LedgerView,
    who: AccountId,
    amount: Balance,
    vesting_period: BlockNumber,
    now: BlockNumber,
) -> bool {
    let at = unlock_block(now, vesting_period);
    match mint_quote(before.config, v0, amount) {
        Err(_) => false,
        Ok((m, st, ds, ts)) => match vesting_plan(before.vesting@, who, st, at, before.config.max_vesting_chunks) {
            Err(_) => false,
            Ok(plan) => {
                &&& v0.apply_all(mint_ops(before.config, Some(who), m, st, ds, ts) + lock_ops(who, plan)) == Ok::<
                    LedgerView,
                    Error,
                >(v1)
                &&& after.config == before.config
                &&& after.unstake_fee_rate == before.unstake_fee_rate
                &&& after.deposited_rewards@ == before.deposited_rewards@.push(ts)
                &&& match plan {
                    Some(t) => vesting_set(after.vesting@, before.vesting@, who, t, with_chunk(chunks_of(before.vesting@, who), st, at))
                        && after.events@ == before.events@.push(Event::VestingAdded { who, amount: st }),
                    None => after.vesting@ == before.vesting@ && after.events@ == before.events@,
                }
            },
        },
    }
}

/// The outcome of a subscription mint of `amount` for `who` on the ledger
/// `v`: the first failure of the quote, the vesting plan and the ledger
/// operations.
pub open spec fn mint_outcome(p: Pallet, v: LedgerView, who: AccountId, amount: Balance, vesting_period: BlockNumber, now: BlockNumber) -> Result<(), Error> {
    match mint_quote(p.config, v, amount) {
        Err(e) => Err(e),
        Ok((m, st, ds, ts)) => match vesting_plan(p.vesting@, who, st, unlock_block(now, vesting_period), p.config.max_vesting_chunks) {
            Err(e) => Err(e),
            Ok(plan) => match v.apply_all(mint_ops(p.config, Some(who), m, st, ds, ts) + lock_ops(who, plan)) {
                Err(e) => Err(e),
                Ok(_) => Ok(()),
            },
        },
    }
}

/// What the engine reports.
#[derive(Clone, Copy, Debug, PartialEq, Eq, Structural)]
pub enum Event {
    Staked { who: AccountId, amount: Balance, received: Balance },
    Unstaked { who: AccountId, amount: Balance, received: Balance },
    Claimed { who: AccountId, amount: Balance },
    UnstakeFeeRateUpdated { rate: u128 },
    VestingAdded { who: AccountId, amount: Balance },
}

/// The staked-token engine.
pub struct Pallet {
    pub config: Config,
    /// Share of each unstaked amount kept as a fee (fixed-point).
    pub unstake_fee_rate: u128,
    /// The vesting ledger of each account that has one.
    pub vesting: HashMapWithView<AccountId, BondingLedger>,
    /// The events, oldest first.
    pub events: Vec<Event>,
    /// The staked amounts credited to the reward destination, oldest first.
    pub deposited_rewards: Vec<Balance>,
}

/// The operations of a stake of `amount`, credited `received`.
pub open spec fn stake_ops(cfg: Config, who: AccountId, amount: Balance, received: Balance) -> Seq<LedgerOp> {
    seq![
        LedgerOp::Transfer(CurrencyId::Token(TokenSymbol::ADAO), who, cfg.pallet_account, amount),
        LedgerOp::Deposit(CurrencyId::Token(TokenSymbol::SDAO), who, received),
    ]
}

/// The operations of an unstake of `amount`, paying back `received` and `fee`.
pub open spec fn unstake_ops(cfg: Config, who: AccountId, amount: Balance, received: Balance, fee: Balance) -> Seq<LedgerOp> {
    seq![
        LedgerOp::Withdraw(CurrencyId::Token(TokenSymbol::SDAO), who, amount),
        LedgerOp::Transfer(CurrencyId::Token(TokenSymbol::ADAO), cfg.pallet_account, who, received),
        LedgerOp::Transfer(CurrencyId::Token(TokenSymbol::ADAO), cfg.pallet_account, cfg.fee_dest_account, fee),
    ]
}

/// The operations of a mint of `m`, crediting `staked` to `who` (when there is
/// one), `dao_staked` to the DAO and `treasury_staked` to the reward destination.
pub open spec fn mint_ops(
    cfg: Config,
    who: Option<AccountId>,
    m: Balance,
    staked: Balance,
    dao_staked: Balance,
    treasury_staked: Balance,
) -> Seq<LedgerOp> {
    let first = match who {
        Some(w) => seq![
            LedgerOp::Deposit(CurrencyId::Token(TokenSymbol::ADAO), cfg.pallet_account, m),
            LedgerOp::Deposit(CurrencyId::Token(TokenSymbol::SDAO), w, staked),
        ],
        None => seq![LedgerOp::Deposit(CurrencyId::Token(TokenSymbol::ADAO), cfg.pallet_account, m)],
    };
    first + seq![
        LedgerOp::Deposit(CurrencyId::Token(TokenSymbol::SDAO), cfg.dao_account, dao_staked),
        LedgerOp::Deposit(CurrencyId::Token(TokenSymbol::SDAO), cfg.reward_dest_account, treasury_staked),
    ]
}

impl Pallet {
    /// The engine's invariant over the ledger it runs on: every vesting
    /// ledger is well formed and its total is exactly the lock on the
    /// account's staked tokens, which its free balance covers.
    pub open spec fn inv(&self, v: LedgerView) -> bool {
        &&& self.config.wf()
        &&& locks_covered(v)
        &&& forall|a: AccountId| #[trigger] self.vesting@.contains_key(a) ==> self.vesting@[a].wf(self.config.max_vesting_chunks)
        &&& forall|a: AccountId| #[trigger] v.locked(CurrencyId::Token(TokenSymbol::SDAO), a) == if self.vesting@.contains_key(a) {
            self.vesting@[a].total as nat
        } else {
            0
        }
    }

    /// The exchange rate on `ledger`.
    pub fn exchange_rate(&self, ledger: &Ledger) -> (r: u128)
        ensures
            r == exchange_rate_spec(self.config, ledger@),
    {
        current_exchange_rate(&self.config, ledger)
    }

    /// The engine's own account.
    pub fn account_id(&self) -> (r: AccountId)
        ensures
            r == self.config.pallet_account,
    {
        self.config.pallet_account
    }

    /// A new engine with no vesting and a zero unstake fee.
    pub fn new(config: Config) -> (r: Pallet)
        requires
            config.wf(),
        ensures
            r.config == config,
            r.unstake_fee_rate == 0,
            r.vesting@ == Map::<AccountId, BondingLedger>::empty(),
            r.events@ == Seq::<Event>::empty(),
            r.deposited_rewards@ == Seq::<Balance>::empty(),
            forall|v: LedgerView|
                locks_covered(v) && (forall|a: AccountId| #[trigger] v.locked(CurrencyId::Token(TokenSymbol::SDAO), a) == 0)
                    ==> r.inv(v),
    {
        Pallet {
            config,
            unstake_fee_rate: 0,
            vesting: HashMapWithView::new(),
            events: Vec::new(),
            deposited_rewards: Vec::new(),
        }
    }

    /// Stakes `amount` governance tokens of the signed caller for staked
    /// tokens at the current exchange rate. A zero amount does nothing.
    pub fn stake(&mut self, ledger: &mut Ledger, origin: Origin, amount: Balance) -> (r: Result<(), Error>)
        requires
            old(self).inv(old(ledger)@),
        ensures
            final(self).inv(final(ledger)@),
            final(self).config == old(self).config,
            final(self).unstake_fee_rate == old(self).unstake_fee_rate,
            final(self).vesting@ == old(self).vesting@,
            final(self).deposited_rewards@ == old(self).deposited_rewards@,
            match origin {
                Origin::Root => r == Err::<(), Error>(Error::BadOrigin) && final(ledger)@ == old(ledger)@
                    && final(self).events@ == old(self).events@,
                Origin::Signed(who) => if amount == 0 {
                    r is Ok && final(ledger)@ == old(ledger)@ && final(self).events@ == old(self).events@
                } else {
                    match to_staked_spec(old(self).config, old(ledger)@, amount) {
                        None => r == Err::<(), Error>(Error::Overflow) && final(ledger)@ == old(ledger)@
                            && final(self).events@ == old(self).events@,
                        Some(s) => match old(ledger)@.apply_all(stake_ops(old(self).config, who, amount, s)) {
                            Ok(v) => r is Ok && final(ledger)@ == v && final(self).events@ == old(self).events@.push(
                                Event::Staked { who, amount, received: s },
                            ),
                            Err(e) => r == Err::<(), Error>(e) && final(ledger)@ == old(ledger)@
                                && final(self).events@ == old(self).events@,
                        },
                    }
                },
            },
    {
        let who = match origin {
            Origin::Signed(w) => w,
            Origin::Root => return Err(Error::BadOrigin),
        };
        if amount == 0 {
            return Ok(());
        }
        let received = to_staked(&self.config, ledger, amount)?;
        let ops = vec![
            LedgerOp::Transfer(CurrencyId::Token(TokenSymbol::ADAO), who, self.config.pallet_account, amount),
            LedgerOp::Deposit(CurrencyId::Token(TokenSymbol::SDAO), who, received),
        ];
        assert(ops@ == stake_ops(self.config, who, amount, received));
        let ghost v0 = ledger@;
        ledger.apply_all(&ops)?;
        proof {
            self.lemma_balance_ops_keep_inv(v0, ops@);
        }
        self.events.push(Event::Staked { who, amount, received });
        Ok(())
    }

    /// Balance operations keep the invariant.
    proof fn lemma_balance_ops_keep_inv(&self, v: LedgerView, ops: Seq<LedgerOp>)
        requires
            self.inv(v),
            forall|i: int| 0 <= i < ops.len() ==> is_balance_op(#[trigger] ops[i]),
            v.apply_all(ops) is Ok,
        ensures
            self.inv(v.apply_all(ops)->Ok_0),
    {
        lemma_balance_ops_keep_locks(v, ops);
        let w = v.apply_all(ops)->Ok_0;
        assert forall|a: AccountId| #[trigger] w.locked(CurrencyId::Token(TokenSymbol::SDAO), a) == v.locked(
            CurrencyId::Token(TokenSymbol::SDAO),
            a,
        ) by {}
    }

    /// Unstakes `amount` staked tokens of the signed caller: pays back their
    /// value at the current exchange rate less the unstake fee, which goes to
    /// the fee destination. A zero amount does nothing.
    pub fn unstake(&mut self, ledger: &mut Ledger, origin: Origin, amount: Balance) -> (r: Result<(), Error>)
        requires
            old(self).inv(old(ledger)@),
        ensures
            final(self).inv(final(ledger)@),
            final(self).config == old(self).config,
            final(self).unstake_fee_rate == old(self).unstake_fee_rate,
            final(self).vesting@ == old(self).vesting@,
            final(self).deposited_rewards@ == old(self).deposited_rewards@,
            match origin {
                Origin::Root => r == Err::<(), Error>(Error::BadOrigin) && final(ledger)@ == old(ledger)@
                    && final(self).events@ == old(self).events@,
                Origin::Signed(who) => if amount == 0 {
                    r is Ok && final(ledger)@ == old(ledger)@ && final(self).events@ == old(self).events@
                } else {
                    match from_staked_spec(old(self).config, old(ledger)@, amount) {
                        None => r == Err::<(), Error>(Error::Overflow) && final(ledger)@ == old(ledger)@
                            && final(self).events@ == old(self).events@,
                        Some(redeem) => {
                            let fee = mul_div_spec(redeem as int, old(self).unstake_fee_rate as int, ACC as int);
                            if fee > u128::MAX {
                                r == Err::<(), Error>(Error::Overflow) && final(ledger)@ == old(ledger)@
                                    && final(self).events@ == old(self).events@
                            } else if fee > redeem {
                                r == Err::<(), Error>(Error::Underflow) && final(ledger)@ == old(ledger)@
                                    && final(self).events@ == old(self).events@
                            } else {
                                let received = (redeem - fee) as u128;
                                match old(ledger)@.apply_all(
                                    unstake_ops(old(self).config, who, amount, received, fee as u128),
                                ) {
                                    Ok(v) => r is Ok && final(ledger)@ == v && final(self).events@
                                        == old(self).events@.push(Event::Unstaked { who, amount, received }),
                                    Err(e) => r == Err::<(), Error>(e) && final(ledger)@ == old(ledger)@
                                        && final(self).events@ == old(self).events@,
                                }
                            }
                        },
                    }
                },
            },
    {
        let who = match origin {
            Origin::Signed(w) => w,
            Origin::Root => return Err(Error::BadOrigin),
        };
        if amount == 0 {
            return Ok(());
        }
        let redeem = from_staked(&self.config, ledger, amount)?;
        let fee = match checked_mul_int(self.unstake_fee_rate, redeem) {
            Some(f) => f,
            None => return Err(Error::Overflow),
        };
        if fee > redeem {
            return Err(Error::Underflow);
        }
        let received = redeem - fee;
        let ops = vec![
            LedgerOp::Withdraw(CurrencyId::Token(TokenSymbol::SDAO), who, amount),
            LedgerOp::Transfer(CurrencyId::Token(TokenSymbol::ADAO), self.config.pallet_account, who, received),
            LedgerOp::Transfer(
                CurrencyId::Token(TokenSymbol::ADAO),
                self.config.pallet_account,
                self.config.fee_dest_account,
                fee,
            ),
        ];
        assert(ops@ == unstake_ops(self.config, who, amount, received, fee));
        let ghost v0 = ledger@;
        ledger.apply_all(&ops)?;
        proof {
            self.lemma_balance_ops_keep_inv(v0, ops@);
        }
        self.events.push(Event::Unstaked { who, amount, received });
        Ok(())
    }

    /// Sets the unstake fee rate; root only.
    pub fn update_unstake_fee_rate(&mut self, origin: Origin, rate: u128) -> (r: Result<(), Error>)
        ensures
            final(self).config == old(self).config,
            final(self).vesting@ == old(self).vesting@,
            final(self).deposited_rewards@ == old(self).deposited_rewards@,
            origin == Origin::Root ==> r is Ok && final(self).unstake_fee_rate == rate && final(self).events@
                == old(self).events@.push(Event::UnstakeFeeRateUpdated { rate }),
            origin != Origin::Root ==> r == Err::<(), Error>(Error::BadOrigin) && final(self).unstake_fee_rate
                == old(self).unstake_fee_rate && final(self).events@ == old(self).events@,
    {
        match origin {
            Origin::Root => {},
            Origin::Signed(_) => return Err(Error::BadOrigin),
        }
        self.unstake_fee_rate = rate;
        self.events.push(Event::UnstakeFeeRateUpdated { rate });
        Ok(())
    }

    /// Mints `amount` governance tokens for a subscriber: the gross mint
    /// `m = floor(amount / (1 - f))` goes to the engine's account, the
    /// subscriber is credited the staked value of `amount` and the DAO and the
    /// reward destination that of their shares of `m`; the subscriber's staked
    /// tokens vest until `now + vesting_period`, under the lock.
    pub fn mint(
        &mut self,
        ledger: &mut Ledger,
        who: AccountId,
        amount: Balance,
        vesting_period: BlockNumber,
        now: BlockNumber,
    ) -> (r: Result<(), Error>)
        requires
            old(self).inv(old(ledger)@),
        ensures
            final(self).inv(final(ledger)@),
            final(self).config == old(self).config,
            final(self).unstake_fee_rate == old(self).unstake_fee_rate,
            r is Err ==> *final(self) == *old(self),
            r == mint_outcome(*old(self), old(ledger)@, who, amount, vesting_period, now),
            r is Ok ==> mint_applied(*old(self), *final(self), old(ledger)@, final(ledger)@, who, amount, vesting_period, now),
            match mint_quote(old(self).config, old(ledger)@, amount) {
                Err(e) => r == Err::<(), Error>(e) && final(self).unchanged(*old(self)) && final(ledger)@ == old(ledger)@,
                Ok((m, st, ds, ts)) => {
                    let at = unlock_block(now, vesting_period);
                    match vesting_plan(old(self).vesting@, who, st, at, old(self).config.max_vesting_chunks) {
                        Err(e) => r == Err::<(), Error>(e) && final(self).unchanged(*old(self)) && final(ledger)@
                            == old(ledger)@,
                        Ok(plan) => match old(ledger)@.apply_all(
                            mint_ops(old(self).config, Some(who), m, st, ds, ts) + lock_ops(who, plan),
                        ) {
                            Err(e) => r == Err::<(), Error>(e) && final(self).unchanged(*old(self)) && final(ledger)@
                                == old(ledger)@,
                            Ok(w) => {
                                &&& r is Ok
                                &&& final(ledger)@ == w
                                &&& final(self).deposited_rewards@ == old(self).deposited_rewards@.push(ts)
                                &&& match plan {
                                    Some(t) => vesting_set(
                                        final(self).vesting@,
                                        old(self).vesting@,
                                        who,
                                        t,
                                        with_chunk(chunks_of(old(self).vesting@, who), st, at),
                                    ) && final(self).events@ == old(self).events@.push(
                                        Event::VestingAdded { who, amount: st },
                                    ),
                                    None => final(self).vesting@ == old(self).vesting@ && final(self).events@
                                        == old(self).events@,
                                }
                            },
                        },
                    }
                },
            },
    {
        let (m, mt, md) = mint_split(&self.config, amount)?;
        let ts = to_staked(&self.config, ledger, mt)?;
        let ds = to_staked(&self.config, ledger, md)?;
        let st = to_staked(&self.config, ledger, amount)?;
        let at = now.saturating_add(vesting_period);
        let max = self.config.max_vesting_chunks;
        let plan: Option<u128> = if st == 0 {
            if !self.vesting.contains_key(&who) {
                return Err(Error::VestingNotFound);
            }
            None
        } else {
            match self.vesting.get(&who) {
                None => {
                    if max == 0 {
                        return Err(Error::MaxVestingChunkExceeded);
                    }
                    Some(st)
                },
                Some(l) => {
                    let n = l.unlocking.len();
                    let merge = n > 0 && l.unlocking[n - 1].unlock_at == at;
                    if !merge && n >= max as usize {
                        return Err(Error::MaxVestingChunkExceeded);
                    }
                    match l.total.checked_add(st) {
                        Some(t) => Some(t),
                        None => return Err(Error::Overflow),
                    }
                },
            }
        };
        assert(plan == vesting_plan(self.vesting@, who, st, at, max)->Ok_0);
        let mut ops = vec![
            LedgerOp::Deposit(CurrencyId::Token(TokenSymbol::ADAO), self.config.pallet_account, m),
            LedgerOp::Deposit(CurrencyId::Token(TokenSymbol::SDAO), who, st),
            LedgerOp::Deposit(CurrencyId::Token(TokenSymbol::SDAO), self.config.dao_account, ds),
            LedgerOp::Deposit(CurrencyId::Token(TokenSymbol::SDAO), self.config.reward_dest_account, ts),
        ];
        let ghost base = ops@;
        assert(base =~= mint_ops(self.config, Some(who), m, st, ds, ts));
        match plan {
            Some(t) => ops.push(LedgerOp::SetLock(CurrencyId::Token(TokenSymbol::SDAO), who, t)),
            None => {},
        }
        assert(ops@ =~= base + lock_ops(who, plan));
        let ghost v0 = ledger@;
        ledger.apply_all(&ops)?;
        proof {
            let lock_op = LedgerOp::SetLock(CurrencyId::Token(TokenSymbol::SDAO), who, plan->Some_0);
            if plan is Some {
                assert(ops@ == base.push(lock_op));
                lemma_apply_all_push(v0, base, lock_op);
            } else {
                assert(ops@ =~= base);
            }
            assert forall|i: int| 0 <= i < base.len() implies is_deposit(#[trigger] base[i]) && is_balance_op(base[i]) by {}
            lemma_deposits_grow(v0, base);
            self.lemma_balance_ops_keep_inv(v0, base);
            let v1 = v0.apply_all(base)->Ok_0;
            assert(base[1] == LedgerOp::Deposit(CurrencyId::Token(TokenSymbol::SDAO), who, st));
            assert(v1.free(CurrencyId::Token(TokenSymbol::SDAO), who) >= v0.free(CurrencyId::Token(TokenSymbol::SDAO), who) + st);
            if plan is Some {
                lemma_lock_frame(v1, lock_op);
                let v2 = v1.apply(lock_op)->Ok_0;
                assert(v0.locked(CurrencyId::Token(TokenSymbol::SDAO), who) == total_of(self.vesting@, who));
                assert(v0.locked(CurrencyId::Token(TokenSymbol::SDAO), who) <= v0.free(CurrencyId::Token(TokenSymbol::SDAO), who));
                assert forall|c: CurrencyId, a: AccountId| #[trigger] v2.locked(c, a) <= v2.free(c, a) by {
                    assert(v1.locked(c, a) <= v1.free(c, a));
                    assert(v2.free(c, a) == v1.free(c, a));
                }
                assert(locks_covered(v2));
            }
        }
        let ghost old_vesting = self.vesting@;
        match plan {
            Some(t) => {
                let mut l = match self.vesting.remove(&who) {
                    Some(l) => l,
                    None => BondingLedger { total: 0, unlocking: Vec::new() },
                };
                proof {
                    assert(l.unlocking@ == chunks_of(old_vesting, who));
                    if old_vesting.contains_key(who) {
                        assert(old_vesting[who].wf(max));
                    }
                    lemma_with_chunk_sum(l.unlocking@, st, at);
                }
                let n = l.unlocking.len();
                if n > 0 && l.unlocking[n - 1].unlock_at == at {
                    let last = l.unlocking[n - 1];
                    l.unlocking.set(n - 1, VestingChunk { value: last.value + st, unlock_at: at });
                } else {
                    l.unlocking.push(VestingChunk { value: st, unlock_at: at });
                }
                l.total = t;
                self.vesting.insert(who, l);
                self.events.push(Event::VestingAdded { who, amount: st });
                proof {
                    assert(self.vesting@.dom() =~= old_vesting.dom().insert(who));
                }
            },
            None => {},
        }
        self.deposited_rewards.push(ts);
        proof {
            let v2 = ledger@;
            assert forall|a: AccountId| #[trigger] self.vesting@.contains_key(a) implies self.vesting@[a].wf(
                self.config.max_vesting_chunks,
            ) by {
                if a != who {
                    assert(old_vesting.contains_key(a));
                }
            }
            assert forall|a: AccountId| #[trigger] v2.locked(CurrencyId::Token(TokenSymbol::SDAO), a) == if self.vesting@.contains_key(a) {
                self.vesting@[a].total as nat
            } else {
                0
            } by {
                if a != who && old_vesting.contains_key(a) {
                    assert(self.vesting@.contains_key(a));
                }
            }
        }
        Ok(())
    }

    /// The fields other than the ledger-independent parameters are as in `other`.
    pub open spec fn unchanged(&self, other: Pallet) -> bool {
        &&& self.vesting@ == other.vesting@
        &&& self.events@ == other.events@
        &&& self.deposited_rewards@ == other.deposited_rewards@
    }

    /// Releases the signed caller's vesting chunks that have unlocked at
    /// `now`, and lowers (or removes) the lock to what still vests. Fails
    /// with `VestingNotFound` where the caller has no vesting, or none of it
    /// has unlocked.
    pub fn claim(&mut self, ledger: &mut Ledger, origin: Origin, now: BlockNumber) -> (r: Result<(), Error>)
        requires
            old(self).inv(old(ledger)@),
        ensures
            final(self).inv(final(ledger)@),
            final(self).config == old(self).config,
            final(self).unstake_fee_rate == old(self).unstake_fee_rate,
            final(self).deposited_rewards@ == old(self).deposited_rewards@,
            match origin {
                Origin::Root => r == Err::<(), Error>(Error::BadOrigin) && final(self).unchanged(*old(self))
                    && final(ledger)@ == old(ledger)@,
                Origin::Signed(who) => if !old(self).vesting@.contains_key(who) {
                    r == Err::<(), Error>(Error::VestingNotFound) && final(self).unchanged(*old(self)) && final(ledger)@
                        == old(ledger)@
                } else {
                    let l = old(self).vesting@[who];
                    let released = matured_sum(l.unlocking@, now);
                    let rest = (l.total - released) as u128;
                    if released == 0 {
                        r == Err::<(), Error>(Error::VestingNotFound) && final(self).unchanged(*old(self))
                            && final(ledger)@ == old(ledger)@
                    } else {
                        &&& r is Ok
                        &&& final(self).events@ == old(self).events@.push(
                            Event::Claimed { who, amount: released as u128 },
                        )
                        &&& if rest == 0 {
                            vesting_removed(final(self).vesting@, old(self).vesting@, who) && final(ledger)@
                                == old(ledger)@.apply(LedgerOp::RemoveLock(CurrencyId::Token(TokenSymbol::SDAO), who))->Ok_0
                        } else {
                            vesting_set(final(self).vesting@, old(self).vesting@, who, rest, pending(l.unlocking@, now))
                                && final(ledger)@ == old(ledger)@.apply(
                                LedgerOp::SetLock(CurrencyId::Token(TokenSymbol::SDAO), who, rest),
                            )->Ok_0
                        }
                    }
                },
            },
    {
        let who = match origin {
            Origin::Signed(w) => w,
            Origin::Root => return Err(Error::BadOrigin),
        };
        let ghost old_vesting = self.vesting@;
        let (total, kept, released) = match self.vesting.get(&who) {
            None => return Err(Error::VestingNotFound),
            Some(l) => {
                let ghost s = l.unlocking@;
                proof {
                    assert(l.wf(self.config.max_vesting_chunks));
                    lemma_split_sum(s, now);
                }
                let mut kept: Vec<VestingChunk> = Vec::new();
                let mut released: u128 = 0;
                let mut i: usize = 0;
                while i < l.unlocking.len()
                    invariant
                        i <= l.unlocking.len(),
                        s == l.unlocking@,
                        chunks_sum(s) == l.total,
                        released == matured_sum(s.subrange(0, i as int), now),
                        kept@ == pending(s.subrange(0, i as int), now),
                    decreases l.unlocking.len() - i,
                {
                    let ch = l.unlocking[i];
                    proof {
                        let p = s.subrange(0, i as int + 1);
                        assert(p.drop_last() =~= s.subrange(0, i as int));
                        assert(p.last() == ch);
                        lemma_split_sum(p, now);
                        lemma_prefix_sum_le(s, i as int + 1);
                    }
                    if ch.unlock_at <= now {
                        released = released + ch.value;
                    } else {
                        kept.push(ch);
                    }
                    i = i + 1;
                }
                assert(s.subrange(0, s.len() as int) =~= s);
                (l.total, kept, released)
            },
        };
        if released == 0 {
            return Err(Error::VestingNotFound);
        }
        let rest = total - released;
        if rest == 0 {
            self.vesting.remove(&who);
            let ghost v0 = ledger@;
            let res = ledger.apply(LedgerOp::RemoveLock(CurrencyId::Token(TokenSymbol::SDAO), who));
            proof {
                lemma_lock_frame(v0, LedgerOp::RemoveLock(CurrencyId::Token(TokenSymbol::SDAO), who));
                assert(self.vesting@.dom() =~= old_vesting.dom().remove(who));
            }
        } else {
            self.vesting.insert(who, BondingLedger { total: rest, unlocking: kept });
            let ghost v0 = ledger@;
            let res = ledger.apply(LedgerOp::SetLock(CurrencyId::Token(TokenSymbol::SDAO), who, rest));
            proof {
                lemma_lock_frame(v0, LedgerOp::SetLock(CurrencyId::Token(TokenSymbol::SDAO), who, rest));
                assert(self.vesting@.dom() =~= old_vesting.dom().insert(who));
                assert(chunks_sum(kept@) == rest);
                assert(kept@.len() <= old_vesting[who].unlocking@.len()) by {
                    lemma_pending_len(old_vesting[who].unlocking@, now);
                }
            }
        }
        self.events.push(Event::Claimed { who, amount: released });
        proof {
            let v2 = ledger@;
            assert forall|c: CurrencyId, a: AccountId| #[trigger] v2.locked(c, a) <= v2.free(c, a) by {
                assert(old(ledger)@.locked(c, a) <= old(ledger)@.free(c, a));
            }
            assert forall|a: AccountId| #[trigger] self.vesting@.contains_key(a) implies self.vesting@[a].wf(
                self.config.max_vesting_chunks,
            ) by {
                if a != who {
                    assert(old_vesting.contains_key(a));
                }
            }
            assert forall|a: AccountId| #[trigger] v2.locked(CurrencyId::Token(TokenSymbol::SDAO), a) == if self.vesting@.contains_key(a) {
                self.vesting@[a].total as nat
            } else {
                0
            } by {
                if a != who && old_vesting.contains_key(a) {
                    assert(self.vesting@.contains_key(a));
                }
            }
        }
        Ok(())
    }

    /// Mints `amount` governance tokens as inflation: the gross mint goes to
    /// the engine's account and only the DAO and the reward destination are
    /// credited their shares.
    fn inflate(&mut self, ledger: &mut Ledger, amount: Balance) -> (r: Result<(), Error>)
        requires
            old(self).inv(old(ledger)@),
        ensures
            final(self).inv(final(ledger)@),
            final(self).config == old(self).config,
            final(self).unstake_fee_rate == old(self).unstake_fee_rate,
            final(self).vesting@ == old(self).vesting@,
            final(self).events@ == old(self).events@,
            match inflate_quote(old(self).config, old(ledger)@, amount) {
                Err(e) => r == Err::<(), Error>(e) && final(self).deposited_rewards@ == old(self).deposited_rewards@
                    && final(ledger)@ == old(ledger)@,
                Ok((m, ds, ts)) => match old(ledger)@.apply_all(mint_ops(old(self).config, None, m, 0, ds, ts)) {
                    Err(e) => r == Err::<(), Error>(e) && final(self).deposited_rewards@
                        == old(self).deposited_rewards@ && final(ledger)@ == old(ledger)@,
                    Ok(w) => r is Ok && final(ledger)@ == w && final(self).deposited_rewards@
                        == old(self).deposited_rewards@.push(ts),
                },
            },
    {
        let (m, mt, md) = mint_split(&self.config, amount)?;
        let ts = to_staked(&self.config, ledger, mt)?;
        let ds = to_staked(&self.config, ledger, md)?;
        let ops = vec![
            LedgerOp::Deposit(CurrencyId::Token(TokenSymbol::ADAO), self.config.pallet_account, m),
            LedgerOp::Deposit(CurrencyId::Token(TokenSymbol::SDAO), self.config.dao_account, ds),
            LedgerOp::Deposit(CurrencyId::Token(TokenSymbol::SDAO), self.config.reward_dest_account, ts),
        ];
        assert(ops@ =~= mint_ops(self.config, None, m, 0, ds, ts));
        let ghost v0 = ledger@;
        ledger.apply_all(&ops)?;
        proof {
            self.lemma_balance_ops_keep_inv(v0, ops@);
        }
        self.deposited_rewards.push(ts);
        Ok(())
    }

    /// The per-block hook: at every multiple of the inflation period, inflates
    /// the issuance of the governance token by the inflation rate. A failure
    /// leaves everything as it was and is not reported.
    pub fn on_initialize(&mut self, ledger: &mut Ledger, now: BlockNumber)
        requires
            old(self).inv(old(ledger)@),
        ensures
            final(self).inv(final(ledger)@),
            final(self).config == old(self).config,
            final(self).unstake_fee_rate == old(self).unstake_fee_rate,
            final(self).vesting@ == old(self).vesting@,
            final(self).events@ == old(self).events@,
            ({
                let cfg = old(self).config;
                let delta = mul_div_spec(
                    old(ledger)@.total_issuance(CurrencyId::Token(TokenSymbol::ADAO)) as int,
                    cfg.inflation_rate as int,
                    ACC as int,
                );
                let fires = now % cfg.inflation_period == 0 && delta <= u128::MAX;
                let outcome = if fires {
                    match inflate_quote(cfg, old(ledger)@, delta as u128) {
                        Ok((m, ds, ts)) => match old(ledger)@.apply_all(mint_ops(cfg, None, m, 0, ds, ts)) {
                            Ok(w) => Some((w, ts)),
                            Err(_) => None,
                        },
                        Err(_) => None,
                    }
                } else {
                    None
                };
                match outcome {
                    Some((w, ts)) => final(ledger)@ == w && final(self).deposited_rewards@
                        == old(self).deposited_rewards@.push(ts),
                    None => final(ledger)@ == old(ledger)@ && final(self).deposited_rewards@
                        == old(self).deposited_rewards@,
                }
            }),
    {
        if now % self.config.inflation_period == 0 {
            let total = ledger.total_issuance(CurrencyId::Token(TokenSymbol::ADAO));
            match checked_mul_int(self.config.inflation_rate, total) {
                Some(delta) => {
                    let _ = self.inflate(ledger, delta);
                },
                None => {},
            }
        }
    }
}

impl StakedTokenManager for Pallet {
    open spec fn ready(&self, v: LedgerView) -> bool {
        self.inv(v)
    }

    open spec fn mint_result(&self, v: LedgerView, who: AccountId, amount: Balance, vesting_period: BlockNumber, now: BlockNumber) -> Result<(), Error> {
        mint_outcome(*self, v, who, amount, vesting_period, now)
    }

    open spec fn minted(&self, before: Self, v0: LedgerView, v1: LedgerView, who: AccountId, amount: Balance, vesting_period: BlockNumber, now: BlockNumber) -> bool {
        mint_applied(before, *self, v0, v1, who, amount, vesting_period, now)
    }

    proof fn lemma_ready_after_balance_op(&self, v: LedgerView, op: LedgerOp) {
        let ops = seq![op];
        assert(ops.drop_first() =~= Seq::<LedgerOp>::empty());
        assert(v.apply_all(ops) == v.apply(op)) by {
            let n = v.apply(op)->Ok_0;
            assert(n.apply_all(Seq::<LedgerOp>::empty()) == Ok::<LedgerView, Error>(n));
        }
        self.lemma_balance_ops_keep_inv(v, ops);
    }

    fn mint_for_subscription(
        &mut self,
        ledger: &mut Ledger,
        who: AccountId,
        amount: Balance,
        vesting_period: BlockNumber,
        now: BlockNumber,
    ) -> (r: Result<(), Error>) {
        self.mint(ledger, who, amount, vesting_period, now)
    }
}

proof fn lemma_pending_len(s: Seq<VestingChunk>, now: BlockNumber)
    ensures
        pending(s, now).len() <= s.len(),
    decreases s.len(),
{
    if s.len() > 0 {
        lemma_pending_len(s.drop_last(), now);
    }
}

} // verus!
