//! The host ledger: free balances and total issuance per currency, and locks.
//!
//! Every operation either succeeds as its specification says or fails and
//! leaves the ledger as it was; a sequence of operations is applied as one
//! transaction.
use crate::types::{currency_code, currency_code_of, lemma_currency_code_injective, AccountId, Balance, CurrencyId, Error};
use vstd::hash_map::HashMapWithView;
use vstd::prelude::*;

verus! {

/// The map key of the balance (or lock) of account `a` in currency `c`.
pub open spec fn balance_key(c: CurrencyId, a: AccountId) -> u128 {
    (currency_code(c) * 0x1_0000_0000_0000_0000 + a) as u128
}

/// The map key of the total issuance of currency `c`.
pub open spec fn issuance_key(c: CurrencyId) -> u128 {
    currency_code(c) as u128
}

pub proof fn lemma_balance_key_injective(c1: CurrencyId, a1: AccountId, c2: CurrencyId, a2: AccountId)
    ensures
        balance_key(c1, a1) == balance_key(c2, a2) ==> c1 == c2 && a1 == a2,
        issuance_key(c1) == issuance_key(c2) ==> c1 == c2,
{
    lemma_currency_code_injective(c1, c2);
    let x1 = currency_code(c1) as int;
    let x2 = currency_code(c2) as int;
    assert(x1 * 0x1_0000_0000_0000_0000 + a1 <= u128::MAX) by (nonlinear_arith)
        requires 0 <= x1 < 64, a1 <= u64::MAX;
    assert(x2 * 0x1_0000_0000_0000_0000 + a2 <= u128::MAX) by (nonlinear_arith)
        requires 0 <= x2 < 64, a2 <= u64::MAX;
    if balance_key(c1, a1) == balance_key(c2, a2) {
        assert(x1 == x2 && a1 == a2) by (nonlinear_arith)
            requires
                x1 * 0x1_0000_0000_0000_0000 + a1 == x2 * 0x1_0000_0000_0000_0000 + a2,
                0 <= a1 <= u64::MAX,
                0 <= a2 <= u64::MAX,
        ;
    }
}

/// What the ledger holds: balances and locks by `balance_key`, issuance by
/// `issuance_key`. A key that is absent stands for zero.
pub struct LedgerView {
    pub balances: Map<u128, u128>,
    pub issuance: Map<u128, u128>,
    pub locks: Map<u128, u128>,
}

pub open spec fn get_or_zero(m: Map<u128, u128>, k: u128) -> nat {
    if m.contains_key(k) {
        m[k] as nat
    } else {
        0
    }
}

/// One operation on the ledger.
#[derive(Clone, Copy, Debug, PartialEq, Eq, Structural)]
pub enum LedgerOp {
    /// Mint an amount into an account.
    Deposit(CurrencyId, AccountId, Balance),
    /// Burn an amount from an account.
    Withdraw(CurrencyId, AccountId, Balance),
    /// Move an amount from the first account to the second.
    Transfer(CurrencyId, AccountId, AccountId, Balance),
    /// Lock an amount of an account's balance.
    SetLock(CurrencyId, AccountId, Balance),
    /// Release the account's lock.
    RemoveLock(CurrencyId, AccountId),
}

impl LedgerView {
    pub open spec fn free(self, c: CurrencyId, a: AccountId) -> nat {
        get_or_zero(self.balances, balance_key(c, a))
    }

    pub open spec fn total_issuance(self, c: CurrencyId) -> nat {
        get_or_zero(self.issuance, issuance_key(c))
    }

    pub open spec fn locked(self, c: CurrencyId, a: AccountId) -> nat {
        get_or_zero(self.locks, balance_key(c, a))
    }

    pub open spec fn deposit(self, c: CurrencyId, a: AccountId, amount: Balance) -> Result<LedgerView, Error> {
        if self.total_issuance(c) + amount > u128::MAX || self.free(c, a) + amount > u128::MAX {
            Err(Error::Overflow)
        } else {
            Ok(LedgerView {
                balances: self.balances.insert(balance_key(c, a), (self.free(c, a) + amount) as u128),
                issuance: self.issuance.insert(issuance_key(c), (self.total_issuance(c) + amount) as u128),
                locks: self.locks,
            })
        }
    }

    pub open spec fn withdraw(self, c: CurrencyId, a: AccountId, amount: Balance) -> Result<LedgerView, Error> {
        if self.free(c, a) < amount {
            Err(Error::BalanceTooLow)
        } else if self.free(c, a) - amount < self.locked(c, a) {
            Err(Error::LiquidityRestrictions)
        } else {
            Ok(LedgerView {
                balances: self.balances.insert(balance_key(c, a), (self.free(c, a) - amount) as u128),
                issuance: self.issuance.insert(
                    issuance_key(c),
                    if self.total_issuance(c) >= amount {
                        (self.total_issuance(c) - amount) as u128
                    } else {
                        0u128
                    },
                ),
                locks: self.locks,
            })
        }
    }

    pub open spec fn transfer(self, c: CurrencyId, from: AccountId, to: AccountId, amount: Balance) -> Result<LedgerView, Error> {
        if amount == 0 || from == to {
            Ok(self)
        } else if self.free(c, from) < amount {
            Err(Error::BalanceTooLow)
        } else if self.free(c, from) - amount < self.locked(c, from) {
            Err(Error::LiquidityRestrictions)
        } else if self.free(c, to) + amount > u128::MAX {
            Err(Error::Overflow)
        } else {
            Ok(LedgerView {
                balances: self.balances.insert(balance_key(c, from), (self.free(c, from) - amount) as u128).insert(
                    balance_key(c, to),
                    (self.free(c, to) + amount) as u128,
                ),
                issuance: self.issuance,
                locks: self.locks,
            })
        }
    }

    pub open spec fn apply(self, op: LedgerOp) -> Result<LedgerView, Error> {
        match op {
            LedgerOp::Deposit(c, a, amount) => self.deposit(c, a, amount),
            LedgerOp::Withdraw(c, a, amount) => self.withdraw(c, a, amount),
            LedgerOp::Transfer(c, from, to, amount) => self.transfer(c, from, to, amount),
            LedgerOp::SetLock(c, a, amount) => Ok(
                LedgerView {
                    balances: self.balances,
                    issuance: self.issuance,
                    locks: self.locks.insert(balance_key(c, a), amount),
                },
            ),
            LedgerOp::RemoveLock(c, a) => Ok(
                LedgerView {
                    balances: self.balances,
                    issuance: self.issuance,
                    locks: self.locks.remove(balance_key(c, a)),
                },
            ),
        }
    }

    /// The operations applied in order; the first failure is the result.
    pub open spec fn apply_all(self, ops: Seq<LedgerOp>) -> Result<LedgerView, Error>
        decreases ops.len(),
    {
        if ops.len() == 0 {
            Ok(self)
        } else {
            match self.apply(ops[0]) {
                Ok(next) => next.apply_all(ops.drop_first()),
                Err(e) => Err(e),
            }
        }
    }
}

/// Every lock is covered by the free balance it locks.
pub open spec fn locks_covered(v: LedgerView) -> bool {
    forall|c: CurrencyId, a: AccountId| #[trigger] v.locked(c, a) <= v.free(c, a)
}

/// The operation neither sets nor removes a lock.
pub open spec fn is_balance_op(op: LedgerOp) -> bool {
    match op {
        LedgerOp::Deposit(..) | LedgerOp::Withdraw(..) | LedgerOp::Transfer(..) => true,
        _ => false,
    }
}

/// What a successful deposit does to every balance and every issuance.
pub proof fn lemma_deposit_frame(v: LedgerView, c: CurrencyId, a: AccountId, amount: Balance)
    requires
        v.deposit(c, a, amount) is Ok,
    ensures
        ({
            let w = v.deposit(c, a, amount)->Ok_0;
            &&& w.locks == v.locks
            &&& forall|c2: CurrencyId, a2: AccountId| #[trigger]
                w.free(c2, a2) == v.free(c2, a2) + if c2 == c && a2 == a {
                    amount as nat
                } else {
                    0
                }
            &&& forall|c2: CurrencyId| #[trigger]
                w.total_issuance(c2) == v.total_issuance(c2) + if c2 == c {
                    amount as nat
                } else {
                    0
                }
        }),
{
    assert forall|c2: CurrencyId, a2: AccountId| true implies #[trigger] balance_key(c2, a2) == balance_key(c, a) <==> (c2 == c && a2 == a) by {
        lemma_balance_key_injective(c2, a2, c, a);
    }
    assert forall|c2: CurrencyId| true implies #[trigger] issuance_key(c2) == issuance_key(c) <==> c2 == c by {
        lemma_balance_key_injective(c2, 0, c, 0);
    }
}

/// A successful balance operation keeps every lock, and keeps every lock covered.
pub proof fn lemma_balance_op_keeps_locks(v: LedgerView, op: LedgerOp)
    requires
        is_balance_op(op),
        v.apply(op) is Ok,
    ensures
        v.apply(op)->Ok_0.locks == v.locks,
        locks_covered(v) ==> locks_covered(v.apply(op)->Ok_0),
{
    let w = v.apply(op)->Ok_0;
    if locks_covered(v) {
        assert forall|c2: CurrencyId, a2: AccountId| #[trigger] w.locked(c2, a2) <= w.free(c2, a2) by {
            assert(v.locked(c2, a2) <= v.free(c2, a2));
            match op {
                LedgerOp::Deposit(c, a, amount) => {
                    lemma_balance_key_injective(c2, a2, c, a);
                },
                LedgerOp::Withdraw(c, a, amount) => {
                    lemma_balance_key_injective(c2, a2, c, a);
                },
                LedgerOp::Transfer(c, from, to, amount) => {
                    lemma_balance_key_injective(c2, a2, c, from);
                    lemma_balance_key_injective(c2, a2, c, to);
                },
                _ => {},
            }
        }
    }
}

/// Successful balance operations keep every lock, and keep every lock covered.
pub proof fn lemma_balance_ops_keep_locks(v: LedgerView, ops: Seq<LedgerOp>)
    requires
        forall|i: int| 0 <= i < ops.len() ==> is_balance_op(#[trigger] ops[i]),
        v.apply_all(ops) is Ok,
    ensures
        v.apply_all(ops)->Ok_0.locks == v.locks,
        locks_covered(v) ==> locks_covered(v.apply_all(ops)->Ok_0),
    decreases ops.len(),
{
    if ops.len() > 0 {
        assert(is_balance_op(ops[0]));
        lemma_balance_op_keeps_locks(v, ops[0]);
        let n = v.apply(ops[0])->Ok_0;
        assert forall|i: int| 0 <= i < ops.drop_first().len() implies is_balance_op(#[trigger] ops.drop_first()[i]) by {
            assert(ops.drop_first()[i] == ops[i + 1]);
        }
        lemma_balance_ops_keep_locks(n, ops.drop_first());
    }
}

/// What setting or removing a lock does: only that lock changes.
pub proof fn lemma_lock_frame(v: LedgerView, op: LedgerOp)
    requires
        !is_balance_op(op),
    ensures
        ({
            let w = v.apply(op)->Ok_0;
            let (c, a) = match op {
                LedgerOp::SetLock(c, a, _) => (c, a),
                LedgerOp::RemoveLock(c, a) => (c, a),
                _ => (c_of(op), 0),
            };
            &&& v.apply(op) is Ok
            &&& w.balances == v.balances
            &&& w.issuance == v.issuance
            &&& forall|c2: CurrencyId, a2: AccountId|
                !(c2 == c && a2 == a) ==> #[trigger] w.locked(c2, a2) == v.locked(c2, a2)
            &&& w.locked(c, a) == match op {
                LedgerOp::SetLock(_, _, amount) => amount as nat,
                _ => 0,
            }
        }),
{
    let (c, a) = match op {
        LedgerOp::SetLock(c, a, _) => (c, a),
        LedgerOp::RemoveLock(c, a) => (c, a),
        _ => (c_of(op), 0),
    };
    assert forall|c2: CurrencyId, a2: AccountId| true implies #[trigger] balance_key(c2, a2) == balance_key(c, a) <==> (c2 == c && a2 == a) by {
        lemma_balance_key_injective(c2, a2, c, a);
    }
}

/// A successful balance operation on currency `c` leaves every balance and
/// the issuance of every other currency, and every lock, as they were.
pub proof fn lemma_other_currency_frame(v: LedgerView, op: LedgerOp, c2: CurrencyId)
    requires
        is_balance_op(op),
        c_of(op) != c2,
        v.apply(op) is Ok,
    ensures
        v.apply(op)->Ok_0.locks == v.locks,
        forall|a: AccountId| #[trigger] v.apply(op)->Ok_0.free(c2, a) == v.free(c2, a),
        v.apply(op)->Ok_0.total_issuance(c2) == v.total_issuance(c2),
{
    let c = c_of(op);
    assert forall|a: AccountId, b: AccountId| true implies #[trigger] balance_key(c2, a) != #[trigger] balance_key(c, b) by {
        lemma_balance_key_injective(c2, a, c, b);
    }
    lemma_balance_key_injective(c2, 0, c, 0);
}

/// The currency an operation is on.
pub open spec fn c_of(op: LedgerOp) -> CurrencyId {
    match op {
        LedgerOp::Deposit(c, _, _) => c,
        LedgerOp::Withdraw(c, _, _) => c,
        LedgerOp::Transfer(c, _, _, _) => c,
        LedgerOp::SetLock(c, _, _) => c,
        LedgerOp::RemoveLock(c, _) => c,
    }
}

/// The operation is a deposit.
pub open spec fn is_deposit(op: LedgerOp) -> bool {
    op is Deposit
}

/// Successful deposits never lower a balance, and each raises its own
/// account's balance by at least its amount.
pub proof fn lemma_deposits_grow(v: LedgerView, ops: Seq<LedgerOp>)
    requires
        forall|i: int| 0 <= i < ops.len() ==> is_deposit(#[trigger] ops[i]),
        v.apply_all(ops) is Ok,
    ensures
        forall|c: CurrencyId, a: AccountId| #[trigger] v.apply_all(ops)->Ok_0.free(c, a) >= v.free(c, a),
        forall|c: CurrencyId| #[trigger] v.apply_all(ops)->Ok_0.total_issuance(c) >= v.total_issuance(c),
        forall|i: int|
            0 <= i < ops.len() ==> v.apply_all(ops)->Ok_0.free((#[trigger] ops[i])->Deposit_0, ops[i]->Deposit_1) >= v.free(
                ops[i]->Deposit_0,
                ops[i]->Deposit_1,
            ) + ops[i]->Deposit_2,
    decreases ops.len(),
{
    if ops.len() > 0 {
        let op = ops[0];
        assert(is_deposit(op));
        let n = v.apply(op)->Ok_0;
        lemma_deposit_frame(v, op->Deposit_0, op->Deposit_1, op->Deposit_2);
        let rest = ops.drop_first();
        assert forall|i: int| 0 <= i < rest.len() implies is_deposit(#[trigger] rest[i]) by {
            assert(rest[i] == ops[i + 1]);
        }
        lemma_deposits_grow(n, rest);
        let w = v.apply_all(ops)->Ok_0;
        assert forall|i: int| 0 <= i < ops.len() implies w.free((#[trigger] ops[i])->Deposit_0, ops[i]->Deposit_1)
            >= v.free(ops[i]->Deposit_0, ops[i]->Deposit_1) + ops[i]->Deposit_2 by {
            if i > 0 {
                assert(ops[i] == rest[i - 1]);
            } else {
                assert(w.free(op->Deposit_0, op->Deposit_1) >= n.free(op->Deposit_0, op->Deposit_1));
            }
        }
    }
}

/// Applying `ops` and then `op` is applying `ops.push(op)`.
pub proof fn lemma_apply_all_push(v: LedgerView, ops: Seq<LedgerOp>, op: LedgerOp)
    ensures
        v.apply_all(ops.push(op)) == (match v.apply_all(ops) {
            Ok(w) => w.apply(op),
            Err(e) => Err(e),
        }),
    decreases ops.len(),
{
    if ops.len() == 0 {
        assert(ops.push(op).drop_first() =~= Seq::<LedgerOp>::empty());
        assert(ops.push(op)[0] == op);
        assert(v.apply_all(ops) == Ok::<LedgerView, Error>(v));
        match v.apply(op) {
            Ok(n) => {
                assert(n.apply_all(Seq::<LedgerOp>::empty()) == Ok::<LedgerView, Error>(n));
            },
            Err(e) => {},
        }
    } else {
        assert(ops.push(op).drop_first() =~= ops.drop_first().push(op));
        assert(ops.push(op)[0] == ops[0]);
        match v.apply(ops[0]) {
            Ok(n) => lemma_apply_all_push(n, ops.drop_first(), op),
            Err(e) => {},
        }
    }
}

/// The keys an operation may change: two balance keys, an issuance key and a lock key.
pub open spec fn op_keys(op: LedgerOp) -> (u128, u128, u128, u128) {
    match op {
        LedgerOp::Deposit(c, a, _) | LedgerOp::Withdraw(c, a, _) => (
            balance_key(c, a),
            balance_key(c, a),
            issuance_key(c),
            balance_key(c, a),
        ),
        LedgerOp::Transfer(c, from, to, _) => (
            balance_key(c, from),
            balance_key(c, to),
            issuance_key(c),
            balance_key(c, from),
        ),
        LedgerOp::SetLock(c, a, _) | LedgerOp::RemoveLock(c, a) => (
            balance_key(c, a),
            balance_key(c, a),
            issuance_key(c),
            balance_key(c, a),
        ),
    }
}

/// `m1` and `m0` agree except perhaps at `k1` and `k2`.
pub open spec fn agree_except(m1: Map<u128, u128>, m0: Map<u128, u128>, k1: u128, k2: u128) -> bool {
    forall|k: u128|
        k != k1 && k != k2 ==> (#[trigger] m1.contains_key(k) == m0.contains_key(k) && (
        m1.contains_key(k) ==> m1[k] == m0[k]))
}

pub open spec fn put(m: Map<u128, u128>, k: u128, v: Option<u128>) -> Map<u128, u128> {
    match v {
        Some(x) => m.insert(k, x),
        None => m.remove(k),
    }
}

pub open spec fn get_opt(m: Map<u128, u128>, k: u128) -> Option<u128> {
    if m.contains_key(k) {
        Some(m[k])
    } else {
        None
    }
}

proof fn lemma_restore(m1: Map<u128, u128>, m0: Map<u128, u128>, k1: u128, k2: u128)
    requires
        agree_except(m1, m0, k1, k2),
    ensures
        put(put(m1, k2, get_opt(m0, k2)), k1, get_opt(m0, k1)) == m0,
{
    let r = put(put(m1, k2, get_opt(m0, k2)), k1, get_opt(m0, k1));
    assert forall|k: u128| #[trigger] r.contains_key(k) == m0.contains_key(k) && (r.contains_key(k) ==> r[k] == m0[k]) by {
        if k != k1 && k != k2 {
            assert(m1.contains_key(k) == m0.contains_key(k));
        }
    }
    assert(r =~= m0);
}

proof fn lemma_apply_touches(v: LedgerView, op: LedgerOp)
    ensures
        v.apply(op) is Ok ==> {
            let w = v.apply(op)->Ok_0;
            let ks = op_keys(op);
            &&& agree_except(w.balances, v.balances, ks.0, ks.1)
            &&& agree_except(w.issuance, v.issuance, ks.2, ks.2)
            &&& agree_except(w.locks, v.locks, ks.3, ks.3)
        },
{
}

fn op_keys_of(op: LedgerOp) -> (r: (u128, u128, u128, u128))
    ensures
        r == op_keys(op),
{
    match op {
        LedgerOp::Deposit(c, a, _) | LedgerOp::Withdraw(c, a, _) | LedgerOp::SetLock(c, a, _)
        | LedgerOp::RemoveLock(c, a) => {
            let k = balance_key_of(c, a);
            (k, k, currency_code_of(c) as u128, k)
        },
        LedgerOp::Transfer(c, from, to, _) => {
            let k = balance_key_of(c, from);
            (k, balance_key_of(c, to), currency_code_of(c) as u128, k)
        },
    }
}

/// What the keys an operation changes held before it, to undo it.
pub struct OpSnapshot {
    op: LedgerOp,
    before: Ghost<LedgerView>,
    b1: Option<u128>,
    b2: Option<u128>,
    iss: Option<u128>,
    lock: Option<u128>,
}

impl OpSnapshot {
    /// The operation to undo.
    pub closed spec fn op(&self) -> LedgerOp {
        self.op
    }

    /// The ledger before the operation.
    pub closed spec fn before(&self) -> LedgerView {
        self.before@
    }

    pub closed spec fn valid(&self) -> bool {
        let ks = op_keys(self.op);
        let v = self.before@;
        &&& self.b1 == get_opt(v.balances, ks.0)
        &&& self.b2 == get_opt(v.balances, ks.1)
        &&& self.iss == get_opt(v.issuance, ks.2)
        &&& self.lock == get_opt(v.locks, ks.3)
    }
}

/// The host ledger.
pub struct Ledger {
    balances: HashMapWithView<u128, u128>,
    issuance: HashMapWithView<u128, u128>,
    locks: HashMapWithView<u128, u128>,
}

impl View for Ledger {
    type V = LedgerView;

    closed spec fn view(&self) -> LedgerView {
        LedgerView { balances: self.balances@, issuance: self.issuance@, locks: self.locks@ }
    }
}

fn balance_key_of(c: CurrencyId, a: AccountId) -> (r: u128)
    ensures
        r == balance_key(c, a),
{
    let code = currency_code_of(c);
    proof {
        lemma_currency_code_injective(c, c);
        assert(code as int * 0x1_0000_0000_0000_0000 + a <= u128::MAX) by (nonlinear_arith)
            requires 0 <= code < 64, a <= u64::MAX;
    }
    (code as u128) * 0x1_0000_0000_0000_0000 + a as u128
}

fn read(m: &HashMapWithView<u128, u128>, k: u128) -> (r: u128)
    ensures
        r as nat == get_or_zero(m@, k),
{
    match m.get(&k) {
        Some(v) => *v,
        None => 0,
    }
}

fn read_opt(m: &HashMapWithView<u128, u128>, k: u128) -> (r: Option<u128>)
    ensures
        r == get_opt(m@, k),
{
    match m.get(&k) {
        Some(v) => Some(*v),
        None => None,
    }
}

fn write_opt(m: &mut HashMapWithView<u128, u128>, k: u128, v: Option<u128>)
    ensures
        final(m)@ == put(old(m)@, k, v),
{
    match v {
        Some(x) => m.insert(k, x),
        None => {
            m.remove(&k);
            assert(m@ =~= old(m)@.remove(k));
        },
    }
}

impl Ledger {
    /// What an empty ledger holds.
    pub open spec fn new_view() -> LedgerView {
        LedgerView {
            balances: Map::<u128, u128>::empty(),
            issuance: Map::<u128, u128>::empty(),
            locks: Map::<u128, u128>::empty(),
        }
    }

    /// An empty ledger.
    pub fn new() -> (r: Ledger)
        ensures
            r@ == Ledger::new_view(),
    {
        Ledger { balances: HashMapWithView::new(), issuance: HashMapWithView::new(), locks: HashMapWithView::new() }
    }

    /// The free balance of `a` in `c`.
    pub fn free_balance(&self, c: CurrencyId, a: AccountId) -> (r: Balance)
        ensures
            r == self@.free(c, a),
    {
        read(&self.balances, balance_key_of(c, a))
    }

    /// The total issuance of `c`.
    pub fn total_issuance(&self, c: CurrencyId) -> (r: Balance)
        ensures
            r == self@.total_issuance(c),
    {
        let k = currency_code_of(c) as u128;
        read(&self.issuance, k)
    }

    /// The amount of `a`'s balance in `c` that is locked.
    pub fn locked_balance(&self, c: CurrencyId, a: AccountId) -> (r: Balance)
        ensures
            r == self@.locked(c, a),
    {
        read(&self.locks, balance_key_of(c, a))
    }

    /// Applies one operation; on failure the ledger is unchanged.
    pub fn apply(&mut self, op: LedgerOp) -> (r: Result<(), Error>)
        ensures
            match old(self)@.apply(op) {
                Ok(v) => r is Ok && final(self)@ == v,
                Err(e) => r == Err::<(), Error>(e) && final(self)@ == old(self)@,
            },
    {
        match op {
            LedgerOp::Deposit(c, a, amount) => {
                let k = balance_key_of(c, a);
                let ki = currency_code_of(c) as u128;
                let f = read(&self.balances, k);
                let i = read(&self.issuance, ki);
                if amount > u128::MAX - i || amount > u128::MAX - f {
                    return Err(Error::Overflow);
                }
                self.balances.insert(k, f + amount);
                self.issuance.insert(ki, i + amount);
                Ok(())
            },
            LedgerOp::Withdraw(c, a, amount) => {
                let k = balance_key_of(c, a);
                let ki = currency_code_of(c) as u128;
                let f = read(&self.balances, k);
                let i = read(&self.issuance, ki);
                let l = read(&self.locks, k);
                if f < amount {
                    return Err(Error::BalanceTooLow);
                }
                if f - amount < l {
                    return Err(Error::LiquidityRestrictions);
                }
                self.balances.insert(k, f - amount);
                self.issuance.insert(
                    ki,
                    if i >= amount {
                        i - amount
                    } else {
                        0
                    },
                );
                Ok(())
            },
            LedgerOp::Transfer(c, from, to, amount) => {
                if amount == 0 || from == to {
                    return Ok(());
                }
                let kf = balance_key_of(c, from);
                let kt = balance_key_of(c, to);
                proof {
                    lemma_balance_key_injective(c, from, c, to);
                }
                let f = read(&self.balances, kf);
                let t = read(&self.balances, kt);
                let l = read(&self.locks, kf);
                if f < amount {
                    return Err(Error::BalanceTooLow);
                }
                if f - amount < l {
                    return Err(Error::LiquidityRestrictions);
                }
                if amount > u128::MAX - t {
                    return Err(Error::Overflow);
                }
                self.balances.insert(kf, f - amount);
                self.balances.insert(kt, t + amount);
                Ok(())
            },
            LedgerOp::SetLock(c, a, amount) => {
                let k = balance_key_of(c, a);
                assert(self.balances@ == old(self).balances@);
                self.locks.insert(k, amount);
                Ok(())
            },
            LedgerOp::RemoveLock(c, a) => {
                let k = balance_key_of(c, a);
                self.locks.remove(&k);
                assert(self.locks@ =~= old(self).locks@.remove(k));
                Ok(())
            },
        }
    }

    /// Applies `ops[i..]` in order as one transaction: on the first failure
    /// the ledger is restored and that failure returned.
    fn apply_from(&mut self, ops: &Vec<LedgerOp>, i: usize) -> (r: Result<(), Error>)
        requires
            i <= ops.len(),
        ensures
            match old(self)@.apply_all(ops@.subrange(i as int, ops.len() as int)) {
                Ok(v) => r is Ok && final(self)@ == v,
                Err(e) => r == Err::<(), Error>(e) && final(self)@ == old(self)@,
            },
        decreases ops.len() - i,
    {
        let ghost rest = ops@.subrange(i as int, ops.len() as int);
        if i >= ops.len() {
            return Ok(());
        }
        assert(rest[0] == ops@[i as int]);
        assert(rest.drop_first() =~= ops@.subrange(i + 1, ops.len() as int));
        let op = ops[i];
        let (k1, k2, ki, kl) = op_keys_of(op);
        let s1 = read_opt(&self.balances, k1);
        let s2 = read_opt(&self.balances, k2);
        let si = read_opt(&self.issuance, ki);
        let sl = read_opt(&self.locks, kl);
        let ghost v0 = self@;
        proof {
            lemma_apply_touches(v0, op);
        }
        match self.apply(op) {
            Err(e) => return Err(e),
            Ok(()) => {},
        }
        match self.apply_from(ops, i + 1) {
            Ok(()) => Ok(()),
            Err(e) => {
                let ghost v1 = self@;
                write_opt(&mut self.balances, k2, s2);
                write_opt(&mut self.balances, k1, s1);
                write_opt(&mut self.issuance, ki, si);
                write_opt(&mut self.locks, kl, sl);
                proof {
                    lemma_restore(v1.balances, v0.balances, k1, k2);
                    lemma_restore(v1.issuance, v0.issuance, ki, ki);
                    lemma_restore(v1.locks, v0.locks, kl, kl);
                    assert(put(v1.issuance, ki, si) == put(put(v1.issuance, ki, si), ki, si)) by {
                        assert(put(v1.issuance, ki, si) =~= put(put(v1.issuance, ki, si), ki, si));
                    }
                    assert(put(v1.locks, kl, sl) =~= put(put(v1.locks, kl, sl), kl, sl));
                }
                Err(e)
            },
        }
    }

    /// Applies `ops` in order as one transaction: either all succeed, or the
    /// first failure is returned and the ledger is unchanged.
    pub fn apply_all(&mut self, ops: &Vec<LedgerOp>) -> (r: Result<(), Error>)
        ensures
            match old(self)@.apply_all(ops@) {
                Ok(v) => r is Ok && final(self)@ == v,
                Err(e) => r == Err::<(), Error>(e) && final(self)@ == old(self)@,
            },
    {
        assert(ops@.subrange(0, ops.len() as int) =~= ops@);
        self.apply_from(ops, 0)
    }

    /// Applies one operation and returns what undoes it.
    pub fn apply_undoable(&mut self, op: LedgerOp) -> (r: Result<OpSnapshot, Error>)
        ensures
            match old(self)@.apply(op) {
                Ok(v) => r is Ok && final(self)@ == v && r->Ok_0.valid() && r->Ok_0.op() == op && r->Ok_0.before()
                    == old(self)@,
                Err(e) => r is Err && r->Err_0 == e && final(self)@ == old(self)@,
            },
    {
        let (k1, k2, ki, kl) = op_keys_of(op);
        let snap = OpSnapshot {
            op,
            before: Ghost(self@),
            b1: read_opt(&self.balances, k1),
            b2: read_opt(&self.balances, k2),
            iss: read_opt(&self.issuance, ki),
            lock: read_opt(&self.locks, kl),
        };
        match self.apply(op) {
            Ok(()) => Ok(snap),
            Err(e) => Err(e),
        }
    }

    /// Undoes an operation: the ledger must be as the operation left it.
    pub fn undo(&mut self, snap: OpSnapshot)
        requires
            snap.valid(),
            snap.before().apply(snap.op()) is Ok,
            old(self)@ == snap.before().apply(snap.op())->Ok_0,
        ensures
            final(self)@ == snap.before(),
    {
        let (k1, k2, ki, kl) = op_keys_of(snap.op);
        let ghost v0 = snap.before@;
        let ghost v1 = self@;
        proof {
            lemma_apply_touches(v0, snap.op);
        }
        write_opt(&mut self.balances, k2, snap.b2);
        write_opt(&mut self.balances, k1, snap.b1);
        write_opt(&mut self.issuance, ki, snap.iss);
        write_opt(&mut self.locks, kl, snap.lock);
        proof {
            lemma_restore(v1.balances, v0.balances, k1, k2);
            lemma_restore(v1.issuance, v0.issuance, ki, ki);
            lemma_restore(v1.locks, v0.locks, kl, kl);
            assert(put(v1.issuance, ki, snap.iss) =~= put(put(v1.issuance, ki, snap.iss), ki, snap.iss));
            assert(put(v1.locks, kl, snap.lock) =~= put(put(v1.locks, kl, snap.lock), kl, snap.lock));
        }
    }
}

} // verus!
