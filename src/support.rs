//! Small building blocks for driving the engines: a settable block clock, a
//! minter that only records what it is asked to mint, whole units of a
//! currency, and a loop that runs the allocation manager block by block.
use crate::allocation::{DexManager, Pallet};
use crate::ledger::{Ledger, LedgerOp, LedgerView};
use crate::oracle::MockPriceProvider;
use crate::subscription::StakedTokenManager;
use crate::types::{accuracy_spec, AccountId, Balance, BlockNumber, CurrencyId, Error, TokenSymbol};
use vstd::prelude::*;

verus! {

/// A block clock that is set by hand.
#[derive(Clone, Copy, Debug, PartialEq, Eq, Structural)]
pub struct MockBlockNumberProvider {
    pub block_number: BlockNumber,
}

impl MockBlockNumberProvider {
    /// A clock at block 1.
    pub fn new() -> (r: MockBlockNumberProvider)
        ensures
            r.block_number == 1,
    {
        MockBlockNumberProvider { block_number: 1 }
    }

    pub fn set_block_number(&mut self, n: BlockNumber)
        ensures
            final(self).block_number == n,
    {
        self.block_number = n;
    }

    pub fn current_block_number(&self) -> (r: BlockNumber)
        ensures
            r == self.block_number,
    {
        self.block_number
    }
}

/// A minter that mints nothing and records the last amount and vesting
/// period it was asked for.
#[derive(Clone, Copy, Debug, PartialEq, Eq)]
pub struct MockStakedToken {
    pub last: (Balance, BlockNumber),
}

impl MockStakedToken {
    /// A minter that has recorded nothing: `(0, 0)`.
    pub fn new() -> (r: MockStakedToken)
        ensures
            r.last == (0u128, 0u64),
    {
        MockStakedToken { last: (0, 0) }
    }

    /// The last amount and vesting period asked for.
    pub fn minted(&self) -> (r: (Balance, BlockNumber))
        ensures
            r == self.last,
    {
        self.last
    }
}

impl StakedTokenManager for MockStakedToken {
    open spec fn ready(&self, v: LedgerView) -> bool {
        true
    }

    /// It always succeeds.
    open spec fn mint_result(&self, v: LedgerView, who: AccountId, amount: Balance, vesting_period: BlockNumber, now: BlockNumber) -> Result<(), Error> {
        Ok(())
    }

    /// It records the amount and the vesting period, and mints nothing.
    open spec fn minted(&self, before: Self, v0: LedgerView, v1: LedgerView, who: AccountId, amount: Balance, vesting_period: BlockNumber, now: BlockNumber) -> bool {
        self.last == (amount, vesting_period) && v1 == v0
    }

    proof fn lemma_ready_after_balance_op(&self, v: LedgerView, op: crate::ledger::LedgerOp) {
    }

    fn mint_for_subscription(
        &mut self,
        ledger: &mut Ledger,
        who: AccountId,
        amount: Balance,
        vesting_period: BlockNumber,
        now: BlockNumber,
    ) -> (r: Result<(), Error>) {
        self.last = (amount, vesting_period);
        Ok(())
    }
}

/// One whole unit of a token: `10^decimals`.
pub fn dollar(c: CurrencyId) -> (r: Balance)
    requires
        accuracy_spec(c) is Some,
    ensures
        r == accuracy_spec(c)->Some_0,
{
    match c {
        CurrencyId::Token(TokenSymbol::DOT) | CurrencyId::Token(TokenSymbol::LDOT) => 10_000_000_000,
        _ => 1_000_000_000_000,
    }
}

/// Advances `clock` one block at a time up to block `n`, running the
/// allocation manager's hook at each new block.
pub fn run_to_block<D: DexManager>(
    manager: &Pallet,
    ledger: &mut Ledger,
    dex: &mut D,
    prices: &MockPriceProvider,
    clock: &mut MockBlockNumberProvider,
    n: BlockNumber,
)
    requires
        manager.wf(),
        prices.wf(),
    ensures
        final(clock).block_number == if old(clock).block_number < n {
            n
        } else {
            old(clock).block_number
        },
{
    while clock.block_number < n
        invariant
            manager.wf(),
            prices.wf(),
            clock.block_number <= if old(clock).block_number < n {
                n
            } else {
                old(clock).block_number
            },
            old(clock).block_number <= clock.block_number,
            old(clock).block_number >= n ==> clock.block_number == old(clock).block_number,
        decreases n - clock.block_number,
    {
        let next = clock.block_number + 1;
        clock.set_block_number(next);
        let _ = manager.on_initialize(ledger, dex, prices, next);
    }
}

/// The deposits that open a ledger with the given balances.
pub open spec fn genesis_ops(balances: Seq<(AccountId, CurrencyId, Balance)>) -> Seq<LedgerOp> {
    balances.map_values(|b: (AccountId, CurrencyId, Balance)| LedgerOp::Deposit(b.1, b.0, b.2))
}

/// Builds a ledger that opens with given balances.
pub struct ExtBuilder {
    pub balances: Vec<(AccountId, CurrencyId, Balance)>,
}

impl Default for ExtBuilder {
    fn default() -> (r: ExtBuilder)
        ensures
            r.balances@.len() == 0,
    {
        ExtBuilder { balances: Vec::new() }
    }
}

impl ExtBuilder {
    /// The builder with these opening balances instead.
    pub fn balances(self, balances: Vec<(AccountId, CurrencyId, Balance)>) -> (r: ExtBuilder)
        ensures
            r.balances@ == balances@,
    {
        ExtBuilder { balances }
    }

    /// A ledger holding the opening balances, or the error of the deposit
    /// that does not fit.
    pub fn build(self) -> (r: Result<Ledger, Error>)
        ensures
            match Ledger::new_view().apply_all(genesis_ops(self.balances@)) {
                Ok(v) => r is Ok && r->Ok_0@ == v,
                Err(e) => r is Err && r->Err_0 == e,
            },
    {
        let mut ops: Vec<LedgerOp> = Vec::new();
        let mut i: usize = 0;
        while i < self.balances.len()
            invariant
                i <= self.balances.len(),
                ops@ == genesis_ops(self.balances@.subrange(0, i as int)),
            decreases self.balances.len() - i,
        {
            let (who, c, amount) = self.balances[i];
            ops.push(LedgerOp::Deposit(c, who, amount));
            i = i + 1;
            assert(ops@ =~= genesis_ops(self.balances@.subrange(0, i as int)));
        }
        assert(self.balances@.subrange(0, self.balances.len() as int) =~= self.balances@);
        let mut ledger = Ledger::new();
        match ledger.apply_all(&ops) {
            Ok(()) => Ok(ledger),
            Err(e) => Err(e),
        }
    }
}

} // verus!
