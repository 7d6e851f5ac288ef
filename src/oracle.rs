//! Prices of the tokens, in fixed-point, as an oracle reports them.
use crate::fixed::{checked_div, mul_div_spec, ACC};
use crate::types::{currency_code, currency_code_of, lemma_currency_code_injective, CurrencyId};
use vstd::prelude::*;

verus! {

/// A table of currency prices, each in a common unit of account.
pub struct MockPriceProvider {
    prices: Vec<Option<u128>>,
}

/// The price source of the allocation manager: the same table.
pub type MockPriceSource = MockPriceProvider;

/// The quotient of two prices, where both exist and it fits.
pub open spec fn relative_price_spec(base: Option<u128>, quote: Option<u128>) -> Option<u128> {
    match (base, quote) {
        (Some(b), Some(q)) => if q == 0 || mul_div_spec(b as int, ACC as int, q as int) > u128::MAX {
            None
        } else {
            Some(mul_div_spec(b as int, ACC as int, q as int) as u128)
        },
        _ => None,
    }
}

impl MockPriceProvider {
    pub closed spec fn wf(&self) -> bool {
        self.prices@.len() == 64
    }

    /// The price of `c`.
    pub closed spec fn price(&self, c: CurrencyId) -> Option<u128> {
        self.prices@[currency_code(c) as int]
    }

    /// A table with no prices.
    pub fn new() -> (r: MockPriceProvider)
        ensures
            r.wf(),
            forall|c: CurrencyId| #[trigger] r.price(c) is None,
    {
        let mut prices: Vec<Option<u128>> = Vec::new();
        while prices.len() < 64
            invariant
                prices.len() <= 64,
                forall|i: int| 0 <= i < prices.len() ==> prices@[i] is None,
            decreases 64 - prices.len(),
        {
            prices.push(None);
        }
        let r = MockPriceProvider { prices };
        assert forall|c: CurrencyId| #[trigger] r.price(c) is None by {
            lemma_currency_code_injective(c, c);
        }
        r
    }

    /// Sets (or, with `None`, removes) the price of a currency.
    pub fn set_price(&mut self, c: CurrencyId, price: Option<u128>)
        requires
            old(self).wf(),
        ensures
            final(self).wf(),
            forall|c2: CurrencyId| #[trigger] final(self).price(c2) == if c2 == c {
                price
            } else {
                old(self).price(c2)
            },
    {
        proof {
            lemma_currency_code_injective(c, c);
        }
        let i = currency_code_of(c) as usize;
        self.prices.set(i, price);
        assert forall|c2: CurrencyId| #[trigger] self.price(c2) == if c2 == c {
            price
        } else {
            old(self).price(c2)
        } by {
            lemma_currency_code_injective(c2, c);
        }
    }

    /// The price of `c`.
    pub fn get_price(&self, c: CurrencyId) -> (r: Option<u128>)
        requires
            self.wf(),
        ensures
            r == self.price(c),
    {
        proof {
            lemma_currency_code_injective(c, c);
        }
        self.prices[currency_code_of(c) as usize]
    }

    /// The price of `base` in units of `quote`.
    pub fn get_relative_price(&self, base: CurrencyId, quote: CurrencyId) -> (r: Option<u128>)
        requires
            self.wf(),
        ensures
            r == relative_price_spec(self.price(base), self.price(quote)),
    {
        match (self.get_price(base), self.get_price(quote)) {
            (Some(b), Some(q)) => checked_div(b, q),
            _ => None,
        }
    }
}

} // verus!
