//! One lot of an instrument, and sums over several lots.
use vstd::prelude::*;

use crate::error::TradeError;
use crate::prices::{find_ticker, keys_of, lemma_first_index_bounds, lookup};

verus! {

/// Most lots that the sums of this library take at once.
pub const MAX_POSITIONS: usize = 16777216;

/// One lot: `quantity` shares of `ticker` bought at `share_price` with a leverage factor.
///
/// Prices are in the smallest unit of the currency; `quantity` is in thousandths of a
/// share, so `value` and `profit` are in thousandths of that unit; `leverage` is in
/// thousandths of a factor; `purchase_date` is in seconds since the Unix epoch.
#[derive(Clone, Debug)]
pub struct Position {
    pub ticker: String,
    pub quantity: u32,
    pub share_price: u32,
    pub purchase_date: i64,
    pub leverage: u32,
}

pub struct PositionView {
    pub ticker: Seq<char>,
    pub quantity: nat,
    pub share_price: nat,
    pub purchase_date: int,
    pub leverage: nat,
}

impl View for Position {
    type V = PositionView;

    open spec fn view(&self) -> PositionView {
        PositionView {
            ticker: self.ticker@,
            quantity: self.quantity as nat,
            share_price: self.share_price as nat,
            purchase_date: self.purchase_date as int,
            leverage: self.leverage as nat,
        }
    }
}

/// Quotient of `a` by a positive `b`, rounded toward zero.
pub open spec fn div_toward_zero(a: int, b: int) -> int {
    if a >= 0 {
        a / b
    } else {
        -((-a) / b)
    }
}

/// Profit of one lot at a price: `quantity * (price - share_price)`, leverage aside.
pub open spec fn lot_profit(p: PositionView, price: int) -> int {
    p.quantity * (price - p.share_price)
}

/// Percentage of `profit` over `cost` in thousandths of a percent, rounded toward zero.
pub open spec fn percent_of(profit: int, cost: int) -> int {
    div_toward_zero(profit * 100_000, cost)
}

proof fn lemma_term_bound(q: int, d: int)
    requires
        0 <= q <= u32::MAX,
        -(u32::MAX as int) <= d <= u32::MAX,
    ensures
        -0x1_0000_0000_0000_0000 <= q * d <= 0x1_0000_0000_0000_0000,
{
    if d >= 0 {
        vstd::arithmetic::mul::lemma_mul_upper_bound(q, u32::MAX as int, d, u32::MAX as int);
        vstd::arithmetic::mul::lemma_mul_nonnegative(q, d);
    } else {
        vstd::arithmetic::mul::lemma_mul_upper_bound(q, u32::MAX as int, -d, u32::MAX as int);
        vstd::arithmetic::mul::lemma_mul_nonnegative(q, -d);
        vstd::arithmetic::mul::lemma_mul_unary_negation(q, d);
    }
}

proof fn lemma_product_bound(a: nat, b: nat)
    requires
        a <= u32::MAX,
        b <= u32::MAX,
    ensures
        a * b <= u32::MAX * u32::MAX,
{
    vstd::arithmetic::mul::lemma_mul_upper_bound(a as int, u32::MAX as int, b as int, u32::MAX as int);
}

impl Position {
    pub fn value(&self) -> (r: u64)
        ensures
            r == self.quantity * self.share_price,
    {
        proof {
            lemma_product_bound(self.quantity as nat, self.share_price as nat);
        }
        self.quantity as u64 * self.share_price as u64
    }

    pub fn profit(&self, current_price: u32) -> (r: i128)
        ensures
            r == lot_profit(self@, current_price as int),
    {
        let diff = current_price as i128 - self.share_price as i128;
        proof {
            lemma_term_bound(self.quantity as int, diff as int);
        }
        self.quantity as i128 * diff
    }

    pub fn profit_percent(&self, current_price: u32) -> (r: Result<i128, TradeError>)
        ensures
            self.quantity * self.share_price == 0 ==> r == Err::<i128, TradeError>(
                TradeError::DivisionByZero,
            ),
            self.quantity * self.share_price != 0 ==> r == Ok::<i128, TradeError>(
                percent_of(lot_profit(self@, current_price as int),
                    self.quantity * self.share_price) as i128,
            ),
    {
        let cost = self.value();
        if cost == 0 {
            return Err(TradeError::DivisionByZero);
        }
        let profit = self.profit(current_price);
        proof {
            lemma_term_bound(self.quantity as int, current_price - self.share_price);
        }
        Ok(percent_exec(profit, cost as u128))
    }
}

fn percent_exec(profit: i128, cost: u128) -> (r: i128)
    requires
        cost > 0,
        -0x1_0000_0000_0000_0000_0000_0000 <= profit <= 0x1_0000_0000_0000_0000_0000_0000,
    ensures
        r == percent_of(profit as int, cost as int),
{
    if profit >= 0 {
        let q = (profit as u128 * 100_000) / cost;
        proof {
            vstd::arithmetic::div_mod::lemma_div_is_ordered_by_denominator(
                profit * 100_000, 1, cost as int);
        }
        q as i128
    } else {
        let q = ((-profit) as u128 * 100_000) / cost;
        proof {
            vstd::arithmetic::div_mod::lemma_div_is_ordered_by_denominator(
                (-profit) * 100_000, 1, cost as int);
        }
        -(q as i128)
    }
}

/// Sum of `quantity * share_price` over lots.
pub open spec fn purchased(ps: Seq<PositionView>) -> int
    decreases ps.len(),
{
    if ps.len() == 0 {
        0
    } else {
        purchased(ps.drop_last()) + ps.last().quantity * ps.last().share_price
    }
}

/// Sum of the lots' profits at the listed prices, or `None` if a lot's ticker is unlisted.
pub open spec fn lots_profit(ps: Seq<PositionView>, prices: Seq<(String, u32)>) -> Option<int>
    decreases ps.len(),
{
    if ps.len() == 0 {
        Some(0)
    } else {
        match (lots_profit(ps.drop_last(), prices), lookup(prices, ps.last().ticker)) {
            (Some(s), Some(x)) => Some(s + lot_profit(ps.last(), x as int)),
            _ => None,
        }
    }
}

/// Sums over a set of lots, such as those of one ticker.
pub trait PositionVec {
    spec fn lots(&self) -> Seq<PositionView>;

    fn purchased_value(&self) -> (r: u128)
        requires
            self.lots().len() <= MAX_POSITIONS,
        ensures
            r == purchased(self.lots()),
    ;

    /// Total profit of the lots, each at the first listed price of its ticker.
    fn profit(&self, current_prices: &[(String, u32)]) -> (r: Result<i128, TradeError>)
        requires
            self.lots().len() <= MAX_POSITIONS,
        ensures
            match lots_profit(self.lots(), current_prices@) {
                Some(s) => r == Ok::<i128, TradeError>(s as i128),
                None => r == Err::<i128, TradeError>(TradeError::UnknownTicker),
            },
    ;

    /// Total profit as a percentage of the purchased value, in thousandths of a percent,
    /// rounded toward zero.
    fn profit_percent(&self, current_prices: &[(String, u32)]) -> (r: Result<i128, TradeError>)
        requires
            self.lots().len() <= MAX_POSITIONS,
        ensures
            match lots_profit(self.lots(), current_prices@) {
                None => r == Err::<i128, TradeError>(TradeError::UnknownTicker),
                Some(s) => if purchased(self.lots()) == 0 {
                    r == Err::<i128, TradeError>(TradeError::DivisionByZero)
                } else {
                    r == Ok::<i128, TradeError>(percent_of(s, purchased(self.lots())) as i128)
                },
            },
    ;
}

impl<'a> PositionVec for Vec<&'a Position> {
    open spec fn lots(&self) -> Seq<PositionView> {
        self@.map_values(|p: &Position| p@)
    }

    fn purchased_value(&self) -> (r: u128) {
        let ghost ps = self.lots();
        let mut total: u128 = 0;
        let mut i: usize = 0;
        while i < self.len()
            invariant
                ps == self.lots(),
                ps.len() <= MAX_POSITIONS,
                i <= ps.len(),
                total == purchased(ps.take(i as int)),
                total <= i * 0x1_0000_0000_0000_0000,
            decreases ps.len() - i,
        {
            assert(ps.take(i + 1).drop_last() =~= ps.take(i as int));
            let v = self[i].value();
            total = total + v as u128;
            i = i + 1;
        }
        assert(ps.take(i as int) =~= ps);
        total
    }

    fn profit(&self, current_prices: &[(String, u32)]) -> (r: Result<i128, TradeError>) {
        let ghost ps = self.lots();
        let mut total: i128 = 0;
        let mut missing = false;
        let mut i: usize = 0;
        while i < self.len()
            invariant
                ps == self.lots(),
                ps.len() <= MAX_POSITIONS,
                i <= ps.len(),
                missing ==> lots_profit(ps.take(i as int), current_prices@) is None,
                !missing ==> lots_profit(ps.take(i as int), current_prices@) == Some(
                    total as int,
                ),
                -(i * 0x1_0000_0000_0000_0000) <= total <= i * 0x1_0000_0000_0000_0000,
            decreases ps.len() - i,
        {
            assert(ps.take(i + 1).drop_last() =~= ps.take(i as int));
            proof {
                lemma_first_index_bounds(keys_of(current_prices@), ps[i as int].ticker);
            }
            match find_ticker(current_prices, &self[i].ticker) {
                Some(k) => {
                    if !missing {
                        let p = self[i].profit(current_prices[k].1);
                        proof {
                            lemma_term_bound(
                                self[i as int].quantity as int,
                                current_prices[k as int].1 - self[i as int].share_price,
                            );
                        }
                        total = total + p;
                    }
                },
                None => {
                    missing = true;
                },
            }
            i = i + 1;
        }
        assert(ps.take(i as int) =~= ps);
        if missing {
            Err(TradeError::UnknownTicker)
        } else {
            Ok(total)
        }
    }

    fn profit_percent(&self, current_prices: &[(String, u32)]) -> (r: Result<i128, TradeError>) {
        let profit = match self.profit(current_prices) {
            Ok(p) => p,
            Err(e) => return Err(e),
        };
        let cost = self.purchased_value();
        if cost == 0 {
            return Err(TradeError::DivisionByZero);
        }
        proof {
            let ps = self.lots();
            assert forall|k: int| 0 <= k < ps.len() implies ps[k].quantity <= u32::MAX
                && ps[k].share_price <= u32::MAX by {
                assert(ps[k] == self@[k]@);
            }
            lemma_profit_bound(ps, current_prices@);
        }
        Ok(percent_exec(profit, cost))
    }
}

proof fn lemma_profit_bound(ps: Seq<PositionView>, prices: Seq<(String, u32)>)
    requires
        forall|k: int|
            0 <= k < ps.len() ==> ps[k].quantity <= u32::MAX && ps[k].share_price <= u32::MAX,
    ensures
        lots_profit(ps, prices) matches Some(s) ==> -(ps.len() * 0x1_0000_0000_0000_0000) <= s
            <= ps.len() * 0x1_0000_0000_0000_0000,
    decreases ps.len(),
{
    if ps.len() > 0 {
        lemma_profit_bound(ps.drop_last(), prices);
        if let Some(x) = lookup(prices, ps.last().ticker) {
            lemma_first_index_bounds(keys_of(prices), ps.last().ticker);
            let p = ps.last();
            lemma_term_bound(p.quantity as int, x - p.share_price);
        }
    }
}

} // verus!
