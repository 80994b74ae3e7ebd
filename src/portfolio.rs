//! A portfolio: lots of instruments and a cash balance, with buys, sells and valuations.
use vstd::prelude::*;
use vstd::string::StringSliceAdditionalSpecFns;

use crate::error::TradeError;
use crate::position::{Position, PositionView, MAX_POSITIONS};
use crate::prices::{find_ticker, keys_of, lemma_first_index_bounds, lookup};
use crate::selector::{parse_ticker, selector_error, selector_leverage, selector_ticker};

verus! {

/// Largest magnitude of a balance that sells and valuations take.
pub const BALANCE_BOUND: i128 = 0x1_0000_0000_0000_0000_0000_0000_0000;

/// Display color of a portfolio.
#[derive(Clone, Copy, Debug, PartialEq, Eq)]
pub struct Color {
    pub r: u8,
    pub g: u8,
    pub b: u8,
}

/// One quote of a price series; prices in the smallest unit of the currency,
/// `timestamp` in seconds since the Unix epoch.
#[derive(Clone, Copy, Debug)]
pub struct Quote {
    pub timestamp: i64,
    pub open: u32,
    pub high: u32,
    pub low: u32,
    pub close: u32,
    pub volume: u64,
    pub adjclose: u32,
}

/// Lots and cash. Quantities are counted in thousandths of a share and leverage in
/// thousandths of a factor, so `balance`, `trading_fee` and every amount of money below
/// are in millionths of the unit that prices are given in: a lot costs
/// `quantity * share_price * leverage` of them.
#[derive(Clone)]
pub struct Portfolio {
    pub name: String,
    pub positions: Vec<Position>,
    pub color: Color,
    pub trading_fee: u32,
    /// Whether a sell charges the fee once per lot it touches (else once per sell
    /// that touches any lot).
    pub fee_per_lot: bool,
    pub balance: i128,
}

/// The lots after a sell, how much was left unsold, and how many lots it touched.
pub struct SellState {
    pub kept: Seq<PositionView>,
    pub remaining: nat,
    pub touched: nat,
}

/// Selling `q` shares of `t` from lots in order: each lot of `t` met while shares
/// remain gives up what it can and counts as touched; lots left empty are dropped.
pub open spec fn sell_scan(ps: Seq<PositionView>, t: Seq<char>, q: nat) -> SellState
    decreases ps.len(),
{
    if ps.len() == 0 {
        SellState { kept: Seq::empty(), remaining: q, touched: 0 }
    } else {
        let s = sell_scan(ps.drop_last(), t, q);
        let p = ps.last();
        if p.ticker == t && s.remaining > 0 {
            let take = if p.quantity >= s.remaining { s.remaining } else { p.quantity };
            let rest = PositionView { quantity: (p.quantity - take) as nat, ..p };
            SellState {
                kept: if rest.quantity > 0 { s.kept.push(rest) } else { s.kept },
                remaining: (s.remaining - take) as nat,
                touched: s.touched + 1,
            }
        } else {
            SellState { kept: if p.quantity > 0 { s.kept.push(p) } else { s.kept }, ..s }
        }
    }
}

/// How many fees a sell that touched `touched` lots charges.
pub open spec fn fees_charged(per_lot: bool, touched: nat) -> nat {
    if per_lot {
        touched
    } else if touched > 0 {
        1
    } else {
        0
    }
}

/// Shares of `t` held over all lots.
pub open spec fn held(ps: Seq<PositionView>, t: Seq<char>) -> nat
    decreases ps.len(),
{
    if ps.len() == 0 {
        0
    } else {
        held(ps.drop_last(), t) + if ps.last().ticker == t { ps.last().quantity } else { 0 }
    }
}

/// Sum of `quantity * share_price * leverage` over lots: what they cost, fees aside.
pub open spec fn lots_cost(ps: Seq<PositionView>) -> int
    decreases ps.len(),
{
    if ps.len() == 0 {
        0
    } else {
        lots_cost(ps.drop_last()) + ps.last().quantity * ps.last().share_price
            * ps.last().leverage
    }
}

/// The capital committed to a portfolio: its balance and what its lots cost.
pub open spec fn committed(p: Portfolio) -> int {
    p.balance + lots_cost(p.lots())
}

/// Every lot holds shares.
pub open spec fn lots_positive(ps: Seq<PositionView>) -> bool {
    forall|k: int| 0 <= k < ps.len() ==> (#[trigger] ps[k]).quantity > 0
}

/// How many lots of `t` there are.
pub open spec fn count_of(ps: Seq<PositionView>, t: Seq<char>) -> nat
    decreases ps.len(),
{
    if ps.len() == 0 {
        0
    } else {
        count_of(ps.drop_last(), t) + if ps.last().ticker == t { 1nat } else { 0 }
    }
}

/// How many lots of `t` a sale of `q` shares reaches: those before which the lots of
/// `t` held fewer than `q` shares.
pub open spec fn lots_touched(ps: Seq<PositionView>, t: Seq<char>, q: nat) -> nat
    decreases ps.len(),
{
    if ps.len() == 0 {
        0
    } else {
        lots_touched(ps.drop_last(), t, q) + if ps.last().ticker == t && held(
            ps.drop_last(),
            t,
        ) < q {
            1nat
        } else {
            0
        }
    }
}

/// The lots of `t`, in order.
pub open spec fn of_ticker(ps: Seq<PositionView>, t: Seq<char>) -> Seq<PositionView>
    decreases ps.len(),
{
    if ps.len() == 0 {
        Seq::empty()
    } else if ps.last().ticker == t {
        of_ticker(ps.drop_last(), t).push(ps.last())
    } else {
        of_ticker(ps.drop_last(), t)
    }
}

/// `quantity * price * leverage` of each lot whose ticker has a price, summed.
pub open spec fn invested(ps: Seq<PositionView>, prices: Seq<(String, u32)>) -> int
    decreases ps.len(),
{
    if ps.len() == 0 {
        0
    } else {
        invested(ps.drop_last(), prices) + match lookup(prices, ps.last().ticker) {
            Some(x) => ps.last().quantity * x * ps.last().leverage,
            None => 0,
        }
    }
}

/// `quantity * price[j] * leverage` of each lot whose ticker has a series, summed.
pub open spec fn invested_at(ps: Seq<PositionView>, hs: Seq<(String, Vec<u32>)>, j: int) -> int
    decreases ps.len(),
{
    if ps.len() == 0 {
        0
    } else {
        invested_at(ps.drop_last(), hs, j) + match lookup(hs, ps.last().ticker) {
            Some(h) => if 0 <= j < h@.len() {
                ps.last().quantity * h@[j] * ps.last().leverage
            } else {
                0
            },
            None => 0,
        }
    }
}

/// What a buy of `q` shares at `price` through selector bytes `sel` does.
pub open spec fn buy_outcome(
    pre: Portfolio,
    post: Portfolio,
    r: Result<(), TradeError>,
    sel: Seq<u8>,
    q: u32,
    price: u32,
    date: i64,
) -> bool {
    &&& post.name == pre.name
    &&& post.color == pre.color
    &&& post.trading_fee == pre.trading_fee
    &&& post.fee_per_lot == pre.fee_per_lot
    &&& match selector_error(sel) {
        Some(e) => {
            &&& r == Err::<(), TradeError>(TradeError::InvalidInstrumentSelector(e))
            &&& post.lots() == pre.lots()
            &&& post.balance == pre.balance
        },
        None => {
            let lev = selector_leverage(sel);
            let cost = q * price * lev + pre.trading_fee;
            if pre.balance < cost {
                &&& r == Err::<(), TradeError>(TradeError::InsufficientBalance)
                &&& post.lots() == pre.lots()
                &&& post.balance == pre.balance
            } else {
                &&& r == Ok::<(), TradeError>(())
                &&& post.balance == pre.balance - cost
                &&& q == 0 ==> post.lots() == pre.lots()
                &&& q > 0 ==> post.lots() == pre.lots().push(
                    PositionView {
                        ticker: selector_ticker(sel),
                        quantity: q as nat,
                        share_price: price as nat,
                        purchase_date: date as int,
                        leverage: lev as nat,
                    },
                )
            }
        },
    }
}

/// What a sell of `q` shares at `price` through selector bytes `sel` does.
pub open spec fn sell_outcome(
    pre: Portfolio,
    post: Portfolio,
    r: Result<(), TradeError>,
    sel: Seq<u8>,
    q: u32,
    price: u32,
) -> bool {
    &&& post.name == pre.name
    &&& post.color == pre.color
    &&& post.trading_fee == pre.trading_fee
    &&& post.fee_per_lot == pre.fee_per_lot
    &&& match selector_error(sel) {
        Some(e) => {
            &&& r == Err::<(), TradeError>(TradeError::InvalidInstrumentSelector(e))
            &&& post.lots() == pre.lots()
            &&& post.balance == pre.balance
        },
        None => {
            let s = sell_scan(pre.lots(), selector_ticker(sel), q as nat);
            &&& post.lots() == s.kept
            &&& post.balance == pre.balance + (q - s.remaining) * (price * selector_leverage(sel))
                - pre.trading_fee * fees_charged(pre.fee_per_lot, s.touched)
            &&& r == if s.remaining > 0 {
                Err::<(), TradeError>(
                    TradeError::InsufficientShares { remaining: s.remaining as u32 },
                )
            } else {
                Ok::<(), TradeError>(())
            }
        },
    }
}

/// Relies on rand::random: a uniformly drawn byte, of which nothing is claimed.
#[verifier::external_body]
fn random_byte() -> (r: u8) {
    rand::random::<u8>()
}

proof fn lemma_triple_bound(a: nat, b: nat, c: nat)
    requires
        a <= u32::MAX,
        b <= u32::MAX,
        c <= u32::MAX,
    ensures
        a * b <= u32::MAX * u32::MAX,
        a * b * c <= 0x1_0000_0000_0000_0000_0000_0000,
{
    vstd::arithmetic::mul::lemma_mul_upper_bound(
        a as int, u32::MAX as int, b as int, u32::MAX as int);
    vstd::arithmetic::mul::lemma_mul_upper_bound(
        (a * b) as int, (u32::MAX * u32::MAX) as int, c as int, u32::MAX as int);
}

impl Position {
    /// The same lot holding `quantity` shares.
    fn with_quantity(&self, quantity: u32) -> (r: Position)
        ensures
            r@ == (PositionView { quantity: quantity as nat, ..self@ }),
    {
        Position {
            ticker: self.ticker.clone(),
            quantity,
            share_price: self.share_price,
            purchase_date: self.purchase_date,
            leverage: self.leverage,
        }
    }
}

impl Portfolio {
    pub open spec fn lots(&self) -> Seq<PositionView> {
        self.positions@.map_values(|p: Position| p@)
    }

    /// A portfolio with no lots, no trading fee, and a randomly drawn color.
    pub fn new(name: &str, balance: i128) -> (r: Portfolio)
        ensures
            r.name@ == name@,
            r.lots().len() == 0,
            r.trading_fee == 0,
            r.fee_per_lot,
            r.balance == balance,
    {
        let color = Color { r: random_byte(), g: random_byte(), b: random_byte() };
        Self::with_color(name, balance, color)
    }

    /// A portfolio with no lots, no trading fee, and the given color.
    pub fn with_color(name: &str, balance: i128, color: Color) -> (r: Portfolio)
        ensures
            r.name@ == name@,
            r.lots().len() == 0,
            r.color == color,
            r.trading_fee == 0,
            r.fee_per_lot,
            r.balance == balance,
    {
        let p = Portfolio {
            name: name.to_owned(),
            positions: Vec::new(),
            color,
            trading_fee: 0,
            fee_per_lot: true,
            balance,
        };
        assert(p.lots() =~= Seq::<PositionView>::empty());
        p
    }

    /// Buys `quantity` shares at `share_price` through `ticker`, a selector
    /// `TICKER[?l=LEVERAGE]`, for `quantity * share_price * leverage` plus the fee.
    /// A buy of no shares pays the fee alone and adds no lot, since no lot is empty.
    pub fn add_position_by_quantity(
        &mut self,
        ticker: &str,
        quantity: u32,
        share_price: u32,
        purchase_date: i64,
    ) -> (r: Result<(), TradeError>)
        ensures
            buy_outcome(*old(self), *final(self), r, ticker.spec_bytes(), quantity, share_price,
                purchase_date),
    {
        let sel = match parse_ticker(ticker) {
            Ok(s) => s,
            Err(e) => return Err(TradeError::InvalidInstrumentSelector(e)),
        };
        proof {
            lemma_triple_bound(quantity as nat, share_price as nat, sel.leverage as nat);
        }
        let total_cost = quantity as u128 * share_price as u128 * sel.leverage as u128
            + self.trading_fee as u128;
        if self.balance < total_cost as i128 {
            return Err(TradeError::InsufficientBalance);
        }
        self.balance = self.balance - total_cost as i128;
        if quantity > 0 {
            let ghost pre = self.positions@;
            let pos = Position {
                ticker: sel.ticker,
                quantity,
                share_price,
                purchase_date,
                leverage: sel.leverage,
            };
            self.positions.push(pos);
            assert(self.lots() =~= pre.map_values(|p: Position| p@).push(pos@));
        }
        Ok(())
    }

    /// Buys the shares, in whole thousandths, that `value` (in thousandths of the unit
    /// of prices) pays for at `share_price`.
    pub fn add_position_by_value(
        &mut self,
        ticker: &str,
        value: u64,
        share_price: u32,
        purchase_date: i64,
    ) -> (r: Result<(), TradeError>)
        requires
            share_price > 0,
            value / share_price as u64 <= u32::MAX,
        ensures
            buy_outcome(*old(self), *final(self), r, ticker.spec_bytes(),
                (value / share_price as u64) as u32, share_price, purchase_date),
    {
        let quantity = (value / share_price as u64) as u32;
        self.add_position_by_quantity(ticker, quantity, share_price, purchase_date)
    }

    /// Sells `quantity` shares at `share_price` through `ticker` from the lots of its
    /// ticker, oldest first, crediting `shares * share_price * leverage` and charging the
    /// fee once per lot touched (or once in all, see `fee_per_lot`). Shares that no lot
    /// holds are reported, not sold.
    pub fn sell_position_by_quantity(&mut self, ticker: &str, quantity: u32, share_price: u32)
        -> (r: Result<(), TradeError>)
        requires
            old(self).lots().len() <= MAX_POSITIONS,
            -BALANCE_BOUND <= old(self).balance <= BALANCE_BOUND,
        ensures
            sell_outcome(*old(self), *final(self), r, ticker.spec_bytes(), quantity, share_price),
    {
        let sel = match parse_ticker(ticker) {
            Ok(s) => s,
            Err(e) => return Err(TradeError::InvalidInstrumentSelector(e)),
        };
        let ghost ps = self.lots();
        let ghost t = sel.ticker@;
        let ghost q = quantity as nat;
        let ghost b0 = self.balance as int;
        proof {
            vstd::arithmetic::mul::lemma_mul_upper_bound(
                share_price as int, u32::MAX as int, sel.leverage as int, u32::MAX as int);
        }
        let unit: u64 = share_price as u64 * sel.leverage as u64;
        let fee = self.trading_fee;
        let per_lot = self.fee_per_lot;
        let mut kept: Vec<Position> = Vec::new();
        let mut remaining: u32 = quantity;
        let mut touched: usize = 0;
        let mut balance: i128 = self.balance;
        let mut i: usize = 0;
        while i < self.positions.len()
            invariant
                ps == self.lots(),
                ps.len() <= MAX_POSITIONS,
                i <= ps.len(),
                touched <= i,
                remaining <= quantity,
                unit == share_price * sel.leverage,
                fee == self.trading_fee,
                per_lot == self.fee_per_lot,
                t == sel.ticker@,
                -BALANCE_BOUND <= b0 <= BALANCE_BOUND,
                ({
                    let s = sell_scan(ps.take(i as int), t, q);
                    &&& s.kept == kept@.map_values(|p: Position| p@)
                    &&& s.remaining == remaining
                    &&& s.touched == touched
                }),
                balance == b0 + (quantity - remaining) * unit - fee * fees_charged(
                    per_lot,
                    touched as nat,
                ),
            decreases ps.len() - i,
        {
            assert(ps.take(i + 1).drop_last() =~= ps.take(i as int));
            let ghost kept_before = kept@;
            proof {
                vstd::arithmetic::mul::lemma_mul_upper_bound(
                    (quantity - remaining) as int, u32::MAX as int, unit as int,
                    0xFFFF_FFFF_FFFF_FFFF);
                vstd::arithmetic::mul::lemma_mul_upper_bound(
                    fee as int, u32::MAX as int, touched as int, MAX_POSITIONS as int);
                vstd::arithmetic::mul::lemma_mul_nonnegative(
                    (quantity - remaining) as int, unit as int);
                vstd::arithmetic::mul::lemma_mul_nonnegative(fee as int, touched as int);
                vstd::arithmetic::mul::lemma_mul_upper_bound(
                    fee as int, u32::MAX as int, fees_charged(per_lot, touched as nat) as int,
                    MAX_POSITIONS as int);
                vstd::arithmetic::mul::lemma_mul_nonnegative(
                    fee as int, fees_charged(per_lot, touched as nat) as int);
            }
            if remaining > 0 && self.positions[i].ticker == sel.ticker {
                let held_here = self.positions[i].quantity;
                let take = if held_here >= remaining {
                    remaining
                } else {
                    held_here
                };
                proof {
                    vstd::arithmetic::mul::lemma_mul_upper_bound(
                        take as int, u32::MAX as int, unit as int, 0xFFFF_FFFF_FFFF_FFFF);
                    vstd::arithmetic::mul::lemma_mul_is_distributive_add_other_way(
                        unit as int, (quantity - remaining) as int, take as int);
                    vstd::arithmetic::mul::lemma_mul_is_distributive_add(
                        fee as int, touched as int, 1);
                }
                balance = balance + (take as u128 * unit as u128) as i128;
                if per_lot || touched == 0 {
                    balance = balance - fee as i128;
                }
                remaining = remaining - take;
                touched = touched + 1;
                if held_here - take > 0 {
                    let rest = self.positions[i].with_quantity(held_here - take);
                    kept.push(rest);
                }
            } else if self.positions[i].quantity > 0 {
                let same = self.positions[i].with_quantity(self.positions[i].quantity);
                kept.push(same);
            }
            assert(kept_before.map_values(|p: Position| p@) =~= kept@.map_values(
                |p: Position| p@,
            ) || kept@.map_values(|p: Position| p@) =~= kept_before.map_values(
                |p: Position| p@,
            ).push(kept@.last()@));
            i = i + 1;
        }
        assert(ps.take(i as int) =~= ps);
        self.positions = kept;
        self.balance = balance;
        if remaining > 0 {
            Err(TradeError::InsufficientShares { remaining })
        } else {
            Ok(())
        }
    }

    /// Sells the shares, in whole thousandths, that `value` (in thousandths of the unit
    /// of prices) is worth at `share_price`.
    pub fn sell_position_by_value(&mut self, ticker: &str, value: u64, share_price: u32)
        -> (r: Result<(), TradeError>)
        requires
            share_price > 0,
            value / share_price as u64 <= u32::MAX,
            old(self).lots().len() <= MAX_POSITIONS,
            -BALANCE_BOUND <= old(self).balance <= BALANCE_BOUND,
        ensures
            sell_outcome(*old(self), *final(self), r, ticker.spec_bytes(),
                (value / share_price as u64) as u32, share_price),
    {
        let quantity = (value / share_price as u64) as u32;
        self.sell_position_by_quantity(ticker, quantity, share_price)
    }

    /// Value of the lots at the current prices, with leverage, plus the balance;
    /// lots whose ticker has no price count for nothing.
    pub fn calculate_value(&self, current_prices: &[(String, u32)]) -> (r: i128)
        requires
            self.lots().len() <= MAX_POSITIONS,
            -BALANCE_BOUND <= self.balance <= BALANCE_BOUND,
        ensures
            r == invested(self.lots(), current_prices@) + self.balance,
    {
        let ghost ps = self.lots();
        let mut value: u128 = 0;
        let mut i: usize = 0;
        while i < self.positions.len()
            invariant
                ps == self.lots(),
                ps.len() <= MAX_POSITIONS,
                i <= ps.len(),
                value == invested(ps.take(i as int), current_prices@),
                value <= i * 0x1_0000_0000_0000_0000_0000_0000,
            decreases ps.len() - i,
        {
            assert(ps.take(i + 1).drop_last() =~= ps.take(i as int));
            let p = &self.positions[i];
            proof {
                lemma_first_index_bounds(keys_of(current_prices@), p.ticker@);
            }
            if let Some(k) = find_ticker(current_prices, &p.ticker) {
                let price = current_prices[k].1;
                proof {
                    lemma_triple_bound(p.quantity as nat, price as nat, p.leverage as nat);
                }
                value = value + p.quantity as u128 * price as u128 * p.leverage as u128;
            }
            i = i + 1;
        }
        assert(ps.take(i as int) =~= ps);
        value as i128 + self.balance
    }

    /// For each time index, the value of the lots at that index of their ticker's
    /// series, with leverage; the balance is not included.
    pub fn calculate_portfolio_history(&self, price_histories: &[(String, Vec<u32>)]) -> (r: Vec<
        u128,
    >)
        requires
            price_histories@.len() > 0,
            forall|k: int|
                0 <= k < price_histories@.len() ==> #[trigger] price_histories@[k].1@.len()
                    == price_histories@[0].1@.len(),
            self.lots().len() <= MAX_POSITIONS,
        ensures
            r@.len() == price_histories@[0].1@.len(),
            forall|j: int|
                0 <= j < r@.len() ==> r@[j] == invested_at(self.lots(), price_histories@, j),
    {
        let ghost ps = self.lots();
        let ghost hs = price_histories@;
        let n = price_histories[0].1.len();
        let mut history: Vec<u128> = Vec::new();
        while history.len() < n
            invariant
                history@.len() <= n,
                forall|j: int| 0 <= j < history@.len() ==> history@[j] == 0,
            decreases n - history@.len(),
        {
            history.push(0);
        }
        assert forall|j: int| 0 <= j < n implies invested_at(ps.take(0), hs, j) == 0 by {}
        let mut i: usize = 0;
        while i < self.positions.len()
            invariant
                ps == self.lots(),
                hs == price_histories@,
                ps.len() <= MAX_POSITIONS,
                i <= ps.len(),
                n == hs[0].1@.len(),
                forall|k: int| 0 <= k < hs.len() ==> #[trigger] hs[k].1@.len() == n,
                history@.len() == n,
                forall|j: int|
                    0 <= j < n ==> history@[j] == invested_at(ps.take(i as int), hs, j)
                        && history@[j] <= i * 0x1_0000_0000_0000_0000_0000_0000,
            decreases ps.len() - i,
        {
            assert(ps.take(i + 1).drop_last() =~= ps.take(i as int));
            let p = &self.positions[i];
            proof {
                lemma_first_index_bounds(keys_of(hs), p.ticker@);
            }
            match find_ticker(price_histories, &p.ticker) {
                Some(k) => {
                    let series = &price_histories[k].1;
                    assert(series@.len() == n);
                    let mut j: usize = 0;
                    while j < n
                        invariant
                            0 <= k < hs.len(),
                            series == hs[k as int].1,
                            series@.len() == n,
                            ps == self.lots(),
                            ps.len() <= MAX_POSITIONS,
                            i < ps.len(),
                            p == self.positions@[i as int],
                            lookup(hs, ps[i as int].ticker) == Some(hs[k as int].1),
                            ps.take(i + 1).drop_last() == ps.take(i as int),
                            j <= n,
                            history@.len() == n,
                            forall|m: int|
                                0 <= m < j ==> history@[m] == invested_at(
                                    ps.take(i + 1),
                                    hs,
                                    m,
                                ) && history@[m] <= (i + 1) * 0x1_0000_0000_0000_0000_0000_0000,
                            forall|m: int|
                                j <= m < n ==> history@[m] == invested_at(
                                    ps.take(i as int),
                                    hs,
                                    m,
                                ) && history@[m] <= i * 0x1_0000_0000_0000_0000_0000_0000,
                        decreases n - j,
                    {
                        let price = series[j];
                        proof {
                            lemma_triple_bound(p.quantity as nat, price as nat, p.leverage as nat);
                            assert(ps.take(i + 1).last() == ps[i as int]);
                        }
                        let add = p.quantity as u128 * price as u128 * p.leverage as u128;
                        let cur = history[j];
                        history.set(j, cur + add);
                        j = j + 1;
                    }
                },
                None => {
                    assert forall|m: int| 0 <= m < n implies invested_at(ps.take(i + 1), hs, m)
                        == invested_at(ps.take(i as int), hs, m) by {
                        assert(ps.take(i + 1).last() == ps[i as int]);
                    }
                },
            }
            i = i + 1;
        }
        assert(ps.take(i as int) =~= ps);
        history
    }

    /// The lots of `ticker`, in order.
    pub fn get_positions_for_ticker(&self, ticker: &str) -> (r: Vec<&Position>)
        ensures
            r@.map_values(|p: &Position| p@) == of_ticker(self.lots(), ticker@),
    {
        let ghost ps = self.lots();
        let t = ticker.to_owned();
        let mut found: Vec<&Position> = Vec::new();
        let mut i: usize = 0;
        while i < self.positions.len()
            invariant
                ps == self.lots(),
                i <= ps.len(),
                t@ == ticker@,
                found@.map_values(|p: &Position| p@) == of_ticker(ps.take(i as int), t@),
            decreases ps.len() - i,
        {
            assert(ps.take(i + 1).drop_last() =~= ps.take(i as int));
            let ghost before = found@;
            if self.positions[i].ticker == t {
                found.push(&self.positions[i]);
                assert(found@.map_values(|p: &Position| p@) =~= before.map_values(
                    |p: &Position| p@,
                ).push(ps[i as int]));
            }
            i = i + 1;
        }
        assert(ps.take(i as int) =~= ps);
        found
    }
}

} // verus!
