//! Properties that hold across the portfolio's operations.
use vstd::prelude::*;

use crate::error::TradeError;
use crate::portfolio::{
    buy_outcome, committed, count_of, fees_charged, held, invested, lots_positive, lots_touched,
    sell_outcome, sell_scan, Portfolio,
};
use crate::position::PositionView;
use crate::selector::{selector_error, selector_leverage, selector_ticker};

verus! {

/// Selling `q` shares of `t` from lots: shares are left unsold exactly when the lots
/// of `t` hold fewer than `q`, and then what they hold is sold; the shares held of `t`
/// drop by exactly what was sold; the lots touched are those reached before `q` shares
/// were covered; and no lot left is empty, nor, when shares are left unsold, of `t`.
pub proof fn lemma_sell_scan(ps: Seq<PositionView>, t: Seq<char>, q: nat)
    ensures
        sell_scan(ps, t, q).remaining <= q,
        (sell_scan(ps, t, q).remaining > 0) == (held(ps, t) < q),
        sell_scan(ps, t, q).remaining > 0 ==> sell_scan(ps, t, q).remaining == q - held(ps, t),
        held(sell_scan(ps, t, q).kept, t) + (q - sell_scan(ps, t, q).remaining) == held(ps, t),
        sell_scan(ps, t, q).remaining > 0 ==> held(sell_scan(ps, t, q).kept, t) == 0,
        sell_scan(ps, t, q).remaining > 0 ==> forall|k: int|
            0 <= k < sell_scan(ps, t, q).kept.len() ==> (#[trigger] sell_scan(
                ps,
                t,
                q,
            ).kept[k]).ticker != t,
        sell_scan(ps, t, q).touched == lots_touched(ps, t, q),
        lots_positive(sell_scan(ps, t, q).kept),
    decreases ps.len(),
{
    if ps.len() > 0 {
        lemma_sell_scan(ps.drop_last(), t, q);
        let s = sell_scan(ps.drop_last(), t, q);
        let p = ps.last();
        if p.ticker == t && s.remaining > 0 {
            let take = if p.quantity >= s.remaining { s.remaining } else { p.quantity };
            let rest = PositionView { quantity: (p.quantity - take) as nat, ..p };
            assert(s.kept.push(rest).drop_last() =~= s.kept);
        } else {
            assert(s.kept.push(p).drop_last() =~= s.kept);
        }
    }
}

/// When the lots of `t` hold fewer than `q` shares, a sale of `q` reaches every one.
pub proof fn lemma_short_sale_touches_all(ps: Seq<PositionView>, t: Seq<char>, q: nat)
    requires
        held(ps, t) < q,
    ensures
        lots_touched(ps, t, q) == count_of(ps, t),
    decreases ps.len(),
{
    if ps.len() > 0 {
        lemma_short_sale_touches_all(ps.drop_last(), t, q);
    }
}

/// A sale of shares of `t` from lots none of which is of `t` leaves them all.
pub proof fn lemma_sell_elsewhere(ps: Seq<PositionView>, t: Seq<char>, q: nat)
    requires
        lots_positive(ps),
        forall|k: int| 0 <= k < ps.len() ==> (#[trigger] ps[k]).ticker != t,
    ensures
        sell_scan(ps, t, q).kept == ps,
        sell_scan(ps, t, q).remaining == q,
        sell_scan(ps, t, q).touched == 0,
    decreases ps.len(),
{
    if ps.len() > 0 {
        lemma_sell_elsewhere(ps.drop_last(), t, q);
        assert(ps.drop_last().push(ps.last()) =~= ps);
    }
}

/// Buys and sells never leave an empty lot behind.
pub proof fn trades_keep_lots_nonempty(
    pre: Portfolio,
    bought: Portfolio,
    sold: Portfolio,
    rb: Result<(), TradeError>,
    rs: Result<(), TradeError>,
    buy_sel: Seq<u8>,
    sell_sel: Seq<u8>,
    bq: u32,
    sq: u32,
    bp: u32,
    sp: u32,
    date: i64,
)
    requires
        lots_positive(pre.lots()),
        buy_outcome(pre, bought, rb, buy_sel, bq, bp, date),
        sell_outcome(pre, sold, rs, sell_sel, sq, sp),
    ensures
        lots_positive(bought.lots()),
        lots_positive(sold.lots()),
{
    lemma_sell_scan(pre.lots(), selector_ticker(sell_sel), sq as nat);
    if selector_error(buy_sel) is None && bq != 0 && rb is Ok {
        assert(bought.lots() =~= pre.lots().push(bought.lots().last()));
    }
}

/// A sell that the lots of its ticker can fill succeeds, credits
/// `quantity * price * leverage` less the fees charged, one per lot touched where
/// fees go by lot; the lots touched are those reached before `quantity` shares were
/// covered; and it lowers the shares
/// held of the ticker by exactly `quantity`.
pub proof fn sell_filled_by_holdings(
    pre: Portfolio,
    post: Portfolio,
    r: Result<(), TradeError>,
    sel: Seq<u8>,
    quantity: u32,
    price: u32,
)
    requires
        sell_outcome(pre, post, r, sel, quantity, price),
        selector_error(sel) is None,
        held(pre.lots(), selector_ticker(sel)) >= quantity,
    ensures
        r == Ok::<(), TradeError>(()),
        post.balance == pre.balance + quantity * (price * selector_leverage(sel))
            - pre.trading_fee * fees_charged(
            pre.fee_per_lot,
            sell_scan(pre.lots(), selector_ticker(sel), quantity as nat).touched,
        ),
        held(post.lots(), selector_ticker(sel)) == held(pre.lots(), selector_ticker(sel))
            - quantity,
        sell_scan(pre.lots(), selector_ticker(sel), quantity as nat).touched == lots_touched(
            pre.lots(),
            selector_ticker(sel),
            quantity as nat,
        ),
{
    lemma_sell_scan(pre.lots(), selector_ticker(sel), quantity as nat);
}

/// A sell of more than the lots of its ticker hold reports the unsold rest, sells all
/// those lots, touching each, and credits only what was sold.
pub proof fn sell_beyond_holdings(
    pre: Portfolio,
    post: Portfolio,
    r: Result<(), TradeError>,
    sel: Seq<u8>,
    quantity: u32,
    price: u32,
)
    requires
        sell_outcome(pre, post, r, sel, quantity, price),
        selector_error(sel) is None,
        held(pre.lots(), selector_ticker(sel)) < quantity,
    ensures
        r == Err::<(), TradeError>(
            TradeError::InsufficientShares {
                remaining: (quantity - held(pre.lots(), selector_ticker(sel))) as u32,
            },
        ),
        held(post.lots(), selector_ticker(sel)) == 0,
        forall|k: int|
            0 <= k < post.lots().len() ==> (#[trigger] post.lots()[k]).ticker != selector_ticker(
                sel,
            ),
        post.balance == pre.balance + held(pre.lots(), selector_ticker(sel)) * (price
            * selector_leverage(sel)) - pre.trading_fee * fees_charged(
            pre.fee_per_lot,
            sell_scan(pre.lots(), selector_ticker(sel), quantity as nat).touched,
        ),
{
    lemma_sell_scan(pre.lots(), selector_ticker(sel), quantity as nat);
}

/// With no lots, the invested value is zero, so a portfolio is worth its balance.
pub proof fn no_lots_no_invested_value(prices: Seq<(String, u32)>)
    ensures
        invested(Seq::<PositionView>::empty(), prices) == 0,
{
}

/// Buying shares and at once selling as many at the same price through the same
/// selector, without a trading fee, gives the balance back exactly.
pub proof fn buy_then_sell_restores_balance(
    pre: Portfolio,
    mid: Portfolio,
    post: Portfolio,
    bought: Result<(), TradeError>,
    sold: Result<(), TradeError>,
    sel: Seq<u8>,
    quantity: u32,
    price: u32,
    date: i64,
)
    requires
        pre.trading_fee == 0,
        buy_outcome(pre, mid, bought, sel, quantity, price, date),
        bought is Ok,
        sell_outcome(mid, post, sold, sel, quantity, price),
    ensures
        sold is Ok,
        post.balance == pre.balance,
{
    let t = selector_ticker(sel);
    assert(selector_error(sel) is None);
    if quantity > 0 {
        assert(mid.lots().drop_last() =~= pre.lots());
        assert(held(mid.lots(), t) == held(pre.lots(), t) + quantity);
    }
    lemma_sell_scan(mid.lots(), t, quantity as nat);
    vstd::arithmetic::mul::lemma_mul_is_associative(
        quantity as int, price as int, selector_leverage(sel) as int);
}

/// Buying shares of a ticker that no lot holds and at once selling as many through
/// the same selector leaves the lots as they were.
pub proof fn buy_then_sell_restores_lots(
    pre: Portfolio,
    mid: Portfolio,
    post: Portfolio,
    bought: Result<(), TradeError>,
    sold: Result<(), TradeError>,
    sel: Seq<u8>,
    quantity: u32,
    price: u32,
    date: i64,
)
    requires
        lots_positive(pre.lots()),
        forall|k: int|
            0 <= k < pre.lots().len() ==> (#[trigger] pre.lots()[k]).ticker != selector_ticker(
                sel,
            ),
        buy_outcome(pre, mid, bought, sel, quantity, price, date),
        bought is Ok,
        sell_outcome(mid, post, sold, sel, quantity, price),
    ensures
        sold is Ok,
        post.lots() == pre.lots(),
{
    let t = selector_ticker(sel);
    assert(selector_error(sel) is None);
    if quantity > 0 {
        assert(mid.lots().drop_last() =~= pre.lots());
        lemma_sell_elsewhere(pre.lots(), t, quantity as nat);
        assert(post.lots() =~= pre.lots());
    } else {
        lemma_sell_scan(pre.lots(), t, 0);
        lemma_sell_elsewhere(pre.lots(), t, 0);
    }
}

/// A buy that succeeds lowers the committed capital by the fee alone; one that fails
/// leaves it as it was.
pub proof fn buy_commits_capital(
    pre: Portfolio,
    post: Portfolio,
    r: Result<(), TradeError>,
    sel: Seq<u8>,
    quantity: u32,
    price: u32,
    date: i64,
)
    requires
        buy_outcome(pre, post, r, sel, quantity, price, date),
    ensures
        r is Ok ==> committed(post) == committed(pre) - pre.trading_fee,
        r is Err ==> committed(post) == committed(pre),
{
    if r is Ok && quantity > 0 {
        assert(post.lots().drop_last() =~= pre.lots());
    }
}

proof fn lemma_held_grows(ps: Seq<PositionView>, t: Seq<char>, i: int, j: int)
    requires
        0 <= i <= j <= ps.len(),
    ensures
        held(ps.take(i), t) <= held(ps.take(j), t),
    decreases j - i,
{
    if i < j {
        assert(ps.take(j).drop_last() =~= ps.take(j - 1));
        lemma_held_grows(ps, t, i, j - 1);
    }
}

proof fn lemma_touched_after_cover(ps: Seq<PositionView>, t: Seq<char>, q: nat, m: int, n: int)
    requires
        0 <= m <= n <= ps.len(),
        held(ps.take(m), t) >= q,
    ensures
        lots_touched(ps.take(n), t, q) == lots_touched(ps.take(m), t, q),
    decreases n - m,
{
    if m < n {
        assert(ps.take(n).drop_last() =~= ps.take(n - 1));
        lemma_touched_after_cover(ps, t, q, m, n - 1);
        lemma_held_grows(ps, t, m, n - 1);
    }
}

/// A sale of `q` shares of `t` touches exactly the lots of `t` among the first `m`
/// lots, where the first `m` are the shortest run of lots that holds `q` shares of `t`.
pub proof fn sell_touches_least_covering_lots(ps: Seq<PositionView>, t: Seq<char>, q: nat, m: int)
    requires
        1 <= m <= ps.len(),
        held(ps.take(m - 1), t) < q <= held(ps.take(m), t),
    ensures
        sell_scan(ps, t, q).touched == count_of(ps.take(m), t),
{
    lemma_sell_scan(ps, t, q);
    lemma_short_sale_touches_all(ps.take(m - 1), t, q);
    assert(ps.take(m).drop_last() =~= ps.take(m - 1));
    lemma_touched_after_cover(ps, t, q, m, ps.len() as int);
    assert(ps.take(ps.len() as int) =~= ps);
}

} // verus!
