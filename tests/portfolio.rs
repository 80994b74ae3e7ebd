use tendies::error::TradeError;
use tendies::portfolio::{Color, Portfolio};
use tendies::position::PositionVec;
use tendies::selector::SelectorError;

/// Thousandths of a share in one share.
const S: u32 = 1000;
/// The ledger's money, in millionths of a price unit, that one share at a price of one
/// costs at leverage 1.
const M: i128 = 1_000_000;

fn black(name: &str, balance: i128) -> Portfolio {
    Portfolio::with_color(name, balance, Color { r: 0, g: 0, b: 0 })
}

#[test]
fn buy_debits_cost_and_appends_lot() {
    let mut p = black("p", 1000 * M);
    assert_eq!(p.add_position_by_quantity("X", 10 * S, 10, 1_700_000_000), Ok(()));
    assert_eq!(p.balance, 900 * M);
    assert_eq!(p.positions.len(), 1);
    assert_eq!(p.positions[0].ticker, "X");
    assert_eq!(p.positions[0].quantity, 10 * S);
    assert_eq!(p.positions[0].share_price, 10);
    assert_eq!(p.positions[0].purchase_date, 1_700_000_000);
    assert_eq!(p.positions[0].leverage, 1000);
}

#[test]
fn buy_with_fee_and_leverage() {
    let mut p = black("p", 1000 * M);
    p.trading_fee = 5;
    assert_eq!(p.add_position_by_quantity("TQQQ?l=3", 10 * S, 10, 0), Ok(()));
    assert_eq!(p.balance, 1000 * M - 300 * M - 5);
    assert_eq!(p.positions[0].ticker, "TQQQ");
    assert_eq!(p.positions[0].leverage, 3000);
}

#[test]
fn buy_of_exactly_the_balance_succeeds() {
    let mut p = black("p", 100 * M);
    assert_eq!(p.add_position_by_quantity("X", 10 * S, 10, 0), Ok(()));
    assert_eq!(p.balance, 0);
}

#[test]
fn buy_beyond_balance_changes_nothing() {
    let mut p = black("p", 1000 * M);
    assert_eq!(p.add_position_by_quantity("X", 200 * S, 10, 0), Err(TradeError::InsufficientBalance));
    assert_eq!(p.balance, 1000 * M);
    assert!(p.positions.is_empty());
}

#[test]
fn buy_with_bad_selector_changes_nothing() {
    let mut p = black("p", 1000 * M);
    assert_eq!(
        p.add_position_by_quantity("X?l=abc", 1 * S, 10, 0),
        Err(TradeError::InvalidInstrumentSelector(SelectorError::BadLeverage))
    );
    assert_eq!(
        p.add_position_by_quantity("?l=2", 1 * S, 10, 0),
        Err(TradeError::InvalidInstrumentSelector(SelectorError::EmptyTicker))
    );
    assert_eq!(p.balance, 1000 * M);
    assert!(p.positions.is_empty());
}

#[test]
fn buy_by_value_takes_thousandths_of_shares() {
    let mut p = black("p", 1000 * M);
    assert_eq!(p.add_position_by_value("X", 105_500, 10, 0), Ok(()));
    assert_eq!(p.positions[0].quantity, 10_550);
    assert_eq!(p.balance, 1000 * M - 105_500_000);
}

#[test]
fn sell_across_lots_charges_fee_per_lot() {
    let mut p = black("p", 10_000 * M);
    p.add_position_by_quantity("X", 10 * S, 10, 0).unwrap();
    p.add_position_by_quantity("Y", 5 * S, 10, 0).unwrap();
    p.add_position_by_quantity("X", 10 * S, 20, 0).unwrap();
    p.trading_fee = 3;
    let before = p.balance;
    assert_eq!(p.sell_position_by_quantity("X", 15 * S, 30), Ok(()));
    assert_eq!(p.balance, before + 15 * 30 * M - 2 * 3);
    assert_eq!(p.positions.len(), 2);
    assert_eq!(p.positions[0].ticker, "Y");
    assert_eq!(p.positions[1].ticker, "X");
    assert_eq!(p.positions[1].quantity, 5 * S);
    assert_eq!(p.positions[1].share_price, 20);
}

#[test]
fn sell_uses_selector_leverage() {
    let mut p = black("p", 10_000 * M);
    p.add_position_by_quantity("X?l=2", 10 * S, 10, 0).unwrap();
    assert_eq!(p.balance, (10_000 - 200) * M);
    assert_eq!(p.sell_position_by_quantity("X?l=2", 4 * S, 10), Ok(()));
    assert_eq!(p.balance, (10_000 - 200 + 80) * M);
    assert_eq!(p.positions[0].quantity, 6 * S);
}

#[test]
fn sell_beyond_holdings_drains_and_reports() {
    let mut p = black("p", 1000 * M);
    p.add_position_by_quantity("X", 10 * S, 10, 0).unwrap();
    p.add_position_by_quantity("X", 5 * S, 10, 0).unwrap();
    p.trading_fee = 1;
    let before = p.balance;
    assert_eq!(
        p.sell_position_by_quantity("X", 20 * S, 12),
        Err(TradeError::InsufficientShares { remaining: 5 * S })
    );
    assert!(p.positions.is_empty());
    assert_eq!(p.balance, before + 15 * 12 * M - 2);
}

#[test]
fn sell_of_unheld_ticker_changes_nothing() {
    let mut p = black("p", 1000 * M);
    p.add_position_by_quantity("X", 10 * S, 10, 0).unwrap();
    assert_eq!(
        p.sell_position_by_quantity("Z", 3 * S, 10),
        Err(TradeError::InsufficientShares { remaining: 3 * S })
    );
    assert_eq!(p.balance, 900 * M);
    assert_eq!(p.positions.len(), 1);
}

#[test]
fn sell_by_value_sells_thousandths_of_shares() {
    let mut p = black("p", 1000 * M);
    p.add_position_by_quantity("X", 10 * S, 10, 0).unwrap();
    assert_eq!(p.sell_position_by_value("X", 59_010, 20), Ok(()));
    assert_eq!(p.positions[0].quantity, 10 * S - 2950);
    assert_eq!(p.balance, 900 * M + 59 * M);
}

#[test]
fn round_trip_restores_balance() {
    let mut p = black("p", 5000 * M);
    p.add_position_by_quantity("Y", 3 * S, 7, 0).unwrap();
    let before = p.balance;
    p.add_position_by_quantity("X", 100 * S, 10, 0).unwrap();
    assert_eq!(p.balance, before - 1000 * M);
    assert_eq!(p.sell_position_by_quantity("X", 100 * S, 10), Ok(()));
    assert_eq!(p.balance, before);
    assert_eq!(p.positions.len(), 1);
    assert_eq!(p.positions[0].ticker, "Y");
    assert_eq!(p.positions[0].quantity, 3 * S);
}

#[test]
fn value_of_empty_portfolio_is_balance() {
    let p = black("p", 1234);
    assert_eq!(p.calculate_value(&[("X".to_string(), 10)]), 1234);
    assert_eq!(p.calculate_value(&[]), 1234);
}

#[test]
fn value_skips_unpriced_and_applies_leverage() {
    let mut p = black("p", 1000 * M);
    p.add_position_by_quantity("X?l=2", 10 * S, 10, 0).unwrap();
    p.add_position_by_quantity("Y", 10 * S, 10, 0).unwrap();
    let prices = vec![("X".to_string(), 15), ("X".to_string(), 99)];
    assert_eq!(p.calculate_value(&prices), 700 * M + 10 * 15 * 2 * M);
}

#[test]
fn history_of_one_lot() {
    let mut p = black("p", 1000 * M);
    p.add_position_by_quantity("X", 7 * S, 10, 0).unwrap();
    let h = p.calculate_portfolio_history(&[("X".to_string(), vec![10, 20, 30])]);
    assert_eq!(h, vec![10 * 7 * 1_000_000, 20 * 7 * 1_000_000, 30 * 7 * 1_000_000]);
}

#[test]
fn history_sums_lots_and_excludes_balance() {
    let mut p = black("p", 1000 * M);
    p.add_position_by_quantity("X", 2 * S, 10, 0).unwrap();
    p.add_position_by_quantity("Y?l=3", 1 * S, 10, 0).unwrap();
    p.add_position_by_quantity("Z", 1 * S, 10, 0).unwrap();
    let h = p.calculate_portfolio_history(&[
        ("X".to_string(), vec![1, 2]),
        ("Y".to_string(), vec![5, 6]),
    ]);
    assert_eq!(h, vec![(2 + 15) * 1_000_000, (4 + 18) * 1_000_000]);
}

#[test]
fn positions_for_ticker_keep_order() {
    let mut p = black("p", 1000 * M);
    p.add_position_by_quantity("X", 1 * S, 10, 0).unwrap();
    p.add_position_by_quantity("Y", 2 * S, 10, 0).unwrap();
    p.add_position_by_quantity("X", 3 * S, 10, 0).unwrap();
    let xs = p.get_positions_for_ticker("X");
    assert_eq!(xs.len(), 2);
    assert_eq!(xs[0].quantity, 1 * S);
    assert_eq!(xs[1].quantity, 3 * S);
    assert!(p.get_positions_for_ticker("Q").is_empty());
}

#[test]
fn aggregates_over_lots_of_a_ticker() {
    let mut p = black("p", 1000 * M);
    p.add_position_by_quantity("X", 10 * S, 10, 0).unwrap();
    p.add_position_by_quantity("X", 10 * S, 20, 0).unwrap();
    let xs = p.get_positions_for_ticker("X");
    assert_eq!(xs.purchased_value(), 300 * S as u128);
    let prices = vec![("X".to_string(), 18)];
    assert_eq!(xs.profit(&prices), Ok((80 - 20) * S as i128));
    assert_eq!(xs.profit_percent(&prices), Ok(20_000));
    assert_eq!(xs.profit(&[("Y".to_string(), 1)]), Err(TradeError::UnknownTicker));
    assert_eq!(xs.profit_percent(&[]), Err(TradeError::UnknownTicker));
}

#[test]
fn percent_over_no_lots_is_division_by_zero() {
    let p = black("p", 1000);
    let none = p.get_positions_for_ticker("X");
    assert_eq!(none.purchased_value(), 0);
    assert_eq!(none.profit(&[]), Ok(0));
    assert_eq!(none.profit_percent(&[]), Err(TradeError::DivisionByZero));
}

#[test]
fn new_portfolio_is_empty() {
    let p = Portfolio::new("alpha", 10_000);
    assert_eq!(p.name, "alpha");
    assert_eq!(p.balance, 10_000);
    assert_eq!(p.trading_fee, 0);
    assert!(p.positions.is_empty());
}

#[test]
fn fee_once_per_sell_when_not_per_lot() {
    let mut p = black("p", 10_000 * M);
    p.add_position_by_quantity("X", 10 * S, 10, 0).unwrap();
    p.add_position_by_quantity("X", 10 * S, 10, 0).unwrap();
    p.trading_fee = 3;
    p.fee_per_lot = false;
    let before = p.balance;
    assert_eq!(p.sell_position_by_quantity("X", 15 * S, 10), Ok(()));
    assert_eq!(p.balance, before + 150 * M - 3);
    assert_eq!(
        p.sell_position_by_quantity("Z", 1 * S, 10),
        Err(TradeError::InsufficientShares { remaining: 1 * S })
    );
    assert_eq!(p.balance, before + 150 * M - 3);
}

#[test]
fn constructors_charge_fees_per_lot() {
    assert!(black("p", 0).fee_per_lot);
    assert!(Portfolio::new("q", 0).fee_per_lot);
}

#[test]
fn buy_with_decimal_leverage() {
    let mut p = black("p", 1000 * M);
    assert_eq!(p.add_position_by_quantity("SSO?l=1.5", 10 * S, 10, 0), Ok(()));
    assert_eq!(p.positions[0].leverage, 1500);
    assert_eq!(p.balance, 1000 * M - 150 * M);
    assert_eq!(p.calculate_value(&[("SSO".to_string(), 20)]), 850 * M + 300 * M);
}

#[test]
fn buy_of_no_shares_pays_the_fee_alone() {
    let mut p = black("p", 1000 * M);
    p.trading_fee = 7;
    assert_eq!(p.add_position_by_quantity("X", 0, 10, 0), Ok(()));
    assert!(p.positions.is_empty());
    assert_eq!(p.balance, 1000 * M - 7);
    assert_eq!(p.add_position_by_value("X", 9, 10, 0), Ok(()));
    assert!(p.positions.is_empty());
    assert_eq!(p.balance, 1000 * M - 14);
}

#[test]
fn buy_of_no_shares_needs_the_fee() {
    let mut p = black("p", 5);
    p.trading_fee = 7;
    assert_eq!(p.add_position_by_quantity("X", 0, 10, 0), Err(TradeError::InsufficientBalance));
    assert_eq!(p.balance, 5);
    p.trading_fee = 0;
    assert_eq!(p.add_position_by_quantity("X", 0, 10, 0), Ok(()));
    assert_eq!(p.balance, 5);
    assert!(p.positions.is_empty());
}

#[test]
fn buy_by_value_beyond_u32_value() {
    let mut p = black("p", 100_000_000 * M);
    assert_eq!(p.add_position_by_value("X", 50_000_000_000, 1_000, 0), Ok(()));
    assert_eq!(p.positions[0].quantity, 50_000_000);
    assert_eq!(p.balance, 50_000_000 * M);
}
