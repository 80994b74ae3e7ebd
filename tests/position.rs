use tendies::error::TradeError;
use tendies::position::Position;

fn lot(quantity: u32, share_price: u32) -> Position {
    Position {
        ticker: "X".to_string(),
        quantity,
        share_price,
        purchase_date: 0,
        leverage: 1,
    }
}

#[test]
fn value_is_quantity_times_price() {
    assert_eq!(lot(3, 7).value(), 21);
    assert_eq!(lot(u32::MAX, u32::MAX).value(), u32::MAX as u64 * u32::MAX as u64);
}

#[test]
fn profit_ignores_leverage() {
    let mut p = lot(4, 10);
    p.leverage = 5;
    assert_eq!(p.profit(15), 20);
    assert_eq!(p.profit(6), -16);
}

#[test]
fn profit_percent_in_thousandths_rounds_toward_zero() {
    assert_eq!(lot(3, 10).profit_percent(11), Ok(10_000));
    assert_eq!(lot(3, 7).profit_percent(8), Ok(14_285));
    assert_eq!(lot(3, 7).profit_percent(6), Ok(-14_285));
    assert_eq!(lot(1000, 200).profit_percent(201), Ok(500));
}

#[test]
fn profit_percent_of_zero_value() {
    assert_eq!(lot(0, 10).profit_percent(11), Err(TradeError::DivisionByZero));
    assert_eq!(lot(5, 0).profit_percent(11), Err(TradeError::DivisionByZero));
}
