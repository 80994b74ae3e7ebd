use tendies::selector::{parse_ticker, SelectorError};

fn parsed(s: &str) -> (String, u32) {
    let sel = parse_ticker(s).unwrap();
    (sel.ticker, sel.leverage)
}

fn error(s: &str) -> SelectorError {
    match parse_ticker(s) {
        Ok(_) => panic!("expected an error for {}", s),
        Err(e) => e,
    }
}

#[test]
fn plain_ticker_has_leverage_one() {
    assert_eq!(parsed("AAPL"), ("AAPL".to_string(), 1000));
}

#[test]
fn leverage_option() {
    assert_eq!(parsed("TQQQ?l=3"), ("TQQQ".to_string(), 3000));
}

#[test]
fn unknown_keys_are_ignored() {
    assert_eq!(parsed("SPY?x=1&l=2&lev=9"), ("SPY".to_string(), 2000));
    assert_eq!(parsed("SPY?lx=abc"), ("SPY".to_string(), 1000));
    assert_eq!(parsed("SPY?"), ("SPY".to_string(), 1000));
    assert_eq!(parsed("SPY?&&"), ("SPY".to_string(), 1000));
}

#[test]
fn last_leverage_wins() {
    assert_eq!(parsed("SPY?l=2&l=5"), ("SPY".to_string(), 5000));
}

#[test]
fn only_the_first_question_mark_splits() {
    assert_eq!(parsed("A?b=?&l=4"), ("A".to_string(), 4000));
}

#[test]
fn non_ascii_ticker() {
    assert_eq!(parsed("ÄÖ?l=2"), ("ÄÖ".to_string(), 2000));
}

#[test]
fn largest_leverage() {
    assert_eq!(parsed("X?l=4294967.295"), ("X".to_string(), u32::MAX));
    assert_eq!(error("X?l=4294967.296"), SelectorError::BadLeverage);
    assert_eq!(error("X?l=4294968"), SelectorError::BadLeverage);
    assert_eq!(error("X?l=99999999999999999999999"), SelectorError::BadLeverage);
}

#[test]
fn malformed_selectors() {
    assert_eq!(error(""), SelectorError::EmptyTicker);
    assert_eq!(error("?l=2"), SelectorError::EmptyTicker);
    assert_eq!(error("X?l"), SelectorError::BadLeverage);
    assert_eq!(error("X?l="), SelectorError::BadLeverage);
    assert_eq!(error("X?l=0"), SelectorError::BadLeverage);
    assert_eq!(error("X?l=1.2.3"), SelectorError::BadLeverage);
    assert_eq!(error("X?l=0.0"), SelectorError::BadLeverage);
    assert_eq!(error("X?l=."), SelectorError::BadLeverage);
    assert_eq!(error("X?l=1.2345"), SelectorError::BadLeverage);
    assert_eq!(error("X?l=0.0001"), SelectorError::BadLeverage);
    assert_eq!(error("X?l=-1"), SelectorError::BadLeverage);
    assert_eq!(error("X?l=abc"), SelectorError::BadLeverage);
    assert_eq!(error("X?l=2&l=x"), SelectorError::BadLeverage);
}

#[test]
fn decimal_leverage() {
    assert_eq!(parsed("X?l=2.0"), ("X".to_string(), 2000));
    assert_eq!(parsed("SSO?l=1.5"), ("SSO".to_string(), 1500));
    assert_eq!(parsed("X?l=0.001"), ("X".to_string(), 1));
    assert_eq!(parsed("X?l=1.25"), ("X".to_string(), 1250));
    assert_eq!(parsed("X?l=1.2500"), ("X".to_string(), 1250));
    assert_eq!(parsed("X?l=.5"), ("X".to_string(), 500));
    assert_eq!(parsed("X?l=5."), ("X".to_string(), 5000));
    assert_eq!(parsed("X?l=007"), ("X".to_string(), 7000));
}
