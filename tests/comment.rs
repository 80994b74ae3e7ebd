use tendies::comment::{contains_ascii_lowercase, tickers_among, Comment};

fn comment(body: &str) -> Comment {
    Comment {
        id: "c1".to_string(),
        parent_id: None,
        link_id: "t3_x".to_string(),
        subreddit: "stocks".to_string(),
        body: body.to_string(),
    }
}

#[test]
fn deleted_placeholder() {
    assert!(comment("[deleted]").is_deleted());
    assert!(!comment("[deleted] ").is_deleted());
    assert!(!comment("hello").is_deleted());
}

#[test]
fn tickers_skip_ignored_words() {
    let c = comment("I think GME and TSLA beat SPY, says the CEO. DD inside");
    assert_eq!(c.get_tickers(), vec!["GME", "TSLA", "SPY"]);
}

#[test]
fn tickers_need_word_boundaries_and_length() {
    let c = comment("buy ABCDEF or ABCDE, not aAPL");
    assert_eq!(c.get_tickers(), vec!["ABCDE"]);
}

#[test]
fn all_caps_comment_has_no_tickers() {
    assert!(comment("BUY GME NOW!!!").get_tickers().is_empty());
    assert!(comment("").get_tickers().is_empty());
}

#[test]
fn tickers_among_filters_given_words() {
    let words = vec!["LOL".to_string(), "AMD".to_string(), "US".to_string()];
    assert_eq!(tickers_among(&"a".to_string(), words.clone()), vec!["AMD"]);
    assert!(tickers_among(&"A".to_string(), words).is_empty());
}

#[test]
fn lowercase_detection() {
    assert!(!contains_ascii_lowercase(""));
    assert!(!contains_ascii_lowercase("ÄB 12!"));
    assert!(contains_ascii_lowercase("ÄBz"));
    assert!(!contains_ascii_lowercase("éÉ"));
}
