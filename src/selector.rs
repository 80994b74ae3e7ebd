//! Instrument selectors: `TICKER` or `TICKER?key=value&...`, where the one
//! recognised key is `l`, the leverage factor.
use vstd::prelude::*;
use vstd::string::StringSliceAdditionalSpecFns;
use vstd::utf8::*;

verus! {

broadcast use {
    encode_utf8_valid_utf8,
    encode_utf8_decode_utf8,
    is_char_boundary_iff_is_leading_byte,
    is_char_boundary_start_end_of_seq,
};

/// A parsed selector: the ticker symbol and the leverage factor of the trade, in
/// thousandths (`1500` is a factor of 1.5).
pub struct Selector {
    pub ticker: String,
    pub leverage: u32,
}

/// Where a selector is malformed.
#[derive(Debug, Clone, Copy, PartialEq, Eq)]
pub enum SelectorError {
    /// Nothing precedes the `?`.
    EmptyTicker,
    /// The `l` option is missing its value, is not a positive decimal with at most
    /// three significant fractional digits, or does not fit.
    BadLeverage,
}

/// Thousandths in one leverage factor: a selector without `l` has this leverage.
pub const LEVERAGE_UNIT: u32 = 1000;
pub const QUESTION: u8 = 63;
pub const AMPERSAND: u8 = 38;
pub const EQUALS: u8 = 61;
pub const DOT: u8 = 46;
pub const LETTER_L: u8 = 108;
pub const DIGIT_ZERO: u8 = 48;
pub const DIGIT_NINE: u8 = 57;
/// Largest leverage in thousandths.
pub const LEVERAGE_LIMIT: u64 = 4294967295;
/// Largest whole part of a leverage.
pub const WHOLE_LIMIT: u64 = 4294967;

/// The state of a left-to-right scan over the bytes of a selector.
#[derive(Clone, Copy)]
pub struct ScanState {
    /// Still reading the ticker (no `?` seen yet).
    pub in_ticker: bool,
    /// Number of bytes before the first `?`.
    pub ticker_len: usize,
    /// Inside the key of the current option.
    pub at_key: bool,
    /// No key byte read yet in the current option.
    pub key_empty: bool,
    /// The key read so far is exactly `l`.
    pub key_is_l: bool,
    /// At least one digit has been read in the value of `l`.
    pub digits: bool,
    /// A byte that does not belong in a decimal stands in the value of `l`.
    pub bad: bool,
    /// Value of the whole digits of `l`, which stops growing once past the limit.
    pub whole: u64,
    /// The decimal point of `l` has been read.
    pub in_frac: bool,
    /// Value of the first (at most three) fractional digits of `l`.
    pub frac: u64,
    /// How many fractional digits `frac` holds.
    pub frac_digits: u64,
    /// Leverage in thousandths set by the options closed so far.
    pub leverage: u32,
    /// Some closed option was malformed.
    pub err: bool,
}

pub open spec fn scan_start() -> ScanState {
    ScanState {
        in_ticker: true,
        ticker_len: 0,
        at_key: true,
        key_empty: true,
        key_is_l: false,
        digits: false,
        bad: false,
        whole: 0,
        in_frac: false,
        frac: 0,
        frac_digits: 0,
        leverage: LEVERAGE_UNIT,
        err: false,
    }
}

/// The value of `l` read so far, in thousandths.
pub open spec fn thousandths(s: ScanState) -> int {
    s.whole * 1000 + s.frac * if s.frac_digits == 0 {
        1000int
    } else if s.frac_digits == 1 {
        100int
    } else if s.frac_digits == 2 {
        10int
    } else {
        1int
    }
}

/// Whether the option just read is malformed.
pub open spec fn option_malformed(s: ScanState) -> bool {
    s.key_is_l && (s.at_key || s.bad || !s.digits || s.whole > WHOLE_LIMIT || thousandths(s)
        == 0 || thousandths(s) > LEVERAGE_LIMIT)
}

/// Closes the current option (at a `&` or at the end).
pub open spec fn close_option(s: ScanState) -> ScanState {
    let malformed = option_malformed(s);
    ScanState {
        at_key: true,
        key_empty: true,
        key_is_l: false,
        digits: false,
        bad: false,
        whole: 0,
        in_frac: false,
        frac: 0,
        frac_digits: 0,
        leverage: if s.key_is_l && !malformed { thousandths(s) as u32 } else { s.leverage },
        err: s.err || malformed,
        ..s
    }
}

/// One byte of the value of `l`: digits, then at most one `.` and more digits, of
/// which those past the third after the point must be `0`.
pub open spec fn leverage_step(s: ScanState, b: u8) -> ScanState {
    if DIGIT_ZERO <= b && b <= DIGIT_NINE {
        let d = (b - DIGIT_ZERO) as u64;
        if !s.in_frac {
            ScanState {
                digits: true,
                whole: if s.whole <= WHOLE_LIMIT { (s.whole * 10 + d) as u64 } else { s.whole },
                ..s
            }
        } else if s.frac_digits < 3 {
            ScanState {
                digits: true,
                frac: (s.frac * 10 + d) as u64,
                frac_digits: (s.frac_digits + 1) as u64,
                ..s
            }
        } else if d == 0 {
            ScanState { digits: true, ..s }
        } else {
            ScanState { bad: true, ..s }
        }
    } else if b == DOT && !s.in_frac {
        ScanState { in_frac: true, ..s }
    } else {
        ScanState { bad: true, ..s }
    }
}

pub open spec fn scan_step(s: ScanState, b: u8) -> ScanState {
    if s.in_ticker {
        if b == QUESTION {
            ScanState { in_ticker: false, ..s }
        } else {
            ScanState { ticker_len: (s.ticker_len + 1) as usize, ..s }
        }
    } else if b == AMPERSAND {
        close_option(s)
    } else if s.at_key {
        if b == EQUALS {
            ScanState { at_key: false, ..s }
        } else {
            ScanState { key_is_l: s.key_empty && b == LETTER_L, key_empty: false, ..s }
        }
    } else if s.key_is_l {
        leverage_step(s, b)
    } else {
        s
    }
}

/// The scan over a whole byte sequence.
pub open spec fn scan(b: Seq<u8>) -> ScanState
    decreases b.len(),
{
    if b.len() == 0 {
        scan_start()
    } else {
        scan_step(scan(b.drop_last()), b.last())
    }
}

/// The scan with its last option closed.
pub open spec fn scan_finished(b: Seq<u8>) -> ScanState {
    let s = scan(b);
    if s.in_ticker {
        s
    } else {
        close_option(s)
    }
}

/// The error of a selector given by its UTF-8 bytes, if it is malformed.
pub open spec fn selector_error(b: Seq<u8>) -> Option<SelectorError> {
    let s = scan_finished(b);
    if s.ticker_len == 0 {
        Some(SelectorError::EmptyTicker)
    } else if s.err {
        Some(SelectorError::BadLeverage)
    } else {
        None
    }
}

/// The ticker of a selector: the characters before its first `?`.
pub open spec fn selector_ticker(b: Seq<u8>) -> Seq<char> {
    decode_utf8(b.subrange(0, scan(b).ticker_len as int))
}

/// The leverage of a well-formed selector in thousandths: that of the last `l`
/// option, else one factor.
pub open spec fn selector_leverage(b: Seq<u8>) -> u32 {
    scan_finished(b).leverage
}

fn close_option_exec(s: ScanState) -> (r: ScanState)
    requires
        s.whole <= WHOLE_LIMIT * 10 + 9,
        s.frac < 1000,
        s.frac_digits <= 3,
    ensures
        r == close_option(s),
{
    let scale: u64 = if s.frac_digits == 0 {
        1000
    } else if s.frac_digits == 1 {
        100
    } else if s.frac_digits == 2 {
        10
    } else {
        1
    };
    let value = s.whole * 1000 + s.frac * scale;
    let malformed = s.key_is_l && (s.at_key || s.bad || !s.digits || s.whole > WHOLE_LIMIT
        || value == 0 || value > LEVERAGE_LIMIT);
    ScanState {
        at_key: true,
        key_empty: true,
        key_is_l: false,
        digits: false,
        bad: false,
        whole: 0,
        in_frac: false,
        frac: 0,
        frac_digits: 0,
        leverage: if s.key_is_l && !malformed { value as u32 } else { s.leverage },
        err: s.err || malformed,
        ..s
    }
}

fn leverage_step_exec(s: ScanState, b: u8) -> (r: ScanState)
    requires
        s.whole <= WHOLE_LIMIT * 10 + 9,
        s.frac_digits <= 3,
        s.frac_digits == 0 ==> s.frac == 0,
        s.frac_digits == 1 ==> s.frac < 10,
        s.frac_digits == 2 ==> s.frac < 100,
        s.frac_digits == 3 ==> s.frac < 1000,
    ensures
        r == leverage_step(s, b),
{
    if DIGIT_ZERO <= b && b <= DIGIT_NINE {
        let d = (b - DIGIT_ZERO) as u64;
        if !s.in_frac {
            let whole = if s.whole <= WHOLE_LIMIT {
                s.whole * 10 + d
            } else {
                s.whole
            };
            ScanState { digits: true, whole, ..s }
        } else if s.frac_digits < 3 {
            ScanState {
                digits: true,
                frac: s.frac * 10 + d,
                frac_digits: s.frac_digits + 1,
                ..s
            }
        } else if d == 0 {
            ScanState { digits: true, ..s }
        } else {
            ScanState { bad: true, ..s }
        }
    } else if b == DOT && !s.in_frac {
        ScanState { in_frac: true, ..s }
    } else {
        ScanState { bad: true, ..s }
    }
}

/// Bounds that every state of a scan keeps.
pub open spec fn scan_bounded(s: ScanState) -> bool {
    &&& s.whole <= WHOLE_LIMIT * 10 + 9
    &&& s.frac_digits <= 3
    &&& s.frac_digits == 0 ==> s.frac == 0
    &&& s.frac_digits == 1 ==> s.frac < 10
    &&& s.frac_digits == 2 ==> s.frac < 100
    &&& s.frac_digits == 3 ==> s.frac < 1000
}

fn scan_step_exec(s: ScanState, b: u8) -> (r: ScanState)
    requires
        s.ticker_len < usize::MAX,
        scan_bounded(s),
    ensures
        r == scan_step(s, b),
        scan_bounded(r),
{
    if s.in_ticker {
        if b == QUESTION {
            ScanState { in_ticker: false, ..s }
        } else {
            ScanState { ticker_len: s.ticker_len + 1, ..s }
        }
    } else if b == AMPERSAND {
        close_option_exec(s)
    } else if s.at_key {
        if b == EQUALS {
            ScanState { at_key: false, ..s }
        } else {
            ScanState { key_is_l: s.key_empty && b == LETTER_L, key_empty: false, ..s }
        }
    } else if s.key_is_l {
        leverage_step_exec(s, b)
    } else {
        s
    }
}

proof fn lemma_scan_without_question(b: Seq<u8>)
    requires
        b.len() <= usize::MAX,
        forall|k: int| 0 <= k < b.len() ==> b[k] != QUESTION,
    ensures
        scan(b) == (ScanState { ticker_len: b.len() as usize, ..scan_start() }),
    decreases b.len(),
{
    if b.len() > 0 {
        lemma_scan_without_question(b.drop_last());
    }
}

/// A non-empty selector without `?` is all ticker, with a leverage of one factor.
pub proof fn selector_without_options(selector: &str)
    requires
        0 < selector.spec_bytes().len() <= usize::MAX,
        forall|k: int|
            0 <= k < selector.spec_bytes().len() ==> selector.spec_bytes()[k] != QUESTION,
    ensures
        selector_error(selector.spec_bytes()) is None,
        selector_ticker(selector.spec_bytes()) == selector@,
        selector_leverage(selector.spec_bytes()) == LEVERAGE_UNIT,
{
    let b = selector.spec_bytes();
    lemma_scan_without_question(b);
    assert(b.subrange(0, b.len() as int) =~= b);
}

/// Whether every byte of `d` is a decimal digit.
pub open spec fn all_digits(d: Seq<u8>) -> bool {
    forall|k: int| 0 <= k < d.len() ==> DIGIT_ZERO <= #[trigger] d[k] && d[k] <= DIGIT_NINE
}

/// The number that the decimal digits `d` write.
pub open spec fn digits_value(d: Seq<u8>) -> nat
    decreases d.len(),
{
    if d.len() == 0 {
        0
    } else {
        digits_value(d.drop_last()) * 10 + (d.last() - DIGIT_ZERO) as nat
    }
}

/// Thousandths in one unit of the last of `n` (at most three) fractional digits.
pub open spec fn fraction_scale(n: nat) -> nat {
    if n == 0 {
        1000
    } else if n == 1 {
        100
    } else if n == 2 {
        10
    } else {
        1
    }
}

/// The scan continued from state `s` over the bytes `c`.
pub open spec fn scan_from(s: ScanState, c: Seq<u8>) -> ScanState
    decreases c.len(),
{
    if c.len() == 0 {
        s
    } else {
        scan_step(scan_from(s, c.drop_last()), c.last())
    }
}

proof fn lemma_scan_concat(a: Seq<u8>, c: Seq<u8>)
    ensures
        scan(a + c) == scan_from(scan(a), c),
    decreases c.len(),
{
    if c.len() == 0 {
        assert(a + c =~= a);
    } else {
        lemma_scan_concat(a, c.drop_last());
        assert((a + c).drop_last() =~= a + c.drop_last());
        assert((a + c).last() == c.last());
    }
}

proof fn lemma_scan_whole_digits(s: ScanState, w: Seq<u8>)
    requires
        !s.in_ticker && !s.at_key && s.key_is_l && !s.in_frac && s.whole == 0,
        all_digits(w),
        digits_value(w) <= WHOLE_LIMIT,
    ensures
        scan_from(s, w) == (ScanState {
            whole: digits_value(w) as u64,
            digits: s.digits || w.len() > 0,
            ..s
        }),
    decreases w.len(),
{
    if w.len() > 0 {
        assert(all_digits(w.drop_last()));
        assert(w.last() == w[w.len() - 1]);
        lemma_scan_whole_digits(s, w.drop_last());
    }
}

proof fn lemma_scan_fraction_digits(s: ScanState, f: Seq<u8>)
    requires
        !s.in_ticker && !s.at_key && s.key_is_l && s.in_frac && s.frac == 0 && s.frac_digits
            == 0,
        all_digits(f),
        f.len() <= 3,
    ensures
        scan_from(s, f) == (ScanState {
            frac: digits_value(f) as u64,
            frac_digits: f.len() as u64,
            digits: s.digits || f.len() > 0,
            ..s
        }),
        f.len() == 0 ==> digits_value(f) == 0,
        f.len() == 1 ==> digits_value(f) < 10,
        f.len() == 2 ==> digits_value(f) < 100,
        f.len() == 3 ==> digits_value(f) < 1000,
        digits_value(f) * fraction_scale(f.len()) < 1000,
    decreases f.len(),
{
    if f.len() > 0 {
        assert(all_digits(f.drop_last()));
        assert(f.last() == f[f.len() - 1]);
        lemma_scan_fraction_digits(s, f.drop_last());
    }
    let v = digits_value(f);
    if f.len() == 1 {
        assert(v * fraction_scale(f.len()) == v * 100);
    } else if f.len() == 2 {
        assert(v * fraction_scale(f.len()) == v * 10);
    } else if f.len() == 3 {
        assert(v * fraction_scale(f.len()) == v * 1);
    }
}

proof fn lemma_ticker_then_key(t: Seq<u8>)
    requires
        t.len() <= usize::MAX,
        forall|k: int| 0 <= k < t.len() ==> t[k] != QUESTION,
    ensures
        scan(t + seq![QUESTION, LETTER_L, EQUALS]) == (ScanState {
            ticker_len: t.len() as usize,
            in_ticker: false,
            at_key: false,
            key_empty: false,
            key_is_l: true,
            ..scan_start()
        }),
{
    reveal_with_fuel(scan_from, 4);
    lemma_scan_without_question(t);
    lemma_scan_concat(t, seq![QUESTION, LETTER_L, EQUALS]);
    assert(seq![QUESTION, LETTER_L, EQUALS].drop_last() =~= seq![QUESTION, LETTER_L]);
    assert(seq![QUESTION, LETTER_L].drop_last() =~= seq![QUESTION]);
    assert(seq![QUESTION].drop_last() =~= Seq::<u8>::empty());
}

/// A selector `TICKER?l=W`, with `W` decimal digits, has the ticker `TICKER` and a
/// leverage of `W` factors.
pub proof fn selector_with_whole_leverage(selector: &str, t: Seq<u8>, w: Seq<u8>)
    requires
        selector.spec_bytes() == t + seq![QUESTION, LETTER_L, EQUALS] + w,
        selector.spec_bytes().len() <= usize::MAX,
        t.len() > 0,
        forall|k: int| 0 <= k < t.len() ==> t[k] != QUESTION,
        all_digits(w),
        0 < digits_value(w) <= WHOLE_LIMIT,
    ensures
        selector_error(selector.spec_bytes()) is None,
        selector_ticker(selector.spec_bytes()) == decode_utf8(t),
        selector_leverage(selector.spec_bytes()) == digits_value(w) * 1000,
{
    let head = t + seq![QUESTION, LETTER_L, EQUALS];
    lemma_ticker_then_key(t);
    lemma_scan_concat(head, w);
    lemma_scan_whole_digits(scan(head), w);
    assert(selector.spec_bytes().subrange(0, t.len() as int) =~= t);
}

/// A selector `TICKER?l=W.F`, with `W` and `F` decimal digits, at most three in `F`,
/// has the ticker `TICKER` and a leverage of `W.F` factors, in thousandths.
pub proof fn selector_with_decimal_leverage(
    selector: &str,
    t: Seq<u8>,
    w: Seq<u8>,
    f: Seq<u8>,
)
    requires
        selector.spec_bytes() == t + seq![QUESTION, LETTER_L, EQUALS] + w + seq![DOT] + f,
        selector.spec_bytes().len() <= usize::MAX,
        t.len() > 0,
        forall|k: int| 0 <= k < t.len() ==> t[k] != QUESTION,
        all_digits(w),
        all_digits(f),
        f.len() <= 3,
        digits_value(w) <= WHOLE_LIMIT,
        0 < digits_value(w) * 1000 + digits_value(f) * fraction_scale(f.len())
            <= LEVERAGE_LIMIT,
    ensures
        selector_error(selector.spec_bytes()) is None,
        selector_ticker(selector.spec_bytes()) == decode_utf8(t),
        selector_leverage(selector.spec_bytes()) == digits_value(w) * 1000 + digits_value(f)
            * fraction_scale(f.len()),
{
    reveal_with_fuel(scan_from, 2);
    let head = t + seq![QUESTION, LETTER_L, EQUALS];
    let s1 = scan(head);
    lemma_ticker_then_key(t);
    lemma_scan_concat(head, w);
    lemma_scan_whole_digits(s1, w);
    let s2 = scan(head + w);
    lemma_scan_concat(head + w, seq![DOT]);
    assert(seq![DOT].drop_last() =~= Seq::<u8>::empty());
    let s3 = scan(head + w + seq![DOT]);
    assert(s3 == ScanState { in_frac: true, ..s2 });
    lemma_scan_concat(head + w + seq![DOT], f);
    lemma_scan_fraction_digits(s3, f);
    assert(selector.spec_bytes().subrange(0, t.len() as int) =~= t);
}

proof fn lemma_scan_keeps_ticker(s: ScanState, c: Seq<u8>)
    requires
        !s.in_ticker,
    ensures
        !scan_from(s, c).in_ticker,
        scan_from(s, c).ticker_len == s.ticker_len,
    decreases c.len(),
{
    if c.len() > 0 {
        lemma_scan_keeps_ticker(s, c.drop_last());
    }
}

/// The ticker of any selector is its text before the first `?` (all of it if none).
pub proof fn selector_ticker_before_question(selector: &str, k: int)
    requires
        0 <= k <= selector.spec_bytes().len() <= usize::MAX,
        forall|i: int| 0 <= i < k ==> selector.spec_bytes()[i] != QUESTION,
        k < selector.spec_bytes().len() ==> selector.spec_bytes()[k] == QUESTION,
    ensures
        selector_ticker(selector.spec_bytes()) == decode_utf8(selector.spec_bytes().take(k)),
        (selector_error(selector.spec_bytes()) == Some(SelectorError::EmptyTicker)) == (k
            == 0),
{
    reveal_with_fuel(scan_from, 2);
    let b = selector.spec_bytes();
    let head = b.take(k);
    lemma_scan_without_question(head);
    if k < b.len() {
        let rest = b.skip(k + 1);
        assert(b =~= head + seq![QUESTION] + rest);
        lemma_scan_concat(head, seq![QUESTION]);
        assert(seq![QUESTION].drop_last() =~= Seq::<u8>::empty());
        lemma_scan_concat(head + seq![QUESTION], rest);
        lemma_scan_keeps_ticker(scan(head + seq![QUESTION]), rest);
        assert(scan(b) == scan(head + seq![QUESTION] + rest));
    } else {
        assert(head =~= b);
    }
    assert(b.subrange(0, k) =~= head);
}

/// Splits a selector into its ticker and leverage factor.
pub fn parse_ticker(selector: &str) -> (r: Result<Selector, SelectorError>)
    ensures
        match r {
            Ok(sel) => {
                &&& selector_error(selector.spec_bytes()) is None
                &&& sel.ticker@ == selector_ticker(selector.spec_bytes())
                &&& sel.leverage == selector_leverage(selector.spec_bytes())
            },
            Err(e) => selector_error(selector.spec_bytes()) == Some(e),
        },
{
    let bytes = selector.as_bytes();
    let ghost b = bytes@;
    let mut st = ScanState {
        in_ticker: true,
        ticker_len: 0,
        at_key: true,
        key_empty: true,
        key_is_l: false,
        digits: false,
        bad: false,
        whole: 0,
        in_frac: false,
        frac: 0,
        frac_digits: 0,
        leverage: LEVERAGE_UNIT,
        err: false,
    };
    let mut i: usize = 0;
    while i < bytes.len()
        invariant
            b == bytes@,
            i <= b.len(),
            st == scan(b.take(i as int)),
            scan_bounded(st),
            st.in_ticker ==> st.ticker_len == i,
            !st.in_ticker ==> st.ticker_len < i && b[st.ticker_len as int] == QUESTION,
        decreases b.len() - i,
    {
        assert(b.take(i + 1).drop_last() =~= b.take(i as int));
        st = scan_step_exec(st, bytes[i]);
        i = i + 1;
    }
    assert(b.take(i as int) =~= b);
    let fin = if st.in_ticker {
        st
    } else {
        close_option_exec(st)
    };
    if fin.ticker_len == 0 {
        return Err(SelectorError::EmptyTicker);
    }
    if fin.err {
        return Err(SelectorError::BadLeverage);
    }
    proof {
        assert(b == encode_utf8(selector@));
        assert(valid_utf8(b));
        if st.ticker_len < b.len() {
            assert(is_leading_byte_width_1(b[st.ticker_len as int]));
        }
        assert(is_char_boundary(b, st.ticker_len as int));
    }
    let (head, _) = selector.split_at(st.ticker_len);
    let ticker = head.to_owned();
    proof {
        assert(head.spec_bytes() == b.subrange(0, st.ticker_len as int));
        assert(encode_utf8(head@) == head.spec_bytes());
    }
    Ok(Selector { ticker, leverage: fin.leverage })
}

} // verus!
