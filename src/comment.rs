//! Comments of a discussion dump, and the ticker symbols they mention.
use vstd::prelude::*;
use vstd::std_specs::iter::IteratorSpec;

verus! {

/// One comment of a discussion dump.
pub struct Comment {
    pub id: String,
    pub parent_id: Option<String>,
    pub link_id: String,
    pub subreddit: String,
    pub body: String,
}

/// Whether `s` holds an ASCII lowercase letter.
pub open spec fn has_ascii_lowercase(s: Seq<char>) -> bool {
    exists|i: int| 0 <= i < s.len() && 'a' <= #[trigger] s[i] && s[i] <= 'z'
}

/// The runs of one to five capitals, between word boundaries, of `text`, in order.
pub uninterp spec fn capital_words(text: Seq<char>) -> Seq<Seq<char>>;

/// Words that are never tickers.
pub open spec fn ignored_word(w: Seq<char>) -> bool {
    ||| w == "DD"@
    ||| w == "WSB"@
    ||| w == "HODL"@
    ||| w == "US"@
    ||| w == "CEO"@
    ||| w == "GDP"@
    ||| w == "I"@
    ||| w == "FDA"@
    ||| w == "SEC"@
    ||| w == "PR"@
    ||| w == "IIRC"@
    ||| w == "LOL"@
}

/// The words that are not ignored, in order.
pub open spec fn without_ignored(ws: Seq<Seq<char>>) -> Seq<Seq<char>>
    decreases ws.len(),
{
    if ws.len() == 0 {
        Seq::empty()
    } else if ignored_word(ws.last()) {
        without_ignored(ws.drop_last())
    } else {
        without_ignored(ws.drop_last()).push(ws.last())
    }
}

/// The tickers of a comment text: none if it has no ASCII lowercase letter (all caps),
/// else its capital words that are not ignored.
pub open spec fn tickers_of(text: Seq<char>, words: Seq<Seq<char>>) -> Seq<Seq<char>> {
    if !has_ascii_lowercase(text) {
        Seq::empty()
    } else {
        without_ignored(words)
    }
}

/// Whether `text` holds an ASCII lowercase letter.
pub fn contains_ascii_lowercase(text: &str) -> (r: bool)
    ensures
        r == has_ascii_lowercase(text@),
{
    let ghost chars = text@;
    let mut it = text.chars();
    let ghost mut i: int = 0;
    let mut found = false;
    loop
        invariant
            chars == text@,
            it.remaining() == chars.skip(i),
            0 <= i <= chars.len(),
            found == exists|k: int| 0 <= k < i && 'a' <= #[trigger] chars[k] && chars[k] <= 'z',
        ensures
            found == has_ascii_lowercase(text@),
        decreases chars.len() - i,
    {
        match it.next() {
            Some(c) => {
                assert(chars.skip(i)[0] == chars[i]);
                assert(chars.skip(i).drop_first() =~= chars.skip(i + 1));
                if 'a' <= c && c <= 'z' {
                    found = true;
                }
                proof {
                    i = i + 1;
                }
            },
            None => {
                assert(i == chars.len());
                break;
            },
        }
    }
    found
}

/// Relies on regex::Regex::find_iter with the pattern `\b[A-Z]{1,5}\b`: the matches,
/// in order, depend on the text alone.
#[verifier::external_body]
fn find_capital_words(text: &str) -> (r: Vec<String>)
    ensures
        r@.map_values(|w: String| w@) == capital_words(text@),
{
    regex::Regex::new(r"\b[A-Z]{1,5}\b").unwrap().find_iter(text).map(
        |m| m.as_str().to_string(),
    ).collect()
}

fn same_text(w: &String, lit: &str) -> (r: bool)
    ensures
        r == (w@ == lit@),
{
    *w == lit.to_owned()
}

/// Whether `w` is a word that is never a ticker.
pub fn is_ignored(w: &String) -> (r: bool)
    ensures
        r == ignored_word(w@),
{
    same_text(w, "DD") || same_text(w, "WSB") || same_text(w, "HODL") || same_text(w, "US")
        || same_text(w, "CEO") || same_text(w, "GDP") || same_text(w, "I") || same_text(w, "FDA")
        || same_text(w, "SEC") || same_text(w, "PR") || same_text(w, "IIRC") || same_text(
        w,
        "LOL",
    )
}

/// The tickers among `words`, the capital words of `text`.
pub fn tickers_among(text: &String, words: Vec<String>) -> (r: Vec<String>)
    ensures
        r@.map_values(|w: String| w@) == tickers_of(text@, words@.map_values(|w: String| w@)),
{
    if !contains_ascii_lowercase(text.as_str()) {
        let empty: Vec<String> = Vec::new();
        assert(empty@.map_values(|w: String| w@) =~= Seq::<Seq<char>>::empty());
        return empty;
    }
    let ghost ws = words@.map_values(|w: String| w@);
    let mut kept: Vec<String> = Vec::new();
    let mut i: usize = 0;
    while i < words.len()
        invariant
            ws == words@.map_values(|w: String| w@),
            i <= ws.len(),
            kept@.map_values(|w: String| w@) == without_ignored(ws.take(i as int)),
        decreases ws.len() - i,
    {
        assert(ws.take(i + 1).drop_last() =~= ws.take(i as int));
        let ghost before = kept@;
        if !is_ignored(&words[i]) {
            kept.push(words[i].clone());
            assert(kept@.map_values(|w: String| w@) =~= before.map_values(|w: String| w@).push(
                ws[i as int],
            ));
        }
        i = i + 1;
    }
    assert(ws.take(i as int) =~= ws);
    kept
}

impl Comment {
    /// The ticker symbols that the comment mentions.
    pub fn get_tickers(&self) -> (r: Vec<String>)
        ensures
            r@.map_values(|w: String| w@) == tickers_of(self.body@, capital_words(self.body@)),
    {
        let words = find_capital_words(self.body.as_str());
        tickers_among(&self.body, words)
    }

    /// Whether the comment's body is the placeholder of a deleted comment.
    pub fn is_deleted(&self) -> (r: bool)
        ensures
            r == (self.body@ == "[deleted]"@),
    {
        same_text(&self.body, "[deleted]")
    }
}

} // verus!
