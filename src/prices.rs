//! Lookup of a ticker in a list of `(ticker, value)` entries.
use vstd::prelude::*;

verus! {

/// The index of the first key equal to `t`.
pub open spec fn first_index(keys: Seq<Seq<char>>, t: Seq<char>) -> Option<int>
    decreases keys.len(),
{
    if keys.len() == 0 {
        None
    } else {
        match first_index(keys.drop_last(), t) {
            Some(k) => Some(k),
            None => if keys.last() == t {
                Some(keys.len() - 1)
            } else {
                None
            },
        }
    }
}

/// The tickers of a list of entries.
pub open spec fn keys_of<V>(entries: Seq<(String, V)>) -> Seq<Seq<char>> {
    entries.map_values(|e: (String, V)| e.0@)
}

/// The value of the first entry for `t`.
pub open spec fn lookup<V>(entries: Seq<(String, V)>, t: Seq<char>) -> Option<V> {
    match first_index(keys_of(entries), t) {
        Some(k) => Some(entries[k].1),
        None => None,
    }
}

pub proof fn lemma_first_index_bounds(keys: Seq<Seq<char>>, t: Seq<char>)
    ensures
        first_index(keys, t) matches Some(k) ==> 0 <= k < keys.len() && keys[k] == t,
    decreases keys.len(),
{
    if keys.len() > 0 {
        lemma_first_index_bounds(keys.drop_last(), t);
    }
}

/// Finds the first entry whose ticker is `t`.
pub fn find_ticker<V>(entries: &[(String, V)], t: &String) -> (r: Option<usize>)
    ensures
        r matches Some(k) ==> first_index(keys_of(entries@), t@) == Some(k as int),
        r is None ==> first_index(keys_of(entries@), t@) is None,
{
    let ghost keys = keys_of(entries@);
    let mut found: Option<usize> = None;
    let mut i: usize = 0;
    while i < entries.len()
        invariant
            i <= entries@.len(),
            keys == keys_of(entries@),
            found matches Some(k) ==> first_index(keys.take(i as int), t@) == Some(k as int),
            found is None ==> first_index(keys.take(i as int), t@) is None,
        decreases entries@.len() - i,
    {
        assert(keys.take(i + 1).drop_last() =~= keys.take(i as int));
        if found.is_none() && entries[i].0 == *t {
            found = Some(i);
        }
        i = i + 1;
    }
    assert(keys.take(i as int) =~= keys);
    found
}

} // verus!
