//! The page's variables as a JSON object from names to texts, read and
//! written by `serde_json`.
use vstd::prelude::*;
use std::collections::HashMap;

verus! {

/// The map that `serde_json::from_str` reads from `text` as a map from strings
/// to strings, or `None` where it reports an error.
pub uninterp spec fn json_string_map(text: Seq<char>) -> Option<Map<Seq<char>, Seq<char>>>;

/// The map that a list of pairs stands for: a later pair hides an earlier one
/// with the same key.
pub open spec fn pairs_map(v: Seq<(String, String)>) -> Map<Seq<char>, Seq<char>>
    decreases v.len(),
{
    if v.len() == 0 {
        Map::empty()
    } else {
        pairs_map(v.drop_last()).insert(v.last().0@, v.last().1@)
    }
}

/// Reads `text` with `serde_json::from_str` into a `HashMap<String, String>`
/// and hands its entries out; an error becomes `None`. Claimed: the entries
/// stand for the map the text is read as. The order in which they come out
/// is the hash map's and is left unsaid; the entries have distinct keys, so
/// the map does not depend on it.
#[verifier::external_body]
fn read_string_map(text: &str) -> (r: Option<Vec<(String, String)>>)
    ensures
        match r {
            Some(v) => json_string_map(text@) == Some(pairs_map(v@)),
            None => json_string_map(text@) is None,
        },
{
    match serde_json::from_str::<HashMap<String, String>>(text) {
        Ok(m) => Some(m.into_iter().collect()),
        Err(_) => None,
    }
}

/// Collects the pairs into a `HashMap<String, String>` (a later pair replacing
/// an earlier one) and writes it with `serde_json::to_string`. Claimed: reading
/// the text back gives the map of the pairs. Writing a map from strings to
/// strings into memory does not fail: string keys are accepted as object keys
/// and the in-memory writer reports no error.
#[verifier::external_body]
fn write_string_map(v: Vec<(String, String)>) -> (r: String)
    ensures
        json_string_map(r@) == Some(pairs_map(v@)),
{
    let m: HashMap<String, String> = v.into_iter().collect();
    match serde_json::to_string(&m) {
        Ok(s) => s,
        Err(_) => String::new(),
    }
}

/// The entries of a JSON object from names to texts; `None` where the text
/// is no such object.
pub fn string_map(text: &str) -> (r: Option<Vec<(String, String)>>)
    ensures
        match r {
            Some(v) => json_string_map(text@) == Some(pairs_map(v@)),
            None => json_string_map(text@) is None,
        },
{
    read_string_map(text)
}

/// The JSON object `map` with `key` set to `value`; `None` where `map` is no
/// JSON object from names to texts.
pub fn set_var(key: String, value: String, map: String) -> (r: Option<String>)
    ensures
        match json_string_map(map@) {
            Some(m) => r matches Some(o) && json_string_map(o@) == Some(m.insert(key@, value@)),
            None => r is None,
        },
{
    let mut entries = match read_string_map(map.as_str()) {
        Some(v) => v,
        None => return None,
    };
    let ghost before = entries@;
    entries.push((key, value));
    assert(entries@.drop_last() =~= before);
    Some(write_string_map(entries))
}

/// The JSON object `map` without `key`; `None` where `map` is no JSON object
/// from names to texts.
pub fn del_var(key: String, map: String) -> (r: Option<String>)
    ensures
        match json_string_map(map@) {
            Some(m) => r matches Some(o) && json_string_map(o@) == Some(m.remove(key@)),
            None => r is None,
        },
{
    let entries = match read_string_map(map.as_str()) {
        Some(v) => v,
        None => return None,
    };
    let mut kept: Vec<(String, String)> = Vec::new();
    let mut i: usize = 0;
    while i < entries.len()
        invariant
            i <= entries@.len(),
            pairs_map(kept@) == pairs_map(entries@.take(i as int)).remove(key@),
        decreases entries@.len() - i,
    {
        let ghost prev = kept@;
        assert(entries@.take(i + 1).drop_last() =~= entries@.take(i as int));
        if entries[i].0 != key {
            let k = entries[i].0.clone();
            let val = entries[i].1.clone();
            kept.push((k, val));
            assert(kept@.drop_last() =~= prev);
            assert(pairs_map(kept@) =~= pairs_map(entries@.take(i + 1)).remove(key@));
        } else {
            assert(pairs_map(kept@) =~= pairs_map(entries@.take(i + 1)).remove(key@));
        }
        i += 1;
    }
    assert(entries@.take(entries@.len() as int) =~= entries@);
    Some(write_string_map(kept))
}

/// Deleting a variable after setting it gives back the map without that
/// variable; where the map did not hold it, the map itself.
pub proof fn lemma_delete_after_set(m: Map<Seq<char>, Seq<char>>, key: Seq<char>, value: Seq<char>)
    ensures
        m.insert(key, value).remove(key) == m.remove(key),
        !m.contains_key(key) ==> m.insert(key, value).remove(key) == m,
{
    assert(m.insert(key, value).remove(key) =~= m.remove(key));
    if !m.contains_key(key) {
        assert(m.remove(key) =~= m);
    }
}

} // verus!
