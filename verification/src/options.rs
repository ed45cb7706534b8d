//! The push options that a client passed with `git push -o key=value`,
//! as stored by the receiving hook in a JSON object of strings.

use vstd::prelude::*;

use crate::assoc::{keys_distinct, pairs_map, PairMap};
use crate::error::ProxyError;
use crate::text::copy_str;

verus! {

/// The map of strings that `serde_json` reads from `text` as a
/// `HashMap<String, String>`, or `None` when it refuses the text.
pub uninterp spec fn json_string_object(text: Seq<char>) -> Option<Map<Seq<char>, Seq<char>>>;

/// `serde_json::from_str::<HashMap<String, String>>`, with the map's
/// entries taken out as pairs in the map's order.
///
/// The pairs are those of the map, so no key occurs twice; their order is
/// the map's iteration order, which the contract leaves open.
#[verifier::external_body]
fn parse_string_map(text: &str) -> (r: Result<Vec<(String, String)>, serde_json::Error>)
    ensures
        match r {
            Ok(v) => {
                &&& json_string_object(text@) is Some
                &&& keys_distinct(v@)
                &&& pairs_map(v@) == json_string_object(text@)->0
            },
            Err(_) => json_string_object(text@) is None,
        },
{
    serde_json::from_str::<std::collections::HashMap<String, String>>(text).map(
        |m| m.into_iter().collect(),
    )
}

/// Push options: a map from option names to values.
pub struct PushOptions {
    map: PairMap<String, String>,
}

impl View for PushOptions {
    type V = Map<Seq<char>, Seq<char>>;

    closed spec fn view(&self) -> Map<Seq<char>, Seq<char>> {
        self.map@
    }
}

impl PushOptions {
    /// No options at all.
    pub fn empty() -> (o: PushOptions)
        ensures
            o@ == Map::<Seq<char>, Seq<char>>::empty(),
    {
        PushOptions { map: PairMap::new() }
    }

    /// Reads the options from the JSON object stored by the hook.
    pub fn parse(text: &str) -> (r: Result<PushOptions, ProxyError>)
        ensures
            match json_string_object(text@) {
                Some(m) => r matches Ok(o) && o@ == m,
                None => r matches Err(e) && e is BadPushOptions,
            },
    {
        match parse_string_map(text) {
            Ok(pairs) => Ok(PushOptions { map: PairMap::from_pairs(pairs) }),
            Err(e) => Err(ProxyError::BadPushOptions(e)),
        }
    }

    /// Whether the option `key` was given.
    pub fn contains_key(&self, key: &str) -> (b: bool)
        ensures
            b == self@.contains_key(key@),
    {
        self.map.contains(&copy_str(key))
    }

    /// The value of the option `key`, when it was given.
    pub fn get(&self, key: &str) -> (r: Option<String>)
        ensures
            match r {
                Some(v) => self@.contains_key(key@) && v@ == self@[key@],
                None => !self@.contains_key(key@),
            },
    {
        match self.map.get(&copy_str(key)) {
            Some(v) => Some(copy_str(v.as_str())),
            None => None,
        }
    }
}

} // verus!
