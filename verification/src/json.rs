//! Lists of strings as JSON text.
use vstd::prelude::*;
use crate::words;

verus! {

/// The JSON text of a list of strings.
pub uninterp spec fn strings_json(list: Seq<Seq<char>>) -> Seq<char>;

/// The list of strings that a JSON text holds.
pub uninterp spec fn json_strings(json: Seq<char>) -> Option<Seq<Seq<char>>>;

/// `serde_json::to_string` on a list of strings: its JSON text, under the name
/// `strings_json`. It does not fail on such a list, and reading the text gives
/// the list back.
#[verifier::external_body]
pub(crate) fn to_json(list: &Vec<String>) -> (r: Option<String>)
    ensures
        r is Some,
        r matches Some(json) ==> json@ == strings_json(words::texts(list@)) && json_strings(json@)
            == Some(words::texts(list@)),
{
    serde_json::to_string(list).ok()
}

/// `serde_json::from_str` to a list of strings: the list that the text holds,
/// if it holds one, under the name `json_strings`.
#[verifier::external_body]
pub(crate) fn from_json(json: &str) -> (r: Option<Vec<String>>)
    ensures
        match r {
            Some(list) => json_strings(json@) == Some(words::texts(list@)),
            None => json_strings(json@) is None,
        },
{
    serde_json::from_str(json).ok()
}

} // verus!
