//! Which node buttons the palette's search shows.
use vstd::prelude::*;

use crate::text::{chars_of, contains_chars, contains_seq, lower_text, string_of, to_lower_chars, trim, trim_chars};

verus! {

/// The text searched for: the typed query, trimmed and lower-cased.
pub fn search_key(query: &str) -> (r: String)
    ensures
        r@ == lower_text(trim(query@)),
{
    string_of(&to_lower_chars(&trim_chars(&chars_of(query))))
}

/// Whether a button with `label` and description `desc` is shown for the search key `key`:
/// every button is shown for an empty key; otherwise one whose lower-cased label or
/// description holds the key.
pub fn matches_query(key: &str, label: &str, desc: &str) -> (r: bool)
    ensures
        r == (key@.len() == 0 || contains_seq(lower_text(label@), key@) || contains_seq(
            lower_text(desc@),
            key@,
        )),
{
    let k = chars_of(key);
    k.len() == 0 || contains_chars(&to_lower_chars(&chars_of(label)), &k) || contains_chars(
        &to_lower_chars(&chars_of(desc)),
        &k,
    )
}

} // verus!
