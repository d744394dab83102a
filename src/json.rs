//! JSON string literals, written and read by serde_json.

use vstd::prelude::*;
use crate::model::opt_text;

verus! {

/// The JSON string literal, quotes included, that serde_json writes for a
/// string.
pub uninterp spec fn json_literal(s: Seq<char>) -> Seq<char>;

/// The string that serde_json reads from a JSON string literal, if it is one.
pub uninterp spec fn json_string_value(s: Seq<char>) -> Option<Seq<char>>;

/// Relies on `serde_json::to_string` on a `str`: the escaped literal; writing
/// a string into memory has no failure path.
#[verifier::external_body]
pub(crate) fn quote_json(s: &str) -> (r: String)
    ensures
        r@ == json_literal(s@),
{
    serde_json::to_string(s).unwrap_or_default()
}

/// Relies on `serde_json::from_str::<String>`: reads one JSON string literal,
/// and gives back the very string whose literal serde_json wrote.
#[verifier::external_body]
pub(crate) fn unquote_json(s: &str) -> (r: Option<String>)
    ensures
        opt_text(r) == json_string_value(s@),
        forall|t: Seq<char>| #[trigger] json_literal(t) == s@ ==> opt_text(r) == Some(t),
{
    serde_json::from_str::<String>(s).ok()
}

} // verus!
