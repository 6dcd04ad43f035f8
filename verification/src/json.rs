//! JSON text of strings, as `serde_json` writes and reads it.

use vstd::prelude::*;

verus! {

/// The JSON text that `serde_json::to_string` gives for a string.
pub uninterp spec fn json_of_text(text: Seq<char>) -> Seq<char>;

/// The string that `serde_json::from_str` reads from JSON text, where the
/// text is that of a string.
pub uninterp spec fn text_of_json(json: Seq<char>) -> Option<Seq<char>>;

/// `serde_json::to_string` on a string: the JSON text of the string. The
/// result depends on the string alone. It never fails: the text is written
/// into memory, and of the two causes of failure that the function knows,
/// neither can arise for a string.
#[verifier::external_body]
pub(crate) fn to_json(text: &str) -> (r: String)
    ensures
        r@ == json_of_text(text@),
{
    serde_json::to_string(text).unwrap_or_default()
}

/// `serde_json::from_str` for a string: the string that the JSON text
/// denotes, or the message of the error. The result depends on the text
/// alone.
#[verifier::external_body]
pub(crate) fn from_json(json: &str) -> (r: Result<String, String>)
    ensures
        match text_of_json(json@) {
            Some(text) => r matches Ok(s) && s@ == text,
            None => r is Err,
        },
{
    serde_json::from_str::<String>(json).map_err(|e| e.to_string())
}

} // verus!
