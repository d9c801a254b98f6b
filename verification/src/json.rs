//! Plain values read from JSON text.
use vstd::prelude::*;
use vstd::string::to_string_from_display_ensures;

use crate::token::texts;

verus! {

/// Why a text is not the JSON it should be.
#[verifier::external_type_specification]
#[verifier::external_body]
pub struct ExJsonError(serde_json::Error);

/// What `serde_json::from_str` makes of a text that should be an array of strings: the strings, or
/// the words of its error.
pub uninterp spec fn json_strings(text: Seq<char>) -> Result<Seq<Seq<char>>, Seq<char>>;

/// `serde_json::from_str`, asked for a list of strings. What it returns is a function of the text
/// and carries a name, its error being told by the words in which the error displays itself.
#[verifier::external_body]
fn from_str(text: &str) -> (r: Result<Vec<String>, serde_json::Error>)
    ensures
        match r {
            Ok(strings) => json_strings(text@) == Ok::<_, Seq<char>>(texts(strings@)),
            Err(e) => json_strings(text@) is Err && forall|words: String| #[trigger]
                to_string_from_display_ensures(&e, words) ==> words@ == json_strings(text@)->Err_0,
        },
{
    serde_json::from_str(text)
}

/// What reading strings came to.
pub open spec fn strings_view(r: Result<Vec<String>, String>) -> Result<
    Seq<Seq<char>>,
    Seq<char>,
> {
    match r {
        Ok(strings) => Ok(texts(strings@)),
        Err(e) => Err(e@),
    }
}

/// Reads an array of strings, or says why the text is none.
pub fn read_strings(text: &str) -> (r: Result<Vec<String>, String>)
    ensures
        strings_view(r) == json_strings(text@),
{
    match from_str(text) {
        Ok(strings) => Ok(strings),
        Err(e) => Err(e.to_string()),
    }
}

} // verus!
