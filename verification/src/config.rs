//! The user-identity configuration record, the location of its document, and
//! the reading of an identity value out of the version-control tool's own
//! configuration output.

use vstd::prelude::*;
use vstd::string::StringExecFns;

verus! {

/// The text that a byte string decodes to, when it is valid UTF-8.
pub uninterp spec fn utf8_text(bytes: Seq<u8>) -> Option<Seq<char>>;

/// The text with its leading and trailing whitespace removed.
pub uninterp spec fn trimmed(s: Seq<char>) -> Seq<char>;

/// Relies on String::from_utf8: returns the decoded text exactly when the
/// bytes are valid UTF-8, a function of the bytes alone.
#[verifier::external_body]
fn decode_utf8(bytes: Vec<u8>) -> (r: Option<String>)
    ensures
        r matches Some(s) ==> utf8_text(bytes@) == Some(s@),
        r matches None ==> utf8_text(bytes@) matches None,
{
    String::from_utf8(bytes).ok()
}

/// Relies on str::trim: the text without leading and trailing whitespace, a
/// function of the characters alone; never longer than its input.
#[verifier::external_body]
fn trim_text(s: &str) -> (r: String)
    ensures
        r@ == trimmed(s@),
        r@.len() <= s@.len(),
{
    s.trim().to_string()
}

/// The identity value carried by one configuration query's output: the bytes
/// decoded as text and trimmed of surrounding whitespace; absent exactly
/// when the bytes are not valid text.
pub fn identity_from_output(bytes: Vec<u8>) -> (r: Option<String>)
    ensures
        match utf8_text(bytes@) {
            Some(t) => r matches Some(s) && s@ == trimmed(t),
            None => r matches None,
        },
{
    match decode_utf8(bytes) {
        Option::Some(s) => Option::Some(trim_text(s.as_str())),
        Option::None => Option::None,
    }
}

/// Author identity the front end persists as a small JSON document.
pub struct Config {
    pub author_name: String,
    pub author_email: String,
}

impl Config {
    /// The path of the configuration document inside the directory `dir`:
    /// `dir` with `/config.json` appended.
    pub fn path(dir: &str) -> (r: String)
        ensures
            r@ == dir@ + "/config.json"@,
    {
        let s = String::from_str(dir);
        s.concat("/config.json")
    }
}

} // verus!
