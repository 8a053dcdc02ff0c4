//! The address a request goes to.

use vstd::prelude::*;

verus! {

/// What `reqwest::Url::parse` finds wrong with a text: `None` where it reads
/// the text as an absolute URL, else the words of its error.
pub uninterp spec fn url_defect(s: Seq<char>) -> Option<Seq<char>>;

/// An address that is no absolute URL.
#[derive(Debug, PartialEq, Eq)]
pub struct UrlError {
    /// The address as it was given.
    pub input: String,
    /// Why it was refused.
    pub reason: String,
}

/// Calls `reqwest::Url::parse` and keeps of its answer whether it is an
/// error, and that error's `Display` text. The parser reads nothing but its
/// argument, so the answer is a function of the text alone.
#[verifier::external_body]
fn find_url_defect(s: &str) -> (r: Option<String>)
    ensures
        match r {
            Some(reason) => url_defect(s@) == Some(reason@),
            None => url_defect(s@) is None,
        },
{
    reqwest::Url::parse(s).err().map(|e| e.to_string())
}

/// Turns the parser's finding on `s` into the verdict on it.
pub fn url_verdict(s: &str, defect: Option<String>) -> (r: Result<String, UrlError>)
    ensures
        match defect {
            None => r matches Ok(t) && t@ == s@,
            Some(reason) => r matches Err(e) && e.input@ == s@ && e.reason@ == reason@,
        },
{
    match defect {
        None => Ok(s.to_owned()),
        Some(reason) => Err(UrlError { input: s.to_owned(), reason }),
    }
}

/// Accepts `s` if it is an absolute URL and hands it back unchanged.
pub fn parse_url(s: &str) -> (r: Result<String, UrlError>)
    ensures
        match url_defect(s@) {
            None => r matches Ok(t) && t@ == s@,
            Some(reason) => r matches Err(e) && e.input@ == s@ && e.reason@ == reason,
        },
{
    url_verdict(s, find_url_defect(s))
}

} // verus!
