//! What kind of body a response carries.

use vstd::prelude::*;
use crate::header::{names_match, same_name};

verus! {

/// The kinds of body that are told apart when a response is shown.
#[derive(Debug, Clone, Copy, PartialEq, Eq, Structural)]
pub enum MediaType {
    /// `application/json`, with or without parameters.
    Json,
    /// Anything else.
    Other,
}

/// The type and subtype that the `mime` crate reads in a content type, in
/// the form `type/subtype`; `None` where it cannot read the text as a media
/// type.
pub uninterp spec fn media_essence(s: Seq<char>) -> Option<Seq<char>>;

/// The type and subtype of JSON.
pub open spec fn json_essence() -> Seq<char> {
    "application/json"@
}

/// The kind that a type and subtype stand for. They name JSON whatever the
/// case of their letters; a content type that could not be read is of the
/// other kind.
pub open spec fn kind_of(essence: Option<Seq<char>>) -> MediaType {
    match essence {
        Some(e) => if same_name(e, json_essence()) {
            MediaType::Json
        } else {
            MediaType::Other
        },
        None => MediaType::Other,
    }
}

/// Parses `s` with `mime::Mime::from_str` and keeps of a success what
/// `Mime::essence_str` gives: the text up to the parameters. Both read only
/// the text, so the result is a function of it.
#[verifier::external_body]
pub(crate) fn read_essence(s: &str) -> (r: Option<String>)
    ensures
        match r {
            Some(e) => media_essence(s@) == Some(e@),
            None => media_essence(s@) is None,
        },
{
    s.parse::<mime::Mime>().ok().map(|m| m.essence_str().to_owned())
}

/// Tells the kind of body from what the `mime` crate read in the content
/// type.
pub fn media_type_verdict(essence: Option<String>) -> (r: MediaType)
    ensures
        r == kind_of(
            match essence {
                Some(e) => Some(e@),
                None => None,
            },
        ),
{
    match essence {
        Some(e) => {
            if names_match(e.as_str(), "application/json") {
                MediaType::Json
            } else {
                MediaType::Other
            }
        },
        None => MediaType::Other,
    }
}

/// How `jsonxf` lays out a JSON text with indentation, or the words of its
/// error.
pub uninterp spec fn json_pretty(s: Seq<char>) -> Result<Seq<char>, Seq<char>>;

/// `jsonxf::pretty_print` starts a fresh formatter on every call and reads
/// nothing but the text, so its result is a function of the text.
pub assume_specification[ jsonxf::pretty_print ](json_string: &str) -> (r: Result<String, String>)
    ensures
        match r {
            Ok(t) => json_pretty(json_string@) == Ok::<Seq<char>, Seq<char>>(t@),
            Err(why) => json_pretty(json_string@) == Err::<Seq<char>, Seq<char>>(why@),
        },
;

} // verus!
