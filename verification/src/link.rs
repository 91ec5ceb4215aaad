//! Addresses, as the `url` crate parses them.
//!
//! An address is carried as an opaque value. What the crate computes of it is
//! reached through the trusted functions of this file, which claim nothing of
//! its result but what is said at each.

use url::ParseError;
use url::Url;
use vstd::prelude::*;

verus! {

/// A parsed address of the `url` crate, opaque to the verifier.
#[verifier::external_type_specification]
#[verifier::external_body]
pub struct ExUrl(Url);

/// The parse fault of the `url` crate, opaque to the verifier.
#[verifier::external_type_specification]
#[verifier::external_body]
pub struct ExParseError(ParseError);

/// Whether `Url::parse` takes a text as an absolute address.
pub uninterp spec fn is_absolute_url(text: Seq<char>) -> bool;

/// Calls `Url::parse`. Whether it succeeds is a function of the text alone, and
/// nothing else is claimed: it succeeds exactly on the texts that
/// [`is_absolute_url`] names.
#[verifier::external_body]
pub(crate) fn parse_url(text: &str) -> (parsed: Result<Url, ParseError>)
    ensures
        parsed is Ok <==> is_absolute_url(text@),
{
    Url::parse(text)
}

/// Calls `Url::scheme` and copies the scheme. Nothing is claimed of it.
#[verifier::external_body]
pub(crate) fn scheme_of(link: &Url) -> (scheme: String) {
    link.scheme().to_owned()
}

/// Calls `Url::query_pairs` and copies the decoded pairs of the query in their
/// order. Nothing is claimed of them.
#[verifier::external_body]
pub(crate) fn query_pairs_of(link: &Url) -> (pairs: Vec<(String, String)>) {
    link.query_pairs().map(|(key, value)| (key.into_owned(), value.into_owned())).collect()
}

} // verus!
