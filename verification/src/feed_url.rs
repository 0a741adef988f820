//! Which texts are accepted as feed URLs.

use vstd::prelude::*;

verus! {

/// What the `url` crate makes of a text: `None` where the text does not
/// parse as an absolute URL, otherwise whether the URL it parses to cannot
/// be a base (`mailto:` and `data:` URLs cannot; `http://` URLs can).
pub uninterp spec fn parsed_cannot_be_a_base(text: Seq<char>) -> Option<bool>;

/// Calls `url::Url::parse` and, on success, `Url::cannot_be_a_base` on the
/// URL it returned. Trusted: the result is the named reading of the text;
/// a parse error becomes `None`.
#[verifier::external_body]
fn parse_cannot_be_a_base(text: &str) -> (r: Option<bool>)
    ensures
        r == parsed_cannot_be_a_base(text@),
{
    match url::Url::parse(text) {
        Ok(parsed) => Some(parsed.cannot_be_a_base()),
        Err(_) => None,
    }
}

/// Why a request of a subscriber was turned down.
#[derive(Clone, Copy, Debug, PartialEq, Eq, Structural)]
pub enum Error {
    /// The text is no URL, or a URL that names no hierarchy to fetch from.
    InvalidFeedUrl,
}

/// A reading stands for a feed URL: the text parsed, and to a URL that can
/// be a base.
pub open spec fn accepted(parsed: Option<bool>) -> bool {
    parsed == Some(false)
}

/// The text is accepted as a feed URL.
pub open spec fn valid_feed_url(text: Seq<char>) -> bool {
    accepted(parsed_cannot_be_a_base(text))
}

/// Tells whether a reading stands for a feed URL.
pub fn accepts(parsed: Option<bool>) -> (r: bool)
    ensures
        r == accepted(parsed),
{
    match parsed {
        Some(cannot_be_a_base) => !cannot_be_a_base,
        None => false,
    }
}

/// Checks a text that is meant as a feed URL.
pub fn validate_feed_url(text: &str) -> (r: Result<(), Error>)
    ensures
        r is Ok <==> valid_feed_url(text@),
        r is Err ==> r == Err::<(), Error>(Error::InvalidFeedUrl),
{
    if accepts(parse_cannot_be_a_base(text)) {
        Ok(())
    } else {
        Err(Error::InvalidFeedUrl)
    }
}

} // verus!
