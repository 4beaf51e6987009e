//! The parts of a URL that the library reads, obtained from the `url` crate.

use vstd::prelude::*;

verus! {

/// `url::ParseError`, carried through opaquely.
#[verifier::external_type_specification]
#[verifier::external_body]
pub struct ExUrlParseError(url::ParseError);

/// What the library reads of a parsed absolute URL.
#[derive(Debug)]
pub struct UrlParts {
    /// The host, where the URL has one.
    pub host: Option<String>,
    /// The path, percent-encoded; `/` for a URL without one.
    pub path: String,
}

impl UrlParts {
    /// Host and path as character sequences.
    pub open spec fn view(self) -> (Option<Seq<char>>, Seq<char>) {
        (
            match self.host {
                Some(h) => Some(h@),
                None => None,
            },
            self.path@,
        )
    }
}

/// Host and path of `input` read as an absolute URL by `url::Url::parse`, or
/// `None` where it does not parse.
pub uninterp spec fn url_parts(input: Seq<char>) -> Option<(Option<Seq<char>>, Seq<char>)>;

/// What two calls in a row give: `url::Url::parse` on `base`, then
/// `url::Url::join` of `reference` on the URL that was parsed. The result
/// is the serialization of the resolved URL, or `None` where `base` does
/// not parse as an absolute URL or `reference` does not resolve against it.
pub uninterp spec fn url_join(base: Seq<char>, reference: Seq<char>) -> Option<Seq<char>>;

/// Calls `url::Url::parse` and copies what `host_str` and `path` return for
/// the parsed URL. Parsing is a function of the input text alone; contracts
/// know its outcome only under the name `url_parts`.
#[verifier::external_body]
pub(crate) fn split_url(input: &str) -> (r: Result<UrlParts, url::ParseError>)
    ensures
        match r {
            Ok(p) => url_parts(input@) == Some(p@),
            Err(_) => url_parts(input@) is None,
        },
{
    let parsed = url::Url::parse(input)?;
    Ok(UrlParts { host: parsed.host_str().map(String::from), path: String::from(parsed.path()) })
}

/// Calls `url::Url::parse` on `base` and then `url::Url::join` with
/// `reference` on what was parsed, and returns the serialization of the
/// resulting URL. The outcome of the two calls together is a function of
/// the two texts alone; contracts know it only under the name `url_join`.
#[verifier::external_body]
pub(crate) fn join_url(base: &str, reference: &str) -> (r: Result<String, url::ParseError>)
    ensures
        match r {
            Ok(s) => url_join(base@, reference@) == Some(s@),
            Err(_) => url_join(base@, reference@) is None,
        },
{
    url::Url::parse(base)?.join(reference).map(String::from)
}

/// Calls `ToString::to_string` on a `url::ParseError`, which formats it with
/// its `Display` impl. Nothing is claimed of the text.
#[verifier::external_body]
pub(crate) fn url_error_text(e: &url::ParseError) -> (r: String) {
    e.to_string()
}

} // verus!
