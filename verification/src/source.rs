//! Where the history comes from: the repository at hand, or a clone of a
//! remote one.

use url::Url;
use vstd::prelude::*;

verus! {

/// The error with which a text is refused as a URL.
#[verifier::external_type_specification]
#[verifier::external_body]
pub struct ExParseError(url::ParseError);

/// Whether `text` is a well-formed absolute URL. It stands for the verdict of
/// the `url` crate's parser, whose grammar is not restated here.
pub uninterp spec fn url_parses(text: Seq<char>) -> bool;

/// The repository to analyse.
#[derive(Debug)]
pub enum RepoSource {
    /// The repository at the local path.
    Local,
    /// A clone, still to be made, of the repository at this URL.
    Remote(String),
}

/// Why no repository can be analysed.
#[derive(Debug)]
pub enum SourceError {
    /// The text given as the remote URL is not a well-formed URL.
    InvalidUrl { url: String, reason: url::ParseError },
}

/// `url::Url::parse`: `Ok` exactly for the texts that the parser accepts as
/// an absolute URL, otherwise the parser's error.
#[verifier::external_body]
fn parse_url(text: &str) -> (parsed: Result<(), url::ParseError>)
    ensures
        parsed.is_ok() == url_parses(text@),
{
    match Url::parse(text) {
        Ok(_) => Ok(()),
        Err(reason) => Err(reason),
    }
}

/// Decides from where the history is read. Without a URL it is the local
/// repository; with a well-formed URL a clone of the remote one; a text that
/// is not a URL is refused.
pub fn resolve_source(url: Option<&str>) -> (source: Result<RepoSource, SourceError>)
    ensures
        match url {
            None => source == Ok::<RepoSource, SourceError>(RepoSource::Local),
            Some(text) => if url_parses(text@) {
                source matches Ok(RepoSource::Remote(remote)) && remote@ == text@
            } else {
                source matches Err(SourceError::InvalidUrl { url: refused, .. }) && refused@
                    == text@
            },
        },
{
    match url {
        None => Ok(RepoSource::Local),
        Some(text) => resolve_remote(text, parse_url(text)),
    }
}

/// The source for the remote URL `text`, given what the parser said of it.
pub fn resolve_remote(text: &str, parsed: Result<(), url::ParseError>) -> (source: Result<
    RepoSource,
    SourceError,
>)
    ensures
        parsed is Ok ==> (source matches Ok(RepoSource::Remote(remote)) && remote@ == text@),
        parsed matches Err(reason) ==> (source matches Err(
            SourceError::InvalidUrl { url: refused, reason: given },
        ) && refused@ == text@ && given == reason),
{
    match parsed {
        Ok(_) => Ok(RepoSource::Remote(text.to_owned())),
        Err(reason) => Err(SourceError::InvalidUrl { url: text.to_owned(), reason }),
    }
}

/// How much of a transfer is done, in whole percent: `None` while the number
/// of objects to receive is not known yet.
pub fn transfer_percent(received: usize, total: usize) -> (percent: Option<usize>)
    requires
        100 * received <= usize::MAX,
    ensures
        total == 0 ==> percent is None,
        total > 0 ==> percent == Some(((100 * received) / (total as int)) as usize),
{
    if total == 0 {
        None
    } else {
        Some((100 * received) / total)
    }
}

} // verus!
