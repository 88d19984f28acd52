//! Short display text for a URL, from what the `url` crate parses out of it.

use vstd::prelude::*;

verus! {

/// The parts of a parsed URL that a display text uses.
pub struct ParsedUrl {
    /// `Url::host_str`.
    pub host: Option<String>,
    /// `Url::path`.
    pub path: String,
}

impl View for ParsedUrl {
    type V = (Option<Seq<char>>, Seq<char>);

    open spec fn view(&self) -> (Option<Seq<char>>, Seq<char>) {
        (
            match self.host {
                Some(h) => Some(h@),
                None => None,
            },
            self.path@,
        )
    }
}

/// What `url::Url::parse` makes of `input`: `None` when it is not an absolute
/// URL, else its host (`Url::host_str`) and path (`Url::path`).
pub uninterp spec fn url_components(input: Seq<char>) -> Option<(Option<Seq<char>>, Seq<char>)>;

/// Calls `url::Url::parse` and keeps the host and path of the result.
///
/// States that the result is `url_components` of the input, a function of the
/// input alone, and that an input without a `:` is refused (the parser finds
/// no scheme, and without a base URL it answers `RelativeUrlWithoutBase`).
/// Which inputs parse, and to what, is not stated further.
#[verifier::external_body]
fn parse_url(input: &str) -> (r: Option<ParsedUrl>)
    ensures
        r matches Some(p) ==> url_components(input@) == Some(p@),
        r is None ==> url_components(input@) is None,
        !input@.contains(':') ==> r is None,
{
    match url::Url::parse(input) {
        Ok(parsed) => Some(
            ParsedUrl {
                host: parsed.host_str().map(|host| host.to_owned()),
                path: parsed.path().to_owned(),
            },
        ),
        Err(_) => None,
    }
}

/// The display text of `url` given what parsing it gave: its host when it has
/// one, else its path; the URL itself when parsing failed or that text is empty.
pub open spec fn display_text_from(url: Seq<char>, parsed: Option<(Option<Seq<char>>, Seq<char>)>) -> Seq<char> {
    match parsed {
        Some((Some(host), _)) => if host.len() > 0 {
            host
        } else {
            url
        },
        Some((None, path)) => if path.len() > 0 {
            path
        } else {
            url
        },
        None => url,
    }
}

/// The display text of `url`.
pub open spec fn display_url_text(url: Seq<char>) -> Seq<char> {
    display_text_from(url, url_components(url))
}

/// The display text of `url` from the result of parsing it.
pub fn display_url_from(url: &str, parsed: Option<ParsedUrl>) -> (r: String)
    ensures
        r@ == display_text_from(
            url@,
            match parsed {
                Some(p) => Some(p@),
                None => None,
            },
        ),
{
    match parsed {
        Some(p) => match p.host {
            Some(host) => if !host.as_str().is_empty() {
                host
            } else {
                url.to_owned()
            },
            None => if !p.path.as_str().is_empty() {
                p.path
            } else {
                url.to_owned()
            },
        },
        None => url.to_owned(),
    }
}

/// A short text for `url`: its host, else its path, else the URL itself.
pub fn display_url(url: &str) -> (r: String)
    ensures
        r@ == display_url_text(url@),
        !url@.contains(':') ==> r@ == url@,
{
    display_url_from(url, parse_url(url))
}

} // verus!
