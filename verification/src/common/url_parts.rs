//! The parts of a URL that the registry address is read from, with the calls
//! into `url` and `urlencoding` that produce them.
use self::UrlError as K;
use url::ParseError as P;
use vstd::prelude::*;

verus! {

/// Why a text is not an absolute URL, one variant for each of `url::ParseError`'s,
/// and `Other` for any that a later version adds.
#[derive(Debug, Clone, Copy, PartialEq, Eq)]
pub enum UrlError {
    EmptyHost,
    IdnaError,
    InvalidPort,
    InvalidIpv4Address,
    InvalidIpv6Address,
    InvalidDomainCharacter,
    RelativeUrlWithoutBase,
    RelativeUrlWithCannotBeABaseBase,
    SetHostOnCannotBeABaseUrl,
    Overflow,
    Other,
}

/// The parts of an absolute URL: user name, password (percent-encoded), host,
/// path and explicit port (none when it is the scheme's default).
#[derive(Debug, Clone)]
pub struct UrlParts {
    pub username: String,
    pub password: Option<String>,
    pub host: Option<String>,
    pub path: String,
    pub port: Option<u16>,
}

/// The text of an optional string.
pub open spec fn opt_view(o: Option<String>) -> Option<Seq<char>> {
    match o {
        Some(s) => Some(s@),
        None => None,
    }
}

/// The parts of a URL as texts.
pub struct UrlPartsView {
    pub username: Seq<char>,
    pub password: Option<Seq<char>>,
    pub host: Option<Seq<char>>,
    pub path: Seq<char>,
    pub port: Option<u16>,
}

impl View for UrlParts {
    type V = UrlPartsView;

    open spec fn view(&self) -> UrlPartsView {
        UrlPartsView {
            username: self.username@,
            password: opt_view(self.password),
            host: opt_view(self.host),
            path: self.path@,
            port: self.port,
        }
    }
}

/// The parts of the URL that `url::Url::parse` reads from the text, or the
/// kind of error with which it refuses the text.
pub uninterp spec fn parsed_url(input: Seq<char>) -> Result<UrlPartsView, UrlError>;

/// The text that `urlencoding::decode` gives back, or none when the decoded
/// bytes are not UTF-8.
pub uninterp spec fn percent_decoded(input: Seq<char>) -> Option<Seq<char>>;

/// Calls `url::Url::parse`; reads the parts from the URL it returns with the
/// accessors `username`, `password`, `host` (as displayed), `path` and `port`,
/// or tells the variant of the `url::ParseError` it returns. The contract
/// claims only that the outcome is a function of the text.
#[verifier::external_body]
pub(crate) fn parse_url(input: &str) -> (r: Result<UrlParts, UrlError>)
    ensures
        match r {
            Ok(p) => parsed_url(input@) == Ok::<UrlPartsView, UrlError>(p@),
            Err(k) => parsed_url(input@) == Err::<UrlPartsView, UrlError>(k),
        },
{
    match url::Url::parse(input) {
        Ok(u) => Ok(UrlParts { username: u.username().to_string(), password: u.password().map(|p| p.to_string()), host: u.host().map(|h| h.to_string()), path: u.path().to_string(), port: u.port() }),
        Err(e) => Err(match e {
            P::EmptyHost => K::EmptyHost,
            P::IdnaError => K::IdnaError,
            P::InvalidPort => K::InvalidPort,
            P::InvalidIpv4Address => K::InvalidIpv4Address,
            P::InvalidIpv6Address => K::InvalidIpv6Address,
            P::InvalidDomainCharacter => K::InvalidDomainCharacter,
            P::RelativeUrlWithoutBase => K::RelativeUrlWithoutBase,
            P::RelativeUrlWithCannotBeABaseBase => K::RelativeUrlWithCannotBeABaseBase,
            P::SetHostOnCannotBeABaseUrl => K::SetHostOnCannotBeABaseUrl,
            P::Overflow => K::Overflow, _ => K::Other,
        }),
    }
}

/// Calls `urlencoding::decode`. The contract claims that the outcome is a
/// function of the text and, as the source shows (a text without `%` is
/// handed back borrowed), that a text without `%` decodes to itself.
#[verifier::external_body]
pub(crate) fn percent_decode(input: &str) -> (r: Option<String>)
    ensures
        opt_view(r) == percent_decoded(input@),
        !input@.contains('%') ==> opt_view(r) == Some(input@),
{
    urlencoding::decode(input).ok().map(|d| d.into_owned())
}

} // verus!
