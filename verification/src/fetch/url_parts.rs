//! What the planning reads of a URL.

use vstd::prelude::*;

verus! {

/// The parts of a parsed URL.
#[derive(Debug)]
pub struct UrlParts {
    pub scheme: String,
    pub host: Option<String>,
    /// The port that the URL names.
    pub port: Option<u16>,
    /// That port, or else the one that its scheme is known for.
    pub known_port: Option<u16>,
    /// The whole URL, written out.
    pub text: String,
}

/// What the parts of a URL stand for.
pub struct UrlModel {
    pub scheme: Seq<char>,
    pub host: Option<Seq<char>>,
    pub port: Option<u16>,
    pub known_port: Option<u16>,
    pub text: Seq<char>,
}

impl UrlParts {
    pub open spec fn view(&self) -> UrlModel {
        UrlModel {
            scheme: self.scheme@,
            host: match self.host {
                Some(host) => Some(host@),
                None => None,
            },
            port: self.port,
            known_port: self.known_port,
            text: self.text@,
        }
    }
}

/// The view of parsed parts, where there are any.
pub open spec fn parsed_view(parts: Option<UrlParts>) -> Option<UrlModel> {
    match parts {
        Some(parts) => Some(parts@),
        None => None,
    }
}

/// What an absolute URL parses to.
pub uninterp spec fn url_parsed(text: Seq<char>) -> Option<UrlModel>;

/// What a URL parses to against the base URL `base`.
pub uninterp spec fn url_resolved(base: Seq<char>, text: Seq<char>) -> Option<UrlModel>;

/// A URL with another host, written out.
pub uninterp spec fn url_with_host(url: Seq<char>, host: Seq<char>) -> Seq<char>;

/// `url::Url::parse`, and what the result says of its scheme, host and ports.
/// The result depends on the text alone; the grammar of URLs is not stated.
#[verifier::external_body]
pub(crate) fn parse_url(text: &str) -> (parts: Option<UrlParts>)
    ensures
        parsed_view(parts) == url_parsed(text@),
{
    let url = url::Url::parse(text).ok()?;
    Some(UrlParts {
        scheme: url.scheme().to_owned(),
        host: url.host_str().map(|host| host.to_owned()),
        port: url.port(),
        known_port: url.port_or_known_default(),
        text: url.to_string(),
    })
}

/// `url::ParseOptions::parse` with a base URL, and what the result says of its
/// scheme, host and ports. The result depends on the two texts alone; how a
/// reference is resolved is not stated.
#[verifier::external_body]
pub(crate) fn resolve_url(base: &str, text: &str) -> (parts: Option<UrlParts>)
    ensures
        parsed_view(parts) == url_resolved(base@, text@),
{
    let base = url::Url::parse(base).ok()?;
    let url = url::Url::options().base_url(Some(&base)).parse(text).ok()?;
    Some(UrlParts {
        scheme: url.scheme().to_owned(),
        host: url.host_str().map(|host| host.to_owned()),
        port: url.port(),
        known_port: url.port_or_known_default(),
        text: url.to_string(),
    })
}

/// `url::Url::set_host` on a URL that was written out; one that does not take
/// the host stays as it is. The result depends on the two texts alone; how a
/// host is written is not stated.
#[verifier::external_body]
pub(crate) fn with_host(url: &str, host: &str) -> (text: String)
    ensures
        text@ == url_with_host(url@, host@),
{
    match url::Url::parse(url) {
        Ok(mut parsed) => {
            parsed.set_host(Some(host)).ok();
            parsed.to_string()
        }
        Err(_) => url.to_owned(),
    }
}

} // verus!
