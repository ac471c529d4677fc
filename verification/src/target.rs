//! The URLs of requests, which `url` reads.

use vstd::prelude::*;

use crate::text;
use crate::text::{range_text, split, to_chars};

verus! {

/// Why `url` could not read a URL.
#[verifier::external_type_specification]
#[verifier::external_body]
pub struct ExParseError(url::ParseError);

/// Why `urlencoding` could not decode a text.
#[verifier::external_type_specification]
#[verifier::external_body]
pub struct ExFromUtf8Error(std::string::FromUtf8Error);

/// The parts of a URL that decide what becomes of a request.
pub struct UrlView {
    pub host: Option<Seq<char>>,
    pub port: Option<u16>,
    pub path: Seq<char>,
    pub query: Option<Seq<char>>,
}

/// What `Url::parse` of `url` reads from a text.
pub uninterp spec fn url_of(raw: Seq<char>) -> Option<UrlView>;

/// What `decode` of `urlencoding` makes of a text.
pub uninterp spec fn percent_decoded(raw: Seq<char>) -> Option<Seq<char>>;

/// The characters of an optional text.
pub open spec fn text_view(s: Option<String>) -> Option<Seq<char>> {
    match s {
        Some(s) => Some(s@),
        None => None,
    }
}

/// The URL of a request: its host, its port (or that of its scheme), its path
/// and its query.
#[derive(Debug, Clone)]
pub struct Url {
    pub host: Option<String>,
    pub port: Option<u16>,
    pub path: String,
    pub query: Option<String>,
}

impl View for Url {
    type V = UrlView;

    open spec fn view(&self) -> UrlView {
        UrlView {
            host: text_view(self.host),
            port: self.port,
            path: self.path@,
            query: text_view(self.query),
        }
    }
}

/// `Url::parse` of `url`, and the parts of the URL that it reads.
#[verifier::external_body]
fn read_url(raw: &str) -> (r: Result<Url, url::ParseError>)
    ensures
        match url_of(raw@) {
            Some(u) => r is Ok && r->Ok_0@ == u,
            None => r is Err,
        },
{
    url::Url::parse(raw).map(
        |u| Url {
            host: u.host_str().map(|h| h.to_string()),
            port: u.port_or_known_default(),
            path: u.path().to_string(),
            query: u.query().map(|q| q.to_string()),
        },
    )
}

/// `urlencoding::decode`: the text with its percent escapes resolved, unless
/// that is no UTF-8.
#[verifier::external_body]
fn decode(raw: &str) -> (r: Result<String, std::string::FromUtf8Error>)
    ensures
        match percent_decoded(raw@) {
            Some(s) => r is Ok && r->Ok_0@ == s,
            None => r is Err,
        },
{
    urlencoding::decode(raw).map(|s| s.to_string())
}

/// The segments of a path: what stands between its slashes, if it opens with one.
pub open spec fn segments_of(path: Seq<char>) -> Option<Seq<Seq<char>>> {
    if path.len() > 0 && path[0] == '/' {
        Some(text::split_on(path.skip(1), '/'))
    } else {
        None
    }
}

impl Url {
    /// Reads a URL.
    pub fn parse(raw: &str) -> (r: Option<Url>)
        ensures
            match url_of(raw@) {
                Some(u) => r is Some && r->Some_0@ == u,
                None => r is None,
            },
    {
        match read_url(raw) {
            Ok(u) => Some(u),
            Err(_) => None,
        }
    }

    /// The segments of the path, if it opens with a slash.
    pub fn path_segments(&self) -> (r: Option<Vec<String>>)
        ensures
            match segments_of(self@.path) {
                Some(s) => r is Some && text::texts(r->Some_0@) == s && r->Some_0@.len() > 0,
                None => r is None,
            },
    {
        let v = to_chars(self.path.as_str());
        if v.len() > 0 && v[0] == '/' {
            let rest = range_text(&v, 1, v.len());
            assert(rest@ =~= self@.path.skip(1));
            Some(split(rest.as_str(), '/'))
        } else {
            None
        }
    }
}

/// The text with its percent escapes resolved, or nothing where that is no UTF-8.
pub fn decoded_or_empty(raw: &str) -> (r: String)
    ensures
        r@ == match percent_decoded(raw@) {
            Some(s) => s,
            None => seq![],
        },
{
    match decode(raw) {
        Ok(s) => s,
        Err(_) => String::new(),
    }
}

} // verus!
