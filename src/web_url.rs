//! URLs as plain values, their two normal forms, and parsing and joining
//! through the `url` crate.
use vstd::prelude::*;

use crate::text::{append_str, chars_of, string_from_chars};

verus! {

#[verifier::external_type_specification]
#[verifier::external_body]
pub struct ExUrl(url::Url);

#[verifier::external_type_specification]
#[verifier::external_body]
pub struct ExParseError(url::ParseError);

/// Why a string is not a URL.
#[derive(Clone, Copy, Debug, PartialEq, Eq, Structural)]
pub enum UrlParseError {
    EmptyHost,
    IdnaError,
    InvalidPort,
    InvalidIpv4Address,
    InvalidIpv6Address,
    InvalidDomainCharacter,
    RelativeUrlWithoutBase,
    RelativeUrlWithCannotBeABaseBase,
    SetHostOnCannotBeABaseUrl,
    Overflow,
    Other,
}

impl UrlParseError {
    /// The errors that mean that the string is a relative reference, to be
    /// resolved against a base.
    pub open spec fn spec_is_relative(self) -> bool {
        self is RelativeUrlWithoutBase || self is RelativeUrlWithCannotBeABaseBase
            || self is EmptyHost || self is SetHostOnCannotBeABaseUrl
    }

    pub fn is_relative(&self) -> (r: bool)
        ensures
            r == self.spec_is_relative(),
    {
        match self {
            UrlParseError::RelativeUrlWithoutBase
            | UrlParseError::RelativeUrlWithCannotBeABaseBase
            | UrlParseError::EmptyHost
            | UrlParseError::SetHostOnCannotBeABaseUrl => true,
            _ => false,
        }
    }
}

/// A parsed URL, by its components. `origin` is the serialization up to the
/// path: the scheme, its `:`, and `//` with the authority where there is one.
pub struct WebUrl {
    pub origin: String,
    pub scheme: String,
    pub host: Option<String>,
    pub path: String,
    pub query: Option<String>,
    pub fragment: Option<String>,
}

pub struct UrlView {
    pub origin: Seq<char>,
    pub scheme: Seq<char>,
    pub host: Option<Seq<char>>,
    pub path: Seq<char>,
    pub query: Option<Seq<char>>,
    pub fragment: Option<Seq<char>>,
}

pub open spec fn opt_view(o: Option<String>) -> Option<Seq<char>> {
    match o {
        Some(s) => Some(s@),
        None => None,
    }
}

impl View for WebUrl {
    type V = UrlView;

    open spec fn view(&self) -> UrlView {
        UrlView {
            origin: self.origin@,
            scheme: self.scheme@,
            host: opt_view(self.host),
            path: self.path@,
            query: opt_view(self.query),
            fragment: opt_view(self.fragment),
        }
    }
}

pub open spec fn url_result_view(r: Result<WebUrl, UrlParseError>) -> Result<UrlView, UrlParseError> {
    match r {
        Ok(u) => Ok(u@),
        Err(e) => Err(e),
    }
}

/// What `url::Url::parse` makes of a string.
pub uninterp spec fn parsed_url(s: Seq<char>) -> Result<UrlView, UrlParseError>;

/// What `url::Url::join` makes of a reference, against the URL that `base`
/// parses to.
pub uninterp spec fn joined_url(base: Seq<char>, input: Seq<char>) -> Result<UrlView, UrlParseError>;

/// Takes the components out of a `url::Url`.
#[verifier::external_body]
fn web_url_from(u: &url::Url) -> WebUrl {
    WebUrl {
        origin: u[..url::Position::BeforePath].to_string(),
        scheme: u.scheme().to_string(),
        host: u.host_str().map(str::to_string),
        path: u.path().to_string(),
        query: u.query().map(str::to_string),
        fragment: u.fragment().map(str::to_string),
    }
}

/// Tells the variants of `url::ParseError` apart.
#[verifier::external_body]
fn parse_error_kind(e: url::ParseError) -> UrlParseError {
    match e {
        url::ParseError::EmptyHost => UrlParseError::EmptyHost,
        url::ParseError::IdnaError => UrlParseError::IdnaError,
        url::ParseError::InvalidPort => UrlParseError::InvalidPort,
        url::ParseError::InvalidIpv4Address => UrlParseError::InvalidIpv4Address,
        url::ParseError::InvalidIpv6Address => UrlParseError::InvalidIpv6Address,
        url::ParseError::InvalidDomainCharacter => UrlParseError::InvalidDomainCharacter,
        url::ParseError::RelativeUrlWithoutBase => UrlParseError::RelativeUrlWithoutBase,
        url::ParseError::RelativeUrlWithCannotBeABaseBase => UrlParseError::RelativeUrlWithCannotBeABaseBase,
        url::ParseError::SetHostOnCannotBeABaseUrl => UrlParseError::SetHostOnCannotBeABaseUrl,
        url::ParseError::Overflow => UrlParseError::Overflow,
        _ => UrlParseError::Other,
    }
}

/// Relies on `url::Url::parse`: parses an absolute URL; the result depends on
/// the string alone.
#[verifier::external_body]
pub(crate) fn parse_url(s: &str) -> (r: Result<WebUrl, UrlParseError>)
    ensures
        url_result_view(r) == parsed_url(s@),
{
    url::Url::parse(s).map(|u| web_url_from(&u)).map_err(parse_error_kind)
}

/// Relies on `url::Url::parse` for `base` and `url::Url::join`: resolves a
/// reference against a base; the result depends on the two strings alone.
#[verifier::external_body]
pub(crate) fn join_url(base: &str, input: &str) -> (r: Result<WebUrl, UrlParseError>)
    ensures
        url_result_view(r) == joined_url(base@, input@),
{
    url::Url::parse(base).and_then(|b| b.join(input)).map(|u| web_url_from(&u)).map_err(
        parse_error_kind,
    )
}

pub open spec fn opt_text(prefix: char, o: Option<Seq<char>>) -> Seq<char> {
    match o {
        Some(s) => seq![prefix] + s,
        None => Seq::empty(),
    }
}

/// The URL written out: origin, path, `?query`, `#fragment`.
pub open spec fn url_text(u: UrlView) -> Seq<char> {
    u.origin + u.path + opt_text('?', u.query) + opt_text('#', u.fragment)
}

/// The domain-only form: path, query and fragment cleared.
pub open spec fn domain_of(u: UrlView) -> UrlView {
    UrlView { path: Seq::empty(), query: None, fragment: None, ..u }
}

/// `p` without the `/`s it ends with.
pub open spec fn strip_trailing_slash(p: Seq<char>) -> Seq<char>
    decreases p.len(),
{
    if p.len() > 0 && p.last() == '/' {
        strip_trailing_slash(p.drop_last())
    } else {
        p
    }
}

/// The domain+path form: query and fragment cleared, every trailing `/` of
/// the path removed.
pub open spec fn domain_path_of(u: UrlView) -> UrlView {
    UrlView { path: strip_trailing_slash(u.path), query: None, fragment: None, ..u }
}

/// Two URLs of one site: same scheme and same host.
pub open spec fn same_base(a: UrlView, b: UrlView) -> bool {
    a.scheme == b.scheme && a.host == b.host
}

fn copy_opt(o: &Option<String>) -> (r: Option<String>)
    ensures
        opt_view(r) == opt_view(*o),
{
    match o {
        Some(s) => Some(s.clone()),
        None => None,
    }
}

fn opt_eq(a: &Option<String>, b: &Option<String>) -> (r: bool)
    ensures
        r == (opt_view(*a) == opt_view(*b)),
{
    match a {
        Some(x) => match b {
            Some(y) => x.eq(y),
            None => false,
        },
        None => b.is_none(),
    }
}

impl WebUrl {
    pub fn copy(&self) -> (r: WebUrl)
        ensures
            r@ == self@,
    {
        WebUrl {
            origin: self.origin.clone(),
            scheme: self.scheme.clone(),
            host: copy_opt(&self.host),
            path: self.path.clone(),
            query: copy_opt(&self.query),
            fragment: copy_opt(&self.fragment),
        }
    }

    pub fn same_as(&self, other: &WebUrl) -> (r: bool)
        ensures
            r == (self@ == other@),
    {
        self.origin == other.origin && self.scheme == other.scheme && opt_eq(&self.host, &other.host)
            && self.path == other.path && opt_eq(&self.query, &other.query) && opt_eq(
            &self.fragment,
            &other.fragment,
        )
    }

    /// The URL written out.
    pub fn as_text(&self) -> (r: String)
        ensures
            r@ == url_text(self@),
    {
        let mut v: Vec<char> = Vec::new();
        append_str(&mut v, self.origin.as_str());
        append_str(&mut v, self.path.as_str());
        match &self.query {
            Some(q) => {
                v.push('?');
                append_str(&mut v, q.as_str());
            },
            None => {},
        }
        match &self.fragment {
            Some(f) => {
                v.push('#');
                append_str(&mut v, f.as_str());
            },
            None => {},
        }
        proof {
            assert(v@ =~= url_text(self@));
        }
        string_from_chars(&v)
    }

    pub fn path_text(&self) -> (r: String)
        ensures
            r@ == self@.path,
    {
        self.path.clone()
    }
}

/// Parses `s` as an absolute URL.
pub fn parse(s: &str) -> (r: Result<WebUrl, UrlParseError>)
    ensures
        url_result_view(r) == parsed_url(s@),
{
    parse_url(s)
}

/// Keeps the scheme and the authority: the key of a site.
pub fn strip_url_to_domain(url: &WebUrl) -> (r: WebUrl)
    ensures
        r@ == domain_of(url@),
{
    WebUrl {
        origin: url.origin.clone(),
        scheme: url.scheme.clone(),
        host: copy_opt(&url.host),
        path: String::new(),
        query: None,
        fragment: None,
    }
}

/// Drops query and fragment and one trailing `/`: the key of a crawl job.
pub fn strip_url_to_domain_and_path(url: &WebUrl) -> (r: WebUrl)
    ensures
        r@ == domain_path_of(url@),
{
    let mut path = chars_of(url.path.as_str());
    while path.len() > 0 && path[path.len() - 1] == '/'
        invariant
            strip_trailing_slash(path@) == strip_trailing_slash(url@.path),
        decreases path@.len(),
    {
        let ghost before = path@;
        path.pop();
        proof {
            assert(path@ =~= before.drop_last());
        }
    }
    WebUrl {
        origin: url.origin.clone(),
        scheme: url.scheme.clone(),
        host: copy_opt(&url.host),
        path: string_from_chars(&path),
        query: None,
        fragment: None,
    }
}

/// Scheme and host of both URLs agree.
pub fn have_same_base(url1: &WebUrl, url2: &WebUrl) -> (r: bool)
    ensures
        r == same_base(url1@, url2@),
{
    url1.scheme == url2.scheme && opt_eq(&url1.host, &url2.host)
}

proof fn lemma_strip_trailing_slash(p: Seq<char>)
    ensures
        strip_trailing_slash(strip_trailing_slash(p)) == strip_trailing_slash(p),
        strip_trailing_slash(p).len() == 0 || strip_trailing_slash(p).last() != '/',
    decreases p.len(),
{
    if p.len() > 0 && p.last() == '/' {
        lemma_strip_trailing_slash(p.drop_last());
    }
}

/// Normalising is idempotent: the domain-only form of a domain-only form is
/// itself, and so is the domain+path form of a domain+path form, whose path
/// ends in no `/`. Both forms name the same site.
pub proof fn lemma_normalization_idempotent(u: UrlView)
    ensures
        domain_of(domain_of(u)) == domain_of(u),
        domain_of(domain_path_of(u)) == domain_of(u),
        domain_path_of(domain_path_of(u)) == domain_path_of(u),
        domain_path_of(u).path.len() == 0 || domain_path_of(u).path.last() != '/',
{
    lemma_strip_trailing_slash(u.path);
}

} // verus!
