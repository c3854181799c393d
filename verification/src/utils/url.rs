//! Reference resolution and file name extensions.

use vstd::prelude::*;

use crate::codec::opt_bytes;
use crate::text::{
    after_last, after_last_char, before, before_char, chars, has_char, opt_text,
};

verus! {

/// The absolute URL that a reference stands for on a page, where the page's URL
/// is absolute and the two can be joined.
pub uninterp spec fn joined_url(base: Seq<char>, reference: Seq<char>) -> Option<Seq<char>>;

/// `url::Url::parse` of the base and `Url::join` of the reference.
#[verifier::external_body]
fn join_url(base: &str, reference: &str) -> (r: Option<String>)
    ensures
        opt_text(r) == joined_url(base@, reference@),
{
    url::Url::parse(base).ok()?.join(reference).ok().map(String::from)
}

/// What a reference on a page refers to: the joined URL, or the reference
/// itself where the two cannot be joined.
pub open spec fn resolved(base: Seq<char>, reference: Seq<char>) -> Seq<char> {
    match joined_url(base, reference) {
        Some(url) => url,
        None => reference,
    }
}

/// Resolves a reference against the URL of the page that it stands on.
pub fn resolve_url(base: &str, reference: &str) -> (r: String)
    ensures
        r@ == resolved(base@, reference@),
{
    match join_url(base, reference) {
        Some(url) => url,
        None => reference.to_owned(),
    }
}

/// The parts of a URL.
pub struct ParsedUrl {
    /// The whole URL, in its normal form.
    pub text: String,
    pub scheme: String,
    /// The host as it is written; IPv6 addresses stand in brackets.
    pub host: Option<String>,
    /// The octets of a host that is an IP address: four or sixteen.
    pub address: Option<Vec<u8>>,
    /// The port, where it is not the scheme's own.
    pub port: Option<u16>,
    pub path: String,
}

/// The parts of a URL, by their texts.
pub struct UrlParts {
    pub text: Seq<char>,
    pub scheme: Seq<char>,
    pub host: Option<Seq<char>>,
    pub address: Option<Seq<u8>>,
    pub port: Option<u16>,
    pub path: Seq<char>,
}

impl View for ParsedUrl {
    type V = UrlParts;

    open spec fn view(&self) -> UrlParts {
        UrlParts {
            text: self.text@,
            scheme: self.scheme@,
            host: opt_text(self.host),
            address: opt_bytes(self.address),
            port: self.port,
            path: self.path@,
        }
    }
}

/// The parts of a URL, or the parser's message on why it is none.
pub uninterp spec fn parsed_url(s: Seq<char>) -> Result<UrlParts, Seq<char>>;

/// The outcome of parsing, by its texts.
pub open spec fn url_outcome(r: Result<ParsedUrl, String>) -> Result<UrlParts, Seq<char>> {
    match r {
        Ok(u) => Ok(u@),
        Err(e) => Err(e@),
    }
}

/// `url::Url::parse`, with what the accessors of the result return, and the
/// error by its text. An address has the four octets of IPv4 or the sixteen of
/// IPv6.
#[verifier::external_body]
pub(crate) fn parse_url(s: &str) -> (r: Result<ParsedUrl, String>)
    ensures
        url_outcome(r) == parsed_url(s@),
        r matches Ok(u) ==> (u.address matches Some(a) ==> a@.len() == 4 || a@.len() == 16),
{
    let u = url::Url::parse(s).map_err(|e| e.to_string())?;
    let address = match u.host() {
        Some(url::Host::Ipv4(a)) => Some(a.octets().to_vec()),
        Some(url::Host::Ipv6(a)) => Some(a.octets().to_vec()),
        Some(url::Host::Domain(_)) => None,
        None => None,
    };
    let (scheme, host, path) = (u.scheme().into(), u.host_str().map(String::from), u.path().into());
    Ok(ParsedUrl { scheme, host, address, port: u.port(), path, text: u.into() })
}

/// A URL without its query and fragment.
pub open spec fn url_path(url: Seq<char>) -> Seq<char> {
    before_char(before_char(url, '?'), '#')
}

/// A URL without its query and fragment.
pub fn path_of(url: &str) -> (r: String)
    ensures
        r@ == url_path(url@),
{
    before(before(url, '?').as_str(), '#')
}

/// An ASCII letter or digit.
pub open spec fn is_alnum(c: char) -> bool {
    ||| 'a' <= c && c <= 'z'
    ||| 'A' <= c && c <= 'Z'
    ||| '0' <= c && c <= '9'
}

/// A nonempty text of ASCII letters and digits.
pub open spec fn all_alnum(s: Seq<char>) -> bool {
    s.len() > 0 && forall|i: int| 0 <= i < s.len() ==> is_alnum(#[trigger] s[i])
}

/// The file name extension of a segment URL, or `ts`.
pub open spec fn extension_of(url: Seq<char>) -> Seq<char> {
    let name = after_last_char(url_path(url), '/');
    let ext = after_last_char(name, '.');
    if name.contains('.') && all_alnum(ext) {
        ext
    } else {
        "ts"@
    }
}

/// The file name extension of a segment URL, or `ts`.
pub fn segment_extension(url: &str) -> (r: String)
    ensures
        r@ == extension_of(url@),
{
    let name = after_last(path_of(url).as_str(), '/');
    let ext = after_last(name.as_str(), '.');
    if !has_char(name.as_str(), '.') {
        return "ts".to_owned();
    }
    let v = chars(ext.as_str());
    if v.len() == 0 {
        return "ts".to_owned();
    }
    let mut i: usize = 0;
    while i < v.len()
        invariant
            i <= v.len(),
            v@ == ext@,
            v@.len() > 0,
            ext@ == after_last_char(name@, '.'),
            name@ == after_last_char(url_path(url@), '/'),
            forall|j: int| 0 <= j < i ==> is_alnum(#[trigger] v@[j]),
        decreases v.len() - i,
    {
        let c = v[i];
        if !(('a' <= c && c <= 'z') || ('A' <= c && c <= 'Z') || ('0' <= c && c <= '9')) {
            assert(!is_alnum(ext@[i as int]));
            return "ts".to_owned();
        }
        i += 1;
    }
    ext
}

} // verus!
