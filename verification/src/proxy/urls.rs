//! Building the public URLs that lead through the proxy.

use vstd::prelude::*;

use crate::auth::encryption::{
    key_of, pairs_map, token_data, EncryptionHandler, ProxyData, ProxyDataView,
};
use crate::codec::{all_base64url, bytes_of, percent_encode, percent_encoded};
use crate::error::{AppError, AppErrorView, AppResult};
use crate::string_map::{pair_texts, Pairs, StringMap};
use crate::text::{
    before_char, begins, borrow_opt, chars, concat, join, join_texts, lemma_next_char, lowercase,
    next_char, opt_str, opt_text, same, starts_with, strip_prefix, strip_prefix_text, texts,
    trim_end_char, trim_end_of, trim_start_char, trim_start_of,
};
use crate::utils::base64_url::{
    decode_base64_url, decoded_url, encode_url_to_base64, encoded_url, is_base64_url, is_web_url,
};

verus! {

/// Request headers that belong to one request alone: written into a URL they
/// would override the player's own seek headers on playback.
pub open spec fn is_request_header(bare: Seq<char>) -> bool {
    bare == "range"@ || bare == "if-range"@
}

/// The headers of one request alone, under their lower case names.
pub fn supported_request_header(bare: &str) -> (r: bool)
    ensures
        r == is_request_header(bare@),
{
    same(bare, "range") || same(bare, "if-range")
}

/// A header name as it is compared: in lower case and without an `h_` prefix.
pub open spec fn bare_name(k: Seq<char>) -> Seq<char> {
    match strip_prefix_text(lowercase(k), "h_"@) {
        Some(rest) => rest,
        None => lowercase(k),
    }
}

/// A name with a prefix, unless it has it already.
pub open spec fn prefixed(prefix: Seq<char>, k: Seq<char>) -> Seq<char> {
    if starts_with(k, prefix) {
        k
    } else {
        prefix + k
    }
}

/// The URL parameters of a map: those with a value, each name with the prefix.
/// Where `steady` holds, headers of one request alone are left out.
pub open spec fn url_pairs(p: Pairs, prefix: Seq<char>, steady: bool) -> Pairs
    decreases p.len(),
{
    if p.len() == 0 {
        Seq::empty()
    } else {
        let rest = url_pairs(p.drop_last(), prefix, steady);
        let (k, v) = p.last();
        if v.len() == 0 || (steady && is_request_header(bare_name(k))) {
            rest
        } else {
            rest.push((prefixed(prefix, k), v))
        }
    }
}

/// Parameters as `name=value` texts, with the value in percent-encoding.
pub open spec fn query_parts(p: Pairs) -> Seq<Seq<char>> {
    Seq::new(p.len(), |i: int| p[i].0 + "="@ + percent_encoded(p[i].1))
}

/// What a proxy URL is built from.
pub struct UrlArgs {
    pub base: Seq<char>,
    pub endpoint: Option<Seq<char>>,
    pub destination: Seq<char>,
    pub query_params: Pairs,
    pub request_headers: Pairs,
    pub response_headers: Pairs,
    pub propagate_response_headers: Pairs,
    pub remove_response_headers: Seq<Seq<char>>,
    pub stream_transformer: Option<Seq<char>>,
    pub filename: Option<Seq<char>>,
    pub api_password: Option<Seq<char>>,
    pub exp: Option<u64>,
    pub ip: Option<Seq<char>>,
    pub base64_encode_destination: bool,
}

/// The public base URL without slashes at its end.
pub open spec fn trimmed_base(base: Seq<char>) -> Seq<char> {
    trim_end_char(base, '/')
}

/// The path of an endpoint, with one slash before it; empty where there is no
/// endpoint.
pub open spec fn endpoint_path(endpoint: Option<Seq<char>>) -> Seq<char> {
    match endpoint {
        Some(ep) => if ep.len() > 0 {
            "/"@ + trim_start_char(ep, '/')
        } else {
            Seq::empty()
        },
        None => Seq::empty(),
    }
}

/// A file name as the last path segment; nothing where there is none.
pub open spec fn filename_path(filename: Option<Seq<char>>) -> Seq<char> {
    match filename {
        Some(f) => "/"@ + percent_encoded(f),
        None => Seq::empty(),
    }
}

/// The parameters of a URL that is not encrypted.
pub open spec fn flat_params(a: UrlArgs) -> Pairs {
    let d = if a.base64_encode_destination {
        Seq::empty()
    } else {
        seq![("d"@, a.destination)]
    };
    let p = d + url_pairs(a.query_params, Seq::empty(), false) + url_pairs(
        a.request_headers,
        "h_"@,
        true,
    ) + url_pairs(a.response_headers, "r_"@, false) + url_pairs(
        a.propagate_response_headers,
        "rp_"@,
        false,
    );
    let q = if a.remove_response_headers.len() > 0 {
        p.push(("x_headers"@, join_texts(a.remove_response_headers, ","@)))
    } else {
        p
    };
    match a.stream_transformer {
        Some(t) => q.push(("transformer"@, t)),
        None => q,
    }
}

/// The URL that is not encrypted: the destination stands in the path, in
/// base64, or in the parameter `d`, behind a file name.
pub open spec fn flat_url(a: UrlArgs) -> Seq<char> {
    let start = trimmed_base(a.base) + endpoint_path(a.endpoint);
    let path = if a.base64_encode_destination {
        start + "/"@ + encoded_url(a.destination)
    } else {
        start + filename_path(a.filename)
    };
    if flat_params(a).len() == 0 {
        path
    } else {
        path + "?"@ + join_texts(query_parts(flat_params(a)), "&"@)
    }
}

/// The data that the token of an encrypted URL carries.
pub open spec fn url_data(a: UrlArgs) -> ProxyDataView {
    ProxyDataView {
        destination: a.destination,
        query_params: Some(pairs_map(a.query_params)),
        request_headers: Some(pairs_map(a.request_headers)),
        response_headers: Some(pairs_map(a.response_headers)),
        exp: a.exp,
        ip: a.ip,
    }
}

/// The URL with a given token: the token stands between the base and the
/// endpoint's path.
pub open spec fn token_url(a: UrlArgs, token: Seq<char>) -> Seq<char> {
    trimmed_base(a.base) + "/_token_"@ + token + endpoint_path(a.endpoint) + filename_path(
        a.filename,
    )
}

/// A token under a password that carries the data of the arguments.
pub open spec fn carries(password: Seq<char>, token: Seq<char>, a: UrlArgs) -> bool {
    &&& all_base64url(token)
    &&& token_data(key_of(vstd::utf8::encode_utf8(password)), token) == Some(url_data(a))
}

/// `url` is a proxy URL for the arguments: with a password, one whose token
/// carries them; without one, the flat URL.
pub open spec fn is_proxy_url(a: UrlArgs, url: Seq<char>) -> bool {
    if a.api_password matches Some(p) && p.len() > 0 {
        exists|token: Seq<char>| #[trigger]
            carries(a.api_password->0, token, a) && url == token_url(a, token)
    } else {
        url == flat_url(a)
    }
}

/// Appends the URL parameters of a map.
fn push_pairs(params: &mut Vec<(String, String)>, m: &StringMap, prefix: &str, steady: bool)
    ensures
        pair_texts(final(params)@) == pair_texts(old(params)@) + url_pairs(m@, prefix@, steady),
{
    let mut i: usize = 0;
    let ghost start = pair_texts(params@);
    assert(start + url_pairs(m@.take(0), prefix@, steady) =~= start);
    let n: usize = m.len();
    while i < n
        invariant
            i <= n,
            n == m@.len(),
            start == pair_texts(old(params)@),
            pair_texts(params@) == start + url_pairs(m@.take(i as int), prefix@, steady),
        decreases n - i,
    {
        let k = m.key_at(i);
        let v = m.value_at(i);
        assert(m@.take(i + 1).drop_last() =~= m@.take(i as int));
        assert(m@.take(i + 1).last() == (k@, v@));
        let lower = k.to_lowercase();
        let bare = match strip_prefix(lower.as_str(), "h_") {
            Some(rest) => rest,
            None => lower,
        };
        if chars(v).len() > 0 && !(steady && supported_request_header(bare.as_str())) {
            let ghost before = pair_texts(params@);
            let name = if begins(k, prefix) {
                k.to_owned()
            } else {
                concat(prefix, k)
            };
            let ghost pair = (name@, v@);
            params.push((name, v.to_owned()));
            assert(pair_texts(params@) =~= before.push(pair));
            assert(before.push(pair) =~= start + url_pairs(m@.take(i as int), prefix@, steady).push(
                pair,
            ));
        }
        i += 1;
    }
    assert(m@.take(n as int) =~= m@);
}

/// The query text of a list of parameters.
fn query_text(params: &Vec<(String, String)>) -> (r: String)
    ensures
        r@ == join_texts(query_parts(pair_texts(params@)), "&"@),
{
    let mut parts: Vec<String> = Vec::new();
    let mut i: usize = 0;
    while i < params.len()
        invariant
            i <= params.len(),
            texts(parts@) == query_parts(pair_texts(params@)).take(i as int),
        decreases params.len() - i,
    {
        let mut part = params[i].0.clone();
        part.push_str("=");
        part.push_str(percent_encode(params[i].1.as_str()).as_str());
        let ghost before = texts(parts@);
        let ghost text = part@;
        parts.push(part);
        i += 1;
        assert(texts(parts@) =~= before.push(text));
        assert(query_parts(pair_texts(params@)).take(i as int) =~= before.push(text));
    }
    assert(query_parts(pair_texts(params@)).take(i as int) =~= query_parts(pair_texts(params@)));
    join(&parts, "&")
}

/// The views of a build request's arguments.
pub open spec fn url_args(
    mediaflow_proxy_url: &str,
    endpoint: Option<&str>,
    destination_url: &str,
    query_params: &StringMap,
    request_headers: &StringMap,
    response_headers: &StringMap,
    propagate_response_headers: &StringMap,
    remove_response_headers: &Vec<String>,
    stream_transformer: Option<&str>,
    filename: Option<&str>,
    api_password: Option<&str>,
    expiration: Option<u64>,
    ip: Option<&str>,
    base64_encode_destination: bool,
    now: u64,
) -> UrlArgs {
    UrlArgs {
        base: mediaflow_proxy_url@,
        endpoint: opt_str(endpoint),
        destination: destination_url@,
        query_params: query_params@,
        request_headers: request_headers@,
        response_headers: response_headers@,
        propagate_response_headers: propagate_response_headers@,
        remove_response_headers: texts(remove_response_headers@),
        stream_transformer: opt_str(stream_transformer),
        filename: opt_str(filename),
        api_password: opt_str(api_password),
        exp: expiry(expiration, now),
        ip: opt_str(ip),
        base64_encode_destination,
    }
}

/// Builds the public URL that leads to a destination through the proxy.
///
/// With a password the destination, the parameters and the headers go into an
/// encrypted token in the path, which expires `expiration` seconds after
/// `now`. Without one they are plain query parameters, and with
/// `base64_encode_destination` the destination is a base64 path segment.
#[allow(clippy::too_many_arguments)]
pub fn build_proxy_url(
    mediaflow_proxy_url: &str,
    endpoint: Option<&str>,
    destination_url: &str,
    query_params: &StringMap,
    request_headers: &StringMap,
    response_headers: &StringMap,
    propagate_response_headers: &StringMap,
    remove_response_headers: &Vec<String>,
    stream_transformer: Option<&str>,
    filename: Option<&str>,
    api_password: Option<&str>,
    expiration: Option<u64>,
    ip: Option<&str>,
    base64_encode_destination: bool,
    now: u64,
) -> (r: AppResult<String>)
    requires
        expiration matches Some(e) ==> now + e <= u64::MAX,
    ensures
        r matches Ok(url) && is_proxy_url(
            url_args(
                mediaflow_proxy_url,
                endpoint,
                destination_url,
                query_params,
                request_headers,
                response_headers,
                propagate_response_headers,
                remove_response_headers,
                stream_transformer,
                filename,
                api_password,
                expiration,
                ip,
                base64_encode_destination,
                now,
            ),
            url@,
        ),
{
    let ghost a = url_args(
        mediaflow_proxy_url,
        endpoint,
        destination_url,
        query_params,
        request_headers,
        response_headers,
        propagate_response_headers,
        remove_response_headers,
        stream_transformer,
        filename,
        api_password,
        expiration,
        ip,
        base64_encode_destination,
        now,
    );
    let base = trim_end_of(mediaflow_proxy_url, '/');
    let path = match endpoint {
        Some(ep) => if chars(ep).len() > 0 {
            concat("/", trim_start_of(ep, '/').as_str())
        } else {
            String::new()
        },
        None => String::new(),
    };
    assert(path@ =~= endpoint_path(a.endpoint));
    if let Some(password) = api_password {
        if chars(password).len() > 0 {
            let secret = bytes_of(password);
            assert(secret@.len() > 0) by {
                vstd::utf8::encode_utf8_decode_utf8(password@);
                if secret@.len() == 0 {
                    assert(secret@ =~= vstd::utf8::encode_utf8(Seq::empty()));
                    vstd::utf8::encode_utf8_decode_utf8(Seq::empty());
                }
            }
            let handler = match EncryptionHandler::new(secret.as_slice()) {
                Ok(h) => h,
                Err(e) => {
                    return Err(e);
                },
            };
            let data = ProxyData {
                destination: destination_url.to_owned(),
                query_params: Some(query_params.clone()),
                request_headers: Some(request_headers.clone()),
                response_headers: Some(response_headers.clone()),
                exp: match expiration {
                    Some(e) => Some(now + e),
                    None => None,
                },
                ip: match ip {
                    Some(s) => Some(s.to_owned()),
                    None => None,
                },
            };
            assert(data@ == url_data(a));
            let token = match handler.encrypt(&data) {
                Ok(t) => t,
                Err(e) => {
                    return Err(e);
                },
            };
            assert(carries(password@, token@, a));
            let mut url = base;
            url.push_str("/_token_");
            url.push_str(token.as_str());
            url.push_str(path.as_str());
            if let Some(f) = filename {
                url.push_str("/");
                url.push_str(percent_encode(f).as_str());
            }
            assert(url@ =~= token_url(a, token@));
            return Ok(url);
        }
    }
    let mut url = base;
    url.push_str(path.as_str());
    let mut params: Vec<(String, String)> = Vec::new();
    if base64_encode_destination {
        url.push_str("/");
        url.push_str(encode_url_to_base64(destination_url).as_str());
        assert(pair_texts(params@) =~= Seq::empty());
    } else {
        if let Some(f) = filename {
            url.push_str("/");
            url.push_str(percent_encode(f).as_str());
        }
        params.push(("d".to_owned(), destination_url.to_owned()));
        assert(pair_texts(params@) =~= seq![("d"@, a.destination)]);
        assert(url@ =~= trimmed_base(a.base) + endpoint_path(a.endpoint) + filename_path(
            a.filename,
        ));
    }
    let ghost start = url@;
    push_pairs(&mut params, query_params, "", false);
    push_pairs(&mut params, request_headers, "h_", true);
    push_pairs(&mut params, response_headers, "r_", false);
    push_pairs(&mut params, propagate_response_headers, "rp_", false);
    proof {
        reveal_strlit("");
        assert(""@ =~= Seq::<char>::empty());
    }
    if remove_response_headers.len() > 0 {
        let ghost before = pair_texts(params@);
        params.push(("x_headers".to_owned(), join(remove_response_headers, ",")));
        assert(pair_texts(params@) =~= before.push(
            ("x_headers"@, join_texts(a.remove_response_headers, ","@)),
        ));
    }
    if let Some(t) = stream_transformer {
        let ghost before = pair_texts(params@);
        params.push(("transformer".to_owned(), t.to_owned()));
        assert(pair_texts(params@) =~= before.push(("transformer"@, t@)));
    }
    assert(pair_texts(params@) == flat_params(a));
    if params.len() > 0 {
        url.push_str("?");
        url.push_str(query_text(&params).as_str());
    }
    assert(url@ == flat_url(a));
    Ok(url)
}

/// A proxy URL begins with the public base URL, path prefix included.
pub proof fn law_proxy_url_keeps_base(a: UrlArgs, url: Seq<char>)
    requires
        is_proxy_url(a, url),
    ensures
        starts_with(url, trimmed_base(a.base)),
{
    let b = trimmed_base(a.base);
    if a.api_password matches Some(p) && p.len() > 0 {
        let token = choose|token: Seq<char>| #[trigger]
            carries(a.api_password->0, token, a) && url == token_url(a, token);
        assert(url.subrange(0, b.len() as int) =~= b);
    } else {
        assert(url.subrange(0, b.len() as int) =~= b);
    }
}

/// Every header parameter of a flat URL comes from a header that has a value
/// and does not belong to one request alone.
pub proof fn law_no_request_headers(p: Pairs, prefix: Seq<char>, i: int)
    requires
        0 <= i < url_pairs(p, prefix, true).len(),
    ensures
        exists|j: int|
            0 <= j < p.len() && !is_request_header(bare_name((#[trigger] p[j]).0)) && p[j].1.len()
                > 0 && url_pairs(p, prefix, true)[i] == (prefixed(prefix, p[j].0), p[j].1),
    decreases p.len(),
{
    let rest = url_pairs(p.drop_last(), prefix, true);
    if i < rest.len() {
        law_no_request_headers(p.drop_last(), prefix, i);
        let j = choose|j: int|
            0 <= j < p.drop_last().len() && !is_request_header(
                bare_name((#[trigger] p.drop_last()[j]).0),
            ) && p.drop_last()[j].1.len() > 0 && rest[i] == (
                prefixed(prefix, p.drop_last()[j].0),
                p.drop_last()[j].1,
            );
        assert(p[j] == p.drop_last()[j]);
    } else {
        let j = p.len() - 1;
        assert(p[j] == p.last());
    }
}

/// The token of an encrypted URL can be cut out of it: it is what stands
/// between the marker behind the base and the next slash.
pub proof fn law_token_can_be_cut_out(password: Seq<char>, token: Seq<char>, a: UrlArgs)
    requires
        carries(password, token, a),
    ensures
        before_char(
            token_url(a, token).skip((trimmed_base(a.base).len() + "/_token_"@.len()) as int),
            '/',
        ) == token,
{
    let start = trimmed_base(a.base) + "/_token_"@;
    let tail = endpoint_path(a.endpoint) + filename_path(a.filename);
    let rest = token_url(a, token).skip(start.len() as int);
    assert(token_url(a, token) =~= start + token + tail);
    assert(rest =~= token + tail);
    assert(tail.len() > 0 ==> tail[0] == '/') by {
        reveal_strlit("/");
    }
    lemma_next_char(rest, '/', 0);
    let n = next_char(rest, '/', 0);
    if n < token.len() {
        assert(rest[n] == token[n]);
        assert(crate::codec::is_base64url_char(token[n]));
    }
    if n > token.len() {
        assert(rest[token.len() as int] == tail[0]);
    }
    assert(rest.subrange(0, n) =~= token);
}

/// A request for one proxy URL.
pub struct GenerateUrlRequest {
    pub mediaflow_proxy_url: String,
    pub endpoint: Option<String>,
    pub destination_url: String,
    pub query_params: StringMap,
    pub request_headers: StringMap,
    pub response_headers: StringMap,
    pub propagate_response_headers: StringMap,
    pub remove_response_headers: Vec<String>,
    pub stream_transformer: Option<String>,
    pub filename: Option<String>,
    pub api_password: Option<String>,
    pub expiration: Option<u64>,
    pub ip: Option<String>,
    pub base64_encode_destination: bool,
}

/// One of several URLs to build.
pub struct MultiUrlRequestItem {
    pub endpoint: Option<String>,
    pub destination_url: String,
    pub query_params: StringMap,
    pub request_headers: StringMap,
    pub response_headers: StringMap,
    pub propagate_response_headers: StringMap,
    pub remove_response_headers: Vec<String>,
    pub stream_transformer: Option<String>,
    pub filename: Option<String>,
    pub base64_encode_destination: bool,
}

/// A request for several proxy URLs that share a base and a password.
pub struct GenerateMultiUrlRequest {
    pub mediaflow_proxy_url: String,
    pub api_password: Option<String>,
    pub expiration: Option<u64>,
    pub ip: Option<String>,
    pub urls: Vec<MultiUrlRequestItem>,
}

/// The absolute expiry of a relative one.
pub open spec fn expiry(expiration: Option<u64>, now: u64) -> Option<u64> {
    match expiration {
        Some(e) => Some((now + e) as u64),
        None => None,
    }
}

impl GenerateUrlRequest {
    /// What the URL is built from.
    pub open spec fn args(&self, now: u64) -> UrlArgs {
        UrlArgs {
            base: self.mediaflow_proxy_url@,
            endpoint: opt_text(self.endpoint),
            destination: self.destination_url@,
            query_params: self.query_params@,
            request_headers: self.request_headers@,
            response_headers: self.response_headers@,
            propagate_response_headers: self.propagate_response_headers@,
            remove_response_headers: texts(self.remove_response_headers@),
            stream_transformer: opt_text(self.stream_transformer),
            filename: opt_text(self.filename),
            api_password: opt_text(self.api_password),
            exp: expiry(self.expiration, now),
            ip: opt_text(self.ip),
            base64_encode_destination: self.base64_encode_destination,
        }
    }
}

impl GenerateMultiUrlRequest {
    /// What the URL of one item is built from.
    pub open spec fn args(&self, item: MultiUrlRequestItem, now: u64) -> UrlArgs {
        UrlArgs {
            base: self.mediaflow_proxy_url@,
            endpoint: opt_text(item.endpoint),
            destination: item.destination_url@,
            query_params: item.query_params@,
            request_headers: item.request_headers@,
            response_headers: item.response_headers@,
            propagate_response_headers: item.propagate_response_headers@,
            remove_response_headers: texts(item.remove_response_headers@),
            stream_transformer: opt_text(item.stream_transformer),
            filename: opt_text(item.filename),
            api_password: opt_text(self.api_password),
            exp: expiry(self.expiration, now),
            ip: opt_text(self.ip),
            base64_encode_destination: item.base64_encode_destination,
        }
    }
}

/// Builds the URL of a request.
pub fn generate_url(req: &GenerateUrlRequest, now: u64) -> (r: AppResult<String>)
    requires
        req.expiration matches Some(e) ==> now + e <= u64::MAX,
    ensures
        r matches Ok(url) && is_proxy_url(req.args(now), url@),
{
    build_proxy_url(
        req.mediaflow_proxy_url.as_str(),
        borrow_opt(&req.endpoint),
        req.destination_url.as_str(),
        &req.query_params,
        &req.request_headers,
        &req.response_headers,
        &req.propagate_response_headers,
        &req.remove_response_headers,
        borrow_opt(&req.stream_transformer),
        borrow_opt(&req.filename),
        borrow_opt(&req.api_password),
        req.expiration,
        borrow_opt(&req.ip),
        req.base64_encode_destination,
        now,
    )
}

/// Builds the URLs of a request, one for each item and in the same order.
pub fn generate_urls(req: &GenerateMultiUrlRequest, now: u64) -> (r: AppResult<Vec<String>>)
    requires
        req.expiration matches Some(e) ==> now + e <= u64::MAX,
    ensures
        r matches Ok(urls) && urls@.len() == req.urls@.len() && forall|i: int|
            0 <= i < urls@.len() ==> is_proxy_url(
                req.args(req.urls@[i], now),
                (#[trigger] urls@[i])@,
            ),
{
    let mut urls: Vec<String> = Vec::new();
    let mut i: usize = 0;
    while i < req.urls.len()
        invariant
            i <= req.urls.len(),
            urls@.len() == i,
            req.expiration matches Some(e) ==> now + e <= u64::MAX,
            forall|j: int|
                0 <= j < i ==> is_proxy_url(req.args(req.urls@[j], now), (#[trigger] urls@[j])@),
        decreases req.urls.len() - i,
    {
        let item = &req.urls[i];
        match build_proxy_url(
            req.mediaflow_proxy_url.as_str(),
            borrow_opt(&item.endpoint),
            item.destination_url.as_str(),
            &item.query_params,
            &item.request_headers,
            &item.response_headers,
            &item.propagate_response_headers,
            &item.remove_response_headers,
            borrow_opt(&item.stream_transformer),
            borrow_opt(&item.filename),
            borrow_opt(&req.api_password),
            req.expiration,
            borrow_opt(&req.ip),
            item.base64_encode_destination,
            now,
        ) {
            Ok(url) => {
                urls.push(url);
            },
            Err(e) => {
                return Err(e);
            },
        }
        i += 1;
    }
    Ok(urls)
}

/// The parameters of the base64 endpoints.
pub struct Base64Query {
    pub url: Option<String>,
    pub encoded_url: Option<String>,
}

/// Encodes the `url` parameter. The result is the encoded URL.
pub fn base64_encode(query: &Base64Query) -> (r: AppResult<String>)
    ensures
        match r {
            Ok(t) => query.url matches Some(u) && t@ == encoded_url(u@) && (is_web_url(u@)
                ==> decoded_url(t@) == Some(u@)),
            Err(e) => query.url is None && e@ == AppErrorView::BadRequest(
                "missing `url` query param"@,
            ),
        },
{
    match &query.url {
        Some(u) => Ok(encode_url_to_base64(u.as_str())),
        None => Err(AppError::BadRequest("missing `url` query param".to_owned())),
    }
}

/// Decodes the `encoded_url` parameter.
pub fn base64_decode(query: &Base64Query) -> (r: AppResult<String>)
    ensures
        match r {
            Ok(t) => query.encoded_url matches Some(u) && decoded_url(u@) == Some(t@),
            Err(e) => match query.encoded_url {
                None => e@ == AppErrorView::BadRequest("missing `encoded_url` query param"@),
                Some(u) => decoded_url(u@) is None && e@ == AppErrorView::BadRequest(
                    "invalid base64 URL"@,
                ),
            },
        },
{
    match &query.encoded_url {
        None => Err(AppError::BadRequest("missing `encoded_url` query param".to_owned())),
        Some(u) => match decode_base64_url(u.as_str()) {
            Some(t) => Ok(t),
            None => Err(AppError::BadRequest("invalid base64 URL".to_owned())),
        },
    }
}

/// Whether the `url` parameter is a web URL in base64, and if so which.
pub fn base64_check(query: &Base64Query) -> (r: AppResult<Option<String>>)
    ensures
        match r {
            Ok(t) => query.url matches Some(u) && opt_text(t) == decoded_url(u@),
            Err(e) => query.url is None && e@ == AppErrorView::BadRequest(
                "missing `url` query param"@,
            ),
        },
{
    match &query.url {
        Some(u) => if is_base64_url(u.as_str()) {
            Ok(decode_base64_url(u.as_str()))
        } else {
            Ok(None)
        },
        None => Err(AppError::BadRequest("missing `url` query param".to_owned())),
    }
}

} // verus!
