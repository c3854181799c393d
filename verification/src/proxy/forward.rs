//! The rules of the forward endpoint.

use vstd::prelude::*;

use crate::auth::encryption::ProxyData;
use crate::codec::{bytes_of, json_string, json_string_at};
use crate::config::ForwardConfig;
use crate::error::{AppError, AppErrorView, AppResult};
use crate::hls::handler::carried_headers;
use crate::proxy::handler::{decode_destination, missing_destination, plain_destination};
use crate::string_map::{pair_texts, Pairs, StringMap};
use crate::text::{
    chars, concat, contains, find_from, holds, lemma_contains_find, lemma_find_from, lowercase,
    matches_at, opt_text, replace, replace_from, replace_text, same, trim, trim_text,
};
use crate::utils::url::{parse_url, parsed_url};

verus! {

// ---------------------------------------------------------------------------
// Destinations
// ---------------------------------------------------------------------------

/// An IPv4 address that is loopback, multicast, private, link-local or
/// unspecified.
pub open spec fn is_inner_v4(a: Seq<u8>) -> bool {
    ||| a[0] == 127
    ||| 224 <= a[0] <= 239
    ||| a[0] == 10
    ||| (a[0] == 172 && 16 <= a[1] <= 31)
    ||| (a[0] == 192 && a[1] == 168)
    ||| (a[0] == 169 && a[1] == 254)
    ||| (a[0] == 0 && a[1] == 0 && a[2] == 0 && a[3] == 0)
}

/// The first fifteen octets are zero.
pub open spec fn zero_head(a: Seq<u8>) -> bool {
    forall|i: int| 0 <= i < 15 ==> #[trigger] a[i] == 0
}

/// An IPv6 address that is loopback (`::1`), multicast (`ff00::/8`), unique
/// local (`fc00::/7`), link-local (`fe80::/10`) or unspecified (`::`).
pub open spec fn is_inner_v6(a: Seq<u8>) -> bool {
    ||| (zero_head(a) && (a[15] == 0 || a[15] == 1))
    ||| a[0] == 255
    ||| 252 <= a[0] <= 253
    ||| (a[0] == 254 && 128 <= a[1] <= 191)
}

/// An address that requests may not be forwarded to.
pub open spec fn is_inner_address(a: Seq<u8>) -> bool {
    if a.len() == 4 {
        is_inner_v4(a)
    } else {
        is_inner_v6(a)
    }
}

/// Whether requests may not be forwarded to an address.
pub fn is_inner_ip(a: &Vec<u8>) -> (r: bool)
    requires
        a@.len() == 4 || a@.len() == 16,
    ensures
        r == is_inner_address(a@),
{
    if a.len() == 4 {
        return a[0] == 127 || (224 <= a[0] && a[0] <= 239) || a[0] == 10 || (a[0] == 172 && 16
            <= a[1] && a[1] <= 31) || (a[0] == 192 && a[1] == 168) || (a[0] == 169 && a[1] == 254)
            || (a[0] == 0 && a[1] == 0 && a[2] == 0 && a[3] == 0);
    }
    let mut zero: bool = true;
    let mut i: usize = 0;
    while i < 15
        invariant
            i <= 15,
            a@.len() == 16,
            zero == forall|j: int| 0 <= j < i ==> #[trigger] a@[j] == 0,
        decreases 15 - i,
    {
        if a[i] != 0 {
            zero = false;
        }
        i += 1;
    }
    (zero && (a[15] == 0 || a[15] == 1)) || a[0] == 255 || (252 <= a[0] && a[0] <= 253) || (a[0]
        == 254 && 128 <= a[1] && a[1] <= 191)
}

/// A host is in a list of hosts, letter case aside.
pub open spec fn lists_host(hosts: Seq<String>, host: Seq<char>) -> bool {
    exists|i: int| 0 <= i < hosts.len() && lowercase((#[trigger] hosts[i])@) == host
}

/// Whether a host is in a list of hosts.
fn host_listed(hosts: &Vec<String>, host: &str) -> (r: bool)
    ensures
        r == lists_host(hosts@, host@),
{
    let mut i: usize = 0;
    while i < hosts.len()
        invariant
            i <= hosts.len(),
            forall|j: int| 0 <= j < i ==> lowercase((#[trigger] hosts@[j])@) != host@,
        decreases hosts.len() - i,
    {
        if same(hosts[i].to_lowercase().as_str(), host) {
            assert(lowercase(hosts@[i as int]@) == host@);
            return true;
        }
        i += 1;
    }
    false
}

/// A name of the machine itself.
pub open spec fn is_local_name(host: Seq<char>) -> bool {
    host == "localhost"@ || host == "ip6-localhost"@ || host == "ip6-loopback"@
}

/// The host of a URL, in lower case; empty where it has none.
pub open spec fn lower_host(host: Option<Seq<char>>) -> Seq<char> {
    match host {
        Some(h) => lowercase(h),
        None => lowercase(Seq::empty()),
    }
}

/// Why a request is not forwarded to a URL, where it is not: what is no web URL
/// with a host, what is not on the list of allowed hosts where there is one,
/// what is on that of denied hosts, and what names the machine itself or an
/// inner address.
pub open spec fn forward_refusal(url: Seq<char>, cfg: ForwardConfig) -> Option<AppErrorView> {
    match parsed_url(url) {
        Err(_) => Some(AppErrorView::BadRequest("Invalid destination URL: "@ + url)),
        Ok(parts) => {
            let host = lower_host(parts.host);
            if parts.scheme != "http"@ && parts.scheme != "https"@ {
                Some(
                    AppErrorView::BadRequest(
                        "Invalid URL scheme '"@ + parts.scheme
                            + "'. Only http and https are allowed."@,
                    ),
                )
            } else if host.len() == 0 {
                Some(AppErrorView::BadRequest("Invalid destination URL: no hostname"@))
            } else if cfg.allowed_hosts@.len() > 0 && !lists_host(cfg.allowed_hosts@, host) {
                Some(
                    AppErrorView::Forbidden(
                        "Host '"@ + host + "' is not in forward_allowed_hosts"@,
                    ),
                )
            } else if lists_host(cfg.denied_hosts@, host) {
                Some(AppErrorView::Forbidden("Host '"@ + host + "' is denied"@))
            } else if is_local_name(host) {
                Some(AppErrorView::Forbidden("Forwarding to localhost is not allowed"@))
            } else if parts.address matches Some(a) && is_inner_address(a) {
                Some(
                    AppErrorView::Forbidden(
                        "Forwarding to private/loopback addresses is not allowed"@,
                    ),
                )
            } else {
                None
            }
        },
    }
}

/// The guard against inner addresses and the machine itself is always active,
/// whatever hosts are configured.
pub proof fn law_guard_is_always_active(url: Seq<char>, cfg: ForwardConfig)
    requires
        parsed_url(url) matches Ok(parts) && ((parts.address matches Some(a) && is_inner_address(
            a,
        )) || is_local_name(lower_host(parts.host))),
    ensures
        forward_refusal(url, cfg) is Some,
{
}

/// Three texts one after the other.
fn concat3(a: &str, b: &str, c: &str) -> (r: String)
    ensures
        r@ == a@ + b@ + c@,
{
    let mut r = concat(a, b);
    r.push_str(c);
    r
}

/// Whether requests may be forwarded to a URL, and if not why.
pub fn check_forward_destination(url: &str, cfg: &ForwardConfig) -> (r: AppResult<()>)
    ensures
        match r {
            Ok(_) => forward_refusal(url@, *cfg) is None,
            Err(e) => forward_refusal(url@, *cfg) == Some(e@),
        },
{
    let parsed = match parse_url(url) {
        Ok(u) => u,
        Err(_) => {
            return Err(AppError::BadRequest(concat("Invalid destination URL: ", url)));
        },
    };
    let scheme = parsed.scheme.as_str();
    if !same(scheme, "http") && !same(scheme, "https") {
        return Err(
            AppError::BadRequest(
                concat3("Invalid URL scheme '", scheme, "'. Only http and https are allowed."),
            ),
        );
    }
    let host = match &parsed.host {
        Some(h) => h.to_lowercase(),
        None => {
            proof {
                reveal_strlit("");
                assert(""@ =~= Seq::<char>::empty());
            }
            "".to_lowercase()
        },
    };
    let host = host.as_str();
    if chars(host).len() == 0 {
        return Err(AppError::BadRequest("Invalid destination URL: no hostname".to_owned()));
    }
    if cfg.allowed_hosts.len() > 0 && !host_listed(&cfg.allowed_hosts, host) {
        return Err(
            AppError::Forbidden(concat3("Host '", host, "' is not in forward_allowed_hosts")),
        );
    }
    if host_listed(&cfg.denied_hosts, host) {
        return Err(AppError::Forbidden(concat3("Host '", host, "' is denied")));
    }
    if same(host, "localhost") || same(host, "ip6-localhost") || same(host, "ip6-loopback") {
        return Err(AppError::Forbidden("Forwarding to localhost is not allowed".to_owned()));
    }
    if let Some(a) = &parsed.address {
        if is_inner_ip(a) {
            return Err(
                AppError::Forbidden(
                    "Forwarding to private/loopback addresses is not allowed".to_owned(),
                ),
            );
        }
    }
    Ok(())
}

// ---------------------------------------------------------------------------
// The placeholder of the public address
// ---------------------------------------------------------------------------

/// The bytes of the placeholder.
pub open spec fn placeholder_bytes() -> Seq<u8> {
    vstd::utf8::encode_utf8("{mediaflow_ip}"@)
}

/// A body with the placeholder replaced by the public address.
pub open spec fn substituted_body(body: Seq<u8>, ip: Seq<char>) -> Seq<u8> {
    replace_from(body, placeholder_bytes(), vstd::utf8::encode_utf8(ip), 0)
}

/// Whether `p` stands in `v` at `i`.
fn bytes_match(v: &Vec<u8>, p: &Vec<u8>, i: usize) -> (r: bool)
    requires
        i <= v.len(),
    ensures
        r == matches_at(v@, p@, i as int),
{
    if p.len() > v.len() - i {
        return false;
    }
    let mut k: usize = 0;
    while k < p.len()
        invariant
            k <= p.len(),
            i + p.len() <= v.len(),
            forall|j: int| 0 <= j < k ==> v@[i + j] == p@[j],
        decreases p.len() - k,
    {
        if v[i + k] != p[k] {
            assert(v@.subrange(i as int, i + p@.len())[k as int] != p@[k as int]);
            return false;
        }
        k += 1;
    }
    assert(v@.subrange(i as int, i + p@.len()) =~= p@);
    true
}

/// One more byte before the next match.
proof fn lemma_replace_step(s: Seq<u8>, p: Seq<u8>, by: Seq<u8>, i: int)
    requires
        0 <= i < s.len(),
        p.len() > 0,
        !matches_at(s, p, i),
    ensures
        replace_from(s, p, by, i) == seq![s[i]] + replace_from(s, p, by, i + 1),
{
    lemma_find_from(s, p, i);
    lemma_find_from(s, p, i + 1);
    let j = find_from(s, p, i);
    assert(j == find_from(s, p, i + 1)) by {
        if i + p.len() > s.len() {
            assert(find_from(s, p, i + 1) is None);
        }
    }
    match j {
        None => {
            assert(s.subrange(i, s.len() as int) =~= seq![s[i]] + s.subrange(
                i + 1,
                s.len() as int,
            ));
        },
        Some(j) => {
            assert(s.subrange(i, j) =~= seq![s[i]] + s.subrange(i + 1, j));
            assert(replace_from(s, p, by, i) =~= seq![s[i]] + replace_from(s, p, by, i + 1));
        },
    }
}

/// The placeholder is not empty.
proof fn lemma_placeholder()
    ensures
        placeholder_bytes().len() > 0,
{
    reveal_strlit("{mediaflow_ip}");
    let t = "{mediaflow_ip}"@;
    vstd::utf8::encode_utf8_decode_utf8(t);
    if placeholder_bytes().len() == 0 {
        assert(placeholder_bytes() =~= vstd::utf8::encode_utf8(Seq::empty()));
        vstd::utf8::encode_utf8_decode_utf8(Seq::empty());
    }
}

/// Replaces the placeholder in a body, byte by byte, so that binary payloads
/// stay as they are.
pub fn substitute_body(body: &Vec<u8>, ip: &str) -> (r: Vec<u8>)
    ensures
        r@ == substituted_body(body@, ip@),
{
    let needle = bytes_of("{mediaflow_ip}");
    let replacement = bytes_of(ip);
    proof {
        lemma_placeholder();
    }
    let ghost p = placeholder_bytes();
    let ghost by = vstd::utf8::encode_utf8(ip@);
    let mut out: Vec<u8> = Vec::new();
    let mut i: usize = 0;
    while i < body.len()
        invariant
            i <= body.len(),
            needle@ == p,
            p.len() > 0,
            replacement@ == by,
            out@ + replace_from(body@, p, by, i as int) == replace_from(body@, p, by, 0),
        decreases body.len() - i,
    {
        let ghost before = out@;
        if bytes_match(body, &needle, i) {
            proof {
                lemma_find_from(body@, p, i as int);
                assert(body@.subrange(i as int, i as int) =~= Seq::<u8>::empty());
                assert(before + replace_from(body@, p, by, i as int) =~= (before + by)
                    + replace_from(body@, p, by, i + p.len()));
            }
            out.extend_from_slice(replacement.as_slice());
            assert(out@ =~= before + by);
            i += needle.len();
        } else {
            proof {
                lemma_replace_step(body@, p, by, i as int);
            }
            out.push(body[i]);
            i += 1;
            assert(out@ + replace_from(body@, p, by, i as int) =~= before + replace_from(
                body@,
                p,
                by,
                i - 1,
            ));
        }
    }
    proof {
        lemma_find_from(body@, p, i as int);
        assert(find_from(body@, p, i as int) is None);
        assert(body@.subrange(i as int, i as int) =~= Seq::<u8>::empty());
        assert(out@ + Seq::<u8>::empty() =~= out@);
    }
    out
}

/// A URL with the placeholder replaced by the public address.
pub fn substitute_destination(destination: &str, ip: &str) -> (r: String)
    ensures
        r@ == replace_text(destination@, "{mediaflow_ip}"@, ip@),
{
    proof {
        reveal_strlit("{mediaflow_ip}");
    }
    replace(destination, "{mediaflow_ip}", ip)
}

/// A body without the placeholder stays as it is.
pub proof fn law_substitution_keeps_other_bodies(body: Seq<u8>, ip: Seq<char>)
    requires
        !contains(body, placeholder_bytes()),
    ensures
        substituted_body(body, ip) == body,
{
    lemma_placeholder();
    lemma_contains_find(body, placeholder_bytes());
    assert(body.subrange(0, body.len() as int) =~= body);
}

// ---------------------------------------------------------------------------
// Headers
// ---------------------------------------------------------------------------

/// Headers that would disclose the caller's address.
pub open spec fn is_ip_disclosure(name: Seq<char>) -> bool {
    ||| name == "x-forwarded-for"@
    ||| name == "x-real-ip"@
    ||| name == "x-client-ip"@
    ||| name == "true-client-ip"@
    ||| name == "forwarded"@
    ||| name == "cf-connecting-ip"@
    ||| name == "x-original-forwarded-for"@
    ||| name == "x-cluster-client-ip"@
}

/// Headers of a single connection.
pub open spec fn is_hop_by_hop(name: Seq<char>) -> bool {
    ||| name == "connection"@
    ||| name == "keep-alive"@
    ||| name == "proxy-authenticate"@
    ||| name == "proxy-authorization"@
    ||| name == "te"@
    ||| name == "trailers"@
    ||| name == "transfer-encoding"@
    ||| name == "upgrade"@
}

/// Headers that callers may not set.
pub open spec fn is_blocked(name: Seq<char>) -> bool {
    ||| name == "host"@
    ||| name == "content-length"@
    ||| name == "transfer-encoding"@
    ||| name == "content-encoding"@
}

/// Whether a header would disclose the caller's address.
fn ip_disclosure(name: &str) -> (r: bool)
    ensures
        r == is_ip_disclosure(name@),
{
    same(name, "x-forwarded-for") || same(name, "x-real-ip") || same(name, "x-client-ip") || same(
        name,
        "true-client-ip",
    ) || same(name, "forwarded") || same(name, "cf-connecting-ip") || same(
        name,
        "x-original-forwarded-for",
    ) || same(name, "x-cluster-client-ip")
}

/// Whether a header is one of a single connection.
fn hop_by_hop(name: &str) -> (r: bool)
    ensures
        r == is_hop_by_hop(name@),
{
    same(name, "connection") || same(name, "keep-alive") || same(name, "proxy-authenticate")
        || same(name, "proxy-authorization") || same(name, "te") || same(name, "trailers") || same(
        name,
        "transfer-encoding",
    ) || same(name, "upgrade")
}

/// Whether callers may not set a header.
fn blocked(name: &str) -> (r: bool)
    ensures
        r == is_blocked(name@),
{
    same(name, "host") || same(name, "content-length") || same(name, "transfer-encoding") || same(
        name,
        "content-encoding",
    )
}

/// A header that goes upstream.
pub open spec fn is_forwarded(name: Seq<char>) -> bool {
    let lower = lowercase(name);
    !is_ip_disclosure(lower) && !is_hop_by_hop(lower) && !is_blocked(lower)
}

/// The headers that go upstream, in order.
pub open spec fn forwarded_pairs(p: Pairs) -> Pairs
    decreases p.len(),
{
    if p.len() == 0 {
        Seq::empty()
    } else if is_forwarded(p.last().0) {
        forwarded_pairs(p.drop_last()).push(p.last())
    } else {
        forwarded_pairs(p.drop_last())
    }
}

/// The headers that go upstream, in order.
pub fn forward_headers(headers: &Option<StringMap>) -> (r: Vec<(String, String)>)
    ensures
        pair_texts(r@) == forwarded_pairs(carried_headers(*headers)),
{
    let mut out: Vec<(String, String)> = Vec::new();
    match headers {
        None => {
            assert(pair_texts(out@) =~= Seq::empty());
        },
        Some(h) => {
            let n: usize = h.len();
            let mut i: usize = 0;
            assert(pair_texts(out@) =~= forwarded_pairs(h@.take(0)));
            while i < n
                invariant
                    i <= n,
                    n == h@.len(),
                    pair_texts(out@) == forwarded_pairs(h@.take(i as int)),
                decreases n - i,
            {
                let k = h.key_at(i);
                let lower = k.to_lowercase();
                assert(h@.take(i + 1).drop_last() =~= h@.take(i as int));
                assert(h@.take(i + 1).last() == h@[i as int]);
                if !ip_disclosure(lower.as_str()) && !hop_by_hop(lower.as_str()) && !blocked(
                    lower.as_str(),
                ) {
                    let ghost before = pair_texts(out@);
                    out.push((k.to_owned(), h.value_at(i).to_owned()));
                    assert(pair_texts(out@) =~= before.push(h@[i as int]));
                }
                i += 1;
            }
            assert(h@.take(n as int) =~= h@);
        },
    }
    out
}

/// No header that discloses the caller's address, belongs to one connection or
/// is blocked goes upstream.
pub proof fn law_forwarded_headers_are_safe(p: Pairs, i: int)
    requires
        0 <= i < forwarded_pairs(p).len(),
    ensures
        is_forwarded(forwarded_pairs(p)[i].0),
    decreases p.len(),
{
    if !is_forwarded(p.last().0) || i < forwarded_pairs(p.drop_last()).len() {
        law_forwarded_headers_are_safe(p.drop_last(), i);
    }
}

/// Whether a header of the upstream's answer goes on to the caller.
pub fn keep_response_header(name: &str) -> (r: bool)
    ensures
        r == !is_hop_by_hop(lowercase(name@)),
{
    !hop_by_hop(name.to_lowercase().as_str())
}

// ---------------------------------------------------------------------------
// Requests
// ---------------------------------------------------------------------------

/// What is sent upstream.
pub struct ForwardPlan {
    pub destination: String,
    /// Headers; those whose name or value is not valid are left out by the
    /// sender.
    pub headers: Vec<(String, String)>,
    pub body: Vec<u8>,
}

/// The destination with the placeholder replaced, where the public address is
/// known.
pub open spec fn forward_target(destination: Seq<char>, ip: Option<Seq<char>>) -> Seq<char> {
    match ip {
        Some(ip) => replace_text(destination, "{mediaflow_ip}"@, ip),
        None => destination,
    }
}

/// The body with the placeholder replaced, where the public address is known.
pub open spec fn forward_body(body: Seq<u8>, ip: Option<Seq<char>>) -> Seq<u8> {
    match ip {
        Some(ip) => substituted_body(body, ip),
        None => body,
    }
}

/// Why a request is not forwarded, where it is not.
pub open spec fn plan_refusal(data: ProxyData, cfg: ForwardConfig, body: Seq<u8>) -> Option<
    AppErrorView,
> {
    let destination = plain_destination(data.destination@);
    if data.destination@.len() == 0 {
        Some(missing_destination())
    } else if forward_refusal(destination, cfg) is Some {
        forward_refusal(destination, cfg)
    } else if forward_body(body, opt_text(cfg.public_ip)).len() > cfg.max_request_body_bytes {
        Some(AppErrorView::BadRequest("Request body too large"@))
    } else {
        None
    }
}

/// Decides what is sent upstream for a forward request.
pub fn plan_forward(proxy_data: &ProxyData, cfg: &ForwardConfig, body: Vec<u8>) -> (r: AppResult<
    ForwardPlan,
>)
    ensures
        match r {
            Ok(plan) => {
                &&& plan_refusal(*proxy_data, *cfg, body@) is None
                &&& plan.destination@ == forward_target(
                    plain_destination(proxy_data.destination@),
                    opt_text(cfg.public_ip),
                )
                &&& plan.body@ == forward_body(body@, opt_text(cfg.public_ip))
                &&& pair_texts(plan.headers@) == forwarded_pairs(
                    carried_headers(proxy_data.request_headers),
                )
            },
            Err(e) => plan_refusal(*proxy_data, *cfg, body@) == Some(e@),
        },
{
    if chars(proxy_data.destination.as_str()).len() == 0 {
        return Err(
            AppError::BadRequest(
                "Missing destination URL. Provide `d=<url>` query param or an encrypted token.".to_owned(),
            ),
        );
    }
    let destination = decode_destination(proxy_data.destination.as_str());
    if let Err(e) = check_forward_destination(destination.as_str(), cfg) {
        return Err(e);
    }
    let (destination, body) = match &cfg.public_ip {
        Some(ip) => (
            substitute_destination(destination.as_str(), ip.as_str()),
            substitute_body(&body, ip.as_str()),
        ),
        None => (destination, body),
    };
    if body.len() > cfg.max_request_body_bytes {
        return Err(AppError::BadRequest("Request body too large".to_owned()));
    }
    Ok(ForwardPlan { destination, headers: forward_headers(&proxy_data.request_headers), body })
}

/// Whether an upstream answer of `len` bytes goes on to the caller.
pub fn check_response_size(len: usize, cfg: &ForwardConfig) -> (r: AppResult<()>)
    ensures
        match r {
            Ok(_) => len <= cfg.max_response_body_bytes,
            Err(e) => len > cfg.max_response_body_bytes && e@ == AppErrorView::Proxy(
                "Upstream response too large"@,
            ),
        },
{
    if len > cfg.max_response_body_bytes {
        return Err(AppError::Proxy("Upstream response too large".to_owned()));
    }
    Ok(())
}

// ---------------------------------------------------------------------------
// The public address
// ---------------------------------------------------------------------------

/// What to do next to learn the proxy's public address.
pub enum PublicIpStep {
    /// It is known.
    Known(String),
    /// Ask a service; its JSON answer holds the address under a key.
    Ask {
        /// The service.
        url: &'static str,
        /// The key.
        key: &'static str,
    },
}

/// What follows `attempt` services that were asked in vain: the configured
/// address answers at once, else the services are asked in turn.
pub fn public_ip_step(cfg: &ForwardConfig, attempt: usize) -> (r: AppResult<PublicIpStep>)
    ensures
        match cfg.public_ip {
            Some(ip) => r matches Ok(PublicIpStep::Known(k)) && k@ == ip@,
            None => if attempt == 0 {
                r matches Ok(PublicIpStep::Ask { url, key }) && url@
                    == "https://api.ipify.org?format=json"@ && key@ == "ip"@
            } else if attempt == 1 {
                r matches Ok(PublicIpStep::Ask { url, key }) && url@ == "https://ipinfo.io/json"@
                    && key@ == "ip"@
            } else if attempt == 2 {
                r matches Ok(PublicIpStep::Ask { url, key }) && url@ == "https://httpbin.org/ip"@
                    && key@ == "origin"@
            } else {
                r matches Err(e) && e@ == AppErrorView::Upstream(
                    "Failed to retrieve public IP from all services"@,
                )
            },
        },
{
    if let Some(ip) = &cfg.public_ip {
        return Ok(PublicIpStep::Known(ip.clone()));
    }
    if attempt == 0 {
        Ok(PublicIpStep::Ask { url: "https://api.ipify.org?format=json", key: "ip" })
    } else if attempt == 1 {
        Ok(PublicIpStep::Ask { url: "https://ipinfo.io/json", key: "ip" })
    } else if attempt == 2 {
        Ok(PublicIpStep::Ask { url: "https://httpbin.org/ip", key: "origin" })
    } else {
        Err(AppError::Upstream("Failed to retrieve public IP from all services".to_owned()))
    }
}

/// The address in a service's answer: the string under the key, without white
/// space round it, where it is not empty.
pub open spec fn answered_ip(answer: Seq<u8>, key: Seq<char>) -> Option<Seq<char>> {
    match json_string_at(answer, "/"@ + key) {
        Some(t) => if trim_text(t).len() > 0 {
            Some(trim_text(t))
        } else {
            None
        },
        None => None,
    }
}

/// Reads the address from a service's answer.
pub fn read_public_ip(answer: &[u8], key: &str) -> (r: Option<String>)
    ensures
        opt_text(r) == answered_ip(answer@, key@),
{
    match json_string(answer, concat("/", key).as_str()) {
        Some(t) => {
            let ip = trim(t.as_str());
            if chars(ip.as_str()).len() > 0 {
                Some(ip)
            } else {
                None
            }
        },
        None => None,
    }
}

} // verus!
