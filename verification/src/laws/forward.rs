//! Laws on the forward endpoint.

use vstd::prelude::*;
use vstd::utf8::{encode_utf8, is_ascii_chars, is_ascii_chars_encode_utf8};

use crate::auth::encryption::ProxyData;
use crate::codec::json_string_at;
use crate::config::ForwardConfig;
use crate::error::{AppError, AppResult};
use crate::laws::reading::{all_space, is_seen, lemma_trimmed};
use crate::laws::texts::{
    begins_once, have_none_in_common, lemma_replaced_all, lemma_replaced_nowhere,
    lemma_replaced_once,
};
use crate::proxy::forward::{
    check_forward_destination, check_response_size, forwarded_pairs, is_forwarded,
    keep_response_header, lists_host, plan_forward, public_ip_step, read_public_ip, ForwardPlan,
    PublicIpStep,
};
use crate::string_map::{pair_texts, Pairs, StringMap};
use crate::text::{contains, lowercase, opt_text};
use crate::utils::base64_url::decoded_url;
use crate::utils::url::{parsed_url, UrlParts};

verus! {

/// The placeholder of the public address.
pub open spec fn placeholder() -> Seq<char> {
    "{mediaflow_ip}"@
}

/// The URL that a request names: the destination, decoded where it is a web URL in
/// base64.
pub open spec fn named_url(destination: Seq<char>, url: Seq<char>) -> bool {
    match decoded_url(destination) {
        Some(u) => url == u,
        None => url == destination,
    }
}

/// The placeholder begins only once.
proof fn lemma_placeholder()
    ensures
        begins_once(placeholder()),
{
    reveal_strlit("{mediaflow_ip}");
}

/// The placeholder in the URL of a forwarded request is replaced by the configured
/// address, and what stands round it stays.
pub proof fn law_placeholder_in_url_is_replaced(
    data: &ProxyData,
    cfg: &ForwardConfig,
    body: Vec<u8>,
    plan: ForwardPlan,
    prefix: Seq<char>,
    suffix: Seq<char>,
    ip: String,
)
    requires
        call_ensures(plan_forward, (data, cfg, body), Ok::<ForwardPlan, AppError>(plan)),
        named_url(data.destination@, prefix + placeholder() + suffix),
        !contains(prefix, placeholder()),
        !contains(suffix, placeholder()),
        cfg.public_ip == Some(ip),
    ensures
        plan.destination@ == prefix + ip@ + suffix,
{
    lemma_placeholder();
    lemma_replaced_once(prefix, placeholder(), suffix, ip@);
}

/// Where the public address is configured and shares no character with the
/// placeholder, no placeholder is left in the URL of a forwarded request.
pub proof fn law_no_placeholder_is_left_in_url(
    data: &ProxyData,
    cfg: &ForwardConfig,
    body: Vec<u8>,
    plan: ForwardPlan,
    ip: String,
)
    requires
        call_ensures(plan_forward, (data, cfg, body), Ok::<ForwardPlan, AppError>(plan)),
        cfg.public_ip == Some(ip),
        ip@.len() > 0,
        have_none_in_common(placeholder(), ip@),
    ensures
        !contains(plan.destination@, placeholder()),
{
    lemma_placeholder();
    let url = match decoded_url(data.destination@) {
        Some(u) => u,
        None => data.destination@,
    };
    lemma_replaced_all(url, placeholder(), ip@, 0);
}

/// A URL without the placeholder is forwarded as it is, and so is every URL where
/// no address is configured.
pub proof fn law_other_urls_are_kept(
    data: &ProxyData,
    cfg: &ForwardConfig,
    body: Vec<u8>,
    plan: ForwardPlan,
    url: Seq<char>,
)
    requires
        call_ensures(plan_forward, (data, cfg, body), Ok::<ForwardPlan, AppError>(plan)),
        named_url(data.destination@, url),
        !contains(url, placeholder()) || cfg.public_ip is None,
    ensures
        plan.destination@ == url,
{
    lemma_placeholder();
    if let Some(ip) = cfg.public_ip {
        lemma_replaced_nowhere(url, placeholder(), ip@);
    }
}

/// The bytes of the placeholder begin only once.
proof fn lemma_placeholder_bytes()
    ensures
        begins_once(encode_utf8(placeholder())),
{
    reveal_strlit("{mediaflow_ip}");
    let t = placeholder();
    assert(is_ascii_chars(t));
    is_ascii_chars_encode_utf8(t);
    let b = encode_utf8(t);
    assert forall|k: int| 0 < k < b.len() implies (#[trigger] b[k]) != b[0] by {
        assert(t[k] as u8 == b[k] && t[0] as u8 == b[0]);
    }
}

/// The placeholder in the body of a forwarded request is replaced as well. The
/// bytes round it stay.
pub proof fn law_placeholder_in_body_is_replaced(
    data: &ProxyData,
    cfg: &ForwardConfig,
    body: Vec<u8>,
    plan: ForwardPlan,
    prefix: Seq<u8>,
    suffix: Seq<u8>,
    ip: String,
)
    requires
        call_ensures(plan_forward, (data, cfg, body), Ok::<ForwardPlan, AppError>(plan)),
        body@ == prefix + encode_utf8(placeholder()) + suffix,
        !contains(prefix, encode_utf8(placeholder())),
        !contains(suffix, encode_utf8(placeholder())),
        cfg.public_ip == Some(ip),
    ensures
        plan.body@ == prefix + encode_utf8(ip@) + suffix,
{
    lemma_placeholder_bytes();
    lemma_replaced_once(prefix, encode_utf8(placeholder()), suffix, encode_utf8(ip@));
}

/// A body without the placeholder is forwarded as it is, and so is every body where
/// no address is configured.
pub proof fn law_other_bodies_are_kept(
    data: &ProxyData,
    cfg: &ForwardConfig,
    body: Vec<u8>,
    plan: ForwardPlan,
)
    requires
        call_ensures(plan_forward, (data, cfg, body), Ok::<ForwardPlan, AppError>(plan)),
        !contains(body@, encode_utf8(placeholder())) || cfg.public_ip is None,
    ensures
        plan.body@ == body@,
{
    lemma_placeholder_bytes();
    if let Some(ip) = cfg.public_ip {
        lemma_replaced_nowhere(body@, encode_utf8(placeholder()), encode_utf8(ip@));
    }
}

// ---------------------------------------------------------------------------
// Headers
// ---------------------------------------------------------------------------

/// The headers that never go upstream, under their lower case names.
pub open spec fn held_back() -> Seq<Seq<char>> {
    seq![
        "x-forwarded-for"@,
        "x-real-ip"@,
        "x-client-ip"@,
        "true-client-ip"@,
        "forwarded"@,
        "cf-connecting-ip"@,
        "x-original-forwarded-for"@,
        "x-cluster-client-ip"@,
        "connection"@,
        "keep-alive"@,
        "proxy-authenticate"@,
        "proxy-authorization"@,
        "te"@,
        "trailers"@,
        "transfer-encoding"@,
        "upgrade"@,
        "host"@,
        "content-length"@,
        "content-encoding"@,
    ]
}

/// A header goes upstream unless it is one of those that never do.
proof fn lemma_held_back(name: Seq<char>)
    ensures
        is_forwarded(name) <==> !held_back().contains(lowercase(name)),
{
    let h = held_back();
    let l = lowercase(name);
    if !is_forwarded(name) {
        assert(h[0] == l || h[1] == l || h[2] == l || h[3] == l || h[4] == l || h[5] == l || h[6]
            == l || h[7] == l || h[8] == l || h[9] == l || h[10] == l || h[11] == l || h[12] == l
            || h[13] == l || h[14] == l || h[15] == l || h[16] == l || h[17] == l || h[18] == l);
    }
    if h.contains(l) {
        let i = choose|i: int| 0 <= i < h.len() && h[i] == l;
        assert(!is_forwarded(name));
    }
}

/// Which of the first headers go upstream.
proof fn lemma_forwarded(p: Pairs)
    ensures
        forall|i: int|
            0 <= i < forwarded_pairs(p).len() ==> p.contains(#[trigger] forwarded_pairs(p)[i])
                && is_forwarded(forwarded_pairs(p)[i].0),
        forall|i: int|
            0 <= i < p.len() && is_forwarded((#[trigger] p[i]).0) ==> forwarded_pairs(p).contains(
                p[i],
            ),
        forwarded_pairs(p).len() <= p.len(),
    decreases p.len(),
{
    if p.len() > 0 {
        let init = p.drop_last();
        let rest = forwarded_pairs(init);
        let all = forwarded_pairs(p);
        lemma_forwarded(init);
        assert forall|i: int| 0 <= i < all.len() implies p.contains(#[trigger] all[i])
            && is_forwarded(all[i].0) by {
            if i < rest.len() {
                assert(all[i] == rest[i]);
                let j = choose|j: int| 0 <= j < init.len() && init[j] == rest[i];
                assert(p[j] == rest[i]);
            } else {
                assert(all[i] == p[p.len() - 1]);
            }
        }
        assert forall|i: int| 0 <= i < p.len() && is_forwarded(
            (#[trigger] p[i]).0,
        ) implies all.contains(p[i]) by {
            if i < init.len() {
                assert(init[i] == p[i]);
                let j = choose|j: int| 0 <= j < rest.len() && rest[j] == p[i];
                assert(all[j] == p[i]);
            } else {
                assert(all[all.len() - 1] == p[i]);
            }
        }
    }
}

/// A forwarded request carries the headers that its data asks for, without those
/// that disclose the caller's address, belong to one connection or describe the
/// message itself.
pub proof fn law_forwarded_headers(
    data: &ProxyData,
    cfg: &ForwardConfig,
    body: Vec<u8>,
    plan: ForwardPlan,
    headers: StringMap,
)
    requires
        call_ensures(plan_forward, (data, cfg, body), Ok::<ForwardPlan, AppError>(plan)),
        data.request_headers == Some(headers),
    ensures
        forall|i: int|
            0 <= i < headers@.len() && !held_back().contains(
                lowercase((#[trigger] headers@[i]).0),
            ) ==> pair_texts(plan.headers@).contains(headers@[i]),
        forall|i: int|
            0 <= i < plan.headers@.len() ==> headers@.contains(
                (#[trigger] plan.headers@[i].0@, plan.headers@[i].1@),
            ) && !held_back().contains(lowercase(plan.headers@[i].0@)),
{
    let p = headers@;
    lemma_forwarded(p);
    assert forall|i: int| 0 <= i < p.len() && !held_back().contains(
        lowercase((#[trigger] p[i]).0),
    ) implies pair_texts(plan.headers@).contains(p[i]) by {
        lemma_held_back(p[i].0);
    }
    assert forall|i: int| 0 <= i < plan.headers@.len() implies p.contains(
        (#[trigger] plan.headers@[i].0@, plan.headers@[i].1@),
    ) && !held_back().contains(lowercase(plan.headers@[i].0@)) by {
        let h = pair_texts(plan.headers@)[i];
        assert(h == forwarded_pairs(p)[i]);
        lemma_held_back(h.0);
    }
}

/// Of an upstream answer all headers go on but those of a single connection.
pub proof fn law_answer_headers(name: &str, r: bool)
    requires
        call_ensures(keep_response_header, (name,), r),
    ensures
        r == !seq![
            "connection"@,
            "keep-alive"@,
            "proxy-authenticate"@,
            "proxy-authorization"@,
            "te"@,
            "trailers"@,
            "transfer-encoding"@,
            "upgrade"@,
        ].contains(lowercase(name@)),
{
    let h = seq![
        "connection"@,
        "keep-alive"@,
        "proxy-authenticate"@,
        "proxy-authorization"@,
        "te"@,
        "trailers"@,
        "transfer-encoding"@,
        "upgrade"@,
    ];
    let l = lowercase(name@);
    if !r {
        assert(h[0] == l || h[1] == l || h[2] == l || h[3] == l || h[4] == l || h[5] == l || h[6]
            == l || h[7] == l);
    }
}

// ---------------------------------------------------------------------------
// Refusals
// ---------------------------------------------------------------------------

/// An address that a proxy must not be used to reach: of the machine itself, of a
/// private or local network, or of a group.
pub open spec fn is_unreachable(a: Seq<u8>) -> bool {
    if a.len() == 4 {
        ||| a[0] == 127
        ||| a[0] == 10
        ||| a[0] == 172 && 16 <= a[1] < 32
        ||| a[0] == 192 && a[1] == 168
        ||| a[0] == 169 && a[1] == 254
        ||| 224 <= a[0] < 240
        ||| a == seq![0u8, 0, 0, 0]
    } else {
        ||| a[0] == 0xff
        ||| a[0] == 0xfc || a[0] == 0xfd
        ||| a[0] == 0xfe && 0x80 <= a[1] < 0xc0
        ||| a.take(15) == Seq::new(15, |i: int| 0u8) && a[15] <= 1
    }
}

/// A host of a list, letter case aside.
pub open spec fn is_listed(hosts: Vec<String>, host: Seq<char>) -> bool {
    exists|i: int| 0 <= i < hosts@.len() && lowercase((#[trigger] hosts@[i])@) == lowercase(host)
}

/// The two readings of an address agree.
proof fn lemma_unreachable(a: Seq<u8>)
    requires
        a.len() == 4 || a.len() == 16,
    ensures
        is_unreachable(a) <==> crate::proxy::forward::is_inner_address(a),
{
    if a.len() == 4 {
        if a[0] == 0 && a[1] == 0 && a[2] == 0 && a[3] == 0 {
            assert(a =~= seq![0u8, 0, 0, 0]);
        }
    } else {
        let z = Seq::new(15, |i: int| 0u8);
        if crate::proxy::forward::zero_head(a) {
            assert(a.take(15) =~= z);
        }
        if a.take(15) == z {
            assert forall|i: int| 0 <= i < 15 implies #[trigger] a[i] == 0 by {
                assert(a.take(15)[i] == z[i]);
            }
        }
    }
}

/// A request is forwarded exactly where its URL is a web URL with a host, the host
/// is allowed and not denied, and it is neither the machine's own name nor an
/// address that must not be reached; and where its body is not too long.
pub proof fn law_what_is_forwarded(
    data: &ProxyData,
    cfg: &ForwardConfig,
    body: Vec<u8>,
    r: AppResult<ForwardPlan>,
    url: Seq<char>,
    parts: UrlParts,
    host: Seq<char>,
)
    requires
        call_ensures(plan_forward, (data, cfg, body), r),
        named_url(data.destination@, url),
        data.destination@.len() > 0,
        parsed_url(url) == Ok::<UrlParts, Seq<char>>(parts),
        parts.host == Some(host),
        lowercase(host).len() > 0,
        parts.address matches Some(a) ==> a.len() == 4 || a.len() == 16,
        cfg.public_ip is None || !contains(body@, encode_utf8(placeholder())),
    ensures
        r is Ok <==> {
            &&& parts.scheme == "http"@ || parts.scheme == "https"@
            &&& cfg.allowed_hosts@.len() == 0 || is_listed(cfg.allowed_hosts, host)
            &&& !is_listed(cfg.denied_hosts, host)
            &&& !seq!["localhost"@, "ip6-localhost"@, "ip6-loopback"@].contains(lowercase(host))
            &&& parts.address matches Some(a) ==> !is_unreachable(a)
            &&& body@.len() <= cfg.max_request_body_bytes
        },
{
    let l = lowercase(host);
    let own = seq!["localhost"@, "ip6-localhost"@, "ip6-loopback"@];
    lemma_placeholder_bytes();
    if let Some(ip) = cfg.public_ip {
        lemma_replaced_nowhere(body@, encode_utf8(placeholder()), encode_utf8(ip@));
    }
    if own[0] == l || own[1] == l || own[2] == l {
        assert(own.contains(l));
    }
    if let Some(a) = parts.address {
        lemma_unreachable(a);
    }
    assert(is_listed(cfg.allowed_hosts, host) <==> lists_host(cfg.allowed_hosts@, l));
    assert(is_listed(cfg.denied_hosts, host) <==> lists_host(cfg.denied_hosts@, l));
}

/// The guard against addresses that must not be reached holds whatever is
/// configured, and such a request is answered as forbidden.
pub proof fn law_guard(
    url: &str,
    cfg: &ForwardConfig,
    r: AppResult<()>,
    parts: UrlParts,
)
    requires
        call_ensures(check_forward_destination, (url, cfg), r),
        parsed_url(url@) == Ok::<UrlParts, Seq<char>>(parts),
        parts.scheme == "http"@ || parts.scheme == "https"@,
        parts.host matches Some(h) && lowercase(h).len() > 0,
        parts.address matches Some(a) && (a.len() == 4 || a.len() == 16) && is_unreachable(a),
    ensures
        r matches Err(AppError::Forbidden(_)),
{
    lemma_unreachable(parts.address->0);
    assert(r matches Err(e) && e@ is Forbidden);
}

/// An answer goes on to the caller where it is not too long.
pub proof fn law_answers_are_bounded(len: usize, cfg: &ForwardConfig, r: AppResult<()>)
    requires
        call_ensures(check_response_size, (len, cfg), r),
    ensures
        r is Ok <==> len <= cfg.max_response_body_bytes,
{
}

/// The configured address is the public one; services are asked only where none is
/// configured, and there are three of them.
pub proof fn law_public_address(
    cfg: &ForwardConfig,
    attempt: usize,
    r: AppResult<PublicIpStep>,
)
    requires
        call_ensures(public_ip_step, (cfg, attempt), r),
    ensures
        cfg.public_ip matches Some(ip) ==> (r matches Ok(PublicIpStep::Known(k)) && k@ == ip@),
        cfg.public_ip is None && attempt < 3 ==> (r matches Ok(PublicIpStep::Ask { .. })),
        cfg.public_ip is None && attempt >= 3 ==> r is Err,
{
}

/// The address that a service answers is taken without the white space around it.
pub proof fn law_answered_address(
    answer: &[u8],
    key: &str,
    r: Option<String>,
    a: Seq<char>,
    ip: Seq<char>,
    b: Seq<char>,
)
    requires
        call_ensures(read_public_ip, (answer, key), r),
    ensures
        all_space(a) && all_space(b) && is_seen(ip) && json_string_at(answer@, "/"@ + key@) == Some(
            a + ip + b,
        ) ==> opt_text(r) == Some(ip),
        json_string_at(answer@, "/"@ + key@) is None ==> r is None,
{
    if all_space(a) && all_space(b) && is_seen(ip) {
        lemma_trimmed(a, ip, b);
    }
}

} // verus!
