//! The rules of the plain stream endpoint.

use vstd::prelude::*;

use crate::auth::encryption::ProxyData;
use crate::codec::bytes_of;
use crate::error::{AppError, AppErrorView, AppResult};
use crate::hls::handler::carried_headers;
use crate::string_map::{lookup, lookup_from, pair_texts, Pairs};
use crate::text::{chars, opt_str, opt_text, parse_u64, parse_unsigned, same};
use crate::utils::base64_url::{decode_base64_url, decoded_url};

verus! {

/// A destination, decoded where it is a web URL in base64.
pub open spec fn plain_destination(destination: Seq<char>) -> Seq<char> {
    match decoded_url(destination) {
        Some(url) => url,
        None => destination,
    }
}

/// A destination, decoded where it is a web URL in base64.
pub fn decode_destination(destination: &str) -> (r: String)
    ensures
        r@ == plain_destination(destination@),
{
    match decode_base64_url(destination) {
        Some(url) => url,
        None => destination.to_owned(),
    }
}

/// The destination of a stream request: that of the request's data, or else the
/// file name of the path where it is a web URL in base64.
pub open spec fn stream_target(destination: Seq<char>, filename: Option<Seq<char>>) -> Option<
    Seq<char>,
> {
    if destination.len() > 0 {
        Some(plain_destination(destination))
    } else {
        match filename {
            Some(f) => if f.len() > 0 {
                decoded_url(f)
            } else {
                None
            },
            None => None,
        }
    }
}

/// Finds the destination of a stream request.
pub fn resolve_stream_destination(proxy_data: &ProxyData, filename: Option<&str>) -> (r: Option<
    String,
>)
    ensures
        opt_text(r) == stream_target(proxy_data.destination@, opt_str(filename)),
{
    if chars(proxy_data.destination.as_str()).len() > 0 {
        return Some(decode_destination(proxy_data.destination.as_str()));
    }
    match filename {
        Some(f) => if chars(f).len() > 0 {
            decode_base64_url(f)
        } else {
            None
        },
        None => None,
    }
}

/// The answer to a request without a destination.
pub open spec fn missing_destination() -> AppErrorView {
    AppErrorView::BadRequest(
        "Missing destination URL. Provide `d=<url>` query param or an encrypted token."@,
    )
}

/// The destination that a request is sent to: the override where it is not
/// empty, else the data's own, which must not be empty either.
pub open spec fn effective_destination(
    destination_override: Option<Seq<char>>,
    destination: Seq<char>,
) -> Seq<char> {
    match destination_override {
        Some(d) => if d.len() > 0 {
            d
        } else {
            destination
        },
        None => destination,
    }
}

/// Chooses the destination that a request is sent to.
pub fn choose_destination(destination_override: Option<String>, proxy_data: &ProxyData) -> (r:
    AppResult<String>)
    ensures
        ({
            let d = effective_destination(
                opt_text(destination_override),
                proxy_data.destination@,
            );
            match r {
                Ok(url) => url@ == d && d.len() > 0,
                Err(e) => d.len() == 0 && e@ == missing_destination(),
            }
        }),
{
    if let Some(d) = destination_override {
        if chars(d.as_str()).len() > 0 {
            return Ok(d);
        }
    }
    if chars(proxy_data.destination.as_str()).len() == 0 {
        return Err(
            AppError::BadRequest(
                "Missing destination URL. Provide `d=<url>` query param or an encrypted token.".to_owned(),
            ),
        );
    }
    Ok(proxy_data.destination.clone())
}

/// How the body of an answer is sent.
#[derive(Clone, Copy, PartialEq, Eq, Structural)]
pub enum BodyPlan {
    /// No body, with the given content length.
    Empty(u64),
    /// The upstream's body, of the given length.
    Sized(u64),
    /// The upstream's body, of unknown length.
    Chunked,
}

/// The length that an upstream announces; 0 where it announces none.
pub open spec fn announced_length(content_length: Option<Seq<char>>) -> u64 {
    match content_length {
        Some(t) => match parse_unsigned(t, u64::MAX as int) {
            Some(n) => n as u64,
            None => 0,
        },
        None => 0,
    }
}

/// Reads the length that an upstream announces.
pub fn content_length(header: Option<&str>) -> (r: u64)
    ensures
        r == announced_length(opt_str(header)),
{
    match header {
        Some(t) => match parse_u64(t) {
            Some(n) => n,
            None => 0,
        },
        None => 0,
    }
}

/// Decides how the body of an answer is sent: a `HEAD` has none, and a `GET`
/// needs an upstream body.
pub fn plan_body(is_head: bool, has_stream: bool, header: Option<&str>) -> (r: AppResult<BodyPlan>)
    ensures
        ({
            let n = announced_length(opt_str(header));
            match r {
                Ok(plan) => (is_head || has_stream) && plan == if is_head {
                    BodyPlan::Empty(n)
                } else if n > 0 {
                    BodyPlan::Sized(n)
                } else {
                    BodyPlan::Chunked
                },
                Err(e) => !is_head && !has_stream && e@ == AppErrorView::Internal(
                    "Stream not available"@,
                ),
            }
        }),
{
    let n: u64 = content_length(header);
    if is_head {
        Ok(BodyPlan::Empty(n))
    } else if has_stream {
        if n > 0 {
            Ok(BodyPlan::Sized(n))
        } else {
            Ok(BodyPlan::Chunked)
        }
    } else {
        Err(AppError::Internal("Stream not available".to_owned()))
    }
}

/// A header with the bytes of its value.
pub type Header = (String, Vec<u8>);

/// Headers, by their names' texts.
pub open spec fn header_views(v: Seq<(String, Vec<u8>)>) -> Seq<(Seq<char>, Seq<u8>)> {
    Seq::new(v.len(), |i: int| (v[i].0@, v[i].1@))
}

/// A header of the player's request, where it has it.
pub open spec fn player_header(name: Seq<char>, value: Option<Vec<u8>>) -> Seq<
    (Seq<char>, Seq<u8>),
> {
    match value {
        Some(v) => seq![(name, v@)],
        None => Seq::empty(),
    }
}

/// The headers that a request's data asks for.
pub open spec fn data_headers(p: Pairs) -> Seq<(Seq<char>, Seq<u8>)> {
    Seq::new(p.len(), |i: int| (p[i].0, vstd::utf8::encode_utf8(p[i].1)))
}

/// The headers to set on the upstream request, in turn: the player's own range
/// headers, then those of the request's data, which override them.
pub fn upstream_headers(
    range: Option<Vec<u8>>,
    if_range: Option<Vec<u8>>,
    proxy_data: &ProxyData,
) -> (r: Vec<Header>)
    ensures
        header_views(r@) == player_header("range"@, range) + player_header("if-range"@, if_range)
            + data_headers(carried_headers(proxy_data.request_headers)),
{
    let mut out: Vec<Header> = Vec::new();
    let ghost a = player_header("range"@, range);
    let ghost b = player_header("if-range"@, if_range);
    if let Some(v) = range {
        out.push(("range".to_owned(), v));
    }
    assert(header_views(out@) =~= a);
    if let Some(v) = if_range {
        out.push(("if-range".to_owned(), v));
    }
    assert(header_views(out@) =~= a + b);
    match &proxy_data.request_headers {
        Some(h) => {
            let mut i: usize = 0;
            let n: usize = h.len();
            let ghost d = data_headers(h@);
            assert(a + b + d.take(0) =~= a + b);
            while i < n
                invariant
                    i <= n,
                    n == h@.len(),
                    d == data_headers(h@),
                    header_views(out@) == a + b + d.take(i as int),
                decreases n - i,
            {
                let ghost before = header_views(out@);
                out.push((h.key_at(i).to_owned(), bytes_of(h.value_at(i))));
                assert(header_views(out@) =~= before.push(d[i as int]));
                assert(a + b + d.take(i + 1) =~= (a + b + d.take(i as int)).push(d[i as int]));
                i += 1;
            }
            assert(d.take(n as int) =~= d);
        },
        None => {
            assert(a + b + data_headers(Seq::empty()) =~= a + b);
        },
    }
    out
}

/// A header of an upstream answer, where it has it.
pub open spec fn answer_header(upstream: Pairs, name: Seq<char>) -> Pairs {
    match lookup(upstream, name) {
        Some(v) => seq![(name, v)],
        None => Seq::empty(),
    }
}

/// The headers of an upstream answer that go on to the player.
pub open spec fn answer_headers(upstream: Pairs) -> Pairs {
    answer_header(upstream, "accept-ranges"@) + answer_header(upstream, "content-type"@)
        + answer_header(upstream, "content-length"@) + answer_header(upstream, "content-range"@)
        + answer_header(upstream, "last-modified"@) + answer_header(upstream, "etag"@)
        + answer_header(upstream, "cache-control"@) + answer_header(upstream, "expires"@)
}

/// Appends a header of an upstream answer, where it has it.
fn push_answer_header(
    out: &mut Vec<(String, String)>,
    upstream: &Vec<(String, String)>,
    name: &str,
)
    ensures
        pair_texts(final(out)@) == pair_texts(old(out)@) + answer_header(
            pair_texts(upstream@),
            name@,
        ),
{
    let ghost p = pair_texts(upstream@);
    let ghost before = pair_texts(out@);
    let mut i: usize = 0;
    while i < upstream.len()
        invariant
            i <= upstream.len(),
            p == pair_texts(upstream@),
            before == pair_texts(out@),
            pair_texts(old(out)@) == before,
            lookup(p, name@) == lookup_from(p, name@, i as int),
        decreases upstream.len() - i,
    {
        if same(upstream[i].0.as_str(), name) {
            out.push((name.to_owned(), upstream[i].1.clone()));
            assert(pair_texts(out@) =~= before + answer_header(p, name@));
            return;
        }
        i += 1;
    }
    assert(before + answer_header(p, name@) =~= before);
}

/// The headers to set on the answer to the player, in turn: those of the upstream
/// answer that go on, then those of the request's data, which override them. The
/// names of the upstream's headers are in lower case.
pub fn response_headers(upstream: &Vec<(String, String)>, proxy_data: &ProxyData) -> (r: Vec<
    (String, String),
>)
    ensures
        pair_texts(r@) == answer_headers(pair_texts(upstream@)) + carried_headers(
            proxy_data.response_headers,
        ),
{
    let mut out: Vec<(String, String)> = Vec::new();
    assert(pair_texts(out@) =~= Seq::empty());
    push_answer_header(&mut out, upstream, "accept-ranges");
    push_answer_header(&mut out, upstream, "content-type");
    push_answer_header(&mut out, upstream, "content-length");
    push_answer_header(&mut out, upstream, "content-range");
    push_answer_header(&mut out, upstream, "last-modified");
    push_answer_header(&mut out, upstream, "etag");
    push_answer_header(&mut out, upstream, "cache-control");
    push_answer_header(&mut out, upstream, "expires");
    let ghost front = pair_texts(out@);
    assert(front =~= answer_headers(pair_texts(upstream@)));
    match &proxy_data.response_headers {
        Some(h) => {
            let mut own = h.to_pairs();
            let ghost back = pair_texts(own@);
            let ghost a = out@;
            let ghost b = own@;
            out.append(&mut own);
            assert(out@ == a + b);
            assert(pair_texts(out@) =~= front + back);
        },
        None => {
            assert(front + Seq::<(Seq<char>, Seq<char>)>::empty() =~= front);
        },
    }
    out
}

} // verus!
