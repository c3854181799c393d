//! Laws on the URLs that lead through the proxy.

use vstd::prelude::*;
use vstd::utf8::encode_utf8;

use crate::auth::encryption::{
    key_of, opt_pairs_map, pairs_map, token_data, EncryptionHandler, ProxyData, ProxyDataView,
};
use crate::codec::{all_base64url, base64url_encoded, is_base64url_char, percent_encoded};
use crate::error::{AppError, AppResult};
use crate::laws::texts::lemma_trim_end;
use crate::proxy::urls::{
    bare_name, base64_check, base64_decode, base64_encode, build_proxy_url, carries, endpoint_path,
    flat_params, generate_url, generate_urls, is_proxy_url, is_request_header, query_parts,
    token_url, trimmed_base, url_pairs, Base64Query, GenerateMultiUrlRequest, GenerateUrlRequest,
    UrlArgs,
};
use crate::string_map::{lookup, Pairs, StringMap};
use crate::text::{
    contains, join_texts, lowercase, matches_at, opt_str, opt_text, starts_with, texts,
    trim_start_char,
};

verus! {

// ---------------------------------------------------------------------------
// Parts of a URL
// ---------------------------------------------------------------------------

/// Some slashes.
pub open spec fn slashes(n: nat) -> Seq<char> {
    Seq::new(n, |i: int| '/')
}

/// `b` is the base URL without the slashes at its end.
pub open spec fn is_base(base: Seq<char>, b: Seq<char>) -> bool {
    (b.len() > 0 ==> b.last() != '/') && exists|n: nat| base == b + #[trigger] slashes(n)
}

/// `path` is the path of an endpoint, with one slash at its start.
pub open spec fn is_path(endpoint: Option<Seq<char>>, path: Seq<char>) -> bool {
    match endpoint {
        None => path.len() == 0,
        Some(e) => if e.len() == 0 {
            path.len() == 0
        } else {
            exists|n: nat, rest: Seq<char>|
                e == #[trigger] (slashes(n) + rest) && (rest.len() > 0 ==> rest[0] != '/') && path
                    == "/"@ + rest
        },
    }
}

/// A file name as a last segment of the path.
pub open spec fn name_segment(filename: Option<Seq<char>>) -> Seq<char> {
    match filename {
        Some(f) => "/"@ + percent_encoded(f),
        None => Seq::empty(),
    }
}

/// A parameter as it stands in a query.
pub open spec fn param(name: Seq<char>, value: Seq<char>) -> Seq<char> {
    name + "="@ + percent_encoded(value)
}

/// A name that has a prefix.
pub open spec fn with_prefix(prefix: Seq<char>, name: Seq<char>) -> Seq<char> {
    if starts_with(name, prefix) {
        name
    } else {
        prefix + name
    }
}

/// A header that belongs to one request alone.
pub open spec fn is_seek_header(name: Seq<char>) -> bool {
    let l = lowercase(name);
    l == "range"@ || l == "if-range"@ || l == "h_range"@ || l == "h_if-range"@
}

/// A pair that is written: it has a value, and is none of a seek where those are
/// left out.
pub open spec fn is_written(pair: (Seq<char>, Seq<char>), steady: bool) -> bool {
    pair.1.len() > 0 && !(steady && is_seek_header(pair.0))
}

/// The parts hold every pair that is written.
pub open spec fn have_all(
    parts: Seq<Seq<char>>,
    p: Pairs,
    prefix: Seq<char>,
    steady: bool,
) -> bool {
    forall|j: int|
        0 <= j < p.len() && is_written(#[trigger] p[j], steady) ==> parts.contains(
            param(with_prefix(prefix, p[j].0), p[j].1),
        )
}

/// A part is one of the pairs that are written.
pub open spec fn is_one_of(
    part: Seq<char>,
    p: Pairs,
    prefix: Seq<char>,
    steady: bool,
) -> bool {
    exists|j: int|
        0 <= j < p.len() && is_written(#[trigger] p[j], steady) && part == param(
            with_prefix(prefix, p[j].0),
            p[j].1,
        )
}

/// What a URL is asked for.
pub struct Wish {
    pub destination: Seq<char>,
    pub query_params: Pairs,
    pub request_headers: Pairs,
    pub response_headers: Pairs,
    pub propagated: Pairs,
    pub removed: Seq<Seq<char>>,
    pub transformer: Option<Seq<char>>,
    pub filename: Option<Seq<char>>,
    /// The destination stands in the path, in base64.
    pub in_path: bool,
}

/// The parts of a query are those of a wish: all of them and nothing else.
pub open spec fn are_parts(parts: Seq<Seq<char>>, w: Wish) -> bool {
    let d = param("d"@, w.destination);
    let x = param("x_headers"@, join_texts(w.removed, ","@));
    let t = param("transformer"@, w.transformer->0);
    &&& !w.in_path ==> parts.contains(d)
    &&& have_all(parts, w.query_params, Seq::empty(), false)
    &&& have_all(parts, w.request_headers, "h_"@, true)
    &&& have_all(parts, w.response_headers, "r_"@, false)
    &&& have_all(parts, w.propagated, "rp_"@, false)
    &&& w.removed.len() > 0 ==> parts.contains(x)
    &&& w.transformer is Some ==> parts.contains(t)
    &&& forall|k: int|
        0 <= k < parts.len() ==> {
            ||| !w.in_path && #[trigger] parts[k] == d
            ||| is_one_of(parts[k], w.query_params, Seq::empty(), false)
            ||| is_one_of(parts[k], w.request_headers, "h_"@, true)
            ||| is_one_of(parts[k], w.response_headers, "r_"@, false)
            ||| is_one_of(parts[k], w.propagated, "rp_"@, false)
            ||| w.removed.len() > 0 && parts[k] == x
            ||| w.transformer is Some && parts[k] == t
        }
}

/// `url` is the URL of an endpoint with a wish in its query.
pub open spec fn is_plain_url(url: Seq<char>, b: Seq<char>, path: Seq<char>, w: Wish) -> bool {
    let start = b + path + if w.in_path {
        "/"@ + base64url_encoded(encode_utf8(w.destination))
    } else {
        name_segment(w.filename)
    };
    exists|parts: Seq<Seq<char>>| #[trigger]
        are_parts(parts, w) && url == if parts.len() == 0 {
            start
        } else {
            start + "?"@ + join_texts(parts, "&"@)
        }
}

/// `url` is the URL of an endpoint with a token before its path.
pub open spec fn is_sealed_url(
    url: Seq<char>,
    b: Seq<char>,
    path: Seq<char>,
    filename: Option<Seq<char>>,
    token: Seq<char>,
) -> bool {
    url == b + "/_token_"@ + token + path + name_segment(filename)
}

/// What a token holds under a password.
pub open spec fn sealed(password: Seq<char>, token: Seq<char>) -> Option<ProxyDataView> {
    token_data(key_of(encode_utf8(password)), token)
}

/// `url` leads to the destination of a wish: with a password the wish is in a
/// token, without one it is in the query.
pub open spec fn leads_to(
    url: Seq<char>,
    b: Seq<char>,
    path: Seq<char>,
    w: Wish,
    password: Option<Seq<char>>,
    exp: Option<u64>,
    ip: Option<Seq<char>>,
) -> bool {
    if password matches Some(p) && p.len() > 0 {
        exists|token: Seq<char>| #[trigger]
            is_sealed_url(url, b, path, w.filename, token) && all_base64url(token) && sealed(
                password->0,
                token,
            ) == Some(
                ProxyDataView {
                    destination: w.destination,
                    query_params: Some(pairs_map(w.query_params)),
                    request_headers: Some(pairs_map(w.request_headers)),
                    response_headers: Some(pairs_map(w.response_headers)),
                    exp,
                    ip,
                },
            )
    } else {
        is_plain_url(url, b, path, w)
    }
}

// ---------------------------------------------------------------------------
// Proofs
// ---------------------------------------------------------------------------

/// Slashes at the start are cut off.
proof fn lemma_trim_slashes(rest: Seq<char>, n: nat)
    requires
        rest.len() > 0 ==> rest[0] != '/',
    ensures
        trim_start_char(slashes(n) + rest, '/') == rest,
    decreases n,
{
    let t = slashes(n) + rest;
    if n == 0 {
        assert(t =~= rest);
    } else {
        assert(t.drop_first() =~= slashes((n - 1) as nat) + rest);
        lemma_trim_slashes(rest, (n - 1) as nat);
    }
}

/// A base URL and a path are read as they are written.
proof fn lemma_base_and_path(
    base: Seq<char>,
    b: Seq<char>,
    endpoint: Option<Seq<char>>,
    path: Seq<char>,
)
    requires
        is_base(base, b),
        is_path(endpoint, path),
    ensures
        trimmed_base(base) == b,
        endpoint_path(endpoint) == path,
{
    let n = choose|n: nat| base == b + #[trigger] slashes(n);
    lemma_trim_end(b, '/', n);
    assert(slashes(n) =~= Seq::new(n, |i: int| '/'));
    if let Some(e) = endpoint {
        if e.len() > 0 {
            let (m, rest) = choose|m: nat, rest: Seq<char>|
                e == #[trigger] (slashes(m) + rest) && (rest.len() > 0 ==> rest[0] != '/') && path
                    == "/"@ + rest;
            lemma_trim_slashes(rest, m);
        } else {
            assert(path =~= Seq::empty());
        }
    } else {
        assert(path =~= Seq::empty());
    }
}

/// The headers of one request alone are those of a seek.
proof fn lemma_seek(name: Seq<char>)
    ensures
        is_request_header(bare_name(name)) <==> is_seek_header(name),
{
    reveal_strlit("h_");
    reveal_strlit("range");
    reveal_strlit("if-range");
    reveal_strlit("h_range");
    reveal_strlit("h_if-range");
    let l = lowercase(name);
    if starts_with(l, "h_"@) {
        assert(l.subrange(0, 2) == "h_"@);
        assert(l[0] == l.subrange(0, 2)[0] && l[1] == l.subrange(0, 2)[1]);
        assert(l =~= "h_"@ + l.skip(2));
        assert("h_range"@ =~= "h_"@ + "range"@);
        assert("h_if-range"@ =~= "h_"@ + "if-range"@);
        assert("h_range"@.skip(2) =~= "range"@);
        assert("h_if-range"@.skip(2) =~= "if-range"@);
    } else {
        assert("h_range"@.subrange(0, 2) =~= "h_"@);
        assert("h_if-range"@.subrange(0, 2) =~= "h_"@);
    }
}

/// The URL parameters of a map are its pairs that are written.
proof fn lemma_pairs(p: Pairs, prefix: Seq<char>, steady: bool)
    ensures
        forall|j: int|
            0 <= j < p.len() && is_written(#[trigger] p[j], steady) ==> url_pairs(
                p,
                prefix,
                steady,
            ).contains((with_prefix(prefix, p[j].0), p[j].1)),
        forall|i: int|
            0 <= i < url_pairs(p, prefix, steady).len() ==> exists|j: int|
                0 <= j < p.len() && is_written(#[trigger] p[j], steady) && (#[trigger] url_pairs(
                    p,
                    prefix,
                    steady,
                )[i]) == (with_prefix(prefix, p[j].0), p[j].1),
    decreases p.len(),
{
    if p.len() > 0 {
        let init = p.drop_last();
        let rest = url_pairs(init, prefix, steady);
        let all = url_pairs(p, prefix, steady);
        lemma_pairs(init, prefix, steady);
        lemma_seek(p.last().0);
        assert forall|j: int| 0 <= j < p.len() && is_written(
            #[trigger] p[j],
            steady,
        ) implies all.contains((with_prefix(prefix, p[j].0), p[j].1)) by {
            if j < init.len() {
                assert(init[j] == p[j]);
                let k = choose|k: int|
                    0 <= k < rest.len() && rest[k] == (with_prefix(prefix, p[j].0), p[j].1);
                assert(all[k] == rest[k]);
            } else {
                assert(all[all.len() - 1] == (with_prefix(prefix, p[j].0), p[j].1));
            }
        }
        assert forall|i: int| 0 <= i < all.len() implies exists|j: int|
            0 <= j < p.len() && is_written(#[trigger] p[j], steady) && (#[trigger] all[i]) == (
                with_prefix(prefix, p[j].0),
                p[j].1,
            ) by {
            if i < rest.len() {
                assert(all[i] == rest[i]);
                let j = choose|j: int|
                    0 <= j < init.len() && is_written(#[trigger] init[j], steady) && rest[i] == (
                        with_prefix(prefix, init[j].0),
                        init[j].1,
                    );
                assert(p[j] == init[j]);
            } else {
                assert(is_written(p[p.len() - 1], steady));
            }
        }
    }
}

/// The parts of a run of parameters within a query.
proof fn lemma_run(
    all: Pairs,
    from: int,
    p: Pairs,
    prefix: Seq<char>,
    steady: bool,
)
    requires
        0 <= from,
        from + url_pairs(p, prefix, steady).len() <= all.len(),
        all.subrange(from, from + url_pairs(p, prefix, steady).len()) == url_pairs(
            p,
            prefix,
            steady,
        ),
    ensures
        have_all(query_parts(all), p, prefix, steady),
        forall|k: int|
            from <= k < from + url_pairs(p, prefix, steady).len() ==> is_one_of(
                #[trigger] query_parts(all)[k],
                p,
                prefix,
                steady,
            ),
{
    let run = url_pairs(p, prefix, steady);
    let parts = query_parts(all);
    lemma_pairs(p, prefix, steady);
    assert forall|j: int| 0 <= j < p.len() && is_written(
        #[trigger] p[j],
        steady,
    ) implies parts.contains(param(with_prefix(prefix, p[j].0), p[j].1)) by {
        let k = choose|k: int|
            0 <= k < run.len() && run[k] == (with_prefix(prefix, p[j].0), p[j].1);
        assert(all.subrange(from, from + run.len())[k] == all[from + k]);
        assert(parts[from + k] == param(with_prefix(prefix, p[j].0), p[j].1));
    }
    assert forall|k: int| from <= k < from + run.len() implies is_one_of(
        #[trigger] parts[k],
        p,
        prefix,
        steady,
    ) by {
        assert(all.subrange(from, from + run.len())[k - from] == all[k]);
        assert(run[k - from] == all[k]);
        let j = choose|j: int|
            0 <= j < p.len() && is_written(#[trigger] p[j], steady) && run[k - from] == (
                with_prefix(prefix, p[j].0),
                p[j].1,
            );
        assert(parts[k] == param(with_prefix(prefix, p[j].0), p[j].1));
    }
}

/// What a URL is asked for by its arguments.
pub open spec fn wish_of(a: UrlArgs) -> Wish {
    Wish {
        destination: a.destination,
        query_params: a.query_params,
        request_headers: a.request_headers,
        response_headers: a.response_headers,
        propagated: a.propagate_response_headers,
        removed: a.remove_response_headers,
        transformer: a.stream_transformer,
        filename: a.filename,
        in_path: a.base64_encode_destination,
    }
}

/// The parts of a flat URL.
#[verifier::rlimit(30)]
proof fn lemma_flat_parts(a: UrlArgs)
    ensures
        are_parts(query_parts(flat_params(a)), wish_of(a)),
{
    let all = flat_params(a);
    let parts = query_parts(all);
    let none = Seq::<char>::empty();
    let d = if a.base64_encode_destination {
        Seq::<(Seq<char>, Seq<char>)>::empty()
    } else {
        seq![("d"@, a.destination)]
    };
    let q = url_pairs(a.query_params, none, false);
    let h = url_pairs(a.request_headers, "h_"@, true);
    let r = url_pairs(a.response_headers, "r_"@, false);
    let g = url_pairs(a.propagate_response_headers, "rp_"@, false);
    let n1 = d.len() as int;
    let n2 = n1 + q.len();
    let n3 = n2 + h.len();
    let n4 = n3 + r.len();
    let n5 = n4 + g.len();
    let x = if a.remove_response_headers.len() > 0 {
        seq![("x_headers"@, join_texts(a.remove_response_headers, ","@))]
    } else {
        Seq::<(Seq<char>, Seq<char>)>::empty()
    };
    let t = match a.stream_transformer {
        Some(t) => seq![("transformer"@, t)],
        None => Seq::<(Seq<char>, Seq<char>)>::empty(),
    };
    let n6 = n5 + x.len();
    assert(all =~= d + q + h + r + g + x + t);
    assert(all.subrange(n1, n2) =~= q);
    assert(all.subrange(n2, n3) =~= h);
    assert(all.subrange(n3, n4) =~= r);
    assert(all.subrange(n4, n5) =~= g);
    lemma_run(all, n1, a.query_params, none, false);
    lemma_run(all, n2, a.request_headers, "h_"@, true);
    lemma_run(all, n3, a.response_headers, "r_"@, false);
    lemma_run(all, n4, a.propagate_response_headers, "rp_"@, false);
    let w = wish_of(a);
    let pd = param("d"@, w.destination);
    let px = param("x_headers"@, join_texts(w.removed, ","@));
    let pt = param("transformer"@, w.transformer->0);
    if !w.in_path {
        assert(all[0] == ("d"@, a.destination));
        assert(parts[0] == pd);
    }
    if w.removed.len() > 0 {
        assert(all[n5] == x[0]);
        assert(parts[n5] == px);
    }
    if w.transformer is Some {
        assert(all[n6] == t[0]);
        assert(parts[n6] == pt);
    }
    assert forall|k: int| 0 <= k < parts.len() implies {
        ||| !w.in_path && #[trigger] parts[k] == pd
        ||| is_one_of(parts[k], w.query_params, Seq::empty(), false)
        ||| is_one_of(parts[k], w.request_headers, "h_"@, true)
        ||| is_one_of(parts[k], w.response_headers, "r_"@, false)
        ||| is_one_of(parts[k], w.propagated, "rp_"@, false)
        ||| w.removed.len() > 0 && parts[k] == px
        ||| w.transformer is Some && parts[k] == pt
    } by {
        if k < n1 {
            assert(k == 0);
        } else if k < n2 {
            assert(is_one_of(parts[k], w.query_params, none, false));
        } else if k < n3 {
            assert(is_one_of(parts[k], w.request_headers, "h_"@, true));
        } else if k < n4 {
            assert(is_one_of(parts[k], w.response_headers, "r_"@, false));
        } else if k < n5 {
            assert(is_one_of(parts[k], w.propagated, "rp_"@, false));
        } else if k < n6 {
            assert(k == n5);
        } else {
            assert(k == n6);
        }
    }
}

/// A proxy URL leads to the destination of its arguments.
pub proof fn lemma_leads_to(a: UrlArgs, url: Seq<char>, b: Seq<char>, path: Seq<char>)
    requires
        is_proxy_url(a, url),
        is_base(a.base, b),
        is_path(a.endpoint, path),
    ensures
        leads_to(url, b, path, wish_of(a), a.api_password, a.exp, a.ip),
{
    lemma_base_and_path(a.base, b, a.endpoint, path);
    if a.api_password matches Some(p) && p.len() > 0 {
        let token = choose|token: Seq<char>| #[trigger]
            carries(a.api_password->0, token, a) && url == token_url(a, token);
        assert(is_sealed_url(url, b, path, a.filename, token));
    } else {
        lemma_flat_parts(a);
        let parts = query_parts(flat_params(a));
        let w = wish_of(a);
        let tail = if w.in_path {
            "/"@ + base64url_encoded(encode_utf8(w.destination))
        } else {
            name_segment(w.filename)
        };
        let start = b + path + tail;
        if w.in_path {
            assert(b + path + "/"@ + base64url_encoded(encode_utf8(w.destination)) =~= start);
        }
        assert(are_parts(parts, w));
        assert(url == if parts.len() == 0 {
            start
        } else {
            start + "?"@ + join_texts(parts, "&"@)
        });
    }
}

// ---------------------------------------------------------------------------
// Laws
// ---------------------------------------------------------------------------

/// A URL request gives a URL that leads to its destination, with the parameters and
/// headers that it names.
pub proof fn law_generated_url(
    req: &GenerateUrlRequest,
    now: u64,
    out: AppResult<String>,
    b: Seq<char>,
    path: Seq<char>,
)
    requires
        call_ensures(generate_url, (req, now), out),
        is_base(req.mediaflow_proxy_url@, b),
        is_path(opt_text(req.endpoint), path),
        req.expiration matches Some(e) ==> now + e <= u64::MAX,
    ensures
        out matches Ok(url) && leads_to(
            url@,
            b,
            path,
            Wish {
                destination: req.destination_url@,
                query_params: req.query_params@,
                request_headers: req.request_headers@,
                response_headers: req.response_headers@,
                propagated: req.propagate_response_headers@,
                removed: texts(req.remove_response_headers@),
                transformer: opt_text(req.stream_transformer),
                filename: opt_text(req.filename),
                in_path: req.base64_encode_destination,
            },
            opt_text(req.api_password),
            match req.expiration {
                Some(e) => Some((now + e) as u64),
                None => None,
            },
            opt_text(req.ip),
        ),
{
    lemma_leads_to(req.args(now), out->Ok_0@, b, path);
}

/// A request for several URLs gives one for each item, in order. Each leads to the
/// destination of its item, with the item's own endpoint, parameters and headers,
/// and with the base, password, expiration and address of the request.
pub proof fn law_generated_urls(
    req: &GenerateMultiUrlRequest,
    now: u64,
    out: AppResult<Vec<String>>,
    i: int,
    b: Seq<char>,
    path: Seq<char>,
)
    requires
        call_ensures(generate_urls, (req, now), out),
        0 <= i < req.urls@.len(),
        is_base(req.mediaflow_proxy_url@, b),
        is_path(opt_text(req.urls@[i].endpoint), path),
        req.expiration matches Some(e) ==> now + e <= u64::MAX,
    ensures
        out matches Ok(urls) && urls@.len() == req.urls@.len() && leads_to(
            urls@[i]@,
            b,
            path,
            Wish {
                destination: req.urls@[i].destination_url@,
                query_params: req.urls@[i].query_params@,
                request_headers: req.urls@[i].request_headers@,
                response_headers: req.urls@[i].response_headers@,
                propagated: req.urls@[i].propagate_response_headers@,
                removed: texts(req.urls@[i].remove_response_headers@),
                transformer: opt_text(req.urls@[i].stream_transformer),
                filename: opt_text(req.urls@[i].filename),
                in_path: req.urls@[i].base64_encode_destination,
            },
            opt_text(req.api_password),
            match req.expiration {
                Some(e) => Some((now + e) as u64),
                None => None,
            },
            opt_text(req.ip),
        ),
{
    lemma_leads_to(req.args(req.urls@[i], now), out->Ok_0@[i]@, b, path);
}

/// A part of a joined text stands in it.
proof fn lemma_part_stands(parts: Seq<Seq<char>>, sep: Seq<char>, k: int)
    requires
        0 <= k < parts.len(),
    ensures
        contains(join_texts(parts, sep), parts[k]),
    decreases parts.len(),
{
    let all = join_texts(parts, sep);
    let part = parts[k];
    if parts.len() == 1 {
        assert(all.subrange(0, all.len() as int) =~= part);
        assert(matches_at(all, part, 0));
    } else if k == parts.len() - 1 {
        let at = all.len() - part.len();
        assert(all.subrange(at, all.len() as int) =~= part);
        assert(matches_at(all, part, at));
    } else {
        let init = parts.drop_last();
        lemma_part_stands(init, sep, k);
        let front = join_texts(init, sep);
        let at = choose|at: int| matches_at(front, part, at);
        assert(all.subrange(at, at + part.len()) =~= front.subrange(at, at + part.len()));
        assert(matches_at(all, part, at));
    }
}

/// A text that stands behind another stands in the whole.
proof fn lemma_stands_behind(a: Seq<char>, b: Seq<char>, p: Seq<char>)
    requires
        contains(b, p),
    ensures
        contains(a + b, p),
{
    let at = choose|at: int| matches_at(b, p, at);
    let n = a.len() + at;
    assert((a + b).subrange(n, n + p.len()) =~= b.subrange(at, at + p.len()));
    assert(matches_at(a + b, p, n));
}

/// A header of an item that has a value and belongs to no single request is carried
/// by the item's URL: in the query, as `h_<name>=<value>`, or in the token.
pub proof fn law_item_headers_are_carried(
    req: &GenerateMultiUrlRequest,
    now: u64,
    urls: Vec<String>,
    i: int,
    j: int,
    name: Seq<char>,
    value: Seq<char>,
    b: Seq<char>,
    path: Seq<char>,
)
    requires
        call_ensures(generate_urls, (req, now), Ok::<Vec<String>, AppError>(urls)),
        0 <= i < req.urls@.len(),
        0 <= j < req.urls@[i].request_headers@.len(),
        req.urls@[i].request_headers@[j] == (name, value),
        value.len() > 0,
        !is_seek_header(name),
        !starts_with(name, "h_"@),
        is_base(req.mediaflow_proxy_url@, b),
        is_path(opt_text(req.urls@[i].endpoint), path),
        req.expiration matches Some(e) ==> now + e <= u64::MAX,
    ensures
        req.api_password is None ==> contains(
            urls@[i]@,
            "h_"@ + name + "="@ + percent_encoded(value),
        ),
        req.api_password matches Some(p) && p@.len() > 0 ==> exists|token: Seq<char>|
            #[trigger] is_sealed_url(
                urls@[i]@,
                b,
                path,
                opt_text(req.urls@[i].filename),
                token,
            ) && (sealed(req.api_password->0@, token) matches Some(d) && d.request_headers == Some(
                pairs_map(req.urls@[i].request_headers@),
            )),
{
    law_generated_urls(
        req,
        now,
        Ok::<Vec<String>, AppError>(urls),
        i,
        b,
        path,
    );
    let item = req.urls@[i];
    let w = Wish {
        destination: item.destination_url@,
        query_params: item.query_params@,
        request_headers: item.request_headers@,
        response_headers: item.response_headers@,
        propagated: item.propagate_response_headers@,
        removed: texts(item.remove_response_headers@),
        transformer: opt_text(item.stream_transformer),
        filename: opt_text(item.filename),
        in_path: item.base64_encode_destination,
    };
    if req.api_password is None {
        let start = b + path + if w.in_path {
            "/"@ + base64url_encoded(encode_utf8(w.destination))
        } else {
            name_segment(w.filename)
        };
        assert(is_plain_url(urls@[i]@, b, path, w));
        let parts = choose|parts: Seq<Seq<char>>| #[trigger]
            are_parts(parts, w) && urls@[i]@ == if parts.len() == 0 {
                start
            } else {
                start + "?"@ + join_texts(parts, "&"@)
            };
        let part = param("h_"@ + name, value);
        assert(is_written(item.request_headers@[j], true));
        assert(parts.contains(part));
        let k = choose|k: int| 0 <= k < parts.len() && parts[k] == part;
        lemma_part_stands(parts, "&"@, k);
        lemma_stands_behind(start + "?"@, join_texts(parts, "&"@), part);
    }
}

/// The builder of all proxy URLs gives a URL that leads to the destination, with
/// what it is handed.
pub proof fn law_built_url(
    base: &str,
    endpoint: Option<&str>,
    destination: &str,
    query_params: &StringMap,
    request_headers: &StringMap,
    response_headers: &StringMap,
    propagated: &StringMap,
    removed: &Vec<String>,
    transformer: Option<&str>,
    filename: Option<&str>,
    password: Option<&str>,
    expiration: Option<u64>,
    ip: Option<&str>,
    in_path: bool,
    now: u64,
    out: AppResult<String>,
    b: Seq<char>,
    path: Seq<char>,
)
    requires
        call_ensures(
            build_proxy_url,
            (
                base,
                endpoint,
                destination,
                query_params,
                request_headers,
                response_headers,
                propagated,
                removed,
                transformer,
                filename,
                password,
                expiration,
                ip,
                in_path,
                now,
            ),
            out,
        ),
        is_base(base@, b),
        is_path(opt_str(endpoint), path),
        expiration matches Some(e) ==> now + e <= u64::MAX,
    ensures
        out matches Ok(url) && leads_to(
            url@,
            b,
            path,
            Wish {
                destination: destination@,
                query_params: query_params@,
                request_headers: request_headers@,
                response_headers: response_headers@,
                propagated: propagated@,
                removed: texts(removed@),
                transformer: opt_str(transformer),
                filename: opt_str(filename),
                in_path,
            },
            opt_str(password),
            match expiration {
                Some(e) => Some((now + e) as u64),
                None => None,
            },
            opt_str(ip),
        ),
{
    let a = crate::proxy::urls::url_args(
        base,
        endpoint,
        destination,
        query_params,
        request_headers,
        response_headers,
        propagated,
        removed,
        transformer,
        filename,
        password,
        expiration,
        ip,
        in_path,
        now,
    );
    lemma_leads_to(a, out->Ok_0@, b, path);
}

// ---------------------------------------------------------------------------
// Tokens
// ---------------------------------------------------------------------------

/// Two maps hold the same.
pub open spec fn same_entries(a: Option<StringMap>, b: Option<StringMap>) -> bool {
    match (a, b) {
        (Some(x), Some(y)) => forall|k: Seq<char>| lookup(x@, k) == #[trigger] lookup(y@, k),
        (None, None) => true,
        _ => false,
    }
}

/// Maps that stand for the same map hold the same.
proof fn lemma_same_entries(a: Option<StringMap>, b: Option<StringMap>)
    requires
        opt_pairs_map(a) == opt_pairs_map(b),
    ensures
        same_entries(a, b),
{
    if let Some(x) = a {
        if let Some(y) = b {
            assert forall|k: Seq<char>| lookup(x@, k) == #[trigger] lookup(y@, k) by {
                let m = pairs_map(x@);
                let n = pairs_map(y@);
                assert(m.contains_key(k) == n.contains_key(k));
                if m.contains_key(k) {
                    assert(m[k] == n[k]);
                }
            }
        }
    }
}

/// What is sealed under a secret is opened under the same secret, whole, by every
/// client that the data is not bound away from.
pub proof fn law_sealed_data_is_opened(
    secret: &[u8],
    h: &EncryptionHandler,
    other: &[u8],
    g: &EncryptionHandler,
    data: &ProxyData,
    sealed_token: String,
    token: &str,
    client: Option<&str>,
    out: AppResult<ProxyData>,
)
    requires
        call_ensures(EncryptionHandler::new, (secret,), Ok::<EncryptionHandler, AppError>(*h)),
        call_ensures(EncryptionHandler::new, (other,), Ok::<EncryptionHandler, AppError>(*g)),
        secret@ == other@,
        call_ensures(EncryptionHandler::encrypt, (h, data), Ok::<String, AppError>(sealed_token)),
        token@ == sealed_token@,
        call_ensures(EncryptionHandler::decrypt, (g, token, client), out),
        data.ip is None || client is None || opt_text(data.ip) == opt_str(client),
    ensures
        out matches Ok(d) && {
            &&& d.destination@ == data.destination@
            &&& same_entries(d.query_params, data.query_params)
            &&& same_entries(d.request_headers, data.request_headers)
            &&& same_entries(d.response_headers, data.response_headers)
            &&& d.exp == data.exp
            &&& opt_text(d.ip) == opt_text(data.ip)
        },
{
    if let Ok(d) = out {
        assert(d@ == data@);
        lemma_same_entries(d.query_params, data.query_params);
        lemma_same_entries(d.request_headers, data.request_headers);
        lemma_same_entries(d.response_headers, data.response_headers);
    }
}

/// Every secret that is not empty makes a key, and all data can be sealed.
pub proof fn law_sealing_succeeds(
    secret: &[u8],
    made: AppResult<EncryptionHandler>,
    h: &EncryptionHandler,
    data: &ProxyData,
    out: AppResult<String>,
)
    requires
        call_ensures(EncryptionHandler::new, (secret,), made),
        call_ensures(EncryptionHandler::encrypt, (h, data), out),
    ensures
        made is Ok <==> secret@.len() > 0,
        out is Ok,
{
}

/// Data that is bound to one address is not given to a client with another.
pub proof fn law_bound_data_is_withheld(
    secret: &[u8],
    h: &EncryptionHandler,
    data: &ProxyData,
    sealed_token: String,
    token: &str,
    client: &str,
    out: AppResult<ProxyData>,
)
    requires
        call_ensures(EncryptionHandler::new, (secret,), Ok::<EncryptionHandler, AppError>(*h)),
        call_ensures(EncryptionHandler::encrypt, (h, data), Ok::<String, AppError>(sealed_token)),
        token@ == sealed_token@,
        call_ensures(EncryptionHandler::decrypt, (h, token, Some(client)), out),
        data.ip matches Some(ip) && ip@ != client@,
    ensures
        out matches Err(AppError::Forbidden(_)),
{
    if let Err(e) = out {
        assert(e@ is Forbidden);
    }
}

/// The token of a generated URL, cut out between the marker and the next slash,
/// opens under the password to what the request names.
pub proof fn law_generated_url_opens(
    req: &GenerateUrlRequest,
    now: u64,
    url: String,
    b: Seq<char>,
    path: Seq<char>,
    password: String,
    secret: &[u8],
    h: &EncryptionHandler,
    token: &str,
    tail: Seq<char>,
    out: AppResult<ProxyData>,
)
    requires
        call_ensures(generate_url, (req, now), Ok::<String, AppError>(url)),
        is_base(req.mediaflow_proxy_url@, b),
        is_path(opt_text(req.endpoint), path),
        req.expiration matches Some(e) ==> now + e <= u64::MAX,
        req.api_password == Some(password) && password@.len() > 0,
        secret@ == encode_utf8(password@),
        call_ensures(EncryptionHandler::new, (secret,), Ok::<EncryptionHandler, AppError>(*h)),
        url@ == b + "/_token_"@ + token@ + tail,
        !token@.contains('/'),
        tail.len() > 0 ==> tail[0] == '/',
        call_ensures(EncryptionHandler::decrypt, (h, token, None::<&str>), out),
    ensures
        out matches Ok(d) && {
            &&& d.destination@ == req.destination_url@
            &&& same_entries(d.query_params, Some(req.query_params))
            &&& same_entries(d.request_headers, Some(req.request_headers))
            &&& same_entries(d.response_headers, Some(req.response_headers))
            &&& d.exp is Some <==> req.expiration is Some
            &&& req.expiration matches Some(e) ==> d.exp == Some((now + e) as u64)
            &&& opt_text(d.ip) == opt_text(req.ip)
        },
        tail == path + name_segment(opt_text(req.filename)),
{
    law_generated_url(req, now, Ok::<String, AppError>(url), b, path);
    let filename = opt_text(req.filename);
    let data = ProxyDataView {
        destination: req.destination_url@,
        query_params: Some(pairs_map(req.query_params@)),
        request_headers: Some(pairs_map(req.request_headers@)),
        response_headers: Some(pairs_map(req.response_headers@)),
        exp: match req.expiration {
            Some(e) => Some((now + e) as u64),
            None => None,
        },
        ip: opt_text(req.ip),
    };
    let t = choose|t: Seq<char>| #[trigger]
        is_sealed_url(url@, b, path, filename, t) && all_base64url(t) && sealed(password@, t)
            == Some(data);
    lemma_path_head(opt_text(req.endpoint), path, filename);
    lemma_sealed_token(url@, b, path, filename, t, token@, tail);
    if let Ok(d) = out {
        assert(d@ == data);
        lemma_same_entries(d.query_params, Some(req.query_params));
        lemma_same_entries(d.request_headers, Some(req.request_headers));
        lemma_same_entries(d.response_headers, Some(req.response_headers));
    }
}

/// What follows a token is empty or begins with a slash.
proof fn lemma_path_head(endpoint: Option<Seq<char>>, path: Seq<char>, filename: Option<Seq<char>>)
    requires
        is_path(endpoint, path),
    ensures
        ({
            let rest = path + name_segment(filename);
            rest.len() > 0 ==> rest[0] == '/'
        }),
{
    reveal_strlit("/");
    if let Some(e) = endpoint {
        if e.len() > 0 {
            let (n, r) = choose|n: nat, r: Seq<char>|
                e == #[trigger] (slashes(n) + r) && (r.len() > 0 ==> r[0] != '/') && path == "/"@
                    + r;
            assert(path[0] == '/');
        }
    }
}

/// The token that is cut out of a URL is the one that was put in.
proof fn lemma_sealed_token(
    url: Seq<char>,
    b: Seq<char>,
    path: Seq<char>,
    filename: Option<Seq<char>>,
    t: Seq<char>,
    token: Seq<char>,
    tail: Seq<char>,
)
    requires
        is_sealed_url(url, b, path, filename, t),
        all_base64url(t),
        url == b + "/_token_"@ + token + tail,
        !token.contains('/'),
        tail.len() > 0 ==> tail[0] == '/',
        ({
            let rest = path + name_segment(filename);
            rest.len() > 0 ==> rest[0] == '/'
        }),
    ensures
        t == token,
        tail == path + name_segment(filename),
{
    let rest = path + name_segment(filename);
    let front = b + "/_token_"@;
    assert(!t.contains('/')) by {
        if t.contains('/') {
            let i = choose|i: int| 0 <= i < t.len() && t[i] == '/';
            assert(is_base64url_char(t[i]));
        }
    }
    assert(url =~= front + (t + rest));
    assert(url =~= front + (token + tail));
    assert(url.skip(front.len() as int) =~= t + rest);
    assert(url.skip(front.len() as int) =~= token + tail);
    lemma_same_head(t, rest, token, tail);
}

/// Two texts that are cut at their first slash are cut alike.
proof fn lemma_same_head(a: Seq<char>, x: Seq<char>, b: Seq<char>, y: Seq<char>)
    requires
        a + x == b + y,
        !a.contains('/'),
        !b.contains('/'),
        x.len() > 0 ==> x[0] == '/',
        y.len() > 0 ==> y[0] == '/',
    ensures
        a == b,
        x == y,
{
    if a.len() < b.len() {
        assert((a + x)[a.len() as int] == x[0]);
        assert((b + y)[a.len() as int] == b[a.len() as int]);
    }
    if b.len() < a.len() {
        assert((b + y)[b.len() as int] == y[0]);
        assert((a + x)[b.len() as int] == a[b.len() as int]);
    }
    assert(a =~= (a + x).take(a.len() as int));
    assert(b =~= (b + y).take(b.len() as int));
    assert(x =~= (a + x).skip(a.len() as int));
    assert(y =~= (b + y).skip(b.len() as int));
}

/// Data expires right behind its last second.
pub proof fn law_expiry(data: &ProxyData, now: u64, r: bool)
    requires
        call_ensures(ProxyData::is_expired, (data, now), r),
    ensures
        data.exp is None ==> !r,
        data.exp matches Some(t) ==> (r <==> t < now),
{
}

// ---------------------------------------------------------------------------
// Base64
// ---------------------------------------------------------------------------

/// Every URL can be encoded; what is no web URL in base64 is not decoded.
pub proof fn law_base64_answers(
    query: &Base64Query,
    encoded: AppResult<String>,
    decoded: AppResult<String>,
)
    requires
        call_ensures(base64_encode, (query,), encoded),
        call_ensures(base64_decode, (query,), decoded),
    ensures
        encoded is Ok <==> query.url is Some,
        decoded matches Ok(t) ==> starts_with(t@, "http://"@) || starts_with(t@, "https://"@),
{
}

/// A web URL that is encoded is recognised, and decodes to itself.
pub proof fn law_encoded_url_decodes(
    query: &Base64Query,
    encoded: String,
    back: &Base64Query,
    out: AppResult<String>,
    checked: AppResult<Option<String>>,
)
    requires
        call_ensures(base64_encode, (query,), Ok::<String, AppError>(encoded)),
        query.url matches Some(u) && (starts_with(u@, "http://"@) || starts_with(
            u@,
            "https://"@,
        )),
        opt_text(back.encoded_url) == Some(encoded@),
        opt_text(back.url) == Some(encoded@),
        call_ensures(base64_decode, (back,), out),
        call_ensures(base64_check, (back,), checked),
    ensures
        out matches Ok(t) && t@ == query.url->0@,
        checked matches Ok(Some(t)) && t@ == query.url->0@,
{
}

} // verus!
