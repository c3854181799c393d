//! Laws on the plain stream endpoint and its upstream connections.

use vstd::prelude::*;
use vstd::utf8::encode_utf8;

use crate::auth::encryption::ProxyData;
use crate::config::{
    first_match, route_regex, routes_of, wildcards, with_route, ProxyConfig, ProxyRouteConfig,
    ProxyRouter, RouteView,
};
use crate::error::{AppError, AppResult};
use crate::laws::texts::{begins_once, lemma_replaced_nowhere, lemma_replaced_once};
use crate::proxy::handler::{
    answer_header, choose_destination, plan_body, resolve_stream_destination, response_headers,
    upstream_headers, BodyPlan,
};
use crate::proxy::stream::{
    bool_text, check_status, client_cache_key, get_proxy_url_for, header_timeout_secs, host_limit,
    plan_route_client, url_host_key, RouteClientPlan,
};
use crate::route_pattern::{regex_found, regex_valid};
use crate::string_map::{lookup, pair_texts, Pairs, StringMap};
use crate::text::{contains, decimal, law_decimal_round_trip, opt_str, opt_text, starts_with};
use crate::utils::base64_url::{decoded_url, encode_url_to_base64};
use crate::utils::url::{parsed_url, UrlParts};

verus! {

// ---------------------------------------------------------------------------
// Destinations
// ---------------------------------------------------------------------------

/// A web URL in base64 is streamed as what it stands for, whether it is the
/// destination or, where there is none, the file name in the path. Any other
/// destination is streamed as it is.
pub proof fn law_stream_destinations(
    data: &ProxyData,
    filename: Option<&str>,
    out: Option<String>,
    url: &str,
    encoded: String,
)
    requires
        call_ensures(resolve_stream_destination, (data, filename), out),
        call_ensures(encode_url_to_base64, (url,), encoded),
        starts_with(url@, "http://"@) || starts_with(url@, "https://"@),
        encoded@.len() > 0,
    ensures
        data.destination@ == encoded@ ==> opt_text(out) == Some(url@),
        data.destination@.len() == 0 && opt_str(filename) == Some(encoded@) ==> opt_text(out)
            == Some(url@),
        data.destination@.len() > 0 && decoded_url(data.destination@) is None ==> opt_text(out)
            == Some(data.destination@),
        data.destination@.len() == 0 && filename is None ==> out is None,
{
}

/// The destination that was found goes before that of the data; without either there
/// is nothing to stream.
pub proof fn law_chosen_destinations(
    found: Option<String>,
    data: &ProxyData,
    out: AppResult<String>,
)
    requires
        call_ensures(choose_destination, (found, data), out),
    ensures
        found matches Some(d) && d@.len() > 0 ==> (out matches Ok(u) && u@ == found->0@),
        found is None && data.destination@.len() > 0 ==> (out matches Ok(u) && u@
            == data.destination@),
        found is None && data.destination@.len() == 0 ==> (out matches Err(
            AppError::BadRequest(_),
        )),
{
    if let Err(e) = out {
        assert(e@ is BadRequest);
    }
}

// ---------------------------------------------------------------------------
// Headers and bodies
// ---------------------------------------------------------------------------

/// The player's range headers go upstream, and then all headers of the data, which
/// override them.
pub proof fn law_upstream_headers(
    range: Option<Vec<u8>>,
    if_range: Option<Vec<u8>>,
    data: &ProxyData,
    headers: StringMap,
    out: Vec<(String, Vec<u8>)>,
    j: int,
)
    requires
        call_ensures(upstream_headers, (range, if_range, data), out),
        data.request_headers == Some(headers),
        0 <= j < headers@.len(),
    ensures
        range matches Some(r) ==> out@[0].0@ == "range"@ && out@[0].1@ == r@,
        if_range is Some ==> {
            let k: int = if range is Some {
                1
            } else {
                0
            };
            out@[k].0@ == "if-range"@ && out@[k].1@ == if_range->0@
        },
        ({
            let n = (if range is Some {
                1int
            } else {
                0
            }) + (if if_range is Some {
                1int
            } else {
                0
            });
            &&& out@.len() == n + headers@.len()
            &&& out@[n + j].0@ == headers@[j].0
            &&& out@[n + j].1@ == encode_utf8(headers@[j].1)
        }),
{
    let v = crate::proxy::handler::header_views(out@);
    assert(v.len() == out@.len());
    let a = crate::proxy::handler::player_header("range"@, range);
    let b = crate::proxy::handler::player_header("if-range"@, if_range);
    let d = crate::proxy::handler::data_headers(headers@);
    assert(v == a + b + d);
    let n = a.len() + b.len();
    assert(v[n + j] == d[j]);
    assert(v[n + j] == (out@[n + j].0@, out@[n + j].1@));
    if range is Some {
        assert(v[0] == a[0]);
        assert(v[0] == (out@[0].0@, out@[0].1@));
    }
    if if_range is Some {
        assert(v[a.len() as int] == b[0]);
        assert(v[a.len() as int] == (out@[a.len() as int].0@, out@[a.len() as int].1@));
    }
}

/// The headers of an upstream answer that players need.
pub open spec fn passed_on() -> Seq<Seq<char>> {
    seq![
        "accept-ranges"@,
        "content-type"@,
        "content-length"@,
        "content-range"@,
        "last-modified"@,
        "etag"@,
        "cache-control"@,
        "expires"@,
    ]
}

/// The headers that players need go on to them with their values, and the data's own
/// headers come behind them. Nothing else does.
pub proof fn law_answer_headers(
    upstream: &Vec<(String, String)>,
    data: &ProxyData,
    out: Vec<(String, String)>,
)
    requires
        call_ensures(response_headers, (upstream, data), out),
    ensures
        forall|i: int|
            0 <= i < passed_on().len() ==> (lookup(
                pair_texts(upstream@),
                #[trigger] passed_on()[i],
            ) matches Some(v) ==> pair_texts(out@).contains((passed_on()[i], v))),
        data.response_headers is None ==> forall|k: int|
            0 <= k < out@.len() ==> passed_on().contains((#[trigger] out@[k]).0@) && lookup(
                pair_texts(upstream@),
                out@[k].0@,
            ) == Some(out@[k].1@),
        data.response_headers matches Some(h) ==> out@.len() >= h@.len() && forall|j: int|
            0 <= j < h@.len() ==> {
                let k = out@.len() - h@.len() + j;
                (#[trigger] h@[j]) == (out@[k].0@, out@[k].1@)
            },
{
    let u = pair_texts(upstream@);
    let names = passed_on();
    let front = crate::proxy::handler::answer_headers(u);
    let back = crate::hls::handler::carried_headers(data.response_headers);
    let all = pair_texts(out@);
    assert(all == front + back);
    lemma_front(u);
    assert forall|i: int| 0 <= i < names.len() implies (lookup(
        u,
        #[trigger] names[i],
    ) matches Some(v) ==> all.contains((names[i], v))) by {
        if let Some(v) = lookup(u, names[i]) {
            let k = choose|k: int| 0 <= k < front.len() && front[k] == (names[i], v);
            assert(all[k] == front[k]);
        }
    }
    if data.response_headers is None {
        assert forall|k: int| 0 <= k < out@.len() implies names.contains((#[trigger] out@[k]).0@)
            && lookup(u, out@[k].0@) == Some(out@[k].1@) by {
            assert(all[k] == front[k]);
            assert(all[k] == (out@[k].0@, out@[k].1@));
        }
    }
    if let Some(h) = data.response_headers {
        assert(all.len() == out@.len());
        assert forall|j: int| 0 <= j < h@.len() implies {
            let k = out@.len() - h@.len() + j;
            (#[trigger] h@[j]) == (out@[k].0@, out@[k].1@)
        } by {
            let k = out@.len() - h@.len() + j;
            assert(all[k] == back[j]);
            assert(all[k] == (out@[k].0@, out@[k].1@));
        }
    }
}

/// One more header keeps those before it.
proof fn lemma_grows(u: Pairs, before: Pairs, name: Seq<char>)
    requires
        forall|k: int|
            0 <= k < before.len() ==> passed_on().contains((#[trigger] before[k]).0) && lookup(
                u,
                before[k].0,
            ) == Some(before[k].1),
        passed_on().contains(name),
    ensures
        ({
            let now = before + answer_header(u, name);
            &&& forall|k: int|
                0 <= k < now.len() ==> passed_on().contains((#[trigger] now[k]).0) && lookup(
                    u,
                    now[k].0,
                ) == Some(now[k].1)
            &&& lookup(u, name) matches Some(v) ==> now.contains((name, v))
            &&& forall|x: (Seq<char>, Seq<char>)| #[trigger] before.contains(x) ==> now.contains(x)
        }),
{
    let now = before + answer_header(u, name);
    assert forall|k: int| 0 <= k < now.len() implies passed_on().contains((#[trigger] now[k]).0)
        && lookup(u, now[k].0) == Some(now[k].1) by {
        if k < before.len() {
            assert(now[k] == before[k]);
        }
    }
    if let Some(v) = lookup(u, name) {
        assert(now[before.len() as int] == (name, v));
    }
    assert forall|x: (Seq<char>, Seq<char>)| #[trigger] before.contains(x) implies now.contains(
        x,
    ) by {
        let k = choose|k: int| 0 <= k < before.len() && before[k] == x;
        assert(now[k] == x);
    }
}

/// The headers that go on.
proof fn lemma_front(u: Pairs)
    ensures
        ({
            let front = crate::proxy::handler::answer_headers(u);
            &&& forall|k: int|
                0 <= k < front.len() ==> passed_on().contains((#[trigger] front[k]).0) && lookup(
                    u,
                    front[k].0,
                ) == Some(front[k].1)
            &&& forall|i: int|
                0 <= i < passed_on().len() ==> (lookup(u, #[trigger] passed_on()[i]) matches Some(v)
                    ==> front.contains((passed_on()[i], v)))
        }),
{
    let n = passed_on();
    assert(n.contains(n[0]) && n.contains(n[1]) && n.contains(n[2]) && n.contains(n[3]));
    assert(n.contains(n[4]) && n.contains(n[5]) && n.contains(n[6]) && n.contains(n[7]));
    let f0 = answer_header(u, n[0]);
    let none: Pairs = Seq::empty();
    assert(none + f0 =~= f0);
    lemma_grows(u, none, n[0]);
    let f1 = f0 + answer_header(u, n[1]);
    lemma_grows(u, f0, n[1]);
    let f2 = f1 + answer_header(u, n[2]);
    lemma_grows(u, f1, n[2]);
    let f3 = f2 + answer_header(u, n[3]);
    lemma_grows(u, f2, n[3]);
    let f4 = f3 + answer_header(u, n[4]);
    lemma_grows(u, f3, n[4]);
    let f5 = f4 + answer_header(u, n[5]);
    lemma_grows(u, f4, n[5]);
    let f6 = f5 + answer_header(u, n[6]);
    lemma_grows(u, f5, n[6]);
    let f7 = f6 + answer_header(u, n[7]);
    lemma_grows(u, f6, n[7]);
    assert(f7 == crate::proxy::handler::answer_headers(u));
    assert forall|i: int| 0 <= i < n.len() implies (lookup(u, #[trigger] n[i]) matches Some(v)
        ==> f7.contains((n[i], v))) by {
        if let Some(v) = lookup(u, n[i]) {
            let x = (n[i], v);
            assert(i == 0 ==> f0.contains(x));
            assert(i <= 1 ==> f1.contains(x));
            assert(i <= 2 ==> f2.contains(x));
            assert(i <= 3 ==> f3.contains(x));
            assert(i <= 4 ==> f4.contains(x));
            assert(i <= 5 ==> f5.contains(x));
            assert(i <= 6 ==> f6.contains(x));
        }
    }
}

/// A body is sent with its announced length, or in chunks where none is announced; a
/// request for the headers alone gets no body.
pub proof fn law_bodies(
    is_head: bool,
    has_stream: bool,
    header: Option<&str>,
    out: AppResult<BodyPlan>,
    n: u64,
)
    requires
        call_ensures(plan_body, (is_head, has_stream, header), out),
        header matches Some(h) ==> h@ == decimal(n as int),
        header is None ==> n == 0,
    ensures
        is_head ==> out == Ok::<BodyPlan, AppError>(BodyPlan::Empty(n)),
        !is_head && has_stream && n > 0 ==> out == Ok::<BodyPlan, AppError>(BodyPlan::Sized(n)),
        !is_head && has_stream && n == 0 ==> out == Ok::<BodyPlan, AppError>(BodyPlan::Chunked),
        !is_head && !has_stream ==> out is Err,
{
    law_decimal_round_trip(n as int, u64::MAX as int);
}

// ---------------------------------------------------------------------------
// Upstream connections
// ---------------------------------------------------------------------------

/// Connections are counted by host, and by port where it is not the usual one; a
/// limit of 0 means that there is none.
pub proof fn law_host_limits(
    url: &str,
    key: String,
    config: &ProxyConfig,
    limit: Option<usize>,
    parts: UrlParts,
)
    requires
        call_ensures(url_host_key, (url,), key),
        call_ensures(host_limit, (config,), limit),
        parsed_url(url@) == Ok::<UrlParts, Seq<char>>(parts),
    ensures
        parts.host matches Some(h) && parts.port is None ==> key@ == parts.host->0,
        parts.host matches Some(h) && (parts.port matches Some(p)) ==> key@ == parts.host->0
            + ":"@ + decimal(parts.port->0 as int),
        config.max_concurrent_per_host == 0 ==> limit is None,
        config.max_concurrent_per_host > 0 ==> limit == Some(config.max_concurrent_per_host),
{
}

/// Error statuses of the upstream are errors; the headers are waited for by a
/// multiple of the time for a connection.
pub proof fn law_upstream_answers(
    status: u16,
    text: &str,
    out: AppResult<()>,
    config: &ProxyConfig,
    secs: u64,
)
    requires
        call_ensures(check_status, (status, text), out),
        call_ensures(header_timeout_secs, (config,), secs),
    ensures
        out is Err <==> 400 <= status <= 599,
        secs == config.connect_timeout * config.request_timeout_factor,
{
}

/// A route's client uses its proxy where the route goes through one, and takes
/// invalid certificates where it does not check them.
pub proof fn law_route_clients(c: &ProxyRouteConfig, out: RouteClientPlan)
    requires
        call_ensures(plan_route_client, (c,), out),
    ensures
        c.proxy ==> opt_text(out.proxy) == opt_text(c.proxy_url),
        !c.proxy ==> out.proxy is None,
        out.accept_invalid_certs == !c.verify_ssl,
{
}

// ---------------------------------------------------------------------------
// Routes
// ---------------------------------------------------------------------------

/// A route of the configuration applies to a URL.
pub open spec fn applies(route: (String, ProxyRouteConfig), text: Seq<char>) -> bool {
    regex_valid(route_regex(route.0@)) && regex_found(route_regex(route.0@), text)
}

/// How general a route is.
pub open spec fn generality(route: (String, ProxyRouteConfig)) -> nat {
    wildcards(route_regex(route.0@))
}

/// Where a new route is put, those before and behind it stay.
proof fn lemma_put_in(routes: Seq<RouteView>, r: RouteView)
    ensures
        with_route(routes, r).len() == routes.len() + 1,
        exists|pos: int|
            0 <= pos <= routes.len() && with_route(routes, r) == #[trigger] routes.insert(pos, r),
    decreases routes.len(),
{
    if routes.len() == 0 || wildcards(routes.last().pattern) <= wildcards(r.pattern) {
        assert(routes.insert(routes.len() as int, r) =~= routes.push(r));
    } else {
        let init = routes.drop_last();
        lemma_put_in(init, r);
        let pos = choose|pos: int|
            0 <= pos <= init.len() && with_route(init, r) == #[trigger] init.insert(pos, r);
        assert(routes.insert(pos, r) =~= init.insert(pos, r).push(routes.last()));
    }
}

/// Every route comes from the configuration.
proof fn lemma_route_from(config: Seq<(String, ProxyRouteConfig)>, n: int, k: int) -> (i: int)
    requires
        0 <= n <= config.len(),
        0 <= k < routes_of(config, n).len(),
    ensures
        0 <= i < n,
        is_route(routes_of(config, n)[k], config[i]),
    decreases n,
{
    let rest = routes_of(config, n - 1);
    let regex = route_regex(config[n - 1].0@);
    if regex_valid(regex) {
        let r = RouteView { pattern: regex, config: config[n - 1].1 };
        lemma_put_in(rest, r);
        let pos = choose|pos: int|
            0 <= pos <= rest.len() && with_route(rest, r) == #[trigger] rest.insert(pos, r);
        if k == pos {
            n - 1
        } else if k < pos {
            lemma_route_from(config, n - 1, k)
        } else {
            lemma_route_from(config, n - 1, k - 1)
        }
    } else {
        lemma_route_from(config, n - 1, k)
    }
}

/// Every valid entry of the configuration has its route.
proof fn lemma_route_there(config: Seq<(String, ProxyRouteConfig)>, n: int, i: int) -> (k: int)
    requires
        0 <= i < n <= config.len(),
        regex_valid(route_regex(config[i].0@)),
    ensures
        0 <= k < routes_of(config, n).len(),
        is_route(routes_of(config, n)[k], config[i]),
    decreases n,
{
    let rest = routes_of(config, n - 1);
    let regex = route_regex(config[n - 1].0@);
    if regex_valid(regex) {
        let r = RouteView { pattern: regex, config: config[n - 1].1 };
        lemma_put_in(rest, r);
        let pos = choose|pos: int|
            0 <= pos <= rest.len() && with_route(rest, r) == #[trigger] rest.insert(pos, r);
        if i == n - 1 {
            pos
        } else {
            let m = lemma_route_there(config, n - 1, i);
            if m < pos {
                m
            } else {
                m + 1
            }
        }
    } else {
        lemma_route_there(config, n - 1, i)
    }
}

/// A route is that of an entry of the configuration.
pub open spec fn is_route(r: RouteView, entry: (String, ProxyRouteConfig)) -> bool {
    r.pattern == route_regex(entry.0@) && r.config == entry.1 && regex_valid(r.pattern)
}

/// The first route that matches.
proof fn lemma_first_match(routes: Seq<RouteView>, url: Seq<char>, i: int)
    requires
        0 <= i <= routes.len(),
    ensures
        match first_match(routes, url, i) {
            Some(c) => exists|k: int|
                i <= k < routes.len() && regex_found((#[trigger] routes[k]).pattern, url) && c
                    == routes[k].config && forall|m: int|
                    i <= m < k ==> !regex_found((#[trigger] routes[m]).pattern, url),
            None => forall|k: int|
                i <= k < routes.len() ==> !regex_found((#[trigger] routes[k]).pattern, url),
        },
    decreases routes.len() - i,
{
    if i < routes.len() {
        lemma_first_match(routes, url, i + 1);
        if regex_found(routes[i].pattern, url) {
            assert(first_match(routes, url, i) == Some(routes[i].config));
        } else if let Some(c) = first_match(routes, url, i + 1) {
            let k = choose|k: int|
                i + 1 <= k < routes.len() && regex_found((#[trigger] routes[k]).pattern, url) && c
                    == routes[k].config && forall|m: int|
                    i + 1 <= m < k ==> !regex_found((#[trigger] routes[m]).pattern, url);
            assert(regex_found(routes[k].pattern, url));
        }
    }
}

/// A URL goes by a route that applies to it, and by none that is more general than
/// another that applies. Where none does, it goes through the default proxy where
/// all URLs do, and else nothing is said of it.
#[verifier::rlimit(30)]
pub proof fn law_routes(
    default_proxy: Option<String>,
    all_proxy: bool,
    entries: &Vec<(String, ProxyRouteConfig)>,
    router: &ProxyRouter,
    url: &str,
    out: Option<ProxyRouteConfig>,
    parts: UrlParts,
)
    requires
        call_ensures(ProxyRouter::new, (default_proxy, all_proxy, entries), *router),
        call_ensures(ProxyRouter::get_proxy_config, (router, url), out),
        parsed_url(url@) == Ok::<UrlParts, Seq<char>>(parts),
    ensures
        (exists|i: int| 0 <= i < entries@.len() && applies(#[trigger] entries@[i], parts.text))
            ==> exists|i: int| #[trigger]
            is_best_entry(entries@, parts.text, i) && out == Some(entries@[i].1),
        (forall|i: int| 0 <= i < entries@.len() ==> !applies(#[trigger] entries@[i], parts.text))
            ==> if all_proxy {
            out matches Some(c) && c.proxy && c.verify_ssl && c.proxy_url == default_proxy
        } else {
            out is None
        },
{
    lemma_best_route(entries@, parts.text);
}

/// Entry `i` applies and none that applies is less general.
pub open spec fn is_best_entry(
    entries: Seq<(String, ProxyRouteConfig)>,
    text: Seq<char>,
    i: int,
) -> bool {
    &&& 0 <= i < entries.len()
    &&& applies(entries[i], text)
    &&& forall|j: int|
        0 <= j < entries.len() && applies(#[trigger] entries[j], text) ==> generality(entries[i])
            <= generality(entries[j])
}

/// The route of a URL is that of a best entry.
proof fn lemma_best_route(entries: Seq<(String, ProxyRouteConfig)>, text: Seq<char>)
    ensures
        match first_match(routes_of(entries, entries.len() as int), text, 0) {
            Some(c) => exists|i: int| #[trigger] is_best_entry(entries, text, i)
                && c == entries[i].1,
            None => forall|i: int| 0 <= i < entries.len() ==> !applies(#[trigger] entries[i], text),
        },
{
    let n = entries.len() as int;
    let routes = routes_of(entries, n);
    crate::config::law_specific_routes_first(entries, n);
    lemma_first_match(routes, text, 0);
    match first_match(routes, text, 0) {
        Some(c) => {
            let k = choose|k: int|
                0 <= k < routes.len() && regex_found((#[trigger] routes[k]).pattern, text) && c
                    == routes[k].config && forall|m: int|
                    0 <= m < k ==> !regex_found((#[trigger] routes[m]).pattern, text);
            let i = lemma_route_from(entries, n, k);
            assert(applies(entries[i], text));
            assert forall|j: int| 0 <= j < n && applies(
                #[trigger] entries[j],
                text,
            ) implies generality(entries[i]) <= generality(entries[j]) by {
                let m = lemma_route_there(entries, n, j);
                assert(regex_found(routes[m].pattern, text));
                if k < m {
                    assert(wildcards(routes[k].pattern) <= wildcards(routes[m].pattern));
                }
            }
            assert(is_best_entry(entries, text, i));
        },
        None => {
            assert forall|i: int| 0 <= i < n implies !applies(#[trigger] entries[i], text) by {
                if applies(entries[i], text) {
                    let m = lemma_route_there(entries, n, i);
                    assert(regex_found(routes[m].pattern, text));
                }
            }
        },
    }
}

/// A pattern without dots and stars stands for the URLs that begin with it; one that
/// begins with `all://` stands for both web schemes.
pub proof fn law_plain_patterns(pattern: Seq<char>, rest: Seq<char>)
    requires
        !contains(rest, "."@) && !contains(rest, "*"@) && !contains(rest, "all://"@),
    ensures
        pattern == rest ==> route_regex(pattern) == "^"@ + rest,
        pattern == "all://"@ + rest ==> route_regex(pattern) == "^"@ + "(http|https)://"@ + rest,
{
    reveal_strlit(".");
    reveal_strlit("*");
    reveal_strlit("all://");
    assert("."@ =~= seq!['.']);
    assert("*"@ =~= seq!['*']);
    let none = Seq::<char>::empty();
    lemma_replaced_nowhere(rest, "."@, "\\."@);
    lemma_replaced_nowhere(rest, "*"@, "[^/]*"@);
    lemma_replaced_nowhere(rest, "all://"@, "(http|https)://"@);
    if pattern == "all://"@ + rest {
        lemma_no_char(rest, '.');
        lemma_no_char(rest, '*');
        assert(!pattern.contains('.')) by {
            if pattern.contains('.') {
                let i = choose|i: int| 0 <= i < pattern.len() && pattern[i] == '.';
                assert(i >= 6);
                assert(rest[i - 6] == '.');
            }
        }
        assert(!pattern.contains('*')) by {
            if pattern.contains('*') {
                let i = choose|i: int| 0 <= i < pattern.len() && pattern[i] == '*';
                assert(i >= 6);
                assert(rest[i - 6] == '*');
            }
        }
        lemma_no_text(pattern, '.');
        lemma_no_text(pattern, '*');
        lemma_replaced_nowhere(pattern, "."@, "\\."@);
        lemma_replaced_nowhere(pattern, "*"@, "[^/]*"@);
        assert(begins_once("all://"@));
        assert(!contains(none, "all://"@));
        lemma_replaced_once(none, "all://"@, rest, "(http|https)://"@);
        assert(none + "all://"@ + rest =~= pattern);
        assert(none + "(http|https)://"@ + rest =~= "(http|https)://"@ + rest);
        assert("^"@ + ("(http|https)://"@ + rest) =~= "^"@ + "(http|https)://"@ + rest);
    }
}

/// A dot of a pattern stands for itself, and a star for any text within a path
/// segment.
pub proof fn law_dots_and_stars(a: Seq<char>, b: Seq<char>)
    requires
        !contains(a, "."@) && !contains(a, "*"@),
        !contains(b, "."@) && !contains(b, "*"@),
        !contains(a + "\\."@ + b, "all://"@),
        !contains(a + "[^/]*"@ + b, "all://"@),
    ensures
        route_regex(a + "."@ + b) == "^"@ + (a + "\\."@ + b),
        route_regex(a + "*"@ + b) == "^"@ + (a + "[^/]*"@ + b),
{
    reveal_strlit(".");
    reveal_strlit("*");
    reveal_strlit("all://");
    reveal_strlit("\\.");
    assert("."@ =~= seq!['.']);
    assert("*"@ =~= seq!['*']);
    lemma_replaced_once(a, "."@, b, "\\."@);
    lemma_replaced_once(a, "*"@, b, "[^/]*"@);
    lemma_no_char(a, '*');
    lemma_no_char(b, '*');
    lemma_no_char(a, '.');
    lemma_no_char(b, '.');
    let x = a + "\\."@ + b;
    assert(!x.contains('*')) by {
        if x.contains('*') {
            let i = choose|i: int| 0 <= i < x.len() && x[i] == '*';
            if i < a.len() {
                assert(a[i] == '*');
            } else if i >= a.len() + 2 {
                assert(b[i - a.len() - 2] == '*');
            }
        }
    }
    lemma_no_text(x, '*');
    lemma_replaced_nowhere(x, "*"@, "[^/]*"@);
    lemma_replaced_nowhere(x, "all://"@, "(http|https)://"@);
    let y = a + "*"@ + b;
    assert(!y.contains('.')) by {
        if y.contains('.') {
            let i = choose|i: int| 0 <= i < y.len() && y[i] == '.';
            if i < a.len() {
                assert(a[i] == '.');
            } else if i >= a.len() + 1 {
                assert(b[i - a.len() - 1] == '.');
            }
        }
    }
    lemma_no_text(y, '.');
    lemma_replaced_nowhere(y, "."@, "\\."@);
    lemma_replaced_nowhere(a + "[^/]*"@ + b, "all://"@, "(http|https)://"@);
}

/// A text that does not hold a character's text does not hold the character.
proof fn lemma_no_char(s: Seq<char>, c: char)
    requires
        !contains(s, seq![c]),
    ensures
        !s.contains(c),
{
    if s.contains(c) {
        let i = choose|i: int| 0 <= i < s.len() && s[i] == c;
        assert(s.subrange(i, i + 1) =~= seq![c]);
        assert(crate::text::matches_at(s, seq![c], i));
    }
}

/// A text that does not hold a character does not hold the character's text.
proof fn lemma_no_text(s: Seq<char>, c: char)
    requires
        !s.contains(c),
    ensures
        !contains(s, seq![c]),
{
    if contains(s, seq![c]) {
        let i = choose|i: int| crate::text::matches_at(s, seq![c], i);
        assert(s.subrange(i, i + 1)[0] == s[i]);
    }
}

/// The proxy of a URL: that of its route, or else the configured one; none where its
/// route goes without.
pub proof fn law_proxies(
    router: &ProxyRouter,
    config: &ProxyConfig,
    url: &str,
    route: Option<ProxyRouteConfig>,
    out: Option<String>,
)
    requires
        call_ensures(ProxyRouter::get_proxy_config, (router, url), route),
        call_ensures(get_proxy_url_for, (router, config, url), out),
    ensures
        route is None ==> out is None,
        route matches Some(c) && !c.proxy ==> out is None,
        route matches Some(c) && c.proxy && c.proxy_url is Some ==> opt_text(out) == opt_text(
            route->0.proxy_url,
        ),
        route matches Some(c) && c.proxy && c.proxy_url is None ==> opt_text(out) == opt_text(
            config.proxy_url,
        ),
{
}

/// Two routes share a client only where they go through the same proxy and check
/// certificates alike.
pub proof fn law_client_keys(
    a: &ProxyRouteConfig,
    b: &ProxyRouteConfig,
    ka: String,
    kb: String,
)
    requires
        call_ensures(client_cache_key, (a,), ka),
        call_ensures(client_cache_key, (b,), kb),
        ka@ == kb@,
    ensures
        a.proxy == b.proxy,
        a.verify_ssl == b.verify_ssl,
        a.proxy_url is Some && b.proxy_url is Some ==> opt_text(a.proxy_url) == opt_text(
            b.proxy_url,
        ),
        a.proxy_url is None ==> (b.proxy_url matches Some(u) ==> u@.len() == 0),
{
    reveal_strlit("true");
    reveal_strlit("false");
    reveal_strlit("|");
    reveal_strlit("");
    let ua = match a.proxy_url {
        Some(u) => u@,
        None => ""@,
    };
    let ub = match b.proxy_url {
        Some(u) => u@,
        None => ""@,
    };
    let pa = bool_text(a.proxy);
    let pb = bool_text(b.proxy);
    let va = bool_text(a.verify_ssl);
    let vb = bool_text(b.verify_ssl);
    let n = ka@.len() as int;
    assert(ka@ == pa + "|"@ + ua + "|"@ + va);
    assert(kb@ == pb + "|"@ + ub + "|"@ + vb);
    assert(ka@[0] == pa[0] && kb@[0] == pb[0]);
    assert(ka@[n - 2] == va[va.len() - 2] && kb@[n - 2] == vb[vb.len() - 2]);
    assert(ka@.subrange(pa.len() + 1 as int, n - 1 - va.len()) =~= ua);
    assert(kb@.subrange(pb.len() + 1 as int, n - 1 - vb.len()) =~= ub);
}

} // verus!
