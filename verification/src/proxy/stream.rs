//! The rules of upstream connections.

use vstd::prelude::*;

use crate::config::{route_for, ProxyConfig, ProxyRouteConfig, ProxyRouter, RouterView};
use crate::error::{AppError, AppErrorView, AppResult};
use crate::text::{concat, copy_opt, decimal, decimal_text, opt_text};
use crate::utils::url::{parse_url, parsed_url};

verus! {

/// The name that connections to a URL's host are counted under.
pub open spec fn host_key(url: Seq<char>) -> Seq<char> {
    match parsed_url(url) {
        Ok(parts) => match parts.host {
            Some(h) => match parts.port {
                Some(p) => h + ":"@ + decimal(p as int),
                None => h,
            },
            None => "_unknown_"@,
        },
        Err(_) => "_unknown_"@,
    }
}

/// The host of a URL, with its port where it has one of its own, for the limit
/// of connections per host.
pub fn url_host_key(url: &str) -> (r: String)
    ensures
        r@ == host_key(url@),
{
    match parse_url(url) {
        Ok(u) => match u.host {
            Some(h) => match u.port {
                Some(p) => {
                    let mut r = h;
                    r.push_str(":");
                    r.push_str(decimal_text(p as u64).as_str());
                    r
                },
                None => h,
            },
            None => "_unknown_".to_owned(),
        },
        Err(_) => "_unknown_".to_owned(),
    }
}

/// How many requests may run to one host; `None` where there is no limit.
pub fn host_limit(config: &ProxyConfig) -> (r: Option<usize>)
    ensures
        r == if config.max_concurrent_per_host == 0 {
            None
        } else {
            Some(config.max_concurrent_per_host)
        },
{
    if config.max_concurrent_per_host == 0 {
        None
    } else {
        Some(config.max_concurrent_per_host)
    }
}

/// A truth value as a word.
pub open spec fn bool_text(b: bool) -> Seq<char> {
    if b {
        "true"@
    } else {
        "false"@
    }
}

/// The name that the client of a route is kept under.
pub open spec fn route_key(c: ProxyRouteConfig) -> Seq<char> {
    bool_text(c.proxy) + "|"@ + (match c.proxy_url {
        Some(u) => u@,
        None => ""@,
    }) + "|"@ + bool_text(c.verify_ssl)
}

/// The name that the client of a route is kept under.
pub fn client_cache_key(c: &ProxyRouteConfig) -> (r: String)
    ensures
        r@ == route_key(*c),
{
    let mut r = if c.proxy {
        "true".to_owned()
    } else {
        "false".to_owned()
    };
    r.push_str("|");
    match &c.proxy_url {
        Some(u) => {
            r.push_str(u.as_str());
        },
        None => {
            r.push_str("");
        },
    }
    r.push_str("|");
    if c.verify_ssl {
        r.push_str("true");
    } else {
        r.push_str("false");
    }
    r
}

/// The text of a route's proxy URL; empty where it has none.
pub open spec fn proxy_text(c: ProxyRouteConfig) -> Seq<char> {
    match c.proxy_url {
        Some(u) => u@,
        None => ""@,
    }
}

/// Two routes share a client exactly where they use the same proxy in the same
/// way.
pub proof fn law_clients_are_shared_by_equals(a: ProxyRouteConfig, b: ProxyRouteConfig)
    ensures
        route_key(a) == route_key(b) <==> a.proxy == b.proxy && a.verify_ssl == b.verify_ssl
            && proxy_text(a) == proxy_text(b),
{
    reveal_strlit("true");
    reveal_strlit("false");
    reveal_strlit("|");
    let x = route_key(a);
    let y = route_key(b);
    if x == y {
        assert(x[0] == bool_text(a.proxy)[0]);
        assert(y[0] == bool_text(b.proxy)[0]);
        assert(a.proxy == b.proxy);
        let n = x.len();
        assert(x[n - 2] == bool_text(a.verify_ssl)[bool_text(a.verify_ssl).len() - 2]);
        assert(y[n - 2] == bool_text(b.verify_ssl)[bool_text(b.verify_ssl).len() - 2]);
        assert(a.verify_ssl == b.verify_ssl);
        let from = bool_text(a.proxy).len() + 1;
        let to = n - bool_text(a.verify_ssl).len() - 1;
        assert(x.subrange(from as int, to as int) =~= proxy_text(a));
        assert(y.subrange(from as int, to as int) =~= proxy_text(b));
    }
}

/// How the client of a route is built.
pub struct RouteClientPlan {
    /// The proxy that it uses.
    pub proxy: Option<String>,
    /// Whether it takes invalid certificates.
    pub accept_invalid_certs: bool,
}

/// Decides how the client of a route is built: with the route's proxy where the
/// route uses one, and without certificate checks where it asks for that.
pub fn plan_route_client(c: &ProxyRouteConfig) -> (r: RouteClientPlan)
    ensures
        r.proxy == if c.proxy {
            c.proxy_url
        } else {
            None
        },
        r.accept_invalid_certs == !c.verify_ssl,
{
    RouteClientPlan {
        proxy: if c.proxy {
            copy_opt(&c.proxy_url)
        } else {
            None
        },
        accept_invalid_certs: !c.verify_ssl,
    }
}

/// The proxy of a URL, where it goes through one: the route's own or else the
/// configured default.
pub open spec fn proxy_url_for(
    router: RouterView,
    default_proxy: Option<Seq<char>>,
    url: Seq<char>,
) -> Option<Seq<char>> {
    match route_for(router, url) {
        Some(c) => if c.proxy {
            match c.proxy_url {
                Some(u) => Some(u@),
                None => default_proxy,
            }
        } else {
            None
        },
        None => None,
    }
}

/// The proxy that a URL is fetched through.
pub fn get_proxy_url_for(router: &ProxyRouter, config: &ProxyConfig, url: &str) -> (r: Option<
    String,
>)
    ensures
        opt_text(r) == proxy_url_for(router@, opt_text(config.proxy_url), url@),
{
    match router.get_proxy_config(url) {
        Some(c) => if c.proxy {
            match c.proxy_url {
                Some(u) => Some(u),
                None => copy_opt(&config.proxy_url),
            }
        } else {
            None
        },
        None => None,
    }
}

/// How many seconds an upstream has to answer with its headers.
pub fn header_timeout_secs(config: &ProxyConfig) -> (r: u64)
    requires
        config.connect_timeout * config.request_timeout_factor <= u64::MAX,
    ensures
        r == config.connect_timeout * config.request_timeout_factor,
{
    config.connect_timeout * config.request_timeout_factor
}

/// The error of an upstream that did not answer in time.
pub fn header_timeout_error(secs: u64, url: &str) -> (r: AppError)
    ensures
        r@ == AppErrorView::Proxy(
            "Request timed out after "@ + decimal(secs as int)
                + " s waiting for response headers from "@ + url@,
        ),
{
    let mut m = "Request timed out after ".to_owned();
    m.push_str(decimal_text(secs).as_str());
    m.push_str(" s waiting for response headers from ");
    m.push_str(url);
    AppError::Proxy(m)
}

/// The error of an upstream whose body did not come in time.
pub fn body_timeout_error(config: &ProxyConfig) -> (r: AppError)
    ensures
        r@ == AppErrorView::Proxy(
            "Body read timeout after "@ + decimal(config.body_read_timeout as int) + " s"@,
        ),
{
    let mut m = "Body read timeout after ".to_owned();
    m.push_str(decimal_text(config.body_read_timeout).as_str());
    m.push_str(" s");
    AppError::Proxy(m)
}

/// Whether an upstream's answer is used: client and server errors are not.
/// `status_text` is how the status is written.
pub fn check_status(status: u16, status_text: &str) -> (r: AppResult<()>)
    ensures
        match r {
            Ok(_) => !(400 <= status < 600),
            Err(e) => 400 <= status < 600 && e@ == AppErrorView::Upstream(
                "Upstream returned error status: "@ + status_text@,
            ),
        },
{
    if 400 <= status && status < 600 {
        return Err(AppError::Upstream(concat("Upstream returned error status: ", status_text)));
    }
    Ok(())
}

} // verus!
