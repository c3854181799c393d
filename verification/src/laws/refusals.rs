//! Laws on the kinds of the errors that callers are answered with.

use vstd::prelude::*;

use crate::auth::encryption::EncryptionHandler;
use crate::config::{ForwardConfig, ProxyConfig, TelegramConfig};
use crate::error::{AppError, AppResult};
use crate::mpd::handler::{init_request, matching_profiles, playlist_profile, InitRequest};
use crate::mpd::processor::ParsedMpd;
use crate::mpd::types::MpdProfile;
use crate::proxy::forward::{
    check_forward_destination, check_response_size, public_ip_step, PublicIpStep,
};
use crate::proxy::stream::{body_timeout_error, check_status, header_timeout_error};
use crate::proxy::urls::{base64_check, base64_decode, base64_encode, Base64Query};
use crate::string_map::{lookup, StringMap};
use crate::telegram::handler::{check_configured, status_word, stream_params, MediaParams};
use crate::telegram::session::TelegramSessionManager;
use crate::text::{contains, decimal, ends_with, matches_at};
use crate::utils::url::parsed_url;

verus! {

/// A refusal to forward is a ban where the URL is a web URL with a host, and an error
/// of the request where it is none.
pub proof fn law_forward_refusals(url: &str, cfg: &ForwardConfig, out: AppResult<()>)
    requires
        call_ensures(check_forward_destination, (url, cfg), out),
    ensures
        out matches Err(e) ==> e is Forbidden || e is BadRequest,
        parsed_url(url@) is Err ==> (out matches Err(e) && e is BadRequest),
        parsed_url(url@) matches Ok(p) && p.scheme != "http"@ && p.scheme != "https"@ ==> (
        out matches Err(e) && e is BadRequest),
        out matches Err(e) && e is Forbidden ==> (parsed_url(url@) matches Ok(p) && (p.scheme
            == "http"@ || p.scheme == "https"@)),
        out matches Err(e) && e is BadRequest ==> (parsed_url(url@) matches Ok(p) ==> (p.scheme
            != "http"@ && p.scheme != "https"@) || p.host is None || crate::text::lowercase(
            p.host->0,
        ).len() == 0),
{
    if let Err(e) = out {
        lemma_kinds(e);
    }
}

/// The kind of an error and that of its view.
proof fn lemma_kinds(e: AppError)
    ensures
        e is BadRequest <==> e@ is BadRequest,
        e is Forbidden <==> e@ is Forbidden,
        e is NotFound <==> e@ is NotFound,
        e is Internal <==> e@ is Internal,
        e is Proxy <==> e@ is Proxy,
        e is Upstream <==> e@ is Upstream,
        e is Mpd <==> e@ is Mpd,
        e is Telegram <==> e@ is Telegram,
{
}

/// A token that cannot be read is an error of the request; a ban needs a client that
/// is known. A handler cannot be had of an empty secret.
pub proof fn law_token_refusals(
    h: &EncryptionHandler,
    token: &str,
    client: Option<&str>,
    out: AppResult<crate::auth::encryption::ProxyData>,
    secret: &[u8],
    made: AppResult<EncryptionHandler>,
)
    requires
        call_ensures(EncryptionHandler::decrypt, (h, token, client), out),
        call_ensures(EncryptionHandler::new, (secret,), made),
    ensures
        out matches Err(e) ==> e is BadRequest || e is Forbidden,
        out matches Err(e) && e is Forbidden ==> client is Some,
        made matches Err(e) ==> e is Internal,
{
    if let Err(e) = out {
        lemma_kinds(e);
    }
    if let Err(e) = made {
        lemma_kinds(e);
    }
}

/// What the upstream answers wrongly is an error of the upstream; what is too long or
/// too late is one of the proxy. A timeout names how long it waited and for whom.
pub proof fn law_upstream_refusals(
    status: u16,
    text: &str,
    checked: AppResult<()>,
    len: usize,
    forward: &ForwardConfig,
    size: AppResult<()>,
    config: &ProxyConfig,
    secs: u64,
    url: &str,
    header: AppError,
    body: AppError,
)
    requires
        call_ensures(check_status, (status, text), checked),
        call_ensures(check_response_size, (len, forward), size),
        call_ensures(header_timeout_error, (secs, url), header),
        call_ensures(body_timeout_error, (config,), body),
    ensures
        checked matches Err(e) ==> (e matches AppError::Upstream(m) && ends_with(m@, text@)),
        size matches Err(e) ==> e is Proxy,
        header matches AppError::Proxy(m) && ends_with(m@, url@) && contains(
            m@,
            decimal(secs as int),
        ),
        body matches AppError::Proxy(m) && contains(m@, decimal(config.body_read_timeout as int)),
{
    if let Err(e) = checked {
        lemma_kinds(e);
        lemma_end("Upstream returned error status: "@, text@);
    }
    if let Err(e) = size {
        lemma_kinds(e);
    }
    let d = decimal(secs as int);
    let a = "Request timed out after "@;
    let b = " s waiting for response headers from "@;
    lemma_end(a + d + b, url@);
    assert(a + d + b + url@ =~= a + d + (b + url@));
    lemma_inside(a, d, b + url@);
    lemma_inside(
        "Body read timeout after "@,
        decimal(config.body_read_timeout as int),
        " s"@,
    );
}

/// A text ends with its last part.
proof fn lemma_end(a: Seq<char>, b: Seq<char>)
    ensures
        ends_with(a + b, b),
{
    assert((a + b).subrange(a.len() as int, (a + b).len() as int) =~= b);
}

/// A text holds its parts.
proof fn lemma_inside(a: Seq<char>, b: Seq<char>, c: Seq<char>)
    ensures
        contains(a + b + c, b),
{
    let s = a + b + c;
    assert(s.subrange(a.len() as int, a.len() as int + b.len()) =~= b);
    assert(matches_at(s, b, a.len() as int));
}

/// A parameter that is missing or cannot be read is an error of the request; a profile
/// that does not exist is one of the manifest, and is named.
pub proof fn law_manifest_refusals(
    query: &StringMap,
    wanted: AppResult<String>,
    init: AppResult<InitRequest>,
    parsed: &ParsedMpd,
    id: &str,
    found: AppResult<Vec<&MpdProfile>>,
)
    requires
        call_ensures(playlist_profile, (query,), wanted),
        call_ensures(init_request, (query,), init),
        call_ensures(matching_profiles, (parsed, id), found),
    ensures
        wanted matches Err(e) ==> e is BadRequest,
        lookup(query@, "init_url"@) is None ==> (init matches Err(e) && e is BadRequest),
        found matches Err(e) ==> (e matches AppError::Mpd(m) && contains(m@, id@)),
{
    if let Err(e) = wanted {
        lemma_kinds(e);
    }
    if let Err(e) = init {
        lemma_kinds(e);
    }
    if let Err(e) = found {
        lemma_kinds(e);
        lemma_inside("Profile "@, id@, " not found in MPD"@);
    }
}

/// Texts that are no encoded URLs, and queries without one, are errors of the request.
pub proof fn law_base64_refusals(
    query: &Base64Query,
    encoded: AppResult<String>,
    decoded: AppResult<String>,
    checked: AppResult<Option<String>>,
)
    requires
        call_ensures(base64_encode, (query,), encoded),
        call_ensures(base64_decode, (query,), decoded),
        call_ensures(base64_check, (query,), checked),
    ensures
        encoded is Err <==> query.url is None,
        checked is Err <==> query.url is None,
        query.encoded_url is None ==> decoded is Err,
        encoded matches Err(e) ==> e is BadRequest,
        decoded matches Err(e) ==> e is BadRequest,
        checked matches Err(e) ==> e is BadRequest,
{
    if let Err(e) = encoded {
        lemma_kinds(e);
    }
    if let Err(e) = decoded {
        lemma_kinds(e);
    }
    if let Err(e) = checked {
        lemma_kinds(e);
    }
}

/// Telegram is used where its number, its hash and its session are configured. A
/// positive number is a configured one. The words for its state say which.
pub proof fn law_configured(
    cfg: &TelegramConfig,
    checked: AppResult<()>,
    configured: bool,
    connected: bool,
    word: &str,
)
    requires
        call_ensures(check_configured, (cfg,), checked),
        call_ensures(TelegramSessionManager::is_configured, (cfg,), configured),
        call_ensures(status_word, (configured, connected), word),
    ensures
        checked is Ok <==> cfg.api_id != 0 && cfg.api_hash@.len() > 0 && cfg.session_string@.len()
            > 0,
        checked matches Err(e) ==> e is Telegram,
        configured <==> checked is Ok && cfg.api_id > 0,
        !configured ==> word@ == "disabled"@,
        configured && connected ==> word@ == "connected"@,
        configured && !connected ==> word@ == "not_connected"@,
{
    if let Err(e) = checked {
        lemma_kinds(e);
    }
}

/// A link that cannot be read is an error of the request, and is named.
pub proof fn law_link_refusals(query: &StringMap, url: Seq<char>, out: AppResult<MediaParams>)
    requires
        call_ensures(stream_params, (query,), out),
        lookup(query@, "d"@) == Some(url) || lookup(query@, "d"@) is None && lookup(query@, "url"@)
            == Some(url),
    ensures
        out matches Err(e) ==> (e matches AppError::BadRequest(m) && ends_with(m@, url)),
{
    if let Err(e) = out {
        lemma_kinds(e);
        lemma_end("Cannot parse Telegram URL: "@, url);
    }
}

/// No service is left to ask for the public address.
pub proof fn law_address_refusals(cfg: &ForwardConfig, attempt: usize, out: AppResult<PublicIpStep>)
    requires
        call_ensures(public_ip_step, (cfg, attempt), out),
    ensures
        out matches Err(e) ==> e is Upstream && attempt >= 3 && cfg.public_ip is None,
{
    if let Err(e) = out {
        lemma_kinds(e);
    }
}

} // verus!
