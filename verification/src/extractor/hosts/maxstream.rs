//! Maxstream, which stands behind a chain of redirect pages.

use vstd::prelude::*;

use crate::extractor::base::{
    extraction_failed, hls_stream, outcome, BaseExtractor, ExtractorError, ExtractorErrorView,
    ExtractorResult, ExtractorResultView,
};
use crate::extractor::patterns::{
    all_groups, find_group, find_groups, find_match, group_of, match_of, remove_matches,
    without_matches,
};
use crate::string_map::{with_pair, Pairs, StringMap};
use crate::text::{
    before, before_char, contains, ends, ends_with, has_char, holds, opt_text, replace,
    replace_first, replace_first_text, replace_text, same, split, split_text, starts_with,
    strip_prefix, texts,
};

verus! {

// ---------------------------------------------------------------------------
// Redirect pages
// ---------------------------------------------------------------------------

/// A page without comments, hidden elements and escaped slashes, where decoy
/// links stand.
pub open spec fn cleaned_page(html: Seq<char>) -> Seq<char> {
    replace_text(
        without_matches(
            "(?si)<div[^>]*style=[\"'][^\"']*display\\s*:\\s*none[^\"']*[\"'][^>]*>.*?</div>"@,
            without_matches("(?s)<!--.*?-->"@, html),
        ),
        "\\/"@,
        "/"@,
    )
}

/// How often a text stands in a list.
pub open spec fn occurrences(s: Seq<Seq<char>>, t: Seq<char>, n: int) -> nat
    decreases n,
{
    if n <= 0 {
        0
    } else {
        occurrences(s, t, n - 1) + if s[n - 1] == t {
            1nat
        } else {
            0
        }
    }
}

/// The first text from `i` on that stands in a list once.
pub open spec fn first_single(s: Seq<Seq<char>>, i: int) -> Option<Seq<char>>
    decreases s.len() - i,
{
    if i < 0 || i >= s.len() {
        None
    } else if occurrences(s, s[i], s.len() as int) == 1 {
        Some(s[i])
    } else {
        first_single(s, i + 1)
    }
}

/// The link of a page's continue button.
pub open spec fn button_link(page: Seq<char>) -> Option<Seq<char>> {
    let marked = group_of(
        "(?i)href=[\"'](https?://[^\"']+)[\"'][^>]*>\\s*<button[^>]*id=[\"']buttok[\"']"@,
        page,
        1,
    );
    if marked is Some {
        marked
    } else {
        group_of(
            "href=[\"'](https?://[^\"']+)[\"'][^>]*>\\s*<button[^>]*>\\s*[Cc]\\s*[Oo]\\s*[Nn]\\s*[Tt]\\s*[Ii]\\s*[Nn]\\s*[Uu]\\s*[Ee]"@,
            page,
            1,
        )
    }
}

/// The link of a page's redirect host that stands there once: decoys are
/// repeated.
pub open spec fn single_link(page: Seq<char>) -> Option<Seq<char>> {
    first_single(
        all_groups("(?i)href=[\"'](https?://[^\"']*uprot(?:s|em)/[^\"']+)[\"']"@, page),
        0,
    )
}

/// The first link of a page to one of the next hosts, unless it is the decoy.
pub open spec fn host_link(page: Seq<char>) -> Option<Seq<char>> {
    let found = match_of(
        "https?://(?:www\\.)?(?:stayonline\\.pro|maxstream\\.video)[^\"'\\s<>\\\\]+"@,
        page,
    );
    if found matches Some(u) && !contains(u, "/uprots/123456789012"@) {
        found
    } else {
        None
    }
}

/// The target of a page's redirect.
pub open spec fn redirect_link(page: Seq<char>) -> Option<Seq<char>> {
    let script = group_of(
        "window\\.location(?:\\.href)?\\s*=\\s*[\"']([^\"']+)[\"']"@,
        page,
        1,
    );
    if script is Some {
        script
    } else {
        group_of("(?i)content=[\"']0;\\s*url=([^\"']+)[\"']"@, page, 1)
    }
}

/// The next URL of a redirect page: by its button, a link that stands there
/// once, a link to one of the next hosts, or a redirect.
pub open spec fn next_link(html: Seq<char>) -> Option<Seq<char>> {
    let page = cleaned_page(html);
    if button_link(page) is Some {
        button_link(page)
    } else if single_link(page) is Some {
        single_link(page)
    } else if host_link(page) is Some {
        host_link(page)
    } else {
        redirect_link(page)
    }
}

/// Removes what decoy links stand in.
fn strip_uprot_honeypots(html: &str) -> (r: String)
    ensures
        r@ == without_matches(
            "(?si)<div[^>]*style=[\"'][^\"']*display\\s*:\\s*none[^\"']*[\"'][^>]*>.*?</div>"@,
            without_matches("(?s)<!--.*?-->"@, html@),
        ),
{
    let no_comments = remove_matches("(?s)<!--.*?-->", html);
    remove_matches(
        "(?si)<div[^>]*style=[\"'][^\"']*display\\s*:\\s*none[^\"']*[\"'][^>]*>.*?</div>",
        no_comments.as_str(),
    )
}

/// The first text of a list that stands in it once.
fn find_single(list: &Vec<String>) -> (r: Option<String>)
    ensures
        opt_text(r) == first_single(texts(list@), 0),
{
    let ghost s = texts(list@);
    let mut i: usize = 0;
    while i < list.len()
        invariant
            i <= list.len(),
            s == texts(list@),
            first_single(s, 0) == first_single(s, i as int),
        decreases list.len() - i,
    {
        let mut count: usize = 0;
        let mut j: usize = 0;
        while j < list.len()
            invariant
                i < list.len(),
                j <= list.len(),
                count <= j,
                s == texts(list@),
                count == occurrences(s, s[i as int], j as int),
            decreases list.len() - j,
        {
            assert(s[j as int] == list@[j as int]@);
            assert(s[i as int] == list@[i as int]@);
            if same(list[j].as_str(), list[i].as_str()) {
                count += 1;
            }
            j += 1;
        }
        if count == 1 {
            assert(s[i as int] == list@[i as int]@);
            return Some(list[i].clone());
        }
        i += 1;
    }
    None
}

/// Finds the next URL of a redirect page.
pub fn parse_uprot_html(html: &str) -> (r: Option<String>)
    ensures
        opt_text(r) == next_link(html@),
{
    proof {
        reveal_strlit("\\/");
    }
    let stripped = strip_uprot_honeypots(html);
    let cleaned = replace(stripped.as_str(), "\\/", "/");
    let page = cleaned.as_str();
    if let Some(u) = find_group(
        "(?i)href=[\"'](https?://[^\"']+)[\"'][^>]*>\\s*<button[^>]*id=[\"']buttok[\"']",
        page,
        1,
    ) {
        return Some(u);
    }
    if let Some(u) = find_group(
        "href=[\"'](https?://[^\"']+)[\"'][^>]*>\\s*<button[^>]*>\\s*[Cc]\\s*[Oo]\\s*[Nn]\\s*[Tt]\\s*[Ii]\\s*[Nn]\\s*[Uu]\\s*[Ee]",
        page,
        1,
    ) {
        return Some(u);
    }
    let links = find_groups(
        "(?i)href=[\"'](https?://[^\"']*uprot(?:s|em)/[^\"']+)[\"']",
        page,
    );
    if let Some(u) = find_single(&links) {
        return Some(u);
    }
    if let Some(u) = find_match(
        "https?://(?:www\\.)?(?:stayonline\\.pro|maxstream\\.video)[^\"'\\s<>\\\\]+",
        page,
    ) {
        if !holds(u.as_str(), "/uprots/123456789012") {
            return Some(u);
        }
    }
    if let Some(u) = find_group(
        "window\\.location(?:\\.href)?\\s*=\\s*[\"']([^\"']+)[\"']",
        page,
        1,
    ) {
        return Some(u);
    }
    find_group("(?i)content=[\"']0;\\s*url=([^\"']+)[\"']", page, 1)
}

// ---------------------------------------------------------------------------
// The redirect chain
// ---------------------------------------------------------------------------

/// A text without a prefix, however often it stands there.
pub open spec fn without_prefixes(s: Seq<char>, p: Seq<char>) -> Seq<char>
    decreases s.len(),
{
    if p.len() > 0 && starts_with(s, p) {
        without_prefixes(s.skip(p.len() as int), p)
    } else {
        s
    }
}

/// The host of a URL: what stands before the first slash behind the scheme.
pub open spec fn host_part(url: Seq<char>) -> Seq<char> {
    before_char(without_prefixes(without_prefixes(url, "http://"@), "https://"@), '/')
}

/// A text without a prefix, however often it stands there.
fn strip_prefixes(s: &str, p: &str) -> (r: String)
    requires
        p@.len() > 0,
    ensures
        r@ == without_prefixes(s@, p@),
{
    let mut r = s.to_owned();
    loop
        invariant
            p@.len() > 0,
            without_prefixes(s@, p@) == without_prefixes(r@, p@),
        decreases r@.len(),
    {
        match strip_prefix(r.as_str(), p) {
            Some(rest) => {
                r = rest;
            },
            None => {
                return r;
            },
        }
    }
}

/// The host of a URL.
pub fn url_host(url: &str) -> (r: String)
    ensures
        r@ == host_part(url@),
{
    proof {
        reveal_strlit("http://");
        reveal_strlit("https://");
    }
    let a = strip_prefixes(url, "http://");
    let b = strip_prefixes(a.as_str(), "https://");
    before(b.as_str(), '/')
}

/// How many pages of a chain are fetched at most.
pub const MAX_HOPS: u32 = 10;

/// What follows a URL of the chain.
pub enum ChainStep {
    /// The chain ends with this URL.
    Stop(String),
    /// The page of this URL is to be fetched.
    Fetch(String),
}

/// What follows a URL of the chain, by its text.
pub enum ChainView {
    Stop(Seq<char>),
    Fetch(Seq<char>),
}

impl View for ChainStep {
    type V = ChainView;

    open spec fn view(&self) -> ChainView {
        match self {
            ChainStep::Stop(u) => ChainView::Stop(u@),
            ChainStep::Fetch(u) => ChainView::Fetch(u@),
        }
    }
}

/// What follows a URL after a number of fetched pages: the chain ends at a
/// player page, at a mirror, whose path is brought into the player's form, and
/// at the limit.
pub open spec fn step_of(current: Seq<char>, hops: u32) -> ChainView {
    let host = host_part(current);
    if hops >= MAX_HOPS {
        ChainView::Stop(current)
    } else if contains(host, "maxstream.video"@) && contains(current, "/emvvv/"@) {
        ChainView::Stop(current)
    } else if contains(host, "maxsun"@) && ends_with(host, ".online"@) {
        ChainView::Stop(replace_text(current, "/watchfree/"@, "/emvvv/"@))
    } else {
        ChainView::Fetch(current)
    }
}

/// Decides what follows a URL of the chain after `hops` fetched pages.
pub fn chain_step(current: String, hops: u32) -> (r: ChainStep)
    ensures
        r@ == step_of(current@, hops),
{
    if hops >= MAX_HOPS {
        return ChainStep::Stop(current);
    }
    let host = url_host(current.as_str());
    if holds(host.as_str(), "maxstream.video") && holds(current.as_str(), "/emvvv/") {
        return ChainStep::Stop(current);
    }
    if holds(host.as_str(), "maxsun") && ends(host.as_str(), ".online") {
        proof {
            reveal_strlit("/watchfree/");
        }
        return ChainStep::Stop(replace(current.as_str(), "/watchfree/", "/emvvv/"));
    }
    ChainStep::Fetch(current)
}

/// What follows a fetched page: the chain ends where the page leads nowhere or
/// to itself.
pub open spec fn page_step(current: Seq<char>, html: Seq<char>, hops: u32) -> ChainView {
    match next_link(html) {
        None => ChainView::Stop(current),
        Some(next) => if next == current {
            ChainView::Stop(current)
        } else {
            step_of(next, (hops + 1) as u32)
        },
    }
}

/// Decides what follows the page of `current`, fetched after `hops` others.
pub fn chain_page(current: String, html: &str, hops: u32) -> (r: ChainStep)
    requires
        hops < MAX_HOPS,
    ensures
        r@ == page_step(current@, html@, hops),
        r is Fetch ==> hops + 1 < MAX_HOPS,
{
    match parse_uprot_html(html) {
        None => ChainStep::Stop(current),
        Some(next) => if same(next.as_str(), current.as_str()) {
            ChainStep::Stop(current)
        } else {
            chain_step(next, hops + 1)
        },
    }
}

/// The chain ends at the limit: no page is fetched after the last hop.
pub proof fn law_chain_is_bounded(current: Seq<char>, hops: u32)
    requires
        hops >= MAX_HOPS,
    ensures
        step_of(current, hops) == ChainView::Stop(current),
{
}

// ---------------------------------------------------------------------------
// The player page
// ---------------------------------------------------------------------------

/// The first position from `i` on of a term.
pub open spec fn term_from(terms: Seq<Seq<char>>, t: Seq<char>, i: int) -> Option<int>
    decreases terms.len() - i,
{
    if i < 0 || i >= terms.len() {
        None
    } else if terms[i] == t {
        Some(i)
    } else {
        term_from(terms, t, i + 1)
    }
}

/// The host name of a list of terms, read from its end: a term with a zero ends
/// a word, any other is followed by a hyphen.
pub open spec fn host_name_of(terms: Seq<Seq<char>>, from: int, to: int) -> Seq<char>
    decreases to - from,
{
    if from >= to {
        Seq::empty()
    } else {
        let first = terms[from];
        host_name_of(terms, from + 1, to) + (if first.contains('0') {
            first
        } else {
            first + "-"@
        })
    }
}

/// The terms read from the end, each followed by a comma.
pub open spec fn comma_list(terms: Seq<Seq<char>>, from: int, to: int) -> Seq<char>
    decreases to - from,
{
    if from >= to {
        Seq::empty()
    } else {
        comma_list(terms, from + 1, to) + terms[from] + ","@
    }
}

/// The stream URL in the terms of a packed player: the host's name stands
/// between `hls` and `sources`, the stream's parts between `urlset` and `hls`.
pub open spec fn player_url(terms: Seq<Seq<char>>) -> Result<Seq<char>, Seq<char>> {
    match term_from(terms, "urlset"@, 0) {
        None => Err("Maxstream: urlset not found"@),
        Some(u) => match term_from(terms, "hls"@, 0) {
            None => Err("Maxstream: hls not found"@),
            Some(h) => match term_from(terms, "sources"@, 0) {
                None => Err("Maxstream: sources not found"@),
                Some(s) => if u > h || h > s {
                    Err("Maxstream: player terms out of order"@)
                } else {
                    let base = "https://"@ + host_name_of(terms, h + 1, s) + ".host-cdn.net/hls/"@;
                    let parts = h - u - 1;
                    if parts == 1 {
                        Ok(base + ","@ + terms[u + 1] + ".urlset/master.m3u8"@)
                    } else if parts == 0 {
                        Ok(base)
                    } else {
                        Ok(base + comma_list(terms, u + 1, h) + ".urlset/master.m3u8"@)
                    }
                },
            },
        },
    }
}

/// The stream URL of a packed player, or why there is none.
pub open spec fn packed_url(html: Seq<char>) -> Result<Seq<char>, Seq<char>> {
    match group_of("\\}\\('(.+)',.+,'(.+)'\\.split"@, html, 2) {
        None => Err("Maxstream: packed JS not found"@),
        Some(words) => player_url(split_text(words, '|')),
    }
}

/// What a player page leads to: the source that it names, or the stream of its
/// packed player.
pub open spec fn player_stream(url: Seq<char>, html: Seq<char>, headers: Pairs) -> Result<
    ExtractorResultView,
    ExtractorErrorView,
> {
    let h = with_pair(headers, "referer"@, url);
    match group_of("sources:\\s*\\[\\{src:\\s*\"([^\"]+)\""@, html, 1) {
        Some(u) => hls_stream(u, h),
        None => match packed_url(html) {
            Ok(u) => hls_stream(u, h),
            Err(e) => extraction_failed(e),
        },
    }
}

/// The first position of a term.
fn find_term(terms: &Vec<String>, t: &str) -> (r: Option<usize>)
    ensures
        match r {
            Some(i) => i < terms@.len() && term_from(texts(terms@), t@, 0) == Some(i as int)
                && terms@[i as int]@ == t@,
            None => term_from(texts(terms@), t@, 0) is None,
        },
{
    let ghost s = texts(terms@);
    let mut i: usize = 0;
    while i < terms.len()
        invariant
            i <= terms.len(),
            s == texts(terms@),
            term_from(s, t@, 0) == term_from(s, t@, i as int),
        decreases terms.len() - i,
    {
        assert(s[i as int] == terms@[i as int]@);
        if same(terms[i].as_str(), t) {
            return Some(i);
        }
        i += 1;
    }
    None
}

/// The host name of a list of terms.
fn read_host_name(terms: &Vec<String>, from: usize, to: usize) -> (r: String)
    requires
        from <= to <= terms.len(),
    ensures
        r@ == host_name_of(texts(terms@), from as int, to as int),
{
    let ghost s = texts(terms@);
    let mut r = String::new();
    let mut i: usize = to;
    assert(r@ =~= host_name_of(s, to as int, to as int));
    while i > from
        invariant
            from <= i <= to <= terms.len(),
            s == texts(terms@),
            r@ == host_name_of(s, i as int, to as int),
        decreases i,
    {
        i -= 1;
        assert(s[i as int] == terms@[i as int]@);
        let ghost before = r@;
        r.push_str(terms[i].as_str());
        if !has_char(terms[i].as_str(), '0') {
            r.push_str("-");
            assert(r@ =~= before + (s[i as int] + "-"@));
        }
    }
    r
}

/// The terms read from the end, each followed by a comma.
fn read_comma_list(terms: &Vec<String>, from: usize, to: usize) -> (r: String)
    requires
        from <= to <= terms.len(),
    ensures
        r@ == comma_list(texts(terms@), from as int, to as int),
{
    let ghost s = texts(terms@);
    let mut r = String::new();
    let mut i: usize = to;
    assert(r@ =~= comma_list(s, to as int, to as int));
    while i > from
        invariant
            from <= i <= to <= terms.len(),
            s == texts(terms@),
            r@ == comma_list(s, i as int, to as int),
        decreases i,
    {
        i -= 1;
        assert(s[i as int] == terms@[i as int]@);
        r.push_str(terms[i].as_str());
        r.push_str(",");
    }
    r
}

/// The outcome of unpacking, by its texts.
pub open spec fn url_view(r: Result<String, ExtractorError>) -> Result<
    Seq<char>,
    ExtractorErrorView,
> {
    match r {
        Ok(u) => Ok(u@),
        Err(e) => Err(e@),
    }
}

/// An outcome with its message as an extraction error.
pub open spec fn as_extraction(r: Result<Seq<char>, Seq<char>>) -> Result<
    Seq<char>,
    ExtractorErrorView,
> {
    match r {
        Ok(u) => Ok(u),
        Err(e) => Err(ExtractorErrorView::Extract(e)),
    }
}

/// Finds the stream URL in the terms of a packed player.
pub fn unpack_player_terms(terms: &Vec<String>) -> (r: Result<String, ExtractorError>)
    ensures
        url_view(r) == as_extraction(player_url(texts(terms@))),
{
    let urlset: usize = match find_term(terms, "urlset") {
        Some(i) => i,
        None => {
            return Err(ExtractorError::extract("Maxstream: urlset not found"));
        },
    };
    let hls: usize = match find_term(terms, "hls") {
        Some(i) => i,
        None => {
            return Err(ExtractorError::extract("Maxstream: hls not found"));
        },
    };
    let sources: usize = match find_term(terms, "sources") {
        Some(i) => i,
        None => {
            return Err(ExtractorError::extract("Maxstream: sources not found"));
        },
    };
    if urlset > hls || hls > sources {
        return Err(ExtractorError::extract("Maxstream: player terms out of order"));
    }
    proof {
        reveal_strlit("urlset");
        reveal_strlit("hls");
        reveal_strlit("sources");
        assert("urlset"@.len() != "hls"@.len() && "hls"@.len() != "sources"@.len());
        assert(urlset != hls && hls != sources);
        assert(texts(terms@)[urlset + 1] == terms@[urlset + 1]@);
    }
    let mut url = "https://".to_owned();
    url.push_str(read_host_name(terms, hls + 1, sources).as_str());
    url.push_str(".host-cdn.net/hls/");
    let parts: usize = hls - urlset - 1;
    if parts == 1 {
        url.push_str(",");
        url.push_str(terms[urlset + 1].as_str());
        url.push_str(".urlset/master.m3u8");
    } else if parts > 1 {
        url.push_str(read_comma_list(terms, urlset + 1, hls).as_str());
        url.push_str(".urlset/master.m3u8");
    }
    Ok(url)
}

/// The extractor of Maxstream.
pub struct MaxstreamExtractor {
    pub base: BaseExtractor,
}

impl MaxstreamExtractor {
    /// An extractor with headers for its results and a proxy for its requests.
    pub fn new(request_headers: StringMap, proxy_url: Option<String>) -> (r: Self)
        ensures
            r.base.base_headers == request_headers && r.base.proxy_url == proxy_url,
    {
        MaxstreamExtractor { base: BaseExtractor::new(request_headers, proxy_url) }
    }

    /// The host's name.
    pub fn host_name(&self) -> (r: &'static str)
        ensures
            r@ == "Maxstream"@,
    {
        "Maxstream"
    }

    /// The URL of the first redirect page: the path segment `msf` becomes `mse`.
    pub fn start_url(url: &str) -> (r: String)
        ensures
            r@ == replace_first_text(url@, "/msf/"@, "/mse/"@),
    {
        replace_first(url, "/msf/", "/mse/")
    }

    /// The URL that the first redirect page leads to.
    pub fn first_hop(html: &str) -> (r: Result<String, ExtractorError>)
        ensures
            match r {
                Ok(u) => next_link(html@) == Some(u@),
                Err(e) => next_link(html@) is None && e@ == ExtractorErrorView::Extract(
                    "Maxstream: uprot redirect link not found (captcha may be required)"@,
                ),
            },
    {
        match parse_uprot_html(html) {
            Some(u) => Ok(u),
            None => Err(
                ExtractorError::extract(
                    "Maxstream: uprot redirect link not found (captcha may be required)",
                ),
            ),
        }
    }

    /// The stream URL of a packed player.
    pub fn unpack_player_js(html: &str) -> (r: Result<String, ExtractorError>)
        ensures
            url_view(r) == as_extraction(packed_url(html@)),
    {
        match find_group("\\}\\('(.+)',.+,'(.+)'\\.split", html, 2) {
            None => Err(ExtractorError::extract("Maxstream: packed JS not found")),
            Some(words) => {
                let terms = split(words.as_str(), '|');
                unpack_player_terms(&terms)
            },
        }
    }

    /// What the player page at `url` leads to.
    pub fn extract_player(&self, url: &str, html: &str) -> (r: Result<
        ExtractorResult,
        ExtractorError,
    >)
        ensures
            outcome(r) == player_stream(url@, html@, self.base.base_headers@),
    {
        let mut headers = self.base.base_headers.clone();
        headers.insert("referer", url);
        let stream = match find_group("sources:\\s*\\[\\{src:\\s*\"([^\"]+)\"", html, 1) {
            Some(u) => u,
            None => match Self::unpack_player_js(html) {
                Ok(u) => u,
                Err(e) => {
                    return Err(e);
                },
            },
        };
        Ok(
            ExtractorResult {
                destination_url: stream,
                request_headers: headers,
                mediaflow_endpoint: "hls_manifest_proxy",
            },
        )
    }
}

} // verus!
