//! Laws on the URLs of the DASH endpoints.

use vstd::prelude::*;

use crate::codec::percent_encoded;
use crate::laws::urls::param;
use crate::mpd::urls::{
    build_init_url, build_playlist_url, build_segment_url, header_params, init_url, key_params,
    opt_param, playlist_url, segment_url, MpdParamsView, MpdProxyParams, SegmentUrlArgs,
};
use crate::string_map::Pairs;
use crate::text::{join_texts, opt_str, opt_text};

verus! {

/// What a caller hands in for all URLs.
pub open spec fn handed(p: MpdProxyParams) -> MpdParamsView {
    MpdParamsView {
        api_password: p.api_password@,
        pass_headers: p.pass_headers@,
        key_id: opt_text(p.key_id),
        key: opt_text(p.key),
        resolution: opt_text(p.resolution),
        skip: opt_text(p.skip),
        remux_to_ts: p.remux_to_ts,
    }
}

/// An optional parameter.
pub open spec fn opt_part(name: Seq<char>, value: Option<Seq<char>>) -> Seq<Seq<char>> {
    match value {
        Some(v) => seq![param(name, v)],
        None => Seq::empty(),
    }
}

/// The request headers, as parameters.
pub open spec fn header_parts(p: Pairs) -> Seq<Seq<char>> {
    Seq::new(p.len(), |i: int| param("h_"@ + percent_encoded(p[i].0), p[i].1))
}

/// A URL with a query of some parts.
pub open spec fn with_query(path: Seq<char>, parts: Seq<Seq<char>>) -> Seq<char> {
    path + "?"@ + join_texts(parts, "&"@)
}

/// The URL of a profile's playlist.
pub open spec fn playlist_link(
    base: Seq<char>,
    mpd_url: Seq<char>,
    id: Seq<char>,
    p: MpdParamsView,
) -> Seq<char> {
    with_query(
        base + "/proxy/mpd/playlist"@,
        seq![param("d"@, mpd_url), "profile_id="@ + id, param("api_password"@, p.api_password)]
            + opt_part("key_id"@, p.key_id) + opt_part("key"@, p.key) + opt_part("skip"@, p.skip)
            + (if p.remux_to_ts {
            seq!["remux_to_ts=1"@]
        } else {
            Seq::empty()
        }) + header_parts(p.pass_headers),
    )
}

/// The URL of a segment.
pub open spec fn segment_link(
    base: Seq<char>,
    init: Seq<char>,
    media: Seq<char>,
    mime_type: Seq<char>,
    is_live: bool,
    use_map: bool,
    init_range: Option<Seq<char>>,
    media_range: Option<Seq<char>>,
    p: MpdParamsView,
) -> Seq<char> {
    with_query(
        base + (if p.remux_to_ts {
            "/proxy/mpd/segment.ts"@
        } else {
            "/proxy/mpd/segment.mp4"@
        }),
        seq![
            param("init_url"@, init),
            param("segment_url"@, media),
            param("mime_type"@, mime_type),
            if is_live {
                "is_live=true"@
            } else {
                "is_live=false"@
            },
            param("api_password"@, p.api_password),
        ] + (if use_map {
            seq!["use_map=true"@]
        } else {
            Seq::empty()
        }) + opt_part("init_range"@, init_range) + opt_part("segment_range"@, media_range)
            + opt_part("key_id"@, p.key_id) + opt_part("key"@, p.key) + header_parts(
            p.pass_headers,
        ),
    )
}

/// The URL of an initialization section.
pub open spec fn init_link(
    base: Seq<char>,
    url: Seq<char>,
    mime_type: Seq<char>,
    range: Option<Seq<char>>,
    p: MpdParamsView,
) -> Seq<char> {
    with_query(
        base + "/proxy/mpd/init"@,
        seq![
            param("init_url"@, url),
            param("mime_type"@, mime_type),
            param("api_password"@, p.api_password),
        ] + opt_part("init_range"@, range) + opt_part("key_id"@, p.key_id) + opt_part(
            "key"@,
            p.key,
        ) + header_parts(p.pass_headers),
    )
}

/// One more part in a query.
proof fn lemma_one_more(path: Seq<char>, parts: Seq<Seq<char>>, x: Seq<char>)
    requires
        parts.len() > 0,
    ensures
        with_query(path, parts.push(x)) == with_query(path, parts) + "&"@ + x,
{
    let all = parts.push(x);
    assert(all.drop_last() =~= parts);
    assert(join_texts(all, "&"@) == join_texts(parts, "&"@) + "&"@ + x);
    assert(with_query(path, all) =~= with_query(path, parts) + "&"@ + x);
}

/// One more parameter in a query.
proof fn lemma_more(
    path: Seq<char>,
    parts: Seq<Seq<char>>,
    url: Seq<char>,
    mark: Seq<char>,
    name: Seq<char>,
    value: Seq<char>,
)
    requires
        parts.len() > 0,
        with_query(path, parts) == url,
        mark == "&"@ + name + "="@,
    ensures
        with_query(path, parts.push(param(name, value))) == url + mark + percent_encoded(value),
{
    lemma_one_more(path, parts, param(name, value));
    assert(url + "&"@ + param(name, value) =~= url + mark + percent_encoded(value));
}

/// One more part in a query, written in two pieces.
proof fn lemma_more_word(
    path: Seq<char>,
    parts: Seq<Seq<char>>,
    url: Seq<char>,
    a: Seq<char>,
    b: Seq<char>,
    x: Seq<char>,
)
    requires
        parts.len() > 0,
        with_query(path, parts) == url,
        a + b == "&"@ + x,
    ensures
        with_query(path, parts.push(x)) == url + a + b,
{
    lemma_one_more(path, parts, x);
    assert(url + "&"@ + x =~= url + ("&"@ + x));
    assert(url + a + b =~= url + (a + b));
}

/// An optional part in a query.
proof fn lemma_opt_part(
    path: Seq<char>,
    parts: Seq<Seq<char>>,
    mark: Seq<char>,
    name: Seq<char>,
    value: Option<Seq<char>>,
)
    requires
        parts.len() > 0,
        mark == "&"@ + name + "="@,
    ensures
        with_query(path, parts + opt_part(name, value)) == with_query(path, parts) + opt_param(
            mark,
            value,
        ),
{
    match value {
        Some(v) => {
            lemma_one_more(path, parts, param(name, v));
            assert(parts + opt_part(name, value) =~= parts.push(param(name, v)));
            assert(with_query(path, parts) + opt_param(mark, value) =~= with_query(path, parts)
                + "&"@ + param(name, v));
        },
        None => {
            assert(parts + opt_part(name, value) =~= parts);
            assert(with_query(path, parts) + opt_param(mark, value) =~= with_query(path, parts));
        },
    }
}

/// The request headers in a query.
proof fn lemma_headers(path: Seq<char>, parts: Seq<Seq<char>>, p: Pairs)
    requires
        parts.len() > 0,
    ensures
        with_query(path, parts + header_parts(p)) == with_query(path, parts) + header_params(p),
    decreases p.len(),
{
    if p.len() == 0 {
        assert(parts + header_parts(p) =~= parts);
        assert(with_query(path, parts) + header_params(p) =~= with_query(path, parts));
    } else {
        reveal_strlit("&h_");
        reveal_strlit("&");
        reveal_strlit("h_");
        let init = p.drop_last();
        let x = param("h_"@ + percent_encoded(p.last().0), p.last().1);
        lemma_headers(path, parts, init);
        assert(header_parts(p) =~= header_parts(init).push(x));
        assert(parts + header_parts(p) =~= (parts + header_parts(init)).push(x));
        lemma_one_more(path, parts + header_parts(init), x);
        assert("&h_"@ =~= "&"@ + "h_"@);
        assert(with_query(path, parts) + header_params(p) =~= with_query(path, parts)
            + header_params(init) + "&"@ + x);
    }
}

/// The marks of optional parameters.
proof fn lemma_marks()
    ensures
        "&key_id="@ == "&"@ + "key_id"@ + "="@,
        "&key="@ == "&"@ + "key"@ + "="@,
        "&skip="@ == "&"@ + "skip"@ + "="@,
        "&init_range="@ == "&"@ + "init_range"@ + "="@,
        "&segment_range="@ == "&"@ + "segment_range"@ + "="@,
        "&use_map=true"@ == "&"@ + "use_map=true"@,
        "&remux_to_ts=1"@ == "&"@ + "remux_to_ts=1"@,
{
    reveal_strlit("&");
    reveal_strlit("=");
    reveal_strlit("&key_id=");
    reveal_strlit("key_id");
    reveal_strlit("&key=");
    reveal_strlit("key");
    reveal_strlit("&skip=");
    reveal_strlit("skip");
    reveal_strlit("&init_range=");
    reveal_strlit("init_range");
    reveal_strlit("&segment_range=");
    reveal_strlit("segment_range");
    reveal_strlit("&use_map=true");
    reveal_strlit("use_map=true");
    reveal_strlit("&remux_to_ts=1");
    reveal_strlit("remux_to_ts=1");
    assert("&key_id="@ =~= "&"@ + "key_id"@ + "="@);
    assert("&key="@ =~= "&"@ + "key"@ + "="@);
    assert("&skip="@ =~= "&"@ + "skip"@ + "="@);
    assert("&init_range="@ =~= "&"@ + "init_range"@ + "="@);
    assert("&segment_range="@ =~= "&"@ + "segment_range"@ + "="@);
    assert("&use_map=true"@ =~= "&"@ + "use_map=true"@);
    assert("&remux_to_ts=1"@ =~= "&"@ + "remux_to_ts=1"@);
}

/// The two readings of a playlist's URL agree.
#[verifier::rlimit(30)]
pub proof fn lemma_playlist_link(
    base: Seq<char>,
    mpd_url: Seq<char>,
    id: Seq<char>,
    p: MpdParamsView,
)
    ensures
        playlist_url(base, mpd_url, id, p) == playlist_link(base, mpd_url, id, p),
{
    lemma_marks();
    let path = base + "/proxy/mpd/playlist"@;
    let p0 = seq![param("d"@, mpd_url)];
    let p1 = p0.push("profile_id="@ + id);
    let p2 = p1.push(param("api_password"@, p.api_password));
    let p3 = p2 + opt_part("key_id"@, p.key_id);
    let p4 = p3 + opt_part("key"@, p.key);
    let p5 = p4 + opt_part("skip"@, p.skip);
    let p6 = p5 + (if p.remux_to_ts {
        seq!["remux_to_ts=1"@]
    } else {
        Seq::empty()
    });
    reveal_strlit("/proxy/mpd/playlist?d=");
    reveal_strlit("/proxy/mpd/playlist");
    reveal_strlit("?");
    reveal_strlit("d");
    reveal_strlit("=");
    reveal_strlit("&");
    reveal_strlit("&profile_id=");
    reveal_strlit("profile_id=");
    reveal_strlit("&api_password=");
    reveal_strlit("api_password");
    assert("/proxy/mpd/playlist?d="@ =~= "/proxy/mpd/playlist"@ + "?"@ + "d"@ + "="@);
    assert("&profile_id="@ =~= "&"@ + "profile_id="@);
    assert("&api_password="@ =~= "&"@ + "api_password"@ + "="@);
    let u0 = base + "/proxy/mpd/playlist?d="@ + percent_encoded(mpd_url);
    assert(with_query(path, p0) =~= u0);
    lemma_one_more(path, p0, "profile_id="@ + id);
    let u1 = u0 + "&profile_id="@ + id;
    assert(with_query(path, p1) =~= u1);
    lemma_one_more(path, p1, param("api_password"@, p.api_password));
    let u2 = u1 + "&api_password="@ + percent_encoded(p.api_password);
    assert(with_query(path, p2) =~= u2);
    lemma_opt_part(path, p2, "&key_id="@, "key_id"@, p.key_id);
    lemma_opt_part(path, p3, "&key="@, "key"@, p.key);
    lemma_opt_part(path, p4, "&skip="@, "skip"@, p.skip);
    let u5 = with_query(path, p5);
    assert(u5 =~= u2 + key_params(p) + opt_param("&skip="@, p.skip));
    if p.remux_to_ts {
        lemma_one_more(path, p5, "remux_to_ts=1"@);
        assert(p6 =~= p5.push("remux_to_ts=1"@));
        assert(with_query(path, p6) =~= u5 + "&remux_to_ts=1"@);
    } else {
        assert(p6 =~= p5);
        assert(u5 + Seq::<char>::empty() =~= u5);
    }
    lemma_headers(path, p6, p.pass_headers);
    assert(p6 + header_parts(p.pass_headers) =~= seq![
        param("d"@, mpd_url),
        "profile_id="@ + id,
        param("api_password"@, p.api_password),
    ] + opt_part("key_id"@, p.key_id) + opt_part("key"@, p.key) + opt_part("skip"@, p.skip) + (
    if p.remux_to_ts {
        seq!["remux_to_ts=1"@]
    } else {
        Seq::empty()
    }) + header_parts(p.pass_headers));
}

/// The marks of a segment's parameters.
proof fn lemma_segment_marks()
    ensures
        "/proxy/mpd/segment.ts"@ == "/proxy/mpd/segment."@ + "ts"@,
        "/proxy/mpd/segment.mp4"@ == "/proxy/mpd/segment."@ + "mp4"@,
        "?init_url="@ == "?"@ + "init_url"@ + "="@,
        "&segment_url="@ == "&"@ + "segment_url"@ + "="@,
        "&mime_type="@ == "&"@ + "mime_type"@ + "="@,
        "&api_password="@ == "&"@ + "api_password"@ + "="@,
        "&is_live="@ + "true"@ == "&"@ + "is_live=true"@,
        "&is_live="@ + "false"@ == "&"@ + "is_live=false"@,
{
    reveal_strlit("/proxy/mpd/segment.");
    reveal_strlit("/proxy/mpd/segment.ts");
    reveal_strlit("/proxy/mpd/segment.mp4");
    reveal_strlit("ts");
    reveal_strlit("mp4");
    reveal_strlit("?");
    reveal_strlit("=");
    reveal_strlit("&");
    reveal_strlit("?init_url=");
    reveal_strlit("init_url");
    reveal_strlit("&segment_url=");
    reveal_strlit("segment_url");
    reveal_strlit("&mime_type=");
    reveal_strlit("mime_type");
    reveal_strlit("&is_live=");
    reveal_strlit("is_live=true");
    reveal_strlit("is_live=false");
    reveal_strlit("true");
    reveal_strlit("false");
    reveal_strlit("&api_password=");
    reveal_strlit("api_password");
    assert("/proxy/mpd/segment.ts"@ =~= "/proxy/mpd/segment."@ + "ts"@);
    assert("/proxy/mpd/segment.mp4"@ =~= "/proxy/mpd/segment."@ + "mp4"@);
    assert("?init_url="@ =~= "?"@ + "init_url"@ + "="@);
    assert("&segment_url="@ =~= "&"@ + "segment_url"@ + "="@);
    assert("&mime_type="@ =~= "&"@ + "mime_type"@ + "="@);
    assert("&api_password="@ =~= "&"@ + "api_password"@ + "="@);
    assert("&is_live="@ + "true"@ =~= "&"@ + "is_live=true"@);
    assert("&is_live="@ + "false"@ =~= "&"@ + "is_live=false"@);
}

/// The first parameters of a segment's URL.
proof fn lemma_segment_front(
    base: Seq<char>,
    init: Seq<char>,
    media: Seq<char>,
    mime_type: Seq<char>,
    is_live: bool,
    password: Seq<char>,
    ts: bool,
)
    ensures
        with_query(
            base + (if ts {
                "/proxy/mpd/segment.ts"@
            } else {
                "/proxy/mpd/segment.mp4"@
            }),
            seq![
                param("init_url"@, init),
                param("segment_url"@, media),
                param("mime_type"@, mime_type),
                if is_live {
                    "is_live=true"@
                } else {
                    "is_live=false"@
                },
                param("api_password"@, password),
            ],
        ) == base + "/proxy/mpd/segment."@ + (if ts {
            "ts"@
        } else {
            "mp4"@
        }) + "?init_url="@ + percent_encoded(init) + "&segment_url="@ + percent_encoded(media)
            + "&mime_type="@ + percent_encoded(mime_type) + "&is_live="@ + (if is_live {
            "true"@
        } else {
            "false"@
        }) + "&api_password="@ + percent_encoded(password),
{
    lemma_segment_marks();
    let live = if is_live {
        "is_live=true"@
    } else {
        "is_live=false"@
    };
    let ext = if ts {
        "ts"@
    } else {
        "mp4"@
    };
    let path = base + ("/proxy/mpd/segment."@ + ext);
    let p0 = seq![param("init_url"@, init)];
    let p1 = p0.push(param("segment_url"@, media));
    let p2 = p1.push(param("mime_type"@, mime_type));
    let p3 = p2.push(live);
    let p4 = p3.push(param("api_password"@, password));
    let u0 = base + "/proxy/mpd/segment."@ + ext + "?init_url="@ + percent_encoded(init);
    let word = if is_live {
        "true"@
    } else {
        "false"@
    };
    assert(with_query(path, p0) =~= u0);
    let u1 = u0 + "&segment_url="@ + percent_encoded(media);
    let u2 = u1 + "&mime_type="@ + percent_encoded(mime_type);
    let u3 = u2 + "&is_live="@ + word;
    lemma_more(path, p0, u0, "&segment_url="@, "segment_url"@, media);
    lemma_more(path, p1, u1, "&mime_type="@, "mime_type"@, mime_type);
    lemma_more_word(path, p2, u2, "&is_live="@, word, live);
    lemma_more(path, p3, u3, "&api_password="@, "api_password"@, password);
    assert(p4 =~= seq![
        param("init_url"@, init),
        param("segment_url"@, media),
        param("mime_type"@, mime_type),
        live,
        param("api_password"@, password),
    ]);
}

/// The two readings of a segment's URL agree.
#[verifier::rlimit(30)]
pub proof fn lemma_segment_link(base: Seq<char>, a: SegmentUrlArgs, p: MpdParamsView)
    ensures
        segment_url(base, a, p) == segment_link(
            base,
            a.init_url,
            a.segment_url,
            a.mime_type,
            a.is_live,
            a.use_map,
            if a.seg_init_range is Some {
                a.seg_init_range
            } else {
                a.init_range
            },
            a.segment_range,
            p,
        ),
{
    lemma_marks();
    lemma_segment_front(
        base,
        a.init_url,
        a.segment_url,
        a.mime_type,
        a.is_live,
        p.api_password,
        p.remux_to_ts,
    );
    let ir = if a.seg_init_range is Some {
        a.seg_init_range
    } else {
        a.init_range
    };
    let path = base + (if p.remux_to_ts {
        "/proxy/mpd/segment.ts"@
    } else {
        "/proxy/mpd/segment.mp4"@
    });
    let p4 = seq![
        param("init_url"@, a.init_url),
        param("segment_url"@, a.segment_url),
        param("mime_type"@, a.mime_type),
        if a.is_live {
            "is_live=true"@
        } else {
            "is_live=false"@
        },
        param("api_password"@, p.api_password),
    ];
    let u4 = with_query(path, p4);
    let p5 = p4 + (if a.use_map {
        seq!["use_map=true"@]
    } else {
        Seq::empty()
    });
    let p6 = p5 + opt_part("init_range"@, ir);
    let p7 = p6 + opt_part("segment_range"@, a.segment_range);
    let p8 = p7 + opt_part("key_id"@, p.key_id);
    let p9 = p8 + opt_part("key"@, p.key);
    let map = if a.use_map {
        "&use_map=true"@
    } else {
        Seq::empty()
    };
    if a.use_map {
        lemma_one_more(path, p4, "use_map=true"@);
        assert(p5 =~= p4.push("use_map=true"@));
        assert(with_query(path, p5) =~= u4 + map);
    } else {
        assert(p5 =~= p4);
        assert(with_query(path, p5) =~= u4 + map);
    }
    lemma_opt_part(path, p5, "&init_range="@, "init_range"@, ir);
    lemma_opt_part(path, p6, "&segment_range="@, "segment_range"@, a.segment_range);
    lemma_opt_part(path, p7, "&key_id="@, "key_id"@, p.key_id);
    lemma_opt_part(path, p8, "&key="@, "key"@, p.key);
    assert(with_query(path, p9) =~= with_query(path, p7) + key_params(p));
    lemma_headers(path, p9, p.pass_headers);
}

/// The two readings of the URL of an initialization section agree.
pub proof fn lemma_init_link(
    base: Seq<char>,
    url: Seq<char>,
    mime_type: Seq<char>,
    range: Option<Seq<char>>,
    p: MpdParamsView,
)
    ensures
        init_url(base, url, mime_type, range, p) == init_link(base, url, mime_type, range, p),
{
    lemma_marks();
    let path = base + "/proxy/mpd/init"@;
    let p0 = seq![param("init_url"@, url)];
    let p1 = p0.push(param("mime_type"@, mime_type));
    let p2 = p1.push(param("api_password"@, p.api_password));
    let p3 = p2 + opt_part("init_range"@, range);
    let p4 = p3 + opt_part("key_id"@, p.key_id);
    let p5 = p4 + opt_part("key"@, p.key);
    reveal_strlit("/proxy/mpd/init?init_url=");
    reveal_strlit("/proxy/mpd/init");
    reveal_strlit("?");
    reveal_strlit("=");
    reveal_strlit("&");
    reveal_strlit("init_url");
    reveal_strlit("&mime_type=");
    reveal_strlit("mime_type");
    reveal_strlit("&api_password=");
    reveal_strlit("api_password");
    assert("/proxy/mpd/init?init_url="@ =~= "/proxy/mpd/init"@ + "?"@ + "init_url"@ + "="@);
    assert("&mime_type="@ =~= "&"@ + "mime_type"@ + "="@);
    assert("&api_password="@ =~= "&"@ + "api_password"@ + "="@);
    let u0 = base + "/proxy/mpd/init?init_url="@ + percent_encoded(url);
    assert(with_query(path, p0) =~= u0);
    lemma_one_more(path, p0, param("mime_type"@, mime_type));
    let u1 = u0 + "&mime_type="@ + percent_encoded(mime_type);
    assert(with_query(path, p1) =~= u1);
    lemma_one_more(path, p1, param("api_password"@, p.api_password));
    let u2 = u1 + "&api_password="@ + percent_encoded(p.api_password);
    assert(with_query(path, p2) =~= u2);
    lemma_opt_part(path, p2, "&init_range="@, "init_range"@, range);
    lemma_opt_part(path, p3, "&key_id="@, "key_id"@, p.key_id);
    lemma_opt_part(path, p4, "&key="@, "key"@, p.key);
    assert(with_query(path, p5) =~= with_query(path, p3) + key_params(p));
    lemma_headers(path, p5, p.pass_headers);
    assert(p5 + header_parts(p.pass_headers) =~= seq![
        param("init_url"@, url),
        param("mime_type"@, mime_type),
        param("api_password"@, p.api_password),
    ] + opt_part("init_range"@, range) + opt_part("key_id"@, p.key_id) + opt_part("key"@, p.key)
        + header_parts(p.pass_headers));
}

/// The URL of a profile's playlist names the manifest, the profile, the password and
/// what else a caller hands in, each as a parameter of its own.
pub proof fn law_playlist_urls(
    base: &str,
    mpd_url: &str,
    id: &str,
    params: &MpdProxyParams,
    out: String,
)
    requires
        call_ensures(build_playlist_url, (base, mpd_url, id, params), out),
    ensures
        out@ == playlist_link(base@, mpd_url@, id@, handed(*params)),
{
    lemma_playlist_link(base@, mpd_url@, id@, handed(*params));
}

/// The URL of a segment names it, its initialization section and its ranges. The
/// segment's own initialization range goes before that of the profile.
pub proof fn law_segment_urls(
    base: &str,
    init: &str,
    media: &str,
    mime_type: &str,
    is_live: bool,
    use_map: bool,
    init_range: Option<&str>,
    own_init_range: Option<&str>,
    media_range: Option<&str>,
    params: &MpdProxyParams,
    out: String,
)
    requires
        call_ensures(
            build_segment_url,
            (
                base,
                init,
                media,
                mime_type,
                is_live,
                use_map,
                init_range,
                own_init_range,
                media_range,
                params,
            ),
            out,
        ),
    ensures
        out@ == segment_link(
            base@,
            init@,
            media@,
            mime_type@,
            is_live,
            use_map,
            if own_init_range is Some {
                opt_str(own_init_range)
            } else {
                opt_str(init_range)
            },
            opt_str(media_range),
            handed(*params),
        ),
{
    lemma_segment_link(
        base@,
        SegmentUrlArgs {
            init_url: init@,
            segment_url: media@,
            mime_type: mime_type@,
            is_live,
            use_map,
            init_range: opt_str(init_range),
            seg_init_range: opt_str(own_init_range),
            segment_range: opt_str(media_range),
        },
        handed(*params),
    );
}

/// The URL of an initialization section names it and its range.
pub proof fn law_init_urls(
    base: &str,
    url: &str,
    mime_type: &str,
    range: Option<&str>,
    params: &MpdProxyParams,
    out: String,
)
    requires
        call_ensures(build_init_url, (base, url, mime_type, range, params), out),
    ensures
        out@ == init_link(base@, url@, mime_type@, opt_str(range), handed(*params)),
{
    lemma_init_link(base@, url@, mime_type@, opt_str(range), handed(*params));
}

} // verus!
