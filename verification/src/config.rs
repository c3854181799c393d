//! Configuration types, their defaults, and transport routing.

use vstd::prelude::*;

use crate::route_pattern::{regex_found, regex_valid, RoutePattern};
use crate::text::{
    concat, contains, copy_opt, find_from, find_in, is_space, join, join_texts, lemma_find_from,
    lemma_next_char, lemma_split_join, lemma_split_pieces, matches_at, next_char, none_hold,
    replace, replace_text, space, split, split_from, split_text, texts,
};
use crate::utils::url::{parse_url, parsed_url};

verus! {

// ---------------------------------------------------------------------------
// Server path
// ---------------------------------------------------------------------------

/// A control character.
pub open spec fn is_control(c: char) -> bool {
    (c as u32) <= 31 || 127 <= (c as u32) <= 159
}

/// A character that may not stand in the server path: white space, control
/// characters, `?`, `#` and a backslash.
pub open spec fn is_bad_path_char(c: char) -> bool {
    is_space(c) || is_control(c) || c == '?' || c == '#' || c == '\\'
}

/// A server path that is accepted.
pub open spec fn is_good_path(path: Seq<char>) -> bool {
    forall|i: int| 0 <= i < path.len() ==> !is_bad_path_char(#[trigger] path[i])
}

/// The parts that are not empty.
pub open spec fn nonempty(parts: Seq<Seq<char>>) -> Seq<Seq<char>>
    decreases parts.len(),
{
    if parts.len() == 0 {
        Seq::empty()
    } else if parts.last().len() == 0 {
        nonempty(parts.drop_last())
    } else {
        nonempty(parts.drop_last()).push(parts.last())
    }
}

/// The segments of a path.
pub open spec fn path_segments(path: Seq<char>) -> Seq<Seq<char>> {
    nonempty(split_text(path, '/'))
}

/// A path with one slash before each segment and none at its end.
pub open spec fn normal_path(path: Seq<char>) -> Seq<char> {
    if path_segments(path).len() == 0 {
        Seq::empty()
    } else {
        "/"@ + join_texts(path_segments(path), "/"@)
    }
}

/// Brings the server path into its normal form.
pub fn normalize_server_path(path: &str) -> (r: Result<String, String>)
    ensures
        match r {
            Ok(p) => is_good_path(path@) && p@ == normal_path(path@),
            Err(e) => !is_good_path(path@) && e@
                == "server.path must be empty or a URL path prefix like /mediaflow/prefix"@,
        },
{
    let v = crate::text::chars(path);
    let mut i: usize = 0;
    while i < v.len()
        invariant
            i <= v.len(),
            v@ == path@,
            forall|j: int| 0 <= j < i ==> !is_bad_path_char(#[trigger] path@[j]),
        decreases v.len() - i,
    {
        let c = v[i];
        let n: u32 = c as u32;
        if space(c) || n <= 31 || (127 <= n && n <= 159) || c == '?' || c == '#' || c == '\\' {
            assert(is_bad_path_char(path@[i as int]));
            return Err(
                "server.path must be empty or a URL path prefix like /mediaflow/prefix".to_owned(),
            );
        }
        i += 1;
    }
    let pieces = split(path, '/');
    let ghost all = split_text(path@, '/');
    let mut segments: Vec<String> = Vec::new();
    assert(texts(segments@) =~= nonempty(all.take(0)));
    i = 0;
    while i < pieces.len()
        invariant
            i <= pieces.len(),
            texts(pieces@) == all,
            texts(segments@) == nonempty(all.take(i as int)),
        decreases pieces.len() - i,
    {
        assert(pieces@[i as int]@ == all[i as int]);
        assert(all.take(i + 1).drop_last() =~= all.take(i as int));
        if crate::text::chars(pieces[i].as_str()).len() > 0 {
            let ghost before = texts(segments@);
            segments.push(pieces[i].clone());
            assert(texts(segments@) =~= before.push(all[i as int]));
        }
        i += 1;
    }
    assert(all.take(pieces@.len() as int) =~= all);
    if segments.len() == 0 {
        let r = String::new();
        assert(r@ =~= Seq::<char>::empty());
        return Ok(r);
    }
    Ok(concat("/", join(&segments, "/").as_str()))
}

/// The parts that are not empty hold no separator where no part does.
proof fn lemma_nonempty(parts: Seq<Seq<char>>, c: char)
    requires
        none_hold(parts, c),
    ensures
        none_hold(nonempty(parts), c),
        nonempty(nonempty(parts)) == nonempty(parts),
        forall|i: int| 0 <= i < nonempty(parts).len() ==> (#[trigger] nonempty(parts)[i]).len() > 0,
    decreases parts.len(),
{
    if parts.len() > 0 {
        let init = parts.drop_last();
        assert(none_hold(init, c)) by {
            assert forall|i: int| 0 <= i < init.len() implies !(#[trigger] init[i]).contains(c) by {
                assert(init[i] == parts[i]);
            }
        }
        lemma_nonempty(init, c);
        if parts.last().len() > 0 {
            let n = nonempty(parts);
            assert(n.drop_last() =~= nonempty(init));
            assert(parts[parts.len() - 1] == parts.last());
            assert forall|i: int| 0 <= i < n.len() implies !(#[trigger] n[i]).contains(c) by {
                if i < nonempty(init).len() {
                    assert(n[i] == nonempty(init)[i]);
                }
            }
        }
    }
}

/// What the segments of a normal path are.
proof fn lemma_normal_segments(path: Seq<char>)
    ensures
        path_segments(normal_path(path)) == path_segments(path),
{
    let segs = path_segments(path);
    lemma_split_pieces(path, '/', 0);
    lemma_nonempty(split_text(path, '/'), '/');
    reveal_strlit("/");
    assert("/"@ =~= seq!['/']);
    if segs.len() == 0 {
        let none = Seq::<char>::empty();
        assert(none.subrange(0, 0) =~= none);
        assert(split_text(none, '/') =~= seq![none]);
        assert(segs =~= Seq::empty());
        let one = seq![Seq::<char>::empty()];
        assert(one.drop_last() =~= Seq::empty());
        assert(nonempty(one) =~= Seq::empty());
    } else {
        let empty = Seq::<char>::empty();
        let parts = seq![empty] + segs;
        assert(none_hold(parts, '/')) by {
            assert forall|i: int| 0 <= i < parts.len() implies !(#[trigger] parts[i]).contains('/') by {
                if i > 0 {
                    assert(parts[i] == segs[i - 1]);
                }
            }
        }
        lemma_join_front(segs, seq!['/']);
        lemma_split_join(parts, '/');
        lemma_nonempty_front(segs);
    }
}

/// Joining with an empty part in front puts the separator in front.
proof fn lemma_join_front(parts: Seq<Seq<char>>, sep: Seq<char>)
    requires
        parts.len() > 0,
    ensures
        join_texts(seq![Seq::<char>::empty()] + parts, sep) == sep + join_texts(parts, sep),
    decreases parts.len(),
{
    let empty = Seq::<char>::empty();
    let all = seq![empty] + parts;
    assert(all.drop_last() =~= seq![empty] + parts.drop_last());
    if parts.len() == 1 {
        assert(all.drop_last() =~= seq![empty]);
        assert(join_texts(seq![empty], sep) == empty);
        assert(all.last() == parts[0]);
        assert(join_texts(all, sep) =~= empty + sep + parts[0]);
        assert(empty + sep + parts[0] =~= sep + parts[0]);
    } else {
        lemma_join_front(parts.drop_last(), sep);
        assert(join_texts(all, sep) =~= sep + join_texts(parts, sep));
    }
}

/// An empty part in front drops out.
proof fn lemma_nonempty_front(parts: Seq<Seq<char>>)
    ensures
        nonempty(seq![Seq::<char>::empty()] + parts) == nonempty(parts),
    decreases parts.len(),
{
    let all = seq![Seq::<char>::empty()] + parts;
    if parts.len() == 0 {
        assert(all.drop_last() =~= Seq::empty());
        assert(all.last().len() == 0);
        assert(nonempty(all) == nonempty(all.drop_last()));
        assert(parts =~= all.drop_last());
    } else {
        assert(all.last() == parts.last());
        assert(all.drop_last() =~= seq![Seq::<char>::empty()] + parts.drop_last());
        lemma_nonempty_front(parts.drop_last());
    }
}

/// Normalizing a normal path changes nothing.
pub proof fn law_normalize_idempotent(path: Seq<char>)
    ensures
        normal_path(normal_path(path)) == normal_path(path),
{
    lemma_normal_segments(path);
}

/// The joined segments hold only what the segments and the slashes between them
/// hold, and no two slashes stand side by side.
proof fn lemma_joined_segments(segs: Seq<Seq<char>>)
    requires
        segs.len() > 0,
        none_hold(segs, '/'),
        forall|i: int| 0 <= i < segs.len() ==> (#[trigger] segs[i]).len() > 0,
    ensures
        join_texts(segs, "/"@).len() > 0,
        join_texts(segs, "/"@)[0] != '/',
        join_texts(segs, "/"@).last() != '/',
        forall|i: int|
            0 <= i < join_texts(segs, "/"@).len() - 1 ==> !(#[trigger] join_texts(segs, "/"@)[i]
                == '/' && join_texts(segs, "/"@)[i + 1] == '/'),
        forall|i: int|
            0 <= i < join_texts(segs, "/"@).len() ==> (#[trigger] join_texts(segs, "/"@)[i]) == '/'
                || exists|k: int| 0 <= k < segs.len() && (#[trigger] segs[k]).contains(
                join_texts(segs, "/"@)[i],
            ),
    decreases segs.len(),
{
    reveal_strlit("/");
    let joined = join_texts(segs, "/"@);
    let last = segs[segs.len() - 1];
    assert(last == segs.last());
    assert forall|i: int| 0 <= i < last.len() implies (#[trigger] last[i]) != '/' by {
        assert(last.contains(last[i]));
    }
    if segs.len() == 1 {
        assert(joined =~= last);
        assert forall|i: int| 0 <= i < joined.len() implies (#[trigger] joined[i]) == '/'
            || exists|k: int| 0 <= k < segs.len() && (#[trigger] segs[k]).contains(joined[i]) by {
            assert(segs[0].contains(joined[i]));
        }
    } else {
        let init = segs.drop_last();
        assert forall|i: int| 0 <= i < init.len() implies !(#[trigger] init[i]).contains('/')
            && init[i].len() > 0 by {
            assert(init[i] == segs[i]);
        }
        lemma_joined_segments(init);
        let front = join_texts(init, "/"@);
        assert(joined =~= front + "/"@ + last);
        assert forall|i: int| 0 <= i < joined.len() implies (#[trigger] joined[i]) == '/'
            || exists|k: int| 0 <= k < segs.len() && (#[trigger] segs[k]).contains(joined[i]) by {
            if i < front.len() {
                assert(joined[i] == front[i]);
                if front[i] != '/' {
                    let k = choose|k: int|
                        0 <= k < init.len() && (#[trigger] init[k]).contains(front[i]);
                    assert(segs[k] == init[k]);
                }
            } else if i > front.len() {
                assert(joined[i] == last[i - front.len() - 1]);
                assert(segs[segs.len() - 1].contains(joined[i]));
            }
        }
        assert forall|i: int| 0 <= i < joined.len() - 1 implies !(#[trigger] joined[i] == '/'
            && joined[i + 1] == '/') by {
            if i + 1 < front.len() {
                assert(joined[i] == front[i] && joined[i + 1] == front[i + 1]);
            } else if i + 1 == front.len() {
                assert(joined[i] == front.last());
            } else if i == front.len() {
                assert(joined[i + 1] == last[0]);
            } else {
                assert(joined[i] == last[i - front.len() - 1]);
            }
        }
    }
}

/// The pieces of a text hold only what it holds.
proof fn lemma_pieces_within(s: Seq<char>, sep: char, i: int, k: int, c: char)
    requires
        0 <= i <= s.len(),
        0 <= k < split_from(s, sep, i).len(),
        split_from(s, sep, i)[k].contains(c),
    ensures
        s.contains(c),
    decreases s.len() - i,
{
    lemma_next_char(s, sep, i);
    let end = next_char(s, sep, i);
    let piece = s.subrange(i, end);
    if k == 0 {
        assert(piece.contains(c));
        let j = choose|j: int| 0 <= j < piece.len() && piece[j] == c;
        assert(s[i + j] == c);
    } else {
        lemma_pieces_within(s, sep, end + 1, k - 1, c);
    }
}

/// The parts that are not empty are among the parts.
proof fn lemma_nonempty_within(parts: Seq<Seq<char>>, k: int)
    requires
        0 <= k < nonempty(parts).len(),
    ensures
        parts.contains(nonempty(parts)[k]),
    decreases parts.len(),
{
    let init = parts.drop_last();
    if parts.last().len() == 0 || k < nonempty(init).len() {
        lemma_nonempty_within(init, k);
        let j = choose|j: int| 0 <= j < init.len() && init[j] == nonempty(init)[k];
        assert(parts[j] == init[j]);
    } else {
        assert(parts[parts.len() - 1] == nonempty(parts)[k]);
    }
}

/// A normal path is empty, or begins with a slash and does not end in one. No two
/// slashes stand side by side in it, it has the segments of the path that it was
/// made from, and it is accepted where that path is.
pub proof fn law_normal_path_shape(path: Seq<char>)
    ensures
        normal_path(path).len() > 0 ==> normal_path(path)[0] == '/' && normal_path(path).last()
            != '/',
        !contains(normal_path(path), "//"@),
        path_segments(normal_path(path)) == path_segments(path),
        is_good_path(path) ==> is_good_path(normal_path(path)),
{
    let segs = path_segments(path);
    let n = normal_path(path);
    lemma_normal_segments(path);
    lemma_split_pieces(path, '/', 0);
    lemma_nonempty(split_text(path, '/'), '/');
    reveal_strlit("/");
    reveal_strlit("//");
    if segs.len() > 0 {
        lemma_joined_segments(segs);
        let joined = join_texts(segs, "/"@);
        assert(n =~= "/"@ + joined);
        assert(n.last() == joined.last());
        assert forall|i: int| 0 <= i < n.len() - 1 implies !(#[trigger] n[i] == '/' && n[i + 1]
            == '/') by {
            if i > 0 {
                assert(n[i] == joined[i - 1] && n[i + 1] == joined[i]);
            } else {
                assert(n[1] == joined[0]);
            }
        }
        if is_good_path(path) {
            assert forall|i: int| 0 <= i < n.len() implies !is_bad_path_char(#[trigger] n[i]) by {
                if n[i] != '/' {
                    assert(n[i] == joined[i - 1]);
                    let k = choose|k: int|
                        0 <= k < segs.len() && (#[trigger] segs[k]).contains(joined[i - 1]);
                    lemma_nonempty_within(split_text(path, '/'), k);
                    let parts = split_text(path, '/');
                    let j = choose|j: int| 0 <= j < parts.len() && parts[j] == segs[k];
                    lemma_pieces_within(path, '/', 0, j, n[i]);
                    let at = choose|at: int| 0 <= at < path.len() && path[at] == n[i];
                    assert(!is_bad_path_char(path[at]));
                }
            }
        }
    }
    if contains(n, "//"@) {
        let i = choose|i: int| #[trigger] matches_at(n, "//"@, i);
        assert(n.subrange(i, i + 2)[0] == '/' && n.subrange(i, i + 2)[1] == '/');
        assert(n[i] == '/' && n[i + 1] == '/');
    }
}

// ---------------------------------------------------------------------------
// Transport routing
// ---------------------------------------------------------------------------

/// How requests to some URLs are sent.
pub struct ProxyRouteConfig {
    /// Whether they go through a proxy.
    pub proxy: bool,
    /// The proxy, where it is not the default one.
    pub proxy_url: Option<String>,
    /// Whether certificates are checked.
    pub verify_ssl: bool,
}

impl Default for ProxyRouteConfig {
    fn default() -> (r: Self)
        ensures
            !r.proxy && r.proxy_url is None && !r.verify_ssl,
    {
        ProxyRouteConfig { proxy: false, proxy_url: None, verify_ssl: false }
    }
}

impl Clone for ProxyRouteConfig {
    fn clone(&self) -> (r: Self)
        ensures
            r == *self,
    {
        ProxyRouteConfig {
            proxy: self.proxy,
            proxy_url: copy_opt(&self.proxy_url),
            verify_ssl: self.verify_ssl,
        }
    }
}

/// The regular expression of a route pattern: dots stand for themselves, `*`
/// for any text within a path segment, and `all://` for either web scheme.
pub open spec fn route_regex(pattern: Seq<char>) -> Seq<char> {
    "^"@ + replace_text(
        replace_text(replace_text(pattern, "."@, "\\."@), "*"@, "[^/]*"@),
        "all://"@,
        "(http|https)://"@,
    )
}

/// How often `p` stands in `s` from `i` on, found from the left without
/// overlaps.
pub open spec fn count_from(s: Seq<char>, p: Seq<char>, i: int) -> nat
    decreases s.len() - i,
    when 0 <= i <= s.len() && p.len() > 0
    via count_from_decreases
{
    match find_from(s, p, i) {
        None => 0,
        Some(j) => 1 + count_from(s, p, j + p.len()),
    }
}

#[via_fn]
proof fn count_from_decreases(s: Seq<char>, p: Seq<char>, i: int) {
    lemma_find_from(s, p, i);
}

/// How many wildcards a route's regular expression holds.
pub open spec fn wildcards(regex: Seq<char>) -> nat {
    count_from(regex, "[^/]*"@, 0)
}

/// A route: the regular expression of its pattern and its configuration.
pub struct ProxyRoute {
    pub pattern: RoutePattern,
    pub config: ProxyRouteConfig,
}

/// A route, by its pattern's text.
pub struct RouteView {
    pub pattern: Seq<char>,
    pub config: ProxyRouteConfig,
}

impl View for ProxyRoute {
    type V = RouteView;

    open spec fn view(&self) -> RouteView {
        RouteView { pattern: self.pattern@, config: self.config }
    }
}

/// Routes, by their patterns' texts.
pub open spec fn route_views(v: Seq<ProxyRoute>) -> Seq<RouteView> {
    Seq::new(v.len(), |i: int| v[i]@)
}

/// Routes with one more, put behind those with no more wildcards than it.
pub open spec fn with_route(routes: Seq<RouteView>, r: RouteView) -> Seq<RouteView>
    decreases routes.len(),
{
    if routes.len() == 0 || wildcards(routes.last().pattern) <= wildcards(r.pattern) {
        routes.push(r)
    } else {
        with_route(routes.drop_last(), r).push(routes.last())
    }
}

/// The routes of the first `n` configured patterns: those whose regular
/// expression is valid, with fewer wildcards first and in the configured order
/// among equals.
pub open spec fn routes_of(config: Seq<(String, ProxyRouteConfig)>, n: int) -> Seq<RouteView>
    decreases n,
{
    if n <= 0 {
        Seq::empty()
    } else {
        let rest = routes_of(config, n - 1);
        let regex = route_regex(config[n - 1].0@);
        if regex_valid(regex) {
            with_route(rest, RouteView { pattern: regex, config: config[n - 1].1 })
        } else {
            rest
        }
    }
}

/// The configuration of the first route from `i` on that matches a URL.
pub open spec fn first_match(routes: Seq<RouteView>, url: Seq<char>, i: int) -> Option<
    ProxyRouteConfig,
>
    decreases routes.len() - i,
{
    if i < 0 || i >= routes.len() {
        None
    } else if regex_found(routes[i].pattern, url) {
        Some(routes[i].config)
    } else {
        first_match(routes, url, i + 1)
    }
}

/// Where the new route goes.
proof fn lemma_with_route(routes: Seq<RouteView>, r: RouteView, pos: int)
    requires
        0 <= pos <= routes.len(),
        forall|k: int|
            pos <= k < routes.len() ==> wildcards((#[trigger] routes[k]).pattern) > wildcards(
                r.pattern,
            ),
        pos > 0 ==> wildcards(routes[pos - 1].pattern) <= wildcards(r.pattern),
    ensures
        with_route(routes, r) == routes.insert(pos, r),
    decreases routes.len(),
{
    if pos == routes.len() {
        assert(routes.insert(pos, r) =~= routes.push(r));
    } else {
        assert(routes[routes.len() - 1] == routes.last());
        let init = routes.drop_last();
        assert forall|k: int| pos <= k < init.len() implies wildcards((#[trigger] init[k]).pattern)
            > wildcards(r.pattern) by {
            assert(init[k] == routes[k]);
        }
        lemma_with_route(init, r, pos);
        assert(routes.insert(pos, r) =~= init.insert(pos, r).push(routes.last()));
    }
}

/// Fewer wildcards come first.
pub open spec fn is_by_specificity(routes: Seq<RouteView>) -> bool {
    forall|i: int, j: int|
        0 <= i < j < routes.len() ==> wildcards((#[trigger] routes[i]).pattern) <= wildcards(
            (#[trigger] routes[j]).pattern,
        )
}

/// Putting a route in keeps the order.
proof fn lemma_with_route_ordered(routes: Seq<RouteView>, r: RouteView)
    requires
        is_by_specificity(routes),
    ensures
        is_by_specificity(with_route(routes, r)),
        with_route(routes, r).len() == routes.len() + 1,
        forall|i: int|
            0 <= i < with_route(routes, r).len() ==> wildcards(
                (#[trigger] with_route(routes, r)[i]).pattern,
            ) <= wildcards(r.pattern) || (routes.len() > 0 && wildcards(
                with_route(routes, r)[i].pattern,
            ) <= wildcards(routes.last().pattern)),
    decreases routes.len(),
{
    let out = with_route(routes, r);
    if routes.len() == 0 || wildcards(routes.last().pattern) <= wildcards(r.pattern) {
        assert forall|i: int, j: int| 0 <= i < j < out.len() implies wildcards(
            (#[trigger] out[i]).pattern,
        ) <= wildcards((#[trigger] out[j]).pattern) by {
            if j == routes.len() {
                if i < routes.len() - 1 {
                    assert(wildcards(routes[i].pattern) <= wildcards(
                        routes[routes.len() - 1].pattern,
                    ));
                }
            } else {
                assert(out[i] == routes[i] && out[j] == routes[j]);
            }
        }
    } else {
        let init = routes.drop_last();
        assert(is_by_specificity(init)) by {
            assert forall|i: int, j: int| 0 <= i < j < init.len() implies wildcards(
                (#[trigger] init[i]).pattern,
            ) <= wildcards((#[trigger] init[j]).pattern) by {
                assert(init[i] == routes[i] && init[j] == routes[j]);
            }
        }
        lemma_with_route_ordered(init, r);
        let front = with_route(init, r);
        assert forall|i: int, j: int| 0 <= i < j < out.len() implies wildcards(
            (#[trigger] out[i]).pattern,
        ) <= wildcards((#[trigger] out[j]).pattern) by {
            if j == front.len() {
                assert(out[i] == front[i]);
                if init.len() > 0 {
                    assert(init.last() == routes[routes.len() - 2]);
                    assert(wildcards(routes[routes.len() - 2].pattern) <= wildcards(
                        routes[routes.len() - 1].pattern,
                    ));
                }
            } else {
                assert(out[i] == front[i] && out[j] == front[j]);
            }
        }
        assert forall|i: int| 0 <= i < out.len() implies wildcards((#[trigger] out[i]).pattern)
            <= wildcards(r.pattern) || (routes.len() > 0 && wildcards(out[i].pattern) <= wildcards(
            routes.last().pattern,
        )) by {
            if i < front.len() {
                assert(out[i] == front[i]);
                if init.len() > 0 {
                    assert(init.last() == routes[routes.len() - 2]);
                    assert(wildcards(routes[routes.len() - 2].pattern) <= wildcards(
                        routes[routes.len() - 1].pattern,
                    ));
                }
            }
        }
    }
}

/// A more specific route is tried before a less specific one.
pub proof fn law_specific_routes_first(config: Seq<(String, ProxyRouteConfig)>, n: int)
    requires
        0 <= n <= config.len(),
    ensures
        is_by_specificity(routes_of(config, n)),
    decreases n,
{
    if n > 0 {
        law_specific_routes_first(config, n - 1);
        lemma_with_route_ordered(
            routes_of(config, n - 1),
            RouteView { pattern: route_regex(config[n - 1].0@), config: config[n - 1].1 },
        );
    }
}

/// How many wildcards a route's regular expression holds.
fn count_wildcards(regex: &str) -> (r: usize)
    ensures
        r == wildcards(regex@),
{
    let v = crate::text::chars(regex);
    let p = crate::text::chars("[^/]*");
    proof {
        reveal_strlit("[^/]*");
    }
    let mut n: usize = 0;
    let mut i: usize = 0;
    loop
        invariant
            v@ == regex@,
            p@ == "[^/]*"@,
            p@.len() == 5,
            n <= i <= v.len(),
            wildcards(regex@) == n + count_from(regex@, "[^/]*"@, i as int),
        decreases v.len() - i,
    {
        proof {
            lemma_find_from(v@, p@, i as int);
        }
        match find_in(&v, &p, i) {
            None => {
                return n;
            },
            Some(j) => {
                n += 1;
                i = j + 5;
            },
        }
    }
}

/// Decides through which proxy a URL is fetched.
pub struct ProxyRouter {
    default_proxy: Option<String>,
    all_proxy: bool,
    routes: Vec<ProxyRoute>,
}

/// A router, by its texts.
pub struct RouterView {
    pub default_proxy: Option<String>,
    pub all_proxy: bool,
    pub routes: Seq<RouteView>,
}

impl View for ProxyRouter {
    type V = RouterView;

    closed spec fn view(&self) -> RouterView {
        RouterView {
            default_proxy: self.default_proxy,
            all_proxy: self.all_proxy,
            routes: route_views(self.routes@),
        }
    }
}

/// How a URL is fetched: as the first matching route says; else through the
/// default proxy where all URLs go through it.
pub open spec fn route_for(router: RouterView, url: Seq<char>) -> Option<ProxyRouteConfig> {
    match parsed_url(url) {
        Err(_) => None,
        Ok(parts) => match first_match(router.routes, parts.text, 0) {
            Some(c) => Some(c),
            None => if router.all_proxy {
                Some(
                    ProxyRouteConfig {
                        proxy: true,
                        proxy_url: router.default_proxy,
                        verify_ssl: true,
                    },
                )
            } else {
                None
            },
        },
    }
}

impl ProxyRouter {
    /// A router over configured patterns. Patterns that make no regular
    /// expression are left out.
    pub fn new(
        default_proxy: Option<String>,
        all_proxy: bool,
        routes_config: &Vec<(String, ProxyRouteConfig)>,
    ) -> (r: Self)
        ensures
            r@ == (RouterView {
                default_proxy,
                all_proxy,
                routes: routes_of(routes_config@, routes_config@.len() as int),
            }),
    {
        let mut routes: Vec<ProxyRoute> = Vec::new();
        assert(route_views(routes@) =~= Seq::empty());
        let mut i: usize = 0;
        proof {
            reveal_strlit(".");
            reveal_strlit("*");
            reveal_strlit("all://");
        }
        while i < routes_config.len()
            invariant
                i <= routes_config.len(),
                "."@.len() == 1 && "*"@.len() == 1 && "all://"@.len() == 6,
                route_views(routes@) == routes_of(routes_config@, i as int),
            decreases routes_config.len() - i,
        {
            let dots = replace(routes_config[i].0.as_str(), ".", "\\.");
            let stars = replace(dots.as_str(), "*", "[^/]*");
            let schemes = replace(stars.as_str(), "all://", "(http|https)://");
            let pattern = concat("^", schemes.as_str());
            if let Some(compiled) = RoutePattern::compile(pattern.as_str()) {
                let route = ProxyRoute { pattern: compiled, config: routes_config[i].1.clone() };
                let ghost before = route_views(routes@);
                let n: usize = count_wildcards(route.pattern.text());
                let mut pos: usize = routes.len();
                while pos > 0 && count_wildcards(routes[pos - 1].pattern.text()) > n
                    invariant
                        pos <= routes.len(),
                        before == route_views(routes@),
                        n == wildcards(route@.pattern),
                        forall|k: int|
                            pos <= k < before.len() ==> wildcards((#[trigger] before[k]).pattern)
                                > n,
                    decreases pos,
                {
                    assert(before[pos - 1] == routes@[pos - 1]@);
                    pos -= 1;
                }
                proof {
                    if pos > 0 {
                        assert(before[pos - 1] == routes@[pos - 1]@);
                    }
                    lemma_with_route(before, route@, pos as int);
                }
                let ghost view = route@;
                routes.insert(pos, route);
                assert(route_views(routes@) =~= before.insert(pos as int, view));
            }
            i += 1;
        }
        ProxyRouter { default_proxy, all_proxy, routes }
    }

    /// The router of a proxy configuration.
    pub fn from_config(config: &ProxyConfig) -> (r: Self)
        ensures
            r@ == (RouterView {
                default_proxy: config.proxy_url,
                all_proxy: config.all_proxy,
                routes: routes_of(config.transport_routes@, config.transport_routes@.len() as int),
            }),
    {
        Self::new(copy_opt(&config.proxy_url), config.all_proxy, &config.transport_routes)
    }

    /// How `url` is fetched; `None` where nothing is said of it.
    pub fn get_proxy_config(&self, url: &str) -> (r: Option<ProxyRouteConfig>)
        ensures
            r == route_for(self@, url@),
    {
        let parsed = match parse_url(url) {
            Ok(u) => u,
            Err(_) => {
                return None;
            },
        };
        let mut i: usize = 0;
        while i < self.routes.len()
            invariant
                i <= self.routes.len(),
                first_match(self@.routes, parsed.text@, 0) == first_match(
                    self@.routes,
                    parsed.text@,
                    i as int,
                ),
                parsed_url(url@) matches Ok(p) && p == parsed@,
            decreases self.routes.len() - i,
        {
            assert(self@.routes[i as int] == self.routes@[i as int]@);
            if self.routes[i].pattern.is_match(parsed.text.as_str()) {
                return Some(self.routes[i].config.clone());
            }
            i += 1;
        }
        if self.all_proxy {
            return Some(
                ProxyRouteConfig {
                    proxy: true,
                    proxy_url: copy_opt(&self.default_proxy),
                    verify_ssl: true,
                },
            );
        }
        None
    }

    /// The default proxy.
    pub fn default_proxy(&self) -> (r: &Option<String>)
        ensures
            *r == self@.default_proxy,
    {
        &self.default_proxy
    }
}

// ---------------------------------------------------------------------------
// Sections
// ---------------------------------------------------------------------------

/// The listener.
pub struct ServerConfig {
    pub host: String,
    pub port: u16,
    pub workers: usize,
    /// The path prefix that the proxy is served under.
    pub path: String,
}

/// Upstream connections.
pub struct ProxyConfig {
    /// Seconds to wait for a connection.
    pub connect_timeout: u64,
    /// Bytes of a stream's buffer.
    pub buffer_size: usize,
    pub follow_redirects: bool,
    /// The default proxy.
    pub proxy_url: Option<String>,
    /// Whether every request goes through the default proxy.
    pub all_proxy: bool,
    /// Route patterns and how matching URLs are fetched.
    pub transport_routes: Vec<(String, ProxyRouteConfig)>,
    /// How many times the connect timeout a whole request may take.
    pub request_timeout_factor: u64,
    pub max_concurrent_per_host: usize,
    pub pool_idle_timeout: u64,
    pub pool_max_idle_per_host: usize,
    pub body_read_timeout: u64,
}

impl Default for ServerConfig {
    fn default() -> (r: Self)
        ensures
            r.host@ == "127.0.0.1"@ && r.port == 8888 && r.workers == 4 && r.path@ == ""@,
    {
        ServerConfig { host: "127.0.0.1".to_owned(), port: 8888, workers: 4, path: "".to_owned() }
    }
}

impl Default for ProxyConfig {
    fn default() -> (r: Self)
        ensures
            r.connect_timeout == 30 && r.buffer_size == 262144 && r.follow_redirects,
            r.proxy_url is None && !r.all_proxy && r.transport_routes@.len() == 0,
            r.request_timeout_factor == 8 && r.max_concurrent_per_host == 10,
            r.pool_idle_timeout == 90 && r.pool_max_idle_per_host == 100,
            r.body_read_timeout == 60,
    {
        ProxyConfig {
            connect_timeout: 30,
            buffer_size: 262144,
            follow_redirects: true,
            proxy_url: None,
            all_proxy: false,
            transport_routes: Vec::new(),
            request_timeout_factor: 8,
            max_concurrent_per_host: 10,
            pool_idle_timeout: 90,
            pool_max_idle_per_host: 100,
            body_read_timeout: 60,
        }
    }
}

/// Access control.
pub struct AuthConfig {
    pub api_password: String,
}

impl Default for AuthConfig {
    fn default() -> (r: Self)
        ensures
            r.api_password@ == "changeme"@,
    {
        AuthConfig { api_password: "changeme".to_owned() }
    }
}

/// HLS playback.
#[derive(Clone, Copy)]
pub struct HlsConfig {
    /// How many segments are fetched ahead.
    pub prebuffer_segments: usize,
    pub prebuffer_cache_size: usize,
    pub segment_cache_ttl: u64,
    pub inactivity_timeout: u64,
}

impl Default for HlsConfig {
    fn default() -> (r: Self)
        ensures
            r == (HlsConfig {
                prebuffer_segments: 5,
                prebuffer_cache_size: 50,
                segment_cache_ttl: 300,
                inactivity_timeout: 60,
            }),
    {
        HlsConfig {
            prebuffer_segments: 5,
            prebuffer_cache_size: 50,
            segment_cache_ttl: 300,
            inactivity_timeout: 60,
        }
    }
}

/// DASH playback.
#[derive(Clone, Copy)]
pub struct MpdConfig {
    /// How many segments a live playlist holds.
    pub live_playlist_depth: usize,
    pub live_init_cache_ttl: u64,
    /// Whether segments are remuxed to MPEG-TS.
    pub remux_to_ts: bool,
}

impl Default for MpdConfig {
    fn default() -> (r: Self)
        ensures
            r == (MpdConfig { live_playlist_depth: 8, live_init_cache_ttl: 60, remux_to_ts: false }),
    {
        MpdConfig { live_playlist_depth: 8, live_init_cache_ttl: 60, remux_to_ts: false }
    }
}

/// Decryption keys.
#[derive(Clone, Copy)]
pub struct DrmConfig {
    pub key_cache_ttl: u64,
}

impl Default for DrmConfig {
    fn default() -> (r: Self)
        ensures
            r == (DrmConfig { key_cache_ttl: 3600 }),
    {
        DrmConfig { key_cache_ttl: 3600 }
    }
}

/// A shared cache.
pub struct RedisConfig {
    pub url: String,
    pub cache_namespace: String,
}

impl RedisConfig {
    /// Whether the cache is used: its URL is set.
    pub fn is_enabled(&self) -> (r: bool)
        ensures
            r == (self.url@.len() > 0),
    {
        crate::text::chars(self.url.as_str()).len() > 0
    }
}

impl Default for RedisConfig {
    fn default() -> (r: Self)
        ensures
            r.url@ == ""@ && r.cache_namespace@ == ""@,
    {
        RedisConfig { url: "".to_owned(), cache_namespace: "".to_owned() }
    }
}

/// Telegram access.
pub struct TelegramConfig {
    pub api_id: i32,
    pub api_hash: String,
    pub session_string: String,
    pub max_connections: usize,
}

impl Default for TelegramConfig {
    fn default() -> (r: Self)
        ensures
            r.api_id == 0 && r.api_hash@ == ""@ && r.session_string@ == ""@ && r.max_connections
                == 8,
    {
        TelegramConfig {
            api_id: 0,
            api_hash: "".to_owned(),
            session_string: "".to_owned(),
            max_connections: 8,
        }
    }
}

/// The Acestream engine.
pub struct AcestreamConfig {
    pub host: String,
    pub port: u16,
    pub buffer_size: usize,
    pub access_token: Option<String>,
}

impl Default for AcestreamConfig {
    fn default() -> (r: Self)
        ensures
            r.host@ == "localhost"@ && r.port == 6878 && r.buffer_size == 4194304
                && r.access_token is None,
    {
        AcestreamConfig {
            host: "localhost".to_owned(),
            port: 6878,
            buffer_size: 4194304,
            access_token: None,
        }
    }
}

/// Programme guides.
#[derive(Clone, Copy)]
pub struct EpgConfig {
    pub cache_ttl: u64,
}

impl Default for EpgConfig {
    fn default() -> (r: Self)
        ensures
            r == (EpgConfig { cache_ttl: 3600 }),
    {
        EpgConfig { cache_ttl: 3600 }
    }
}

/// Transcoding.
pub struct TranscodeConfig {
    pub enabled: bool,
    pub prefer_gpu: bool,
    pub video_bitrate: String,
    pub audio_bitrate: u32,
}

impl Default for TranscodeConfig {
    fn default() -> (r: Self)
        ensures
            r.enabled && r.prefer_gpu && r.video_bitrate@ == "4M"@ && r.audio_bitrate == 192_000,
    {
        TranscodeConfig {
            enabled: true,
            prefer_gpu: true,
            video_bitrate: "4M".to_owned(),
            audio_bitrate: 192_000,
        }
    }
}

/// Provider extraction.
pub struct ExtractorConfig {
    /// A service that solves access challenges.
    pub byparr_url: Option<String>,
    pub byparr_timeout: u64,
}

impl Default for ExtractorConfig {
    fn default() -> (r: Self)
        ensures
            r.byparr_url is None && r.byparr_timeout == 0,
    {
        ExtractorConfig { byparr_url: None, byparr_timeout: 0 }
    }
}

/// The forward endpoint.
pub struct ForwardConfig {
    /// The only hosts that requests go to; any host where it is empty.
    pub allowed_hosts: Vec<String>,
    /// Hosts that no request goes to.
    pub denied_hosts: Vec<String>,
    pub max_request_body_bytes: usize,
    pub max_response_body_bytes: usize,
    pub response_body_timeout_secs: u64,
    /// The proxy's own public address.
    pub public_ip: Option<String>,
}

impl Default for ForwardConfig {
    fn default() -> (r: Self)
        ensures
            r.allowed_hosts@.len() == 0 && r.denied_hosts@.len() == 0,
            r.max_request_body_bytes == 52428800 && r.max_response_body_bytes == 10485760,
            r.response_body_timeout_secs == 30 && r.public_ip is None,
    {
        ForwardConfig {
            allowed_hosts: Vec::new(),
            denied_hosts: Vec::new(),
            max_request_body_bytes: 52428800,
            max_response_body_bytes: 10485760,
            response_body_timeout_secs: 30,
            public_ip: None,
        }
    }
}

/// The whole configuration.
pub struct Config {
    pub server: ServerConfig,
    pub proxy: ProxyConfig,
    pub auth: AuthConfig,
    pub hls: HlsConfig,
    pub mpd: MpdConfig,
    pub drm: DrmConfig,
    pub redis: RedisConfig,
    pub telegram: TelegramConfig,
    pub acestream: AcestreamConfig,
    pub transcode: TranscodeConfig,
    pub epg: EpgConfig,
    pub extractor: ExtractorConfig,
    pub forward: ForwardConfig,
    pub log_level: String,
}

impl Default for Config {
    fn default() -> (r: Self)
        ensures
            call_ensures(ServerConfig::default, (), r.server),
            call_ensures(ProxyConfig::default, (), r.proxy),
            call_ensures(AuthConfig::default, (), r.auth),
            call_ensures(HlsConfig::default, (), r.hls),
            call_ensures(MpdConfig::default, (), r.mpd),
            call_ensures(DrmConfig::default, (), r.drm),
            call_ensures(RedisConfig::default, (), r.redis),
            call_ensures(TelegramConfig::default, (), r.telegram),
            call_ensures(AcestreamConfig::default, (), r.acestream),
            call_ensures(TranscodeConfig::default, (), r.transcode),
            call_ensures(EpgConfig::default, (), r.epg),
            r.extractor.byparr_url is None && r.extractor.byparr_timeout == 60,
            call_ensures(ForwardConfig::default, (), r.forward),
            r.log_level@ == "info,actix_http::h1=off"@,
    {
        Config {
            server: ServerConfig::default(),
            proxy: ProxyConfig::default(),
            auth: AuthConfig::default(),
            hls: HlsConfig::default(),
            mpd: MpdConfig::default(),
            drm: DrmConfig::default(),
            redis: RedisConfig::default(),
            telegram: TelegramConfig::default(),
            acestream: AcestreamConfig::default(),
            transcode: TranscodeConfig::default(),
            epg: EpgConfig::default(),
            extractor: ExtractorConfig { byparr_url: None, byparr_timeout: 60 },
            forward: ForwardConfig::default(),
            log_level: "info,actix_http::h1=off".to_owned(),
        }
    }
}

} // verus!
