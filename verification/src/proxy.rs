//! The proxy orchestration rules: routing, content-negotiation driver,
//! conversion decision, header merge, and response assembly.
//!
//! The pieces here are pure: the unverified server shell performs the
//! actual network I/O and hands the results to these functions.

use vstd::prelude::*;
use vstd::string::StrSliceExecFns;
use vstd::string::StringExecFns;
use crate::cache::CacheKey;
use crate::chars::{
    dec_str, find_in_range, first_sep, lower_char, lower_range_eq_str, lower_seq, map_plus_space, plus_space,
    push_dec, range_eq_str, split_chars, split_range, str_to_chars, trim_chars, trim_range,
};
use crate::image::{
    convert_ok, decode_ok, format_from_content_type, format_satisfies, is_image_content_type,
    is_negotiated, parse_accept_header, spec_format_from_content_type, spec_format_tag,
    spec_is_image_content_type, ConversionError, ImageConverter, OutputFormat,
};

verus! {

/// A finished HTTP response: status, headers in emission order, body.
#[derive(Debug, Clone)]
pub struct ProxyResponse {
    pub status: u16,
    pub headers: Vec<(String, String)>,
    pub body: Vec<u8>,
}

/// Header pairs as sequences of characters.
pub open spec fn headers_view(h: Seq<(String, String)>) -> Seq<(Seq<char>, Seq<char>)> {
    h.map_values(|p: (String, String)| (p.0@, p.1@))
}

/// View of optional borrowed headers.
pub open spec fn opt_headers_view(up: Option<&Vec<(String, String)>>) -> Option<
    Seq<(Seq<char>, Seq<char>)>,
> {
    match up {
        Some(h) => Some(headers_view(h@)),
        None => None,
    }
}

/// Headers the proxy never copies from upstream: hop-by-hop framing
/// headers and the headers the proxy sets itself.
pub open spec fn spec_excluded(name: Seq<char>) -> bool {
    ||| lower_seq(name) == "content-length"@
    ||| lower_seq(name) == "content-type"@
    ||| lower_seq(name) == "transfer-encoding"@
    ||| lower_seq(name) == "connection"@
    ||| lower_seq(name) == "via"@
    ||| lower_seq(name) == "cache-control"@
    ||| lower_seq(name) == "x-cache-status"@
}

/// Check if a header should be excluded when copying upstream headers.
pub fn should_exclude_header(name: &str) -> (r: bool)
    ensures
        r == spec_excluded(name@),
{
    let chars = str_to_chars(name);
    let n = chars.len();
    proof {
        assert(chars@.subrange(0, n as int) =~= name@);
    }
    lower_range_eq_str(&chars, 0, n, "content-length")
        || lower_range_eq_str(&chars, 0, n, "content-type")
        || lower_range_eq_str(&chars, 0, n, "transfer-encoding")
        || lower_range_eq_str(&chars, 0, n, "connection")
        || lower_range_eq_str(&chars, 0, n, "via")
        || lower_range_eq_str(&chars, 0, n, "cache-control")
        || lower_range_eq_str(&chars, 0, n, "x-cache-status")
}

/// Headers the proxy never copies on a pass-through response: the
/// hop-by-hop framing headers and Via, which the proxy sets itself.
/// Content-Type, Cache-Control and X-Cache-Status are excluded only on
/// success responses, where the proxy overrides them; a pass-through
/// keeps upstream's.
pub open spec fn spec_excluded_passthrough(name: Seq<char>) -> bool {
    ||| lower_seq(name) == "content-length"@
    ||| lower_seq(name) == "transfer-encoding"@
    ||| lower_seq(name) == "connection"@
    ||| lower_seq(name) == "via"@
}

/// Check if a header should be excluded when copying upstream headers
/// onto a pass-through response.
fn should_exclude_header_passthrough(name: &str) -> (r: bool)
    ensures
        r == spec_excluded_passthrough(name@),
{
    let chars = str_to_chars(name);
    let n = chars.len();
    proof {
        assert(chars@.subrange(0, n as int) =~= name@);
    }
    lower_range_eq_str(&chars, 0, n, "content-length")
        || lower_range_eq_str(&chars, 0, n, "transfer-encoding")
        || lower_range_eq_str(&chars, 0, n, "connection")
        || lower_range_eq_str(&chars, 0, n, "via")
}

/// The upstream headers that survive the denylist, in their order.
pub open spec fn kept_upstream(up: Seq<(Seq<char>, Seq<char>)>) -> Seq<(Seq<char>, Seq<char>)>
    decreases up.len(),
{
    if up.len() == 0 {
        Seq::empty()
    } else {
        let rest = kept_upstream(up.drop_last());
        if spec_excluded(up.last().0) {
            rest
        } else {
            rest.push(up.last())
        }
    }
}

/// The upstream headers that survive the pass-through denylist, in
/// their order.
pub open spec fn kept_upstream_passthrough(up: Seq<(Seq<char>, Seq<char>)>) -> Seq<
    (Seq<char>, Seq<char>),
>
    decreases up.len(),
{
    if up.len() == 0 {
        Seq::empty()
    } else {
        let rest = kept_upstream_passthrough(up.drop_last());
        if spec_excluded_passthrough(up.last().0) {
            rest
        } else {
            rest.push(up.last())
        }
    }
}

/// No surviving upstream header carries a denylisted name.  The proxy
/// then sets each of its own headers exactly once, so a merged response
/// never carries a proxy-owned header twice.
pub proof fn lemma_kept_upstream_excludes(up: Seq<(Seq<char>, Seq<char>)>)
    ensures
        forall|i: int| 0 <= i < kept_upstream(up).len() ==> !spec_excluded(
            (#[trigger] kept_upstream(up)[i]).0,
        ),
    decreases up.len(),
{
    if up.len() > 0 {
        lemma_kept_upstream_excludes(up.drop_last());
        let rest = kept_upstream(up.drop_last());
        if !spec_excluded(up.last().0) {
            assert forall|i: int| 0 <= i < kept_upstream(up).len() implies !spec_excluded(
                (#[trigger] kept_upstream(up)[i]).0,
            ) by {
                if i < rest.len() {
                    assert(kept_upstream(up)[i] == rest[i]);
                } else {
                    assert(kept_upstream(up)[i] == up.last());
                }
            }
        }
    }
}

/// Some header of `up` carries this (lower-case) name.
pub open spec fn has_header_named(up: Seq<(Seq<char>, Seq<char>)>, name: Seq<char>) -> bool {
    exists|i: int| 0 <= i < up.len() && lower_seq((#[trigger] up[i]).0) == name
}

/// True iff the upstream headers already supply a CORS origin header.
fn upstream_has_cors(h: &Vec<(String, String)>) -> (r: bool)
    ensures
        r == has_header_named(headers_view(h@), "access-control-allow-origin"@),
{
    let ghost hv = headers_view(h@);
    let mut i: usize = 0;
    while i < h.len()
        invariant
            i <= h@.len(),
            hv == headers_view(h@),
            forall|j: int| 0 <= j < i ==> lower_seq((#[trigger] hv[j]).0)
                != "access-control-allow-origin"@,
        decreases h@.len() - i,
    {
        let name = &h[i].0;
        let chars = str_to_chars(name.as_str());
        let n = chars.len();
        proof {
            assert(chars@.subrange(0, n as int) =~= name@);
            assert(hv[i as int].0 == h@[i as int].0@);
        }
        if lower_range_eq_str(&chars, 0, n, "access-control-allow-origin") {
            proof {
                assert(lower_seq(hv[i as int].0) == "access-control-allow-origin"@);
            }
            return true;
        }
        i += 1;
    }
    false
}

/// Copies the upstream headers that the denylist allows.
fn filter_upstream(h: &Vec<(String, String)>) -> (r: Vec<(String, String)>)
    ensures
        headers_view(r@) == kept_upstream(headers_view(h@)),
{
    let ghost hv = headers_view(h@);
    let mut r: Vec<(String, String)> = Vec::new();
    let mut i: usize = 0;
    while i < h.len()
        invariant
            i <= h@.len(),
            hv == headers_view(h@),
            headers_view(r@) == kept_upstream(hv.take(i as int)),
        decreases h@.len() - i,
    {
        proof {
            assert(hv[i as int] == (h@[i as int].0@, h@[i as int].1@));
            assert(hv.take(i as int + 1).drop_last() =~= hv.take(i as int));
            assert(hv.take(i as int + 1).last() == hv[i as int]);
        }
        if !should_exclude_header(h[i].0.as_str()) {
            let pair = (h[i].0.clone(), h[i].1.clone());
            r.push(pair);
            proof {
                assert(headers_view(r@) =~= kept_upstream(hv.take(i as int)).push(hv[i as int]));
            }
        }
        i += 1;
    }
    proof {
        assert(hv.take(h@.len() as int) =~= hv);
    }
    r
}

/// Copies the upstream headers that the pass-through denylist allows.
fn filter_upstream_passthrough(h: &Vec<(String, String)>) -> (r: Vec<(String, String)>)
    ensures
        headers_view(r@) == kept_upstream_passthrough(headers_view(h@)),
{
    let ghost hv = headers_view(h@);
    let mut r: Vec<(String, String)> = Vec::new();
    let mut i: usize = 0;
    while i < h.len()
        invariant
            i <= h@.len(),
            hv == headers_view(h@),
            headers_view(r@) == kept_upstream_passthrough(hv.take(i as int)),
        decreases h@.len() - i,
    {
        proof {
            assert(hv[i as int] == (h@[i as int].0@, h@[i as int].1@));
            assert(hv.take(i as int + 1).drop_last() =~= hv.take(i as int));
            assert(hv.take(i as int + 1).last() == hv[i as int]);
        }
        if !should_exclude_header_passthrough(h[i].0.as_str()) {
            let pair = (h[i].0.clone(), h[i].1.clone());
            r.push(pair);
            proof {
                assert(headers_view(r@) =~= kept_upstream_passthrough(hv.take(i as int)).push(
                    hv[i as int],
                ));
            }
        }
        i += 1;
    }
    proof {
        assert(hv.take(h@.len() as int) =~= hv);
    }
    r
}

/// No surviving pass-through header carries a denylisted name; in
/// particular upstream's Via is dropped before the proxy sets its own,
/// so Via appears exactly once.
pub proof fn lemma_kept_passthrough_excludes(up: Seq<(Seq<char>, Seq<char>)>)
    ensures
        forall|i: int| 0 <= i < kept_upstream_passthrough(up).len() ==> !spec_excluded_passthrough(
            (#[trigger] kept_upstream_passthrough(up)[i]).0,
        ),
    decreases up.len(),
{
    if up.len() > 0 {
        lemma_kept_passthrough_excludes(up.drop_last());
        let rest = kept_upstream_passthrough(up.drop_last());
        if !spec_excluded_passthrough(up.last().0) {
            assert forall|i: int|
                0 <= i < kept_upstream_passthrough(up).len() implies !spec_excluded_passthrough(
                (#[trigger] kept_upstream_passthrough(up)[i]).0,
            ) by {
                if i < rest.len() {
                    assert(kept_upstream_passthrough(up)[i] == rest[i]);
                } else {
                    assert(kept_upstream_passthrough(up)[i] == up.last());
                }
            }
        }
    }
}

/// Headers of a success response: the surviving upstream headers, then
/// the proxy's own content type, Via, cache policy and cache status;
/// `Vary: Accept` in CDN-compatibility mode; and a permissive CORS
/// origin unless upstream already sent one.
pub open spec fn spec_success_headers(
    up: Option<Seq<(Seq<char>, Seq<char>)>>,
    content_type: Seq<char>,
    via: Seq<char>,
    is_hit: bool,
    cdn: bool,
) -> Seq<(Seq<char>, Seq<char>)> {
    let kept = match up {
        Some(u) => kept_upstream(u),
        None => Seq::empty(),
    };
    let no_cors = match up {
        Some(u) => !has_header_named(u, "access-control-allow-origin"@),
        None => true,
    };
    let base = kept.push(("content-type"@, content_type)).push(("via"@, via)).push(
        ("cache-control"@, "public, max-age=31536000, immutable"@),
    ).push(
        ("x-cache-status"@, if is_hit {
            "HIT"@
        } else {
            "MISS"@
        }),
    );
    let with_vary = if cdn {
        base.push(("vary"@, "Accept"@))
    } else {
        base
    };
    if no_cors {
        with_vary.push(("access-control-allow-origin"@, "*"@))
    } else {
        with_vary
    }
}

/// Headers of a pass-through response: the upstream headers surviving
/// the pass-through denylist — Content-Type, Cache-Control and
/// X-Cache-Status among them, untouched — the proxy's Via, and a
/// permissive CORS origin unless upstream already sent one.
pub open spec fn spec_status_headers(
    up: Option<Seq<(Seq<char>, Seq<char>)>>,
    via: Seq<char>,
) -> Seq<(Seq<char>, Seq<char>)> {
    let kept = match up {
        Some(u) => kept_upstream_passthrough(u),
        None => Seq::empty(),
    };
    let no_cors = match up {
        Some(u) => !has_header_named(u, "access-control-allow-origin"@),
        None => true,
    };
    let base = kept.push(("via"@, via));
    if no_cors {
        base.push(("access-control-allow-origin"@, "*"@))
    } else {
        base
    }
}

/// Build a success (200) response: merge headers per the denylist, then
/// set the proxy-owned headers.
pub fn build_response(
    data: Vec<u8>,
    content_type: &str,
    via_header: &str,
    upstream_headers: Option<&Vec<(String, String)>>,
    is_cache_hit: bool,
    behind_cdn_query_override: bool,
) -> (r: ProxyResponse)
    ensures
        r.status == 200,
        r.body@ == data@,
        headers_view(r.headers@) == spec_success_headers(
            opt_headers_view(upstream_headers),
            content_type@,
            via_header@,
            is_cache_hit,
            behind_cdn_query_override,
        ),
{
    let mut hdrs: Vec<(String, String)>;
    let no_cors: bool;
    match upstream_headers {
        Some(h) => {
            hdrs = filter_upstream(h);
            no_cors = !upstream_has_cors(h);
        },
        None => {
            hdrs = Vec::new();
            no_cors = true;
        },
    }
    hdrs.push((String::from_str("content-type"), String::from_str(content_type)));
    hdrs.push((String::from_str("via"), String::from_str(via_header)));
    hdrs.push(
        (
            String::from_str("cache-control"),
            String::from_str("public, max-age=31536000, immutable"),
        ),
    );
    let status_value = if is_cache_hit {
        String::from_str("HIT")
    } else {
        String::from_str("MISS")
    };
    hdrs.push((String::from_str("x-cache-status"), status_value));
    if behind_cdn_query_override {
        hdrs.push((String::from_str("vary"), String::from_str("Accept")));
    }
    if no_cors {
        hdrs.push((String::from_str("access-control-allow-origin"), String::from_str("*")));
    }
    proof {
        assert(headers_view(hdrs@) =~= spec_success_headers(
            opt_headers_view(upstream_headers),
            content_type@,
            via_header@,
            is_cache_hit,
            behind_cdn_query_override,
        ));
    }
    ProxyResponse { status: 200, headers: hdrs, body: data }
}

/// Build a pass-through response carrying the upstream status: merge
/// headers per the pass-through denylist — upstream's Content-Type
/// survives — and set the proxy's Via.
pub fn build_response_with_status(
    data: Vec<u8>,
    status: u16,
    via_header: &str,
    upstream_headers: Option<&Vec<(String, String)>>,
) -> (r: ProxyResponse)
    ensures
        r.status == status,
        r.body@ == data@,
        headers_view(r.headers@) == spec_status_headers(
            opt_headers_view(upstream_headers),
            via_header@,
        ),
{
    let mut hdrs: Vec<(String, String)>;
    let no_cors: bool;
    match upstream_headers {
        Some(h) => {
            hdrs = filter_upstream_passthrough(h);
            no_cors = !upstream_has_cors(h);
        },
        None => {
            hdrs = Vec::new();
            no_cors = true;
        },
    }
    hdrs.push((String::from_str("via"), String::from_str(via_header)));
    if no_cors {
        hdrs.push((String::from_str("access-control-allow-origin"), String::from_str("*")));
    }
    proof {
        assert(headers_view(hdrs@) =~= spec_status_headers(
            opt_headers_view(upstream_headers),
            via_header@,
        ));
    }
    ProxyResponse { status, headers: hdrs, body: data }
}

/// Proxy error types.
#[derive(Debug)]
pub enum ProxyError {
    /// The client addressed a route outside the proxied prefixes.
    PathNotAllowed,
    /// Reaching upstream failed at the transport level; carries the
    /// underlying cause.
    UpstreamError(String),
}

impl ProxyError {
    /// The status code and plain-text body this error answers with.
    pub fn into_response(self) -> (r: (u16, String))
        ensures
            match self {
                ProxyError::PathNotAllowed => r.0 == 403 && r.1@ == "Path not allowed"@,
                ProxyError::UpstreamError(e) => r.0 == 502 && r.1@ == "Upstream error: "@ + e@,
            },
    {
        match self {
            ProxyError::PathNotAllowed => (403, String::from_str("Path not allowed")),
            ProxyError::UpstreamError(e) => {
                (502, String::from_str("Upstream error: ").concat(e.as_str()))
            },
        }
    }
}

/// Where a request path leads.
#[derive(Debug, Clone, Copy, PartialEq, Eq, Structural)]
pub enum RouteDecision {
    /// The root path: answer with a permanent redirect.
    RootRedirect,
    /// A `/media` or `/proxy` path: run the pipeline.
    Proxy,
    /// Anything else is refused.
    NotAllowed,
}

/// The routing rule over the request path.
pub open spec fn spec_route(path: Seq<char>) -> RouteDecision {
    if path == "/"@ {
        RouteDecision::RootRedirect
    } else if path.len() >= 6 && (path.take(6) == "/media"@ || path.take(6) == "/proxy"@) {
        RouteDecision::Proxy
    } else {
        RouteDecision::NotAllowed
    }
}

/// Decide what to do with a request path.
pub fn route_request(path: &str) -> (r: RouteDecision)
    ensures
        r == spec_route(path@),
{
    let chars = str_to_chars(path);
    let n = chars.len();
    proof {
        assert(chars@.subrange(0, n as int) =~= path@);
    }
    if range_eq_str(&chars, 0, n, "/") {
        RouteDecision::RootRedirect
    } else if n >= 6 && (range_eq_str(&chars, 0, 6, "/media") || range_eq_str(&chars, 0, 6, "/proxy")) {
        proof {
            assert(path@.subrange(0, 6) == path@.take(6));
        }
        RouteDecision::Proxy
    } else {
        proof {
            if n >= 6 {
                assert(path@.subrange(0, 6) == path@.take(6));
            }
        }
        RouteDecision::NotAllowed
    }
}

/// The redirect target for the root path.
pub fn redirect_location() -> (r: &'static str)
    ensures
        r@ == "https://github.com/BlockG-ws/akkoproxy"@,
{
    "https://github.com/BlockG-ws/akkoproxy"
}

/// The permanent-redirect response for the root path.
pub fn root_redirect_response() -> (r: ProxyResponse)
    ensures
        r.status == 301,
        r.body@ == Seq::<u8>::empty(),
        headers_view(r.headers@) == seq![
            ("location"@, "https://github.com/BlockG-ws/akkoproxy"@),
        ],
{
    let mut hdrs: Vec<(String, String)> = Vec::new();
    hdrs.push((String::from_str("location"), String::from_str(redirect_location())));
    proof {
        assert(headers_view(hdrs@) =~= seq![
            ("location"@, "https://github.com/BlockG-ws/akkoproxy"@),
        ]);
    }
    ProxyResponse { status: 301, headers: hdrs, body: Vec::new() }
}

/// The health-check body.
pub fn health_body() -> (r: &'static str)
    ensures
        r@ == "OK"@,
{
    "OK"
}

/// The metrics body: one line for the entry count, one for the weighted
/// byte size.
pub fn metrics_body(entry_count: u64, weighted_size: u64) -> (r: String)
    ensures
        r@ == "cache_entries "@ + dec_str(entry_count as nat) + "\ncache_size_bytes "@ + dec_str(
            weighted_size as nat,
        ) + "\n"@,
{
    let mut s = String::from_str("cache_entries ");
    push_dec(&mut s, entry_count);
    s.append("\ncache_size_bytes ");
    push_dec(&mut s, weighted_size);
    s.append("\n");
    proof {
        assert(s@ =~= "cache_entries "@ + dec_str(entry_count as nat) + "\ncache_size_bytes "@
            + dec_str(weighted_size as nat) + "\n"@);
    }
    s
}

/// A query parameter carries a key-value shape with the key `format`.
pub open spec fn is_format_param(p: Seq<char>) -> bool {
    first_sep(p, '=') < p.len() && p.take(first_sep(p, '=') as int) == "format"@
}

/// The format a `format` parameter's value names: `+` becomes a space,
/// the result is trimmed and lower-cased, and only an exact `avif` or
/// `webp` counts.
pub open spec fn format_param_value(p: Seq<char>) -> Option<OutputFormat> {
    let v = p.skip(first_sep(p, '=') as int + 1);
    let t = lower_seq(trim_chars(v.map_values(|c: char| plus_space(c))));
    if t == "avif"@ {
        Some(OutputFormat::Avif)
    } else if t == "webp"@ {
        Some(OutputFormat::WebP)
    } else {
        None
    }
}

/// The value of the last `format` parameter, if any parameter carries
/// that key.
pub open spec fn query_fmt(params: Seq<Seq<char>>) -> Option<Option<OutputFormat>>
    decreases params.len(),
{
    if params.len() == 0 {
        None
    } else if is_format_param(params.last()) {
        Some(format_param_value(params.last()))
    } else {
        query_fmt(params.drop_last())
    }
}

/// The parameters that are not `format` parameters, in their order.
pub open spec fn kept_params(params: Seq<Seq<char>>) -> Seq<Seq<char>>
    decreases params.len(),
{
    if params.len() == 0 {
        Seq::empty()
    } else {
        let rest = kept_params(params.drop_last());
        if is_format_param(params.last()) {
            rest
        } else {
            rest.push(params.last())
        }
    }
}

/// Parameters joined back with `&`.
pub open spec fn join_amp(parts: Seq<Seq<char>>) -> Seq<char>
    decreases parts.len(),
{
    if parts.len() == 0 {
        Seq::empty()
    } else if parts.len() == 1 {
        parts[0]
    } else {
        join_amp(parts.drop_last()) + seq!['&'] + parts.last()
    }
}

/// The format override a raw query string carries, if any.
pub open spec fn spec_query_format(q: Seq<char>) -> Option<OutputFormat> {
    match query_fmt(split_chars(q, '&')) {
        Some(v) => v,
        None => None,
    }
}

/// The query string to forward upstream: every parameter but `format`,
/// in the original order.
pub open spec fn spec_stripped_query(q: Seq<char>) -> Seq<char> {
    join_amp(kept_params(split_chars(q, '&')))
}

/// Parse a query string: extract the `format` override and return the
/// remaining query to forward upstream.
pub fn parse_query_for_format(query: &str) -> (r: (Option<OutputFormat>, String))
    ensures
        r.0 == spec_query_format(query@),
        r.1@ == spec_stripped_query(query@),
{
    let chars = str_to_chars(query);
    let n = chars.len();
    proof {
        assert(chars@.subrange(0, n as int) =~= query@);
    }
    let params = split_range(&chars, 0, n, '&');
    let ghost pseq = split_chars(query@, '&');
    let ghost rview = |p: (usize, usize)| chars@.subrange(p.0 as int, p.1 as int);
    let mut fv: Option<OutputFormat> = None;
    let mut out = String::new();
    let mut kept_any = false;
    let mut i: usize = 0;
    while i < params.len()
        invariant
            i <= params@.len(),
            n == chars@.len(),
            chars@ == query@,
            pseq == split_chars(query@, '&'),
            rview == (|p: (usize, usize)| chars@.subrange(p.0 as int, p.1 as int)),
            params@.map_values(rview) == pseq,
            forall|k: int| 0 <= k < params@.len() ==> (#[trigger] params@[k]).0 <= params@[k].1
                <= n,
            fv == match query_fmt(pseq.take(i as int)) {
                Some(v) => v,
                None => None::<OutputFormat>,
            },
            out@ == join_amp(kept_params(pseq.take(i as int))),
            kept_any == (kept_params(pseq.take(i as int)).len() > 0),
        decreases params@.len() - i,
    {
        let (ps, pe) = (params[i].0, params[i].1);
        let ghost p = pseq[i as int];
        proof {
            assert(params@.map_values(rview)[i as int] == rview(params@[i as int]));
            assert(p == chars@.subrange(ps as int, pe as int));
            assert(pseq.take(i as int + 1).drop_last() =~= pseq.take(i as int));
            assert(pseq.take(i as int + 1).last() == p);
        }
        let eq = find_in_range(&chars, ps, pe, '=');
        proof {
            assert(p.take(eq - ps) =~= chars@.subrange(ps as int, eq as int));
        }
        if eq < pe && range_eq_str(&chars, ps, eq, "format") {
            proof {
                assert(is_format_param(p));
            }
            let mapped = map_plus_space(&chars, eq + 1, pe);
            proof {
                assert(p.skip(first_sep(p, '=') as int + 1) =~= chars@.subrange(
                    eq + 1 as int,
                    pe as int,
                ));
                assert(mapped@.subrange(0, mapped@.len() as int) =~= mapped@);
            }
            let (ts, te) = trim_range(&mapped, 0, mapped.len());
            fv = if lower_range_eq_str(&mapped, ts, te, "avif") {
                Some(OutputFormat::Avif)
            } else if lower_range_eq_str(&mapped, ts, te, "webp") {
                Some(OutputFormat::WebP)
            } else {
                None
            };
            proof {
                assert(fv == format_param_value(p));
                assert(query_fmt(pseq.take(i as int + 1)) == Some(format_param_value(p)));
                assert(kept_params(pseq.take(i as int + 1)) == kept_params(pseq.take(i as int)));
            }
        } else {
            proof {
                if eq < pe {
                    assert(p.take(first_sep(p, '=') as int) != "format"@);
                }
                assert(!is_format_param(p));
                assert(query_fmt(pseq.take(i as int + 1)) == query_fmt(pseq.take(i as int)));
                assert(kept_params(pseq.take(i as int + 1)) == kept_params(
                    pseq.take(i as int),
                ).push(p));
            }
            let ghost kept_before = kept_params(pseq.take(i as int));
            if kept_any {
                out.append("&");
            }
            out.append(query.substring_char(ps, pe));
            kept_any = true;
            proof {
                reveal_strlit("&");
                assert("&"@ =~= seq!['&']);
                let kp = kept_params(pseq.take(i as int + 1));
                assert(kp.drop_last() =~= kept_before);
                assert(kp.last() == p);
                if kept_before.len() == 0 {
                    assert(out@ =~= join_amp(kp));
                } else {
                    assert(out@ =~= join_amp(kp));
                }
            }
        }
        i += 1;
    }
    proof {
        assert(pseq.take(pseq.len() as int) =~= pseq);
    }
    (fv, out)
}

/// Resolve the desired output format and the query string for the
/// upstream fetch.  With the CDN query override enabled and a non-empty
/// query, a valid `format` parameter decides the format and is stripped;
/// with no valid override the Accept header decides, and the stripping
/// still happened.  Otherwise the Accept header decides and the query is
/// forwarded untouched.
pub fn resolve(
    accept: &str,
    raw_query: &str,
    enable_avif: bool,
    enable_webp: bool,
    query_override_enabled: bool,
) -> (r: (OutputFormat, String))
    ensures
        query_override_enabled && raw_query@.len() > 0 ==> {
            &&& r.1@ == spec_stripped_query(raw_query@)
            &&& match spec_query_format(raw_query@) {
                Some(f) => r.0 == f,
                None => is_negotiated(accept@, enable_avif, enable_webp, r.0),
            }
        },
        !(query_override_enabled && raw_query@.len() > 0) ==> {
            &&& r.1@ == raw_query@
            &&& is_negotiated(accept@, enable_avif, enable_webp, r.0)
        },
{
    if query_override_enabled && !raw_query.is_empty() {
        let (f, upstream_query) = parse_query_for_format(raw_query);
        match f {
            Some(fmt) => (fmt, upstream_query),
            None => (parse_accept_header(accept, enable_avif, enable_webp), upstream_query),
        }
    } else {
        (parse_accept_header(accept, enable_avif, enable_webp), String::from_str(raw_query))
    }
}

/// The resource identity a cache key carries: the path plus the raw,
/// unmodified query string.
pub open spec fn spec_resource_identity(path: Seq<char>, query: Seq<char>) -> Seq<char> {
    if query.len() == 0 {
        path
    } else {
        path + "?"@ + query
    }
}

/// Build the cache key for a request: the original path and raw query,
/// and the tag of the resolved format.
pub fn cache_key_for(path: &str, query: &str, format: OutputFormat) -> (r: CacheKey)
    ensures
        r@ == (spec_resource_identity(path@, query@), spec_format_tag(format)),
{
    let mut identity = String::from_str(path);
    if !query.is_empty() {
        identity.append("?");
        identity.append(query);
        proof {
            assert(identity@ =~= path@ + "?"@ + query@);
        }
    }
    CacheKey::new(identity, String::from_str(format.tag()))
}

/// Whether a success response's body should be converted: it must be an
/// image, the client must want a specific format, the body must be
/// within the size cap, and the upstream's own format must not already
/// satisfy the desired one.
pub open spec fn spec_should_convert(
    ct: Seq<char>,
    upstream: Option<OutputFormat>,
    desired: OutputFormat,
    size: int,
    max: int,
) -> bool {
    &&& spec_is_image_content_type(ct)
    &&& desired != OutputFormat::Original
    &&& size <= max
    &&& !(match upstream {
        Some(f) => f == desired || desired == OutputFormat::Original,
        None => false,
    })
}

/// Determine if image conversion is needed.
pub fn should_convert_image(
    content_type: &str,
    upstream_format: Option<OutputFormat>,
    desired_format: OutputFormat,
    content_size: usize,
    max_size: usize,
) -> (r: bool)
    ensures
        r == spec_should_convert(
            content_type@,
            upstream_format,
            desired_format,
            content_size as int,
            max_size as int,
        ),
{
    if !is_image_content_type(content_type) {
        return false;
    }
    if desired_format == OutputFormat::Original {
        return false;
    }
    if content_size > max_size {
        return false;
    }
    match upstream_format {
        Some(fmt) => !format_satisfies(fmt, desired_format),
        None => true,
    }
}

/// A status code in the 2xx success range.
pub fn is_success_status(status: u16) -> (r: bool)
    ensures
        r == (200 <= status < 300),
{
    200 <= status && status < 300
}

/// Applies a conversion outcome to the upstream payload: a successful
/// conversion replaces the body and content type; a failure is swallowed
/// and the original bytes and content type are served.  Either way, the
/// flag says whether the final payload fits the cacheable size cap.
pub fn apply_conversion_outcome(
    outcome: Result<(Vec<u8>, String), ConversionError>,
    body: Vec<u8>,
    content_type: &str,
    max_item_size: usize,
) -> (r: (Vec<u8>, String, bool))
    ensures
        match outcome {
            Ok(p) => r.0@ == p.0@ && r.1@ == p.1@,
            Err(_) => r.0@ == body@ && r.1@ == content_type@,
        },
        r.2 == (r.0@.len() <= max_item_size),
{
    match outcome {
        Ok((converted, mime)) => {
            let cacheable = converted.len() <= max_item_size;
            (converted, mime, cacheable)
        },
        Err(_) => {
            let cacheable = body.len() <= max_item_size;
            (body, String::from_str(content_type), cacheable)
        },
    }
}

/// Process a successful upstream response: convert the body when the
/// conversion rule asks for it, swallow a conversion failure by serving
/// the original bytes, and decide whether the final payload may be
/// cached.  Bytes that decode as no image always come back unchanged;
/// only a codec failure leaves the outcome open, and then the original
/// pair is served.
pub fn handle_success(
    converter: &ImageConverter,
    body: Vec<u8>,
    content_type: &str,
    desired_format: OutputFormat,
    max_item_size: usize,
) -> (r: (Vec<u8>, String, bool))
    requires
        1 <= converter.quality <= 100,
    ensures
        ({
            let needs = spec_should_convert(
                content_type@,
                spec_format_from_content_type(content_type@),
                desired_format,
                body@.len() as int,
                max_item_size as int,
            );
            &&& !needs ==> r.0@ == body@ && r.1@ == content_type@
            &&& needs && !decode_ok(body@) ==> r.0@ == body@ && r.1@ == content_type@
            &&& needs ==> (r.0@ == body@ && r.1@ == content_type@) || convert_ok(
                *converter,
                desired_format,
                body@,
                r.0@,
                r.1@,
            )
            &&& r.2 == (r.0@.len() <= max_item_size)
        }),
{
    let upstream_format = format_from_content_type(content_type);
    let needs = should_convert_image(
        content_type,
        upstream_format,
        desired_format,
        body.len(),
        max_item_size,
    );
    if needs {
        let outcome = converter.convert(&body, desired_format);
        apply_conversion_outcome(outcome, body, content_type, max_item_size)
    } else {
        let cacheable = body.len() <= max_item_size;
        (body, String::from_str(content_type), cacheable)
    }
}

} // verus!
