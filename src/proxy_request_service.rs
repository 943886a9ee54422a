use vstd::prelude::*;

use crate::config::{headers_view, Header, HeaderView, OverrideView, Url, UrlOverride, UrlView};
use crate::node_service::{route_of, RouteView, RoutingTable};
use crate::numbers::chars_of;
use crate::search::{first_index, lemma_first_index, lemma_first_index_prefix, lemma_first_index_step};

verus! {

/// The endpoint that currently receives a domain's traffic.
pub struct NodeDomain {
    pub url: Url,
}

impl View for NodeDomain {
    type V = UrlView;

    open spec fn view(&self) -> UrlView {
        self.url@
    }
}

impl Clone for NodeDomain {
    fn clone(&self) -> (r: Self)
        ensures
            r@ == self@,
    {
        NodeDomain { url: self.url.clone() }
    }
}

/// Two characters are equal once ASCII letters are folded to lower case.
pub open spec fn same_char_ignoring_case(a: char, b: char) -> bool {
    ||| a == b
    ||| 'A' <= a && a <= 'Z' && b as u32 == a as u32 + 32
    ||| 'A' <= b && b <= 'Z' && a as u32 == b as u32 + 32
}

/// Two header names are equal; HTTP header names ignore ASCII case.
pub open spec fn same_name(a: Seq<char>, b: Seq<char>) -> bool {
    &&& a.len() == b.len()
    &&& forall|i: int| 0 <= i < a.len() ==> #[trigger] same_char_ignoring_case(a[i], b[i])
}

/// Compares two header names, ignoring ASCII case.
pub fn names_match(a: &str, b: &str) -> (r: bool)
    ensures
        r == same_name(a@, b@),
{
    let x = chars_of(a);
    let y = chars_of(b);
    if x.len() != y.len() {
        return false;
    }
    let mut i: usize = 0;
    while i < x.len()
        invariant
            i <= x.len(),
            x.len() == y.len(),
            x@ == a@,
            y@ == b@,
            forall|j: int| 0 <= j < i ==> #[trigger] same_char_ignoring_case(x@[j], y@[j]),
        decreases x.len() - i,
    {
        let c = x[i];
        let d = y[i];
        let cu = c as u32;
        let du = d as u32;
        let same = c == d || ('A' <= c && c <= 'Z' && du == cu + 32) || ('A' <= d && d <= 'Z' && cu
            == du + 32);
        if !same {
            assert(!same_char_ignoring_case(a@[i as int], b@[i as int]));
            return false;
        }
        i = i + 1;
    }
    true
}

/// The headers carried over from one leg of a proxied exchange to the next.
pub open spec fn kept_header_names() -> Seq<Seq<char>> {
    seq!["content-type"@, "content-encoding"@]
}

/// The names that the proxy carries over: `Content-Type` and `Content-Encoding`.
pub fn keep_headers() -> (r: Vec<String>)
    ensures
        r@.map_values(|s: String| s@) == kept_header_names(),
{
    let r = vec![String::from_str("content-type"), String::from_str("content-encoding")];
    assert(r@.map_values(|s: String| s@) =~= kept_header_names());
    r
}

/// The header's name is on the list.
pub open spec fn listed(list: Seq<Seq<char>>) -> spec_fn(HeaderView) -> bool {
    |h: HeaderView| exists|i: int| 0 <= i < list.len() && same_name(h.0, #[trigger] list[i])
}

fn is_listed(name: &String, list: &Vec<String>) -> (r: bool)
    ensures
        r == listed(list@.map_values(|s: String| s@))((name@, Seq::<char>::empty())),
{
    let ghost names = list@.map_values(|s: String| s@);
    let mut i: usize = 0;
    while i < list.len()
        invariant
            i <= list.len(),
            names == list@.map_values(|s: String| s@),
            forall|j: int| 0 <= j < i ==> !same_name(name@, #[trigger] names[j]),
        decreases list.len() - i,
    {
        if names_match(name.as_str(), list[i].as_str()) {
            assert(same_name(name@, names[i as int]));
            return true;
        }
        i = i + 1;
    }
    false
}

/// Keeps, in order, the headers whose names are on `list` (ignoring case).
pub fn persist_headers(headers: &Vec<Header>, list: &Vec<String>) -> (r: Vec<Header>)
    ensures
        headers_view(r@) == headers_view(headers@).filter(
            listed(list@.map_values(|s: String| s@)),
        ),
{
    let ghost keep = listed(list@.map_values(|s: String| s@));
    let ghost hv = headers_view(headers@);
    let mut r: Vec<Header> = Vec::new();
    let mut i: usize = 0;
    while i < headers.len()
        invariant
            i <= headers.len(),
            hv == headers_view(headers@),
            keep == listed(list@.map_values(|s: String| s@)),
            headers_view(r@) == hv.subrange(0, i as int).filter(keep),
        decreases headers.len() - i,
    {
        let ghost before = headers_view(r@);
        assert(hv.subrange(0, i + 1) =~= hv.subrange(0, i as int).push(hv[i as int]));
        proof {
            hv.subrange(0, i as int).lemma_filter_push(hv[i as int], keep);
        }
        let keep_it = is_listed(&headers[i].name, list);
        assert(keep_it == keep(hv[i as int]));
        if keep_it {
            r.push(headers[i].clone());
            assert(headers_view(r@) =~= before.push(hv[i as int]));
        }
        i = i + 1;
    }
    assert(hv.subrange(0, i as int) =~= hv);
    r
}

/// The override is registered for exactly this path.
pub open spec fn has_path(path: Seq<char>) -> spec_fn(OverrideView) -> bool {
    |o: OverrideView| o.path == path
}

/// Where a request goes and which configured headers go with it.
pub struct RequestUrl {
    pub uri: String,
    pub params: Vec<Header>,
}

/// The target of a request on endpoint `url`: the endpoint's base URL followed
/// by the path and query, with the endpoint's headers; or, when an override is
/// registered for exactly `path`, the override's URL as it stands, with the
/// override's headers.
pub open spec fn target_of(url: UrlView, path: Seq<char>, path_and_query: Seq<char>) -> (
    Seq<char>,
    Seq<HeaderView>,
) {
    match first_index(url.urls_override, has_path(path)) {
        Some(i) => (url.urls_override[i].url, url.urls_override[i].headers),
        None => (url.url + path_and_query, url.headers),
    }
}

fn position_of_path(overrides: &Vec<UrlOverride>, path: &str) -> (r: Option<usize>)
    ensures
        r matches Some(i) ==> i < overrides.len() && first_index(
            overrides@.map_values(|o: UrlOverride| o@),
            has_path(path@),
        ) == Some(i as int),
        r is None ==> first_index(overrides@.map_values(|o: UrlOverride| o@), has_path(path@)) is None,
{
    let ghost ov = overrides@.map_values(|o: UrlOverride| o@);
    let p = String::from_str(path);
    let mut i: usize = 0;
    while i < overrides.len()
        invariant
            i <= overrides.len(),
            ov == overrides@.map_values(|o: UrlOverride| o@),
            p@ == path@,
            first_index(ov.subrange(0, i as int), has_path(path@)) is None,
        decreases overrides.len() - i,
    {
        proof {
            lemma_first_index_step(ov, has_path(path@), i as int);
        }
        if overrides[i].path == p {
            proof {
                lemma_first_index_prefix(ov, has_path(path@), i + 1);
            }
            return Some(i);
        }
        i = i + 1;
    }
    assert(ov.subrange(0, i as int) =~= ov);
    None
}

impl RequestUrl {
    /// Resolves a request for `path_and_query`, whose path is `path`, on
    /// endpoint `url`; overrides match the path exactly.
    pub fn from_uri(url: &Url, path: &str, path_and_query: &str) -> (r: RequestUrl)
        ensures
            (r.uri@, headers_view(r.params@)) == target_of(url@, path@, path_and_query@),
    {
        match position_of_path(&url.urls_override, path) {
            Some(i) => {
                let o = &url.urls_override[i];
                RequestUrl { uri: o.url.clone(), params: crate::config::clone_headers(&o.headers) }
            },
            None => {
                let mut uri = url.url.clone();
                uri.append(path_and_query);
                RequestUrl { uri, params: crate::config::clone_headers(&url.headers) }
            },
        }
    }
}


/// What the dispatcher decided for one inbound request.
pub enum Dispatch {
    /// Send the request on to `target`, with `headers` in place of the inbound ones.
    Forward(ForwardRequest),
    /// Answer at once, without contacting any upstream.
    Reply { status: u16, body: String },
}

/// A request on its way to an upstream endpoint.
pub struct ForwardRequest {
    pub domain: String,
    pub target: RequestUrl,
    pub headers: Vec<Header>,
}

/// Why a request could not be served.
#[derive(Debug, PartialEq, Eq)]
pub enum DispatchError {
    /// The request names no host.
    MissingHost,
    /// The upstream could not be reached or did not answer.
    UpstreamUnavailable(String),
}

/// The dispatcher's decision, in terms of views.
pub enum DispatchView {
    Forward { domain: Seq<char>, uri: Seq<char>, headers: Seq<HeaderView> },
    Reply { status: u16, body: Seq<char> },
    MissingHost,
    Failed,
}

pub open spec fn dispatch_view(r: Result<Dispatch, DispatchError>) -> DispatchView {
    match r {
        Ok(Dispatch::Forward(f)) => DispatchView::Forward {
            domain: f.domain@,
            uri: f.target.uri@,
            headers: headers_view(f.headers@),
        },
        Ok(Dispatch::Reply { status, body }) => DispatchView::Reply { status, body: body@ },
        Err(DispatchError::MissingHost) => DispatchView::MissingHost,
        Err(DispatchError::UpstreamUnavailable(_)) => DispatchView::Failed,
    }
}

/// The header has the name `n`, ignoring case.
pub open spec fn is_named(n: Seq<char>) -> spec_fn(HeaderView) -> bool {
    |h: HeaderView| same_name(h.0, n)
}

/// The value of the first `Host` header.
pub open spec fn host_of(headers: Seq<HeaderView>) -> Option<Seq<char>> {
    match first_index(headers, is_named("host"@)) {
        Some(i) => Some(headers[i].1),
        None => None,
    }
}

/// How a request is dispatched: without a host it is refused; for an unknown
/// host it is answered with status 200 and `unsupported domain`; otherwise it
/// goes to the target that the domain's active endpoint gives for its path,
/// with the inbound `Content-Type` and `Content-Encoding` headers followed by
/// the target's configured headers.
pub open spec fn dispatch_of(
    routes: Seq<RouteView>,
    headers: Seq<HeaderView>,
    path: Seq<char>,
    path_and_query: Seq<char>,
) -> DispatchView {
    match host_of(headers) {
        None => DispatchView::MissingHost,
        Some(host) => match route_of(routes, host) {
            None => DispatchView::Reply { status: 200, body: "unsupported domain"@ },
            Some(u) => {
                let (uri, configured) = target_of(u, path, path_and_query);
                DispatchView::Forward {
                    domain: host,
                    uri,
                    headers: headers.filter(listed(kept_header_names())) + configured,
                }
            },
        },
    }
}

fn host_header(headers: &Vec<Header>) -> (r: Option<String>)
    ensures
        r is None ==> host_of(headers_view(headers@)) is None,
        r matches Some(h) ==> host_of(headers_view(headers@)) == Some(h@),
{
    let ghost hv = headers_view(headers@);
    let mut i: usize = 0;
    while i < headers.len()
        invariant
            i <= headers.len(),
            hv == headers_view(headers@),
            first_index(hv.subrange(0, i as int), is_named("host"@)) is None,
        decreases headers.len() - i,
    {
        proof {
            lemma_first_index_step(hv, is_named("host"@), i as int);
        }
        if names_match(headers[i].name.as_str(), "host") {
            proof {
                lemma_first_index_prefix(hv, is_named("host"@), i + 1);
            }
            return Some(headers[i].value.clone());
        }
        i = i + 1;
    }
    assert(hv.subrange(0, i as int) =~= hv);
    None
}

/// Dispatches requests on a snapshot of the routing table.
pub struct ProxyRequestService {
    pub domains: RoutingTable,
}

impl ProxyRequestService {
    /// Decides what to do with an inbound request, given its headers, its path
    /// and its path with the query.
    pub fn call(&self, headers: &Vec<Header>, path: &str, path_and_query: &str) -> (r: Result<
        Dispatch,
        DispatchError,
    >)
        ensures
            dispatch_view(r) == dispatch_of(
                self.domains@,
                headers_view(headers@),
                path@,
                path_and_query@,
            ),
    {
        let host = match host_header(headers) {
            Some(h) => h,
            None => return Err(DispatchError::MissingHost),
        };
        match self.domains.get_node_domain(&host) {
            None => Ok(Dispatch::Reply { status: 200, body: String::from_str("unsupported domain") }),
            Some(node) => {
                let target = RequestUrl::from_uri(&node.url, path, path_and_query);
                let keep = keep_headers();
                let mut out = persist_headers(headers, &keep);
                let mut extra = crate::config::clone_headers(&target.params);
                let ghost kept = headers_view(out@);
                let ghost added = headers_view(extra@);
                out.append(&mut extra);
                assert(headers_view(out@) =~= kept + added);
                Ok(Dispatch::Forward(ForwardRequest { domain: host, target, headers: out }))
            },
        }
    }
}

/// A request for a path that the active endpoint overrides is forwarded to the
/// URL of an override registered for that path, as it stands (nothing of the
/// request is appended to it).
pub proof fn lemma_override_wins(
    routes: Seq<RouteView>,
    headers: Seq<HeaderView>,
    path: Seq<char>,
    path_and_query: Seq<char>,
    host: Seq<char>,
    u: UrlView,
    k: int,
)
    requires
        host_of(headers) == Some(host),
        route_of(routes, host) == Some(u),
        0 <= k < u.urls_override.len(),
        u.urls_override[k].path == path,
    ensures
        dispatch_of(routes, headers, path, path_and_query) matches DispatchView::Forward {
            uri,
            ..
        } && exists|i: int|
            0 <= i < u.urls_override.len() && (#[trigger] u.urls_override[i]).path == path && uri
                == u.urls_override[i].url,
{
    lemma_first_index(u.urls_override, has_path(path));
    let i = first_index(u.urls_override, has_path(path))->0;
    assert(u.urls_override[i].path == path);
}

/// A forwarded request carries no inbound header but `Content-Type` and
/// `Content-Encoding`; every other header it has is one configured for its target.
pub proof fn lemma_forwarded_headers(
    routes: Seq<RouteView>,
    headers: Seq<HeaderView>,
    path: Seq<char>,
    path_and_query: Seq<char>,
)
    ensures
        dispatch_of(routes, headers, path, path_and_query) matches DispatchView::Forward {
            domain,
            headers: out,
            ..
        } ==> forall|j: int|
            0 <= j < out.len() ==> {
                ||| headers.contains(#[trigger] out[j]) && listed(kept_header_names())(out[j])
                ||| target_of(route_of(routes, domain)->0, path, path_and_query).1.contains(out[j])
            },
{
    if let DispatchView::Forward { domain, headers: out, .. } = dispatch_of(
        routes,
        headers,
        path,
        path_and_query,
    ) {
        let keep = listed(kept_header_names());
        let kept = headers.filter(keep);
        let configured = target_of(route_of(routes, domain)->0, path, path_and_query).1;
        assert(out == kept + configured);
        assert forall|j: int| 0 <= j < out.len() implies {
            ||| headers.contains(#[trigger] out[j]) && keep(out[j])
            ||| configured.contains(out[j])
        } by {
            if j < kept.len() {
                assert(out[j] == kept[j]);
                headers.lemma_filter_pred(keep, j);
                assert(kept.contains(kept[j]));
                headers.lemma_filter_contains_rev(keep, kept[j]);
            } else {
                assert(out[j] == configured[j - kept.len()]);
            }
        }
    }
}

} // verus!
