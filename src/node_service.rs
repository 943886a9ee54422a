use vstd::prelude::*;

use crate::chain_service::ProbeError;
use crate::config::{Domain, Url, UrlView};
use crate::proxy_request_service::NodeDomain;
use crate::search::{
    first_index, highest_index, lemma_first_index, lemma_first_index_prefix, lemma_first_index_same,
    lemma_first_index_step, lemma_highest_index,
};

verus! {

/// What one probe of one candidate gave, before failures are set aside.
pub struct NodeRawResult {
    pub url: Url,
    pub result: Result<u64, ProbeError>,
    pub latency: u64,
}

/// A successful probe: the candidate, the height it reported, and how long
/// the probe took in milliseconds.
pub struct NodeResult {
    pub url: Url,
    pub block_number: u64,
    pub latency: u64,
}

impl Clone for NodeResult {
    fn clone(&self) -> (r: Self)
        ensures
            r.url@ == self.url@,
            r.block_number == self.block_number,
            r.latency == self.latency,
    {
        NodeResult { url: self.url.clone(), block_number: self.block_number, latency: self.latency }
    }
}

/// The probe result belongs to endpoint `u`.
pub open spec fn has_url(u: UrlView) -> spec_fn(NodeResult) -> bool {
    |r: NodeResult| r.url@ == u
}

/// The reported heights, in the order of the results.
pub open spec fn heights(results: Seq<NodeResult>) -> Seq<u64> {
    results.map_values(|r: NodeResult| r.block_number)
}

/// The endpoint `url` is behind in this cycle: it has no result, or its first
/// result plus the tolerated delay stays below the highest reported height.
pub open spec fn url_behind(url: UrlView, results: Seq<NodeResult>, delay: u64) -> bool {
    match first_index(results, has_url(url)) {
        Some(i) => match highest_index(heights(results)) {
            Some(m) => results[i].block_number + delay < results[m].block_number,
            None => true,
        },
        None => true,
    }
}

/// The endpoint that replaces `current` after a cycle with these results, if any:
/// the first endpoint at the highest height, when `current` is behind.
pub open spec fn replacement(current: UrlView, results: Seq<NodeResult>, delay: u64) -> Option<
    UrlView,
> {
    if url_behind(current, results, delay) {
        match highest_index(heights(results)) {
            Some(m) => Some(results[m].url@),
            None => None,
        }
    } else {
        None
    }
}

/// The results of the probes that succeeded, in probe order.
pub open spec fn successes(raw: Seq<NodeRawResult>) -> Seq<(UrlView, u64, u64)> {
    raw.filter_map(
        |r: NodeRawResult|
            match r.result {
                Ok(h) => Some((r.url@, h, r.latency)),
                Err(_) => None,
            },
    )
}

pub open spec fn result_view(r: NodeResult) -> (UrlView, u64, u64) {
    (r.url@, r.block_number, r.latency)
}

/// Keeps the probes that succeeded, in order; failed ones are dropped.
pub fn successful_results(raw: Vec<NodeRawResult>) -> (r: Vec<NodeResult>)
    ensures
        r@.map_values(|x: NodeResult| result_view(x)) == successes(raw@),
{
    let ghost f = |r: NodeRawResult|
        match r.result {
            Ok(h) => Some((r.url@, h, r.latency)),
            Err(_) => None,
        };
    let mut out: Vec<NodeResult> = Vec::new();
    let mut i: usize = 0;
    while i < raw.len()
        invariant
            i <= raw.len(),
            out@.map_values(|x: NodeResult| result_view(x)) == raw@.subrange(0, i as int).filter_map(f),
            f == (|r: NodeRawResult|
                match r.result {
                    Ok(h) => Some((r.url@, h, r.latency)),
                    Err(_) => None,
                }),
        decreases raw.len() - i,
    {
        let ghost before = out@;
        assert(raw@.subrange(0, i + 1).drop_last() =~= raw@.subrange(0, i as int));
        match &raw[i].result {
            Ok(h) => {
                out.push(NodeResult { url: raw[i].url.clone(), block_number: *h, latency: raw[i].latency });
                assert(out@.map_values(|x: NodeResult| result_view(x)) =~= before.map_values(
                    |x: NodeResult| result_view(x),
                ).push(result_view(out@.last())));
            },
            Err(_) => {},
        }
        i = i + 1;
    }
    assert(raw@.subrange(0, i as int) =~= raw@);
    out
}


/// A domain name and the endpoint its traffic goes to.
pub type RouteView = (Seq<char>, UrlView);

/// The route belongs to the domain `name`.
pub open spec fn has_name(name: Seq<char>) -> spec_fn(RouteView) -> bool {
    |e: RouteView| e.0 == name
}

/// The active endpoint of domain `name`.
pub open spec fn route_of(routes: Seq<RouteView>, name: Seq<char>) -> Option<UrlView> {
    match first_index(routes, has_name(name)) {
        Some(i) => Some(routes[i].1),
        None => None,
    }
}

/// The routes after domain `name` is sent to `url`: its entry is replaced in
/// place, or a new entry is added at the end.
pub open spec fn with_route(routes: Seq<RouteView>, name: Seq<char>, url: UrlView) -> Seq<
    RouteView,
> {
    match first_index(routes, has_name(name)) {
        Some(i) => routes.update(i, (name, url)),
        None => routes.push((name, url)),
    }
}

/// The routes after one monitoring cycle of a domain: its active endpoint is
/// replaced when the results show it behind.
pub open spec fn after_cycle(
    routes: Seq<RouteView>,
    name: Seq<char>,
    delay: u64,
    results: Seq<NodeResult>,
) -> Seq<RouteView> {
    match route_of(routes, name) {
        Some(current) => match replacement(current, results, delay) {
            Some(u) => with_route(routes, name, u),
            None => routes,
        },
        None => routes,
    }
}

/// The routes that a configuration starts with: each domain on its first
/// candidate; a later domain of the same name takes the place of an earlier one.
pub open spec fn initial_routes(domains: Seq<Domain>) -> Seq<RouteView>
    decreases domains.len(),
{
    if domains.len() == 0 {
        Seq::empty()
    } else {
        let d = domains.last();
        with_route(initial_routes(domains.drop_last()), d.domain@, d.urls@[0]@)
    }
}

/// No domain name appears twice.
pub open spec fn distinct_names(routes: Seq<RouteView>) -> bool {
    forall|i: int, j: int| 0 <= i < j < routes.len() ==> routes[i].0 != routes[j].0
}

/// Sending a domain somewhere keeps the names distinct.
pub proof fn lemma_with_route_distinct(routes: Seq<RouteView>, name: Seq<char>, url: UrlView)
    requires
        distinct_names(routes),
    ensures
        distinct_names(with_route(routes, name, url)),
{
    lemma_first_index(routes, has_name(name));
    match first_index(routes, has_name(name)) {
        Some(i) => {
            assert(routes[i].0 == name);
        },
        None => {
            let next = routes.push((name, url));
            assert forall|i: int, j: int| 0 <= i < j < next.len() implies next[i].0 != next[j].0 by {
                if j == routes.len() {
                    assert(!has_name(name)(routes[i]));
                }
            }
        },
    }
}

/// One domain's entry in the routing table.
pub struct RouteEntry {
    pub domain: String,
    pub node: NodeDomain,
}

/// The active endpoint of every domain, one entry per domain name.
pub struct RoutingTable {
    entries: Vec<RouteEntry>,
}

impl View for RoutingTable {
    type V = Seq<RouteView>;

    closed spec fn view(&self) -> Seq<RouteView> {
        self.entries@.map_values(|e: RouteEntry| (e.domain@, e.node@))
    }
}

impl RoutingTable {
    /// Well-formed: every domain is named once.
    pub open spec fn wf(&self) -> bool {
        distinct_names(self@)
    }

    /// A table with no domains.
    pub fn new() -> (r: RoutingTable)
        ensures
            r@ == Seq::<RouteView>::empty(),
            r.wf(),
    {
        let r = RoutingTable { entries: Vec::new() };
        assert(r@ =~= Seq::<RouteView>::empty());
        r
    }

    /// The table a configuration starts with; `None` when a domain has no
    /// candidate endpoint.
    pub fn from_domains(domains: &Vec<Domain>) -> (r: Option<RoutingTable>)
        ensures
            r is None <==> exists|i: int| 0 <= i < domains.len() && (#[trigger] domains@[i]).urls.len() == 0,
            r matches Some(t) ==> t@ == initial_routes(domains@) && t.wf(),
    {
        let mut t = RoutingTable::new();
        let mut i: usize = 0;
        while i < domains.len()
            invariant
                i <= domains.len(),
                forall|j: int| 0 <= j < i ==> (#[trigger] domains@[j]).urls.len() > 0,
                t@ == initial_routes(domains@.subrange(0, i as int)),
                t.wf(),
            decreases domains.len() - i,
        {
            let d = &domains[i];
            if d.urls.len() == 0 {
                return None;
            }
            assert(domains@.subrange(0, i + 1).drop_last() =~= domains@.subrange(0, i as int));
            t.update_node_domain(d.domain.clone(), NodeDomain { url: d.urls[0].clone() });
            i = i + 1;
        }
        assert(domains@.subrange(0, i as int) =~= domains@);
        Some(t)
    }

    fn position_of(&self, name: &String) -> (r: Option<usize>)
        ensures
            r matches Some(i) ==> i < self.entries.len() && first_index(self@, has_name(name@))
                == Some(i as int),
            r is None ==> first_index(self@, has_name(name@)) is None,
    {
        let mut i: usize = 0;
        while i < self.entries.len()
            invariant
                i <= self.entries.len(),
                first_index(self@.subrange(0, i as int), has_name(name@)) is None,
            decreases self.entries.len() - i,
        {
            proof {
                lemma_first_index_step(self@, has_name(name@), i as int);
            }
            if self.entries[i].domain == *name {
                proof {
                    lemma_first_index_prefix(self@, has_name(name@), i + 1);
                }
                return Some(i);
            }
            i = i + 1;
        }
        assert(self@.subrange(0, i as int) =~= self@);
        None
    }

    /// A copy of the active route of `domain`, if the domain is known.
    pub fn get_node_domain(&self, domain: &String) -> (r: Option<NodeDomain>)
        ensures
            r is None ==> route_of(self@, domain@) is None,
            r matches Some(n) ==> route_of(self@, domain@) == Some(n@),
    {
        match self.position_of(domain) {
            Some(i) => Some(self.entries[i].node.clone()),
            None => None,
        }
    }

    /// Sends the traffic of `domain` to `node`.
    pub fn update_node_domain(&mut self, domain: String, node: NodeDomain)
        requires
            old(self).wf(),
        ensures
            final(self)@ == with_route(old(self)@, domain@, node@),
            final(self).wf(),
    {
        proof {
            lemma_with_route_distinct(self@, domain@, node@);
        }
        match self.position_of(&domain) {
            Some(i) => {
                let ghost v = (domain@, node@);
                self.entries.set(i, RouteEntry { domain, node });
                assert(self@ =~= old(self)@.update(i as int, v));
            },
            None => {
                let ghost v = (domain@, node@);
                self.entries.push(RouteEntry { domain, node });
                assert(self@ =~= old(self)@.push(v));
            },
        }
    }

    /// A snapshot of every domain's active route.
    pub fn get_node_domains(&self) -> (r: RoutingTable)
        requires
            self.wf(),
        ensures
            r@ == self@,
            r.wf(),
    {
        let mut entries: Vec<RouteEntry> = Vec::new();
        let mut i: usize = 0;
        while i < self.entries.len()
            invariant
                i <= self.entries.len(),
                entries.len() == i,
                forall|j: int|
                    0 <= j < i ==> (#[trigger] entries@[j]).domain@ == self.entries@[j].domain@
                        && entries@[j].node@ == self.entries@[j].node@,
            decreases self.entries.len() - i,
        {
            entries.push(
                RouteEntry {
                    domain: self.entries[i].domain.clone(),
                    node: self.entries[i].node.clone(),
                },
            );
            i = i + 1;
        }
        let r = RoutingTable { entries };
        assert(r@ =~= self@);
        r
    }

    /// Applies one monitoring cycle of `domain`: when the results show its
    /// active endpoint behind, the first endpoint at the highest height takes
    /// its place. Returns whether the route changed hands.
    pub fn apply_cycle(&mut self, domain: &Domain, results: &Vec<NodeResult>) -> (changed: bool)
        requires
            old(self).wf(),
        ensures
            final(self)@ == after_cycle(
                old(self)@,
                domain.domain@,
                domain.spec_block_delay(),
                results@,
            ),
            final(self).wf(),
            changed == (route_of(old(self)@, domain.domain@) matches Some(c) && replacement(
                c,
                results@,
                domain.spec_block_delay(),
            ) is Some),
    {
        match self.get_node_domain(&domain.domain) {
            None => false,
            Some(current) => match domain.next_url(&current.url, results) {
                Some(u) => {
                    self.update_node_domain(domain.domain.clone(), NodeDomain { url: u });
                    true
                },
                None => false,
            },
        }
    }
}


/// After domain `name` is sent to `url`, its route is `url`.
pub proof fn lemma_with_route_found(routes: Seq<RouteView>, name: Seq<char>, url: UrlView)
    ensures
        route_of(with_route(routes, name, url), name) == Some(url),
{
    let p = has_name(name);
    lemma_first_index(routes, p);
    match first_index(routes, p) {
        Some(i) => {
            let next = routes.update(i, (name, url));
            lemma_first_index_same(routes, next, p);
        },
        None => {
            let next = routes.push((name, url));
            assert(next.drop_last() =~= routes);
        },
    }
}

/// Sending a domain to the endpoint it already has changes nothing.
pub proof fn lemma_with_route_same(routes: Seq<RouteView>, name: Seq<char>, url: UrlView)
    requires
        route_of(routes, name) == Some(url),
    ensures
        with_route(routes, name, url) == routes,
{
    let p = has_name(name);
    lemma_first_index(routes, p);
    let i = first_index(routes, p)->0;
    assert(routes.update(i, (name, url)) =~= routes);
}

proof fn lemma_no_successes(raw: Seq<NodeRawResult>)
    requires
        forall|i: int| 0 <= i < raw.len() ==> (#[trigger] raw[i]).result is Err,
    ensures
        successes(raw).len() == 0,
    decreases raw.len(),
{
    if raw.len() > 0 {
        lemma_no_successes(raw.drop_last());
    }
}

/// A cycle in which every probe failed leaves every route as it was.
pub proof fn lemma_failed_cycle_keeps_routes(
    routes: Seq<RouteView>,
    domain: Domain,
    raw: Seq<NodeRawResult>,
    results: Seq<NodeResult>,
)
    requires
        forall|i: int| 0 <= i < raw.len() ==> (#[trigger] raw[i]).result is Err,
        results.map_values(|x: NodeResult| result_view(x)) == successes(raw),
    ensures
        after_cycle(routes, domain.domain@, domain.spec_block_delay(), results) == routes,
{
    lemma_no_successes(raw);
    assert(results.map_values(|x: NodeResult| result_view(x)).len() == results.len());
    lemma_highest_index(heights(results));
}

/// When the active endpoint's height plus the block delay is below the height
/// of some result, the cycle moves the domain to the first endpoint at the
/// highest height.
pub proof fn lemma_behind_moves_to_highest(
    routes: Seq<RouteView>,
    name: Seq<char>,
    delay: u64,
    results: Seq<NodeResult>,
    current: UrlView,
    i: int,
    k: int,
)
    requires
        route_of(routes, name) == Some(current),
        first_index(results, has_url(current)) == Some(i),
        0 <= k < results.len(),
        results[i].block_number + delay < results[k].block_number,
    ensures
        highest_index(heights(results)) matches Some(m) && {
            &&& route_of(after_cycle(routes, name, delay, results), name) == Some(results[m].url@)
            &&& forall|j: int| 0 <= j < results.len() ==> #[trigger] results[j].block_number <= results[m].block_number
            &&& forall|j: int| 0 <= j < m ==> #[trigger] results[j].block_number < results[m].block_number
        },
{
    let hs = heights(results);
    lemma_highest_index(hs);
    let m = highest_index(hs)->0;
    assert(hs[k] <= hs[m]);
    assert forall|j: int| 0 <= j < results.len() implies #[trigger] results[j].block_number
        <= results[m].block_number by {
        assert(hs[j] <= hs[m]);
    }
    assert forall|j: int| 0 <= j < m implies #[trigger] results[j].block_number
        < results[m].block_number by {
        assert(hs[j] < hs[m]);
    }
    lemma_with_route_found(routes, name, results[m].url@);
}

/// When the active endpoint has one result in the cycle (each candidate is
/// probed once) and its height plus the block delay is below the highest
/// height, the cycle moves the domain to the first endpoint at the highest
/// height.
pub proof fn lemma_behind_endpoint_moves_to_highest(
    routes: Seq<RouteView>,
    name: Seq<char>,
    delay: u64,
    results: Seq<NodeResult>,
    current: UrlView,
    j: int,
    k: int,
)
    requires
        route_of(routes, name) == Some(current),
        0 <= j < results.len(),
        results[j].url@ == current,
        forall|a: int| 0 <= a < results.len() && (#[trigger] results[a]).url@ == current ==> a == j,
        0 <= k < results.len(),
        results[j].block_number + delay < results[k].block_number,
    ensures
        highest_index(heights(results)) matches Some(m) && {
            &&& route_of(after_cycle(routes, name, delay, results), name) == Some(results[m].url@)
            &&& forall|a: int| 0 <= a < results.len() ==> #[trigger] results[a].block_number <= results[m].block_number
            &&& forall|a: int| 0 <= a < m ==> #[trigger] results[a].block_number < results[m].block_number
        },
{
    lemma_first_index(results, has_url(current));
    match first_index(results, has_url(current)) {
        Some(i) => {
            assert(results[i].url@ == current);
        },
        None => {
            assert(!has_url(current)(results[j]));
        },
    }
    lemma_behind_moves_to_highest(routes, name, delay, results, current, j, k);
}

/// Running a second cycle with the same results changes nothing more.
pub proof fn lemma_cycle_idempotent(
    routes: Seq<RouteView>,
    name: Seq<char>,
    delay: u64,
    results: Seq<NodeResult>,
)
    ensures
        after_cycle(after_cycle(routes, name, delay, results), name, delay, results)
            == after_cycle(routes, name, delay, results),
{
    match route_of(routes, name) {
        Some(current) => match replacement(current, results, delay) {
            Some(u) => {
                lemma_with_route_found(routes, name, u);
                let once = with_route(routes, name, u);
                match replacement(u, results, delay) {
                    Some(v) => {
                        lemma_with_route_same(once, name, u);
                    },
                    None => {},
                }
            },
            None => {},
        },
        None => {},
    }
}

/// The routes after several monitoring cycles of one domain, in order.
pub open spec fn after_cycles(
    routes: Seq<RouteView>,
    name: Seq<char>,
    delay: u64,
    cycles: Seq<Seq<NodeResult>>,
) -> Seq<RouteView>
    decreases cycles.len(),
{
    if cycles.len() == 0 {
        routes
    } else {
        after_cycle(after_cycles(routes, name, delay, cycles.drop_last()), name, delay, cycles.last())
    }
}

/// A domain with a single candidate keeps that candidate as its route through
/// any number of cycles, whatever its probes report (and `needs_monitor` says
/// that no cycle needs to run at all).
pub proof fn lemma_single_candidate_keeps_route(
    routes: Seq<RouteView>,
    domain: Domain,
    cycles: Seq<Seq<NodeResult>>,
)
    requires
        domain.urls.len() == 1,
        route_of(routes, domain.domain@) == Some(domain.urls@[0]@),
        forall|c: int, j: int|
            0 <= c < cycles.len() && 0 <= j < cycles[c].len() ==> (#[trigger] cycles[c][j]).url@
                == domain.urls@[0]@,
    ensures
        after_cycles(routes, domain.domain@, domain.spec_block_delay(), cycles) == routes,
    decreases cycles.len(),
{
    if cycles.len() > 0 {
        let rest = cycles.drop_last();
        assert forall|c: int, j: int|
            0 <= c < rest.len() && 0 <= j < rest[c].len() implies (#[trigger] rest[c][j]).url@
            == domain.urls@[0]@ by {
            assert(rest[c] == cycles[c]);
        }
        lemma_single_candidate_keeps_route(routes, domain, rest);
        let last = cycles.last();
        let cur = domain.urls@[0]@;
        let delay = domain.spec_block_delay();
        lemma_highest_index(heights(last));
        match replacement(cur, last, delay) {
            Some(u) => {
                let m = highest_index(heights(last))->0;
                assert(last[m] == cycles[cycles.len() - 1][m]);
                lemma_with_route_same(routes, domain.domain@, cur);
            },
            None => {},
        }
    }
}


/// Sending a domain somewhere keeps every domain that had a route routed.
pub proof fn lemma_with_route_keeps_domains(
    routes: Seq<RouteView>,
    name: Seq<char>,
    url: UrlView,
    other: Seq<char>,
)
    requires
        route_of(routes, other) is Some,
    ensures
        route_of(with_route(routes, name, url), other) is Some,
{
    let p = has_name(name);
    let q = has_name(other);
    lemma_first_index(routes, p);
    match first_index(routes, p) {
        Some(i) => {
            let next = routes.update(i, (name, url));
            assert(routes[i].0 == name);
            lemma_first_index_same(routes, next, q);
        },
        None => {
            let next = routes.push((name, url));
            assert(next.drop_last() =~= routes);
        },
    }
}

/// A monitoring cycle never takes a domain's route away.
pub proof fn lemma_cycle_keeps_domains(
    routes: Seq<RouteView>,
    name: Seq<char>,
    delay: u64,
    results: Seq<NodeResult>,
    other: Seq<char>,
)
    requires
        route_of(routes, other) is Some,
    ensures
        route_of(after_cycle(routes, name, delay, results), other) is Some,
{
    if let Some(current) = route_of(routes, name) {
        if let Some(u) = replacement(current, results, delay) {
            lemma_with_route_keeps_domains(routes, name, u, other);
        }
    }
}

} // verus!
