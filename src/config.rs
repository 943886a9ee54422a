use vstd::prelude::*;

use crate::chain_service::ChainService;
use crate::chain_type::{chain_of_name, ChainType};
use crate::node_service::{has_url, heights, replacement, url_behind, NodeResult};
use crate::metrics::UserAgentCategory;
use crate::proxy_request_service::NodeDomain;
use crate::search::{
    first_index, highest_index, lemma_first_index_prefix, lemma_first_index_step,
    lemma_highest_index_step,
};

verus! {

/// One configured header: a name and the value to send with it.
pub struct Header {
    pub name: String,
    pub value: String,
}

pub type HeaderView = (Seq<char>, Seq<char>);

impl View for Header {
    type V = HeaderView;

    open spec fn view(&self) -> HeaderView {
        (self.name@, self.value@)
    }
}

impl Clone for Header {
    fn clone(&self) -> (r: Self)
        ensures
            r@ == self@,
    {
        Header { name: self.name.clone(), value: self.value.clone() }
    }
}

pub open spec fn headers_view(hs: Seq<Header>) -> Seq<HeaderView> {
    hs.map_values(|h: Header| h@)
}

/// Copies a header list.
pub fn clone_headers(hs: &Vec<Header>) -> (r: Vec<Header>)
    ensures
        headers_view(r@) == headers_view(hs@),
{
    let mut r: Vec<Header> = Vec::new();
    let mut i: usize = 0;
    while i < hs.len()
        invariant
            i <= hs.len(),
            r.len() == i,
            forall|j: int| 0 <= j < i ==> (#[trigger] r@[j])@ == hs@[j]@,
        decreases hs.len() - i,
    {
        r.push(hs[i].clone());
        i = i + 1;
    }
    assert(headers_view(r@) =~= headers_view(hs@));
    r
}

/// Compares two header lists entry by entry.
pub fn headers_equal(a: &Vec<Header>, b: &Vec<Header>) -> (r: bool)
    ensures
        r == (headers_view(a@) == headers_view(b@)),
{
    if a.len() != b.len() {
        assert(headers_view(a@).len() != headers_view(b@).len());
        return false;
    }
    let mut i: usize = 0;
    while i < a.len()
        invariant
            i <= a.len(),
            a.len() == b.len(),
            forall|j: int| 0 <= j < i ==> (#[trigger] a@[j])@ == b@[j]@,
        decreases a.len() - i,
    {
        if a[i].name != b[i].name || a[i].value != b[i].value {
            assert(headers_view(a@)[i as int] != headers_view(b@)[i as int]);
            return false;
        }
        i = i + 1;
    }
    assert(headers_view(a@) =~= headers_view(b@));
    true
}

/// An alternate target for one exact request path: requests for `path` go to
/// `url` as it stands, with `headers` in place of the endpoint's own.
pub struct UrlOverride {
    pub path: String,
    pub url: String,
    pub headers: Vec<Header>,
}

pub struct OverrideView {
    pub path: Seq<char>,
    pub url: Seq<char>,
    pub headers: Seq<HeaderView>,
}

impl View for UrlOverride {
    type V = OverrideView;

    open spec fn view(&self) -> OverrideView {
        OverrideView { path: self.path@, url: self.url@, headers: headers_view(self.headers@) }
    }
}

impl Clone for UrlOverride {
    fn clone(&self) -> (r: Self)
        ensures
            r@ == self@,
    {
        UrlOverride {
            path: self.path.clone(),
            url: self.url.clone(),
            headers: clone_headers(&self.headers),
        }
    }
}

pub open spec fn overrides_view(os: Seq<UrlOverride>) -> Seq<OverrideView> {
    os.map_values(|o: UrlOverride| o@)
}

/// One upstream endpoint: its base URL, the headers sent to it, and the
/// path-keyed overrides that replace it for single paths.
pub struct Url {
    pub url: String,
    pub headers: Vec<Header>,
    pub urls_override: Vec<UrlOverride>,
}

pub struct UrlView {
    pub url: Seq<char>,
    pub headers: Seq<HeaderView>,
    pub urls_override: Seq<OverrideView>,
}

impl View for Url {
    type V = UrlView;

    open spec fn view(&self) -> UrlView {
        UrlView {
            url: self.url@,
            headers: headers_view(self.headers@),
            urls_override: overrides_view(self.urls_override@),
        }
    }
}

impl Clone for Url {
    fn clone(&self) -> (r: Self)
        ensures
            r@ == self@,
    {
        let mut os: Vec<UrlOverride> = Vec::new();
        let mut i: usize = 0;
        while i < self.urls_override.len()
            invariant
                i <= self.urls_override.len(),
                os.len() == i,
                forall|j: int| 0 <= j < i ==> (#[trigger] os@[j])@ == self.urls_override@[j]@,
            decreases self.urls_override.len() - i,
        {
            os.push(self.urls_override[i].clone());
            i = i + 1;
        }
        assert(overrides_view(os@) =~= overrides_view(self.urls_override@));
        Url { url: self.url.clone(), headers: clone_headers(&self.headers), urls_override: os }
    }
}

fn override_equal(a: &UrlOverride, b: &UrlOverride) -> (r: bool)
    ensures
        r == (a@ == b@),
{
    a.path == b.path && a.url == b.url && headers_equal(&a.headers, &b.headers)
}

impl Url {
    /// Two endpoints are the same when their URLs, headers and overrides agree.
    pub fn same_as(&self, other: &Url) -> (r: bool)
        ensures
            r == (self@ == other@),
    {
        if self.url != other.url || !headers_equal(&self.headers, &other.headers) {
            return false;
        }
        let a = &self.urls_override;
        let b = &other.urls_override;
        if a.len() != b.len() {
            assert(overrides_view(a@).len() != overrides_view(b@).len());
            return false;
        }
        let mut i: usize = 0;
        while i < a.len()
            invariant
                i <= a.len(),
                a.len() == b.len(),
                a == &self.urls_override,
                b == &other.urls_override,
                forall|j: int| 0 <= j < i ==> (#[trigger] a@[j])@ == b@[j]@,
            decreases a.len() - i,
        {
            if !override_equal(&a[i], &b[i]) {
                assert(overrides_view(a@)[i as int] == a@[i as int]@);
                assert(overrides_view(b@)[i as int] == b@[i as int]@);
                assert(self@.urls_override[i as int] != other@.urls_override[i as int]);
                return false;
            }
            i = i + 1;
        }
        assert(overrides_view(a@) =~= overrides_view(b@));
        true
    }
}


/// How many blocks an endpoint may trail the highest one before it is replaced,
/// when a domain does not say.
pub const DEFAULT_BLOCK_DELAY: u64 = 100;

/// Seconds between two monitoring cycles, when a domain does not say.
pub const DEFAULT_POLL_INTERVAL_SECONDS: u64 = 600;

/// One public host name, the chain behind it and its candidate endpoints.
pub struct Domain {
    pub domain: String,
    pub chain_type: String,
    pub block_delay: Option<u64>,
    pub poll_interval_seconds: Option<u64>,
    pub urls: Vec<Url>,
}

/// The position of the first result for endpoint `url`.
pub fn position_of_url(results: &Vec<NodeResult>, url: &Url) -> (r: Option<usize>)
    ensures
        r matches Some(i) ==> i < results.len() && first_index(results@, has_url(url@)) == Some(
            i as int,
        ),
        r is None ==> first_index(results@, has_url(url@)) is None,
{
    let mut i: usize = 0;
    while i < results.len()
        invariant
            i <= results.len(),
            first_index(results@.subrange(0, i as int), has_url(url@)) is None,
        decreases results.len() - i,
    {
        proof {
            lemma_first_index_step(results@, has_url(url@), i as int);
        }
        if results[i].url.same_as(url) {
            proof {
                lemma_first_index_prefix(results@, has_url(url@), i + 1);
            }
            return Some(i);
        }
        i = i + 1;
    }
    assert(results@.subrange(0, i as int) =~= results@);
    None
}

/// The position of the first result at the highest height.
pub fn position_of_highest(results: &Vec<NodeResult>) -> (r: Option<usize>)
    ensures
        r matches Some(m) ==> m < results.len() && highest_index(heights(results@)) == Some(
            m as int,
        ),
        r is None ==> highest_index(heights(results@)) is None,
{
    let ghost hs = heights(results@);
    let mut best: Option<usize> = None;
    let mut i: usize = 0;
    while i < results.len()
        invariant
            i <= results.len(),
            hs == heights(results@),
            best matches Some(m) ==> m < i && highest_index(hs.subrange(0, i as int)) == Some(
                m as int,
            ),
            best is None ==> highest_index(hs.subrange(0, i as int)) is None,
        decreases results.len() - i,
    {
        proof {
            lemma_highest_index_step(hs, i as int);
        }
        best = match best {
            Some(m) => if results[i].block_number > results[m].block_number {
                Some(i)
            } else {
                Some(m)
            },
            None => Some(i),
        };
        i = i + 1;
    }
    assert(hs.subrange(0, i as int) =~= hs);
    best
}

impl Domain {
    pub open spec fn spec_block_delay(&self) -> u64 {
        match self.block_delay {
            Some(d) => d,
            None => DEFAULT_BLOCK_DELAY,
        }
    }

    pub open spec fn spec_poll_interval_seconds(&self) -> u64 {
        match self.poll_interval_seconds {
            Some(s) => s,
            None => DEFAULT_POLL_INTERVAL_SECONDS,
        }
    }

    /// Seconds to wait between two monitoring cycles of this domain.
    pub fn get_poll_interval_seconds(&self) -> (r: u64)
        ensures
            r == self.spec_poll_interval_seconds(),
    {
        match self.poll_interval_seconds {
            Some(s) => s,
            None => DEFAULT_POLL_INTERVAL_SECONDS,
        }
    }

    /// How many blocks the active endpoint may trail the highest one.
    pub fn get_block_delay(&self) -> (r: u64)
        ensures
            r == self.spec_block_delay(),
    {
        match self.block_delay {
            Some(d) => d,
            None => DEFAULT_BLOCK_DELAY,
        }
    }

    /// The active route that sends this domain's traffic to `url`.
    pub fn get_node_domain(&self, url: Url) -> (r: NodeDomain)
        ensures
            r.url == url,
    {
        NodeDomain { url }
    }

    /// Whether this domain needs a monitor: only a choice of endpoints does.
    pub fn needs_monitor(&self) -> (r: bool)
        ensures
            r == (self.urls.len() > 1),
    {
        self.urls.len() > 1
    }

    /// The probes of one cycle, one per candidate in order, all of the domain's
    /// chain; none when the chain name is not one this library knows.
    pub fn probe_targets(&self) -> (r: Vec<ChainService>)
        ensures
            chain_of_name(self.chain_type@) is None ==> r.len() == 0,
            chain_of_name(self.chain_type@) matches Some(c) ==> {
                &&& r.len() == self.urls.len()
                &&& forall|i: int|
                    0 <= i < r.len() ==> (#[trigger] r@[i]).chain_type == c && r@[i].url@
                        == self.urls@[i].url@
            },
    {
        let mut r: Vec<ChainService> = Vec::new();
        match ChainType::from_name(self.chain_type.as_str()) {
            None => r,
            Some(c) => {
                let mut i: usize = 0;
                while i < self.urls.len()
                    invariant
                        i <= self.urls.len(),
                        r.len() == i,
                        forall|j: int|
                            0 <= j < i ==> (#[trigger] r@[j]).chain_type == c && r@[j].url@
                                == self.urls@[j].url@,
                    decreases self.urls.len() - i,
                {
                    r.push(ChainService { chain_type: c, url: self.urls[i].url.clone() });
                    i = i + 1;
                }
                r
            },
        }
    }

    fn behind(&self, url: &Url, results: &Vec<NodeResult>) -> (r: bool)
        ensures
            r == url_behind(url@, results@, self.spec_block_delay()),
    {
        match position_of_url(results, url) {
            None => true,
            Some(i) => match position_of_highest(results) {
                Some(m) => {
                    let delay = self.get_block_delay();
                    (results[i].block_number as u128) + (delay as u128)
                        < (results[m].block_number as u128)
                },
                None => true,
            },
        }
    }

    /// Whether endpoint `url` is behind in a cycle with these results: it
    /// reported nothing, or its height plus the block delay is below the highest.
    pub fn is_url_behind(&self, url: Url, results: Vec<NodeResult>) -> (r: bool)
        ensures
            r == url_behind(url@, results@, self.spec_block_delay()),
    {
        self.behind(&url, &results)
    }

    /// The result with the highest height; the first one of them on ties.
    pub fn find_highest_block_number(results: Vec<NodeResult>) -> (r: Option<NodeResult>)
        ensures
            highest_index(heights(results@)) is None ==> r is None,
            highest_index(heights(results@)) matches Some(m) ==> r == Some(results@[m]),
    {
        let mut results = results;
        match position_of_highest(&results) {
            Some(m) => Some(results.swap_remove(m)),
            None => None,
        }
    }

    /// The endpoint that should replace `current` after a cycle with these
    /// results: the first endpoint at the highest height, when `current` is behind.
    pub fn next_url(&self, current: &Url, results: &Vec<NodeResult>) -> (r: Option<Url>)
        ensures
            r is None ==> replacement(current@, results@, self.spec_block_delay()) is None,
            r matches Some(u) ==> replacement(current@, results@, self.spec_block_delay())
                == Some(u@),
    {
        if self.behind(current, results) {
            match position_of_highest(results) {
                Some(m) => Some(results[m].url.clone()),
                None => None,
            }
        } else {
            None
        }
    }
}


pub struct DomainView {
    pub domain: Seq<char>,
    pub chain_type: Seq<char>,
    pub block_delay: Option<u64>,
    pub poll_interval_seconds: Option<u64>,
    pub urls: Seq<UrlView>,
}

impl View for Domain {
    type V = DomainView;

    open spec fn view(&self) -> DomainView {
        DomainView {
            domain: self.domain@,
            chain_type: self.chain_type@,
            block_delay: self.block_delay,
            poll_interval_seconds: self.poll_interval_seconds,
            urls: self.urls@.map_values(|u: Url| u@),
        }
    }
}

impl Clone for Domain {
    fn clone(&self) -> (r: Self)
        ensures
            r@ == self@,
    {
        let mut urls: Vec<Url> = Vec::new();
        let mut i: usize = 0;
        while i < self.urls.len()
            invariant
                i <= self.urls.len(),
                urls.len() == i,
                forall|j: int| 0 <= j < i ==> (#[trigger] urls@[j])@ == self.urls@[j]@,
            decreases self.urls.len() - i,
        {
            urls.push(self.urls[i].clone());
            i = i + 1;
        }
        assert(urls@.map_values(|u: Url| u@) =~= self.urls@.map_values(|u: Url| u@));
        Domain {
            domain: self.domain.clone(),
            chain_type: self.chain_type.clone(),
            block_delay: self.block_delay,
            poll_interval_seconds: self.poll_interval_seconds,
            urls,
        }
    }
}

pub open spec fn domains_view(ds: Seq<Domain>) -> Seq<DomainView> {
    ds.map_values(|d: Domain| d@)
}

/// The domain configuration is for host name `name`.
pub open spec fn named(name: Seq<char>) -> spec_fn(DomainView) -> bool {
    |d: DomainView| d.domain == name
}

/// One configuration per host name: a later domain of the same name replaces
/// an earlier one, in the earlier one's place.
pub open spec fn unique_domains(ds: Seq<DomainView>) -> Seq<DomainView>
    decreases ds.len(),
{
    if ds.len() == 0 {
        Seq::empty()
    } else {
        let u = unique_domains(ds.drop_last());
        let d = ds.last();
        match first_index(u, named(d.domain)) {
            Some(i) => u.update(i, d),
            None => u.push(d),
        }
    }
}

fn position_of_domain(ds: &Vec<Domain>, name: &String) -> (r: Option<usize>)
    ensures
        r matches Some(i) ==> i < ds.len() && first_index(domains_view(ds@), named(name@)) == Some(
            i as int,
        ),
        r is None ==> first_index(domains_view(ds@), named(name@)) is None,
{
    let ghost u = domains_view(ds@);
    let mut k: usize = 0;
    while k < ds.len()
        invariant
            k <= ds.len(),
            u == domains_view(ds@),
            first_index(u.subrange(0, k as int), named(name@)) is None,
        decreases ds.len() - k,
    {
        proof {
            lemma_first_index_step(u, named(name@), k as int);
        }
        if ds[k].domain == *name {
            proof {
                lemma_first_index_prefix(u, named(name@), k + 1);
            }
            return Some(k);
        }
        k = k + 1;
    }
    assert(u.subrange(0, k as int) =~= u);
    None
}

/// The settings of the metrics listener.
pub struct Metrics {
    pub port: u16,
    pub address: String,
    pub user_agent_patterns: Vec<UserAgentCategory>,
}

/// The whole configuration of the proxy.
pub struct NodeConfig {
    pub port: u16,
    pub address: String,
    pub metrics: Metrics,
    pub domains: Vec<Domain>,
}

impl NodeConfig {
    /// The configured domains, one per host name; where a name is configured
    /// twice, the later configuration counts.
    pub fn domains_map(&self) -> (r: Vec<Domain>)
        ensures
            domains_view(r@) == unique_domains(domains_view(self.domains@)),
    {
        let ghost dv = domains_view(self.domains@);
        let mut out: Vec<Domain> = Vec::new();
        let mut i: usize = 0;
        while i < self.domains.len()
            invariant
                i <= self.domains.len(),
                dv == domains_view(self.domains@),
                domains_view(out@) == unique_domains(dv.subrange(0, i as int)),
            decreases self.domains.len() - i,
        {
            let d = &self.domains[i];
            let ghost u = domains_view(out@);
            assert(dv.subrange(0, i + 1).drop_last() =~= dv.subrange(0, i as int));
            assert(dv.subrange(0, i + 1).last() == d@);
            let found = position_of_domain(&out, &d.domain);
            match found {
                Some(k) => {
                    out.set(k, d.clone());
                    assert(domains_view(out@) =~= u.update(k as int, d@));
                },
                None => {
                    out.push(d.clone());
                    assert(domains_view(out@) =~= u.push(d@));
                },
            }
            i = i + 1;
        }
        assert(dv.subrange(0, i as int) =~= dv);
        out
    }
}

} // verus!
