//! The discovery service: the endpoints that may host an agent, each known
//! under the key of its host and port.

use vstd::prelude::*;
use vstd::string::*;
use crate::seqs::{
    first_where, lemma_filter_empty, lemma_filter_step, lemma_first_where, lemma_first_where_is,
    views,
};
use crate::text::{decimal, decimal_string};

verus! {

/// How an endpoint came to be known.
#[derive(Debug, Clone, Copy, PartialEq, Eq, Structural)]
pub enum DiscoveryMethod {
    /// Registered by hand.
    Manual,
    /// Found by probing ports.
    NetworkScan,
    /// Found through DNS service discovery.
    DnsSd,
}

/// An endpoint that may host an agent.
#[derive(Debug)]
pub struct DiscoveredEndpoint {
    pub host: String,
    pub port: u16,
    pub method: DiscoveryMethod,
    pub runtime_hint: Option<String>,
}

/// An endpoint in mathematical terms.
pub struct DiscoveredEndpointView {
    pub host: Seq<char>,
    pub port: u16,
    pub method: DiscoveryMethod,
    pub runtime_hint: Option<Seq<char>>,
}

impl View for DiscoveredEndpoint {
    type V = DiscoveredEndpointView;

    open spec fn view(&self) -> DiscoveredEndpointView {
        DiscoveredEndpointView {
            host: self.host@,
            port: self.port,
            method: self.method,
            runtime_hint: match self.runtime_hint {
                Some(h) => Some(h@),
                None => None,
            },
        }
    }
}

impl Clone for DiscoveredEndpoint {
    fn clone(&self) -> (copy: Self)
        ensures
            copy == *self,
    {
        DiscoveredEndpoint {
            host: self.host.clone(),
            port: self.port,
            method: self.method,
            runtime_hint: match &self.runtime_hint {
                Some(h) => Some(h.clone()),
                None => None,
            },
        }
    }
}

/// The key of an endpoint: its host, a colon and its port.
pub open spec fn endpoint_key(host: Seq<char>, port: u16) -> Seq<char> {
    host + ":"@ + decimal(port as nat)
}

/// The endpoints of a given key.
pub open spec fn keyed(key: Seq<char>) -> spec_fn(DiscoveredEndpointView) -> bool {
    |e: DiscoveredEndpointView| endpoint_key(e.host, e.port) == key
}

/// The endpoints that were found through DNS service discovery.
pub open spec fn found_by_dns_sd() -> spec_fn(DiscoveredEndpointView) -> bool {
    |e: DiscoveredEndpointView| e.method == DiscoveryMethod::DnsSd
}

/// The place of the endpoint of a given key, or the number of endpoints
/// where none has it.
pub open spec fn endpoint_index(endpoints: Seq<DiscoveredEndpointView>, key: Seq<char>) -> int {
    first_where(endpoints, keyed(key))
}

/// The keys of the endpoints, in their order.
pub open spec fn endpoint_keys(endpoints: Seq<DiscoveredEndpointView>) -> Seq<Seq<char>> {
    Seq::new(endpoints.len(), |i: int| endpoint_key(endpoints[i].host, endpoints[i].port))
}

/// The endpoints after one is registered: in the place of the one of the
/// same key, or behind all others.
pub open spec fn with_endpoint(
    endpoints: Seq<DiscoveredEndpointView>,
    endpoint: DiscoveredEndpointView,
) -> Seq<DiscoveredEndpointView> {
    let at = endpoint_index(endpoints, endpoint_key(endpoint.host, endpoint.port));
    if at < endpoints.len() {
        endpoints.update(at, endpoint)
    } else {
        endpoints.push(endpoint)
    }
}

/// The endpoints after the one of a given key is removed.
pub open spec fn without_endpoint(endpoints: Seq<DiscoveredEndpointView>, key: Seq<char>) -> Seq<
    DiscoveredEndpointView,
> {
    let at = endpoint_index(endpoints, key);
    if at < endpoints.len() {
        endpoints.remove(at)
    } else {
        endpoints
    }
}

/// What a scan of one host finds on the first `n` of the ports: the known
/// endpoints of the host on those ports, in the order of the ports.
pub open spec fn scan_host(
    endpoints: Seq<DiscoveredEndpointView>,
    host: Seq<char>,
    ports: Seq<u16>,
    n: int,
) -> Seq<DiscoveredEndpointView>
    decreases n,
{
    if n <= 0 {
        Seq::empty()
    } else {
        let at = endpoint_index(endpoints, endpoint_key(host, ports[n - 1]));
        if at < endpoints.len() {
            scan_host(endpoints, host, ports, n - 1).push(endpoints[at])
        } else {
            scan_host(endpoints, host, ports, n - 1)
        }
    }
}

/// What a scan of the first `n` of the hosts finds: for each host in turn
/// what the scan of that host finds on all the ports.
pub open spec fn scan(
    endpoints: Seq<DiscoveredEndpointView>,
    hosts: Seq<Seq<char>>,
    ports: Seq<u16>,
    n: int,
) -> Seq<DiscoveredEndpointView>
    decreases n,
{
    if n <= 0 {
        Seq::empty()
    } else {
        scan(endpoints, hosts, ports, n - 1) + scan_host(
            endpoints,
            hosts[n - 1],
            ports,
            ports.len() as int,
        )
    }
}

struct Entry {
    key: String,
    endpoint: DiscoveredEndpoint,
}

impl View for Entry {
    type V = DiscoveredEndpointView;

    closed spec fn view(&self) -> DiscoveredEndpointView {
        self.endpoint@
    }
}

/// The known endpoints, in the order in which their keys came.
pub struct DiscoveryService {
    entries: Vec<Entry>,
}

impl View for DiscoveryService {
    type V = Seq<DiscoveredEndpointView>;

    closed spec fn view(&self) -> Seq<DiscoveredEndpointView> {
        views(self.entries@)
    }
}

impl DiscoveryService {
    spec fn keys_kept(&self) -> bool {
        forall|i: int|
            0 <= i < self.entries@.len() ==> (#[trigger] self.entries@[i]).key@ == endpoint_key(
                self.entries@[i].endpoint.host@,
                self.entries@[i].endpoint.port,
            )
    }

    /// The invariant of the service: no key occurs twice.
    pub closed spec fn wf(&self) -> bool {
        &&& self.keys_kept()
        &&& endpoint_keys(self@).no_duplicates()
    }

    /// The keys of a service are apart.
    pub proof fn lemma_keys_apart(&self)
        requires
            self.wf(),
        ensures
            endpoint_keys(self@).no_duplicates(),
    {
    }

    /// A service that knows no endpoint.
    pub fn new() -> (service: Self)
        ensures
            service.wf(),
            service@.len() == 0,
    {
        DiscoveryService { entries: Vec::new() }
    }

    fn find(&self, key: &str) -> (at: usize)
        requires
            self.wf(),
        ensures
            at as int == endpoint_index(self@, key@),
            at <= self@.len(),
    {
        let ghost all = views(self.entries@);
        let ghost p = keyed(key@);
        let mut i: usize = 0;
        while i < self.entries.len()
            invariant
                i <= self.entries.len(),
                self.wf(),
                all == views(self.entries@),
                p == keyed(key@),
                forall|j: int| 0 <= j < i ==> !p(#[trigger] all[j]),
            decreases self.entries.len() - i,
        {
            if self.entries[i].key.as_str().eq(key) {
                proof {
                    assert(p(all[i as int]));
                    lemma_first_where_is(all, p, i as int);
                }
                return i;
            }
            assert(!p(all[i as int]));
            i += 1;
        }
        proof {
            lemma_first_where_is(all, p, i as int);
        }
        i
    }

    /// Registers an endpoint under the key of its host and port, in place
    /// of the endpoint that was known under that key. Returns the key.
    pub fn register_endpoint(&mut self, endpoint: DiscoveredEndpoint) -> (key: String)
        requires
            old(self).wf(),
        ensures
            final(self).wf(),
            key@ == endpoint_key(endpoint.host@, endpoint.port),
            final(self)@ == with_endpoint(old(self)@, endpoint@),
    {
        let ghost before = views(self.entries@);
        let ghost added = endpoint@;
        let mut key = endpoint.host.clone();
        key.append(":");
        let port = decimal_string(endpoint.port as u64);
        key.append(port.as_str());
        let at = self.find(key.as_str());
        proof {
            lemma_first_where(before, keyed(key@));
        }
        let entry = Entry { key: key.clone(), endpoint };
        if at < self.entries.len() {
            self.entries[at] = entry;
            proof {
                assert(views(self.entries@) =~= before.update(at as int, added));
                assert(endpoint_keys(views(self.entries@)) =~= endpoint_keys(before));
            }
        } else {
            self.entries.push(entry);
            proof {
                let after = views(self.entries@);
                assert(after =~= before.push(added));
                assert forall|i: int, j: int|
                    0 <= i < after.len() && 0 <= j < after.len() && i != j implies endpoint_keys(
                    after,
                )[i] != endpoint_keys(after)[j] by {
                    if i < before.len() && j < before.len() {
                        assert(endpoint_keys(before)[i] != endpoint_keys(before)[j]);
                    } else if i < before.len() {
                        assert(!keyed(key@)(before[i]));
                    } else {
                        assert(!keyed(key@)(before[j]));
                    }
                }
            }
        }
        key
    }

    /// Removes the endpoint of a given key. Says whether there was one.
    pub fn remove_endpoint(&mut self, key: &str) -> (existed: bool)
        requires
            old(self).wf(),
        ensures
            final(self).wf(),
            existed == (endpoint_index(old(self)@, key@) < old(self)@.len()),
            final(self)@ == without_endpoint(old(self)@, key@),
    {
        let ghost before = views(self.entries@);
        let at = self.find(key);
        if at < self.entries.len() {
            self.entries.remove(at);
            proof {
                let after = views(self.entries@);
                assert(after =~= before.remove(at as int));
                assert forall|i: int, j: int|
                    0 <= i < after.len() && 0 <= j < after.len() && i != j implies endpoint_keys(
                    after,
                )[i] != endpoint_keys(after)[j] by {
                    let a = if i < at { i } else { i + 1 };
                    let b = if j < at { j } else { j + 1 };
                    assert(endpoint_keys(before)[a] != endpoint_keys(before)[b]);
                }
            }
            true
        } else {
            false
        }
    }

    /// The known endpoints, in the order in which their keys came.
    pub fn list_endpoints(&self) -> (endpoints: Vec<&DiscoveredEndpoint>)
        ensures
            views(endpoints@) == self@,
    {
        let mut found: Vec<&DiscoveredEndpoint> = Vec::new();
        let mut i: usize = 0;
        while i < self.entries.len()
            invariant
                i <= self.entries.len(),
                views(found@) == views(self.entries@).take(i as int),
            decreases self.entries.len() - i,
        {
            let ghost so_far = views(found@);
            found.push(&self.entries[i].endpoint);
            assert(views(found@) =~= so_far.push(self.entries@[i as int]@));
            assert(views(self.entries@).take(i + 1) =~= views(self.entries@).take(i as int).push(
                self.entries@[i as int]@,
            ));
            i += 1;
        }
        assert(views(self.entries@).take(i as int) =~= views(self.entries@));
        found
    }

    /// Scans hosts for agents on a set of ports: returns the known
    /// endpoints among them, host by host and port by port.
    pub fn scan_ports(&self, hosts: &[String], ports: &[u16]) -> (found: Vec<DiscoveredEndpoint>)
        requires
            self.wf(),
        ensures
            views(found@) == scan(self@, views(hosts@), ports@, hosts@.len() as int),
    {
        let ghost all = self@;
        let ghost names = views(hosts@);
        let mut found: Vec<DiscoveredEndpoint> = Vec::new();
        let mut h: usize = 0;
        while h < hosts.len()
            invariant
                h <= hosts.len(),
                self.wf(),
                all == self@,
                names == views(hosts@),
                views(found@) == scan(all, names, ports@, h as int),
            decreases hosts.len() - h,
        {
            let ghost before = views(found@);
            let mut p: usize = 0;
            while p < ports.len()
                invariant
                    p <= ports.len(),
                    h < hosts.len(),
                    self.wf(),
                    all == self@,
                    names == views(hosts@),
                    views(found@) == before + scan_host(all, names[h as int], ports@, p as int),
                decreases ports.len() - p,
            {
                let ghost so_far = views(found@);
                let mut key = hosts[h].clone();
                key.append(":");
                let port = decimal_string(ports[p] as u64);
                key.append(port.as_str());
                let at = self.find(key.as_str());
                if at < self.entries.len() {
                    found.push(self.entries[at].endpoint.clone());
                    assert(views(found@) =~= so_far.push(all[at as int]));
                }
                assert(views(found@) =~= before + scan_host(
                    all,
                    names[h as int],
                    ports@,
                    p + 1,
                ));
                p += 1;
            }
            h += 1;
        }
        found
    }

    /// The endpoints that were found through DNS service discovery, in the
    /// order in which their keys came.
    pub fn discover_dns_sd(&self) -> (found: Vec<DiscoveredEndpoint>)
        ensures
            views(found@) == self@.filter(found_by_dns_sd()),
    {
        let ghost all = views(self.entries@);
        let ghost p = found_by_dns_sd();
        let mut found: Vec<DiscoveredEndpoint> = Vec::new();
        let mut i: usize = 0;
        proof {
            lemma_filter_empty(all.take(0), p);
            assert(views(found@) =~= all.take(0).filter(p));
        }
        while i < self.entries.len()
            invariant
                i <= self.entries.len(),
                all == views(self.entries@),
                p == found_by_dns_sd(),
                views(found@) == all.take(i as int).filter(p),
            decreases self.entries.len() - i,
        {
            proof {
                lemma_filter_step(all, p, i as int);
            }
            if self.entries[i].endpoint.method == DiscoveryMethod::DnsSd {
                let ghost so_far = views(found@);
                found.push(self.entries[i].endpoint.clone());
                assert(views(found@) =~= so_far.push(all[i as int]));
            }
            i += 1;
        }
        assert(all.take(i as int) =~= all);
        found
    }
}

impl Default for DiscoveryService {
    fn default() -> (service: Self)
        ensures
            service.wf(),
            service@.len() == 0,
    {
        DiscoveryService::new()
    }
}

} // verus!
