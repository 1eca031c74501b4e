//! The routing table and the dispatch decision.
//!
//! A [`SubdomainLayer`] is the fluent builder: `register` adds a handler
//! under a subdomain key, `strict` sets the strict-mode flag, `known_hosts`
//! sets the list of known full-host suffixes. `into_service` consumes the
//! builder and freezes the configuration into a [`SubdomainService`], which
//! exposes no mutation and decides, per request, among a matched handler, a
//! strict rejection, and the fallback.
//!
//! Handlers are opaque to this crate: the table stores them under the type
//! parameter `H` and hands the chosen one back by index.

use vstd::prelude::*;

use crate::extract::{extract_subdomain, spec_strip_port, spec_subdomain, strip_port};
use crate::scan::{bytes_eq, opt_slice_view, opt_view, seq_views};
use crate::tlds::{known_tlds, spec_known_tlds};

verus! {

/// One entry of the routing table: a subdomain key and its handler.
#[derive(Clone)]
pub struct Route<H> {
    /// The subdomain key the entry is looked up under.
    pub key: Vec<u8>,
    /// The handler that requests for this subdomain go to.
    pub handler: H,
}

/// The keys of a list of routes, in registration order.
pub open spec fn route_keys<H>(routes: Seq<Route<H>>) -> Seq<Seq<u8>> {
    routes.map_values(|r: Route<H>| r.key@)
}

/// The index of the last route whose key is `sub`, among the first `k`
/// routes; `None` when no key among them is `sub`. The latest registration
/// of a key is the one in force.
pub open spec fn rfind_key(keys: Seq<Seq<u8>>, sub: Seq<u8>, k: int) -> Option<int>
    decreases k,
{
    if 0 < k && k <= keys.len() {
        if keys[k - 1] == sub {
            Some(k - 1)
        } else {
            rfind_key(keys, sub, k - 1)
        }
    } else {
        None
    }
}

/// A found index is in range, carries the key looked for, and is the latest
/// registration of that key; a miss means no key matches.
pub proof fn lemma_rfind_key(keys: Seq<Seq<u8>>, sub: Seq<u8>, k: int)
    requires
        0 <= k <= keys.len(),
    ensures
        match rfind_key(keys, sub, k) {
            Some(i) => 0 <= i < k && keys[i] == sub && (forall|m: int|
                i < m < k ==> keys[m] != sub),
            None => forall|m: int| 0 <= m < k ==> keys[m] != sub,
        },
    decreases k,
{
    if 0 < k && keys[k - 1] != sub {
        lemma_rfind_key(keys, sub, k - 1);
    }
}

/// What dispatch decides for one request: forward to the handler at a table
/// index, reject with a not-found response, or fall back to the default
/// handler.
#[derive(Clone, Copy, Debug, PartialEq, Eq, Structural)]
pub enum Decision {
    /// Forward the request to the handler stored at this table index.
    Dispatched { index: usize },
    /// Synthesize a not-found response with an empty body.
    Rejected,
    /// Forward the request to the fallback handler.
    Fallback,
}

/// The dispatch decision as a pure function of the raw host header value
/// (absent when the request carried none that decodes as text) and the
/// frozen configuration: strip the port, extract the subdomain, look it up.
/// No subdomain means fallback; an unmatched subdomain means rejection under
/// strict mode and fallback otherwise.
pub open spec fn spec_decide(
    host: Option<Seq<u8>>,
    keys: Seq<Seq<u8>>,
    strict: bool,
    khs: Seq<Seq<u8>>,
    tlds: Seq<Seq<u8>>,
) -> Decision {
    match host {
        None => Decision::Fallback,
        Some(h) => match spec_subdomain(spec_strip_port(h), khs, tlds) {
            Some(sub) => match rfind_key(keys, sub, keys.len() as int) {
                Some(i) => Decision::Dispatched { index: i as usize },
                None => if strict {
                    Decision::Rejected
                } else {
                    Decision::Fallback
                },
            },
            None => Decision::Fallback,
        },
    }
}

/// The fluent builder of a routing configuration.
///
/// Calls compose as `SubdomainLayer::new().register(..).strict(..)`; the
/// finished builder is consumed by [`SubdomainLayer::into_service`], and the
/// frozen result is what request handling reads.
#[derive(Clone)]
pub struct SubdomainLayer<H> {
    routes: Vec<Route<H>>,
    strict: bool,
    known_hosts: Vec<Vec<u8>>,
    tlds: Vec<Vec<u8>>,
}

impl<H> SubdomainLayer<H> {
    /// The subdomain keys registered so far, in registration order.
    pub closed spec fn spec_keys(&self) -> Seq<Seq<u8>> {
        route_keys(self.routes@)
    }

    /// The handlers registered so far, in registration order.
    pub closed spec fn spec_handlers(&self) -> Seq<H> {
        self.routes@.map_values(|r: Route<H>| r.handler)
    }

    /// The strict-mode flag.
    pub closed spec fn spec_strict(&self) -> bool {
        self.strict
    }

    /// The configured known-host suffixes, in registration order.
    pub closed spec fn spec_known_hosts(&self) -> Seq<Seq<u8>> {
        seq_views(self.known_hosts@)
    }

    /// The recognized top-level domains.
    pub closed spec fn spec_tlds(&self) -> Seq<Seq<u8>> {
        seq_views(self.tlds@)
    }

    /// Creates an empty configuration: no routes, strict mode off, no known
    /// hosts, and the fixed table of recognized top-level domains.
    pub fn new() -> (s: Self)
        ensures
            s.spec_keys() == Seq::<Seq<u8>>::empty(),
            s.spec_handlers() == Seq::<H>::empty(),
            s.spec_strict() == false,
            s.spec_known_hosts() == Seq::<Seq<u8>>::empty(),
            s.spec_tlds() == spec_known_tlds(),
    {
        let s = SubdomainLayer {
            routes: Vec::new(),
            strict: false,
            known_hosts: Vec::new(),
            tlds: known_tlds(),
        };
        proof {
            assert(s.spec_keys() =~= Seq::<Seq<u8>>::empty());
            assert(s.spec_handlers() =~= Seq::<H>::empty());
            assert(s.spec_known_hosts() =~= Seq::<Seq<u8>>::empty());
        }
        s
    }

    /// Registers a handler for a subdomain key. A later registration of the
    /// same key takes precedence over an earlier one.
    pub fn register(self, subdomain: Vec<u8>, handler: H) -> (s: Self)
        ensures
            s.spec_keys() == self.spec_keys().push(subdomain@),
            s.spec_handlers() == self.spec_handlers().push(handler),
            s.spec_strict() == self.spec_strict(),
            s.spec_known_hosts() == self.spec_known_hosts(),
            s.spec_tlds() == self.spec_tlds(),
    {
        let mut routes = self.routes;
        let ghost prev = routes@;
        routes.push(Route { key: subdomain, handler });
        let s = SubdomainLayer {
            routes,
            strict: self.strict,
            known_hosts: self.known_hosts,
            tlds: self.tlds,
        };
        proof {
            assert(s.spec_keys() =~= route_keys(prev).push(s.routes@.last().key@));
            assert(s.spec_handlers() =~= prev.map_values(|r: Route<H>| r.handler).push(
                s.routes@.last().handler,
            ));
        }
        s
    }

    /// Enables or disables strict mode: under strict mode a request whose
    /// subdomain matches no registered key is rejected instead of falling
    /// back.
    pub fn strict(self, strict: bool) -> (s: Self)
        ensures
            s.spec_keys() == self.spec_keys(),
            s.spec_handlers() == self.spec_handlers(),
            s.spec_strict() == strict,
            s.spec_known_hosts() == self.spec_known_hosts(),
            s.spec_tlds() == self.spec_tlds(),
    {
        SubdomainLayer {
            routes: self.routes,
            strict,
            known_hosts: self.known_hosts,
            tlds: self.tlds,
        }
    }

    /// Sets the list of known full-host suffixes, checked in the given order
    /// with the first match winning.
    pub fn known_hosts(self, hosts: Vec<Vec<u8>>) -> (s: Self)
        ensures
            s.spec_keys() == self.spec_keys(),
            s.spec_handlers() == self.spec_handlers(),
            s.spec_strict() == self.spec_strict(),
            s.spec_known_hosts() == seq_views(hosts@),
            s.spec_tlds() == self.spec_tlds(),
    {
        SubdomainLayer {
            routes: self.routes,
            strict: self.strict,
            known_hosts: hosts,
            tlds: self.tlds,
        }
    }

    /// Consumes the builder and freezes the configuration into the service
    /// that request handling reads. Nothing mutates the result.
    pub fn into_service(self) -> (s: SubdomainService<H>)
        ensures
            s.spec_keys() == self.spec_keys(),
            s.spec_handlers() == self.spec_handlers(),
            s.spec_strict() == self.spec_strict(),
            s.spec_known_hosts() == self.spec_known_hosts(),
            s.spec_tlds() == self.spec_tlds(),
    {
        SubdomainService {
            routes: self.routes,
            strict: self.strict,
            known_hosts: self.known_hosts,
            tlds: self.tlds,
        }
    }
}

impl<H> Default for SubdomainLayer<H> {
    /// The empty configuration, as [`SubdomainLayer::new`] builds it.
    fn default() -> (s: Self)
        ensures
            s.spec_keys() == Seq::<Seq<u8>>::empty(),
            s.spec_handlers() == Seq::<H>::empty(),
            s.spec_strict() == false,
            s.spec_known_hosts() == Seq::<Seq<u8>>::empty(),
            s.spec_tlds() == spec_known_tlds(),
    {
        Self::new()
    }
}

/// A frozen routing configuration: the immutable snapshot shared across
/// request-handling contexts. It answers lookups and decides dispatch; it
/// has no mutation entry point.
#[derive(Clone)]
pub struct SubdomainService<H> {
    routes: Vec<Route<H>>,
    strict: bool,
    known_hosts: Vec<Vec<u8>>,
    tlds: Vec<Vec<u8>>,
}

impl<H> SubdomainService<H> {
    /// The registered subdomain keys, in registration order.
    pub closed spec fn spec_keys(&self) -> Seq<Seq<u8>> {
        route_keys(self.routes@)
    }

    /// The registered handlers, in registration order.
    pub closed spec fn spec_handlers(&self) -> Seq<H> {
        self.routes@.map_values(|r: Route<H>| r.handler)
    }

    /// The strict-mode flag.
    pub closed spec fn spec_strict(&self) -> bool {
        self.strict
    }

    /// The configured known-host suffixes.
    pub closed spec fn spec_known_hosts(&self) -> Seq<Seq<u8>> {
        seq_views(self.known_hosts@)
    }

    /// The recognized top-level domains.
    pub closed spec fn spec_tlds(&self) -> Seq<Seq<u8>> {
        seq_views(self.tlds@)
    }

    /// The number of registered routes.
    pub fn route_count(&self) -> (n: usize)
        ensures
            n == self.spec_keys().len(),
    {
        self.routes.len()
    }

    /// The strict-mode flag.
    pub fn is_strict(&self) -> (b: bool)
        ensures
            b == self.spec_strict(),
    {
        self.strict
    }

    /// The handler stored at a table index, as dispatch names one.
    pub fn handler_at(&self, index: usize) -> (r: Option<&H>)
        ensures
            match r {
                Some(h) => index < self.spec_handlers().len() && *h == self.spec_handlers()[
                    index as int
                ],
                None => index >= self.spec_handlers().len(),
            },
    {
        if index < self.routes.len() {
            Some(&self.routes[index].handler)
        } else {
            None
        }
    }

    /// The index of the route a subdomain key is looked up under: the latest
    /// registration of that key.
    fn lookup(&self, sub: &[u8]) -> (r: Option<usize>)
        ensures
            match r {
                Some(i) => rfind_key(self.spec_keys(), sub@, self.spec_keys().len() as int)
                    == Some(i as int),
                None => rfind_key(self.spec_keys(), sub@, self.spec_keys().len() as int) is None,
            },
    {
        let n = self.routes.len();
        let mut k = n;
        while k > 0
            invariant
                k <= n,
                n == self.routes@.len(),
                rfind_key(self.spec_keys(), sub@, n as int) == rfind_key(
                    self.spec_keys(),
                    sub@,
                    k as int,
                ),
            decreases k,
        {
            if bytes_eq(self.routes[k - 1].key.as_slice(), sub) {
                proof {
                    assert(self.spec_keys()[k - 1] == sub@);
                }
                return Some(k - 1);
            }
            proof {
                assert(self.spec_keys()[k - 1] != sub@);
            }
            k -= 1;
        }
        None
    }

    /// Decides what to do with a request whose `Host` header decoded to
    /// `host` (or was absent or undecodable, for `None`): forward it to the
    /// matched handler, reject it, or fall back. The decision is a pure
    /// function of the host value and the frozen configuration.
    pub fn decide(&self, host: Option<&[u8]>) -> (d: Decision)
        ensures
            d == spec_decide(
                opt_slice_view(host),
                self.spec_keys(),
                self.spec_strict(),
                self.spec_known_hosts(),
                self.spec_tlds(),
            ),
            d matches Decision::Dispatched { index } ==> index < self.spec_handlers().len(),
    {
        match host {
            None => Decision::Fallback,
            Some(h) => {
                let stripped = strip_port(h);
                match extract_subdomain(stripped.as_slice(), &self.known_hosts, &self.tlds) {
                    Some(sub) => {
                        proof {
                            lemma_rfind_key(
                                self.spec_keys(),
                                sub@,
                                self.spec_keys().len() as int,
                            );
                        }
                        match self.lookup(sub.as_slice()) {
                            Some(i) => Decision::Dispatched { index: i },
                            None => if self.strict {
                                Decision::Rejected
                            } else {
                                Decision::Fallback
                            },
                        }
                    },
                    None => Decision::Fallback,
                }
            },
        }
    }
}

/// Exactly one of the three outcomes is chosen per request, and each tells
/// why it was chosen. A request is dispatched exactly when its host yields a
/// subdomain that is a registered key, and then to the latest registration
/// of that key. It is rejected exactly when strict mode is on and the
/// subdomain matches no key. Everything else — no host, no subdomain, or an
/// unmatched subdomain without strict mode — falls back.
pub proof fn lemma_decision_cases(
    host: Option<Seq<u8>>,
    keys: Seq<Seq<u8>>,
    strict: bool,
    khs: Seq<Seq<u8>>,
    tlds: Seq<Seq<u8>>,
)
    requires
        keys.len() <= usize::MAX,
    ensures
        ({
            let d = spec_decide(host, keys, strict, khs, tlds);
            match d {
                Decision::Dispatched { index } => {
                    &&& host is Some
                    &&& spec_subdomain(spec_strip_port(host->Some_0), khs, tlds) is Some
                    &&& index < keys.len()
                    &&& keys[index as int] == spec_subdomain(
                        spec_strip_port(host->Some_0),
                        khs,
                        tlds,
                    )->Some_0
                    &&& forall|m: int|
                        index < m < keys.len() ==> keys[m] != spec_subdomain(
                            spec_strip_port(host->Some_0),
                            khs,
                            tlds,
                        )->Some_0
                },
                Decision::Rejected => {
                    &&& strict
                    &&& host is Some
                    &&& spec_subdomain(spec_strip_port(host->Some_0), khs, tlds) is Some
                    &&& forall|m: int|
                        0 <= m < keys.len() ==> keys[m] != spec_subdomain(
                            spec_strip_port(host->Some_0),
                            khs,
                            tlds,
                        )->Some_0
                },
                Decision::Fallback => {
                    ||| host is None
                    ||| spec_subdomain(spec_strip_port(host->Some_0), khs, tlds) is None
                    ||| (!strict && forall|m: int|
                        0 <= m < keys.len() ==> keys[m] != spec_subdomain(
                            spec_strip_port(host->Some_0),
                            khs,
                            tlds,
                        )->Some_0)
                },
            }
        }),
{
    if host is Some {
        let sub = spec_subdomain(spec_strip_port(host->Some_0), khs, tlds);
        if sub is Some {
            lemma_rfind_key(keys, sub->Some_0, keys.len() as int);
        }
    }
}

/// Dispatch is deterministic: two decisions taken against equal host values
/// and equal frozen configurations are the same decision.
pub proof fn lemma_dispatch_deterministic(
    d1: Decision,
    d2: Decision,
    host: Option<Seq<u8>>,
    keys: Seq<Seq<u8>>,
    strict: bool,
    khs: Seq<Seq<u8>>,
    tlds: Seq<Seq<u8>>,
)
    requires
        d1 == spec_decide(host, keys, strict, khs, tlds),
        d2 == spec_decide(host, keys, strict, khs, tlds),
    ensures
        d1 == d2,
{
}

} // verus!
