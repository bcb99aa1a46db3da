//! Metadata kept about the infrastructure: the latest graph, an index of
//! its services and a bounded history of snapshots.

use vstd::prelude::*;

use crate::clustering::distinct;
use crate::models::{
    clone_edges, clone_graph, clone_nodes, clone_service, clone_services, edges_view,
    nodes_view, services_view, strs, system_now, Edge, EdgeView, ExposureState, InfraGraph,
    InfraGraphView, NetworkNode, NetworkNodeView, Service, ServiceClass, ServiceType,
    ServiceView,
};

verus! {

// ---------------------------------------------------------------------------
// Entity cache
// ---------------------------------------------------------------------------

/// Holds the most recently discovered graph, if any.
pub struct EntityCache {
    graph: Option<InfraGraph>,
}

impl View for EntityCache {
    type V = Option<InfraGraphView>;

    closed spec fn view(&self) -> Option<InfraGraphView> {
        match self.graph {
            Some(g) => Some(g@),
            None => None,
        }
    }
}

impl EntityCache {
    /// An empty cache.
    pub fn new() -> (c: Self)
        ensures
            c@ is None,
    {
        EntityCache { graph: None }
    }

    /// Replaces the cached graph.
    pub fn set(&mut self, graph: InfraGraph)
        ensures
            final(self)@ == Some(graph@),
    {
        self.graph = Some(graph);
    }

    /// A copy of the cached graph, if any.
    pub fn get(&self) -> (r: Option<InfraGraph>)
        ensures
            match r {
                Some(g) => self@ == Some(g@),
                None => self@ is None,
            },
    {
        match &self.graph {
            Some(g) => Some(clone_graph(g)),
            None => None,
        }
    }

    /// The cached services; none when the cache is empty.
    pub fn services(&self) -> (r: Vec<Service>)
        ensures
            services_view(r@) == match self@ {
                Some(g) => g.services,
                None => Seq::empty(),
            },
    {
        match &self.graph {
            Some(g) => clone_services(&g.services),
            None => {
                let r: Vec<Service> = Vec::new();
                assert(services_view(r@) =~= Seq::empty());
                r
            },
        }
    }

    /// The cached network nodes; none when the cache is empty.
    pub fn network_nodes(&self) -> (r: Vec<NetworkNode>)
        ensures
            nodes_view(r@) == match self@ {
                Some(g) => g.network_nodes,
                None => Seq::empty(),
            },
    {
        match &self.graph {
            Some(g) => clone_nodes(&g.network_nodes),
            None => {
                let r: Vec<NetworkNode> = Vec::new();
                assert(nodes_view(r@) =~= Seq::empty());
                r
            },
        }
    }

    /// The cached edges; none when the cache is empty.
    pub fn edges(&self) -> (r: Vec<Edge>)
        ensures
            edges_view(r@) == match self@ {
                Some(g) => g.edges,
                None => Seq::empty(),
            },
    {
        match &self.graph {
            Some(g) => clone_edges(&g.edges),
            None => {
                let r: Vec<Edge> = Vec::new();
                assert(edges_view(r@) =~= Seq::empty());
                r
            },
        }
    }

    /// Whether no graph is cached.
    pub fn is_empty(&self) -> (b: bool)
        ensures
            b == self@ is None,
    {
        self.graph.is_none()
    }

    /// Drops the cached graph.
    pub fn clear(&mut self)
        ensures
            final(self)@ is None,
    {
        self.graph = None;
    }

    /// Number of cached services (zero when empty).
    pub fn service_count(&self) -> (n: usize)
        ensures
            n == match self@ {
                Some(g) => g.services.len(),
                None => 0,
            },
    {
        match &self.graph {
            Some(g) => g.services.len(),
            None => 0,
        }
    }

    /// Number of cached edges (zero when empty).
    pub fn edge_count(&self) -> (n: usize)
        ensures
            n == match self@ {
                Some(g) => g.edges.len(),
                None => 0,
            },
    {
        match &self.graph {
            Some(g) => g.edges.len(),
            None => 0,
        }
    }
}

/// How long a discovered graph is served from the cache, in seconds.
pub const GRAPH_CACHE_TTL_SECS: u64 = 30;

/// A cached graph is served again while it is younger than the cache
/// lifetime; `age_secs` is its age in whole seconds.
pub fn cache_is_fresh(age_secs: u64) -> (r: bool)
    ensures
        r == (age_secs < GRAPH_CACHE_TTL_SECS),
{
    age_secs < GRAPH_CACHE_TTL_SECS
}


// ---------------------------------------------------------------------------
// Service index
// ---------------------------------------------------------------------------

/// The last service with the id (a later service replaces an earlier one
/// with the same id).
pub open spec fn last_with_id(ss: Seq<ServiceView>, id: Seq<char>) -> Option<ServiceView>
    decreases ss.len(),
{
    if ss.len() == 0 {
        None
    } else if ss.last().id == id {
        Some(ss.last())
    } else {
        last_with_id(ss.drop_last(), id)
    }
}

/// Every indexed service is found by its id, and a lookup finds only a
/// service with the id asked for; ids that no service has find nothing.
pub proof fn law_index_finds_by_id(ss: Seq<ServiceView>, id: Seq<char>)
    ensures
        (exists|k: int| 0 <= k < ss.len() && ss[k].id == id) <==> last_with_id(ss, id) is Some,
        last_with_id(ss, id) matches Some(s) ==> s.id == id && ss.contains(s),
    decreases ss.len(),
{
    if ss.len() > 0 {
        let init = ss.drop_last();
        law_index_finds_by_id(init, id);
        if ss.last().id == id {
            assert(ss[ss.len() - 1].id == id);
            assert(ss.contains(ss.last())) by {
                assert(ss[ss.len() - 1] == ss.last());
            }
        } else {
            if exists|k: int| 0 <= k < ss.len() && ss[k].id == id {
                let k = choose|k: int| 0 <= k < ss.len() && ss[k].id == id;
                assert(init[k] == ss[k]);
            }
            if exists|k: int| 0 <= k < init.len() && init[k].id == id {
                let k = choose|k: int| 0 <= k < init.len() && init[k].id == id;
                assert(ss[k] == init[k]);
            }
            match last_with_id(init, id) {
                Some(s) => {
                    let k = choose|k: int| 0 <= k < init.len() && init[k] == s;
                    assert(ss[k] == init[k]);
                },
                None => {},
            }
        }
    }
}

proof fn lemma_distinct(v: Seq<Seq<char>>)
    ensures
        distinct(v).to_set() == v.to_set(),
        distinct(v).no_duplicates(),
        distinct(v).len() <= v.len(),
        distinct(v).len() == v.len() <==> v.no_duplicates(),
    decreases v.len(),
{
    if v.len() == 0 {
        assert(distinct(v).to_set() =~= v.to_set());
    } else {
        let init = v.drop_last();
        let x = v.last();
        lemma_distinct(init);
        let prev = distinct(init);
        let d = distinct(v);
        assert(v =~= init.push(x));
        assert(v.to_set() =~= init.to_set().insert(x)) by {
            assert forall|e: Seq<char>| v.to_set().contains(e) <==> init.to_set().insert(x).contains(e) by {
                if v.contains(e) {
                    let k = choose|k: int| 0 <= k < v.len() && v[k] == e;
                    if k < init.len() {
                        assert(init[k] == e);
                    }
                }
                if init.contains(e) {
                    let k = choose|k: int| 0 <= k < init.len() && init[k] == e;
                    assert(v[k] == e);
                }
                if e == x {
                    assert(v[v.len() - 1] == e);
                }
            }
        }
        if prev.contains(x) {
            assert(d == prev);
            assert(prev.to_set().contains(x));
            assert(init.contains(x));
            let k = choose|k: int| 0 <= k < init.len() && init[k] == x;
            assert(v[k] == v[v.len() - 1]);
            assert(!v.no_duplicates());
            assert(d.to_set() =~= v.to_set());
        } else {
            assert(d == prev.push(x));
            assert(!init.contains(x)) by {
                if init.contains(x) {
                    assert(init.to_set().contains(x));
                    assert(prev.to_set().contains(x));
                }
            }
            assert(d.to_set() =~= v.to_set()) by {
                assert forall|e: Seq<char>| d.to_set().contains(e) <==> v.to_set().contains(e) by {
                    if d.contains(e) {
                        let k = choose|k: int| 0 <= k < d.len() && d[k] == e;
                        if k < prev.len() {
                            assert(prev[k] == e);
                            assert(prev.to_set().contains(e));
                        } else {
                            assert(e == x);
                        }
                    }
                    if v.to_set().contains(e) && e != x {
                        assert(init.to_set().contains(e));
                        assert(prev.to_set().contains(e));
                        let k = choose|k: int| 0 <= k < prev.len() && prev[k] == e;
                        assert(d[k] == e);
                    }
                    if e == x {
                        assert(d[d.len() - 1] == e);
                    }
                }
            }
            assert(d.no_duplicates()) by {
                assert forall|i: int, j: int| 0 <= i < d.len() && 0 <= j < d.len() && i != j implies d[i] != d[j] by {
                    if i < prev.len() && j < prev.len() {
                        assert(d[i] == prev[i] && d[j] == prev[j]);
                    } else if i < prev.len() {
                        assert(d[i] == prev[i]);
                    } else {
                        assert(d[j] == prev[j]);
                    }
                }
            }
            assert(v.no_duplicates() <==> init.no_duplicates()) by {
                if init.no_duplicates() {
                    assert forall|i: int, j: int| 0 <= i < v.len() && 0 <= j < v.len() && i != j implies v[i] != v[j] by {
                        if i < init.len() && j < init.len() {
                            assert(v[i] == init[i] && v[j] == init[j]);
                        } else if i < init.len() {
                            assert(v[i] == init[i]);
                        } else {
                            assert(v[j] == init[j]);
                        }
                    }
                }
                if v.no_duplicates() {
                    assert forall|i: int, j: int| 0 <= i < init.len() && 0 <= j < init.len() && i != j implies init[i] != init[j] by {
                        assert(v[i] == init[i] && v[j] == init[j]);
                    }
                }
            }
        }
    }
}

/// The index counts each id once: `count` is the number of different ids
/// among the indexed services, which is at most the number of services and
/// equal to it exactly when no two services share an id.
pub proof fn law_count_distinct_ids(ss: Seq<ServiceView>)
    ensures
        distinct(ids_of(ss)).len() == ids_of(ss).to_set().len(),
        distinct(ids_of(ss)).len() <= ss.len(),
        distinct(ids_of(ss)).len() == ss.len() <==> ids_of(ss).no_duplicates(),
{
    let v = ids_of(ss);
    lemma_distinct(v);
    distinct(v).unique_seq_to_set();
}

/// The services that satisfy `p`, in order.
pub open spec fn select(ss: Seq<ServiceView>, p: spec_fn(ServiceView) -> bool) -> Seq<ServiceView>
    decreases ss.len(),
{
    if ss.len() == 0 {
        Seq::empty()
    } else if p(ss.last()) {
        select(ss.drop_last(), p).push(ss.last())
    } else {
        select(ss.drop_last(), p)
    }
}

/// Each service repeated `times(s)` times, in order.
pub open spec fn repeat_each(ss: Seq<ServiceView>, times: spec_fn(ServiceView) -> nat) -> Seq<ServiceView>
    decreases ss.len(),
{
    if ss.len() == 0 {
        Seq::empty()
    } else {
        repeat_each(ss.drop_last(), times) + Seq::new(times(ss.last()), |k: int| ss.last())
    }
}

/// Number of times `net` is listed.
pub open spec fn listings(nets: Seq<Seq<char>>, net: Seq<char>) -> nat
    decreases nets.len(),
{
    if nets.len() == 0 {
        0
    } else {
        listings(nets.drop_last(), net) + if nets.last() == net {
            1nat
        } else {
            0nat
        }
    }
}

/// Number of ports with the number.
pub open spec fn port_listings(ports: Seq<crate::models::Port>, port: u16) -> nat
    decreases ports.len(),
{
    if ports.len() == 0 {
        0
    } else {
        port_listings(ports.drop_last(), port) + if ports.last().port == port {
            1nat
        } else {
            0nat
        }
    }
}

/// The ids of the services, in order.
pub open spec fn ids_of(ss: Seq<ServiceView>) -> Seq<Seq<char>> {
    ss.map_values(|s: ServiceView| s.id)
}

/// Lookup tables over the services of the latest graph.
pub struct ServiceIndex {
    services: Vec<Service>,
}

impl View for ServiceIndex {
    type V = Seq<ServiceView>;

    closed spec fn view(&self) -> Seq<ServiceView> {
        services_view(self.services@)
    }
}

fn push_clone(out: &mut Vec<Service>, s: &Service)
    ensures
        services_view(final(out)@) == services_view(old(out)@).push(s@),
{
    let ghost before = out@;
    let c = clone_service(s);
    out.push(c);
    assert(services_view(out@) =~= services_view(before).push(s@));
}

impl ServiceIndex {
    /// An empty index.
    pub fn new() -> (r: Self)
        ensures
            r@ == Seq::<ServiceView>::empty(),
    {
        let r = ServiceIndex { services: Vec::new() };
        assert(r@ =~= Seq::<ServiceView>::empty());
        r
    }

    /// Replaces the indexed services.
    pub fn rebuild(&mut self, services: &Vec<Service>)
        ensures
            final(self)@ == services_view(services@),
    {
        self.services = clone_services(services);
    }

    /// The service with the id (the last one listed, when ids repeat).
    pub fn by_id(&self, id: &str) -> (r: Option<Service>)
        ensures
            match r {
                Some(s) => last_with_id(self@, id@) == Some(s@),
                None => last_with_id(self@, id@) is None,
            },
    {
        let ghost ss = self@;
        let mut i: usize = self.services.len();
        assert(ss.subrange(0, i as int) =~= ss);
        while i > 0
            invariant
                i <= self.services@.len(),
                ss == services_view(self.services@),
                last_with_id(ss, id@) == last_with_id(ss.subrange(0, i as int), id@),
            decreases i,
        {
            let ghost pre = ss.subrange(0, i as int);
            assert(pre.drop_last() =~= ss.subrange(0, i - 1));
            assert(pre.last() == self.services@[i - 1]@);
            if crate::text::str_eq(self.services[i - 1].id.as_str(), id) {
                return Some(clone_service(&self.services[i - 1]));
            }
            i = i - 1;
        }
        None
    }

    /// The services with the name, in order.
    pub fn by_name(&self, name: &str) -> (r: Vec<Service>)
        ensures
            services_view(r@) == select(self@, |s: ServiceView| s.name == name@),
    {
        let ghost ss = self@;
        let ghost p = |s: ServiceView| s.name == name@;
        let mut out: Vec<Service> = Vec::new();
        let mut i: usize = 0;
        while i < self.services.len()
            invariant
                i <= self.services@.len(),
                ss == services_view(self.services@),
                p == (|s: ServiceView| s.name == name@),
                services_view(out@) == select(ss.subrange(0, i as int), p),
            decreases self.services@.len() - i,
        {
            let ghost pre = ss.subrange(0, i + 1);
            assert(pre.drop_last() =~= ss.subrange(0, i as int));
            assert(pre.last() == self.services@[i as int]@);
            assert(p(pre.last()) == (self.services@[i as int].name@ == name@));
            if crate::text::str_eq(self.services[i].name.as_str(), name) {
                push_clone(&mut out, &self.services[i]);
            }
            i = i + 1;
        }
        assert(ss.subrange(0, self.services@.len() as int) =~= ss);
        out
    }

    /// The services of the class, in order.
    pub fn by_class(&self, class: &ServiceClass) -> (r: Vec<Service>)
        ensures
            services_view(r@) == select(self@, |s: ServiceView| s.class == *class),
    {
        let ghost ss = self@;
        let ghost p = |s: ServiceView| s.class == *class;
        let mut out: Vec<Service> = Vec::new();
        let mut i: usize = 0;
        while i < self.services.len()
            invariant
                i <= self.services@.len(),
                ss == services_view(self.services@),
                p == (|s: ServiceView| s.class == *class),
                services_view(out@) == select(ss.subrange(0, i as int), p),
            decreases self.services@.len() - i,
        {
            let ghost pre = ss.subrange(0, i + 1);
            assert(pre.drop_last() =~= ss.subrange(0, i as int));
            assert(pre.last() == self.services@[i as int]@);
            assert(p(pre.last()) == (self.services@[i as int].class == *class));
            if self.services[i].class == *class {
                push_clone(&mut out, &self.services[i]);
            }
            i = i + 1;
        }
        assert(ss.subrange(0, self.services@.len() as int) =~= ss);
        out
    }

    /// The services of the type, in order.
    pub fn by_type(&self, service_type: &ServiceType) -> (r: Vec<Service>)
        ensures
            services_view(r@) == select(self@, |s: ServiceView| s.service_type == *service_type),
    {
        let ghost ss = self@;
        let ghost p = |s: ServiceView| s.service_type == *service_type;
        let mut out: Vec<Service> = Vec::new();
        let mut i: usize = 0;
        while i < self.services.len()
            invariant
                i <= self.services@.len(),
                ss == services_view(self.services@),
                p == (|s: ServiceView| s.service_type == *service_type),
                services_view(out@) == select(ss.subrange(0, i as int), p),
            decreases self.services@.len() - i,
        {
            let ghost pre = ss.subrange(0, i + 1);
            assert(pre.drop_last() =~= ss.subrange(0, i as int));
            assert(pre.last() == self.services@[i as int]@);
            assert(p(pre.last()) == (self.services@[i as int].service_type == *service_type));
            if self.services[i].service_type == *service_type {
                push_clone(&mut out, &self.services[i]);
            }
            i = i + 1;
        }
        assert(ss.subrange(0, self.services@.len() as int) =~= ss);
        out
    }

    /// The services on the network: each once per time it lists the
    /// network, in order.
    pub fn by_network(&self, network: &str) -> (r: Vec<Service>)
        ensures
            services_view(r@) == repeat_each(self@, |s: ServiceView| listings(s.networks, network@)),
    {
        let ghost ss = self@;
        let ghost f = |s: ServiceView| listings(s.networks, network@);
        let mut out: Vec<Service> = Vec::new();
        let mut i: usize = 0;
        while i < self.services.len()
            invariant
                i <= self.services@.len(),
                ss == services_view(self.services@),
                f == (|s: ServiceView| listings(s.networks, network@)),
                services_view(out@) == repeat_each(ss.subrange(0, i as int), f),
            decreases self.services@.len() - i,
        {
            let s = &self.services[i];
            let ghost pre = ss.subrange(0, i + 1);
            assert(pre.drop_last() =~= ss.subrange(0, i as int));
            assert(pre.last() == s@);
            let ghost base = services_view(out@);
            let ghost nets = strs(s.networks@);
            let mut j: usize = 0;
            while j < s.networks.len()
                invariant
                    j <= s.networks@.len(),
                    nets == strs(s.networks@),
                    services_view(out@) == base + Seq::new(listings(nets.subrange(0, j as int), network@), |k: int| s@),
                decreases s.networks@.len() - j,
            {
                let ghost sub = nets.subrange(0, j + 1);
                assert(sub.drop_last() =~= nets.subrange(0, j as int));
                assert(sub.last() == s.networks@[j as int]@);
                let ghost c = listings(nets.subrange(0, j as int), network@);
                if crate::text::str_eq(s.networks[j].as_str(), network) {
                    push_clone(&mut out, s);
                    assert(Seq::new(c + 1, |k: int| s@) =~= Seq::new(c, |k: int| s@).push(s@));
                }
                j = j + 1;
            }
            assert(nets.subrange(0, s.networks@.len() as int) =~= nets);
            assert(f(s@) == listings(nets, network@));
            i = i + 1;
        }
        assert(ss.subrange(0, self.services@.len() as int) =~= ss);
        out
    }

    /// The services with a port of the number: each once per such port, in
    /// order.
    pub fn by_port(&self, port: u16) -> (r: Vec<Service>)
        ensures
            services_view(r@) == repeat_each(self@, |s: ServiceView| port_listings(s.ports, port)),
    {
        let ghost ss = self@;
        let ghost f = |s: ServiceView| port_listings(s.ports, port);
        let mut out: Vec<Service> = Vec::new();
        let mut i: usize = 0;
        while i < self.services.len()
            invariant
                i <= self.services@.len(),
                ss == services_view(self.services@),
                f == (|s: ServiceView| port_listings(s.ports, port)),
                services_view(out@) == repeat_each(ss.subrange(0, i as int), f),
            decreases self.services@.len() - i,
        {
            let s = &self.services[i];
            let ghost pre = ss.subrange(0, i + 1);
            assert(pre.drop_last() =~= ss.subrange(0, i as int));
            assert(pre.last() == s@);
            let ghost base = services_view(out@);
            let mut j: usize = 0;
            while j < s.ports.len()
                invariant
                    j <= s.ports@.len(),
                    services_view(out@) == base + Seq::new(port_listings(s.ports@.subrange(0, j as int), port), |k: int| s@),
                decreases s.ports@.len() - j,
            {
                let ghost sub = s.ports@.subrange(0, j + 1);
                assert(sub.drop_last() =~= s.ports@.subrange(0, j as int));
                let ghost c = port_listings(s.ports@.subrange(0, j as int), port);
                if s.ports[j].port == port {
                    push_clone(&mut out, s);
                    assert(Seq::new(c + 1, |k: int| s@) =~= Seq::new(c, |k: int| s@).push(s@));
                }
                j = j + 1;
            }
            assert(s.ports@.subrange(0, s.ports@.len() as int) =~= s.ports@);
            assert(f(s@) == port_listings(s.ports@, port));
            i = i + 1;
        }
        assert(ss.subrange(0, self.services@.len() as int) =~= ss);
        out
    }

    /// The exposed services, in order.
    pub fn exposed_services(&self) -> (r: Vec<Service>)
        ensures
            services_view(r@) == select(self@, |s: ServiceView| s.exposure_state == ExposureState::Exposed),
    {
        let ghost ss = self@;
        let ghost p = |s: ServiceView| s.exposure_state == ExposureState::Exposed;
        let mut out: Vec<Service> = Vec::new();
        let mut i: usize = 0;
        while i < self.services.len()
            invariant
                i <= self.services@.len(),
                ss == services_view(self.services@),
                p == (|s: ServiceView| s.exposure_state == ExposureState::Exposed),
                services_view(out@) == select(ss.subrange(0, i as int), p),
            decreases self.services@.len() - i,
        {
            let ghost pre = ss.subrange(0, i + 1);
            assert(pre.drop_last() =~= ss.subrange(0, i as int));
            assert(pre.last() == self.services@[i as int]@);
            assert(p(pre.last()) == (self.services@[i as int].exposure_state == ExposureState::Exposed));
            if self.services[i].exposure_state == ExposureState::Exposed {
                push_clone(&mut out, &self.services[i]);
            }
            i = i + 1;
        }
        assert(ss.subrange(0, self.services@.len() as int) =~= ss);
        out
    }

    /// The distinct service ids, in order of first appearance.
    pub fn all_ids(&self) -> (r: Vec<String>)
        ensures
            strs(r@) == distinct(ids_of(self@)),
    {
        let ghost ss = self@;
        let ghost ids = ids_of(ss);
        let mut out: Vec<String> = Vec::new();
        let mut i: usize = 0;
        while i < self.services.len()
            invariant
                i <= self.services@.len(),
                ss == services_view(self.services@),
                ids == ids_of(ss),
                strs(out@) == distinct(ids.subrange(0, i as int)),
                out@.len() <= i,
            decreases self.services@.len() - i,
        {
            let ghost pre = ids.subrange(0, i + 1);
            assert(pre.drop_last() =~= ids.subrange(0, i as int));
            assert(pre.last() == self.services@[i as int].id@);
            let id = &self.services[i].id;
            let mut found = false;
            let mut k: usize = 0;
            while k < out.len()
                invariant
                    k <= out@.len(),
                    found == exists|x: int| 0 <= x < k && out@[x]@ == id@,
                decreases out@.len() - k,
            {
                let m = out[k] == *id;
                proof {
                    if m {
                        assert(0 <= k < k + 1 && out@[k as int]@ == id@);
                    }
                }
                found = found || m;
                k = k + 1;
            }
            proof {
                if found {
                    let x = choose|x: int| 0 <= x < out@.len() && out@[x]@ == id@;
                    assert(strs(out@)[x] == id@);
                } else {
                    assert forall|x: int| 0 <= x < strs(out@).len() implies strs(out@)[x] != id@ by {
                        assert(strs(out@)[x] == out@[x]@);
                    }
                }
            }
            if !found {
                let ghost before = out@;
                out.push(id.clone());
                assert(strs(out@) =~= strs(before).push(id@));
            }
            i = i + 1;
        }
        assert(ids.subrange(0, self.services@.len() as int) =~= ids);
        out
    }

    /// Number of distinct service ids.
    pub fn count(&self) -> (n: usize)
        ensures
            n == distinct(ids_of(self@)).len(),
    {
        let ids = self.all_ids();
        ids.len()
    }
}

impl Default for ServiceIndex {
    /// An empty index.
    fn default() -> (r: Self)
        ensures
            r@ == Seq::<ServiceView>::empty(),
    {
        ServiceIndex::new()
    }
}

// ---------------------------------------------------------------------------
// Snapshot history
// ---------------------------------------------------------------------------

/// A graph as it was at a point in time.
pub struct InfraSnapshot {
    pub graph: InfraGraph,
    pub timestamp: std::time::SystemTime,
}

/// The history after appending `x` to `s` when at most `max` entries are
/// kept: the oldest entry is dropped first when the history is full.
pub open spec fn bounded_push<T>(s: Seq<T>, x: T, max: nat) -> Seq<T> {
    if s.len() >= max && s.len() > 0 {
        s.drop_first().push(x)
    } else {
        s.push(x)
    }
}

/// The most entries a history bounded by `max` ever holds: `max`, but at
/// least the one just pushed.
pub open spec fn capacity(max: nat) -> nat {
    if max == 0 {
        1
    } else {
        max
    }
}

/// Pushing into a history within capacity keeps it within capacity, keeps
/// the pushed entry as the latest, and keeps the newer entries in order.
pub proof fn lemma_bounded_push<T>(s: Seq<T>, x: T, max: nat)
    requires
        s.len() <= capacity(max),
    ensures
        bounded_push(s, x, max).len() <= capacity(max),
        bounded_push(s, x, max).last() == x,
        bounded_push(s, x, max).len() == if s.len() < max { s.len() + 1 } else if s.len() > 0 { s.len() } else { 1 },
        forall|i: int|
            0 <= i < bounded_push(s, x, max).len() - 1 ==> bounded_push(s, x, max)[i]
                == s[i + s.len() + 1 - bounded_push(s, x, max).len()],
{
}

/// The abstract value of a [`SnapshotManager`]: the graphs of the infra
/// snapshots, the metrics snapshots, and the bound.
pub struct SnapshotHistory<M> {
    pub infra: Seq<InfraGraphView>,
    pub metrics: Seq<M>,
    pub max: nat,
}

/// Bounded histories of infrastructure and metrics snapshots, oldest first.
pub struct SnapshotManager<M> {
    infra_snapshots: std::collections::VecDeque<InfraSnapshot>,
    metrics_snapshots: std::collections::VecDeque<M>,
    max_snapshots: usize,
}

impl<M> View for SnapshotManager<M> {
    type V = SnapshotHistory<M>;

    closed spec fn view(&self) -> SnapshotHistory<M> {
        SnapshotHistory {
            infra: self.infra_snapshots@.map_values(|s: InfraSnapshot| s.graph@),
            metrics: self.metrics_snapshots@,
            max: self.max_snapshots as nat,
        }
    }
}

impl<M> SnapshotManager<M> {
    #[verifier::type_invariant]
    closed spec fn within_capacity(&self) -> bool {
        &&& self.infra_snapshots@.len() <= capacity(self.max_snapshots as nat)
        &&& self.metrics_snapshots@.len() <= capacity(self.max_snapshots as nat)
    }

    /// Empty histories keeping ten entries each.
    pub fn new() -> (r: Self)
        ensures
            r@.infra.len() == 0,
            r@.metrics.len() == 0,
            r@.max == 10,
    {
        let r = SnapshotManager {
            infra_snapshots: std::collections::VecDeque::with_capacity(10),
            metrics_snapshots: std::collections::VecDeque::with_capacity(10),
            max_snapshots: 10,
        };
        r
    }

    /// Empty histories keeping `max` entries each.
    pub fn with_capacity(max: usize) -> (r: Self)
        ensures
            r@.infra.len() == 0,
            r@.metrics.len() == 0,
            r@.max == max,
    {
        SnapshotManager {
            infra_snapshots: std::collections::VecDeque::with_capacity(max),
            metrics_snapshots: std::collections::VecDeque::with_capacity(max),
            max_snapshots: max,
        }
    }

    /// Records a graph, stamped with the current time, dropping the oldest
    /// graph when the history is full.
    pub fn push_infra(&mut self, graph: InfraGraph)
        ensures
            final(self)@.infra == bounded_push(old(self)@.infra, graph@, old(self)@.max),
            final(self)@.metrics == old(self)@.metrics,
            final(self)@.max == old(self)@.max,
    {
        proof {
            use_type_invariant(&*self);
        }
        let ghost before = self.infra_snapshots@;
        let mut infra: std::collections::VecDeque<InfraSnapshot> = std::collections::VecDeque::new();
        std::mem::swap(&mut infra, &mut self.infra_snapshots);
        if infra.len() >= self.max_snapshots {
            let _ = infra.pop_front();
        }
        let snap = InfraSnapshot { graph, timestamp: system_now() };
        let ghost g = snap.graph@;
        infra.push_back(snap);
        std::mem::swap(&mut infra, &mut self.infra_snapshots);
        proof {
            let m = self.max_snapshots as nat;
            assert(self@.infra =~= bounded_push(
                before.map_values(|s: InfraSnapshot| s.graph@),
                g,
                m,
            ));
        }
    }

    /// Records a metrics snapshot, dropping the oldest one when the history
    /// is full.
    pub fn push_metrics(&mut self, snapshot: M)
        ensures
            final(self)@.metrics == bounded_push(old(self)@.metrics, snapshot, old(self)@.max),
            final(self)@.infra == old(self)@.infra,
            final(self)@.max == old(self)@.max,
    {
        proof {
            use_type_invariant(&*self);
        }
        let mut metrics: std::collections::VecDeque<M> = std::collections::VecDeque::new();
        std::mem::swap(&mut metrics, &mut self.metrics_snapshots);
        if metrics.len() >= self.max_snapshots {
            let _ = metrics.pop_front();
        }
        metrics.push_back(snapshot);
        std::mem::swap(&mut metrics, &mut self.metrics_snapshots);
    }

    /// The newest infra snapshot, if any.
    pub fn latest_infra(&self) -> (r: Option<&InfraSnapshot>)
        ensures
            match r {
                Some(s) => self@.infra.len() > 0 && s.graph@ == self@.infra.last(),
                None => self@.infra.len() == 0,
            },
    {
        let n = self.infra_snapshots.len();
        if n == 0 {
            None
        } else {
            Some(&self.infra_snapshots[n - 1])
        }
    }

    /// The newest metrics snapshot, if any.
    pub fn latest_metrics(&self) -> (r: Option<&M>)
        ensures
            match r {
                Some(m) => self@.metrics.len() > 0 && *m == self@.metrics.last(),
                None => self@.metrics.len() == 0,
            },
    {
        let n = self.metrics_snapshots.len();
        if n == 0 {
            None
        } else {
            Some(&self.metrics_snapshots[n - 1])
        }
    }

    /// All infra snapshots, oldest first.
    pub fn all_infra(&self) -> (r: &std::collections::VecDeque<InfraSnapshot>)
        ensures
            r@.map_values(|s: InfraSnapshot| s.graph@) == self@.infra,
    {
        &self.infra_snapshots
    }

    /// All metrics snapshots, oldest first.
    pub fn all_metrics(&self) -> (r: &std::collections::VecDeque<M>)
        ensures
            r@ == self@.metrics,
    {
        &self.metrics_snapshots
    }

    /// Number of infra snapshots held; never more than the capacity.
    pub fn infra_count(&self) -> (n: usize)
        ensures
            n == self@.infra.len(),
            n <= capacity(self@.max),
    {
        proof {
            use_type_invariant(self);
        }
        self.infra_snapshots.len()
    }

    /// Number of metrics snapshots held; never more than the capacity.
    pub fn metrics_count(&self) -> (n: usize)
        ensures
            n == self@.metrics.len(),
            n <= capacity(self@.max),
    {
        proof {
            use_type_invariant(self);
        }
        self.metrics_snapshots.len()
    }
}

// ---------------------------------------------------------------------------
// Engine
// ---------------------------------------------------------------------------

/// Counts describing what the metadata engine holds.
#[derive(Clone, Copy, Debug, PartialEq, Eq, Structural)]
pub struct MetadataStatus {
    pub services: usize,
    pub edges: usize,
    pub indexed: usize,
    pub infra_snapshots: usize,
    pub metrics_snapshots: usize,
}

/// The cache, the index and the snapshot history together. `M` is the type
/// of a metrics snapshot.
pub struct MetadataEngine<M> {
    pub cache: EntityCache,
    pub index: ServiceIndex,
    pub snapshots: SnapshotManager<M>,
}

impl<M> MetadataEngine<M> {
    /// An engine with an empty cache and index, keeping ten snapshots.
    pub fn new() -> (r: Self)
        ensures
            r.cache@ is None,
            r.index@ == Seq::<ServiceView>::empty(),
            r.snapshots@.infra.len() == 0,
            r.snapshots@.metrics.len() == 0,
            r.snapshots@.max == 10,
    {
        MetadataEngine { cache: EntityCache::new(), index: ServiceIndex::new(), snapshots: SnapshotManager::new() }
    }

    /// An engine with an empty cache and index, keeping `capacity` snapshots.
    pub fn with_snapshot_capacity(capacity: usize) -> (r: Self)
        ensures
            r.cache@ is None,
            r.index@ == Seq::<ServiceView>::empty(),
            r.snapshots@.infra.len() == 0,
            r.snapshots@.metrics.len() == 0,
            r.snapshots@.max == capacity,
    {
        MetadataEngine {
            cache: EntityCache::new(),
            index: ServiceIndex::new(),
            snapshots: SnapshotManager::with_capacity(capacity),
        }
    }

    /// Caches the graph and indexes its services; snapshots are untouched.
    pub fn update(&mut self, graph: InfraGraph)
        ensures
            final(self).cache@ == Some(graph@),
            final(self).index@ == graph@.services,
            final(self).snapshots@ == old(self).snapshots@,
    {
        let services = clone_services(&graph.services);
        self.cache.set(graph);
        self.index.rebuild(&services);
    }

    /// Records the cached graph, if any, in the infra history.
    pub fn snapshot_infra(&mut self)
        ensures
            final(self).cache@ == old(self).cache@,
            final(self).index@ == old(self).index@,
            final(self).snapshots@.metrics == old(self).snapshots@.metrics,
            final(self).snapshots@.max == old(self).snapshots@.max,
            final(self).snapshots@.infra == match old(self).cache@ {
                Some(g) => bounded_push(old(self).snapshots@.infra, g, old(self).snapshots@.max),
                None => old(self).snapshots@.infra,
            },
    {
        match self.cache.get() {
            Some(g) => self.snapshots.push_infra(g),
            None => {},
        }
    }

    /// Records a metrics snapshot in the metrics history.
    pub fn snapshot_metrics(&mut self, snapshot: M)
        ensures
            final(self).cache@ == old(self).cache@,
            final(self).index@ == old(self).index@,
            final(self).snapshots@.infra == old(self).snapshots@.infra,
            final(self).snapshots@.max == old(self).snapshots@.max,
            final(self).snapshots@.metrics == bounded_push(
                old(self).snapshots@.metrics,
                snapshot,
                old(self).snapshots@.max,
            ),
    {
        self.snapshots.push_metrics(snapshot);
    }

    /// What the engine holds: cached services and edges, distinct indexed
    /// ids, and the sizes of both histories.
    pub fn status(&self) -> (r: MetadataStatus)
        ensures
            r.services == match self.cache@ {
                Some(g) => g.services.len(),
                None => 0,
            },
            r.edges == match self.cache@ {
                Some(g) => g.edges.len(),
                None => 0,
            },
            r.indexed == distinct(ids_of(self.index@)).len(),
            r.infra_snapshots == self.snapshots@.infra.len(),
            r.metrics_snapshots == self.snapshots@.metrics.len(),
    {
        MetadataStatus {
            services: self.cache.service_count(),
            edges: self.cache.edge_count(),
            indexed: self.index.count(),
            infra_snapshots: self.snapshots.infra_count(),
            metrics_snapshots: self.snapshots.metrics_count(),
        }
    }
}

impl<M> Default for SnapshotManager<M> {
    /// Empty histories keeping ten entries each.
    fn default() -> (r: Self)
        ensures
            r@.infra.len() == 0,
            r@.metrics.len() == 0,
            r@.max == 10,
    {
        SnapshotManager::new()
    }
}

impl<M> Default for MetadataEngine<M> {
    /// An engine with an empty cache and index, keeping ten snapshots.
    fn default() -> (r: Self)
        ensures
            r.cache@ is None,
            r.index@ == Seq::<ServiceView>::empty(),
            r.snapshots@.infra.len() == 0,
            r.snapshots@.metrics.len() == 0,
            r.snapshots@.max == 10,
    {
        MetadataEngine::new()
    }
}

} // verus!
