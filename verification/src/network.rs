//! Network intelligence: connection types, traffic classification and the
//! grouping of connections into traffic flows.

use vstd::prelude::*;

use crate::text::owned;

verus! {

/// TCP connection state as the kernel reports it.
#[derive(Clone, Copy, Debug, PartialEq, Eq, Structural)]
pub enum ConnectionState {
    Established,
    SynSent,
    SynReceived,
    FinWait1,
    FinWait2,
    TimeWait,
    Closed,
    CloseWait,
    LastAck,
    Listen,
    Closing,
}

/// An active TCP connection. Addresses are kept in their textual form.
#[derive(Clone, Debug)]
pub struct Connection {
    pub local_addr: String,
    pub local_port: u16,
    pub remote_addr: String,
    pub remote_port: u16,
    pub state: ConnectionState,
    pub inode: u64,
    pub pid: Option<u32>,
    pub container_id: Option<String>,
}

/// The kind of traffic a destination port carries.
#[derive(Clone, Copy, Debug, PartialEq, Eq, Structural)]
pub enum TrafficClass {
    Http,
    Https,
    Database,
    Cache,
    Dns,
    Ssh,
    Smtp,
    MessageQueue,
    ContainerOrchestration,
    Monitoring,
    Unknown,
}

/// Connections from this host to one destination address and port.
#[derive(Clone, Debug)]
pub struct TrafficFlow {
    pub source: String,
    pub destination: String,
    pub port: u16,
    pub class: TrafficClass,
    pub connection_count: usize,
}

/// The abstract value of a [`TrafficFlow`].
pub struct TrafficFlowView {
    pub source: Seq<char>,
    pub destination: Seq<char>,
    pub port: u16,
    pub class: TrafficClass,
    pub connection_count: nat,
}

impl View for TrafficFlow {
    type V = TrafficFlowView;

    open spec fn view(&self) -> TrafficFlowView {
        TrafficFlowView {
            source: self.source@,
            destination: self.destination@,
            port: self.port,
            class: self.class,
            connection_count: self.connection_count as nat,
        }
    }
}

/// The abstract value of each flow in a sequence.
pub open spec fn flows_view(v: Seq<TrafficFlow>) -> Seq<TrafficFlowView> {
    v.map_values(|f: TrafficFlow| f@)
}

/// The traffic class of a destination port.
pub open spec fn port_class(port: u16) -> TrafficClass {
    if port == 80 {
        TrafficClass::Http
    } else if port == 443 || port == 8443 {
        TrafficClass::Https
    } else if port == 22 {
        TrafficClass::Ssh
    } else if port == 25 || port == 465 || port == 587 {
        TrafficClass::Smtp
    } else if port == 53 {
        TrafficClass::Dns
    } else if port == 3306 || port == 5432 || port == 5433 || port == 5434 || port == 1521
        || port == 1433 || port == 1186 || port == 3320 {
        TrafficClass::Database
    } else if port == 6379 || port == 11211 {
        TrafficClass::Cache
    } else if port == 5672 || port == 5671 || port == 61613 || port == 61614 || port == 1883
        || port == 8883 {
        TrafficClass::MessageQueue
    } else if port == 2375 || port == 2376 || port == 6443 {
        TrafficClass::ContainerOrchestration
    } else if port == 9090 || port == 9092 || port == 9100 || port == 9200 || port == 9419
        || port == 16686 || port == 14250 || port == 4317 {
        TrafficClass::Monitoring
    } else {
        TrafficClass::Unknown
    }
}

/// Classifies traffic by its destination port.
pub fn classify_port(port: u16) -> (c: TrafficClass)
    ensures
        c == port_class(port),
{
    match port {
        80 => TrafficClass::Http,
        443 | 8443 => TrafficClass::Https,
        22 => TrafficClass::Ssh,
        25 | 465 | 587 => TrafficClass::Smtp,
        53 => TrafficClass::Dns,
        3306 | 5432 | 5433 | 5434 | 1521 | 1433 | 1186 | 3320 => TrafficClass::Database,
        6379 | 11211 => TrafficClass::Cache,
        5672 | 5671 | 61613 | 61614 | 1883 | 8883 => TrafficClass::MessageQueue,
        2375 | 2376 | 6443 => TrafficClass::ContainerOrchestration,
        9090 | 9092 | 9100 | 9200 | 9419 | 16686 | 14250 | 4317 => TrafficClass::Monitoring,
        _ => TrafficClass::Unknown,
    }
}

/// The connection state for the kernel's state number.
pub open spec fn state_of_number(num: u8) -> ConnectionState {
    if num == 0x01 {
        ConnectionState::Established
    } else if num == 0x02 {
        ConnectionState::SynSent
    } else if num == 0x03 {
        ConnectionState::SynReceived
    } else if num == 0x04 {
        ConnectionState::FinWait1
    } else if num == 0x05 {
        ConnectionState::FinWait2
    } else if num == 0x06 {
        ConnectionState::TimeWait
    } else if num == 0x08 {
        ConnectionState::CloseWait
    } else if num == 0x09 {
        ConnectionState::LastAck
    } else if num == 0x0A {
        ConnectionState::Listen
    } else if num == 0x0B {
        ConnectionState::Closing
    } else {
        ConnectionState::Closed
    }
}

/// Maps the kernel's TCP state number to a state; unknown numbers read as closed.
pub fn tcp_state(num: u8) -> (s: ConnectionState)
    ensures
        s == state_of_number(num),
{
    match num {
        0x01 => ConnectionState::Established,
        0x02 => ConnectionState::SynSent,
        0x03 => ConnectionState::SynReceived,
        0x04 => ConnectionState::FinWait1,
        0x05 => ConnectionState::FinWait2,
        0x06 => ConnectionState::TimeWait,
        0x07 => ConnectionState::Closed,
        0x08 => ConnectionState::CloseWait,
        0x09 => ConnectionState::LastAck,
        0x0A => ConnectionState::Listen,
        0x0B => ConnectionState::Closing,
        _ => ConnectionState::Closed,
    }
}

// ---------------------------------------------------------------------------
// Traffic flows
// ---------------------------------------------------------------------------

/// Index of the first flow to `dest`:`port`, or -1.
pub open spec fn flow_index(fs: Seq<TrafficFlowView>, dest: Seq<char>, port: u16) -> int
    decreases fs.len(),
{
    if fs.len() == 0 {
        -1
    } else {
        let r = flow_index(fs.drop_last(), dest, port);
        if r >= 0 {
            r
        } else if fs.last().destination == dest && fs.last().port == port {
            fs.len() - 1
        } else {
            -1
        }
    }
}

/// The flows after counting one more connection to `dest`:`port`.
pub open spec fn add_connection(fs: Seq<TrafficFlowView>, dest: Seq<char>, port: u16) -> Seq<
    TrafficFlowView,
> {
    let i = flow_index(fs, dest, port);
    if i >= 0 {
        fs.update(i, TrafficFlowView { connection_count: fs[i].connection_count + 1, ..fs[i] })
    } else {
        fs.push(
            TrafficFlowView {
                source: "localhost"@,
                destination: dest,
                port: port,
                class: port_class(port),
                connection_count: 1,
            },
        )
    }
}

/// The flows of a list of connections: one per distinct remote address and
/// port, in order of first appearance, each counting its connections.
pub open spec fn flows_of(cs: Seq<Connection>) -> Seq<TrafficFlowView>
    decreases cs.len(),
{
    if cs.len() == 0 {
        Seq::empty()
    } else {
        add_connection(flows_of(cs.drop_last()), cs.last().remote_addr@, cs.last().remote_port)
    }
}

/// Number of connections to `dest`:`port`.
pub open spec fn connections_to(cs: Seq<Connection>, dest: Seq<char>, port: u16) -> nat
    decreases cs.len(),
{
    if cs.len() == 0 {
        0
    } else {
        connections_to(cs.drop_last(), dest, port) + if cs.last().remote_addr@ == dest
            && cs.last().remote_port == port {
            1nat
        } else {
            0nat
        }
    }
}

proof fn lemma_flow_index(fs: Seq<TrafficFlowView>, dest: Seq<char>, port: u16)
    ensures
        -1 <= flow_index(fs, dest, port) < fs.len(),
        flow_index(fs, dest, port) >= 0 ==> fs[flow_index(fs, dest, port)].destination == dest
            && fs[flow_index(fs, dest, port)].port == port,
        flow_index(fs, dest, port) < 0 ==> forall|k: int|
            0 <= k < fs.len() ==> !(fs[k].destination == dest && fs[k].port == port),
        forall|k: int|
            0 <= k < flow_index(fs, dest, port) ==> !(fs[k].destination == dest && fs[k].port
                == port),
    decreases fs.len(),
{
    if fs.len() > 0 {
        lemma_flow_index(fs.drop_last(), dest, port);
        assert forall|k: int| 0 <= k < fs.len() - 1 implies fs.drop_last()[k] == fs[k] by {}
    }
}

proof fn lemma_no_connection(cs: Seq<Connection>, dest: Seq<char>, port: u16)
    requires
        forall|k: int| 0 <= k < cs.len() ==> !(cs[k].remote_addr@ == dest && cs[k].remote_port == port),
    ensures
        connections_to(cs, dest, port) == 0,
    decreases cs.len(),
{
    if cs.len() > 0 {
        assert forall|k: int| 0 <= k < cs.len() - 1 implies cs.drop_last()[k] == cs[k] by {}
        lemma_no_connection(cs.drop_last(), dest, port);
    }
}

/// The flows have distinct destination/port keys, each flow counts exactly
/// the connections to its key and is classified by its port, and every
/// connection's key has a flow.
pub proof fn lemma_flows_count(cs: Seq<Connection>)
    ensures
        forall|i: int, j: int|
            0 <= i < j < flows_of(cs).len() ==> !(flows_of(cs)[i].destination == flows_of(
                cs,
            )[j].destination && flows_of(cs)[i].port == flows_of(cs)[j].port),
        forall|i: int|
            #![trigger flows_of(cs)[i]]
            0 <= i < flows_of(cs).len() ==> flows_of(cs)[i].connection_count == connections_to(
                cs,
                flows_of(cs)[i].destination,
                flows_of(cs)[i].port,
            ) && flows_of(cs)[i].class == port_class(flows_of(cs)[i].port)
                && flows_of(cs)[i].source == "localhost"@,
        forall|k: int|
            #![trigger cs[k]]
            0 <= k < cs.len() ==> flow_index(flows_of(cs), cs[k].remote_addr@, cs[k].remote_port)
                >= 0,
    decreases cs.len(),
{
    if cs.len() > 0 {
        let init = cs.drop_last();
        lemma_flows_count(init);
        assert forall|k: int| 0 <= k < init.len() implies init[k] == cs[k] by {}
        let prev = flows_of(init);
        let c = cs.last();
        let d = c.remote_addr@;
        let p = c.remote_port;
        lemma_flow_index(prev, d, p);
        let idx = flow_index(prev, d, p);
        let now = flows_of(cs);
        assert(now == add_connection(prev, d, p));
        if idx >= 0 {
            assert(now.len() == prev.len());
            assert forall|i: int| 0 <= i < now.len() implies now[i].destination == prev[i].destination
                && now[i].port == prev[i].port && now[i].class == prev[i].class && now[i].source
                == prev[i].source by {}
            assert forall|i: int| #![trigger now[i]] 0 <= i < now.len() implies now[i].connection_count
                == connections_to(cs, now[i].destination, now[i].port) by {
                if i == idx {
                } else {
                    assert(!(prev[i].destination == d && prev[i].port == p));
                }
            }
            assert forall|k: int| #![trigger cs[k]] 0 <= k < cs.len() implies flow_index(
                now,
                cs[k].remote_addr@,
                cs[k].remote_port,
            ) >= 0 by {
                let dk = cs[k].remote_addr@;
                let pk = cs[k].remote_port;
                lemma_flow_index(now, dk, pk);
                if k < init.len() {
                    assert(init[k] == cs[k]);
                    lemma_flow_index(prev, dk, pk);
                    let x = flow_index(prev, dk, pk);
                    assert(now[x].destination == dk && now[x].port == pk);
                } else {
                    assert(now[idx].destination == dk && now[idx].port == pk);
                }
            }
        } else {
            assert(now == prev.push(
                TrafficFlowView {
                    source: "localhost"@,
                    destination: d,
                    port: p,
                    class: port_class(p),
                    connection_count: 1,
                },
            ));
            assert forall|k: int| 0 <= k < init.len() implies !(init[k].remote_addr@ == d
                && init[k].remote_port == p) by {
                assert(init[k] == cs[k]);
                let x = flow_index(prev, init[k].remote_addr@, init[k].remote_port);
                lemma_flow_index(prev, init[k].remote_addr@, init[k].remote_port);
                if init[k].remote_addr@ == d && init[k].remote_port == p {
                    assert(prev[x].destination == d && prev[x].port == p);
                }
            }
            lemma_no_connection(init, d, p);
            assert forall|i: int| #![trigger now[i]] 0 <= i < now.len() implies now[i].connection_count
                == connections_to(cs, now[i].destination, now[i].port) by {
                if i < prev.len() {
                    assert(now[i] == prev[i]);
                    assert(!(prev[i].destination == d && prev[i].port == p));
                }
            }
            assert forall|k: int| #![trigger cs[k]] 0 <= k < cs.len() implies flow_index(
                now,
                cs[k].remote_addr@,
                cs[k].remote_port,
            ) >= 0 by {
                let dk = cs[k].remote_addr@;
                let pk = cs[k].remote_port;
                lemma_flow_index(now, dk, pk);
                if k < init.len() {
                    assert(init[k] == cs[k]);
                    lemma_flow_index(prev, dk, pk);
                    let x = flow_index(prev, dk, pk);
                    assert(now[x] == prev[x]);
                } else {
                    assert(now[prev.len() as int].destination == dk);
                }
            }
        }
    }
}

fn find_flow(flows: &Vec<TrafficFlow>, dest: &String, port: u16) -> (r: Option<usize>)
    ensures
        r matches Some(i) ==> i < flows@.len(),
        match r {
            Some(i) => i as int == flow_index(flows_view(flows@), dest@, port),
            None => flow_index(flows_view(flows@), dest@, port) < 0,
        },
{
    let mut i: usize = 0;
    while i < flows.len()
        invariant
            i <= flows@.len(),
            forall|k: int|
                0 <= k < i ==> !(flows@[k].destination@ == dest@ && flows@[k].port == port),
        decreases flows@.len() - i,
    {
        if flows[i].port == port && flows[i].destination == *dest {
            proof {
                let fv = flows_view(flows@);
                lemma_flow_index(fv, dest@, port);
                assert(fv[i as int].destination == dest@ && fv[i as int].port == port);
                assert forall|k: int| 0 <= k < i implies !(fv[k].destination == dest@ && fv[k].port == port) by {
                    assert(fv[k].destination == flows@[k].destination@);
                }
            }
            return Some(i);
        }
        i = i + 1;
    }
    proof {
        let fv = flows_view(flows@);
        lemma_flow_index(fv, dest@, port);
        let x = flow_index(fv, dest@, port);
        if x >= 0 {
            assert(fv[x].destination == flows@[x].destination@);
        }
    }
    None
}

/// Groups connections into flows by remote address and port: one flow per
/// distinct pair, in order of first appearance, with source `localhost`,
/// the class of the port and the number of connections to the pair.
pub fn build_traffic_flows(connections: &Vec<Connection>) -> (r: Vec<TrafficFlow>)
    ensures
        flows_view(r@) == flows_of(connections@),
{
    let mut flows: Vec<TrafficFlow> = Vec::new();
    let mut i: usize = 0;
    while i < connections.len()
        invariant
            i <= connections@.len(),
            flows_view(flows@) == flows_of(connections@.subrange(0, i as int)),
            flows@.len() <= i,
            forall|k: int| 0 <= k < flows@.len() ==> flows@[k].connection_count <= i,
        decreases connections@.len() - i,
    {
        let c = &connections[i];
        let ghost pre = connections@.subrange(0, i + 1);
        assert(pre.drop_last() =~= connections@.subrange(0, i as int));
        let ghost before = flows_view(flows@);
        match find_flow(&flows, &c.remote_addr, c.remote_port) {
            Some(j) => {
                let f = TrafficFlow {
                    source: flows[j].source.clone(),
                    destination: flows[j].destination.clone(),
                    port: flows[j].port,
                    class: flows[j].class,
                    connection_count: flows[j].connection_count + 1,
                };
                flows.set(j, f);
                assert(flows_view(flows@) =~= before.update(
                    j as int,
                    TrafficFlowView { connection_count: before[j as int].connection_count + 1, ..before[j as int] },
                ));
            },
            None => {
                let f = TrafficFlow {
                    source: owned("localhost"),
                    destination: c.remote_addr.clone(),
                    port: c.remote_port,
                    class: classify_port(c.remote_port),
                    connection_count: 1,
                };
                flows.push(f);
                assert(flows_view(flows@) =~= before.push(f@));
            },
        }
        i = i + 1;
    }
    assert(connections@.subrange(0, connections@.len() as int) =~= connections@);
    flows
}

// ---------------------------------------------------------------------------
// Container attribution
// ---------------------------------------------------------------------------

/// Index of the first container whose process ids include `pid`, or -1.
pub open spec fn owner_index(owners: Seq<(String, Vec<u32>)>, pid: u32) -> int
    decreases owners.len(),
{
    if owners.len() == 0 {
        -1
    } else {
        let r = owner_index(owners.drop_last(), pid);
        if r >= 0 {
            r
        } else if owners.last().1@.contains(pid) {
            owners.len() - 1
        } else {
            -1
        }
    }
}

/// The connection after attribution: when it has a process id owned by some
/// container, the first such container's id; otherwise unchanged.
pub open spec fn attributed(c: Connection, owners: Seq<(String, Vec<u32>)>) -> Option<Seq<char>> {
    match c.pid {
        Some(pid) => if owner_index(owners, pid) >= 0 {
            Some(owners[owner_index(owners, pid)].0@)
        } else {
            crate::models::opt_str(c.container_id)
        },
        None => crate::models::opt_str(c.container_id),
    }
}

proof fn lemma_owner_index(owners: Seq<(String, Vec<u32>)>, pid: u32)
    ensures
        -1 <= owner_index(owners, pid) < owners.len(),
        owner_index(owners, pid) >= 0 ==> owners[owner_index(owners, pid)].1@.contains(pid),
        forall|k: int| 0 <= k < owner_index(owners, pid) ==> !owners[k].1@.contains(pid),
        owner_index(owners, pid) < 0 ==> forall|k: int| 0 <= k < owners.len() ==> !owners[k].1@.contains(pid),
    decreases owners.len(),
{
    if owners.len() > 0 {
        lemma_owner_index(owners.drop_last(), pid);
        assert forall|k: int| 0 <= k < owners.len() - 1 implies owners.drop_last()[k] == owners[k] by {}
    }
}

fn vec_contains_u32(v: &Vec<u32>, x: u32) -> (b: bool)
    ensures
        b == v@.contains(x),
{
    let mut i: usize = 0;
    while i < v.len()
        invariant
            i <= v@.len(),
            forall|k: int| 0 <= k < i ==> v@[k] != x,
        decreases v@.len() - i,
    {
        if v[i] == x {
            return true;
        }
        i = i + 1;
    }
    false
}

fn find_owner(owners: &Vec<(String, Vec<u32>)>, pid: u32) -> (r: Option<usize>)
    ensures
        match r {
            Some(i) => i < owners@.len() && i as int == owner_index(owners@, pid),
            None => owner_index(owners@, pid) < 0,
        },
{
    proof {
        lemma_owner_index(owners@, pid);
    }
    let mut i: usize = 0;
    while i < owners.len()
        invariant
            i <= owners@.len(),
            forall|k: int| 0 <= k < i ==> !owners@[k].1@.contains(pid),
            -1 <= owner_index(owners@, pid) < owners@.len(),
            owner_index(owners@, pid) >= 0 ==> owners@[owner_index(owners@, pid)].1@.contains(pid),
            forall|k: int| 0 <= k < owner_index(owners@, pid) ==> !owners@[k].1@.contains(pid),
            owner_index(owners@, pid) < 0 ==> forall|k: int| 0 <= k < owners@.len() ==> !owners@[k].1@.contains(pid),
        decreases owners@.len() - i,
    {
        if vec_contains_u32(&owners[i].1, pid) {
            return Some(i);
        }
        i = i + 1;
    }
    None
}

/// Attributes connections to containers: a connection whose owning process
/// id belongs to a container gets that container's id (the first such
/// container in `container_pids`); every other field, and every other
/// connection, is left as it was.
pub fn resolve_container_connections(
    connections: &mut Vec<Connection>,
    container_pids: &Vec<(String, Vec<u32>)>,
)
    ensures
        final(connections)@.len() == old(connections)@.len(),
        forall|i: int|
            #![trigger final(connections)@[i]]
            0 <= i < old(connections)@.len() ==> {
                let a = final(connections)@[i];
                let b = old(connections)@[i];
                &&& crate::models::opt_str(a.container_id) == attributed(b, container_pids@)
                &&& a.local_addr@ == b.local_addr@ && a.local_port == b.local_port
                &&& a.remote_addr@ == b.remote_addr@ && a.remote_port == b.remote_port
                &&& a.state == b.state && a.inode == b.inode && a.pid == b.pid
            },
{
    let ghost orig = connections@;
    let mut i: usize = 0;
    while i < connections.len()
        invariant
            i <= connections@.len(),
            connections@.len() == orig.len(),
            forall|k: int|
                #![trigger connections@[k]]
                0 <= k < i ==> {
                    let a = connections@[k];
                    let b = orig[k];
                    &&& crate::models::opt_str(a.container_id) == attributed(b, container_pids@)
                    &&& a.local_addr@ == b.local_addr@ && a.local_port == b.local_port
                    &&& a.remote_addr@ == b.remote_addr@ && a.remote_port == b.remote_port
                    &&& a.state == b.state && a.inode == b.inode && a.pid == b.pid
                },
            forall|k: int| i <= k < orig.len() ==> connections@[k] == orig[k],
        decreases orig.len() - i,
    {
        if let Some(pid) = connections[i].pid {
            match find_owner(container_pids, pid) {
                Some(j) => {
                    let c = &connections[i];
                    let updated = Connection {
                        local_addr: c.local_addr.clone(),
                        local_port: c.local_port,
                        remote_addr: c.remote_addr.clone(),
                        remote_port: c.remote_port,
                        state: c.state,
                        inode: c.inode,
                        pid: c.pid,
                        container_id: Some(container_pids[j].0.clone()),
                    };
                    connections.set(i, updated);
                },
                None => {},
            }
        }
        i = i + 1;
    }
}

/// A name lookup answered from local configuration; the addresses are kept
/// in their textual form.
#[derive(Clone, Debug)]
pub struct DnsQuery {
    pub query: String,
    pub query_type: String,
    pub response: Vec<String>,
}

/// Connections, the flows they form, and known name lookups.
#[derive(Clone, Debug)]
pub struct NetworkAnalysis {
    pub connections: Vec<Connection>,
    pub flows: Vec<TrafficFlow>,
    pub dns_queries: Vec<DnsQuery>,
}

/// Classifies and attributes network traffic.
pub struct NetworkIntelligenceEngine;

impl NetworkIntelligenceEngine {
    /// An engine.
    pub fn new() -> Self {
        NetworkIntelligenceEngine
    }

    /// The traffic flows of the connections.
    pub fn classify_flows(&self, connections: &Vec<Connection>) -> (r: Vec<TrafficFlow>)
        ensures
            flows_view(r@) == flows_of(connections@),
    {
        build_traffic_flows(connections)
    }

    /// The analysis of the connections the kernel reported: connections
    /// attributed to containers by process id, the flows of the attributed
    /// connections, and the known name lookups unchanged.
    pub fn analyze(
        &self,
        connections: Vec<Connection>,
        container_pids: &Vec<(String, Vec<u32>)>,
        dns_queries: Vec<DnsQuery>,
    ) -> (r: NetworkAnalysis)
        ensures
            r.connections@.len() == connections@.len(),
            forall|i: int|
                #![trigger r.connections@[i]]
                0 <= i < connections@.len() ==> {
                    let a = r.connections@[i];
                    let b = connections@[i];
                    &&& crate::models::opt_str(a.container_id) == attributed(b, container_pids@)
                    &&& a.local_addr@ == b.local_addr@ && a.local_port == b.local_port
                    &&& a.remote_addr@ == b.remote_addr@ && a.remote_port == b.remote_port
                    &&& a.state == b.state && a.inode == b.inode && a.pid == b.pid
                },
            flows_view(r.flows@) == flows_of(r.connections@),
            r.dns_queries@ == dns_queries@,
    {
        let mut connections = connections;
        resolve_container_connections(&mut connections, container_pids);
        let flows = build_traffic_flows(&connections);
        NetworkAnalysis { connections, flows, dns_queries }
    }
}

} // verus!
