//! Grouping of services by class, network and exposure.

use vstd::prelude::*;

use crate::models::{
    class_name, class_name_spec, services_view, strs, ExposureState, InfraGraph, Service,
    ServiceClass, ServiceView,
};
use crate::text::owned;
use crate::visualization::{tgroups, NodeGroup, NodeGroupView};

verus! {

/// The distinct classes of the services, in order of first appearance.
pub open spec fn classes_seen(ss: Seq<ServiceView>) -> Seq<ServiceClass>
    decreases ss.len(),
{
    if ss.len() == 0 {
        Seq::empty()
    } else {
        let prev = classes_seen(ss.drop_last());
        if prev.contains(ss.last().class) {
            prev
        } else {
            prev.push(ss.last().class)
        }
    }
}

/// The ids of the services of a class, in order.
pub open spec fn ids_of_class(ss: Seq<ServiceView>, c: ServiceClass) -> Seq<Seq<char>>
    decreases ss.len(),
{
    if ss.len() == 0 {
        Seq::empty()
    } else {
        let prev = ids_of_class(ss.drop_last(), c);
        if ss.last().class == c {
            prev.push(ss.last().id)
        } else {
            prev
        }
    }
}

/// Number of services of a class.
pub open spec fn class_count(ss: Seq<ServiceView>, c: ServiceClass) -> nat
    decreases ss.len(),
{
    if ss.len() == 0 {
        0
    } else {
        class_count(ss.drop_last(), c) + if ss.last().class == c {
            1nat
        } else {
            0nat
        }
    }
}

/// Some service of class `c` has the id.
pub open spec fn has_service_of_class(ss: Seq<ServiceView>, c: ServiceClass, id: Seq<char>) -> bool {
    exists|k: int| 0 <= k < ss.len() && ss[k].class == c && ss[k].id == id
}

/// Every service is listed in the group of its class, which is one of the
/// class groups; a class group lists only services of its class, once per
/// service: it holds as many ids as there are services of the class.
pub proof fn law_class_groups_list_every_service(ss: Seq<ServiceView>)
    ensures
        forall|i: int|
            #![trigger ss[i]]
            0 <= i < ss.len() ==> classes_seen(ss).contains(ss[i].class) && class_group(
                ss,
                ss[i].class,
            ).id == "class_"@ + class_name_spec(ss[i].class) && class_group(
                ss,
                ss[i].class,
            ).node_ids.contains(ss[i].id),
        forall|c: ServiceClass, k: int|
            0 <= k < ids_of_class(ss, c).len() ==> has_service_of_class(
                ss,
                c,
                #[trigger] ids_of_class(ss, c)[k],
            ),
        forall|c: ServiceClass| #[trigger] ids_of_class(ss, c).len() == class_count(ss, c),
    decreases ss.len(),
{
    if ss.len() > 0 {
        let init = ss.drop_last();
        law_class_groups_list_every_service(init);
        let last = ss.last();
        assert forall|i: int| #![trigger ss[i]] 0 <= i < ss.len() implies classes_seen(ss).contains(
            ss[i].class,
        ) && class_group(ss, ss[i].class).node_ids.contains(ss[i].id) by {
            let cs = classes_seen(ss);
            let pcs = classes_seen(init);
            let ids = ids_of_class(ss, ss[i].class);
            let pids = ids_of_class(init, ss[i].class);
            if i < init.len() {
                assert(init[i] == ss[i]);
                assert(pcs.contains(init[i].class));
                let x = choose|x: int| 0 <= x < pcs.len() && pcs[x] == init[i].class;
                if !pcs.contains(last.class) {
                    assert(cs[x] == pcs[x]);
                }
                assert(pids.contains(init[i].id));
                let y = choose|y: int| 0 <= y < pids.len() && pids[y] == init[i].id;
                if last.class == ss[i].class {
                    assert(ids[y] == pids[y]);
                }
            } else {
                if !pcs.contains(last.class) {
                    assert(cs[cs.len() - 1] == last.class);
                }
                assert(ids[ids.len() - 1] == last.id);
            }
        }
        assert forall|c: ServiceClass, k: int| 0 <= k < ids_of_class(ss, c).len() implies has_service_of_class(
            ss,
            c,
            #[trigger] ids_of_class(ss, c)[k],
        ) by {
            let pids = ids_of_class(init, c);
            if k < pids.len() {
                assert(ids_of_class(ss, c)[k] == pids[k]);
                assert(has_service_of_class(init, c, pids[k]));
                let x = choose|x: int| 0 <= x < init.len() && init[x].class == c && init[x].id == pids[k];
                assert(ss[x] == init[x]);
            } else {
                assert(ss[ss.len() - 1] == last);
            }
        }
        assert forall|c: ServiceClass| #[trigger] ids_of_class(ss, c).len() == class_count(ss, c) by {
            assert(ids_of_class(init, c).len() == class_count(init, c));
        }
    }
}

/// The group of one class.
pub open spec fn class_group(ss: Seq<ServiceView>, c: ServiceClass) -> NodeGroupView {
    NodeGroupView {
        id: "class_"@ + class_name_spec(c),
        label: class_name_spec(c),
        node_ids: ids_of_class(ss, c),
        group_type: "class"@,
    }
}

/// All networks named by the services, service by service, with repeats.
pub open spec fn all_networks(ss: Seq<ServiceView>) -> Seq<Seq<char>>
    decreases ss.len(),
{
    if ss.len() == 0 {
        Seq::empty()
    } else {
        all_networks(ss.drop_last()) + ss.last().networks
    }
}

/// The distinct elements of a sequence, in order of first appearance.
pub open spec fn distinct(v: Seq<Seq<char>>) -> Seq<Seq<char>>
    decreases v.len(),
{
    if v.len() == 0 {
        Seq::empty()
    } else {
        let prev = distinct(v.drop_last());
        if prev.contains(v.last()) {
            prev
        } else {
            prev.push(v.last())
        }
    }
}

/// The id repeated once for each time `net` is listed in `nets`.
pub open spec fn id_per_listing(id: Seq<char>, nets: Seq<Seq<char>>, net: Seq<char>) -> Seq<Seq<char>>
    decreases nets.len(),
{
    if nets.len() == 0 {
        Seq::empty()
    } else {
        let prev = id_per_listing(id, nets.drop_last(), net);
        if nets.last() == net {
            prev.push(id)
        } else {
            prev
        }
    }
}

/// The members of a network: each service's id once per listing of the
/// network among its networks, in order.
pub open spec fn network_members(ss: Seq<ServiceView>, net: Seq<char>) -> Seq<Seq<char>>
    decreases ss.len(),
{
    if ss.len() == 0 {
        Seq::empty()
    } else {
        network_members(ss.drop_last(), net) + id_per_listing(ss.last().id, ss.last().networks, net)
    }
}

/// The group of one network.
pub open spec fn network_group(ss: Seq<ServiceView>, net: Seq<char>) -> NodeGroupView {
    NodeGroupView {
        id: "net_"@ + net,
        label: "Network: "@ + net,
        node_ids: network_members(ss, net),
        group_type: "network"@,
    }
}

/// The ids of the services whose exposure is (or, with `exposed` false, is
/// not) `Exposed`, in order.
pub open spec fn ids_by_exposure(ss: Seq<ServiceView>, exposed: bool) -> Seq<Seq<char>>
    decreases ss.len(),
{
    if ss.len() == 0 {
        Seq::empty()
    } else {
        let prev = ids_by_exposure(ss.drop_last(), exposed);
        if (ss.last().exposure_state == ExposureState::Exposed) == exposed {
            prev.push(ss.last().id)
        } else {
            prev
        }
    }
}

/// The exposure groups split the services: each service is either exposed
/// or internal, so the two lists together are as long as the services.
pub proof fn law_exposure_split(ss: Seq<ServiceView>)
    ensures
        ids_by_exposure(ss, true).len() + ids_by_exposure(ss, false).len() == ss.len(),
    decreases ss.len(),
{
    if ss.len() > 0 {
        law_exposure_split(ss.drop_last());
    }
}

/// The exposure groups: `Exposed` then `Internal`, each only when not empty.
pub open spec fn exposure_groups(ss: Seq<ServiceView>) -> Seq<NodeGroupView> {
    let e = ids_by_exposure(ss, true);
    let i = ids_by_exposure(ss, false);
    let ge = NodeGroupView {
        id: "exposure_exposed"@,
        label: "Exposed"@,
        node_ids: e,
        group_type: "exposure"@,
    };
    let gi = NodeGroupView {
        id: "exposure_internal"@,
        label: "Internal"@,
        node_ids: i,
        group_type: "exposure"@,
    };
    let first = if e.len() > 0 {
        seq![ge]
    } else {
        Seq::empty()
    };
    if i.len() > 0 {
        first.push(gi)
    } else {
        first
    }
}

fn class_members(services: &Vec<Service>, c: ServiceClass) -> (r: Vec<String>)
    ensures
        strs(r@) == ids_of_class(services_view(services@), c),
{
    let ghost ss = services_view(services@);
    let mut r: Vec<String> = Vec::new();
    let mut i: usize = 0;
    while i < services.len()
        invariant
            i <= services@.len(),
            ss == services_view(services@),
            strs(r@) == ids_of_class(ss.subrange(0, i as int), c),
        decreases services@.len() - i,
    {
        let ghost pre = ss.subrange(0, i + 1);
        assert(pre.drop_last() =~= ss.subrange(0, i as int));
        assert(pre.last() == services@[i as int]@);
        if services[i].class == c {
            let ghost before = r@;
            r.push(services[i].id.clone());
            assert(strs(r@) =~= strs(before).push(services@[i as int].id@));
        }
        i = i + 1;
    }
    assert(ss.subrange(0, services@.len() as int) =~= ss);
    r
}

fn distinct_classes(services: &Vec<Service>) -> (r: Vec<ServiceClass>)
    ensures
        r@ == classes_seen(services_view(services@)),
{
    let ghost ss = services_view(services@);
    let mut r: Vec<ServiceClass> = Vec::new();
    let mut i: usize = 0;
    while i < services.len()
        invariant
            i <= services@.len(),
            ss == services_view(services@),
            r@ == classes_seen(ss.subrange(0, i as int)),
        decreases services@.len() - i,
    {
        let ghost pre = ss.subrange(0, i + 1);
        assert(pre.drop_last() =~= ss.subrange(0, i as int));
        assert(pre.last() == services@[i as int]@);
        let c = services[i].class;
        let mut found = false;
        let mut k: usize = 0;
        while k < r.len()
            invariant
                k <= r@.len(),
                found == exists|x: int| 0 <= x < k && r@[x] == c,
            decreases r@.len() - k,
        {
            let m = r[k] == c;
            proof {
                if m {
                    assert(r@[k as int] == c);
                }
            }
            found = found || m;
            k = k + 1;
        }
        proof {
            if found {
                let x = choose|x: int| 0 <= x < r@.len() && r@[x] == c;
                assert(r@.contains(c));
            }
        }
        if !found {
            r.push(c);
        }
        i = i + 1;
    }
    assert(ss.subrange(0, services@.len() as int) =~= ss);
    r
}

fn contains_string(v: &Vec<String>, s: &String) -> (b: bool)
    ensures
        b == strs(v@).contains(s@),
{
    let mut k: usize = 0;
    while k < v.len()
        invariant
            k <= v@.len(),
            forall|x: int| 0 <= x < k ==> v@[x]@ != s@,
        decreases v@.len() - k,
    {
        if v[k] == *s {
            assert(strs(v@)[k as int] == s@);
            return true;
        }
        k = k + 1;
    }
    proof {
        if strs(v@).contains(s@) {
            let x = choose|x: int| 0 <= x < strs(v@).len() && strs(v@)[x] == s@;
            assert(v@[x]@ == s@);
        }
    }
    false
}

fn distinct_networks(services: &Vec<Service>) -> (r: Vec<String>)
    ensures
        strs(r@) == distinct(all_networks(services_view(services@))),
{
    let ghost ss = services_view(services@);
    let mut r: Vec<String> = Vec::new();
    let mut i: usize = 0;
    while i < services.len()
        invariant
            i <= services@.len(),
            ss == services_view(services@),
            strs(r@) == distinct(all_networks(ss.subrange(0, i as int))),
        decreases services@.len() - i,
    {
        let ghost pre = ss.subrange(0, i + 1);
        assert(pre.drop_last() =~= ss.subrange(0, i as int));
        let s = &services[i];
        assert(pre.last() == s@);
        let ghost base = all_networks(ss.subrange(0, i as int));
        let ghost nets = strs(s.networks@);
        let mut j: usize = 0;
        while j < s.networks.len()
            invariant
                j <= s.networks@.len(),
                nets == strs(s.networks@),
                strs(r@) == distinct(base + nets.subrange(0, j as int)),
            decreases s.networks@.len() - j,
        {
            let ghost cur = base + nets.subrange(0, j + 1);
            assert(cur.drop_last() =~= base + nets.subrange(0, j as int));
            assert(cur.last() == s.networks@[j as int]@);
            if !contains_string(&r, &s.networks[j]) {
                let ghost before = r@;
                r.push(s.networks[j].clone());
                assert(strs(r@) =~= strs(before).push(s.networks@[j as int]@));
            }
            j = j + 1;
        }
        assert(nets.subrange(0, s.networks@.len() as int) =~= nets);
        i = i + 1;
    }
    assert(ss.subrange(0, services@.len() as int) =~= ss);
    r
}

fn members_of_network(services: &Vec<Service>, net: &String) -> (r: Vec<String>)
    ensures
        strs(r@) == network_members(services_view(services@), net@),
{
    let ghost ss = services_view(services@);
    let mut r: Vec<String> = Vec::new();
    let mut i: usize = 0;
    while i < services.len()
        invariant
            i <= services@.len(),
            ss == services_view(services@),
            strs(r@) == network_members(ss.subrange(0, i as int), net@),
        decreases services@.len() - i,
    {
        let ghost pre = ss.subrange(0, i + 1);
        assert(pre.drop_last() =~= ss.subrange(0, i as int));
        let s = &services[i];
        assert(pre.last() == s@);
        let ghost base = strs(r@);
        let ghost nets = strs(s.networks@);
        let mut j: usize = 0;
        while j < s.networks.len()
            invariant
                j <= s.networks@.len(),
                nets == strs(s.networks@),
                strs(r@) == base + id_per_listing(s.id@, nets.subrange(0, j as int), net@),
            decreases s.networks@.len() - j,
        {
            let ghost sub = nets.subrange(0, j + 1);
            assert(sub.drop_last() =~= nets.subrange(0, j as int));
            assert(sub.last() == s.networks@[j as int]@);
            if s.networks[j] == *net {
                let ghost before = r@;
                r.push(s.id.clone());
                assert(strs(r@) =~= strs(before).push(s.id@));
            }
            j = j + 1;
        }
        assert(nets.subrange(0, s.networks@.len() as int) =~= nets);
        i = i + 1;
    }
    assert(ss.subrange(0, services@.len() as int) =~= ss);
    r
}

fn exposure_members(services: &Vec<Service>, exposed: bool) -> (r: Vec<String>)
    ensures
        strs(r@) == ids_by_exposure(services_view(services@), exposed),
{
    let ghost ss = services_view(services@);
    let mut r: Vec<String> = Vec::new();
    let mut i: usize = 0;
    while i < services.len()
        invariant
            i <= services@.len(),
            ss == services_view(services@),
            strs(r@) == ids_by_exposure(ss.subrange(0, i as int), exposed),
        decreases services@.len() - i,
    {
        let ghost pre = ss.subrange(0, i + 1);
        assert(pre.drop_last() =~= ss.subrange(0, i as int));
        assert(pre.last() == services@[i as int]@);
        let is_exposed = match services[i].exposure_state {
            ExposureState::Exposed => true,
            _ => false,
        };
        if is_exposed == exposed {
            let ghost before = r@;
            r.push(services[i].id.clone());
            assert(strs(r@) =~= strs(before).push(services@[i as int].id@));
        }
        i = i + 1;
    }
    assert(ss.subrange(0, services@.len() as int) =~= ss);
    r
}

/// Groups the services of a graph for drawing.
pub struct NodeClusterer;

impl NodeClusterer {
    /// A clusterer.
    pub fn new() -> Self {
        NodeClusterer
    }

    /// One group per service class present, in order of first appearance,
    /// holding the ids of the services of that class.
    pub fn cluster_by_class(&self, graph: &InfraGraph) -> (r: Vec<NodeGroup>)
        ensures
            tgroups(r@) == classes_seen(services_view(graph.services@)).map_values(
                |c: ServiceClass| class_group(services_view(graph.services@), c),
            ),
    {
        let ghost ss = services_view(graph.services@);
        let classes = distinct_classes(&graph.services);
        let mut r: Vec<NodeGroup> = Vec::new();
        let mut i: usize = 0;
        while i < classes.len()
            invariant
                i <= classes@.len(),
                ss == services_view(graph.services@),
                classes@ == classes_seen(ss),
                r@.len() == i,
                forall|k: int| 0 <= k < i ==> #[trigger] r@[k]@ == class_group(ss, classes@[k]),
            decreases classes@.len() - i,
        {
            let c = classes[i];
            let mut id = owned("class_");
            let name = class_name(c);
            id.append(name.as_str());
            let g = NodeGroup {
                id,
                label: class_name(c),
                node_ids: class_members(&graph.services, c),
                group_type: owned("class"),
            };
            r.push(g);
            i = i + 1;
        }
        assert(tgroups(r@) =~= classes_seen(ss).map_values(|c: ServiceClass| class_group(ss, c)));
        r
    }

    /// One group per network that some service is attached to, in order of
    /// first appearance; a service is listed once per time it names the
    /// network.
    pub fn cluster_by_network(&self, graph: &InfraGraph) -> (r: Vec<NodeGroup>)
        ensures
            tgroups(r@) == distinct(all_networks(services_view(graph.services@))).map_values(
                |n: Seq<char>| network_group(services_view(graph.services@), n),
            ),
    {
        let ghost ss = services_view(graph.services@);
        let nets = distinct_networks(&graph.services);
        let mut r: Vec<NodeGroup> = Vec::new();
        let mut i: usize = 0;
        while i < nets.len()
            invariant
                i <= nets@.len(),
                ss == services_view(graph.services@),
                strs(nets@) == distinct(all_networks(ss)),
                r@.len() == i,
                forall|k: int| 0 <= k < i ==> #[trigger] r@[k]@ == network_group(ss, nets@[k]@),
            decreases nets@.len() - i,
        {
            let n = &nets[i];
            let mut id = owned("net_");
            id.append(n.as_str());
            let mut label = owned("Network: ");
            label.append(n.as_str());
            let g = NodeGroup {
                id,
                label,
                node_ids: members_of_network(&graph.services, n),
                group_type: owned("network"),
            };
            r.push(g);
            i = i + 1;
        }
        assert(tgroups(r@) =~= strs(nets@).map_values(|n: Seq<char>| network_group(ss, n)));
        r
    }

    /// The exposed services, then the others, as two groups; a group with
    /// no member is left out.
    pub fn cluster_by_exposure(&self, graph: &InfraGraph) -> (r: Vec<NodeGroup>)
        ensures
            tgroups(r@) == exposure_groups(services_view(graph.services@)),
    {
        let exposed = exposure_members(&graph.services, true);
        let internal = exposure_members(&graph.services, false);
        let mut r: Vec<NodeGroup> = Vec::new();
        if exposed.len() > 0 {
            r.push(
                NodeGroup {
                    id: owned("exposure_exposed"),
                    label: owned("Exposed"),
                    node_ids: exposed,
                    group_type: owned("exposure"),
                },
            );
        }
        if internal.len() > 0 {
            r.push(
                NodeGroup {
                    id: owned("exposure_internal"),
                    label: owned("Internal"),
                    node_ids: internal,
                    group_type: owned("exposure"),
                },
            );
        }
        assert(tgroups(r@) =~= exposure_groups(services_view(graph.services@)));
        r
    }

    /// The class groups, then the network groups, then the exposure groups.
    pub fn all_clusters(&self, graph: &InfraGraph) -> (r: Vec<NodeGroup>)
        ensures
            tgroups(r@) == classes_seen(services_view(graph.services@)).map_values(
                |c: ServiceClass| class_group(services_view(graph.services@), c),
            ) + distinct(all_networks(services_view(graph.services@))).map_values(
                |n: Seq<char>| network_group(services_view(graph.services@), n),
            ) + exposure_groups(services_view(graph.services@)),
    {
        let mut groups = self.cluster_by_class(graph);
        let mut by_network = self.cluster_by_network(graph);
        let mut by_exposure = self.cluster_by_exposure(graph);
        let ghost a = tgroups(groups@);
        let ghost b = tgroups(by_network@);
        let ghost c = tgroups(by_exposure@);
        groups.append(&mut by_network);
        assert(tgroups(groups@) =~= a + b);
        groups.append(&mut by_exposure);
        assert(tgroups(groups@) =~= a + b + c);
        groups
    }
}

} // verus!
