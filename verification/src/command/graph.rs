//! Nodes, services and actions, gathered from the endpoints that discovery has found.

use crate::assoc::{as_map, has_key, key_at, lemma_as_map};
use crate::command::names::{
    action_endpoint, classify_action_endpoint, classify_service_endpoint, full_node_name,
    node_path, normalize_topic_name, normalize_type_name, ros_topic_name, ros_type_name,
    service_endpoint, ActionRole, ServiceRole,
};
use crate::command::protocol::{
    ActionDetails, ActionInfo, NodeDetails, NodeEndpointSummary, NodeServiceInfo, ServiceInfo,
};
use crate::command::endpoints::{endpoint_node, node_of_endpoint};
use crate::common::TopicGid;
use crate::discovery::tables::{
    endpoint_with, DiscoveryTable, EndpointEntry, NodeEntry, NodeTable,
};
use crate::sorted::{
    is_listing, lemma_sorted_unique, shapes, sorted_keys, sorted_list, sorted_texts, text_before,
    ScopedName, SortKey, SortedTable, TextSet,
};
use crate::text::{text_opt, texts};
use vstd::prelude::*;
use vstd::string::*;

verus! {

/// The ROS name of an endpoint's topic.
pub open spec fn endpoint_topic(endpoint: EndpointEntry) -> Option<Seq<char>> {
    match endpoint.topic_name {
        Some(topic_name) => ros_topic_name(topic_name@),
        None => None,
    }
}

/// The ROS type of an endpoint, or a dash.
pub open spec fn endpoint_type_or_dash(endpoint: EndpointEntry) -> Seq<char> {
    match endpoint.ros_type {
        Some(ros_type) => ros_type_name(ros_type@),
        None => "-"@,
    }
}

fn topic_of_endpoint(endpoint: &EndpointEntry) -> (r: Option<String>)
    ensures
        text_opt(r) == endpoint_topic(*endpoint),
{
    match &endpoint.topic_name {
        Some(topic_name) => normalize_topic_name(topic_name.as_str()),
        None => None,
    }
}

fn type_of_endpoint(endpoint: &EndpointEntry) -> (r: String)
    ensures
        r@ == endpoint_type_or_dash(*endpoint),
{
    match &endpoint.ros_type {
        Some(ros_type) => normalize_type_name(ros_type.as_str()),
        None => "-".to_owned(),
    }
}

// Tables of names.

/// A table from names to types.
type NameTable = SortedTable<String, String>;

/// The types by name.
spec fn name_map(table: NameTable) -> Map<Seq<char>, Seq<char>> {
    table@.map_values(|ros_type: String| ros_type@)
}

fn put_name(table: &mut NameTable, name: String, ros_type: String)
    requires
        old(table).wf(),
    ensures
        final(table).wf(),
        name_map(*final(table)) == name_map(*old(table)).insert(name@, ros_type@),
{
    table.put(name, ros_type);
    assert(name_map(*table) =~= name_map(*old(table)).insert(name@, ros_type@));
}

fn put_name_if_absent(table: &mut NameTable, name: &String, ros_type: &String)
    requires
        old(table).wf(),
    ensures
        final(table).wf(),
        name_map(*final(table)) == with_first(name_map(*old(table)), name@, ros_type@),
{
    if !table.contains(name) {
        table.put(name.clone(), ros_type.clone());
        assert(name_map(*table) =~= name_map(*old(table)).insert(name@, ros_type@));
    }
}

/// The map with an entry for the key, unless it has one.
pub open spec fn with_first(
    map: Map<Seq<char>, Seq<char>>,
    name: Seq<char>,
    ros_type: Seq<char>,
) -> Map<Seq<char>, Seq<char>> {
    if map.contains_key(name) {
        map
    } else {
        map.insert(name, ros_type)
    }
}

/// Listing a map of values lists the map of their views.
proof fn lemma_listing_views<K: SortKey, V, W>(
    pairs: Seq<(K::Shape, V)>,
    map: Map<K::Shape, V>,
    view: spec_fn(V) -> W,
)
    requires
        is_listing::<K, V>(pairs, map),
    ensures
        is_listing::<K, W>(
            pairs.map_values(|pair: (K::Shape, V)| (pair.0, view(pair.1))),
            map.map_values(view),
        ),
    decreases pairs.len(),
{
    let out = pairs.map_values(|pair: (K::Shape, V)| (pair.0, view(pair.1)));
    assert(sorted_keys::<K, W>(out)) by {
        assert forall|i: int, j: int| 0 <= i < j < out.len() implies K::before(
            (#[trigger] out[i]).0,
            (#[trigger] out[j]).0,
        ) by {
            assert(out[i].0 == pairs[i].0 && out[j].0 == pairs[j].0);
        }
    }
    if pairs.len() == 0 {
        assert(as_map(out) =~= map.map_values(view));
    } else {
        let before = pairs.drop_last();
        assert(sorted_keys::<K, V>(before)) by {
            assert forall|i: int, j: int| 0 <= i < j < before.len() implies K::before(
                (#[trigger] before[i]).0,
                (#[trigger] before[j]).0,
            ) by {
                assert(before[i] == pairs[i] && before[j] == pairs[j]);
            }
        }
        lemma_listing_views::<K, V, W>(before, as_map(before), view);
        assert(out.drop_last() =~= before.map_values(
            |pair: (K::Shape, V)| (pair.0, view(pair.1)),
        ));
        assert(as_map(out) =~= map.map_values(view));
    }
}

// Nodes.

/// What a node takes part in: the types by name.
#[verifier::ext_equal]
pub struct NodeTables {
    pub subscribers: Map<Seq<char>, Seq<char>>,
    pub publishers: Map<Seq<char>, Seq<char>>,
    pub service_servers: Map<Seq<char>, Seq<char>>,
    pub service_clients: Map<Seq<char>, Seq<char>>,
}

/// A node that takes part in nothing.
pub open spec fn no_tables() -> NodeTables {
    NodeTables {
        subscribers: Map::empty(),
        publishers: Map::empty(),
        service_servers: Map::empty(),
        service_clients: Map::empty(),
    }
}

/// What a node takes part in, with one more endpoint. Endpoints of actions are left
/// out, and those of services count as that.
pub open spec fn with_endpoint(
    tables: NodeTables,
    endpoint: EndpointEntry,
    is_reader: bool,
) -> NodeTables {
    let ros_type = endpoint_type_or_dash(endpoint);
    match endpoint_topic(endpoint) {
        None => tables,
        Some(name) => if action_endpoint(name, ros_type, is_reader) is Some {
            tables
        } else {
            match service_endpoint(name, ros_type, is_reader) {
                Some((service, service_type, role)) => match role {
                    ServiceRole::Server => NodeTables {
                        service_servers: tables.service_servers.insert(service, service_type),
                        ..tables
                    },
                    ServiceRole::Client => NodeTables {
                        service_clients: tables.service_clients.insert(service, service_type),
                        ..tables
                    },
                },
                None => if is_reader {
                    NodeTables { subscribers: tables.subscribers.insert(name, ros_type), ..tables }
                } else {
                    NodeTables { publishers: tables.publishers.insert(name, ros_type), ..tables }
                },
            }
        },
    }
}

/// What a node takes part in, with the endpoints that have the given identifiers.
pub open spec fn with_endpoints(
    tables: NodeTables,
    endpoints: Seq<EndpointEntry>,
    gids: Seq<TopicGid>,
    is_reader: bool,
) -> NodeTables
    decreases gids.len(),
{
    if gids.len() == 0 {
        tables
    } else {
        let before = with_endpoints(tables, endpoints, gids.drop_last(), is_reader);
        match endpoint_with(endpoints, gids.last()) {
            Some(endpoint) => with_endpoint(before, endpoint, is_reader),
            None => before,
        }
    }
}

/// What a node takes part in, with its readers first and its writers behind.
pub open spec fn with_node(
    tables: NodeTables,
    discovery_table: DiscoveryTable,
    node: NodeEntry,
) -> NodeTables {
    with_endpoints(
        with_endpoints(tables, discovery_table.subscriptions@, node.reader_gids@, true),
        discovery_table.publications@,
        node.writer_gids@,
        false,
    )
}

/// The namespace and the name of a node.
pub open spec fn node_shape(node: NodeEntry) -> (Seq<char>, Seq<char>) {
    (node.key.node_namespace@, node.key.node_name@)
}

/// What all nodes take part in, by namespace and name. Nodes of one name count as one.
pub open spec fn node_map(discovery_table: DiscoveryTable, nodes: Seq<NodeEntry>) -> Map<
    (Seq<char>, Seq<char>),
    NodeTables,
>
    decreases nodes.len(),
{
    if nodes.len() == 0 {
        Map::empty()
    } else {
        let before = node_map(discovery_table, nodes.drop_last());
        let key = node_shape(nodes.last());
        before.insert(
            key,
            with_node(
                if before.contains_key(key) {
                    before[key]
                } else {
                    no_tables()
                },
                discovery_table,
                nodes.last(),
            ),
        )
    }
}

/// The names and types of endpoints.
pub open spec fn endpoint_pairs(list: Seq<NodeEndpointSummary>) -> Seq<(Seq<char>, Seq<char>)> {
    list.map_values(|summary: NodeEndpointSummary| (summary.name@, summary.ros_type@))
}

/// The names and types of services.
pub open spec fn service_pairs(list: Seq<NodeServiceInfo>) -> Seq<(Seq<char>, Seq<char>)> {
    list.map_values(|service: NodeServiceInfo| (service.name@, service.ros_type@))
}

/// `details` lists what `tables` holds, each list in the order of names.
pub open spec fn lists_tables(details: NodeDetails, tables: NodeTables) -> bool {
    &&& is_listing::<String, Seq<char>>(endpoint_pairs(details.subscribers@), tables.subscribers)
    &&& is_listing::<String, Seq<char>>(endpoint_pairs(details.publishers@), tables.publishers)
    &&& is_listing::<String, Seq<char>>(
        service_pairs(details.service_servers@),
        tables.service_servers,
    )
    &&& is_listing::<String, Seq<char>>(
        service_pairs(details.service_clients@),
        tables.service_clients,
    )
}

/// `list` describes the nodes of `map`, each once, in the order of namespaces and names.
pub open spec fn lists_nodes(
    list: Seq<NodeDetails>,
    map: Map<(Seq<char>, Seq<char>), NodeTables>,
) -> bool {
    &&& forall|i: int, j: int|
        0 <= i < j < list.len() ==> ScopedName::before(
            ((#[trigger] list[i]).namespace@, list[i].name@),
            ((#[trigger] list[j]).namespace@, list[j].name@),
        )
    &&& forall|i: int|
        0 <= i < list.len() ==> map.contains_key(((#[trigger] list[i]).namespace@, list[i].name@))
            && lists_tables(list[i], map[(list[i].namespace@, list[i].name@)])
    &&& forall|key: (Seq<char>, Seq<char>)| #[trigger]
        map.contains_key(key) ==> exists|i: int|
            0 <= i < list.len() && ((#[trigger] list[i]).namespace@, list[i].name@) == key
}

struct NodeDetailsAccumulator {
    subscribers: NameTable,
    publishers: NameTable,
    service_servers: NameTable,
    service_clients: NameTable,
}

impl View for NodeDetailsAccumulator {
    type V = NodeTables;

    closed spec fn view(&self) -> NodeTables {
        NodeTables {
            subscribers: name_map(self.subscribers),
            publishers: name_map(self.publishers),
            service_servers: name_map(self.service_servers),
            service_clients: name_map(self.service_clients),
        }
    }
}

impl NodeDetailsAccumulator {
    spec fn wf(&self) -> bool {
        &&& self.subscribers.wf()
        &&& self.publishers.wf()
        &&& self.service_servers.wf()
        &&& self.service_clients.wf()
    }

    fn new() -> (r: NodeDetailsAccumulator)
        ensures
            r.wf(),
            r@ == no_tables(),
    {
        let r = NodeDetailsAccumulator {
            subscribers: SortedTable::new(),
            publishers: SortedTable::new(),
            service_servers: SortedTable::new(),
            service_clients: SortedTable::new(),
        };
        assert(r@ =~= no_tables());
        r
    }

    fn add_endpoint(&mut self, endpoint: &EndpointEntry, is_reader: bool)
        requires
            old(self).wf(),
        ensures
            final(self).wf(),
            final(self)@ == with_endpoint(old(self)@, *endpoint, is_reader),
    {
        let name = match topic_of_endpoint(endpoint) {
            None => return,
            Some(name) => name,
        };
        let ros_type = type_of_endpoint(endpoint);
        if classify_action_endpoint(name.as_str(), ros_type.as_str(), is_reader).is_some() {
            return;
        }
        match classify_service_endpoint(name.as_str(), ros_type.as_str(), is_reader) {
            Some((service, service_type, role)) => match role {
                ServiceRole::Server => put_name(&mut self.service_servers, service, service_type),
                ServiceRole::Client => put_name(&mut self.service_clients, service, service_type),
            },
            None => if is_reader {
                put_name(&mut self.subscribers, name, ros_type);
            } else {
                put_name(&mut self.publishers, name, ros_type);
            },
        }
    }

    fn add_endpoints(
        &mut self,
        discovery_table: &DiscoveryTable,
        gids: &Vec<TopicGid>,
        is_reader: bool,
    )
        requires
            old(self).wf(),
        ensures
            final(self).wf(),
            final(self)@ == with_endpoints(
                old(self)@,
                if is_reader {
                    discovery_table.subscriptions@
                } else {
                    discovery_table.publications@
                },
                gids@,
                is_reader,
            ),
    {
        let ghost endpoints = if is_reader {
            discovery_table.subscriptions@
        } else {
            discovery_table.publications@
        };
        let mut i: usize = 0;
        while i < gids.len()
            invariant
                i <= gids.len(),
                endpoints == (if is_reader {
                    discovery_table.subscriptions@
                } else {
                    discovery_table.publications@
                }),
                self.wf(),
                self@ == with_endpoints(old(self)@, endpoints, gids@.take(i as int), is_reader),
            decreases gids.len() - i,
        {
            assert(gids@.take(i + 1).drop_last() =~= gids@.take(i as int));
            let found = if is_reader {
                discovery_table.subscription(&gids[i])
            } else {
                discovery_table.publication(&gids[i])
            };
            match found {
                Some(endpoint) => self.add_endpoint(endpoint, is_reader),
                None => {},
            }
            i += 1;
        }
        assert(gids@.take(i as int) =~= gids@);
    }
}

fn endpoint_summaries(table: NameTable) -> (r: Vec<NodeEndpointSummary>)
    requires
        table.wf(),
    ensures
        is_listing::<String, Seq<char>>(endpoint_pairs(r@), name_map(table)),
{
    let ghost map = table@;
    let mut entries = table.into_entries();
    let ghost pairs = shapes::<String, String>(entries@);
    let ghost all = entries@;
    proof {
        lemma_listing_views::<String, String, Seq<char>>(
            pairs,
            map,
            |ros_type: String| ros_type@,
        );
    }
    let mut r: Vec<NodeEndpointSummary> = Vec::new();
    while entries.len() > 0
        invariant
            r@.len() + entries@.len() == all.len(),
            entries@ == all.skip(r@.len() as int),
            forall|j: int|
                0 <= j < r@.len() ==> (#[trigger] r@[j]).name@ == all[j].0@ && r@[j].ros_type@
                    == all[j].1@,
        decreases entries.len(),
    {
        let (name, ros_type) = entries.remove(0);
        r.push(NodeEndpointSummary { name, ros_type });
    }
    assert(endpoint_pairs(r@) =~= pairs.map_values(
        |pair: (Seq<char>, String)| (pair.0, (|ros_type: String| ros_type@)(pair.1)),
    ));
    r
}

fn service_infos(table: NameTable) -> (r: Vec<NodeServiceInfo>)
    requires
        table.wf(),
    ensures
        is_listing::<String, Seq<char>>(service_pairs(r@), name_map(table)),
{
    let ghost map = table@;
    let mut entries = table.into_entries();
    let ghost pairs = shapes::<String, String>(entries@);
    let ghost all = entries@;
    proof {
        lemma_listing_views::<String, String, Seq<char>>(
            pairs,
            map,
            |ros_type: String| ros_type@,
        );
    }
    let mut r: Vec<NodeServiceInfo> = Vec::new();
    while entries.len() > 0
        invariant
            r@.len() + entries@.len() == all.len(),
            entries@ == all.skip(r@.len() as int),
            forall|j: int|
                0 <= j < r@.len() ==> (#[trigger] r@[j]).name@ == all[j].0@ && r@[j].ros_type@
                    == all[j].1@,
        decreases entries.len(),
    {
        let (name, ros_type) = entries.remove(0);
        r.push(NodeServiceInfo { name, ros_type });
    }
    assert(service_pairs(r@) =~= pairs.map_values(
        |pair: (Seq<char>, String)| (pair.0, (|ros_type: String| ros_type@)(pair.1)),
    ));
    r
}

/// The tables by node.
spec fn accumulated(table: SortedTable<ScopedName, NodeDetailsAccumulator>) -> Map<
    (Seq<char>, Seq<char>),
    NodeTables,
> {
    table@.map_values(|acc: NodeDetailsAccumulator| acc@)
}

/// The table is in order, and so is everything in it.
spec fn accumulators_wf(table: SortedTable<ScopedName, NodeDetailsAccumulator>) -> bool {
    table.wf() && forall|key: (Seq<char>, Seq<char>)| #[trigger]
        table@.contains_key(key) ==> table@[key].wf()
}

/// Adds what a node takes part in.
fn add_node(
    table: &mut SortedTable<ScopedName, NodeDetailsAccumulator>,
    discovery_table: &DiscoveryTable,
    node: &NodeEntry,
)
    requires
        accumulators_wf(*old(table)),
    ensures
        accumulators_wf(*final(table)),
        ({
            let before = accumulated(*old(table));
            let key = node_shape(*node);
            accumulated(*final(table)) == before.insert(
                key,
                with_node(
                    if before.contains_key(key) {
                        before[key]
                    } else {
                        no_tables()
                    },
                    *discovery_table,
                    *node,
                ),
            )
        }),
{
    let key = ScopedName {
        namespace: node.key.node_namespace.clone(),
        name: node.key.node_name.clone(),
    };
    let ghost shape = node_shape(*node);
    assert(key.shape() == shape);
    let mut acc = match table.take(&key) {
        Some(acc) => acc,
        None => NodeDetailsAccumulator::new(),
    };
    acc.add_endpoints(discovery_table, &node.reader_gids, true);
    acc.add_endpoints(discovery_table, &node.writer_gids, false);
    table.put(key, acc);
    assert(table@ =~= old(table)@.insert(shape, acc));
    assert(accumulated(*table) =~= accumulated(*old(table)).insert(shape, acc@));
}

proof fn lemma_nodes_listed(
    entries: Seq<(ScopedName, NodeDetailsAccumulator)>,
    list: Seq<NodeDetails>,
    map: Map<(Seq<char>, Seq<char>), NodeDetailsAccumulator>,
    tables: Map<(Seq<char>, Seq<char>), NodeTables>,
)
    requires
        is_listing::<ScopedName, NodeDetailsAccumulator>(
            shapes::<ScopedName, NodeDetailsAccumulator>(entries),
            map,
        ),
        tables == map.map_values(|acc: NodeDetailsAccumulator| acc@),
        list.len() == entries.len(),
        forall|i: int|
            0 <= i < list.len() ==> (#[trigger] list[i]).namespace@ == entries[i].0.namespace@
                && list[i].name@ == entries[i].0.name@ && lists_tables(list[i], entries[i].1@),
    ensures
        lists_nodes(list, tables),
{
    let pairs = shapes::<ScopedName, NodeDetailsAccumulator>(entries);
    lemma_sorted_unique::<ScopedName, NodeDetailsAccumulator>(pairs);
    lemma_as_map(pairs);
    assert forall|i: int, j: int| 0 <= i < j < list.len() implies ScopedName::before(
        ((#[trigger] list[i]).namespace@, list[i].name@),
        ((#[trigger] list[j]).namespace@, list[j].name@),
    ) by {
        assert(ScopedName::before(pairs[i].0, pairs[j].0));
    }
    assert forall|i: int| 0 <= i < list.len() implies tables.contains_key(
        ((#[trigger] list[i]).namespace@, list[i].name@),
    ) && lists_tables(list[i], tables[(list[i].namespace@, list[i].name@)]) by {
        assert(map.contains_key(pairs[i].0));
        assert(map[pairs[i].0] == pairs[i].1);
    }
    assert forall|key: (Seq<char>, Seq<char>)| #[trigger] tables.contains_key(
        key,
    ) implies exists|i: int|
        0 <= i < list.len() && ((#[trigger] list[i]).namespace@, list[i].name@) == key by {
        assert(map.contains_key(key));
        assert(has_key(pairs, key));
        let i = choose|i: int| key_at(pairs, i, key);
        assert((list[i].namespace@, list[i].name@) == key);
    }
}

/// Describes every node: what it reads, writes, offers and calls.
pub fn build_node_details(discovery_table: &DiscoveryTable, node_table: &NodeTable) -> (r: Vec<
    NodeDetails,
>)
    ensures
        lists_nodes(r@, node_map(*discovery_table, node_table.nodes@)),
{
    let mut by_node: SortedTable<ScopedName, NodeDetailsAccumulator> = SortedTable::new();
    let ghost nodes = node_table.nodes@;
    let mut i: usize = 0;
    assert(accumulated(by_node) =~= node_map(*discovery_table, nodes.take(0)));
    while i < node_table.nodes.len()
        invariant
            nodes == node_table.nodes@,
            i <= nodes.len(),
            accumulators_wf(by_node),
            accumulated(by_node) == node_map(*discovery_table, nodes.take(i as int)),
        decreases nodes.len() - i,
    {
        assert(nodes.take(i + 1).drop_last() =~= nodes.take(i as int));
        add_node(&mut by_node, discovery_table, &node_table.nodes[i]);
        i += 1;
    }
    assert(nodes.take(i as int) =~= nodes);
    let ghost map = by_node@;
    let mut entries = by_node.into_entries();
    let ghost all = entries@;
    let ghost pairs = shapes::<ScopedName, NodeDetailsAccumulator>(all);
    assert forall|j: int| 0 <= j < all.len() implies (#[trigger] all[j]).1.wf() by {
        lemma_sorted_unique::<ScopedName, NodeDetailsAccumulator>(pairs);
        lemma_as_map(pairs);
        assert(map.contains_key(pairs[j].0) && map[pairs[j].0] == pairs[j].1);
    }
    let mut r: Vec<NodeDetails> = Vec::new();
    while entries.len() > 0
        invariant
            forall|j: int| 0 <= j < all.len() ==> (#[trigger] all[j]).1.wf(),
            r@.len() + entries@.len() == all.len(),
            entries@ == all.skip(r@.len() as int),
            forall|j: int|
                0 <= j < r@.len() ==> (#[trigger] r@[j]).namespace@ == all[j].0.namespace@
                    && r@[j].name@ == all[j].0.name@ && lists_tables(r@[j], all[j].1@),
        decreases entries.len(),
    {
        let (key, acc) = entries.remove(0);
        assert((key, acc) == all[r@.len() as int]);
        let details = NodeDetails {
            name: key.name,
            namespace: key.namespace,
            subscribers: endpoint_summaries(acc.subscribers),
            publishers: endpoint_summaries(acc.publishers),
            service_servers: service_infos(acc.service_servers),
            service_clients: service_infos(acc.service_clients),
        };
        r.push(details);
    }
    proof {
        lemma_nodes_listed(all, r@, map, node_map(*discovery_table, nodes));
    }
    r
}

// Services.

/// The services by name, with more of them. The first type of a service counts.
pub open spec fn with_services(
    map: Map<Seq<char>, Seq<char>>,
    services: Seq<(Seq<char>, Seq<char>)>,
) -> Map<Seq<char>, Seq<char>>
    decreases services.len(),
{
    if services.len() == 0 {
        map
    } else {
        with_first(
            with_services(map, services.drop_last()),
            services.last().0,
            services.last().1,
        )
    }
}

/// The services that nodes offer or call, by name.
pub open spec fn service_map(nodes: Seq<NodeDetails>) -> Map<Seq<char>, Seq<char>>
    decreases nodes.len(),
{
    if nodes.len() == 0 {
        Map::empty()
    } else {
        with_services(
            with_services(
                service_map(nodes.drop_last()),
                service_pairs(nodes.last().service_servers@),
            ),
            service_pairs(nodes.last().service_clients@),
        )
    }
}

fn add_services(table: &mut NameTable, services: &Vec<NodeServiceInfo>)
    requires
        old(table).wf(),
    ensures
        final(table).wf(),
        name_map(*final(table)) == with_services(name_map(*old(table)), service_pairs(services@)),
{
    let ghost pairs = service_pairs(services@);
    let mut i: usize = 0;
    while i < services.len()
        invariant
            pairs == service_pairs(services@),
            i <= services.len(),
            table.wf(),
            name_map(*table) == with_services(name_map(*old(table)), pairs.take(i as int)),
        decreases services.len() - i,
    {
        assert(pairs.take(i + 1).drop_last() =~= pairs.take(i as int));
        put_name_if_absent(table, &services[i].name, &services[i].ros_type);
        i += 1;
    }
    assert(pairs.take(i as int) =~= pairs);
}

/// The names and types of services.
pub open spec fn service_info_pairs(list: Seq<ServiceInfo>) -> Seq<(Seq<char>, Seq<char>)> {
    list.map_values(|service: ServiceInfo| (service.name@, service.ros_type@))
}

/// Lists every service that a node offers or calls.
pub fn build_services(node_details: &Vec<NodeDetails>) -> (r: Vec<ServiceInfo>)
    ensures
        is_listing::<String, Seq<char>>(service_info_pairs(r@), service_map(node_details@)),
{
    let mut services: NameTable = SortedTable::new();
    let ghost nodes = node_details@;
    let mut i: usize = 0;
    assert(name_map(services) =~= service_map(nodes.take(0)));
    while i < node_details.len()
        invariant
            nodes == node_details@,
            i <= nodes.len(),
            services.wf(),
            name_map(services) == service_map(nodes.take(i as int)),
        decreases nodes.len() - i,
    {
        assert(nodes.take(i + 1).drop_last() =~= nodes.take(i as int));
        add_services(&mut services, &node_details[i].service_servers);
        add_services(&mut services, &node_details[i].service_clients);
        i += 1;
    }
    assert(nodes.take(i as int) =~= nodes);
    let mut listed = service_infos(services);
    let ghost all = listed@;
    let mut r: Vec<ServiceInfo> = Vec::new();
    while listed.len() > 0
        invariant
            r@.len() + listed@.len() == all.len(),
            listed@ == all.skip(r@.len() as int),
            forall|j: int|
                0 <= j < r@.len() ==> (#[trigger] r@[j]).name@ == all[j].name@ && r@[j].ros_type@
                    == all[j].ros_type@,
        decreases listed.len(),
    {
        let service = listed.remove(0);
        r.push(ServiceInfo { name: service.name, ros_type: service.ros_type });
    }
    assert(service_info_pairs(r@) =~= service_pairs(all));
    r
}

// Actions.

/// What is known of an action: its type, and the full names of the nodes on both sides.
#[verifier::ext_equal]
pub struct ActionParts {
    pub ros_type: Option<Seq<char>>,
    pub clients: Set<Seq<char>>,
    pub servers: Set<Seq<char>>,
}

/// An action of which nothing is known.
pub open spec fn no_parts() -> ActionParts {
    ActionParts { ros_type: None, clients: Set::empty(), servers: Set::empty() }
}

/// The actions by name, with what one endpoint says. The first type that is known of
/// an action counts.
pub open spec fn with_action(
    map: Map<Seq<char>, ActionParts>,
    nodes: Seq<NodeEntry>,
    endpoint: EndpointEntry,
    is_reader: bool,
) -> Map<Seq<char>, ActionParts> {
    match endpoint_topic(endpoint) {
        None => map,
        Some(topic) => match action_endpoint(topic, endpoint_type_or_dash(endpoint), is_reader) {
            None => map,
            Some((name, ros_type, role)) => {
                let before = if map.contains_key(name) {
                    map[name]
                } else {
                    no_parts()
                };
                let typed = ActionParts {
                    ros_type: match before.ros_type {
                        Some(known) => Some(known),
                        None => ros_type,
                    },
                    ..before
                };
                map.insert(
                    name,
                    match node_of_endpoint(nodes, endpoint, is_reader) {
                        None => typed,
                        Some(node) => {
                            let path = node_path(node.key.node_namespace@, node.key.node_name@);
                            match role {
                                ActionRole::Client => ActionParts {
                                    clients: typed.clients.insert(path),
                                    ..typed
                                },
                                ActionRole::Server => ActionParts {
                                    servers: typed.servers.insert(path),
                                    ..typed
                                },
                            }
                        },
                    },
                )
            },
        },
    }
}

/// The actions by name, with what a list of endpoints says.
pub open spec fn with_actions(
    map: Map<Seq<char>, ActionParts>,
    nodes: Seq<NodeEntry>,
    endpoints: Seq<EndpointEntry>,
    is_reader: bool,
) -> Map<Seq<char>, ActionParts>
    decreases endpoints.len(),
{
    if endpoints.len() == 0 {
        map
    } else {
        with_action(
            with_actions(map, nodes, endpoints.drop_last(), is_reader),
            nodes,
            endpoints.last(),
            is_reader,
        )
    }
}

/// What all writers and then all readers say of actions.
pub open spec fn action_map(discovery_table: DiscoveryTable, nodes: Seq<NodeEntry>) -> Map<
    Seq<char>,
    ActionParts,
> {
    with_actions(
        with_actions(Map::empty(), nodes, discovery_table.publications@, false),
        nodes,
        discovery_table.subscriptions@,
        true,
    )
}

/// `details` describes an action of which `parts` is known, each list in order.
pub open spec fn lists_parts(details: ActionDetails, parts: ActionParts) -> bool {
    &&& text_opt(details.ros_type) == parts.ros_type
    &&& sorted_texts(texts(details.clients@))
    &&& texts(details.clients@).to_set() == parts.clients
    &&& sorted_texts(texts(details.servers@))
    &&& texts(details.servers@).to_set() == parts.servers
}

/// `list` describes the actions of `map`, each once, in the order of names.
pub open spec fn lists_actions(list: Seq<ActionDetails>, map: Map<Seq<char>, ActionParts>) -> bool {
    &&& forall|i: int, j: int|
        0 <= i < j < list.len() ==> text_before(
            (#[trigger] list[i]).name@,
            (#[trigger] list[j]).name@,
        )
    &&& forall|i: int|
        0 <= i < list.len() ==> map.contains_key((#[trigger] list[i]).name@) && lists_parts(
            list[i],
            map[list[i].name@],
        )
    &&& forall|name: Seq<char>| #[trigger]
        map.contains_key(name) ==> exists|i: int|
            0 <= i < list.len() && (#[trigger] list[i]).name@ == name
}

struct ActionDetailsAccumulator {
    ros_type: Option<String>,
    clients: TextSet,
    servers: TextSet,
}

impl View for ActionDetailsAccumulator {
    type V = ActionParts;

    closed spec fn view(&self) -> ActionParts {
        ActionParts {
            ros_type: text_opt(self.ros_type),
            clients: self.clients@.dom(),
            servers: self.servers@.dom(),
        }
    }
}

impl ActionDetailsAccumulator {
    spec fn wf(&self) -> bool {
        self.clients.wf() && self.servers.wf()
    }

    fn new() -> (r: ActionDetailsAccumulator)
        ensures
            r.wf(),
            r@ == no_parts(),
    {
        let r = ActionDetailsAccumulator {
            ros_type: None,
            clients: SortedTable::new(),
            servers: SortedTable::new(),
        };
        assert(r@ =~= no_parts());
        r
    }
}

type ActionTable = SortedTable<String, ActionDetailsAccumulator>;

spec fn parts_map(table: ActionTable) -> Map<Seq<char>, ActionParts> {
    table@.map_values(|acc: ActionDetailsAccumulator| acc@)
}

spec fn parts_wf(table: ActionTable) -> bool {
    table.wf() && forall|name: Seq<char>| #[trigger]
        table@.contains_key(name) ==> table@[name].wf()
}

/// Adds what an endpoint says of actions.
fn collect_action_detail(
    endpoint: &EndpointEntry,
    node_table: &NodeTable,
    is_reader: bool,
    actions: &mut ActionTable,
)
    requires
        parts_wf(*old(actions)),
    ensures
        parts_wf(*final(actions)),
        parts_map(*final(actions)) == with_action(
            parts_map(*old(actions)),
            node_table.nodes@,
            *endpoint,
            is_reader,
        ),
{
    let topic = match topic_of_endpoint(endpoint) {
        None => return,
        Some(topic) => topic,
    };
    let ros_type = type_of_endpoint(endpoint);
    let (name, action_type, role) = match classify_action_endpoint(
        topic.as_str(),
        ros_type.as_str(),
        is_reader,
    ) {
        None => return,
        Some(classified) => classified,
    };
    let ghost shape = name@;
    let mut acc = match actions.take(&name) {
        Some(acc) => acc,
        None => ActionDetailsAccumulator::new(),
    };
    if acc.ros_type.is_none() {
        acc.ros_type = action_type;
    }
    match endpoint_node(node_table, endpoint, is_reader) {
        None => {},
        Some(node) => {
            let path = full_node_name(node.key.node_namespace.as_str(), node.key.node_name.as_str());
            let ghost before = acc@;
            match role {
                ActionRole::Client => {
                    acc.clients.put(path, ());
                    assert(acc@.clients =~= before.clients.insert(path@));
                },
                ActionRole::Server => {
                    acc.servers.put(path, ());
                    assert(acc@.servers =~= before.servers.insert(path@));
                },
            }
        },
    }
    actions.put(name, acc);
    assert(actions@ =~= old(actions)@.insert(shape, acc));
    assert(parts_map(*actions) =~= parts_map(*old(actions)).insert(shape, acc@));
}

fn collect_action_details(
    endpoints: &Vec<EndpointEntry>,
    node_table: &NodeTable,
    is_reader: bool,
    actions: &mut ActionTable,
)
    requires
        parts_wf(*old(actions)),
    ensures
        parts_wf(*final(actions)),
        parts_map(*final(actions)) == with_actions(
            parts_map(*old(actions)),
            node_table.nodes@,
            endpoints@,
            is_reader,
        ),
{
    let ghost all = endpoints@;
    let mut i: usize = 0;
    while i < endpoints.len()
        invariant
            all == endpoints@,
            i <= all.len(),
            parts_wf(*actions),
            parts_map(*actions) == with_actions(
                parts_map(*old(actions)),
                node_table.nodes@,
                all.take(i as int),
                is_reader,
            ),
        decreases all.len() - i,
    {
        assert(all.take(i + 1).drop_last() =~= all.take(i as int));
        collect_action_detail(&endpoints[i], node_table, is_reader, actions);
        i += 1;
    }
    assert(all.take(i as int) =~= all);
}

proof fn lemma_actions_listed(
    entries: Seq<(String, ActionDetailsAccumulator)>,
    list: Seq<ActionDetails>,
    map: Map<Seq<char>, ActionDetailsAccumulator>,
    parts: Map<Seq<char>, ActionParts>,
)
    requires
        is_listing::<String, ActionDetailsAccumulator>(
            shapes::<String, ActionDetailsAccumulator>(entries),
            map,
        ),
        parts == map.map_values(|acc: ActionDetailsAccumulator| acc@),
        list.len() == entries.len(),
        forall|i: int|
            0 <= i < list.len() ==> (#[trigger] list[i]).name@ == entries[i].0@ && lists_parts(
                list[i],
                entries[i].1@,
            ),
    ensures
        lists_actions(list, parts),
{
    let pairs = shapes::<String, ActionDetailsAccumulator>(entries);
    lemma_sorted_unique::<String, ActionDetailsAccumulator>(pairs);
    lemma_as_map(pairs);
    assert forall|i: int, j: int| 0 <= i < j < list.len() implies text_before(
        (#[trigger] list[i]).name@,
        (#[trigger] list[j]).name@,
    ) by {
        assert(String::before(pairs[i].0, pairs[j].0));
    }
    assert forall|i: int| 0 <= i < list.len() implies parts.contains_key(
        (#[trigger] list[i]).name@,
    ) && lists_parts(list[i], parts[list[i].name@]) by {
        assert(map.contains_key(pairs[i].0));
        assert(map[pairs[i].0] == pairs[i].1);
    }
    assert forall|name: Seq<char>| #[trigger] parts.contains_key(name) implies exists|i: int|
        0 <= i < list.len() && (#[trigger] list[i]).name@ == name by {
        assert(map.contains_key(name));
        assert(has_key(pairs, name));
        let i = choose|i: int| key_at(pairs, i, name);
        assert(list[i].name@ == name);
    }
}

/// Describes every action: its type, and the nodes on both sides of it.
pub fn build_action_details(discovery_table: &DiscoveryTable, node_table: &NodeTable) -> (r: Vec<
    ActionDetails,
>)
    ensures
        lists_actions(r@, action_map(*discovery_table, node_table.nodes@)),
{
    let mut actions: ActionTable = SortedTable::new();
    assert(parts_map(actions) =~= Map::empty());
    collect_action_details(&discovery_table.publications, node_table, false, &mut actions);
    collect_action_details(&discovery_table.subscriptions, node_table, true, &mut actions);
    let ghost map = actions@;
    let ghost parts = parts_map(actions);
    let mut entries = actions.into_entries();
    let ghost all = entries@;
    let ghost pairs = shapes::<String, ActionDetailsAccumulator>(all);
    assert forall|j: int| 0 <= j < all.len() implies (#[trigger] all[j]).1.wf() by {
        lemma_sorted_unique::<String, ActionDetailsAccumulator>(pairs);
        lemma_as_map(pairs);
        assert(map.contains_key(pairs[j].0) && map[pairs[j].0] == pairs[j].1);
    }
    let mut r: Vec<ActionDetails> = Vec::new();
    while entries.len() > 0
        invariant
            forall|j: int| 0 <= j < all.len() ==> (#[trigger] all[j]).1.wf(),
            r@.len() + entries@.len() == all.len(),
            entries@ == all.skip(r@.len() as int),
            forall|j: int|
                0 <= j < r@.len() ==> (#[trigger] r@[j]).name@ == all[j].0@ && lists_parts(
                    r@[j],
                    all[j].1@,
                ),
        decreases entries.len(),
    {
        let (name, acc) = entries.remove(0);
        assert((name, acc) == all[r@.len() as int]);
        let details = ActionDetails {
            name,
            ros_type: acc.ros_type,
            clients: sorted_list(acc.clients),
            servers: sorted_list(acc.servers),
        };
        r.push(details);
    }
    proof {
        lemma_actions_listed(all, r@, map, parts);
    }
    r
}

/// The types of actions by name, with what one endpoint says. The first type that is
/// known of an action counts.
pub open spec fn with_action_type(
    map: Map<Seq<char>, Option<Seq<char>>>,
    endpoint: EndpointEntry,
) -> Map<Seq<char>, Option<Seq<char>>> {
    match endpoint_topic(endpoint) {
        None => map,
        Some(topic) => match action_endpoint(topic, endpoint_type_or_dash(endpoint), false) {
            None => map,
            Some((name, ros_type, _)) => map.insert(
                name,
                if map.contains_key(name) && map[name] is Some {
                    map[name]
                } else {
                    ros_type
                },
            ),
        },
    }
}

/// The types of actions by name, with what a list of endpoints says.
pub open spec fn with_action_types(
    map: Map<Seq<char>, Option<Seq<char>>>,
    endpoints: Seq<EndpointEntry>,
) -> Map<Seq<char>, Option<Seq<char>>>
    decreases endpoints.len(),
{
    if endpoints.len() == 0 {
        map
    } else {
        with_action_type(with_action_types(map, endpoints.drop_last()), endpoints.last())
    }
}

/// The types that all writers and then all readers give to actions.
pub open spec fn action_type_map(discovery_table: DiscoveryTable) -> Map<
    Seq<char>,
    Option<Seq<char>>,
> {
    with_action_types(
        with_action_types(Map::empty(), discovery_table.publications@),
        discovery_table.subscriptions@,
    )
}

type ActionTypeTable = SortedTable<String, Option<String>>;

spec fn type_map(table: ActionTypeTable) -> Map<Seq<char>, Option<Seq<char>>> {
    table@.map_values(|ros_type: Option<String>| text_opt(ros_type))
}

/// Adds the type that an endpoint gives to an action.
fn collect_action(endpoint: &EndpointEntry, actions: &mut ActionTypeTable)
    requires
        old(actions).wf(),
    ensures
        final(actions).wf(),
        type_map(*final(actions)) == with_action_type(type_map(*old(actions)), *endpoint),
{
    let topic = match topic_of_endpoint(endpoint) {
        None => return,
        Some(topic) => topic,
    };
    let ros_type = type_of_endpoint(endpoint);
    let (name, action_type) = match classify_action_endpoint(
        topic.as_str(),
        ros_type.as_str(),
        false,
    ) {
        None => return,
        Some((name, action_type, _)) => (name, action_type),
    };
    let ghost shape = name@;
    let known = match actions.take(&name) {
        Some(known) => known,
        None => None,
    };
    let kept = if known.is_some() { known } else { action_type };
    actions.put(name, kept);
    assert(actions@ =~= old(actions)@.insert(shape, kept));
    assert(type_map(*actions) =~= type_map(*old(actions)).insert(shape, text_opt(kept)));
}

fn collect_actions(endpoints: &Vec<EndpointEntry>, actions: &mut ActionTypeTable)
    requires
        old(actions).wf(),
    ensures
        final(actions).wf(),
        type_map(*final(actions)) == with_action_types(type_map(*old(actions)), endpoints@),
{
    let ghost all = endpoints@;
    let mut i: usize = 0;
    while i < endpoints.len()
        invariant
            all == endpoints@,
            i <= all.len(),
            actions.wf(),
            type_map(*actions) == with_action_types(type_map(*old(actions)), all.take(i as int)),
        decreases all.len() - i,
    {
        assert(all.take(i + 1).drop_last() =~= all.take(i as int));
        collect_action(&endpoints[i], actions);
        i += 1;
    }
    assert(all.take(i as int) =~= all);
}

/// The names and types of actions.
pub open spec fn action_pairs(list: Seq<ActionInfo>) -> Seq<(Seq<char>, Option<Seq<char>>)> {
    list.map_values(|action: ActionInfo| (action.name@, text_opt(action.ros_type)))
}

/// Lists every action, with its type.
pub fn build_actions(discovery_table: &DiscoveryTable) -> (r: Vec<ActionInfo>)
    ensures
        is_listing::<String, Option<Seq<char>>>(
            action_pairs(r@),
            action_type_map(*discovery_table),
        ),
{
    let mut actions: ActionTypeTable = SortedTable::new();
    assert(type_map(actions) =~= Map::empty());
    collect_actions(&discovery_table.publications, &mut actions);
    collect_actions(&discovery_table.subscriptions, &mut actions);
    let ghost map = actions@;
    let mut entries = actions.into_entries();
    let ghost all = entries@;
    let ghost pairs = shapes::<String, Option<String>>(all);
    proof {
        lemma_listing_views::<String, Option<String>, Option<Seq<char>>>(
            pairs,
            map,
            |ros_type: Option<String>| text_opt(ros_type),
        );
    }
    let mut r: Vec<ActionInfo> = Vec::new();
    while entries.len() > 0
        invariant
            r@.len() + entries@.len() == all.len(),
            entries@ == all.skip(r@.len() as int),
            forall|j: int|
                0 <= j < r@.len() ==> (#[trigger] r@[j]).name@ == all[j].0@ && text_opt(
                    r@[j].ros_type,
                ) == text_opt(all[j].1),
        decreases entries.len(),
    {
        let (name, ros_type) = entries.remove(0);
        r.push(ActionInfo { name, ros_type });
    }
    assert(action_pairs(r@) =~= pairs.map_values(
        |pair: (Seq<char>, Option<String>)|
            (pair.0, (|ros_type: Option<String>| text_opt(ros_type))(pair.1)),
    ));
    r
}

} // verus!
