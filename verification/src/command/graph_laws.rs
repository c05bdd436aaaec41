//! What the description of the ROS graph promises as a whole.

use crate::command::graph::{
    action_map, action_type_map, node_map, node_shape, service_map, service_pairs, with_action,
    with_action_type, with_action_types, with_actions, with_services, ActionParts,
};
use crate::command::protocol::NodeDetails;
use crate::discovery::tables::{DiscoveryTable, EndpointEntry, NodeEntry};
use vstd::prelude::*;

verus! {

/// Every node is described, and nothing else is.
pub proof fn law_every_node_described(
    discovery_table: DiscoveryTable,
    nodes: Seq<NodeEntry>,
    key: (Seq<char>, Seq<char>),
)
    ensures
        node_map(discovery_table, nodes).contains_key(key) <==> exists|i: int|
            0 <= i < nodes.len() && node_shape(#[trigger] nodes[i]) == key,
    decreases nodes.len(),
{
    if nodes.len() > 0 {
        let before = nodes.drop_last();
        law_every_node_described(discovery_table, before, key);
        if node_map(discovery_table, before).contains_key(key) {
            let i = choose|i: int| 0 <= i < before.len() && node_shape(#[trigger] before[i]) == key;
            assert(node_shape(nodes[i]) == key);
        }
        if node_shape(nodes.last()) == key {
            assert(node_shape(nodes[nodes.len() - 1]) == key);
        }
        if exists|i: int| 0 <= i < nodes.len() && node_shape(#[trigger] nodes[i]) == key {
            let i = choose|i: int| 0 <= i < nodes.len() && node_shape(#[trigger] nodes[i]) == key;
            if i < before.len() {
                assert(node_shape(before[i]) == key);
            }
        }
    }
}

/// Two accounts of the actions name the same ones, with the same types.
spec fn agree(
    parts: Map<Seq<char>, ActionParts>,
    types: Map<Seq<char>, Option<Seq<char>>>,
) -> bool {
    &&& forall|name: Seq<char>| #[trigger] parts.contains_key(name) <==> types.contains_key(name)
    &&& forall|name: Seq<char>| #[trigger]
        parts.contains_key(name) ==> parts[name].ros_type == types[name]
}

proof fn lemma_actions_agree(
    parts: Map<Seq<char>, ActionParts>,
    types: Map<Seq<char>, Option<Seq<char>>>,
    nodes: Seq<NodeEntry>,
    endpoints: Seq<EndpointEntry>,
    is_reader: bool,
)
    requires
        agree(parts, types),
    ensures
        agree(
            with_actions(parts, nodes, endpoints, is_reader),
            with_action_types(types, endpoints),
        ),
    decreases endpoints.len(),
{
    if endpoints.len() > 0 {
        lemma_actions_agree(parts, types, nodes, endpoints.drop_last(), is_reader);
        let p = with_actions(parts, nodes, endpoints.drop_last(), is_reader);
        let t = with_action_types(types, endpoints.drop_last());
        assert(agree(
            with_action(p, nodes, endpoints.last(), is_reader),
            with_action_type(t, endpoints.last()),
        ));
    }
}

/// The list of actions and their descriptions name the same actions, with the same
/// types.
pub proof fn law_action_lists_agree(
    discovery_table: DiscoveryTable,
    nodes: Seq<NodeEntry>,
    name: Seq<char>,
)
    ensures
        action_map(discovery_table, nodes).contains_key(name) <==> action_type_map(
            discovery_table,
        ).contains_key(name),
        action_map(discovery_table, nodes).contains_key(name) ==> action_map(
            discovery_table,
            nodes,
        )[name].ros_type == action_type_map(discovery_table)[name],
{
    lemma_actions_agree(Map::empty(), Map::empty(), nodes, discovery_table.publications@, false);
    lemma_actions_agree(
        with_actions(Map::empty(), nodes, discovery_table.publications@, false),
        with_action_types(Map::empty(), discovery_table.publications@),
        nodes,
        discovery_table.subscriptions@,
        true,
    );
}

/// `name` is the name of one of the services.
pub open spec fn names_service(services: Seq<(Seq<char>, Seq<char>)>, name: Seq<char>) -> bool {
    exists|i: int| 0 <= i < services.len() && (#[trigger] services[i]).0 == name
}

proof fn lemma_services_named(
    map: Map<Seq<char>, Seq<char>>,
    services: Seq<(Seq<char>, Seq<char>)>,
    name: Seq<char>,
)
    ensures
        with_services(map, services).contains_key(name) <==> map.contains_key(name)
            || names_service(services, name),
    decreases services.len(),
{
    if services.len() > 0 {
        let before = services.drop_last();
        lemma_services_named(map, before, name);
        if names_service(before, name) {
            let i = choose|i: int| 0 <= i < before.len() && (#[trigger] before[i]).0 == name;
            assert(services[i].0 == name);
        }
        if services.last().0 == name {
            assert(services[services.len() - 1].0 == name);
        }
        if names_service(services, name) {
            let i = choose|i: int| 0 <= i < services.len() && (#[trigger] services[i]).0 == name;
            if i < before.len() {
                assert(before[i].0 == name);
            }
        }
    }
}

/// Node `i` offers or calls the service.
pub open spec fn node_has_service(nodes: Seq<NodeDetails>, i: int, name: Seq<char>) -> bool {
    &&& 0 <= i < nodes.len()
    &&& names_service(service_pairs(nodes[i].service_servers@), name) || names_service(
        service_pairs(nodes[i].service_clients@),
        name,
    )
}

/// A service is listed if and only if some node offers or calls it.
pub proof fn law_services_are_those_of_nodes(nodes: Seq<NodeDetails>, name: Seq<char>)
    ensures
        service_map(nodes).contains_key(name) <==> exists|i: int| node_has_service(nodes, i, name),
    decreases nodes.len(),
{
    if nodes.len() > 0 {
        let before = nodes.drop_last();
        let last = nodes.len() - 1;
        law_services_are_those_of_nodes(before, name);
        let servers = service_pairs(nodes.last().service_servers@);
        let clients = service_pairs(nodes.last().service_clients@);
        lemma_services_named(service_map(before), servers, name);
        lemma_services_named(with_services(service_map(before), servers), clients, name);
        if exists|i: int| node_has_service(before, i, name) {
            let i = choose|i: int| node_has_service(before, i, name);
            assert(node_has_service(nodes, i, name));
        }
        if names_service(servers, name) || names_service(clients, name) {
            assert(node_has_service(nodes, last, name));
        }
        if exists|i: int| node_has_service(nodes, i, name) {
            let i = choose|i: int| node_has_service(nodes, i, name);
            if i < last {
                assert(node_has_service(before, i, name));
            }
        }
    }
}

} // verus!
