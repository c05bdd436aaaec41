//! What the descriptions of nodes, services and actions tell of the endpoints behind them.

use crate::command::endpoints::node_of_endpoint;
use crate::command::graph::{
    action_map, no_tables, node_map, node_shape, service_map, service_pairs, with_action,
    with_actions, with_endpoint, with_endpoints, with_services, ActionParts, NodeTables,
};
use crate::command::names::{
    action_endpoint, node_path, ros_topic_name, ros_type_name, service_endpoint, ActionRole,
    ServiceRole,
};
use crate::command::protocol::NodeDetails;
use crate::common::TopicGid;
use crate::discovery::tables::{
    endpoint_with, node_with_endpoint, nodes_of_participant, participant_with, DiscoveryTable,
    EndpointEntry, NodeEntry, ParticipantEntry,
};
use vstd::prelude::*;

verus! {

// Finding what discovery has found.

/// The endpoint that is found by an identifier has it, and is the first of the list that
/// does. None is found only if none has it.
pub proof fn law_endpoint_found_by_identifier(list: Seq<EndpointEntry>, gid: TopicGid)
    ensures
        match endpoint_with(list, gid) {
            Some(endpoint) => exists|i: int|
                0 <= i < list.len() && #[trigger] list[i] == endpoint && endpoint.endpoint_gid == gid
                    && forall|j: int| 0 <= j < i ==> (#[trigger] list[j]).endpoint_gid != gid,
            None => forall|i: int| 0 <= i < list.len() ==> (#[trigger] list[i]).endpoint_gid != gid,
        },
    decreases list.len(),
{
    if list.len() > 0 {
        if list[0].endpoint_gid == gid {
            assert(list[0] == endpoint_with(list, gid)->0);
        } else {
            let rest = list.skip(1);
            law_endpoint_found_by_identifier(rest, gid);
            match endpoint_with(list, gid) {
                Some(endpoint) => {
                    let i = choose|i: int|
                        0 <= i < rest.len() && #[trigger] rest[i] == endpoint
                            && endpoint.endpoint_gid == gid && forall|j: int|
                            0 <= j < i ==> (#[trigger] rest[j]).endpoint_gid != gid;
                    assert(list[i + 1] == endpoint);
                    assert forall|j: int| 0 <= j < i + 1 implies (
                    #[trigger] list[j]).endpoint_gid != gid by {
                        if j > 0 {
                            assert(rest[j - 1] == list[j]);
                        }
                    }
                },
                None => {
                    assert forall|i: int| 0 <= i < list.len() implies (
                    #[trigger] list[i]).endpoint_gid != gid by {
                        if i > 0 {
                            assert(rest[i - 1] == list[i]);
                        }
                    }
                },
            }
        }
    }
}

/// The participant that is found by an identifier has it, and is the first of the list that
/// does. None is found only if none has it.
pub proof fn law_participant_found_by_identifier(list: Seq<ParticipantEntry>, gid: TopicGid)
    ensures
        match participant_with(list, gid) {
            Some(participant) => exists|i: int|
                0 <= i < list.len() && #[trigger] list[i] == participant
                    && participant.participant_gid == gid && forall|j: int|
                    0 <= j < i ==> (#[trigger] list[j]).participant_gid != gid,
            None => forall|i: int|
                0 <= i < list.len() ==> (#[trigger] list[i]).participant_gid != gid,
        },
    decreases list.len(),
{
    if list.len() > 0 {
        if list[0].participant_gid == gid {
            assert(list[0] == participant_with(list, gid)->0);
        } else {
            let rest = list.skip(1);
            law_participant_found_by_identifier(rest, gid);
            match participant_with(list, gid) {
                Some(participant) => {
                    let i = choose|i: int|
                        0 <= i < rest.len() && #[trigger] rest[i] == participant
                            && participant.participant_gid == gid && forall|j: int|
                            0 <= j < i ==> (#[trigger] rest[j]).participant_gid != gid;
                    assert(list[i + 1] == participant);
                    assert forall|j: int| 0 <= j < i + 1 implies (
                    #[trigger] list[j]).participant_gid != gid by {
                        if j > 0 {
                            assert(rest[j - 1] == list[j]);
                        }
                    }
                },
                None => {
                    assert forall|i: int| 0 <= i < list.len() implies (
                    #[trigger] list[i]).participant_gid != gid by {
                        if i > 0 {
                            assert(rest[i - 1] == list[i]);
                        }
                    }
                },
            }
        }
    }
}

/// A node has a reader, or a writer.
pub open spec fn node_has(node: NodeEntry, gid: TopicGid, is_reader: bool) -> bool {
    if is_reader {
        node.reader_gids@.contains(gid)
    } else {
        node.writer_gids@.contains(gid)
    }
}

/// The node that is found for a reader, or a writer, has it, and is the first of the list
/// that does. None is found only if none has it.
pub proof fn law_node_found_by_endpoint(list: Seq<NodeEntry>, gid: TopicGid, is_reader: bool)
    ensures
        match node_with_endpoint(list, gid, is_reader) {
            Some(node) => exists|i: int|
                0 <= i < list.len() && #[trigger] list[i] == node && node_has(node, gid, is_reader)
                    && forall|j: int| 0 <= j < i ==> !node_has(#[trigger] list[j], gid, is_reader),
            None => forall|i: int|
                0 <= i < list.len() ==> !node_has(#[trigger] list[i], gid, is_reader),
        },
    decreases list.len(),
{
    if list.len() > 0 {
        if node_has(list[0], gid, is_reader) {
            assert(list[0] == node_with_endpoint(list, gid, is_reader)->0);
        } else {
            let rest = list.skip(1);
            law_node_found_by_endpoint(rest, gid, is_reader);
            match node_with_endpoint(list, gid, is_reader) {
                Some(node) => {
                    let i = choose|i: int|
                        0 <= i < rest.len() && #[trigger] rest[i] == node && node_has(
                            node,
                            gid,
                            is_reader,
                        ) && forall|j: int|
                            0 <= j < i ==> !node_has(#[trigger] rest[j], gid, is_reader);
                    assert(list[i + 1] == node);
                    assert forall|j: int| 0 <= j < i + 1 implies !node_has(
                        #[trigger] list[j],
                        gid,
                        is_reader,
                    ) by {
                        if j > 0 {
                            assert(rest[j - 1] == list[j]);
                        }
                    }
                },
                None => {
                    assert forall|i: int| 0 <= i < list.len() implies !node_has(
                        #[trigger] list[i],
                        gid,
                        is_reader,
                    ) by {
                        if i > 0 {
                            assert(rest[i - 1] == list[i]);
                        }
                    }
                },
            }
        }
    }
}

/// The nodes of a participant are those of the list that belong to it, and no others.
pub proof fn law_nodes_belong_to_participant(
    list: Seq<NodeEntry>,
    gid: TopicGid,
    node: NodeEntry,
)
    ensures
        nodes_of_participant(list, gid).contains(node) <==> list.contains(node)
            && node.key.participant_gid == gid,
    decreases list.len(),
{
    if list.len() > 0 {
        let rest = list.skip(1);
        let found = nodes_of_participant(rest, gid);
        law_nodes_belong_to_participant(rest, gid, node);
        assert(list =~= seq![list[0]] + rest);
        if rest.contains(node) {
            let i = choose|i: int| 0 <= i < rest.len() && rest[i] == node;
            assert(list[i + 1] == node);
        }
        if list.contains(node) {
            let i = choose|i: int| 0 <= i < list.len() && list[i] == node;
            if i > 0 {
                assert(rest[i - 1] == node);
            }
        }
        if list[0].key.participant_gid == gid {
            let all = seq![list[0]] + found;
            if found.contains(node) {
                let i = choose|i: int| 0 <= i < found.len() && found[i] == node;
                assert(all[i + 1] == node);
            }
            if all.contains(node) {
                let i = choose|i: int| 0 <= i < all.len() && all[i] == node;
                if i > 0 {
                    assert(found[i - 1] == node);
                }
            }
            assert(all[0] == list[0]);
        }
    }
}

// Nodes.

/// What an endpoint makes its node: a subscriber or a publisher of a topic, or a server or a
/// client of a service.
pub enum Part {
    Subscriber,
    Publisher,
    Server,
    Client,
}

/// The names that a description has for a part.
pub open spec fn names_of(tables: NodeTables, part: Part) -> Map<Seq<char>, Seq<char>> {
    match part {
        Part::Subscriber => tables.subscribers,
        Part::Publisher => tables.publishers,
        Part::Server => tables.service_servers,
        Part::Client => tables.service_clients,
    }
}

/// The ROS name of the topic that an endpoint is on.
pub open spec fn topic_of(endpoint: EndpointEntry) -> Option<Seq<char>> {
    if endpoint.topic_name is Some {
        ros_topic_name(endpoint.topic_name->0@)
    } else {
        None
    }
}

/// The ROS name of the type of an endpoint, or a dash if it is not known.
pub open spec fn type_of(endpoint: EndpointEntry) -> Seq<char> {
    if endpoint.ros_type is Some {
        ros_type_name(endpoint.ros_type->0@)
    } else {
        "-"@
    }
}

/// What an endpoint makes its node, of which name and of which type. One without a ROS topic
/// makes it nothing, and neither does one of an action.
pub open spec fn made_by(endpoint: EndpointEntry, is_reader: bool) -> Option<
    (Part, Seq<char>, Seq<char>),
> {
    match topic_of(endpoint) {
        None => None,
        Some(topic) => {
            let ros_type = type_of(endpoint);
            match (
                action_endpoint(topic, ros_type, is_reader),
                service_endpoint(topic, ros_type, is_reader),
            ) {
                (Some(_), _) => None,
                (None, Some((name, service_type, ServiceRole::Server))) => Some(
                    (Part::Server, name, service_type),
                ),
                (None, Some((name, service_type, ServiceRole::Client))) => Some(
                    (Part::Client, name, service_type),
                ),
                (None, None) => Some(
                    (
                        if is_reader {
                            Part::Subscriber
                        } else {
                            Part::Publisher
                        },
                        topic,
                        ros_type,
                    ),
                ),
            }
        },
    }
}

/// The endpoints with the given identifiers, as far as they are known.
pub open spec fn known(
    endpoints: Seq<EndpointEntry>,
    gids: Seq<TopicGid>,
    is_reader: bool,
) -> Seq<(EndpointEntry, bool)>
    decreases gids.len(),
{
    if gids.len() == 0 {
        seq![]
    } else {
        let before = known(endpoints, gids.drop_last(), is_reader);
        match endpoint_with(endpoints, gids.last()) {
            Some(endpoint) => before.push((endpoint, is_reader)),
            None => before,
        }
    }
}

/// The endpoints of a node: its readers, and its writers.
pub open spec fn node_endpoints(
    discovery_table: DiscoveryTable,
    node: NodeEntry,
) -> Seq<(EndpointEntry, bool)> {
    known(discovery_table.subscriptions@, node.reader_gids@, true) + known(
        discovery_table.publications@,
        node.writer_gids@,
        false,
    )
}

/// The endpoints of all nodes with a namespace and a name.
pub open spec fn named_endpoints(
    discovery_table: DiscoveryTable,
    nodes: Seq<NodeEntry>,
    namespace: Seq<char>,
    name: Seq<char>,
) -> Seq<(EndpointEntry, bool)>
    decreases nodes.len(),
{
    if nodes.len() == 0 {
        seq![]
    } else {
        let before = named_endpoints(discovery_table, nodes.drop_last(), namespace, name);
        if nodes.last().key.node_namespace@ == namespace && nodes.last().key.node_name@ == name {
            before + node_endpoints(discovery_table, nodes.last())
        } else {
            before
        }
    }
}

spec fn with_all(
    tables: NodeTables,
    endpoints: Seq<(EndpointEntry, bool)>,
) -> NodeTables
    decreases endpoints.len(),
{
    if endpoints.len() == 0 {
        tables
    } else {
        with_endpoint(
            with_all(tables, endpoints.drop_last()),
            endpoints.last().0,
            endpoints.last().1,
        )
    }
}

proof fn lemma_with_all_concat(
    tables: NodeTables,
    first: Seq<(EndpointEntry, bool)>,
    second: Seq<(EndpointEntry, bool)>,
)
    ensures
        with_all(tables, first + second) == with_all(with_all(tables, first), second),
    decreases second.len(),
{
    if second.len() == 0 {
        assert(first + second =~= first);
    } else {
        lemma_with_all_concat(tables, first, second.drop_last());
        assert((first + second).drop_last() =~= first + second.drop_last());
    }
}

proof fn lemma_known(
    tables: NodeTables,
    endpoints: Seq<EndpointEntry>,
    gids: Seq<TopicGid>,
    is_reader: bool,
)
    ensures
        with_endpoints(tables, endpoints, gids, is_reader) == with_all(
            tables,
            known(endpoints, gids, is_reader),
        ),
    decreases gids.len(),
{
    if gids.len() > 0 {
        lemma_known(tables, endpoints, gids.drop_last(), is_reader);
        match endpoint_with(endpoints, gids.last()) {
            Some(endpoint) => {
                let before = known(endpoints, gids.drop_last(), is_reader);
                assert(before.push((endpoint, is_reader)).drop_last() =~= before);
            },
            None => {},
        }
    }
}

proof fn lemma_node_map(
    discovery_table: DiscoveryTable,
    nodes: Seq<NodeEntry>,
    key: (Seq<char>, Seq<char>),
)
    ensures
        ({
            let map = node_map(discovery_table, nodes);
            (if map.contains_key(key) {
                map[key]
            } else {
                no_tables()
            }) == with_all(no_tables(), named_endpoints(discovery_table, nodes, key.0, key.1))
        }),
    decreases nodes.len(),
{
    if nodes.len() > 0 {
        let before = nodes.drop_last();
        let node = nodes.last();
        lemma_node_map(discovery_table, before, key);
        if node_shape(node) == key {
            let earlier = named_endpoints(discovery_table, before, key.0, key.1);
            let readers = known(discovery_table.subscriptions@, node.reader_gids@, true);
            let writers = known(discovery_table.publications@, node.writer_gids@, false);
            let tables = with_all(no_tables(), earlier);
            lemma_known(tables, discovery_table.subscriptions@, node.reader_gids@, true);
            lemma_known(
                with_all(tables, readers),
                discovery_table.publications@,
                node.writer_gids@,
                false,
            );
            lemma_with_all_concat(tables, readers, writers);
            lemma_with_all_concat(no_tables(), earlier, readers + writers);
        }
    }
}

/// Endpoint `i` makes its node a part of the given name, and none behind it does.
pub open spec fn last_made(
    endpoints: Seq<(EndpointEntry, bool)>,
    part: Part,
    name: Seq<char>,
    ros_type: Seq<char>,
    i: int,
) -> bool {
    &&& 0 <= i < endpoints.len()
    &&& made_by(endpoints[i].0, endpoints[i].1) == Some((part, name, ros_type))
    &&& forall|j: int|
        i < j < endpoints.len() ==> !makes(#[trigger] endpoints[j], part, name)
}

/// An endpoint makes its node a part of the given name.
pub open spec fn makes(endpoint: (EndpointEntry, bool), part: Part, name: Seq<char>) -> bool {
    made_by(endpoint.0, endpoint.1) matches Some((its_part, its_name, _)) && its_part == part
        && its_name == name
}

proof fn lemma_all_made(endpoints: Seq<(EndpointEntry, bool)>, part: Part, name: Seq<char>)
    ensures
        ({
            let names = names_of(with_all(no_tables(), endpoints), part);
            &&& names.contains_key(name) <==> exists|i: int|
                0 <= i < endpoints.len() && makes(#[trigger] endpoints[i], part, name)
            &&& names.contains_key(name) ==> exists|i: int|
                #[trigger] last_made(endpoints, part, name, names[name], i)
        }),
    decreases endpoints.len(),
{
    if endpoints.len() > 0 {
        let before = endpoints.drop_last();
        let last = endpoints.len() - 1;
        lemma_all_made(before, part, name);
        let earlier = names_of(with_all(no_tables(), before), part);
        let names = names_of(with_all(no_tables(), endpoints), part);
        if makes(endpoints[last], part, name) {
            assert(names.contains_key(name));
            assert(last_made(endpoints, part, name, names[name], last));
        } else {
            assert(names.contains_key(name) <==> earlier.contains_key(name));
            assert(earlier.contains_key(name) ==> names[name] == earlier[name]);
            if earlier.contains_key(name) {
                let i = choose|i: int|
                    #[trigger] last_made(before, part, name, earlier[name], i);
                assert(endpoints[i] == before[i]);
                assert(makes(endpoints[i], part, name));
                assert forall|j: int| i < j < endpoints.len() implies !makes(
                    #[trigger] endpoints[j],
                    part,
                    name,
                ) by {
                    if j < last {
                        assert(before[j] == endpoints[j]);
                    }
                }
                assert(last_made(endpoints, part, name, names[name], i));
            }
            if exists|i: int| 0 <= i < endpoints.len() && makes(#[trigger] endpoints[i], part, name) {
                let i = choose|i: int|
                    0 <= i < endpoints.len() && makes(#[trigger] endpoints[i], part, name);
                assert(makes(before[i], part, name));
            }
        }
    }
}

/// A node is described as what its endpoints make it, and as nothing else: every name is that
/// of an endpoint that one of the nodes with its namespace and name lists and that is known,
/// and every such endpoint has its name there. The type is that of the last of them.
pub proof fn law_node_described_by_its_endpoints(
    discovery_table: DiscoveryTable,
    nodes: Seq<NodeEntry>,
    namespace: Seq<char>,
    node_name: Seq<char>,
    part: Part,
    name: Seq<char>,
)
    requires
        node_map(discovery_table, nodes).contains_key((namespace, node_name)),
    ensures
        ({
            let names = names_of(node_map(discovery_table, nodes)[(namespace, node_name)], part);
            let endpoints = named_endpoints(discovery_table, nodes, namespace, node_name);
            &&& names.contains_key(name) <==> exists|i: int|
                0 <= i < endpoints.len() && makes(#[trigger] endpoints[i], part, name)
            &&& names.contains_key(name) ==> exists|i: int|
                #[trigger] last_made(endpoints, part, name, names[name], i)
        }),
{
    lemma_node_map(discovery_table, nodes, (namespace, node_name));
    lemma_all_made(
        named_endpoints(discovery_table, nodes, namespace, node_name),
        part,
        name,
    );
}

/// One more endpoint takes no name away from a node, and leaves the types of others alone.
pub proof fn law_endpoint_takes_no_name_away(
    tables: NodeTables,
    endpoint: EndpointEntry,
    is_reader: bool,
    part: Part,
    name: Seq<char>,
)
    requires
        names_of(tables, part).contains_key(name),
    ensures
        names_of(with_endpoint(tables, endpoint, is_reader), part).contains_key(name),
        !makes((endpoint, is_reader), part, name) ==> names_of(
            with_endpoint(tables, endpoint, is_reader),
            part,
        )[name] == names_of(tables, part)[name],
{
}

// Services.

/// The services of nodes, in order: what the first offers, what it calls, and so on.
pub open spec fn all_services(nodes: Seq<NodeDetails>) -> Seq<(Seq<char>, Seq<char>)>
    decreases nodes.len(),
{
    if nodes.len() == 0 {
        seq![]
    } else {
        all_services(nodes.drop_last()) + service_pairs(nodes.last().service_servers@)
            + service_pairs(nodes.last().service_clients@)
    }
}

/// Service `i` is the first of its name.
pub open spec fn first_service(
    services: Seq<(Seq<char>, Seq<char>)>,
    name: Seq<char>,
    ros_type: Seq<char>,
    i: int,
) -> bool {
    &&& 0 <= i < services.len()
    &&& services[i] == (name, ros_type)
    &&& forall|j: int| 0 <= j < i ==> (#[trigger] services[j]).0 != name
}

proof fn lemma_with_services_concat(
    map: Map<Seq<char>, Seq<char>>,
    first: Seq<(Seq<char>, Seq<char>)>,
    second: Seq<(Seq<char>, Seq<char>)>,
)
    ensures
        with_services(map, first + second) == with_services(with_services(map, first), second),
    decreases second.len(),
{
    if second.len() == 0 {
        assert(first + second =~= first);
    } else {
        lemma_with_services_concat(map, first, second.drop_last());
        assert((first + second).drop_last() =~= first + second.drop_last());
    }
}

proof fn lemma_service_map(nodes: Seq<NodeDetails>)
    ensures
        service_map(nodes) == with_services(Map::empty(), all_services(nodes)),
    decreases nodes.len(),
{
    if nodes.len() > 0 {
        let before = all_services(nodes.drop_last());
        let servers = service_pairs(nodes.last().service_servers@);
        let clients = service_pairs(nodes.last().service_clients@);
        lemma_service_map(nodes.drop_last());
        lemma_with_services_concat(Map::empty(), before, servers);
        lemma_with_services_concat(Map::empty(), before + servers, clients);
    }
}

proof fn lemma_first_service(services: Seq<(Seq<char>, Seq<char>)>, name: Seq<char>)
    ensures
        ({
            let map = with_services(Map::empty(), services);
            &&& map.contains_key(name) ==> exists|i: int|
                #[trigger] first_service(services, name, map[name], i)
            &&& !map.contains_key(name) ==> forall|i: int|
                0 <= i < services.len() ==> (#[trigger] services[i]).0 != name
        }),
    decreases services.len(),
{
    if services.len() > 0 {
        let before = services.drop_last();
        let last = services.len() - 1;
        lemma_first_service(before, name);
        let earlier = with_services(Map::empty(), before);
        let map = with_services(Map::empty(), services);
        if earlier.contains_key(name) {
            let i = choose|i: int| #[trigger] first_service(before, name, earlier[name], i);
            assert(first_service(services, name, map[name], i)) by {
                assert forall|j: int| 0 <= j < i implies (#[trigger] services[j]).0 != name by {
                    assert(before[j] == services[j]);
                }
            }
        } else {
            assert forall|j: int| 0 <= j < last implies (#[trigger] services[j]).0 != name by {
                assert(before[j] == services[j]);
            }
            if services[last].0 == name {
                assert(first_service(services, name, map[name], last));
            }
        }
    }
}

/// A service is listed if and only if a node offers or calls it, with the type that the first
/// of them gives.
pub proof fn law_service_has_its_first_type(nodes: Seq<NodeDetails>, name: Seq<char>)
    ensures
        service_map(nodes).contains_key(name) ==> exists|i: int| #[trigger]
            first_service(all_services(nodes), name, service_map(nodes)[name], i),
        !service_map(nodes).contains_key(name) ==> forall|i: int|
            0 <= i < all_services(nodes).len() ==> (#[trigger] all_services(nodes)[i]).0 != name,
{
    lemma_service_map(nodes);
    lemma_first_service(all_services(nodes), name);
}

// Actions.

/// All endpoints: the writers, and the readers.
pub open spec fn all_endpoints(discovery_table: DiscoveryTable) -> Seq<(EndpointEntry, bool)> {
    discovery_table.publications@.map_values(|endpoint: EndpointEntry| (endpoint, false))
        + discovery_table.subscriptions@.map_values(|endpoint: EndpointEntry| (endpoint, true))
}

/// What an endpoint says of an action: its name, its type and the side that it is on.
pub open spec fn says_action(endpoint: (EndpointEntry, bool)) -> Option<
    (Seq<char>, Option<Seq<char>>, ActionRole),
> {
    match topic_of(endpoint.0) {
        None => None,
        Some(topic) => action_endpoint(topic, type_of(endpoint.0), endpoint.1),
    }
}

/// An endpoint is of an action.
pub open spec fn is_of_action(endpoint: (EndpointEntry, bool), name: Seq<char>) -> bool {
    says_action(endpoint) matches Some((its_name, _, _)) && its_name == name
}

/// An endpoint puts a node with a full name on a side of an action.
pub open spec fn takes_side(
    endpoint: (EndpointEntry, bool),
    nodes: Seq<NodeEntry>,
    name: Seq<char>,
    role: ActionRole,
    path: Seq<char>,
) -> bool {
    &&& says_action(endpoint) matches Some((its_name, _, its_role))
    &&& its_name == name
    &&& its_role == role
    &&& node_of_endpoint(nodes, endpoint.0, endpoint.1) matches Some(node)
    &&& path == node_path(node.key.node_namespace@, node.key.node_name@)
}

/// Endpoint `i` is the first that gives an action a type.
pub open spec fn first_typed(
    endpoints: Seq<(EndpointEntry, bool)>,
    name: Seq<char>,
    ros_type: Seq<char>,
    i: int,
) -> bool {
    &&& 0 <= i < endpoints.len()
    &&& says_action(endpoints[i]) matches Some((its_name, its_type, _))
    &&& its_name == name
    &&& its_type == Some(ros_type)
    &&& forall|j: int| 0 <= j < i ==> !gives_type(#[trigger] endpoints[j], name)
}

/// An endpoint gives an action a type.
pub open spec fn gives_type(endpoint: (EndpointEntry, bool), name: Seq<char>) -> bool {
    says_action(endpoint) matches Some((its_name, its_type, _)) && its_name == name
        && its_type is Some
}

spec fn with_all_actions(
    map: Map<Seq<char>, ActionParts>,
    nodes: Seq<NodeEntry>,
    endpoints: Seq<(EndpointEntry, bool)>,
) -> Map<Seq<char>, ActionParts>
    decreases endpoints.len(),
{
    if endpoints.len() == 0 {
        map
    } else {
        with_action(
            with_all_actions(map, nodes, endpoints.drop_last()),
            nodes,
            endpoints.last().0,
            endpoints.last().1,
        )
    }
}

proof fn lemma_one_side(
    map: Map<Seq<char>, ActionParts>,
    nodes: Seq<NodeEntry>,
    first: Seq<(EndpointEntry, bool)>,
    endpoints: Seq<EndpointEntry>,
    is_reader: bool,
)
    ensures
        with_all_actions(
            map,
            nodes,
            first + endpoints.map_values(|endpoint: EndpointEntry| (endpoint, is_reader)),
        ) == with_actions(with_all_actions(map, nodes, first), nodes, endpoints, is_reader),
    decreases endpoints.len(),
{
    let all = endpoints.map_values(|endpoint: EndpointEntry| (endpoint, is_reader));
    if endpoints.len() == 0 {
        assert(first + all =~= first);
    } else {
        let fewer = endpoints.drop_last();
        let before = fewer.map_values(|endpoint: EndpointEntry| (endpoint, is_reader));
        lemma_one_side(map, nodes, first, fewer, is_reader);
        assert((first + all).drop_last() =~= first + before);
        assert((first + all).last() == (endpoints.last(), is_reader));
    }
}

proof fn lemma_action(
    nodes: Seq<NodeEntry>,
    endpoints: Seq<(EndpointEntry, bool)>,
    name: Seq<char>,
    path: Seq<char>,
)
    ensures
        ({
            let map = with_all_actions(Map::empty(), nodes, endpoints);
            &&& map.contains_key(name) <==> exists|i: int|
                0 <= i < endpoints.len() && is_of_action(#[trigger] endpoints[i], name)
            &&& map.contains_key(name) ==> {
                &&& map[name].clients.contains(path) <==> exists|i: int|
                    0 <= i < endpoints.len() && takes_side(
                        #[trigger] endpoints[i],
                        nodes,
                        name,
                        ActionRole::Client,
                        path,
                    )
                &&& map[name].servers.contains(path) <==> exists|i: int|
                    0 <= i < endpoints.len() && takes_side(
                        #[trigger] endpoints[i],
                        nodes,
                        name,
                        ActionRole::Server,
                        path,
                    )
                &&& match map[name].ros_type {
                    Some(ros_type) => exists|i: int|
                        #[trigger] first_typed(endpoints, name, ros_type, i),
                    None => forall|i: int|
                        0 <= i < endpoints.len() ==> !gives_type(#[trigger] endpoints[i], name),
                }
            }
        }),
    decreases endpoints.len(),
{
    if endpoints.len() > 0 {
        let before = endpoints.drop_last();
        let last = endpoints.len() - 1;
        let endpoint = endpoints[last];
        lemma_action(nodes, before, name, path);
        let earlier = with_all_actions(Map::empty(), nodes, before);
        let map = with_all_actions(Map::empty(), nodes, endpoints);
        assert forall|j: int| 0 <= j < last implies #[trigger] endpoints[j] == before[j] by {}
        if exists|i: int| 0 <= i < before.len() && is_of_action(#[trigger] before[i], name) {
            let i = choose|i: int| 0 <= i < before.len() && is_of_action(#[trigger] before[i], name);
            assert(is_of_action(endpoints[i], name));
        }
        if exists|i: int| 0 <= i < endpoints.len() && is_of_action(#[trigger] endpoints[i], name) {
            let i = choose|i: int|
                0 <= i < endpoints.len() && is_of_action(#[trigger] endpoints[i], name);
            if i < last {
                assert(is_of_action(before[i], name));
            }
        }
        if !earlier.contains_key(name) {
            assert forall|j: int| 0 <= j < before.len() implies !is_of_action(
                #[trigger] before[j],
                name,
            ) by {}
        }
        if is_of_action(endpoint, name) {
            assert(is_of_action(endpoints[last], name));
        }
        if map.contains_key(name) {
            lemma_action_side(nodes, endpoints, name, path, ActionRole::Client);
            lemma_action_side(nodes, endpoints, name, path, ActionRole::Server);
            if earlier.contains_key(name) && earlier[name].ros_type is Some {
                let ros_type = earlier[name].ros_type->0;
                let i = choose|i: int| #[trigger] first_typed(before, name, ros_type, i);
                assert(endpoints[i] == before[i]);
                assert(first_typed(endpoints, name, ros_type, i));
            } else {
                assert forall|j: int| 0 <= j < last implies !gives_type(
                    #[trigger] endpoints[j],
                    name,
                ) by {
                    assert(before[j] == endpoints[j]);
                    assert(!earlier.contains_key(name) ==> !is_of_action(before[j], name));
                }
                if gives_type(endpoint, name) {
                    assert(first_typed(endpoints, name, map[name].ros_type->0, last));
                }
            }
        }
    }
}

spec fn side(parts: ActionParts, role: ActionRole) -> Set<Seq<char>> {
    match role {
        ActionRole::Client => parts.clients,
        ActionRole::Server => parts.servers,
    }
}

proof fn lemma_action_side(
    nodes: Seq<NodeEntry>,
    endpoints: Seq<(EndpointEntry, bool)>,
    name: Seq<char>,
    path: Seq<char>,
    role: ActionRole,
)
    ensures
        ({
            let map = with_all_actions(Map::empty(), nodes, endpoints);
            map.contains_key(name) ==> (side(map[name], role).contains(path) <==> exists|i: int|
                0 <= i < endpoints.len() && takes_side(
                    #[trigger] endpoints[i],
                    nodes,
                    name,
                    role,
                    path,
                ))
        }),
        ({
            let map = with_all_actions(Map::empty(), nodes, endpoints);
            !map.contains_key(name) ==> forall|i: int|
                0 <= i < endpoints.len() ==> !is_of_action(#[trigger] endpoints[i], name)
        }),
    decreases endpoints.len(),
{
    if endpoints.len() > 0 {
        let before = endpoints.drop_last();
        let last = endpoints.len() - 1;
        lemma_action_side(nodes, before, name, path, role);
        let earlier = with_all_actions(Map::empty(), nodes, before);
        let map = with_all_actions(Map::empty(), nodes, endpoints);
        assert forall|j: int| 0 <= j < last implies #[trigger] endpoints[j] == before[j] by {}
        if exists|i: int|
            0 <= i < before.len() && takes_side(#[trigger] before[i], nodes, name, role, path) {
            let i = choose|i: int|
                0 <= i < before.len() && takes_side(#[trigger] before[i], nodes, name, role, path);
            assert(takes_side(endpoints[i], nodes, name, role, path));
            assert(is_of_action(before[i], name));
        }
        if exists|i: int|
            0 <= i < endpoints.len() && takes_side(
                #[trigger] endpoints[i],
                nodes,
                name,
                role,
                path,
            ) {
            let i = choose|i: int|
                0 <= i < endpoints.len() && takes_side(
                    #[trigger] endpoints[i],
                    nodes,
                    name,
                    role,
                    path,
                );
            if i < last {
                assert(takes_side(before[i], nodes, name, role, path));
                assert(is_of_action(before[i], name));
            }
        }
        if takes_side(endpoints[last], nodes, name, role, path) {
            assert(side(map[name], role).contains(path));
        }
    }
}

/// An action is described if and only if some endpoint is of it. Its clients and servers are
/// the nodes whose endpoints are on that side, and its type is the first that any endpoint
/// gives.
pub proof fn law_action_described_by_its_endpoints(
    discovery_table: DiscoveryTable,
    nodes: Seq<NodeEntry>,
    name: Seq<char>,
    path: Seq<char>,
)
    ensures
        ({
            let map = action_map(discovery_table, nodes);
            let endpoints = all_endpoints(discovery_table);
            &&& map.contains_key(name) <==> exists|i: int|
                0 <= i < endpoints.len() && is_of_action(#[trigger] endpoints[i], name)
            &&& map.contains_key(name) ==> {
                &&& map[name].clients.contains(path) <==> exists|i: int|
                    0 <= i < endpoints.len() && takes_side(
                        #[trigger] endpoints[i],
                        nodes,
                        name,
                        ActionRole::Client,
                        path,
                    )
                &&& map[name].servers.contains(path) <==> exists|i: int|
                    0 <= i < endpoints.len() && takes_side(
                        #[trigger] endpoints[i],
                        nodes,
                        name,
                        ActionRole::Server,
                        path,
                    )
                &&& match map[name].ros_type {
                    Some(ros_type) => exists|i: int|
                        #[trigger] first_typed(endpoints, name, ros_type, i),
                    None => forall|i: int|
                        0 <= i < endpoints.len() ==> !gives_type(#[trigger] endpoints[i], name),
                }
            }
        }),
{
    let none: Seq<(EndpointEntry, bool)> = seq![];
    let writers = discovery_table.publications@.map_values(
        |endpoint: EndpointEntry| (endpoint, false),
    );
    lemma_one_side(Map::empty(), nodes, none, discovery_table.publications@, false);
    assert(none + writers =~= writers);
    lemma_one_side(Map::empty(), nodes, writers, discovery_table.subscriptions@, true);
    lemma_action(nodes, all_endpoints(discovery_table), name, path);
}

} // verus!
