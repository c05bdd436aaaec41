//! What a snapshot of the ROS graph tells of what discovery has found.

use crate::assoc::{has_key, key_at, lemma_as_map};
use crate::command::endpoints::{
    effective_locators, endpoints_view, local_endpoint, local_locator, node_of_endpoint,
    topic_summary, topic_view_details,
};
use crate::command::graph::{
    action_map, action_pairs, action_type_map, lists_actions, lists_nodes, node_map, node_shape,
    service_info_pairs, service_map,
};
use crate::command::graph_laws::{law_action_lists_agree, law_every_node_described};
use crate::command::names::{
    durability_text, duration_text, gid_text, liveliness_text, reliability_text, ros_topic_name,
    ros_type_name, ActionRole,
};
use crate::command::name_laws::law_topic_name_reads_back;
use crate::command::node_laws::{
    all_endpoints, all_services, first_service, first_typed, gives_type, is_of_action, known,
    last_made, law_action_described_by_its_endpoints, law_node_described_by_its_endpoints,
    law_service_has_its_first_type, makes, named_endpoints, takes_side, Part,
};
use crate::command::protocol::{
    ActionDetails, ActionInfo, NodeDetails, NodeInfo, ServiceInfo, TopicDetailsView,
    TopicEndpointView,
};
use crate::command::state::{entry_names, node_names, topics_view};
use crate::common::TopicGid;
use crate::discovery::tables::{
    endpoint_with, node_with_endpoint, nodes_of_participant, participant_with, DiscoveryTable,
    EndpointEntry, Locator, NodeEntry, TopicView,
};
use crate::sorted::{is_listing, lemma_sorted_unique, text_before};
use crate::text::{starts_with, text_opt, texts};
use crate::text_laws::law_prefix_taken_off;
use vstd::prelude::*;
use vstd::string::*;

verus! {

proof fn lemma_listing<V>(pairs: Seq<(Seq<char>, V)>, map: Map<Seq<char>, V>)
    requires
        is_listing::<String, V>(pairs, map),
    ensures
        forall|k: int|
            0 <= k < pairs.len() ==> map.contains_key((#[trigger] pairs[k]).0) && map[pairs[k].0]
                == pairs[k].1,
        forall|name: Seq<char>| #[trigger]
            map.contains_key(name) ==> exists|k: int|
                0 <= k < pairs.len() && (#[trigger] pairs[k]).0 == name,
        forall|i: int, j: int|
            0 <= i < j < pairs.len() ==> text_before(
                (#[trigger] pairs[i]).0,
                (#[trigger] pairs[j]).0,
            ),
{
    lemma_sorted_unique::<String, V>(pairs);
    lemma_as_map(pairs);
    assert forall|name: Seq<char>| #[trigger] map.contains_key(name) implies exists|k: int|
        0 <= k < pairs.len() && (#[trigger] pairs[k]).0 == name by {
        assert(has_key(pairs, name));
        let k = choose|k: int| key_at(pairs, k, name);
        assert(pairs[k].0 == name);
    }
    assert forall|k: int| 0 <= k < pairs.len() implies map.contains_key((#[trigger] pairs[k]).0)
        && map[pairs[k].0] == pairs[k].1 by {
        assert(key_at(pairs, k, pairs[k].0));
        assert(has_key(pairs, pairs[k].0));
    }
}

// Nodes.

/// The nodes of a snapshot are those that discovery has found, in order, with their names and
/// namespaces.
pub proof fn law_nodes_listed(list: Seq<NodeInfo>, nodes: Seq<NodeEntry>)
    requires
        node_names(list) == entry_names(nodes),
    ensures
        list.len() == nodes.len(),
        forall|i: int|
            0 <= i < list.len() ==> (#[trigger] list[i]).name@ == nodes[i].key.node_name@
                && list[i].namespace@ == nodes[i].key.node_namespace@,
{
    assert(node_names(list).len() == list.len());
    assert(entry_names(nodes).len() == nodes.len());
    assert forall|i: int| 0 <= i < list.len() implies (#[trigger] list[i]).name@
        == nodes[i].key.node_name@ && list[i].namespace@ == nodes[i].key.node_namespace@ by {
        assert(node_names(list)[i] == entry_names(nodes)[i]);
    }
}

/// What a node is described as, of which names and types.
pub open spec fn described(details: NodeDetails, part: Part) -> Seq<(Seq<char>, Seq<char>)> {
    match part {
        Part::Subscriber => Seq::new(
            details.subscribers@.len(),
            |i: int| (details.subscribers@[i].name@, details.subscribers@[i].ros_type@),
        ),
        Part::Publisher => Seq::new(
            details.publishers@.len(),
            |i: int| (details.publishers@[i].name@, details.publishers@[i].ros_type@),
        ),
        Part::Server => Seq::new(
            details.service_servers@.len(),
            |i: int| (details.service_servers@[i].name@, details.service_servers@[i].ros_type@),
        ),
        Part::Client => Seq::new(
            details.service_clients@.len(),
            |i: int| (details.service_clients@[i].name@, details.service_clients@[i].ros_type@),
        ),
    }
}

/// The name is one that the endpoints make, and the type is that of the last that makes it.
pub open spec fn typed_by_last(
    endpoints: Seq<(EndpointEntry, bool)>,
    part: Part,
    entry: (Seq<char>, Seq<char>),
) -> bool {
    exists|e: int| #[trigger] last_made(endpoints, part, entry.0, entry.1, e)
}

/// Every node that discovery has found is described, once for its namespace and name, and its
/// lists are in order. It is described as a publisher, a subscriber, a server or a client of
/// just those names that its known endpoints make it, with the type of the last such
/// endpoint.
pub proof fn law_node_details_tell_of_endpoints(
    list: Seq<NodeDetails>,
    discovery_table: DiscoveryTable,
    nodes: Seq<NodeEntry>,
    i: int,
    part: Part,
    name: Seq<char>,
)
    requires
        lists_nodes(list, node_map(discovery_table, nodes)),
        0 <= i < list.len(),
    ensures
        exists|n: int|
            0 <= n < nodes.len() && (#[trigger] nodes[n]).key.node_namespace@ == list[i].namespace@
                && nodes[n].key.node_name@ == list[i].name@,
        ({
            let names = described(list[i], part);
            let endpoints = named_endpoints(
                discovery_table,
                nodes,
                list[i].namespace@,
                list[i].name@,
            );
            &&& (exists|k: int| 0 <= k < names.len() && (#[trigger] names[k]).0 == name)
                <==> exists|e: int|
                0 <= e < endpoints.len() && makes(#[trigger] endpoints[e], part, name)
            &&& forall|k: int|
                0 <= k < names.len() ==> typed_by_last(endpoints, part, #[trigger] names[k])
            &&& forall|k: int, m: int|
                0 <= k < m < names.len() ==> text_before(
                    (#[trigger] names[k]).0,
                    (#[trigger] names[m]).0,
                )
        }),
{
    let map = node_map(discovery_table, nodes);
    let details = list[i];
    let key = (details.namespace@, details.name@);
    assert(map.contains_key(key));
    law_every_node_described(discovery_table, nodes, key);
    let n = choose|n: int| 0 <= n < nodes.len() && node_shape(#[trigger] nodes[n]) == key;
    assert(nodes[n].key.node_namespace@ == details.namespace@);
    let names = described(details, part);
    let tables = map[key];
    let table = crate::command::node_laws::names_of(tables, part);
    match part {
        Part::Subscriber => {
            assert(names =~= crate::command::graph::endpoint_pairs(details.subscribers@));
        },
        Part::Publisher => {
            assert(names =~= crate::command::graph::endpoint_pairs(details.publishers@));
        },
        Part::Server => {
            assert(names =~= crate::command::graph::service_pairs(details.service_servers@));
        },
        Part::Client => {
            assert(names =~= crate::command::graph::service_pairs(details.service_clients@));
        },
    }
    lemma_listing(names, table);
    law_node_described_by_its_endpoints(discovery_table, nodes, key.0, key.1, part, name);
    let endpoints = named_endpoints(discovery_table, nodes, key.0, key.1);
    assert forall|k: int| 0 <= k < names.len() implies typed_by_last(
        endpoints,
        part,
        #[trigger] names[k],
    ) by {
        law_node_described_by_its_endpoints(
            discovery_table,
            nodes,
            key.0,
            key.1,
            part,
            names[k].0,
        );
    }
}

/// No node that discovery has found is left out, and none is described twice. They are in the
/// order of their namespaces, and those of one namespace in the order of their names.
pub proof fn law_every_node_described_once(
    list: Seq<NodeDetails>,
    discovery_table: DiscoveryTable,
    nodes: Seq<NodeEntry>,
    n: int,
)
    requires
        lists_nodes(list, node_map(discovery_table, nodes)),
        0 <= n < nodes.len(),
    ensures
        exists|i: int|
            0 <= i < list.len() && (#[trigger] list[i]).namespace@ == nodes[n].key.node_namespace@
                && list[i].name@ == nodes[n].key.node_name@,
        forall|i: int, j: int|
            0 <= i < j < list.len() ==> (#[trigger] list[i]).namespace@ != (
            #[trigger] list[j]).namespace@ || list[i].name@ != list[j].name@,
        forall|i: int, j: int|
            0 <= i < j < list.len() ==> text_before(
                (#[trigger] list[i]).namespace@,
                (#[trigger] list[j]).namespace@,
            ) || (list[i].namespace@ == list[j].namespace@ && text_before(
                list[i].name@,
                list[j].name@,
            )),
{
    let key = node_shape(nodes[n]);
    law_every_node_described(discovery_table, nodes, key);
    assert(node_map(discovery_table, nodes).contains_key(key));
    let i = choose|i: int|
        0 <= i < list.len() && ((#[trigger] list[i]).namespace@, list[i].name@) == key;
    assert(list[i].namespace@ == nodes[n].key.node_namespace@);
    assert forall|i: int, j: int| 0 <= i < j < list.len() implies (
    #[trigger] list[i]).namespace@ != (#[trigger] list[j]).namespace@ || list[i].name@
        != list[j].name@ by {
        if list[i].namespace@ == list[j].namespace@ && list[i].name@ == list[j].name@ {
            <crate::sorted::ScopedName as crate::sorted::SortKey>::irreflexive(
                (list[i].namespace@, list[i].name@),
            );
        }
    }
}

// Services and actions.

/// The type is that of the first service of the name.
pub open spec fn typed_by_first(
    services: Seq<(Seq<char>, Seq<char>)>,
    name: Seq<char>,
    ros_type: Seq<char>,
) -> bool {
    exists|i: int| #[trigger] first_service(services, name, ros_type, i)
}

/// The services of a snapshot are those that its nodes offer or call, in order, each with the
/// type that the first of them gives.
pub proof fn law_services_listed(
    list: Seq<ServiceInfo>,
    nodes: Seq<NodeDetails>,
    name: Seq<char>,
)
    requires
        is_listing::<String, Seq<char>>(service_info_pairs(list), service_map(nodes)),
    ensures
        (exists|k: int| 0 <= k < list.len() && (#[trigger] list[k]).name@ == name) <==> exists|i:
            int|
            0 <= i < all_services(nodes).len() && (#[trigger] all_services(nodes)[i]).0 == name,
        forall|k: int|
            0 <= k < list.len() ==> typed_by_first(
                all_services(nodes),
                (#[trigger] list[k]).name@,
                list[k].ros_type@,
            ),
        forall|k: int, m: int|
            0 <= k < m < list.len() ==> text_before(
                (#[trigger] list[k]).name@,
                (#[trigger] list[m]).name@,
            ),
{
    let pairs = service_info_pairs(list);
    let map = service_map(nodes);
    lemma_listing(pairs, map);
    assert forall|k: int| 0 <= k < list.len() implies (#[trigger] list[k]).name@ == pairs[k].0
        && list[k].ros_type@ == pairs[k].1 by {}
    law_service_has_its_first_type(nodes, name);
    if map.contains_key(name) {
        let k = choose|k: int| 0 <= k < pairs.len() && (#[trigger] pairs[k]).0 == name;
        assert(list[k].name@ == name);
        let i = choose|i: int| #[trigger] first_service(all_services(nodes), name, map[name], i);
        assert(all_services(nodes)[i].0 == name);
    } else {
        if exists|k: int| 0 <= k < list.len() && (#[trigger] list[k]).name@ == name {
            let k = choose|k: int| 0 <= k < list.len() && (#[trigger] list[k]).name@ == name;
            assert(pairs[k].0 == name);
        }
    }
    assert forall|k: int| 0 <= k < list.len() implies typed_by_first(
        all_services(nodes),
        (#[trigger] list[k]).name@,
        list[k].ros_type@,
    ) by {
        law_service_has_its_first_type(nodes, pairs[k].0);
    }
    assert forall|k: int, m: int| 0 <= k < m < list.len() implies text_before(
        (#[trigger] list[k]).name@,
        (#[trigger] list[m]).name@,
    ) by {
        assert(text_before(pairs[k].0, pairs[m].0));
    }
}

/// The actions of a snapshot are those that some endpoint is of, in order, each described
/// with the nodes whose endpoints are on either side, in order, and with the first type that
/// any endpoint gives.
pub proof fn law_action_details_tell_of_endpoints(
    list: Seq<ActionDetails>,
    discovery_table: DiscoveryTable,
    nodes: Seq<NodeEntry>,
    name: Seq<char>,
    i: int,
    path: Seq<char>,
)
    requires
        lists_actions(list, action_map(discovery_table, nodes)),
        0 <= i < list.len(),
    ensures
        ({
            let endpoints = all_endpoints(discovery_table);
            &&& (exists|k: int| 0 <= k < list.len() && (#[trigger] list[k]).name@ == name)
                <==> exists|e: int|
                0 <= e < endpoints.len() && is_of_action(#[trigger] endpoints[e], name)
            &&& texts(list[i].clients@).contains(path) <==> exists|e: int|
                0 <= e < endpoints.len() && takes_side(
                    #[trigger] endpoints[e],
                    nodes,
                    list[i].name@,
                    ActionRole::Client,
                    path,
                )
            &&& texts(list[i].servers@).contains(path) <==> exists|e: int|
                0 <= e < endpoints.len() && takes_side(
                    #[trigger] endpoints[e],
                    nodes,
                    list[i].name@,
                    ActionRole::Server,
                    path,
                )
            &&& match text_opt(list[i].ros_type) {
                Some(ros_type) => exists|e: int|
                    #[trigger] first_typed(endpoints, list[i].name@, ros_type, e),
                None => forall|e: int|
                    0 <= e < endpoints.len() ==> !gives_type(
                        #[trigger] endpoints[e],
                        list[i].name@,
                    ),
            }
        }),
        forall|k: int, m: int|
            0 <= k < m < list.len() ==> text_before(
                (#[trigger] list[k]).name@,
                (#[trigger] list[m]).name@,
            ),
        forall|k: int, m: int|
            0 <= k < m < texts(list[i].clients@).len() ==> text_before(
                #[trigger] texts(list[i].clients@)[k],
                #[trigger] texts(list[i].clients@)[m],
            ),
        forall|k: int, m: int|
            0 <= k < m < texts(list[i].servers@).len() ==> text_before(
                #[trigger] texts(list[i].servers@)[k],
                #[trigger] texts(list[i].servers@)[m],
            ),
{
    let map = action_map(discovery_table, nodes);
    law_action_described_by_its_endpoints(discovery_table, nodes, name, path);
    law_action_described_by_its_endpoints(discovery_table, nodes, list[i].name@, path);
    if map.contains_key(name) {
        let k = choose|k: int| 0 <= k < list.len() && (#[trigger] list[k]).name@ == name;
        assert(list[k].name@ == name);
    }
    assert(map.contains_key(list[i].name@));
    assert(texts(list[i].clients@).to_set().contains(path) <==> texts(
        list[i].clients@,
    ).contains(path));
    assert(texts(list[i].servers@).to_set().contains(path) <==> texts(
        list[i].servers@,
    ).contains(path));
}

/// The list of actions has those that are described, with the same types.
pub proof fn law_actions_listed(
    list: Seq<ActionInfo>,
    described: Seq<ActionDetails>,
    discovery_table: DiscoveryTable,
    nodes: Seq<NodeEntry>,
    k: int,
)
    requires
        is_listing::<String, Option<Seq<char>>>(
            action_pairs(list),
            action_type_map(discovery_table),
        ),
        lists_actions(described, action_map(discovery_table, nodes)),
    ensures
        0 <= k < list.len() ==> exists|i: int|
            0 <= i < described.len() && (#[trigger] described[i]).name@ == list[k].name@ && text_opt(
                described[i].ros_type,
            ) == text_opt(list[k].ros_type),
        0 <= k < described.len() ==> exists|i: int|
            0 <= i < list.len() && (#[trigger] list[i]).name@ == described[k].name@,
{
    let pairs = action_pairs(list);
    lemma_listing(pairs, action_type_map(discovery_table));
    if 0 <= k < list.len() {
        let name = list[k].name@;
        assert(pairs[k] == (name, text_opt(list[k].ros_type)));
        law_action_lists_agree(discovery_table, nodes, name);
        let i = choose|i: int|
            0 <= i < described.len() && (#[trigger] described[i]).name@ == name;
        assert(described[i].name@ == name);
    }
    if 0 <= k < described.len() {
        let name = described[k].name@;
        law_action_lists_agree(discovery_table, nodes, name);
        let i = choose|i: int| 0 <= i < pairs.len() && (#[trigger] pairs[i]).0 == name;
        assert(list[i].name@ == name);
    }
}

// Topics.

/// The participant of an endpoint has been seen from another host.
pub open spec fn from_elsewhere(endpoint: EndpointEntry, remote: Seq<TopicGid>) -> bool {
    endpoint.participant_gid is Some && remote.contains(endpoint.participant_gid->0)
}

/// The participant of some of the endpoints has been seen from another host.
pub open spec fn some_elsewhere(
    endpoints: Seq<(EndpointEntry, bool)>,
    remote: Seq<TopicGid>,
) -> bool {
    exists|i: int|
        0 <= i < endpoints.len() && from_elsewhere((#[trigger] endpoints[i]).0, remote)
}

/// `view` tells what is known of an endpoint: its identifier, type, side and QoS, and the node
/// that it belongs to.
pub open spec fn tells_endpoint(
    view: TopicEndpointView,
    discovery_table: DiscoveryTable,
    nodes: Seq<NodeEntry>,
    endpoint: EndpointEntry,
    is_reader: bool,
    remote: Seq<TopicGid>,
) -> bool {
    let node = node_of_endpoint(nodes, endpoint, is_reader);
    &&& view.gid == gid_text(endpoint.endpoint_gid)
    &&& view.endpoint_type == if is_reader {
        "SUBSCRIPTION"@
    } else {
        "PUBLISHER"@
    }
    &&& node is Some ==> view.node_name == Some(node->0.key.node_name@) && view.node_namespace
        == Some(node->0.key.node_namespace@)
    &&& node is None ==> view.node_name is None && view.node_namespace is None
    &&& endpoint.ros_type is None <==> view.topic_type is None
    &&& view.topic_type matches Some(name) ==> name == ros_type_name(endpoint.ros_type->0@)
    &&& endpoint.reliability is None <==> view.reliability is None
    &&& view.reliability matches Some(text) ==> text == reliability_text(endpoint.reliability->0)
    &&& endpoint.durability is None <==> view.durability is None
    &&& view.durability matches Some(text) ==> text == durability_text(endpoint.durability->0)
    &&& endpoint.deadline is None <==> view.deadline is None
    &&& view.deadline matches Some(text) ==> text == duration_text(endpoint.deadline->0)
    &&& endpoint.lifespan is None <==> view.lifespan is None
    &&& view.lifespan matches Some(text) ==> text == duration_text(endpoint.lifespan->0)
    &&& endpoint.liveliness is None <==> view.liveliness is None
    &&& endpoint.liveliness is None <==> view.liveliness_lease_duration is None
    &&& view.liveliness matches Some(text) ==> text == liveliness_text(endpoint.liveliness->0)
    &&& view.liveliness_lease_duration matches Some(text) ==> text == duration_text(
        endpoint.liveliness->0.lease_duration,
    )
    &&& view.shm == local_endpoint(
        effective_locators(discovery_table.participants@, endpoint),
    )
    &&& view.local_only == (!is_reader && !from_elsewhere(endpoint, remote))
}

proof fn lemma_endpoints_told(
    discovery_table: DiscoveryTable,
    nodes: Seq<NodeEntry>,
    gids: Seq<TopicGid>,
    is_reader: bool,
    remote: Seq<TopicGid>,
)
    ensures
        ({
            let views = endpoints_view(discovery_table, nodes, gids, is_reader, remote);
            let list = if is_reader {
                discovery_table.subscriptions@
            } else {
                discovery_table.publications@
            };
            let endpoints = known(list, gids, is_reader);
            &&& views.len() == endpoints.len()
            &&& forall|i: int|
                0 <= i < views.len() ==> tells_endpoint(
                    #[trigger] views[i],
                    discovery_table,
                    nodes,
                    endpoints[i].0,
                    is_reader,
                    remote,
                )
        }),
    decreases gids.len(),
{
    if gids.len() > 0 {
        lemma_endpoints_told(discovery_table, nodes, gids.drop_last(), is_reader, remote);
    }
}

proof fn lemma_all_known(endpoints: Seq<EndpointEntry>, gids: Seq<TopicGid>, is_reader: bool)
    ensures
        known(endpoints, gids, is_reader).len() <= gids.len(),
        (forall|i: int| 0 <= i < gids.len() ==> endpoint_with(endpoints, #[trigger] gids[i]) is Some)
            ==> known(endpoints, gids, is_reader).len() == gids.len() && forall|i: int|
            0 <= i < gids.len() ==> Some((#[trigger] known(endpoints, gids, is_reader)[i]).0)
                == endpoint_with(endpoints, gids[i]),
    decreases gids.len(),
{
    if gids.len() > 0 {
        let before = gids.drop_last();
        lemma_all_known(endpoints, before, is_reader);
        if forall|i: int|
            0 <= i < gids.len() ==> endpoint_with(endpoints, #[trigger] gids[i]) is Some {
            assert forall|i: int| 0 <= i < before.len() implies endpoint_with(
                endpoints,
                #[trigger] before[i],
            ) is Some by {
                assert(before[i] == gids[i]);
            }
            assert(endpoint_with(endpoints, gids[gids.len() - 1]) is Some);
            assert forall|i: int| 0 <= i < gids.len() implies Some(
                (#[trigger] known(endpoints, gids, is_reader)[i]).0,
            ) == endpoint_with(endpoints, gids[i]) by {
                if i < before.len() {
                    assert(before[i] == gids[i]);
                    assert(known(endpoints, gids, is_reader)[i] == known(
                        endpoints,
                        before,
                        is_reader,
                    )[i]);
                }
            }
        }
    }
}

/// A topic is described with its name, its types, and as many publishers and subscriptions as
/// discovery has found on it. Its publishers are the known writers of the topic, and its
/// subscriptions the known readers, each with what is known of it. It stays on this host if
/// and only if no participant on it has been seen from elsewhere.
pub proof fn law_topic_details_tell_of_topic(
    discovery_table: DiscoveryTable,
    nodes: Seq<NodeEntry>,
    topic: TopicView,
    remote: Seq<TopicGid>,
    name: Seq<char>,
)
    requires
        topic.topic_name@ == "rt/"@ + name,
    ensures
        topic_view_details(discovery_table, nodes, topic, remote) matches Some(details) && {
            let writers = known(discovery_table.publications@, topic.publisher_gids@, false);
            let readers = known(discovery_table.subscriptions@, topic.subscription_gids@, true);
            &&& details.name == "/"@ + name
            &&& details.type_names.len() == topic.type_names@.len()
            &&& forall|i: int|
                0 <= i < details.type_names.len() ==> #[trigger] details.type_names[i]
                    == ros_type_name(topic.type_names@[i]@)
            &&& details.publisher_count == topic.publisher_count
            &&& details.subscription_count == topic.subscription_count
            &&& details.publishers.len() == writers.len()
            &&& details.subscriptions.len() == readers.len()
            &&& forall|i: int|
                0 <= i < writers.len() ==> tells_endpoint(
                    #[trigger] details.publishers[i],
                    discovery_table,
                    nodes,
                    writers[i].0,
                    false,
                    remote,
                )
            &&& forall|i: int|
                0 <= i < readers.len() ==> tells_endpoint(
                    #[trigger] details.subscriptions[i],
                    discovery_table,
                    nodes,
                    readers[i].0,
                    true,
                    remote,
                )
            &&& details.local_only <==> !some_elsewhere(writers, remote) && !some_elsewhere(
                readers,
                remote,
            )
        },
{
    reveal_strlit("rt/");
    reveal_strlit("rq/");
    reveal_strlit("rr/");
    law_topic_name_reads_back(name, topic.topic_name@);
    let text = topic.topic_name@;
    if starts_with(text, "rq/"@) {
        assert(text.subrange(0, 3)[1] == text[1]);
    }
    if starts_with(text, "rr/"@) {
        assert(text.subrange(0, 3)[1] == text[1]);
    }
    lemma_endpoints_told(discovery_table, nodes, topic.publisher_gids@, false, remote);
    lemma_endpoints_told(discovery_table, nodes, topic.subscription_gids@, true, remote);
    lemma_any_remote(discovery_table, topic.publisher_gids@, false, remote);
    lemma_any_remote(discovery_table, topic.subscription_gids@, true, remote);
    let details = topic_view_details(discovery_table, nodes, topic, remote)->0;
    assert(texts(topic.type_names@).len() == topic.type_names@.len());
    assert forall|i: int| 0 <= i < details.type_names.len() implies #[trigger] details.type_names[i]
        == ros_type_name(topic.type_names@[i]@) by {
        assert(texts(topic.type_names@)[i] == topic.type_names@[i]@);
    }
}

proof fn lemma_any_remote(
    discovery_table: DiscoveryTable,
    gids: Seq<TopicGid>,
    is_reader: bool,
    remote: Seq<TopicGid>,
)
    ensures
        ({
            let list = if is_reader {
                discovery_table.subscriptions@
            } else {
                discovery_table.publications@
            };
            let endpoints = known(list, gids, is_reader);
            crate::command::endpoints::any_remote(discovery_table, gids, is_reader, remote)
                <==> some_elsewhere(endpoints, remote)
        }),
    decreases gids.len(),
{
    let list = if is_reader {
        discovery_table.subscriptions@
    } else {
        discovery_table.publications@
    };
    let endpoints = known(list, gids, is_reader);
    if gids.len() > 0 {
        let before = gids.drop_last();
        let last = gids.len() - 1;
        let fewer = known(list, before, is_reader);
        lemma_any_remote(discovery_table, before, is_reader, remote);
        assert forall|i: int| 0 <= i < fewer.len() implies #[trigger] endpoints[i] == fewer[i] by {}
        if some_elsewhere(fewer, remote) {
            let i = choose|i: int|
                0 <= i < fewer.len() && from_elsewhere((#[trigger] fewer[i]).0, remote);
            assert(from_elsewhere(endpoints[i].0, remote));
        }
        if crate::command::endpoints::any_remote(discovery_table, before, is_reader, remote) {
            let i = choose|i: int|
                0 <= i < before.len() && crate::command::endpoints::remote_gid(
                    discovery_table,
                    #[trigger] before[i],
                    is_reader,
                    remote,
                );
            assert(before[i] == gids[i]);
        }
        if crate::command::endpoints::any_remote(discovery_table, gids, is_reader, remote) {
            let i = choose|i: int|
                0 <= i < gids.len() && crate::command::endpoints::remote_gid(
                    discovery_table,
                    #[trigger] gids[i],
                    is_reader,
                    remote,
                );
            if i < last {
                assert(before[i] == gids[i]);
            } else {
                let n = endpoints.len() - 1;
                assert(from_elsewhere(endpoints[n].0, remote));
            }
        }
        if some_elsewhere(endpoints, remote) {
            let i = choose|i: int|
                0 <= i < endpoints.len() && from_elsewhere((#[trigger] endpoints[i]).0, remote);
            if i < fewer.len() {
                assert(from_elsewhere(fewer[i].0, remote));
            } else {
                assert(crate::command::endpoints::remote_gid(
                    discovery_table,
                    gids[last],
                    is_reader,
                    remote,
                ));
            }
        }
    }
}

/// Where discovery counts the writers and readers that it lists, and knows them all, a topic
/// has as many publishers as it says, and as many subscriptions.
pub proof fn law_counts_are_those_of_the_lists(
    discovery_table: DiscoveryTable,
    nodes: Seq<NodeEntry>,
    topic: TopicView,
    remote: Seq<TopicGid>,
)
    requires
        topic.publisher_count == topic.publisher_gids@.len(),
        topic.subscription_count == topic.subscription_gids@.len(),
        forall|i: int|
            0 <= i < topic.publisher_gids@.len() ==> endpoint_with(
                discovery_table.publications@,
                #[trigger] topic.publisher_gids@[i],
            ) is Some,
        forall|i: int|
            0 <= i < topic.subscription_gids@.len() ==> endpoint_with(
                discovery_table.subscriptions@,
                #[trigger] topic.subscription_gids@[i],
            ) is Some,
    ensures
        topic_view_details(discovery_table, nodes, topic, remote) matches Some(details)
            ==> details.publisher_count == details.publishers.len() && details.subscription_count
            == details.subscriptions.len(),
{
    lemma_endpoints_told(discovery_table, nodes, topic.publisher_gids@, false, remote);
    lemma_endpoints_told(discovery_table, nodes, topic.subscription_gids@, true, remote);
    lemma_all_known(discovery_table.publications@, topic.publisher_gids@, false);
    lemma_all_known(discovery_table.subscriptions@, topic.subscription_gids@, true);
}

/// Topics of services are not described, nor what is no ROS topic.
pub proof fn law_other_topics_are_left_out(
    discovery_table: DiscoveryTable,
    nodes: Seq<NodeEntry>,
    topic: TopicView,
    remote: Seq<TopicGid>,
    name: Seq<char>,
)
    requires
        topic.topic_name@ == "rq/"@ + name || topic.topic_name@ == "rr/"@ + name
            || ros_topic_name(topic.topic_name@) is None,
    ensures
        topic_view_details(discovery_table, nodes, topic, remote) is None,
{
    law_prefix_taken_off("rq/"@ + name, "rq/"@, name);
    law_prefix_taken_off("rr/"@ + name, "rr/"@, name);
}

/// The topics of a snapshot are in the order in which discovery has them. Those that are not
/// described are passed over, and no other is.
pub proof fn law_topics_in_order(
    discovery_table: DiscoveryTable,
    nodes: Seq<NodeEntry>,
    topics: Seq<TopicView>,
    remote: Seq<TopicGid>,
    more: Seq<TopicView>,
    topic: TopicView,
)
    ensures
        topics_view(discovery_table, nodes, topics + more, remote) == topics_view(
            discovery_table,
            nodes,
            topics,
            remote,
        ) + topics_view(discovery_table, nodes, more, remote),
        topics_view(discovery_table, nodes, seq![topic], remote) == (match topic_view_details(
            discovery_table,
            nodes,
            topic,
            remote,
        ) {
            Some(details) => seq![details],
            None => Seq::<TopicDetailsView>::empty(),
        }),
    decreases more.len(),
{
    reveal_with_fuel(topics_view, 2);
    let one = seq![topic];
    assert(one.drop_last() =~= seq![]);
    assert(topics_view(discovery_table, nodes, one, remote) =~= (match topic_view_details(
        discovery_table,
        nodes,
        topic,
        remote,
    ) {
        Some(details) => seq![details],
        None => Seq::<TopicDetailsView>::empty(),
    }));
    if more.len() == 0 {
        assert(topics + more =~= topics);
        assert(topics_view(discovery_table, nodes, topics, remote) + topics_view(
            discovery_table,
            nodes,
            more,
            remote,
        ) =~= topics_view(discovery_table, nodes, topics, remote));
    } else {
        law_topics_in_order(discovery_table, nodes, topics, remote, more.drop_last(), topic);
        assert((topics + more).drop_last() =~= topics + more.drop_last());
        assert(topics_view(discovery_table, nodes, topics + more, remote) =~= topics_view(
            discovery_table,
            nodes,
            topics,
            remote,
        ) + topics_view(discovery_table, nodes, more, remote));
    }
}

/// What a list shows of a topic is what its description says.
pub proof fn law_summary_agrees(details: TopicDetailsView)
    ensures
        topic_summary(details).name == details.name,
        topic_summary(details).type_names == details.type_names,
        topic_summary(details).publisher_count == details.publisher_count,
        topic_summary(details).subscription_count == details.subscription_count,
        topic_summary(details).local_only == details.local_only,
{
}

// Endpoints.

/// An endpoint belongs to the first node that lists it. Where none does, it belongs to the node
/// of its participant, if that has just one.
pub proof fn law_endpoint_belongs_to_node(
    nodes: Seq<NodeEntry>,
    endpoint: EndpointEntry,
    is_reader: bool,
)
    ensures
        node_with_endpoint(nodes, endpoint.endpoint_gid, is_reader) is Some ==> node_of_endpoint(
            nodes,
            endpoint,
            is_reader,
        ) == node_with_endpoint(nodes, endpoint.endpoint_gid, is_reader),
        node_with_endpoint(nodes, endpoint.endpoint_gid, is_reader) is None
            && endpoint.participant_gid is None ==> node_of_endpoint(
            nodes,
            endpoint,
            is_reader,
        ) is None,
        node_with_endpoint(nodes, endpoint.endpoint_gid, is_reader) is None ==> (
        endpoint.participant_gid matches Some(gid) ==> {
            let owned = nodes_of_participant(nodes, gid);
            let node = node_of_endpoint(nodes, endpoint, is_reader);
            &&& owned.len() == 1 ==> node == Some(owned[0])
            &&& owned.len() != 1 ==> node is None
        }),
{
}

/// A locator is of this host if it is shared memory, in the IPv4 loopback network or the IPv6
/// loopback address. An endpoint stays on this host if it has locators of its own and all of
/// them are, or none and those of its participant are.
pub proof fn law_local_endpoints(
    discovery_table: DiscoveryTable,
    endpoint: EndpointEntry,
    locator: Locator,
)
    ensures
        local_locator(locator) <==> {
            ||| locator.kind == 0x0100_0000 || locator.kind == 0x0100_0003
            ||| (locator.kind == 1 || locator.kind == 4) && locator.address[12] == 127
            ||| (locator.kind == 2 || locator.kind == 8) && locator.address[15] == 1 && forall|
                i: int,
            |
                0 <= i < 15 ==> #[trigger] locator.address[i] == 0
        },
        endpoint.unicast_locators@.len() > 0 ==> (local_endpoint(
            effective_locators(discovery_table.participants@, endpoint),
        ) <==> forall|i: int|
            0 <= i < endpoint.unicast_locators@.len() ==> local_locator(
                #[trigger] endpoint.unicast_locators@[i],
            )),
        endpoint.unicast_locators@.len() == 0 && endpoint.participant_gid is None
            ==> !local_endpoint(effective_locators(discovery_table.participants@, endpoint)),
        endpoint.unicast_locators@.len() == 0 ==> (endpoint.participant_gid matches Some(gid)
            ==> match participant_with(discovery_table.participants@, gid) {
            None => !local_endpoint(effective_locators(discovery_table.participants@, endpoint)),
            Some(participant) => local_endpoint(
                effective_locators(discovery_table.participants@, endpoint),
            ) <==> participant.default_unicast_locators@.len() > 0 && forall|i: int|
                0 <= i < participant.default_unicast_locators@.len() ==> local_locator(
                    #[trigger] participant.default_unicast_locators@[i],
                ),
        }),
{
}

} // verus!
