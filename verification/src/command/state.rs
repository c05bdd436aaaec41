//! The ROS graph as clients see it, put together from what discovery has found.

use crate::command::endpoints::{
    topic_details_from_view, topic_info_from_details, topic_summary, topic_view_details,
};
use crate::command::graph::{
    action_map, action_pairs, action_type_map, build_action_details, build_actions,
    build_node_details, build_services, lists_actions, lists_nodes, node_map, service_info_pairs,
    service_map,
};
use crate::command::protocol::{
    ActionDetails, ActionInfo, NodeDetails, NodeInfo, ServiceInfo, TopicDetails,
    TopicDetailsView, TopicInfo, TopicInfoView,
};
use crate::common::TopicGid;
use crate::discovery::tables::{DiscoveryTable, NodeEntry, NodeTable, TopicView};
use crate::sorted::is_listing;
use vstd::prelude::*;

verus! {

/// A snapshot of the ROS graph.
#[derive(Clone, Debug)]
pub struct CommandState {
    pub actions: Vec<ActionInfo>,
    pub action_details: Vec<ActionDetails>,
    pub nodes: Vec<NodeInfo>,
    pub node_details: Vec<NodeDetails>,
    pub services: Vec<ServiceInfo>,
    pub topics: Vec<TopicInfo>,
    pub topic_details: Vec<TopicDetails>,
}

impl Default for CommandState {
    /// The snapshot of an empty graph.
    fn default() -> (r: CommandState)
        ensures
            r.actions@.len() == 0,
            r.action_details@.len() == 0,
            r.nodes@.len() == 0,
            r.node_details@.len() == 0,
            r.services@.len() == 0,
            r.topics@.len() == 0,
            r.topic_details@.len() == 0,
    {
        CommandState {
            actions: Vec::new(),
            action_details: Vec::new(),
            nodes: Vec::new(),
            node_details: Vec::new(),
            services: Vec::new(),
            topics: Vec::new(),
            topic_details: Vec::new(),
        }
    }
}

/// The names and namespaces of nodes, in order.
pub open spec fn node_names(list: Seq<NodeInfo>) -> Seq<(Seq<char>, Seq<char>)> {
    list.map_values(|node: NodeInfo| (node.name@, node.namespace@))
}

/// The names and namespaces of the nodes of a table, in order.
pub open spec fn entry_names(list: Seq<NodeEntry>) -> Seq<(Seq<char>, Seq<char>)> {
    list.map_values(|node: NodeEntry| (node.key.node_name@, node.key.node_namespace@))
}

/// The views of a list of topics.
pub open spec fn topic_infos(list: Seq<TopicInfo>) -> Seq<TopicInfoView> {
    list.map_values(|topic: TopicInfo| topic@)
}

/// The views of a list of described topics.
pub open spec fn topic_details_views(list: Seq<TopicDetails>) -> Seq<TopicDetailsView> {
    list.map_values(|topic: TopicDetails| topic@)
}

/// What clients are told of topics, in order.
pub open spec fn topics_view(
    discovery_table: DiscoveryTable,
    nodes: Seq<NodeEntry>,
    topics: Seq<TopicView>,
    remote: Seq<TopicGid>,
) -> Seq<TopicDetailsView>
    decreases topics.len(),
{
    if topics.len() == 0 {
        seq![]
    } else {
        let before = topics_view(discovery_table, nodes, topics.drop_last(), remote);
        match topic_view_details(discovery_table, nodes, topics.last(), remote) {
            Some(details) => before.push(details),
            None => before,
        }
    }
}

fn node_info_from_entry(node: &NodeEntry) -> (r: NodeInfo)
    ensures
        r.name@ == node.key.node_name@,
        r.namespace@ == node.key.node_namespace@,
{
    NodeInfo { name: node.key.node_name.clone(), namespace: node.key.node_namespace.clone() }
}

fn node_infos(nodes: &Vec<NodeEntry>) -> (r: Vec<NodeInfo>)
    ensures
        node_names(r@) == entry_names(nodes@),
{
    let mut r: Vec<NodeInfo> = Vec::new();
    let mut i: usize = 0;
    while i < nodes.len()
        invariant
            i <= nodes.len(),
            r@.len() == i,
            forall|j: int|
                0 <= j < i ==> (#[trigger] r@[j]).name@ == nodes@[j].key.node_name@
                    && r@[j].namespace@ == nodes@[j].key.node_namespace@,
        decreases nodes.len() - i,
    {
        r.push(node_info_from_entry(&nodes[i]));
        i += 1;
    }
    assert(node_names(r@) =~= entry_names(nodes@));
    r
}

fn describe_topics(
    discovery_table: &DiscoveryTable,
    node_table: &NodeTable,
    remote_participants: &Vec<TopicGid>,
) -> (r: Vec<TopicDetails>)
    ensures
        topic_details_views(r@) == topics_view(
            *discovery_table,
            node_table.nodes@,
            discovery_table.topics@,
            remote_participants@,
        ),
{
    let ghost topics = discovery_table.topics@;
    let mut r: Vec<TopicDetails> = Vec::new();
    let mut i: usize = 0;
    assert(topic_details_views(r@) =~= seq![]);
    while i < discovery_table.topics.len()
        invariant
            topics == discovery_table.topics@,
            i <= topics.len(),
            topic_details_views(r@) == topics_view(
                *discovery_table,
                node_table.nodes@,
                topics.take(i as int),
                remote_participants@,
            ),
        decreases topics.len() - i,
    {
        assert(topics.take(i + 1).drop_last() =~= topics.take(i as int));
        let ghost before = topic_details_views(r@);
        match topic_details_from_view(
            discovery_table,
            node_table,
            &discovery_table.topics[i],
            remote_participants,
        ) {
            Some(details) => {
                r.push(details);
                assert(topic_details_views(r@) =~= before.push(details@));
            },
            None => {},
        }
        i += 1;
    }
    assert(topics.take(i as int) =~= topics);
    r
}

fn sum_up_topics(details: &Vec<TopicDetails>) -> (r: Vec<TopicInfo>)
    ensures
        topic_infos(r@) == topic_details_views(details@).map_values(
            |details: TopicDetailsView| topic_summary(details),
        ),
{
    let mut r: Vec<TopicInfo> = Vec::new();
    let mut i: usize = 0;
    while i < details.len()
        invariant
            i <= details.len(),
            r@.len() == i,
            forall|j: int| 0 <= j < i ==> (#[trigger] r@[j])@ == topic_summary(details@[j]@),
        decreases details.len() - i,
    {
        r.push(topic_info_from_details(&details[i]));
        i += 1;
    }
    assert(topic_infos(r@) =~= topic_details_views(details@).map_values(
        |details: TopicDetailsView| topic_summary(details),
    ));
    r
}

/// Takes a snapshot of the ROS graph. `remote_participants` are those that have been
/// seen from another host.
pub fn refresh_from_discovery(
    discovery_table: &DiscoveryTable,
    node_table: &NodeTable,
    remote_participants: &Vec<TopicGid>,
) -> (r: CommandState)
    ensures
        node_names(r.nodes@) == entry_names(node_table.nodes@),
        is_listing::<String, Option<Seq<char>>>(
            action_pairs(r.actions@),
            action_type_map(*discovery_table),
        ),
        lists_actions(r.action_details@, action_map(*discovery_table, node_table.nodes@)),
        lists_nodes(r.node_details@, node_map(*discovery_table, node_table.nodes@)),
        is_listing::<String, Seq<char>>(
            service_info_pairs(r.services@),
            service_map(r.node_details@),
        ),
        topic_details_views(r.topic_details@) == topics_view(
            *discovery_table,
            node_table.nodes@,
            discovery_table.topics@,
            remote_participants@,
        ),
        topic_infos(r.topics@) == topic_details_views(r.topic_details@).map_values(
            |details: TopicDetailsView| topic_summary(details),
        ),
{
    let nodes = node_infos(&node_table.nodes);
    let actions = build_actions(discovery_table);
    let action_details = build_action_details(discovery_table, node_table);
    let node_details = build_node_details(discovery_table, node_table);
    let services = build_services(&node_details);
    let topic_details = describe_topics(discovery_table, node_table, remote_participants);
    let topics = sum_up_topics(&topic_details);
    CommandState { actions, action_details, nodes, node_details, services, topics, topic_details }
}

} // verus!
