//! Topics and the endpoints on them, as clients see them.

use crate::command::names::{
    durability_text, duration_text, format_durability, format_duration, format_gid,
    format_liveliness, format_reliability, gid_text, liveliness_text, normalize_topic_name,
    normalize_type_name, reliability_text, ros_topic_name, ros_type_name,
};
use crate::command::protocol::{
    endpoint_views, TopicDetails, TopicDetailsView, TopicEndpointInfo, TopicEndpointView,
    TopicInfo, TopicInfoView,
};
use crate::common::TopicGid;
use crate::discovery::tables::{
    endpoint_with, has_gid, node_with_endpoint, nodes_of_participant, participant_with,
    DiscoveryTable, DurabilityQos, DurationValue, EndpointEntry, Locator, NodeEntry, NodeTable,
    ParticipantEntry, ReliabilityQos, TopicView,
};
use crate::text::{clone_texts, has_prefix, starts_with, text_opt, texts};
use vstd::prelude::*;
use vstd::string::*;

verus! {

// Endpoints that cannot be reached from other hosts.

pub const LOCATOR_KIND_UDPV4: i32 = 0x0000_0001;

pub const LOCATOR_KIND_UDPV6: i32 = 0x0000_0002;

pub const LOCATOR_KIND_TCPV4: i32 = 0x0000_0004;

pub const LOCATOR_KIND_TCPV6: i32 = 0x0000_0008;

/// Shared memory in FastDDS.
pub const LOCATOR_KIND_SHM_FASTDDS: i32 = 0x0100_0000;

/// Shared memory in CycloneDDS.
pub const LOCATOR_KIND_SHEM_CYCLONE: i32 = 0x0100_0003;

/// An IPv4 loopback address. IPv4 addresses fill the last four bytes.
pub open spec fn loopback_v4(address: [u8; 16]) -> bool {
    address[12] == 127
}

/// The IPv6 loopback address.
pub open spec fn loopback_v6(address: [u8; 16]) -> bool {
    address[15] == 1 && forall|i: int| 0 <= i < 15 ==> #[trigger] address[i] == 0
}

/// A locator is local if it is shared memory or a loopback address.
pub open spec fn local_locator(locator: Locator) -> bool {
    if locator.kind == LOCATOR_KIND_SHM_FASTDDS || locator.kind == LOCATOR_KIND_SHEM_CYCLONE {
        true
    } else if locator.kind == LOCATOR_KIND_UDPV4 || locator.kind == LOCATOR_KIND_TCPV4 {
        loopback_v4(locator.address)
    } else if locator.kind == LOCATOR_KIND_UDPV6 || locator.kind == LOCATOR_KIND_TCPV6 {
        loopback_v6(locator.address)
    } else {
        false
    }
}

/// An endpoint is local if it has locators and all of them are.
pub open spec fn local_endpoint(locators: Seq<Locator>) -> bool {
    locators.len() > 0 && forall|i: int|
        0 <= i < locators.len() ==> local_locator(#[trigger] locators[i])
}

fn is_loopback_v4(address: &[u8; 16]) -> (r: bool)
    ensures
        r == loopback_v4(*address),
{
    address[12] == 127
}

fn is_loopback_v6(address: &[u8; 16]) -> (r: bool)
    ensures
        r == loopback_v6(*address),
{
    let mut i: usize = 0;
    while i < 15
        invariant
            i <= 15,
            forall|j: int| 0 <= j < i ==> #[trigger] address[j] == 0,
        decreases 15 - i,
    {
        if address[i] != 0 {
            return false;
        }
        i += 1;
    }
    address[15] == 1
}

/// Whether a locator is local.
pub fn locator_is_local(locator: &Locator) -> (r: bool)
    ensures
        r == local_locator(*locator),
{
    if locator.kind == LOCATOR_KIND_SHM_FASTDDS || locator.kind == LOCATOR_KIND_SHEM_CYCLONE {
        true
    } else if locator.kind == LOCATOR_KIND_UDPV4 || locator.kind == LOCATOR_KIND_TCPV4 {
        is_loopback_v4(&locator.address)
    } else if locator.kind == LOCATOR_KIND_UDPV6 || locator.kind == LOCATOR_KIND_TCPV6 {
        is_loopback_v6(&locator.address)
    } else {
        false
    }
}

/// Whether an endpoint with the given locators is local.
pub fn is_local_endpoint(locators: &[Locator]) -> (r: bool)
    ensures
        r == local_endpoint(locators@),
{
    if locators.len() == 0 {
        return false;
    }
    let mut i: usize = 0;
    while i < locators.len()
        invariant
            i <= locators@.len(),
            forall|j: int| 0 <= j < i ==> local_locator(#[trigger] locators@[j]),
        decreases locators@.len() - i,
    {
        if !locator_is_local(&locators[i]) {
            return false;
        }
        i += 1;
    }
    true
}

// Endpoints.

/// The node that an endpoint belongs to: the one that lists it, or the only node of
/// its participant.
pub open spec fn node_of_endpoint(
    nodes: Seq<NodeEntry>,
    endpoint: EndpointEntry,
    is_reader: bool,
) -> Option<NodeEntry> {
    match node_with_endpoint(nodes, endpoint.endpoint_gid, is_reader) {
        Some(node) => Some(node),
        None => match endpoint.participant_gid {
            None => None,
            Some(gid) => {
                let list = nodes_of_participant(nodes, gid);
                if list.len() == 1 {
                    Some(list[0])
                } else {
                    None
                }
            },
        },
    }
}

/// Finds the node that an endpoint belongs to.
pub(crate) fn endpoint_node<'a>(node_table: &'a NodeTable, endpoint: &EndpointEntry, is_reader: bool) -> (r:
    Option<&'a NodeEntry>)
    ensures
        match r {
            Some(node) => node_of_endpoint(node_table.nodes@, *endpoint, is_reader) == Some(*node),
            None => node_of_endpoint(node_table.nodes@, *endpoint, is_reader) is None,
        },
{
    match node_table.node_for_endpoint(&endpoint.endpoint_gid, is_reader) {
        Some(node) => return Some(node),
        None => {},
    }
    match endpoint.participant_gid {
        None => None,
        Some(gid) => node_table.only_node_of_participant(&gid),
    }
}

/// The locators of an endpoint's participant.
pub open spec fn participant_locators(
    participants: Seq<ParticipantEntry>,
    endpoint: EndpointEntry,
) -> Seq<Locator> {
    match endpoint.participant_gid {
        None => seq![],
        Some(gid) => match participant_with(participants, gid) {
            None => seq![],
            Some(participant) => participant.default_unicast_locators@,
        },
    }
}

/// The locators of an endpoint: its own, or those of its participant.
pub open spec fn effective_locators(
    participants: Seq<ParticipantEntry>,
    endpoint: EndpointEntry,
) -> Seq<Locator> {
    if endpoint.unicast_locators@.len() == 0 {
        participant_locators(participants, endpoint)
    } else {
        endpoint.unicast_locators@
    }
}

/// Whether all traffic of an endpoint stays on its host, by its locators.
fn endpoint_is_shm(discovery_table: &DiscoveryTable, endpoint: &EndpointEntry) -> (r: bool)
    ensures
        r == local_endpoint(effective_locators(discovery_table.participants@, *endpoint)),
{
    if endpoint.unicast_locators.len() > 0 {
        return is_local_endpoint(endpoint.unicast_locators.as_slice());
    }
    match endpoint.participant_gid {
        None => false,
        Some(gid) => match discovery_table.participant(&gid) {
            None => false,
            Some(participant) => is_local_endpoint(participant.default_unicast_locators.as_slice()),
        },
    }
}

pub open spec fn reliability_opt(qos: Option<ReliabilityQos>) -> Option<Seq<char>> {
    match qos {
        Some(qos) => Some(reliability_text(qos)),
        None => None,
    }
}

pub open spec fn durability_opt(qos: Option<DurabilityQos>) -> Option<Seq<char>> {
    match qos {
        Some(qos) => Some(durability_text(qos)),
        None => None,
    }
}

pub open spec fn duration_opt(value: Option<DurationValue>) -> Option<Seq<char>> {
    match value {
        Some(value) => Some(duration_text(value)),
        None => None,
    }
}

/// The ROS type of an endpoint, if it has announced one.
pub open spec fn endpoint_type_opt(endpoint: EndpointEntry) -> Option<Seq<char>> {
    match endpoint.ros_type {
        Some(ros_type) => Some(ros_type_name(ros_type@)),
        None => None,
    }
}

/// What clients are told of an endpoint.
pub open spec fn endpoint_view(
    discovery_table: DiscoveryTable,
    nodes: Seq<NodeEntry>,
    endpoint: EndpointEntry,
    is_reader: bool,
    local_only: bool,
) -> TopicEndpointView {
    let node = node_of_endpoint(nodes, endpoint, is_reader);
    TopicEndpointView {
        gid: gid_text(endpoint.endpoint_gid),
        node_name: match node {
            Some(node) => Some(node.key.node_name@),
            None => None,
        },
        node_namespace: match node {
            Some(node) => Some(node.key.node_namespace@),
            None => None,
        },
        topic_type: endpoint_type_opt(endpoint),
        endpoint_type: if is_reader {
            "SUBSCRIPTION"@
        } else {
            "PUBLISHER"@
        },
        reliability: reliability_opt(endpoint.reliability),
        durability: durability_opt(endpoint.durability),
        deadline: duration_opt(endpoint.deadline),
        lifespan: duration_opt(endpoint.lifespan),
        liveliness: match endpoint.liveliness {
            Some(qos) => Some(liveliness_text(qos)),
            None => None,
        },
        liveliness_lease_duration: match endpoint.liveliness {
            Some(qos) => Some(duration_text(qos.lease_duration)),
            None => None,
        },
        shm: local_endpoint(effective_locators(discovery_table.participants@, endpoint)),
        local_only,
    }
}

fn format_duration_opt(value: Option<DurationValue>) -> (r: Option<String>)
    ensures
        text_opt(r) == duration_opt(value),
{
    match value {
        Some(value) => Some(format_duration(value)),
        None => None,
    }
}

/// The ROS type of an endpoint.
fn endpoint_type(endpoint: &EndpointEntry) -> (r: Option<String>)
    ensures
        text_opt(r) == endpoint_type_opt(*endpoint),
{
    match &endpoint.ros_type {
        Some(ros_type) => Some(normalize_type_name(ros_type.as_str())),
        None => None,
    }
}

/// Describes an endpoint.
fn endpoint_info(
    discovery_table: &DiscoveryTable,
    node_table: &NodeTable,
    endpoint: &EndpointEntry,
    is_reader: bool,
    local_only: bool,
) -> (r: TopicEndpointInfo)
    ensures
        r@ == endpoint_view(*discovery_table, node_table.nodes@, *endpoint, is_reader, local_only),
{
    let node = endpoint_node(node_table, endpoint, is_reader);
    let (node_name, node_namespace) = match node {
        Some(node) => (Some(node.key.node_name.clone()), Some(node.key.node_namespace.clone())),
        None => (None, None),
    };
    let reliability = match endpoint.reliability {
        Some(qos) => Some(format_reliability(qos)),
        None => None,
    };
    let durability = match endpoint.durability {
        Some(qos) => Some(format_durability(qos)),
        None => None,
    };
    let (liveliness, liveliness_lease_duration) = match endpoint.liveliness {
        Some(qos) => (Some(format_liveliness(qos)), Some(format_duration(qos.lease_duration))),
        None => (None, None),
    };
    TopicEndpointInfo {
        gid: format_gid(&endpoint.endpoint_gid),
        node_name,
        node_namespace,
        topic_type: endpoint_type(endpoint),
        endpoint_type: if is_reader { "SUBSCRIPTION".to_owned() } else { "PUBLISHER".to_owned() },
        reliability,
        durability,
        deadline: format_duration_opt(endpoint.deadline),
        lifespan: format_duration_opt(endpoint.lifespan),
        liveliness,
        liveliness_lease_duration,
        shm: endpoint_is_shm(discovery_table, endpoint),
        local_only,
    }
}

// Topics.

/// The participant of an endpoint has been seen from another host.
pub open spec fn remote_endpoint(endpoint: EndpointEntry, remote: Seq<TopicGid>) -> bool {
    endpoint.participant_gid matches Some(gid) && remote.contains(gid)
}

/// What clients are told of the endpoints with the given identifiers, in order. A
/// writer is local unless its participant has been seen from another host.
pub open spec fn endpoints_view(
    discovery_table: DiscoveryTable,
    nodes: Seq<NodeEntry>,
    gids: Seq<TopicGid>,
    is_reader: bool,
    remote: Seq<TopicGid>,
) -> Seq<TopicEndpointView>
    decreases gids.len(),
{
    if gids.len() == 0 {
        seq![]
    } else {
        let before = endpoints_view(discovery_table, nodes, gids.drop_last(), is_reader, remote);
        match endpoint_with(table_side(discovery_table, is_reader), gids.last()) {
            None => before,
            Some(endpoint) => before.push(
                endpoint_view(
                    discovery_table,
                    nodes,
                    endpoint,
                    is_reader,
                    !is_reader && !remote_endpoint(endpoint, remote),
                ),
            ),
        }
    }
}

/// The readers or the writers of a table.
pub open spec fn table_side(discovery_table: DiscoveryTable, is_reader: bool) -> Seq<
    EndpointEntry,
> {
    if is_reader {
        discovery_table.subscriptions@
    } else {
        discovery_table.publications@
    }
}

/// The endpoint with identifier `gid` is on another host.
pub open spec fn remote_gid(
    discovery_table: DiscoveryTable,
    gid: TopicGid,
    is_reader: bool,
    remote: Seq<TopicGid>,
) -> bool {
    endpoint_with(table_side(discovery_table, is_reader), gid) matches Some(endpoint)
        && remote_endpoint(endpoint, remote)
}

/// Some of the endpoints is on another host.
pub open spec fn any_remote(
    discovery_table: DiscoveryTable,
    gids: Seq<TopicGid>,
    is_reader: bool,
    remote: Seq<TopicGid>,
) -> bool {
    exists|i: int|
        0 <= i < gids.len() && remote_gid(discovery_table, #[trigger] gids[i], is_reader, remote)
}

/// What clients are told of a topic. Topics of services, and names that are no ROS
/// names, are left out. A topic is local if no endpoint on it is on another host.
pub open spec fn topic_view_details(
    discovery_table: DiscoveryTable,
    nodes: Seq<NodeEntry>,
    topic: TopicView,
    remote: Seq<TopicGid>,
) -> Option<TopicDetailsView> {
    if starts_with(topic.topic_name@, "rq/"@) || starts_with(topic.topic_name@, "rr/"@) {
        None
    } else {
        match ros_topic_name(topic.topic_name@) {
            None => None,
            Some(name) => Some(
                TopicDetailsView {
                    name,
                    type_names: texts(topic.type_names@).map_values(
                        |ros_type: Seq<char>| ros_type_name(ros_type),
                    ),
                    publisher_count: topic.publisher_count,
                    subscription_count: topic.subscription_count,
                    publishers: endpoints_view(
                        discovery_table,
                        nodes,
                        topic.publisher_gids@,
                        false,
                        remote,
                    ),
                    subscriptions: endpoints_view(
                        discovery_table,
                        nodes,
                        topic.subscription_gids@,
                        true,
                        remote,
                    ),
                    local_only: !any_remote(
                        discovery_table,
                        topic.publisher_gids@,
                        false,
                        remote,
                    ) && !any_remote(discovery_table, topic.subscription_gids@, true, remote),
                },
            ),
        }
    }
}

fn endpoint_by_gid<'a>(
    discovery_table: &'a DiscoveryTable,
    gid: &TopicGid,
    is_reader: bool,
) -> (r: Option<&'a EndpointEntry>)
    ensures
        match r {
            Some(endpoint) => endpoint_with(table_side(*discovery_table, is_reader), *gid) == Some(
                *endpoint,
            ),
            None => endpoint_with(table_side(*discovery_table, is_reader), *gid) is None,
        },
{
    if is_reader {
        discovery_table.subscription(gid)
    } else {
        discovery_table.publication(gid)
    }
}

fn endpoint_is_remote(endpoint: &EndpointEntry, remote_participants: &Vec<TopicGid>) -> (r: bool)
    ensures
        r == remote_endpoint(*endpoint, remote_participants@),
{
    match endpoint.participant_gid {
        None => false,
        Some(gid) => has_gid(remote_participants, &gid),
    }
}

fn endpoint_infos(
    discovery_table: &DiscoveryTable,
    node_table: &NodeTable,
    gids: &Vec<TopicGid>,
    is_reader: bool,
    remote_participants: &Vec<TopicGid>,
) -> (r: Vec<TopicEndpointInfo>)
    ensures
        endpoint_views(r@) == endpoints_view(
            *discovery_table,
            node_table.nodes@,
            gids@,
            is_reader,
            remote_participants@,
        ),
{
    let mut r: Vec<TopicEndpointInfo> = Vec::new();
    let mut i: usize = 0;
    assert(endpoint_views(r@) =~= seq![]);
    while i < gids.len()
        invariant
            i <= gids.len(),
            endpoint_views(r@) == endpoints_view(
                *discovery_table,
                node_table.nodes@,
                gids@.take(i as int),
                is_reader,
                remote_participants@,
            ),
        decreases gids.len() - i,
    {
        assert(gids@.take(i + 1).drop_last() =~= gids@.take(i as int));
        let ghost before = endpoint_views(r@);
        match endpoint_by_gid(discovery_table, &gids[i], is_reader) {
            None => {},
            Some(endpoint) => {
                let local_only = !is_reader && !endpoint_is_remote(endpoint, remote_participants);
                let info = endpoint_info(
                    discovery_table,
                    node_table,
                    endpoint,
                    is_reader,
                    local_only,
                );
                r.push(info);
                assert(endpoint_views(r@) =~= before.push(info@));
            },
        }
        i += 1;
    }
    assert(gids@.take(i as int) =~= gids@);
    r
}

fn has_remote(
    discovery_table: &DiscoveryTable,
    gids: &Vec<TopicGid>,
    is_reader: bool,
    remote_participants: &Vec<TopicGid>,
) -> (r: bool)
    ensures
        r == any_remote(*discovery_table, gids@, is_reader, remote_participants@),
{
    let mut i: usize = 0;
    while i < gids.len()
        invariant
            i <= gids.len(),
            forall|j: int|
                0 <= j < i ==> !remote_gid(
                    *discovery_table,
                    #[trigger] gids@[j],
                    is_reader,
                    remote_participants@,
                ),
        decreases gids.len() - i,
    {
        match endpoint_by_gid(discovery_table, &gids[i], is_reader) {
            None => {},
            Some(endpoint) => {
                if endpoint_is_remote(endpoint, remote_participants) {
                    assert(remote_gid(
                        *discovery_table,
                        gids@[i as int],
                        is_reader,
                        remote_participants@,
                    ));
                    return true;
                }
            },
        }
        i += 1;
    }
    false
}

fn normalize_type_names(type_names: &Vec<String>) -> (r: Vec<String>)
    ensures
        texts(r@) == texts(type_names@).map_values(|ros_type: Seq<char>| ros_type_name(ros_type)),
{
    let mut r: Vec<String> = Vec::new();
    let mut i: usize = 0;
    while i < type_names.len()
        invariant
            i <= type_names.len(),
            r@.len() == i,
            forall|j: int| 0 <= j < i ==> (#[trigger] r@[j])@ == ros_type_name(type_names@[j]@),
        decreases type_names.len() - i,
    {
        r.push(normalize_type_name(type_names[i].as_str()));
        i += 1;
    }
    assert(texts(r@) =~= texts(type_names@).map_values(
        |ros_type: Seq<char>| ros_type_name(ros_type),
    ));
    r
}

/// Describes a topic and the endpoints on it.
pub fn topic_details_from_view(
    discovery_table: &DiscoveryTable,
    node_table: &NodeTable,
    topic: &TopicView,
    remote_participants: &Vec<TopicGid>,
) -> (r: Option<TopicDetails>)
    ensures
        match (
            r,
            topic_view_details(
                *discovery_table,
                node_table.nodes@,
                *topic,
                remote_participants@,
            ),
        ) {
            (Some(details), Some(want)) => details@ == want,
            (None, None) => true,
            _ => false,
        },
{
    if has_prefix(topic.topic_name.as_str(), "rq/") || has_prefix(topic.topic_name.as_str(), "rr/") {
        return None;
    }
    let name = match normalize_topic_name(topic.topic_name.as_str()) {
        None => return None,
        Some(name) => name,
    };
    let publishers = endpoint_infos(
        discovery_table,
        node_table,
        &topic.publisher_gids,
        false,
        remote_participants,
    );
    let subscriptions = endpoint_infos(
        discovery_table,
        node_table,
        &topic.subscription_gids,
        true,
        remote_participants,
    );
    let local_only = !has_remote(
        discovery_table,
        &topic.publisher_gids,
        false,
        remote_participants,
    ) && !has_remote(discovery_table, &topic.subscription_gids, true, remote_participants);
    Some(
        TopicDetails {
            name,
            type_names: normalize_type_names(&topic.type_names),
            publisher_count: topic.publisher_count,
            subscription_count: topic.subscription_count,
            publishers,
            subscriptions,
            local_only,
        },
    )
}

/// What a list shows of a topic.
pub open spec fn topic_summary(details: TopicDetailsView) -> TopicInfoView {
    TopicInfoView {
        name: details.name,
        type_names: details.type_names,
        publisher_count: details.publisher_count,
        subscription_count: details.subscription_count,
        local_only: details.local_only,
    }
}

/// Sums up a topic.
pub fn topic_info_from_details(details: &TopicDetails) -> (r: TopicInfo)
    ensures
        r@ == topic_summary(details@),
{
    TopicInfo {
        name: details.name.clone(),
        type_names: clone_texts(&details.type_names),
        publisher_count: details.publisher_count,
        subscription_count: details.subscription_count,
        local_only: details.local_only,
    }
}

} // verus!
