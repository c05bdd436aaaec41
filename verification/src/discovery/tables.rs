//! The participants, endpoints and nodes that discovery has found.

use crate::common::TopicGid;
use vstd::prelude::*;

verus! {

/// A node as its participant announces it.
pub struct NodeSample {
    pub participant_gid: TopicGid,
    pub node_namespace: String,
    pub node_name: String,
    pub writer_gids: Vec<TopicGid>,
    pub reader_gids: Vec<TopicGid>,
}

/// What a [`NodeSample`] holds.
#[verifier::ext_equal]
pub struct NodeSampleView {
    pub participant_gid: TopicGid,
    pub node_namespace: Seq<char>,
    pub node_name: Seq<char>,
    pub writer_gids: Seq<TopicGid>,
    pub reader_gids: Seq<TopicGid>,
}

impl View for NodeSample {
    type V = NodeSampleView;

    open spec fn view(&self) -> NodeSampleView {
        NodeSampleView {
            participant_gid: self.participant_gid,
            node_namespace: self.node_namespace@,
            node_name: self.node_name@,
            writer_gids: self.writer_gids@,
            reader_gids: self.reader_gids@,
        }
    }
}

/// How reliably samples are delivered.
#[derive(Clone, Copy, Debug, Eq, PartialEq)]
pub struct ReliabilityQos {
    pub kind: u32,
}

/// How long samples are kept for late joiners.
#[derive(Clone, Copy, Debug, Eq, PartialEq)]
pub struct DurabilityQos {
    pub kind: u32,
}

/// A span of time: seconds and a fraction.
#[derive(Clone, Copy, Debug, Eq, PartialEq)]
pub struct DurationValue {
    pub seconds: i32,
    pub fraction: u32,
}

/// How an endpoint shows that it is alive.
#[derive(Clone, Copy, Debug, Eq, PartialEq)]
pub struct LivelinessQos {
    pub kind: u32,
    pub lease_duration: DurationValue,
}

/// Where an endpoint or a participant can be reached.
#[derive(Clone, Copy, Debug, Eq, PartialEq)]
pub struct Locator {
    pub kind: i32,
    pub port: u32,
    pub address: [u8; 16],
}

/// A writer or a reader that discovery has found.
pub struct EndpointEntry {
    pub endpoint_gid: TopicGid,
    pub participant_gid: Option<TopicGid>,
    pub topic_name: Option<String>,
    pub ros_type: Option<String>,
    pub unicast_locators: Vec<Locator>,
    pub reliability: Option<ReliabilityQos>,
    pub durability: Option<DurabilityQos>,
    pub deadline: Option<DurationValue>,
    pub lifespan: Option<DurationValue>,
    pub liveliness: Option<LivelinessQos>,
}

/// A participant that discovery has found.
pub struct ParticipantEntry {
    pub participant_gid: TopicGid,
    pub default_unicast_locators: Vec<Locator>,
}

/// What tells nodes apart.
pub struct NodeKey {
    pub participant_gid: TopicGid,
    pub node_namespace: String,
    pub node_name: String,
}

/// A node that discovery has found.
pub struct NodeEntry {
    pub key: NodeKey,
    pub reader_gids: Vec<TopicGid>,
    pub writer_gids: Vec<TopicGid>,
}

/// A topic, with the endpoints on it.
pub struct TopicView {
    pub topic_name: String,
    pub type_names: Vec<String>,
    pub publisher_gids: Vec<TopicGid>,
    pub subscription_gids: Vec<TopicGid>,
    pub publisher_count: usize,
    pub subscription_count: usize,
}

/// The endpoints, participants and topics that discovery has found.
pub struct DiscoveryTable {
    pub publications: Vec<EndpointEntry>,
    pub subscriptions: Vec<EndpointEntry>,
    pub participants: Vec<ParticipantEntry>,
    pub topics: Vec<TopicView>,
}

/// The nodes that discovery has found.
pub struct NodeTable {
    pub nodes: Vec<NodeEntry>,
}

/// The first endpoint of a list with the given identifier.
pub open spec fn endpoint_with(list: Seq<EndpointEntry>, gid: TopicGid) -> Option<EndpointEntry>
    decreases list.len(),
{
    if list.len() == 0 {
        None
    } else if list[0].endpoint_gid == gid {
        Some(list[0])
    } else {
        endpoint_with(list.skip(1), gid)
    }
}

/// The first participant of a list with the given identifier.
pub open spec fn participant_with(list: Seq<ParticipantEntry>, gid: TopicGid) -> Option<
    ParticipantEntry,
>
    decreases list.len(),
{
    if list.len() == 0 {
        None
    } else if list[0].participant_gid == gid {
        Some(list[0])
    } else {
        participant_with(list.skip(1), gid)
    }
}

/// Finds the endpoint with the given identifier.
fn find_endpoint<'a>(list: &'a Vec<EndpointEntry>, gid: &TopicGid) -> (r: Option<
    &'a EndpointEntry,
>)
    ensures
        match r {
            Some(endpoint) => endpoint_with(list@, *gid) == Some(*endpoint),
            None => endpoint_with(list@, *gid) is None,
        },
{
    let mut i: usize = 0;
    assert(list@.skip(0) =~= list@);
    while i < list.len()
        invariant
            i <= list.len(),
            endpoint_with(list@, *gid) == endpoint_with(list@.skip(i as int), *gid),
        decreases list.len() - i,
    {
        assert(list@.skip(i as int).skip(1) =~= list@.skip(i + 1));
        if list[i].endpoint_gid.same(gid) {
            return Some(&list[i]);
        }
        i += 1;
    }
    None
}

impl DiscoveryTable {
    /// The writer with the given identifier.
    pub fn publication(&self, gid: &TopicGid) -> (r: Option<&EndpointEntry>)
        ensures
            match r {
                Some(endpoint) => endpoint_with(self.publications@, *gid) == Some(*endpoint),
                None => endpoint_with(self.publications@, *gid) is None,
            },
    {
        find_endpoint(&self.publications, gid)
    }

    /// The reader with the given identifier.
    pub fn subscription(&self, gid: &TopicGid) -> (r: Option<&EndpointEntry>)
        ensures
            match r {
                Some(endpoint) => endpoint_with(self.subscriptions@, *gid) == Some(*endpoint),
                None => endpoint_with(self.subscriptions@, *gid) is None,
            },
    {
        find_endpoint(&self.subscriptions, gid)
    }

    /// The participant with the given identifier.
    pub fn participant(&self, gid: &TopicGid) -> (r: Option<&ParticipantEntry>)
        ensures
            match r {
                Some(participant) => participant_with(self.participants@, *gid) == Some(
                    *participant,
                ),
                None => participant_with(self.participants@, *gid) is None,
            },
    {
        let list = &self.participants;
        let mut i: usize = 0;
        assert(list@.skip(0) =~= list@);
        while i < list.len()
            invariant
                list == &self.participants,
                i <= list.len(),
                participant_with(list@, *gid) == participant_with(list@.skip(i as int), *gid),
            decreases list.len() - i,
        {
            assert(list@.skip(i as int).skip(1) =~= list@.skip(i + 1));
            if list[i].participant_gid.same(gid) {
                return Some(&list[i]);
            }
            i += 1;
        }
        None
    }
}

/// Whether an identifier is in a list.
pub fn has_gid(list: &Vec<TopicGid>, gid: &TopicGid) -> (r: bool)
    ensures
        r == list@.contains(*gid),
{
    let mut i: usize = 0;
    while i < list.len()
        invariant
            i <= list.len(),
            forall|j: int| 0 <= j < i ==> #[trigger] list@[j] != *gid,
        decreases list.len() - i,
    {
        if list[i].same(gid) {
            assert(list@[i as int] == *gid);
            return true;
        }
        i += 1;
    }
    false
}

/// The first node of a list that has the given reader, or writer.
pub open spec fn node_with_endpoint(list: Seq<NodeEntry>, gid: TopicGid, is_reader: bool) -> Option<
    NodeEntry,
>
    decreases list.len(),
{
    if list.len() == 0 {
        None
    } else if (if is_reader {
        list[0].reader_gids@.contains(gid)
    } else {
        list[0].writer_gids@.contains(gid)
    }) {
        Some(list[0])
    } else {
        node_with_endpoint(list.skip(1), gid, is_reader)
    }
}

/// The nodes of a participant, in order.
pub open spec fn nodes_of_participant(list: Seq<NodeEntry>, gid: TopicGid) -> Seq<NodeEntry>
    decreases list.len(),
{
    if list.len() == 0 {
        seq![]
    } else if list[0].key.participant_gid == gid {
        seq![list[0]] + nodes_of_participant(list.skip(1), gid)
    } else {
        nodes_of_participant(list.skip(1), gid)
    }
}

impl NodeTable {
    /// The node that has the given reader, or writer.
    pub fn node_for_endpoint(&self, gid: &TopicGid, is_reader: bool) -> (r: Option<&NodeEntry>)
        ensures
            match r {
                Some(node) => node_with_endpoint(self.nodes@, *gid, is_reader) == Some(*node),
                None => node_with_endpoint(self.nodes@, *gid, is_reader) is None,
            },
    {
        let list = &self.nodes;
        let mut i: usize = 0;
        assert(list@.skip(0) =~= list@);
        while i < list.len()
            invariant
                list == &self.nodes,
                i <= list.len(),
                node_with_endpoint(list@, *gid, is_reader) == node_with_endpoint(
                    list@.skip(i as int),
                    *gid,
                    is_reader,
                ),
            decreases list.len() - i,
        {
            assert(list@.skip(i as int).skip(1) =~= list@.skip(i + 1));
            let found = if is_reader {
                has_gid(&list[i].reader_gids, gid)
            } else {
                has_gid(&list[i].writer_gids, gid)
            };
            if found {
                return Some(&list[i]);
            }
            i += 1;
        }
        None
    }

    /// The node of a participant that has just one.
    pub fn only_node_of_participant(&self, gid: &TopicGid) -> (r: Option<&NodeEntry>)
        ensures
            match r {
                Some(node) => nodes_of_participant(self.nodes@, *gid) == seq![*node],
                None => nodes_of_participant(self.nodes@, *gid).len() != 1,
            },
    {
        let list = &self.nodes;
        let mut found: Option<&NodeEntry> = None;
        let mut i: usize = 0;
        assert(list@.skip(0) =~= list@);
        while i < list.len()
            invariant
                list == &self.nodes,
                i <= list.len(),
                nodes_of_participant(list@, *gid) == (match found {
                    Some(node) => seq![*node],
                    None => seq![],
                }) + nodes_of_participant(list@.skip(i as int), *gid),
            decreases list.len() - i,
        {
            let ghost rest = list@.skip(i as int);
            assert(rest.skip(1) =~= list@.skip(i + 1));
            assert(rest[0] == list@[i as int]);
            if list[i].key.participant_gid.same(gid) {
                if found.is_some() {
                    return None;
                }
                found = Some(&list[i]);
            }
            i += 1;
        }
        found
    }
}

} // verus!
