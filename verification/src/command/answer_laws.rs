//! What stands in the answers to clients, field by field.

use crate::command::protocol::{
    BagSessionInfo, TopicBwStatusResponse, TopicDelayMessage, TopicDelayStatusResponse,
    TopicDetails, TopicEchoMessage, TopicEchoStatusResponse, TopicEndpointInfo,
    TopicHzStatusResponse, TopicInfo,
};
use crate::command::endpoints::topic_view_details;
use crate::command::node_laws::known;
use crate::command::server::{is_error, ClientSlots, CommandResponse};
use crate::command::snapshot_laws::law_topic_details_tell_of_topic;
use crate::command::state::{topic_details_views, topics_view};
use crate::common::TopicGid;
use crate::discovery::tables::{DiscoveryTable, NodeEntry, TopicView};
use vstd::prelude::*;
use vstd::string::*;

verus! {

/// A text that may be missing is held, or not, as it is told.
pub open spec fn holds(text: Option<String>, told: Option<Seq<char>>) -> bool {
    match (text, told) {
        (Some(text), Some(told)) => text@ == told,
        (None, None) => true,
        _ => false,
    }
}

/// What is told of a topic is what its answer holds.
pub proof fn law_topic_answers(topic: TopicInfo, details: TopicDetails, i: int)
    ensures
        topic@.name == topic.name@,
        topic@.publisher_count == topic.publisher_count,
        topic@.subscription_count == topic.subscription_count,
        topic@.local_only == topic.local_only,
        topic@.type_names.len() == topic.type_names@.len(),
        0 <= i < topic.type_names@.len() ==> topic@.type_names[i] == topic.type_names@[i]@,
        details@.name == details.name@,
        details@.publisher_count == details.publisher_count,
        details@.subscription_count == details.subscription_count,
        details@.local_only == details.local_only,
        details@.type_names.len() == details.type_names@.len(),
        0 <= i < details.type_names@.len() ==> details@.type_names[i] == details.type_names@[i]@,
        details@.publishers.len() == details.publishers@.len(),
        0 <= i < details.publishers@.len() ==> details@.publishers[i] == details.publishers@[i]@,
        details@.subscriptions.len() == details.subscriptions@.len(),
        0 <= i < details.subscriptions@.len() ==> details@.subscriptions[i]
            == details.subscriptions@[i]@,
{
}

/// What is told of an endpoint is what its answer holds.
pub proof fn law_endpoint_answers(endpoint: TopicEndpointInfo)
    ensures
        endpoint@.gid == endpoint.gid@,
        endpoint@.endpoint_type == endpoint.endpoint_type@,
        endpoint@.shm == endpoint.shm,
        endpoint@.local_only == endpoint.local_only,
        holds(endpoint.node_name, endpoint@.node_name),
        holds(endpoint.node_namespace, endpoint@.node_namespace),
        holds(endpoint.topic_type, endpoint@.topic_type),
        holds(endpoint.reliability, endpoint@.reliability),
        holds(endpoint.durability, endpoint@.durability),
        holds(endpoint.deadline, endpoint@.deadline),
        holds(endpoint.lifespan, endpoint@.lifespan),
        holds(endpoint.liveliness, endpoint@.liveliness),
        holds(endpoint.liveliness_lease_duration, endpoint@.liveliness_lease_duration),
{
}

/// What is told of a bandwidth and of a rate is what their answers hold.
pub proof fn law_figure_answers(bw: TopicBwStatusResponse, hz: TopicHzStatusResponse)
    ensures
        bw@.active == bw.active,
        holds(bw.topic_name, bw@.topic_name),
        bw@.stats == bw.stats,
        bw@.message_count == bw.message_count,
        bw@.window_size == bw.window_size,
        bw@.last_message_nanos_ago == bw.last_message_nanos_ago,
        hz@.active == hz.active,
        holds(hz.topic_name, hz@.topic_name),
        hz@.last_message_nanos_ago == hz.last_message_nanos_ago,
        hz.stats is None <==> hz@.stats is None,
        hz.stats matches Some(stats) ==> hz@.stats == Some((stats.spans@, stats.summary)),
{
}

/// What is told of messages is what their answers hold, message by message.
pub proof fn law_message_answers(
    echo: TopicEchoStatusResponse,
    echoed: TopicEchoMessage,
    delay: TopicDelayStatusResponse,
    delayed: TopicDelayMessage,
    i: int,
)
    ensures
        echo@.active == echo.active,
        holds(echo.topic_name, echo@.topic_name),
        echo@.messages.len() == echo.messages@.len(),
        0 <= i < echo.messages@.len() ==> echo@.messages[i] == echo.messages@[i]@,
        holds(echoed.ros_type, echoed@.ros_type),
        echoed@.payload_base64 == echoed.payload_base64@,
        echoed@.lost_before == echoed.lost_before,
        delay@.active == delay.active,
        holds(delay.topic_name, delay@.topic_name),
        delay@.messages.len() == delay.messages@.len(),
        0 <= i < delay.messages@.len() ==> delay@.messages[i] == delay.messages@[i]@,
        holds(delayed.ros_type, delayed@.ros_type),
        delayed@.payload_base64 == delayed.payload_base64@,
        delayed@.received_at_nanos == delayed.received_at_nanos,
{
}

/// What is told of a recording is what its answer holds.
pub proof fn law_recording_answers(info: BagSessionInfo, i: int)
    ensures
        info@.output == info.output@,
        info@.paused == info.paused,
        info@.all_topics == info.all_topics,
        info@.no_discovery == info.no_discovery,
        info@.compression_format == info.compression_format,
        info@.topics.len() == info.topics@.len(),
        0 <= i < info.topics@.len() ==> info@.topics[i] == info.topics@[i]@,
{
}

/// An error is told with its message.
pub proof fn law_error_answers(response: CommandResponse, message: Seq<char>)
    requires
        is_error(response, message),
    ensures
        response matches CommandResponse::Error(error) && error.message@ == message,
{
}

/// No more than thirty-two clients are served at a time.
pub proof fn law_clients_bounded(slots: ClientSlots)
    requires
        slots.wf(),
    ensures
        slots@ <= 32,
{
}

proof fn lemma_topics_in_place(
    discovery_table: DiscoveryTable,
    nodes: Seq<NodeEntry>,
    topics: Seq<TopicView>,
    remote: Seq<TopicGid>,
    k: int,
)
    requires
        forall|i: int|
            0 <= i < topics.len() ==> topic_view_details(
                discovery_table,
                nodes,
                #[trigger] topics[i],
                remote,
            ) is Some,
    ensures
        topics_view(discovery_table, nodes, topics, remote).len() == topics.len(),
        0 <= k < topics.len() ==> Some(topics_view(discovery_table, nodes, topics, remote)[k])
            == topic_view_details(discovery_table, nodes, topics[k], remote),
    decreases topics.len(),
{
    if topics.len() > 0 {
        let before = topics.drop_last();
        assert forall|i: int| 0 <= i < before.len() implies topic_view_details(
            discovery_table,
            nodes,
            #[trigger] before[i],
            remote,
        ) is Some by {
            assert(before[i] == topics[i]);
        }
        assert(topic_view_details(discovery_table, nodes, topics[topics.len() - 1], remote) is Some);
        lemma_topics_in_place(discovery_table, nodes, before, remote, k);
        if 0 <= k < before.len() {
            assert(before[k] == topics[k]);
        }
    }
}

/// In a snapshot, every topic of messages is described in its place: with its name, with as
/// many publishers and subscriptions as discovery counts, and with the writers and readers
/// that are known, in order.
pub proof fn law_snapshot_describes_topics(
    list: Seq<TopicDetails>,
    discovery_table: DiscoveryTable,
    nodes: Seq<NodeEntry>,
    topics: Seq<TopicView>,
    remote: Seq<TopicGid>,
    rests: Seq<Seq<char>>,
    k: int,
)
    requires
        topic_details_views(list) == topics_view(discovery_table, nodes, topics, remote),
        rests.len() == topics.len(),
        forall|i: int|
            0 <= i < topics.len() ==> (#[trigger] topics[i]).topic_name@ == "rt/"@ + rests[i],
        0 <= k < topics.len(),
    ensures
        list.len() == topics.len(),
        list[k].name@ == "/"@ + rests[k],
        list[k].publisher_count == topics[k].publisher_count,
        list[k].subscription_count == topics[k].subscription_count,
        list[k].publishers@.len() == known(
            discovery_table.publications@,
            topics[k].publisher_gids@,
            false,
        ).len(),
        list[k].subscriptions@.len() == known(
            discovery_table.subscriptions@,
            topics[k].subscription_gids@,
            true,
        ).len(),
{
    assert forall|i: int| 0 <= i < topics.len() implies topic_view_details(
        discovery_table,
        nodes,
        #[trigger] topics[i],
        remote,
    ) is Some by {
        law_topic_details_tell_of_topic(discovery_table, nodes, topics[i], remote, rests[i]);
    }
    lemma_topics_in_place(discovery_table, nodes, topics, remote, k);
    law_topic_details_tell_of_topic(discovery_table, nodes, topics[k], remote, rests[k]);
    assert(topic_details_views(list).len() == list.len());
    assert(topic_details_views(list)[k] == list[k]@);
    assert(list[k]@.publishers.len() == list[k].publishers@.len());
    assert(list[k]@.subscriptions.len() == list[k].subscriptions@.len());
}

} // verus!
