//! What clients ask and what they are told.

use crate::numbers::Summary;
use crate::text::{text_opt, texts};
use vstd::prelude::*;

verus! {

// The ROS graph.

/// An action.
#[derive(Clone, Debug)]
pub struct ActionInfo {
    pub name: String,
    pub ros_type: Option<String>,
}

/// An action, with the nodes on both sides of it.
#[derive(Clone, Debug)]
pub struct ActionDetails {
    pub name: String,
    pub ros_type: Option<String>,
    pub clients: Vec<String>,
    pub servers: Vec<String>,
}

/// A node.
#[derive(Clone, Debug)]
pub struct NodeInfo {
    pub name: String,
    pub namespace: String,
}

/// A topic that a node writes or reads.
#[derive(Clone, Debug)]
pub struct NodeEndpointSummary {
    pub name: String,
    pub ros_type: String,
}

/// A service that a node offers or calls.
#[derive(Clone, Debug)]
pub struct NodeServiceInfo {
    pub name: String,
    pub ros_type: String,
}

/// A node, with what it takes part in.
#[derive(Clone, Debug)]
pub struct NodeDetails {
    pub name: String,
    pub namespace: String,
    pub subscribers: Vec<NodeEndpointSummary>,
    pub publishers: Vec<NodeEndpointSummary>,
    pub service_servers: Vec<NodeServiceInfo>,
    pub service_clients: Vec<NodeServiceInfo>,
}

/// A service.
#[derive(Clone, Debug)]
pub struct ServiceInfo {
    pub name: String,
    pub ros_type: String,
}

/// A topic.
#[derive(Clone, Debug)]
pub struct TopicInfo {
    pub name: String,
    pub type_names: Vec<String>,
    pub publisher_count: usize,
    pub subscription_count: usize,
    pub local_only: bool,
}

/// What a [`TopicInfo`] holds.
#[verifier::ext_equal]
pub struct TopicInfoView {
    pub name: Seq<char>,
    pub type_names: Seq<Seq<char>>,
    pub publisher_count: usize,
    pub subscription_count: usize,
    pub local_only: bool,
}

impl View for TopicInfo {
    type V = TopicInfoView;

    open spec fn view(&self) -> TopicInfoView {
        TopicInfoView {
            name: self.name@,
            type_names: texts(self.type_names@),
            publisher_count: self.publisher_count,
            subscription_count: self.subscription_count,
            local_only: self.local_only,
        }
    }
}

/// A writer or a reader on a topic.
#[derive(Clone, Debug)]
pub struct TopicEndpointInfo {
    pub gid: String,
    pub node_name: Option<String>,
    pub node_namespace: Option<String>,
    pub topic_type: Option<String>,
    pub endpoint_type: String,
    pub reliability: Option<String>,
    pub durability: Option<String>,
    pub deadline: Option<String>,
    pub lifespan: Option<String>,
    pub liveliness: Option<String>,
    pub liveliness_lease_duration: Option<String>,
    pub shm: bool,
    pub local_only: bool,
}

/// What a [`TopicEndpointInfo`] holds.
#[verifier::ext_equal]
pub struct TopicEndpointView {
    pub gid: Seq<char>,
    pub node_name: Option<Seq<char>>,
    pub node_namespace: Option<Seq<char>>,
    pub topic_type: Option<Seq<char>>,
    pub endpoint_type: Seq<char>,
    pub reliability: Option<Seq<char>>,
    pub durability: Option<Seq<char>>,
    pub deadline: Option<Seq<char>>,
    pub lifespan: Option<Seq<char>>,
    pub liveliness: Option<Seq<char>>,
    pub liveliness_lease_duration: Option<Seq<char>>,
    pub shm: bool,
    pub local_only: bool,
}

impl View for TopicEndpointInfo {
    type V = TopicEndpointView;

    open spec fn view(&self) -> TopicEndpointView {
        TopicEndpointView {
            gid: self.gid@,
            node_name: text_opt(self.node_name),
            node_namespace: text_opt(self.node_namespace),
            topic_type: text_opt(self.topic_type),
            endpoint_type: self.endpoint_type@,
            reliability: text_opt(self.reliability),
            durability: text_opt(self.durability),
            deadline: text_opt(self.deadline),
            lifespan: text_opt(self.lifespan),
            liveliness: text_opt(self.liveliness),
            liveliness_lease_duration: text_opt(self.liveliness_lease_duration),
            shm: self.shm,
            local_only: self.local_only,
        }
    }
}

/// The views of a list of endpoints.
pub open spec fn endpoint_views(list: Seq<TopicEndpointInfo>) -> Seq<TopicEndpointView> {
    list.map_values(|endpoint: TopicEndpointInfo| endpoint@)
}

/// A topic, with the endpoints on it.
#[derive(Clone, Debug)]
pub struct TopicDetails {
    pub name: String,
    pub type_names: Vec<String>,
    pub publisher_count: usize,
    pub subscription_count: usize,
    pub publishers: Vec<TopicEndpointInfo>,
    pub subscriptions: Vec<TopicEndpointInfo>,
    pub local_only: bool,
}

/// What a [`TopicDetails`] holds.
#[verifier::ext_equal]
pub struct TopicDetailsView {
    pub name: Seq<char>,
    pub type_names: Seq<Seq<char>>,
    pub publisher_count: usize,
    pub subscription_count: usize,
    pub publishers: Seq<TopicEndpointView>,
    pub subscriptions: Seq<TopicEndpointView>,
    pub local_only: bool,
}

impl View for TopicDetails {
    type V = TopicDetailsView;

    open spec fn view(&self) -> TopicDetailsView {
        TopicDetailsView {
            name: self.name@,
            type_names: texts(self.type_names@),
            publisher_count: self.publisher_count,
            subscription_count: self.subscription_count,
            publishers: endpoint_views(self.publishers@),
            subscriptions: endpoint_views(self.subscriptions@),
            local_only: self.local_only,
        }
    }
}

// Requests and answers. Each answer that holds text has a view of its own.

/// Asks for the list of topics.
#[derive(Clone, Copy, Debug, Eq, PartialEq)]
pub struct TopicListRequest {
    pub show_types: bool,
    pub count_only: bool,
    pub verbose: bool,
    pub include_hidden: bool,
}

/// The list of topics.
#[derive(Clone, Debug)]
pub struct TopicListResponse {
    pub total_count: usize,
    pub topics: Vec<TopicInfo>,
}

/// Asks all participants to announce themselves.
#[derive(Clone, Copy, Debug, Eq, PartialEq)]
pub struct DiscoverRequest;

/// Confirms that participants were asked.
#[derive(Clone, Copy, Debug, Eq, PartialEq)]
pub struct DiscoverResponse {
    pub triggered: bool,
}

/// Starts watching a topic, with a window of so many messages.
#[derive(Clone, Debug)]
pub struct TopicStartRequest {
    pub topic_name: String,
    pub window_size: usize,
}

/// Starts echoing a topic.
#[derive(Clone, Debug)]
pub struct TopicEchoStartRequest {
    pub topic_name: String,
}

/// A topic is being watched.
#[derive(Clone, Debug)]
pub struct TopicStartResponse {
    pub topic_name: String,
}

/// A topic is no longer being watched, if one was.
#[derive(Clone, Debug)]
pub struct TopicStopResponse {
    pub stopped: bool,
    pub topic_name: Option<String>,
}

/// The sizes of the messages in a window, and how long the window lasted.
#[derive(Clone, Copy, Debug, Eq, PartialEq)]
pub struct BwStats {
    pub sizes: Summary,
    pub elapsed_nanos: u64,
}

/// How much a topic carries.
#[derive(Clone, Debug)]
pub struct TopicBwStatusResponse {
    pub active: bool,
    pub topic_name: Option<String>,
    pub stats: Option<BwStats>,
    pub message_count: usize,
    pub window_size: usize,
    pub last_message_nanos_ago: Option<u64>,
}

/// What a [`TopicBwStatusResponse`] holds.
#[verifier::ext_equal]
pub struct BwStatusView {
    pub active: bool,
    pub topic_name: Option<Seq<char>>,
    pub stats: Option<BwStats>,
    pub message_count: usize,
    pub window_size: usize,
    pub last_message_nanos_ago: Option<u64>,
}

impl View for TopicBwStatusResponse {
    type V = BwStatusView;

    open spec fn view(&self) -> BwStatusView {
        BwStatusView {
            active: self.active,
            topic_name: text_opt(self.topic_name),
            stats: self.stats,
            message_count: self.message_count,
            window_size: self.window_size,
            last_message_nanos_ago: self.last_message_nanos_ago,
        }
    }
}

/// Spans of time in a window, in nanoseconds, oldest first.
#[derive(Clone, Debug)]
pub struct SpanStats {
    pub spans: Vec<u64>,
    pub summary: Summary,
}

/// The spans of a window, and what they amount to.
pub open spec fn span_view(stats: Option<SpanStats>) -> Option<(Seq<u64>, Summary)> {
    match stats {
        Some(stats) => Some((stats.spans@, stats.summary)),
        None => None,
    }
}

/// How often a topic carries a message.
#[derive(Clone, Debug)]
pub struct TopicHzStatusResponse {
    pub active: bool,
    pub topic_name: Option<String>,
    pub stats: Option<SpanStats>,
    pub last_message_nanos_ago: Option<u64>,
}

/// What a [`TopicHzStatusResponse`] holds.
#[verifier::ext_equal]
pub struct HzStatusView {
    pub active: bool,
    pub topic_name: Option<Seq<char>>,
    pub stats: Option<(Seq<u64>, Summary)>,
    pub last_message_nanos_ago: Option<u64>,
}

impl View for TopicHzStatusResponse {
    type V = HzStatusView;

    open spec fn view(&self) -> HzStatusView {
        HzStatusView {
            active: self.active,
            topic_name: text_opt(self.topic_name),
            stats: span_view(self.stats),
            last_message_nanos_ago: self.last_message_nanos_ago,
        }
    }
}

/// A message of an echoed topic.
#[derive(Clone, Debug)]
pub struct TopicEchoMessage {
    pub ros_type: Option<String>,
    pub payload_base64: String,
    pub lost_before: usize,
}

/// What a [`TopicEchoMessage`] holds.
#[verifier::ext_equal]
pub struct EchoMessageView {
    pub ros_type: Option<Seq<char>>,
    pub payload_base64: Seq<char>,
    pub lost_before: usize,
}

impl View for TopicEchoMessage {
    type V = EchoMessageView;

    open spec fn view(&self) -> EchoMessageView {
        EchoMessageView {
            ros_type: text_opt(self.ros_type),
            payload_base64: self.payload_base64@,
            lost_before: self.lost_before,
        }
    }
}

/// The views of echoed messages.
pub open spec fn echo_views(messages: Seq<TopicEchoMessage>) -> Seq<EchoMessageView> {
    messages.map_values(|message: TopicEchoMessage| message@)
}

/// The messages of an echoed topic since they were last asked for.
#[derive(Clone, Debug)]
pub struct TopicEchoStatusResponse {
    pub active: bool,
    pub topic_name: Option<String>,
    pub messages: Vec<TopicEchoMessage>,
}

/// What a [`TopicEchoStatusResponse`] holds.
#[verifier::ext_equal]
pub struct EchoStatusView {
    pub active: bool,
    pub topic_name: Option<Seq<char>>,
    pub messages: Seq<EchoMessageView>,
}

impl View for TopicEchoStatusResponse {
    type V = EchoStatusView;

    open spec fn view(&self) -> EchoStatusView {
        EchoStatusView {
            active: self.active,
            topic_name: text_opt(self.topic_name),
            messages: echo_views(self.messages@),
        }
    }
}

/// A message of a topic whose delay is watched.
#[derive(Clone, Debug)]
pub struct TopicDelayMessage {
    pub ros_type: Option<String>,
    pub payload_base64: String,
    pub received_at_nanos: u64,
}

/// What a [`TopicDelayMessage`] holds.
#[verifier::ext_equal]
pub struct DelayMessageView {
    pub ros_type: Option<Seq<char>>,
    pub payload_base64: Seq<char>,
    pub received_at_nanos: u64,
}

impl View for TopicDelayMessage {
    type V = DelayMessageView;

    open spec fn view(&self) -> DelayMessageView {
        DelayMessageView {
            ros_type: text_opt(self.ros_type),
            payload_base64: self.payload_base64@,
            received_at_nanos: self.received_at_nanos,
        }
    }
}

/// The views of messages whose delay is watched.
pub open spec fn delay_views(messages: Seq<TopicDelayMessage>) -> Seq<DelayMessageView> {
    messages.map_values(|message: TopicDelayMessage| message@)
}

/// The messages of a topic whose delay is watched since they were last asked for.
#[derive(Clone, Debug)]
pub struct TopicDelayStatusResponse {
    pub active: bool,
    pub topic_name: Option<String>,
    pub messages: Vec<TopicDelayMessage>,
}

/// What a [`TopicDelayStatusResponse`] holds.
#[verifier::ext_equal]
pub struct DelayStatusView {
    pub active: bool,
    pub topic_name: Option<Seq<char>>,
    pub messages: Seq<DelayMessageView>,
}

impl View for TopicDelayStatusResponse {
    type V = DelayStatusView;

    open spec fn view(&self) -> DelayStatusView {
        DelayStatusView {
            active: self.active,
            topic_name: text_opt(self.topic_name),
            messages: delay_views(self.messages@),
        }
    }
}

/// Rate, bandwidth and delay together.
#[derive(Clone, Debug)]
pub struct TopicHzBwStatusResponse {
    pub hz: TopicHzStatusResponse,
    pub bw: TopicBwStatusResponse,
    pub delay: Option<SpanStats>,
}

/// How a recording is compressed.
#[derive(Clone, Copy, Debug, Eq, PartialEq)]
pub enum CompressionFormat {
    Uncompressed,
    Zstd,
    Lz4,
}

/// Starts a recording.
#[derive(Clone, Debug)]
pub struct BagRecordRequest {
    pub all: bool,
    pub topics: Vec<String>,
    pub output: Option<String>,
    pub compression_format: Option<CompressionFormat>,
    pub no_discovery: bool,
    pub start_paused: bool,
}

/// What is being recorded, and where to.
#[derive(Clone, Debug)]
pub struct BagSessionInfo {
    pub output: String,
    pub paused: bool,
    pub topics: Vec<String>,
    pub all_topics: bool,
    pub no_discovery: bool,
    pub compression_format: CompressionFormat,
}

/// What a [`BagSessionInfo`] holds.
#[verifier::ext_equal]
pub struct BagSessionView {
    pub output: Seq<char>,
    pub paused: bool,
    pub topics: Seq<Seq<char>>,
    pub all_topics: bool,
    pub no_discovery: bool,
    pub compression_format: CompressionFormat,
}

impl View for BagSessionInfo {
    type V = BagSessionView;

    open spec fn view(&self) -> BagSessionView {
        BagSessionView {
            output: self.output@,
            paused: self.paused,
            topics: texts(self.topics@),
            all_topics: self.all_topics,
            no_discovery: self.no_discovery,
            compression_format: self.compression_format,
        }
    }
}

/// Whether a recording is running, and what it records.
#[derive(Clone, Debug)]
pub struct BagStatusResponse {
    pub active: bool,
    pub session: Option<BagSessionInfo>,
}

/// Pauses a recording or resumes it.
#[derive(Clone, Copy, Debug, Eq, PartialEq)]
pub struct BagSetPausedRequest {
    pub paused: bool,
}

/// Whether there is a recording, and whether it is paused.
#[derive(Clone, Copy, Debug, Eq, PartialEq)]
pub struct BagSetPausedResponse {
    pub active: bool,
    pub paused: bool,
}

/// A recording has been stopped, if there was one.
#[derive(Clone, Debug)]
pub struct BagStopResponse {
    pub stopped: bool,
    pub output: Option<String>,
}

} // verus!
