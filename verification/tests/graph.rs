//! Names, and the picture of the ROS graph that is drawn from discovery.

use ros2probe::command::endpoints::{is_local_endpoint, locator_is_local};
use ros2probe::command::names::{
    classify_action_endpoint, classify_service_endpoint, format_durability, format_duration,
    format_gid, format_liveliness, format_reliability, full_node_name, normalize_topic_name,
    normalize_type_name, ActionRole, ServiceRole,
};
use ros2probe::command::state::{refresh_from_discovery, CommandState};
use ros2probe::common::TopicGid;
use ros2probe::discovery::tables::{
    DiscoveryTable, DurabilityQos, DurationValue, EndpointEntry, LivelinessQos, Locator, NodeEntry,
    NodeKey, NodeTable, ParticipantEntry, ReliabilityQos, TopicView,
};

fn gid(first: u8) -> TopicGid {
    let mut bytes = [0; 16];
    bytes[0] = first;
    TopicGid { bytes }
}

fn locator(kind: i32, address: [u8; 16]) -> Locator {
    Locator { kind, port: 7411, address }
}

fn v4(a: u8, b: u8, c: u8, d: u8) -> [u8; 16] {
    [0, 0, 0, 0, 0, 0, 0, 0, 0, 0, 0, 0, a, b, c, d]
}

fn endpoint(id: u8, participant: u8, topic: &str, ros_type: Option<&str>) -> EndpointEntry {
    EndpointEntry {
        endpoint_gid: gid(id),
        participant_gid: Some(gid(participant)),
        topic_name: Some(topic.to_string()),
        ros_type: ros_type.map(str::to_string),
        unicast_locators: vec![],
        reliability: Some(ReliabilityQos { kind: 2 }),
        durability: Some(DurabilityQos { kind: 0 }),
        deadline: None,
        lifespan: None,
        liveliness: None,
    }
}

fn node(participant: u8, name: &str, readers: &[u8], writers: &[u8]) -> NodeEntry {
    NodeEntry {
        key: NodeKey {
            participant_gid: gid(participant),
            node_namespace: "/".to_string(),
            node_name: name.to_string(),
        },
        reader_gids: readers.iter().map(|id| gid(*id)).collect(),
        writer_gids: writers.iter().map(|id| gid(*id)).collect(),
    }
}

#[test]
fn topic_names_become_absolute() {
    assert_eq!(normalize_topic_name("rt/chatter").as_deref(), Some("/chatter"));
    assert_eq!(normalize_topic_name("rq/addRequest").as_deref(), Some("/addRequest"));
    assert_eq!(normalize_topic_name("rr/addReply").as_deref(), Some("/addReply"));
    assert_eq!(normalize_topic_name("/chatter").as_deref(), Some("/chatter"));
    assert_eq!(normalize_topic_name("chatter"), None);
    assert_eq!(normalize_topic_name(""), None);
}

#[test]
fn type_names_become_ros_names() {
    assert_eq!(normalize_type_name("std_msgs::msg::dds_::String_"), "std_msgs/msg/String");
    assert_eq!(normalize_type_name("p::srv::dds_::Add_Request_"), "p/srv/Add_Request");
    assert_eq!(normalize_type_name("std_msgs/msg/String"), "std_msgs/msg/String");
    assert_eq!(normalize_type_name("other"), "other");
}

#[test]
fn services_have_two_sides() {
    let side = |is_reader, ros_type| classify_service_endpoint("/addRequest", ros_type, is_reader);
    let (name, ros_type, role) = side(true, "p/srv/Add_Request").unwrap();
    assert_eq!((name.as_str(), ros_type.as_str()), ("/add", "p/srv/Add"));
    assert!(matches!(role, ServiceRole::Server));
    let (_, _, role) = side(false, "p/srv/Add_Request").unwrap();
    assert!(matches!(role, ServiceRole::Client));
    let (name, _, role) = classify_service_endpoint("/addReply", "p/srv/Add_Response", true).unwrap();
    assert_eq!(name, "/add");
    assert!(matches!(role, ServiceRole::Client));
    assert!(side(true, "p/msg/Add_Request").is_none());
    assert!(side(true, "p/srv/Add").is_none());
}

#[test]
fn actions_have_two_sides() {
    let ros_type = "p/action/Go_FeedbackMessage";
    let (name, _, role) =
        classify_action_endpoint("/go/_action/feedback", ros_type, true).unwrap();
    assert_eq!(name, "/go");
    assert!(matches!(role, ActionRole::Client));
    let (_, _, role) =
        classify_action_endpoint("/go/_action/feedback", ros_type, false).unwrap();
    assert!(matches!(role, ActionRole::Server));
    let (name, ros_type, role) = classify_action_endpoint(
        "/go/_action/send_goalRequest",
        "p/action/Go_SendGoal_Request",
        true,
    )
    .unwrap();
    assert_eq!((name.as_str(), ros_type.as_deref()), ("/go", Some("p/action/Go")));
    assert!(matches!(role, ActionRole::Server));
    assert!(classify_action_endpoint("/chatter", "std_msgs/msg/String", true).is_none());
}

#[test]
fn values_are_formatted() {
    assert_eq!(
        format_gid(&gid(0xab)),
        "ab.00.00.00.00.00.00.00.00.00.00.00.00.00.00.00.00.00.00.00.00.00.00.00"
    );
    assert_eq!(format_reliability(ReliabilityQos { kind: 1 }), "BEST_EFFORT");
    assert_eq!(format_reliability(ReliabilityQos { kind: 2 }), "RELIABLE");
    assert_eq!(format_reliability(ReliabilityQos { kind: 9 }), "UNKNOWN (9)");
    let durability = |kind| format_durability(DurabilityQos { kind });
    assert_eq!(durability(0), "VOLATILE");
    assert_eq!(durability(1), "TRANSIENT_LOCAL");
    assert_eq!(durability(2), "TRANSIENT");
    assert_eq!(durability(3), "PERSISTENT");
    assert_eq!(durability(10), "UNKNOWN (10)");
    let lease_duration = DurationValue { seconds: 1, fraction: 0 };
    let liveliness = |kind| format_liveliness(LivelinessQos { kind, lease_duration });
    assert_eq!(liveliness(0), "AUTOMATIC");
    assert_eq!(liveliness(1), "MANUAL_BY_PARTICIPANT");
    assert_eq!(liveliness(2), "MANUAL_BY_TOPIC");
    assert_eq!(liveliness(3), "UNKNOWN (3)");
    let duration = |seconds, fraction| format_duration(DurationValue { seconds, fraction });
    assert_eq!(duration(-1, 0), "Infinite");
    assert_eq!(duration(i32::MAX, u32::MAX), "Infinite");
    assert_eq!(duration(10, 0), "10s");
    assert_eq!(duration(1, 5), "1.000000005s");
    assert_eq!(duration(1, 4_000_000_000), "1.4000000000s");
    assert_eq!(full_node_name("/", "talker"), "/talker");
    assert_eq!(full_node_name("/demo", "talker"), "/demo/talker");
}

#[test]
fn local_locators_are_known() {
    assert!(locator_is_local(&locator(0x0100_0000, v4(10, 0, 0, 1))));
    assert!(locator_is_local(&locator(0x0100_0003, v4(10, 0, 0, 1))));
    assert!(locator_is_local(&locator(1, v4(127, 0, 0, 1))));
    assert!(!locator_is_local(&locator(1, v4(10, 0, 0, 1))));
    assert!(locator_is_local(&locator(2, v4(0, 0, 0, 1))));
    assert!(!locator_is_local(&locator(2, v4(0, 0, 0, 2))));
    assert!(!locator_is_local(&locator(64, v4(127, 0, 0, 1))));
    assert!(!is_local_endpoint(&[]));
    assert!(is_local_endpoint(&[locator(1, v4(127, 0, 0, 1))]));
    assert!(!is_local_endpoint(&[locator(1, v4(127, 0, 0, 1)), locator(1, v4(10, 0, 0, 1))]));
}

fn snapshot() -> CommandState {
    let string = Some("std_msgs::msg::dds_::String_");
    let table = DiscoveryTable {
        publications: vec![
            endpoint(1, 100, "rt/chatter", string),
            endpoint(2, 100, "rq/addRequest", Some("p::srv::dds_::Add_Request_")),
            endpoint(3, 101, "rt/go/_action/feedback", Some("p::action::dds_::Go_FeedbackMessage_")),
        ],
        subscriptions: vec![
            endpoint(11, 101, "rt/chatter", string),
            endpoint(12, 101, "rq/addRequest", Some("p::srv::dds_::Add_Request_")),
            endpoint(13, 100, "rt/go/_action/feedback", None),
        ],
        participants: vec![ParticipantEntry {
            participant_gid: gid(100),
            default_unicast_locators: vec![locator(1, v4(127, 0, 0, 1))],
        }],
        topics: vec![
            TopicView {
                topic_name: "rt/chatter".to_string(),
                type_names: vec!["std_msgs::msg::dds_::String_".to_string()],
                publisher_gids: vec![gid(1)],
                subscription_gids: vec![gid(11)],
                publisher_count: 1,
                subscription_count: 1,
            },
            TopicView {
                topic_name: "rq/addRequest".to_string(),
                type_names: vec![],
                publisher_gids: vec![gid(2)],
                subscription_gids: vec![gid(12)],
                publisher_count: 1,
                subscription_count: 1,
            },
        ],
    };
    let nodes = NodeTable {
        nodes: vec![node(100, "client", &[13], &[1, 2]), node(101, "server", &[11, 12], &[3])],
    };
    refresh_from_discovery(&table, &nodes, &vec![gid(101)])
}

#[test]
fn snapshot_describes_the_graph() {
    let state = snapshot();
    let names: Vec<_> = state.nodes.iter().map(|node| node.name.as_str()).collect();
    assert_eq!(names, vec!["client", "server"]);
    assert_eq!(state.node_details.len(), 2);
    let client = &state.node_details[0];
    assert_eq!(client.publishers[0].name, "/chatter");
    assert_eq!(client.publishers[0].ros_type, "std_msgs/msg/String");
    assert_eq!(client.service_clients[0].name, "/add");
    assert!(client.subscribers.is_empty());
    let server = &state.node_details[1];
    assert_eq!(server.subscribers[0].name, "/chatter");
    assert_eq!(server.service_servers[0].ros_type, "p/srv/Add");
    assert_eq!(state.services.len(), 1);
    assert_eq!(state.services[0].name, "/add");
    assert_eq!(state.actions.len(), 1);
    assert_eq!(state.actions[0].name, "/go");
    assert_eq!(state.actions[0].ros_type.as_deref(), Some("p/action/Go"));
    assert_eq!(state.action_details[0].clients, vec!["/client"]);
    assert_eq!(state.action_details[0].servers, vec!["/server"]);
}

#[test]
fn snapshot_describes_topics() {
    let state = snapshot();
    assert_eq!(state.topics.len(), 1);
    let details = &state.topic_details[0];
    assert_eq!(details.name, "/chatter");
    assert_eq!(details.type_names, vec!["std_msgs/msg/String"]);
    assert!(!details.local_only);
    assert!(!state.topics[0].local_only);
    let publisher = &details.publishers[0];
    assert_eq!(publisher.endpoint_type, "PUBLISHER");
    assert_eq!(publisher.node_name.as_deref(), Some("client"));
    assert_eq!(publisher.reliability.as_deref(), Some("RELIABLE"));
    assert!(publisher.shm);
    assert!(publisher.local_only);
    let subscription = &details.subscriptions[0];
    assert_eq!(subscription.endpoint_type, "SUBSCRIPTION");
    assert_eq!(subscription.node_name.as_deref(), Some("server"));
    assert!(!subscription.shm);
    assert!(!subscription.local_only);
}

#[test]
fn empty_discovery_gives_an_empty_snapshot() {
    let table = DiscoveryTable {
        publications: vec![],
        subscriptions: vec![],
        participants: vec![],
        topics: vec![],
    };
    let state = refresh_from_discovery(&table, &NodeTable { nodes: vec![] }, &vec![]);
    assert!(state.topics.is_empty() && state.nodes.is_empty() && state.actions.is_empty());
}
